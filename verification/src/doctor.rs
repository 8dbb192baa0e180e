//! Whether a workspace has the tools that it needs.

use vstd::prelude::*;
use vstd::string::*;

use crate::graph::SHELL;
use crate::json::{
    add_member, list, members, object, optional_text, optional_tree, text, tree, trees, Json,
    JsonText, Member,
};
use crate::manifest::Toolchain;
use crate::text::{copy, copy_option, decimal, group_texts, number, pad_right, padded_right, texts};

verus! {

/// A tool: what it is for, and the program that is configured for it.
#[derive(Debug)]
pub struct Tool {
    pub name: String,
    pub configured: String,
}

/// Tools by what they are for, each with its program.
pub open spec fn tool_texts(v: Seq<Tool>) -> Seq<(Seq<char>, Seq<char>)> {
    Seq::new(v.len(), |i: int| (v[i].name@, v[i].configured@))
}

/// The tools of a toolchain that have names.
pub open spec fn named_tools(t: Toolchain) -> Seq<(Seq<char>, Seq<char>)> {
    Seq::new(t.tools.keys@.len(), |i: int| ("tool:"@ + t.tools.keys@[i]@, t.tools.values@[i]@))
}

/// The tools that a workspace needs.
pub open spec fn needed_tools(t: Toolchain) -> Seq<(Seq<char>, Seq<char>)> {
    seq![
        ("C compiler"@, t.cc@),
        ("C++ compiler"@, t.cxx@),
        ("archiver"@, t.ar@),
        ("shell"@, SHELL@),
    ] + (match t.kofunc {
        Some(kofunc) => seq![("Kofun compiler"@, kofunc@)],
        None => Seq::empty(),
    }) + named_tools(t)
}

/// The tools that some commands use where they are there.
pub open spec fn useful_tools() -> Seq<(Seq<char>, Seq<char>)> {
    seq![
        ("fuzzy target picker"@, "fzf"@),
        ("native debugger (GDB)"@, "gdb"@),
        ("native debugger (LLDB)"@, "lldb"@),
        ("Java debugger"@, "jdb"@),
        ("Java runtime"@, "java"@),
        ("Node runtime/debugger"@, "node"@),
        ("Python runtime/debugger"@, "python3"@),
        ("Linux sandbox"@, "bwrap"@),
        ("Graphviz rendering"@, "dot"@),
    ]
}

fn push_tool(out: &mut Vec<Tool>, name: &str, configured: &str)
    ensures
        tool_texts(final(out)@) == tool_texts(old(out)@).push((name@, configured@)),
{
    let ghost was = tool_texts(out@);
    out.push(Tool { name: copy(name), configured: copy(configured) });
    assert(tool_texts(out@) =~= was.push((name@, configured@)));
}

/// The tools that a workspace with this toolchain needs.
pub fn required_tools(toolchain: &Toolchain) -> (r: Vec<Tool>)
    requires
        toolchain.tools.wf(),
    ensures
        tool_texts(r@) == needed_tools(*toolchain),
{
    let mut out: Vec<Tool> = Vec::new();
    push_tool(&mut out, "C compiler", &toolchain.cc);
    push_tool(&mut out, "C++ compiler", &toolchain.cxx);
    push_tool(&mut out, "archiver", &toolchain.ar);
    push_tool(&mut out, "shell", SHELL);
    if let Some(kofunc) = &toolchain.kofunc {
        push_tool(&mut out, "Kofun compiler", kofunc);
    }
    let ghost before = tool_texts(out@);
    let ghost want = named_tools(*toolchain);
    let mut i: usize = 0;
    assert(before + want.take(0) =~= before);
    while i < toolchain.tools.keys.len()
        invariant
            toolchain.tools.wf(),
            want == named_tools(*toolchain),
            i <= toolchain.tools.keys@.len(),
            tool_texts(out@) == before + want.take(i as int),
        decreases toolchain.tools.keys@.len() - i,
    {
        let mut name = copy("tool:");
        name.append(&toolchain.tools.keys[i]);
        push_tool(&mut out, &name, &toolchain.tools.values[i]);
        assert(before + want.take(i + 1) =~= (before + want.take(i as int)).push(want[i as int]));
        i += 1;
    }
    assert(want.take(i as int) =~= want);
    assert(tool_texts(out@) =~= needed_tools(*toolchain));
    out
}

/// The tools that some commands use where they are there.
pub fn optional_tools() -> (r: Vec<Tool>)
    ensures
        tool_texts(r@) == useful_tools(),
{
    let mut out: Vec<Tool> = Vec::new();
    push_tool(&mut out, "fuzzy target picker", "fzf");
    push_tool(&mut out, "native debugger (GDB)", "gdb");
    push_tool(&mut out, "native debugger (LLDB)", "lldb");
    push_tool(&mut out, "Java debugger", "jdb");
    push_tool(&mut out, "Java runtime", "java");
    push_tool(&mut out, "Node runtime/debugger", "node");
    push_tool(&mut out, "Python runtime/debugger", "python3");
    push_tool(&mut out, "Linux sandbox", "bwrap");
    push_tool(&mut out, "Graphviz rendering", "dot");
    assert(tool_texts(out@) =~= useful_tools());
    out
}

/// A tool after it was looked for.
#[derive(Debug)]
pub struct DoctorTool {
    pub name: String,
    pub configured: String,
    pub resolved: Option<String>,
    pub available: bool,
    pub required: bool,
}

/// A tool and where it was found, if it was.
pub fn inspected(tool: &Tool, found: &Option<String>, required: bool) -> (r: DoctorTool)
    ensures
        r.name@ == tool.name@,
        r.configured@ == tool.configured@,
        r.resolved == *found,
        r.available == (*found is Some),
        r.required == required,
{
    DoctorTool {
        name: copy(&tool.name),
        configured: copy(&tool.configured),
        resolved: copy_option(found),
        available: found.is_some(),
        required,
    }
}

/// Every tool is there.
pub open spec fn all_available(v: Seq<DoctorTool>) -> bool {
    forall|i: int| 0 <= i < v.len() ==> (#[trigger] v[i]).available
}

/// Whether every tool is there.
pub fn ready(tools: &Vec<DoctorTool>) -> (r: bool)
    ensures
        r == all_available(tools@),
{
    let mut i: usize = 0;
    while i < tools.len()
        invariant
            i <= tools@.len(),
            forall|k: int| 0 <= k < i ==> (#[trigger] tools@[k]).available,
        decreases tools@.len() - i,
    {
        if !tools[i].available {
            return false;
        }
        i += 1;
    }
    true
}

/// What leads to an item of an inner list.
pub open spec fn branch(last: bool) -> Seq<char> {
    if last {
        "|   `--"@
    } else {
        "|   |--"@
    }
}

/// A line about a tool that is needed.
pub open spec fn required_line(t: DoctorTool, last: bool) -> Seq<char> {
    branch(last) + " "@ + padded_right(t.name@, 20) + " "@ + padded_right(
        if t.available {
            "ok"@
        } else {
            "missing"@
        },
        7,
    ) + " "@ + match t.resolved {
        Some(path) => path@,
        None => t.configured@,
    }
}

/// A line about a tool that is useful.
pub open spec fn optional_line(t: DoctorTool, last: bool) -> Seq<char> {
    branch(last) + " "@ + padded_right(t.name@, 24) + " "@ + if t.available {
        "available"@
    } else {
        "not installed"@
    }
}

/// The lines about tools that are needed.
pub open spec fn required_lines(v: Seq<DoctorTool>) -> Seq<Seq<char>> {
    Seq::new(v.len(), |i: int| required_line(v[i], i + 1 == v.len()))
}

/// The lines about tools that are useful.
pub open spec fn optional_lines(v: Seq<DoctorTool>) -> Seq<Seq<char>> {
    Seq::new(v.len(), |i: int| optional_line(v[i], i + 1 == v.len()))
}

/// What the workspace is like.
pub open spec fn workspace_lines(
    root: Seq<char>,
    profile: Seq<char>,
    platform: Seq<char>,
    targets: nat,
    actions: nat,
    is_ready: bool,
) -> Seq<Seq<char>> {
    seq![
        "frost: doctor \u{b7} "@ + if is_ready {
            "ready"@
        } else {
            "action required"@
        },
        "|-- workspace  "@ + root,
        "|-- config     "@ + profile + " / "@ + platform,
        "|-- graph      "@ + decimal(targets) + " targets / "@ + decimal(actions) + " actions"@,
    ]
}

/// What it comes to.
pub open spec fn result_line(is_ready: bool) -> Seq<char> {
    "`-- result     "@ + if is_ready {
        "build prerequisites are ready"@
    } else {
        "install or correct every missing required tool"@
    }
}

/// The whole report.
pub open spec fn report(
    root: Seq<char>,
    profile: Seq<char>,
    platform: Seq<char>,
    targets: nat,
    actions: nat,
    required: Seq<DoctorTool>,
    optional: Seq<DoctorTool>,
) -> Seq<Seq<char>> {
    let is_ready = all_available(required);
    workspace_lines(root, profile, platform, targets, actions, is_ready) + seq![
        "|-- required tools"@,
    ] + required_lines(required) + seq!["|-- optional integrations"@] + optional_lines(optional)
        + seq![result_line(is_ready)]
}

fn push_branch(line: &mut String, last: bool)
    ensures
        final(line)@ == old(line)@ + branch(last) + " "@,
{
    line.append(
        if last {
            "|   `--"
        } else {
            "|   |--"
        },
    );
    line.append(" ");
}

fn write_required(t: &DoctorTool, last: bool) -> (r: String)
    ensures
        r@ == required_line(*t, last),
{
    let mut line = String::new();
    push_branch(&mut line, last);
    assert(line@ =~= branch(last) + " "@);
    line.append(&pad_right(&t.name, 20));
    line.append(" ");
    line.append(
        &pad_right(
            if t.available {
                "ok"
            } else {
                "missing"
            },
            7,
        ),
    );
    line.append(" ");
    match &t.resolved {
        Some(path) => {
            line.append(path);
        },
        None => {
            line.append(&t.configured);
        },
    }
    line
}

fn write_optional(t: &DoctorTool, last: bool) -> (r: String)
    ensures
        r@ == optional_line(*t, last),
{
    let mut line = String::new();
    push_branch(&mut line, last);
    assert(line@ =~= branch(last) + " "@);
    line.append(&pad_right(&t.name, 24));
    line.append(" ");
    if t.available {
        line.append("available");
    } else {
        line.append("not installed");
    }
    line
}

/// The report on a workspace, line by line.
pub fn doctor_lines(
    root: &str,
    profile: &str,
    platform: &str,
    targets: usize,
    actions: usize,
    required: &Vec<DoctorTool>,
    optional: &Vec<DoctorTool>,
) -> (r: Vec<String>)
    ensures
        texts(r@) == report(
            root@,
            profile@,
            platform@,
            targets as nat,
            actions as nat,
            required@,
            optional@,
        ),
{
    broadcast use group_texts;

    let is_ready = ready(required);
    let mut out: Vec<String> = Vec::new();
    let mut head = copy("frost: doctor \u{b7} ");
    head.append(
        if is_ready {
            "ready"
        } else {
            "action required"
        },
    );
    out.push(head);
    let mut line = copy("|-- workspace  ");
    line.append(root);
    out.push(line);
    let mut line = copy("|-- config     ");
    line.append(profile);
    line.append(" / ");
    line.append(platform);
    out.push(line);
    let mut line = copy("|-- graph      ");
    line.append(&number(targets as u128));
    line.append(" targets / ");
    line.append(&number(actions as u128));
    line.append(" actions");
    out.push(line);
    assert(texts(out@) =~= workspace_lines(
        root@,
        profile@,
        platform@,
        targets as nat,
        actions as nat,
        is_ready,
    ));
    out.push(copy("|-- required tools"));
    let ghost before = texts(out@);
    let ghost want = required_lines(required@);
    let mut i: usize = 0;
    assert(before + want.take(0) =~= before);
    while i < required.len()
        invariant
            want == required_lines(required@),
            i <= required@.len(),
            texts(out@) == before + want.take(i as int),
        decreases required@.len() - i,
    {
        out.push(write_required(&required[i], i + 1 == required.len()));
        assert(before + want.take(i + 1) =~= (before + want.take(i as int)).push(want[i as int]));
        i += 1;
    }
    assert(want.take(i as int) =~= want);
    out.push(copy("|-- optional integrations"));
    let ghost middle = texts(out@);
    let ghost more = optional_lines(optional@);
    let mut j: usize = 0;
    assert(middle + more.take(0) =~= middle);
    while j < optional.len()
        invariant
            more == optional_lines(optional@),
            j <= optional@.len(),
            texts(out@) == middle + more.take(j as int),
        decreases optional@.len() - j,
    {
        out.push(write_optional(&optional[j], j + 1 == optional.len()));
        assert(middle + more.take(j + 1) =~= (middle + more.take(j as int)).push(more[j as int]));
        j += 1;
    }
    assert(more.take(j as int) =~= more);
    let mut line = copy("`-- result     ");
    line.append(
        if is_ready {
            "build prerequisites are ready"
        } else {
            "install or correct every missing required tool"
        },
    );
    out.push(line);
    assert(texts(out@) =~= report(
        root@,
        profile@,
        platform@,
        targets as nat,
        actions as nat,
        required@,
        optional@,
    ));
    out
}


/// A tool in a report.
pub open spec fn tool_tree(t: DoctorTool) -> JsonText {
    JsonText::Object(
        seq![
            ("name"@, JsonText::Text(t.name@)),
            ("configured"@, JsonText::Text(t.configured@)),
            ("resolved"@, optional_tree(t.resolved)),
            ("available"@, JsonText::Flag(t.available)),
            ("required"@, JsonText::Flag(t.required)),
        ],
    )
}

/// Tools in a report.
pub open spec fn tool_trees(tools: Seq<DoctorTool>) -> Seq<JsonText> {
    Seq::new(tools.len(), |i: int| tool_tree(tools[i]))
}

/// A report as a JSON value.
pub open spec fn report_tree(
    root: Seq<char>,
    profile: Seq<char>,
    platform: Seq<char>,
    targets: nat,
    actions: nat,
    required: Seq<DoctorTool>,
    optional: Seq<DoctorTool>,
) -> JsonText {
    JsonText::Object(
        seq![
            (
                "status"@,
                JsonText::Text(
                    if all_available(required) {
                        "ready"@
                    } else {
                        "blocked"@
                    },
                ),
            ),
            ("workspace"@, JsonText::Text(root)),
            ("profile"@, JsonText::Text(profile)),
            ("platform"@, JsonText::Text(platform)),
            ("targets"@, JsonText::Number(targets)),
            ("actions"@, JsonText::Number(actions)),
            ("required_tools"@, JsonText::List(tool_trees(required))),
            ("optional_integrations"@, JsonText::List(tool_trees(optional))),
        ],
    )
}

fn tools_json(tools: &Vec<DoctorTool>) -> (r: Json)
    ensures
        tree(r) == JsonText::List(tool_trees(tools@)),
{
    let mut out: Vec<Json> = Vec::new();
    let mut i: usize = 0;
    while i < tools.len()
        invariant
            i <= tools@.len(),
            out@.len() == i,
            forall|k: int| 0 <= k < i ==> tree(#[trigger] out@[k]) == tool_tree(tools@[k]),
        decreases tools@.len() - i,
    {
        let t = &tools[i];
        let mut v: Vec<Member> = Vec::new();
        add_member(&mut v, "name", text(&t.name));
        add_member(&mut v, "configured", text(&t.configured));
        add_member(&mut v, "resolved", optional_text(&t.resolved));
        add_member(&mut v, "available", Json::Flag(t.available));
        add_member(&mut v, "required", Json::Flag(t.required));
        assert(members(v@) =~= tool_tree(*t)->Object_0);
        out.push(object(v));
        i += 1;
    }
    assert(trees(out@) =~= tool_trees(tools@));
    list(out)
}

/// A report as a JSON value.
pub fn doctor_file(
    root: &str,
    profile: &str,
    platform: &str,
    targets: usize,
    actions: usize,
    required: &Vec<DoctorTool>,
    optional: &Vec<DoctorTool>,
) -> (r: Json)
    ensures
        tree(r) == report_tree(
            root@,
            profile@,
            platform@,
            targets as nat,
            actions as nat,
            required@,
            optional@,
        ),
{
    let status = if ready(required) {
        text("ready")
    } else {
        text("blocked")
    };
    let mut v: Vec<Member> = Vec::new();
    add_member(&mut v, "status", status);
    add_member(&mut v, "workspace", text(root));
    add_member(&mut v, "profile", text(profile));
    add_member(&mut v, "platform", text(platform));
    add_member(&mut v, "targets", Json::Number(targets as u64));
    add_member(&mut v, "actions", Json::Number(actions as u64));
    add_member(&mut v, "required_tools", tools_json(required));
    add_member(&mut v, "optional_integrations", tools_json(optional));
    let ghost whole = report_tree(
        root@,
        profile@,
        platform@,
        targets as nat,
        actions as nat,
        required@,
        optional@,
    )->Object_0;
    assert(members(v@) =~= whole);
    object(v)
}

// ---------------------------------------------------------------------------
// What a report tells
// ---------------------------------------------------------------------------

/// Every program of the toolchain is looked for: both compilers, the archiver, the
/// shell, the compiler for Kofun where there is one, and every tool that has a
/// name.
pub proof fn every_program_is_looked_for(toolchain: Toolchain, r: Vec<Tool>, i: int) -> (k: int)
    requires
        call_ensures(required_tools, (&toolchain,), r),
        0 <= i < toolchain.tools.keys@.len(),
    ensures
        r@.len() >= 4,
        r@[0].configured@ == toolchain.cc@,
        r@[1].configured@ == toolchain.cxx@,
        r@[2].configured@ == toolchain.ar@,
        r@[3].configured@ == SHELL@,
        toolchain.kofunc is Some ==> r@.len() > 4 && r@[4].configured@ == toolchain.kofunc->0@,
        0 <= k < r@.len(),
        r@[k].configured@ == toolchain.tools.values@[i]@,
        r@[k].name@ == "tool:"@ + toolchain.tools.keys@[i]@,
{
    let all = tool_texts(r@);
    assert(all.len() == r@.len());
    assert(all[0] == (r@[0].name@, r@[0].configured@));
    assert(all[1] == (r@[1].name@, r@[1].configured@));
    assert(all[2] == (r@[2].name@, r@[2].configured@));
    assert(all[3] == (r@[3].name@, r@[3].configured@));
    let before: int = if toolchain.kofunc is Some {
        5
    } else {
        4
    };
    if toolchain.kofunc is Some {
        assert(all[4] == (r@[4].name@, r@[4].configured@));
    }
    assert(all[before + i] == named_tools(toolchain)[i]);
    assert(all[before + i] == (r@[before + i].name@, r@[before + i].configured@));
    before + i
}

/// A workspace is ready where every tool that it needs is there, and the report
/// says so in its first line and its last; it has a line for every tool.
pub proof fn missing_tools_block(
    root: &str,
    profile: &str,
    platform: &str,
    targets: usize,
    actions: usize,
    required: Vec<DoctorTool>,
    optional: Vec<DoctorTool>,
    is_ready: bool,
    r: Vec<String>,
    i: int,
)
    requires
        call_ensures(ready, (&required,), is_ready),
        call_ensures(
            doctor_lines,
            (root, profile, platform, targets, actions, &required, &optional),
            r,
        ),
        0 <= i < required@.len(),
    ensures
        !required@[i].available ==> !is_ready,
        (forall|k: int| 0 <= k < required@.len() ==> (#[trigger] required@[k]).available)
            ==> is_ready,
        r@.len() == 7 + required@.len() + optional@.len(),
        !required@[i].available ==> r@[0]@ == "frost: doctor \u{b7} "@ + "action required"@
            && r@.last()@ == "`-- result     "@ + "install or correct every missing required tool"@,
        is_ready ==> r@[0]@ == "frost: doctor \u{b7} "@ + "ready"@ && r@.last()@
            == "`-- result     "@ + "build prerequisites are ready"@,
        r@[1]@ == "|-- workspace  "@ + root@,
        r@[2]@ == "|-- config     "@ + profile@ + " / "@ + platform@,
        r@[5 + i]@ == (if i + 1 == required@.len() {
            "|   `--"@
        } else {
            "|   |--"@
        }) + " "@ + padded_right(required@[i].name@, 20) + " "@ + padded_right(
            if required@[i].available {
                "ok"@
            } else {
                "missing"@
            },
            7,
        ) + " "@ + (if required@[i].resolved is Some {
            required@[i].resolved->0@
        } else {
            required@[i].configured@
        }),
        forall|k: int|
            #![trigger optional@[k]]
            0 <= k < optional@.len() ==> r@[6 + required@.len() + k]@ == (if k + 1
                == optional@.len() {
                "|   `--"@
            } else {
                "|   |--"@
            }) + " "@ + padded_right(optional@[k].name@, 24) + " "@ + (if optional@[k].available {
                "available"@
            } else {
                "not installed"@
            }),
{
    let all = texts(r@);
    let n = required@.len() as int;
    assert(all.len() == r@.len());
    assert(all[0] == r@[0]@ && all.last() == r@.last()@ && all[1] == r@[1]@ && all[2] == r@[2]@);
    assert(all[5 + i] == required_lines(required@)[i]);
    assert(all[5 + i] == r@[5 + i]@);
    assert forall|k: int| #![trigger optional@[k]] 0 <= k < optional@.len() implies all[6 + n + k]
        == optional_line(optional@[k], k + 1 == optional@.len()) && all[6 + n + k] == r@[6 + n
        + k]@ by {
        assert(all[6 + n + k] == optional_lines(optional@)[k]);
    }
}

} // verus!

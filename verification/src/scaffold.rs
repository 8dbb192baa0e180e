//! A manifest to begin with.

use vstd::prelude::*;
use vstd::string::*;

use crate::jar::{binary_name, validate_main_class};
use crate::literal::{quoted_array, toml_array};
use crate::paths::{extension, extension_of, file_name, file_name_of};
use crate::raw::plain_name;
use crate::text::{
    alphanumeric, begins, chars_of, copy, decimal, ends, first_at, group_texts, is_alphanumeric,
    last_at, lines, lines_of, number, occurs, rsplit_once, same, split_once, starts_with,
    strip_prefix, text_between, texts, trim, trim_start, trimmed, trimmed_start,
};

verus! {

/// A source file: its path below the root, and its text where it could be
/// read.
#[derive(Debug)]
pub struct SourceFile {
    pub path: String,
    pub text: Option<String>,
}

/// A manifest to begin with.
#[derive(Debug)]
pub struct Scaffold {
    pub manifest: String,
    /// What was found, for the caller to print.
    pub summary: Vec<String>,
}

/// There are no sources to describe.
#[derive(Debug, Clone, Copy, PartialEq, Eq, Structural)]
pub struct NoSources;

/// There are no sources to describe.
pub open spec fn no_sources_text(root: Seq<char>) -> Seq<char> {
    "no C or C++ sources under "@ + root
        + ". frost builds C and C++; write frost.toml by hand for anything else"@
}

impl NoSources {
    /// Reports that there are no sources below `root`.
    pub fn message(&self, root: &str) -> (r: String)
        ensures
            r@ == no_sources_text(root@),
    {
        let mut out = copy("no C or C++ sources under ");
        out.append(root);
        out.append(". frost builds C and C++; write frost.toml by hand for anything else");
        out
    }
}

/// The extensions of sources.
pub open spec fn source_extension(e: Seq<char>) -> bool {
    e == "c"@ || e == "cc"@ || e == "cpp"@ || e == "cxx"@ || e == "C"@ || e == "c++"@
}

/// Whether a file of this path is a source.
pub fn is_source(path: &str) -> (r: bool)
    ensures
        r == (extension(path@) is Some && source_extension(extension(path@)->0)),
{
    match extension_of(path) {
        Some(e) => same(&e, "c") || same(&e, "cc") || same(&e, "cpp") || same(&e, "cxx") || same(
            &e,
            "C",
        ) || same(&e, "c++"),
        None => false,
    }
}

/// Names that are not looked at.
pub open spec fn unseen(name: Seq<char>) -> bool {
    begins(name, "."@) || name == "target"@ || name == "build"@ || name == "node_modules"@
}

/// Whether something of this name is not looked at.
pub fn is_unseen(name: &str) -> (r: bool)
    ensures
        r == unseen(name@),
{
    starts_with(name, ".") || same(name, "target") || same(name, "build") || same(
        name,
        "node_modules",
    )
}

/// A line that looks as if it defines `main`.
pub open spec fn main_line(line: Seq<char>) -> bool {
    let l = trimmed_start(line);
    &&& !begins(l, "//"@)
    &&& !begins(l, "*"@)
    &&& occurs(l, "main("@)
    &&& occurs(l, "int "@) || begins(l, "main("@)
}

/// A text that looks as if it defines `main`.
pub open spec fn has_main(text: Seq<char>) -> bool {
    exists|i: int| 0 <= i < lines_of(text).len() && main_line(#[trigger] lines_of(text)[i])
}

/// Whether a text looks as if it defines `main`. It goes by the text alone: who
/// reads the manifest sees where it is wrong.
pub fn defines_main(text: &str) -> (r: bool)
    ensures
        r == has_main(text@),
{
    let all = lines(text);
    let mut i: usize = 0;
    while i < all.len()
        invariant
            texts(all@) == lines_of(text@),
            i <= all@.len(),
            forall|k: int| 0 <= k < i ==> !main_line(#[trigger] lines_of(text@)[k]),
        decreases all@.len() - i,
    {
        let line = trim_start(&all[i]);
        assert(lines_of(text@)[i as int] == all@[i as int]@);
        if !starts_with(&line, "//") && !starts_with(&line, "*") && crate::text::contains(
            &line,
            "main(",
        ) && (crate::text::contains(&line, "int ") || starts_with(&line, "main(")) {
            assert(main_line(lines_of(text@)[i as int]));
            return true;
        }
        i += 1;
    }
    false
}

/// A character of a target's name.
pub open spec fn name_char(c: char) -> char {
    if is_alphanumeric(c) || c == '_' {
        c
    } else {
        '-'
    }
}

/// A text without dashes at its ends.
pub open spec fn undashed(s: Seq<char>) -> Seq<char>
    decreases s.len(),
{
    if s.len() > 0 && s[0] == '-' {
        undashed(s.skip(1))
    } else if s.len() > 0 && s.last() == '-' {
        undashed(s.drop_last())
    } else {
        s
    }
}

/// A target's name made from any text.
pub open spec fn sanitized(raw: Seq<char>) -> Seq<char> {
    undashed(raw.map_values(|c: char| name_char(c)))
}

/// A target's name made from any text.
pub fn sanitize_name(raw: &str) -> (r: String)
    ensures
        r@ == sanitized(raw@),
{
    let a = chars_of(raw);
    let ghost want = raw@.map_values(|c: char| name_char(c));
    let mut out: Vec<char> = Vec::new();
    let mut i: usize = 0;
    while i < a.len()
        invariant
            a@ == raw@,
            want == raw@.map_values(|c: char| name_char(c)),
            i <= a@.len(),
            out@ =~= want.take(i as int),
        decreases a@.len() - i,
    {
        let c = a[i];
        out.push(
            if alphanumeric(c) || c == '_' {
                c
            } else {
                '-'
            },
        );
        assert(want.take(i + 1) =~= want.take(i as int).push(want[i as int]));
        i += 1;
    }
    assert(want.take(i as int) =~= want);
    let mut from: usize = 0;
    let mut to: usize = out.len();
    assert(want.subrange(0, to as int) =~= want);
    while from < to && out[from] == '-'
        invariant
            out@ == want,
            from <= to,
            to == out@.len(),
            undashed(want) == undashed(want.subrange(from as int, to as int)),
        decreases to - from,
    {
        assert(want.subrange(from as int, to as int).skip(1) =~= want.subrange(
            from + 1,
            to as int,
        ));
        from += 1;
    }
    while from < to && out[to - 1] == '-'
        invariant
            out@ == want,
            from <= to <= out@.len(),
            from < out@.len() ==> (from < to ==> want[from as int] != '-'),
            undashed(want) == undashed(want.subrange(from as int, to as int)),
        decreases to - from,
    {
        assert(want.subrange(from as int, to as int).drop_last() =~= want.subrange(
            from as int,
            to - 1,
        ));
        to -= 1;
    }
    text_between(&out, from, to)
}

// ---------------------------------------------------------------------------
// The manifest
// ---------------------------------------------------------------------------

/// A source that looks as if it defines `main`.
pub open spec fn is_entry(s: SourceFile) -> bool {
    s.text is Some && has_main(s.text->0@)
}

/// The number of the first source that looks as if it defines `main`, or how
/// many sources there are.
pub open spec fn entry_at(v: Seq<SourceFile>) -> int
    decreases v.len(),
{
    if v.len() == 0 || is_entry(v[0]) {
        0
    } else {
        1 + entry_at(v.skip(1))
    }
}

/// The paths of sources.
pub open spec fn source_paths(v: Seq<SourceFile>) -> Seq<Seq<char>> {
    Seq::new(v.len(), |i: int| v[i].path@)
}

/// The name of the target for a directory.
pub open spec fn target_for(directory: Seq<char>) -> Seq<char> {
    if sanitized(directory).len() == 0 {
        "app"@
    } else {
        sanitized(directory)
    }
}

/// The line for the header directory, where there is one.
pub open spec fn include_line(has_include: bool) -> Seq<char> {
    if has_include {
        "includes = [\"include\"]\n"@
    } else {
        ""@
    }
}

/// The lines before the targets.
pub open spec fn scaffold_head(name: Seq<char>) -> Seq<char> {
    "[workspace]\ndefault_targets = [\""@ + name
        + "\"]\n\n[toolchain]\ncc = \"cc\"\ncxx = \"c++\"\ncflags = [\"-Wall\"]\n\n[profile.debug]\ncflags = [\"-O0\", \"-g\"]\n\n[profile.release]\ncflags = [\"-O3\", \"-DNDEBUG\"]\n\n"@
}

/// The lines of a library.
pub open spec fn library_lines(
    name: Seq<char>,
    sources: Seq<Seq<char>>,
    has_include: bool,
) -> Seq<char> {
    "[target."@ + name + "]\nkind = \"cc_library\"\nsrcs = "@ + quoted_array(sources) + "\n"@
        + include_line(has_include)
}

/// The lines of a binary.
pub open spec fn binary_lines(name: Seq<char>, entry: Seq<char>, rest: Seq<char>) -> Seq<char> {
    "[target."@ + name + "]\nkind = \"cc_binary\"\nsrcs = "@ + quoted_array(seq![entry]) + "\n"@
        + rest
}

/// The manifest for a directory: where a source defines `main`, it becomes a
/// binary and the others its library; otherwise all become a library.
pub open spec fn scaffold_text(
    directory: Seq<char>,
    sources: Seq<SourceFile>,
    has_include: bool,
) -> Seq<char> {
    let name = target_for(directory);
    let k = entry_at(sources);
    if k == sources.len() {
        scaffold_head(name) + library_lines(name, source_paths(sources), has_include)
    } else {
        let others = source_paths(sources).remove(k);
        let lib = name + "_lib"@;
        if others.len() == 0 {
            scaffold_head(name) + binary_lines(name, sources[k].path@, include_line(has_include))
        } else {
            scaffold_head(name) + (library_lines(lib, others, has_include) + "\n"@) + binary_lines(
                name,
                sources[k].path@,
                "deps = [\""@ + lib + "\"]\n"@,
            )
        }
    }
}

/// What was found.
pub open spec fn scaffold_summary(sources: Seq<SourceFile>, has_include: bool) -> Seq<Seq<char>> {
    let k = entry_at(sources);
    seq![
        decimal(sources.len()) + " source file(s)"@,
        if k == sources.len() {
            "no main() found, so everything becomes a library"@
        } else {
            "entry point: "@ + sources[k].path@
        },
    ] + if has_include {
        seq!["include/ used as the exported header directory"@]
    } else {
        Seq::empty()
    }
}

fn find_entry(sources: &Vec<SourceFile>) -> (r: usize)
    ensures
        r == entry_at(sources@),
        r <= sources@.len(),
{
    let mut i: usize = 0;
    assert(sources@.skip(0) =~= sources@);
    while i < sources.len()
        invariant
            i <= sources@.len(),
            entry_at(sources@) == i + entry_at(sources@.skip(i as int)),
        decreases sources@.len() - i,
    {
        let found = match &sources[i].text {
            Some(text) => defines_main(text),
            None => false,
        };
        if found {
            return i;
        }
        assert(sources@.skip(i as int).skip(1) =~= sources@.skip(i + 1));
        i += 1;
    }
    i
}

fn paths_but(sources: &Vec<SourceFile>, k: usize) -> (r: Vec<String>)
    requires
        k <= sources@.len(),
    ensures
        texts(r@) == if k == sources@.len() {
            source_paths(sources@)
        } else {
            source_paths(sources@).remove(k as int)
        },
{
    broadcast use group_texts;

    let ghost all = source_paths(sources@);
    let ghost want = if k == sources@.len() {
        all
    } else {
        all.remove(k as int)
    };
    let mut out: Vec<String> = Vec::new();
    let mut i: usize = 0;
    while i < sources.len()
        invariant
            all == source_paths(sources@),
            k <= sources@.len(),
            want == (if k == sources@.len() {
                all
            } else {
                all.remove(k as int)
            }),
            i <= sources@.len(),
            texts(out@) =~= want.take(
                if i <= k {
                    i as int
                } else {
                    i - 1
                },
            ),
        decreases sources@.len() - i,
    {
        if i != k {
            let ghost n = if i < k { i as int } else { i - 1 };
            out.push(copy(&sources[i].path));
            assert(want[n] == all[i as int]);
            assert(want.take(n + 1) =~= want.take(n).push(want[n]));
        }
        i += 1;
    }
    assert(want.take(want.len() as int) =~= want);
    out
}

fn library_section(name: &str, sources: &Vec<String>, has_include: bool) -> (r: String)
    ensures
        r@ == library_lines(name@, texts(sources@), has_include),
{
    let mut out = copy("[target.");
    out.append(name);
    out.append("]\nkind = \"cc_library\"\nsrcs = ");
    out.append(&toml_array(sources));
    out.append("\n");
    out.append(
        if has_include {
            "includes = [\"include\"]\n"
        } else {
            ""
        },
    );
    out
}

fn binary_section(name: &str, entry: &str, rest: &str) -> (r: String)
    ensures
        r@ == binary_lines(name@, entry@, rest@),
{
    let mut only: Vec<String> = Vec::new();
    only.push(copy(entry));
    assert(texts(only@) =~= seq![entry@]);
    let mut out = copy("[target.");
    out.append(name);
    out.append("]\nkind = \"cc_binary\"\nsrcs = ");
    out.append(&toml_array(&only));
    out.append("\n");
    out.append(rest);
    out
}

/// The manifest for a directory of this name with these sources. It says no
/// more than what builds them: anything beyond one binary and one library is
/// for the author to decide.
pub fn scaffold(directory: &str, sources: &Vec<SourceFile>, has_include: bool) -> (r: Result<
    Scaffold,
    NoSources,
>)
    ensures
        match r {
            Ok(s) => {
                &&& sources@.len() > 0
                &&& s.manifest@ == scaffold_text(directory@, sources@, has_include)
                &&& texts(s.summary@) == scaffold_summary(sources@, has_include)
            },
            Err(_) => sources@.len() == 0,
        },
{
    broadcast use group_texts;

    if sources.len() == 0 {
        return Err(NoSources);
    }
    let k = find_entry(sources);
    let others = paths_but(sources, k);
    let clean = sanitize_name(directory);
    let name = if clean.as_str().is_empty() {
        copy("app")
    } else {
        clean
    };
    let mut manifest = copy("[workspace]\ndefault_targets = [\"");
    manifest.append(&name);
    manifest.append(
        "\"]\n\n[toolchain]\ncc = \"cc\"\ncxx = \"c++\"\ncflags = [\"-Wall\"]\n\n[profile.debug]\ncflags = [\"-O0\", \"-g\"]\n\n[profile.release]\ncflags = [\"-O3\", \"-DNDEBUG\"]\n\n",
    );
    let mut summary: Vec<String> = Vec::new();
    let mut first = number(sources.len() as u128);
    first.append(" source file(s)");
    summary.push(first);
    assert(texts(others@).len() == others@.len());
    if k == sources.len() {
        summary.push(copy("no main() found, so everything becomes a library"));
        manifest.append(&library_section(&name, &others, has_include));
    } else {
        let mut line = copy("entry point: ");
        line.append(&sources[k].path);
        summary.push(line);
        if others.len() == 0 {
            let rest = if has_include {
                "includes = [\"include\"]\n"
            } else {
                ""
            };
            manifest.append(&binary_section(&name, &sources[k].path, rest));
        } else {
            let mut lib = copy(&name);
            lib.append("_lib");
            let mut section = library_section(&lib, &others, has_include);
            section.append("\n");
            manifest.append(&section);
            let mut rest = copy("deps = [\"");
            rest.append(&lib);
            rest.append("\"]\n");
            manifest.append(&binary_section(&name, &sources[k].path, &rest));
        }
    }
    if has_include {
        summary.push(copy("include/ used as the exported header directory"));
    }
    assert(texts(summary@) =~= scaffold_summary(sources@, has_include));
    Ok(Scaffold { manifest, summary })
}

proof fn undashed_within(s: Seq<char>)
    ensures
        forall|i: int|
            0 <= i < undashed(s).len() ==> exists|j: int|
                0 <= j < s.len() && #[trigger] s[j] == #[trigger] undashed(s)[i],
    decreases s.len(),
{
    if s.len() > 0 && s[0] == '-' {
        undashed_within(s.skip(1));
        assert forall|i: int| 0 <= i < undashed(s).len() implies exists|j: int|
            0 <= j < s.len() && #[trigger] s[j] == #[trigger] undashed(s)[i] by {
            let j = choose|j: int| 0 <= j < s.skip(1).len() && #[trigger] s.skip(1)[j] == undashed(
                s.skip(1),
            )[i];
            assert(s[j + 1] == undashed(s)[i]);
        }
    } else if s.len() > 0 && s.last() == '-' {
        undashed_within(s.drop_last());
        assert forall|i: int| 0 <= i < undashed(s).len() implies exists|j: int|
            0 <= j < s.len() && #[trigger] s[j] == #[trigger] undashed(s)[i] by {
            let j = choose|j: int|
                0 <= j < s.drop_last().len() && #[trigger] s.drop_last()[j] == undashed(
                    s.drop_last(),
                )[i];
            assert(s[j] == undashed(s)[i]);
        }
    }
}

/// Whatever the directory is called, the name of its target is one that a
/// manifest accepts.
pub proof fn target_name_is_valid(directory: Seq<char>)
    ensures
        plain_name(target_for(directory)),
{
    let mapped = directory.map_values(|c: char| name_char(c));
    undashed_within(mapped);
    reveal_strlit("app");
    let name = target_for(directory);
    assert forall|i: int| 0 <= i < name.len() implies name_char(#[trigger] name[i]) == name[i] by {
        if sanitized(directory).len() > 0 {
            let j = choose|j: int| 0 <= j < mapped.len() && #[trigger] mapped[j] == name[i];
            assert(mapped[j] == name_char(directory[j]));
        }
    }
}


// ---------------------------------------------------------------------------
// Java, and which language it is
// ---------------------------------------------------------------------------

/// The language of the sources that a manifest is written for.
#[derive(Debug, Clone, Copy, PartialEq, Eq, Structural)]
pub enum ScaffoldLanguage {
    Native,
    Java,
}

/// Why no manifest is written.
#[derive(Debug, Clone, Copy, PartialEq, Eq, Structural)]
pub enum ScaffoldError {
    /// There are no sources of C or C++.
    NoSources,
    /// There are no sources of Java.
    NoJavaSources,
    /// There are sources of both, and none was chosen.
    Mixed,
    /// Gradle or Maven builds the tree, and no language was chosen.
    BuildTool,
}

impl ScaffoldError {
    pub open spec fn text(self, root: Seq<char>) -> Seq<char> {
        match self {
            ScaffoldError::NoSources => no_sources_text(root),
            ScaffoldError::NoJavaSources => "no Java sources under "@ + root,
            ScaffoldError::Mixed => "both native and Java sources under "@ + root
                + "; choose one with --language native or --language java"@,
            ScaffoldError::BuildTool => "Gradle or Maven builds "@ + root
                + "; its dependencies and plugins would be bypassed. write a command target for it, or choose with --language"@,
        }
    }

    /// Reports why no manifest is written for `root`.
    pub fn message(&self, root: &str) -> (r: String)
        ensures
            r@ == self.text(root@),
    {
        match self {
            ScaffoldError::NoSources => NoSources.message(root),
            ScaffoldError::NoJavaSources => {
                let mut out = copy("no Java sources under ");
                out.append(root);
                out
            },
            ScaffoldError::Mixed => {
                let mut out = copy("both native and Java sources under ");
                out.append(root);
                out.append("; choose one with --language native or --language java");
                out
            },
            ScaffoldError::BuildTool => {
                let mut out = copy("Gradle or Maven builds ");
                out.append(root);
                out.append(
                    "; its dependencies and plugins would be bypassed. write a command target for it, or choose with --language",
                );
                out
            },
        }
    }
}

/// Whether a file of this path is a source of Java.
pub fn is_java_source(path: &str) -> (r: bool)
    ensures
        r == (extension(path@) == Some("java"@)),
{
    match extension_of(path) {
        Some(e) => same(&e, "java"),
        None => false,
    }
}

/// The files by which Gradle and Maven are known.
pub open spec fn build_tool_file(name: Seq<char>) -> bool {
    name == "pom.xml"@ || name == "build.gradle"@ || name == "build.gradle.kts"@ || name
        == "settings.gradle"@ || name == "settings.gradle.kts"@
}

/// Whether Gradle or Maven is known by a file of this name.
pub fn is_build_tool_file(name: &str) -> (r: bool)
    ensures
        r == build_tool_file(name@),
{
    same(name, "pom.xml") || same(name, "build.gradle") || same(name, "build.gradle.kts") || same(
        name,
        "settings.gradle",
    ) || same(name, "settings.gradle.kts")
}

/// The language that a manifest is written for: the one that was chosen; where
/// none was, that of the sources, unless there are two or a build tool has the
/// tree.
pub open spec fn language_for(
    chosen: Option<ScaffoldLanguage>,
    native: bool,
    java: bool,
    build_tool: bool,
) -> Result<ScaffoldLanguage, ScaffoldError> {
    match chosen {
        Some(ScaffoldLanguage::Native) => if native {
            Ok(ScaffoldLanguage::Native)
        } else {
            Err(ScaffoldError::NoSources)
        },
        Some(ScaffoldLanguage::Java) => if java {
            Ok(ScaffoldLanguage::Java)
        } else {
            Err(ScaffoldError::NoJavaSources)
        },
        None => if build_tool {
            Err(ScaffoldError::BuildTool)
        } else if native && java {
            Err(ScaffoldError::Mixed)
        } else if native {
            Ok(ScaffoldLanguage::Native)
        } else if java {
            Ok(ScaffoldLanguage::Java)
        } else {
            Err(ScaffoldError::NoSources)
        },
    }
}

/// A line that looks as if it defines Java's `main`.
pub open spec fn java_main_line(line: Seq<char>) -> bool {
    let l = trimmed_start(line);
    &&& !begins(l, "//"@)
    &&& !begins(l, "*"@)
    &&& occurs(l, "static void main("@)
}

/// A text that looks as if it defines Java's `main`.
pub open spec fn has_java_main(text: Seq<char>) -> bool {
    exists|i: int| 0 <= i < lines_of(text).len() && java_main_line(#[trigger] lines_of(text)[i])
}

fn defines_java_main(text: &str) -> (r: bool)
    ensures
        r == has_java_main(text@),
{
    let all = lines(text);
    let mut i: usize = 0;
    while i < all.len()
        invariant
            texts(all@) == lines_of(text@),
            i <= all@.len(),
            forall|k: int| 0 <= k < i ==> !java_main_line(#[trigger] lines_of(text@)[k]),
        decreases all@.len() - i,
    {
        let line = trim_start(&all[i]);
        assert(lines_of(text@)[i as int] == all@[i as int]@);
        if !starts_with(&line, "//") && !starts_with(&line, "*") && crate::text::contains(
            &line,
            "static void main(",
        ) {
            assert(java_main_line(lines_of(text@)[i as int]));
            return true;
        }
        i += 1;
    }
    false
}

/// What the first of some lines that names a package names; nothing where none
/// does.
pub open spec fn package_in(all: Seq<Seq<char>>) -> Seq<char>
    decreases all.len(),
{
    if all.len() == 0 {
        Seq::empty()
    } else {
        let l = trimmed_start(all[0]);
        if begins(l, "package "@) {
            let rest = l.skip("package "@.len() as int);
            trimmed(rest.take(first_at(rest, ';')))
        } else {
            package_in(all.skip(1))
        }
    }
}

fn find_package(text: &str) -> (r: String)
    ensures
        r@ == package_in(lines_of(text@)),
{
    let all = lines(text);
    let ghost every = lines_of(text@);
    let mut i: usize = 0;
    assert(every.skip(0) =~= every);
    while i < all.len()
        invariant
            every == lines_of(text@),
            texts(all@) == every,
            i <= all@.len(),
            package_in(every) == package_in(every.skip(i as int)),
        decreases all@.len() - i,
    {
        assert(every[i as int] == all@[i as int]@);
        assert(every.skip(i as int)[0] == every[i as int]);
        if let Some(rest) = strip_prefix(&trim_start(&all[i]), "package ") {
            return match split_once(&rest, ';') {
                Some(cut) => trim(&cut.0),
                None => {
                    assert(rest@.take(rest@.len() as int) =~= rest@);
                    trim(&rest)
                },
            };
        }
        assert(every.skip(i as int).skip(1) =~= every.skip(i + 1));
        i += 1;
    }
    assert(every.skip(i as int) =~= Seq::empty());
    String::new()
}

/// The name of the class of a source: that of its file.
pub open spec fn class_of(path: Seq<char>) -> Seq<char> {
    match file_name(path) {
        Some(name) => if last_at(name, '.') >= 0 {
            name.take(last_at(name, '.'))
        } else {
            name
        },
        None => path,
    }
}

fn find_class(path: &str) -> (r: String)
    ensures
        r@ == class_of(path@),
{
    match file_name_of(path) {
        Some(name) => match rsplit_once(&name, '.') {
            Some(cut) => cut.0,
            None => name,
        },
        None => copy(path),
    }
}

/// The name by which Java finds the class of a source.
pub open spec fn java_class(path: Seq<char>, text: Seq<char>) -> Seq<char> {
    let package = package_in(lines_of(text));
    if package.len() == 0 {
        class_of(path)
    } else {
        package + "."@ + class_of(path)
    }
}

/// A source of Java that can be started.
pub open spec fn is_java_entry(s: SourceFile) -> bool {
    s.text is Some && has_java_main(s.text->0@) && binary_name(java_class(s.path@, s.text->0@))
}

/// The class of the first source of Java that can be started, and its path.
pub open spec fn java_entry(v: Seq<SourceFile>) -> Option<(Seq<char>, Seq<char>)>
    decreases v.len(),
{
    if v.len() == 0 {
        None
    } else if is_java_entry(v[0]) {
        Some((java_class(v[0].path@, v[0].text->0@), v[0].path@))
    } else {
        java_entry(v.skip(1))
    }
}

fn find_java_entry(sources: &Vec<SourceFile>) -> (r: Option<(String, String)>)
    ensures
        match r {
            Some((class, path)) => java_entry(sources@) == Some((class@, path@)),
            None => java_entry(sources@) is None,
        },
{
    let mut i: usize = 0;
    assert(sources@.skip(0) =~= sources@);
    while i < sources.len()
        invariant
            i <= sources@.len(),
            java_entry(sources@) == java_entry(sources@.skip(i as int)),
        decreases sources@.len() - i,
    {
        let ghost rest = sources@.skip(i as int);
        assert(rest[0] == sources@[i as int]);
        if let Some(text) = &sources[i].text {
            if defines_java_main(text) {
                let package = find_package(text);
                let class = find_class(&sources[i].path);
                let mut name = package;
                if name.as_str().is_empty() {
                    name = class;
                } else {
                    name.append(".");
                    name.append(&class);
                }
                assert(name@ == java_class(sources@[i as int].path@, text@));
                if validate_main_class(&name) {
                    return Some((name, copy(&sources[i].path)));
                }
            }
        }
        assert(rest.skip(1) =~= sources@.skip(i + 1));
        i += 1;
    }
    assert(sources@.skip(i as int) =~= Seq::empty());
    None
}

/// The arguments that name the class that a JAR starts with.
pub open spec fn main_class_args(class: Option<Seq<char>>) -> Seq<char> {
    match class {
        Some(class) => ", \"--main-class\", \""@ + class + "\""@,
        None => ""@,
    }
}

/// The manifest for a directory of Java: one batch of `javac`, and a JAR of what
/// it writes, which can be started where a class can.
pub open spec fn java_text(directory: Seq<char>, sources: Seq<SourceFile>) -> Seq<char> {
    let name = target_for(directory);
    let class = match java_entry(sources) {
        Some((class, _)) => Some(class),
        None => None,
    };
    "[workspace]\ndefault_targets = [\""@ + name
        + "\"]\n\n[toolchain.tools]\njavac = \"javac\"\nfrost = \"frost\"\n\n[target."@ + name
        + "]\nkind = \"command\"\ntool = \"javac\"\ninputs = "@ + quoted_array(
        source_paths(sources),
    ) + "\noutputs = [\".frost/out/${config}/"@ + name
        + ".jar\"]\nclean_dirs = [\".frost/tmp/${config}/"@ + name
        + "\"]\nargs = [\"-d\", \"${clean_dir}\", \"${in}\"]\nsteps = [{ tool = \"frost\", args = [\"pack-jar\", \"--input\", \"${clean_dir}\", \"--output\", \"${out}\""@
        + main_class_args(class) + "] }]\n"@
}

/// What was found of Java.
pub open spec fn java_summary(sources: Seq<SourceFile>) -> Seq<Seq<char>> {
    seq![
        decimal(sources.len()) + " source file(s)"@,
        match java_entry(sources) {
            Some((_, path)) => "entry point: "@ + path,
            None => "no main() found, so the JAR is a library"@,
        },
    ]
}

fn scaffold_java(directory: &str, sources: &Vec<SourceFile>) -> (r: Scaffold)
    ensures
        r.manifest@ == java_text(directory@, sources@),
        texts(r.summary@) == java_summary(sources@),
{
    broadcast use group_texts;

    let clean = sanitize_name(directory);
    let name = if clean.as_str().is_empty() {
        copy("app")
    } else {
        clean
    };
    let all = paths_but(sources, sources.len());
    let entry = find_java_entry(sources);
    let mut manifest = copy("[workspace]\ndefault_targets = [\"");
    manifest.append(&name);
    manifest.append(
        "\"]\n\n[toolchain.tools]\njavac = \"javac\"\nfrost = \"frost\"\n\n[target.",
    );
    manifest.append(&name);
    manifest.append("]\nkind = \"command\"\ntool = \"javac\"\ninputs = ");
    manifest.append(&toml_array(&all));
    manifest.append("\noutputs = [\".frost/out/${config}/");
    manifest.append(&name);
    manifest.append(".jar\"]\nclean_dirs = [\".frost/tmp/${config}/");
    manifest.append(&name);
    manifest.append(
        "\"]\nargs = [\"-d\", \"${clean_dir}\", \"${in}\"]\nsteps = [{ tool = \"frost\", args = [\"pack-jar\", \"--input\", \"${clean_dir}\", \"--output\", \"${out}\"",
    );
    let mut summary: Vec<String> = Vec::new();
    let mut first = number(sources.len() as u128);
    first.append(" source file(s)");
    summary.push(first);
    match entry {
        Some((class, path)) => {
            let mut args = copy(", \"--main-class\", \"");
            args.append(&class);
            args.append("\"");
            manifest.append(&args);
            let mut line = copy("entry point: ");
            line.append(&path);
            summary.push(line);
        },
        None => {
            manifest.append("");
            summary.push(copy("no main() found, so the JAR is a library"));
        },
    }
    manifest.append("] }]\n");
    assert(texts(summary@) =~= java_summary(sources@));
    Scaffold { manifest, summary }
}

/// The manifest for a directory of this name with these sources of C, C++ and
/// Java. `chosen` is the language that was asked for; `build_tool` says whether
/// Gradle or Maven has the tree.
pub fn scaffold_for(
    chosen: Option<ScaffoldLanguage>,
    directory: &str,
    native: &Vec<SourceFile>,
    java: &Vec<SourceFile>,
    has_include: bool,
    build_tool: bool,
) -> (r: Result<Scaffold, ScaffoldError>)
    ensures
        match language_for(chosen, native@.len() > 0, java@.len() > 0, build_tool) {
            Err(e) => r == Err::<Scaffold, ScaffoldError>(e),
            Ok(ScaffoldLanguage::Native) => r is Ok && r->Ok_0.manifest@ == scaffold_text(
                directory@,
                native@,
                has_include,
            ) && texts(r->Ok_0.summary@) == scaffold_summary(native@, has_include),
            Ok(ScaffoldLanguage::Java) => r is Ok && r->Ok_0.manifest@ == java_text(
                directory@,
                java@,
            ) && texts(r->Ok_0.summary@) == java_summary(java@),
        },
{
    let language = match chosen {
        Some(language) => language,
        None => {
            if build_tool {
                return Err(ScaffoldError::BuildTool);
            }
            if native.len() > 0 && java.len() > 0 {
                return Err(ScaffoldError::Mixed);
            }
            if java.len() > 0 {
                ScaffoldLanguage::Java
            } else {
                ScaffoldLanguage::Native
            }
        },
    };
    match language {
        ScaffoldLanguage::Native => match scaffold(directory, native, has_include) {
            Ok(made) => Ok(made),
            Err(_) => Err(ScaffoldError::NoSources),
        },
        ScaffoldLanguage::Java => if java.len() > 0 {
            Ok(scaffold_java(directory, java))
        } else {
            Err(ScaffoldError::NoJavaSources)
        },
    }
}

// ---------------------------------------------------------------------------
// What is described
// ---------------------------------------------------------------------------

proof fn first_entry(v: Seq<SourceFile>, i: int)
    requires
        0 <= i <= v.len(),
        i < v.len() ==> is_entry(v[i]),
        forall|j: int| 0 <= j < i ==> !is_entry(#[trigger] v[j]),
    ensures
        entry_at(v) == i,
    decreases i,
{
    if i > 0 {
        assert(!is_entry(v[0]));
        let rest = v.skip(1);
        assert forall|j: int| 0 <= j < i - 1 implies !is_entry(#[trigger] rest[j]) by {
            assert(rest[j] == v[j + 1]);
        }
        if i < v.len() {
            assert(rest[i - 1] == v[i]);
        }
        first_entry(rest, i - 1);
    }
}

/// The first source that defines `main` is the binary's only source, and all others
/// are in the library that it depends on, in their order.
pub proof fn first_main_is_the_binary(
    directory: &str,
    sources: Vec<SourceFile>,
    has_include: bool,
    s: Scaffold,
    i: int,
) -> (r: (Seq<char>, Seq<char>, Seq<char>))
    requires
        call_ensures(scaffold, (directory, &sources, has_include), Ok::<Scaffold, NoSources>(s)),
        0 <= i < sources@.len(),
        sources@[i].text is Some && has_main(sources@[i].text->0@),
        forall|j: int|
            0 <= j < i ==> !((#[trigger] sources@[j]).text is Some && has_main(
                sources@[j].text->0@,
            )),
    ensures
        ({
            let (name, before, after) = r;
            let all = Seq::new(sources@.len(), |j: int| sources@[j].path@);
            let others = all.take(i) + all.skip(i + 1);
            let binary = "[target."@ + name + "]\nkind = \"cc_binary\"\nsrcs = "@ + quoted_array(
                seq![sources@[i].path@],
            ) + "\n"@;
            let headers = if has_include {
                "includes = [\"include\"]\n"@
            } else {
                ""@
            };
            &&& s.manifest@ == before + binary + after
            &&& sources@.len() == 1 ==> after == headers
            &&& sources@.len() > 1 ==> after == "deps = [\""@ + name + "_lib"@ + "\"]\n"@
            &&& sources@.len() > 1 ==> ends(
                before,
                "[target."@ + name + "_lib"@ + "]\nkind = \"cc_library\"\nsrcs = "@ + quoted_array(
                    others,
                ) + "\n"@ + headers + "\n"@,
            )
            &&& s.summary@[1]@ == "entry point: "@ + sources@[i].path@
        }),
{
    first_entry(sources@, i);
    let name = target_for(directory@);
    let all = Seq::new(sources@.len(), |j: int| sources@[j].path@);
    assert(all =~= source_paths(sources@));
    let others = all.take(i) + all.skip(i + 1);
    assert(source_paths(sources@).remove(i) =~= others);
    let lib = name + "_lib"@;
    let head = scaffold_head(name);
    let more = library_lines(lib, others, has_include) + "\n"@;
    assert(texts(s.summary@).len() == s.summary@.len());
    assert(texts(s.summary@).len() >= 2);
    assert(texts(s.summary@)[1] == s.summary@[1]@);
    let binary = "[target."@ + name + "]\nkind = \"cc_binary\"\nsrcs = "@ + quoted_array(
        seq![sources@[i].path@],
    ) + "\n"@;
    if sources@.len() == 1 {
        let after = include_line(has_include);
        assert(head + (binary + after) =~= head + binary + after);
        (name, head, after)
    } else {
        let after = "deps = [\""@ + lib + "\"]\n"@;
        let before = head + more;
        assert(head + more + (binary + after) =~= before + binary + after);
        let told = "[target."@ + name + "_lib"@ + "]\nkind = \"cc_library\"\nsrcs = "@
            + quoted_array(others) + "\n"@ + include_line(has_include) + "\n"@;
        assert("[target."@ + lib =~= "[target."@ + name + "_lib"@);
        assert(more =~= told);
        assert(before.skip(before.len() - told.len()) =~= told);
        assert(before.subrange(before.len() - told.len(), before.len() as int) =~= told);
        assert("deps = [\""@ + lib + "\"]\n"@ =~= "deps = [\""@ + name + "_lib"@ + "\"]\n"@);
        (name, before, after)
    }
}

/// Where no source defines `main`, all sources are in one library, in their order.
pub proof fn without_main_all_is_a_library(
    directory: &str,
    sources: Vec<SourceFile>,
    has_include: bool,
    s: Scaffold,
) -> (r: (Seq<char>, Seq<char>))
    requires
        call_ensures(scaffold, (directory, &sources, has_include), Ok::<Scaffold, NoSources>(s)),
        forall|j: int|
            0 <= j < sources@.len() ==> !((#[trigger] sources@[j]).text is Some && has_main(
                sources@[j].text->0@,
            )),
    ensures
        s.manifest@ == r.1 + "[target."@ + r.0 + "]\nkind = \"cc_library\"\nsrcs = "@
            + quoted_array(Seq::new(sources@.len(), |j: int| sources@[j].path@)) + "\n"@ + (
        if has_include {
            "includes = [\"include\"]\n"@
        } else {
            ""@
        }),
        s.summary@[1]@ == "no main() found, so everything becomes a library"@,
{
    first_entry(sources@, sources@.len() as int);
    let name = target_for(directory@);
    let all = Seq::new(sources@.len(), |j: int| sources@[j].path@);
    assert(all =~= source_paths(sources@));
    assert(texts(s.summary@).len() == s.summary@.len());
    assert(texts(s.summary@).len() >= 2);
    assert(texts(s.summary@)[1] == s.summary@[1]@);
    let head = scaffold_head(name);
    assert(head + library_lines(name, all, has_include) =~= head + "[target."@ + name
        + "]\nkind = \"cc_library\"\nsrcs = "@ + quoted_array(all) + "\n"@ + include_line(
        has_include,
    ));
    (name, head)
}

/// The language is the one that was chosen, where it has sources. Where none was
/// chosen, it is the only one that has sources, and a tree with two languages or
/// with a build tool of its own is refused.
pub proof fn language_is_not_guessed(
    chosen: Option<ScaffoldLanguage>,
    directory: &str,
    native: Vec<SourceFile>,
    java: Vec<SourceFile>,
    has_include: bool,
    build_tool: bool,
    r: Result<Scaffold, ScaffoldError>,
    as_native: Result<Scaffold, NoSources>,
)
    requires
        call_ensures(
            scaffold_for,
            (chosen, directory, &native, &java, has_include, build_tool),
            r,
        ),
        call_ensures(scaffold, (directory, &native, has_include), as_native),
    ensures
        chosen is None && build_tool ==> r is Err,
        chosen is None && native@.len() > 0 && java@.len() > 0 ==> r is Err,
        native@.len() == 0 && java@.len() == 0 ==> r is Err,
        chosen == Some(ScaffoldLanguage::Java) ==> (r is Ok <==> java@.len() > 0),
        chosen == Some(ScaffoldLanguage::Native) ==> (r is Ok <==> native@.len() > 0),
        chosen is None && !build_tool && (native@.len() > 0) != (java@.len() > 0) ==> r is Ok,
        r is Ok && (chosen == Some(ScaffoldLanguage::Native) || chosen is None && native@.len()
            > 0) ==> as_native is Ok && r->Ok_0.manifest@ == as_native->Ok_0.manifest@,
        r is Ok && (chosen == Some(ScaffoldLanguage::Java) || chosen is None && native@.len() == 0)
            ==> begins(
            r->Ok_0.manifest@,
            "[workspace]\ndefault_targets = [\""@ + target_for(directory@)
                + "\"]\n\n[toolchain.tools]\njavac = \"javac\"\nfrost = \"frost\"\n\n[target."@
                + target_for(directory@)
                + "]\nkind = \"command\"\ntool = \"javac\"\ninputs = "@ + quoted_array(
                Seq::new(java@.len(), |j: int| java@[j].path@),
            ),
        ),
{
    if r is Ok && (chosen == Some(ScaffoldLanguage::Java) || chosen is None && native@.len() == 0) {
        let told = "[workspace]\ndefault_targets = [\""@ + target_for(directory@)
            + "\"]\n\n[toolchain.tools]\njavac = \"javac\"\nfrost = \"frost\"\n\n[target."@
            + target_for(directory@) + "]\nkind = \"command\"\ntool = \"javac\"\ninputs = "@
            + quoted_array(Seq::new(java@.len(), |j: int| java@[j].path@));
        assert(Seq::new(java@.len(), |j: int| java@[j].path@) =~= source_paths(java@));
        let text = r->Ok_0.manifest@;
        assert(text == java_text(directory@, java@));
        assert(text.subrange(0, told.len() as int) =~= told);
    }
}

/// The first source of Java that can be started names the class of the JAR.
pub proof fn first_java_main_is_started(v: Seq<SourceFile>, i: int)
    requires
        0 <= i <= v.len(),
        i < v.len() ==> v[i].text is Some && has_java_main(v[i].text->0@) && binary_name(
            java_class(v[i].path@, v[i].text->0@),
        ),
        forall|j: int|
            0 <= j < i ==> !((#[trigger] v[j]).text is Some && has_java_main(v[j].text->0@)
                && binary_name(java_class(v[j].path@, v[j].text->0@))),
    ensures
        i < v.len() ==> java_entry(v) == Some(
            (java_class(v[i].path@, v[i].text->0@), v[i].path@),
        ),
        i == v.len() ==> java_entry(v) is None,
    decreases i,
{
    if i > 0 {
        assert(!is_java_entry(v[0]));
        let rest = v.skip(1);
        assert forall|j: int| 0 <= j < i - 1 implies !is_java_entry(#[trigger] rest[j]) by {
            assert(rest[j] == v[j + 1]);
        }
        if i < v.len() {
            assert(rest[i - 1] == v[i]);
        }
        first_java_main_is_started(rest, i - 1);
    }
}

proof fn undashed_ends(s: Seq<char>)
    ensures
        undashed(s).len() > 0 ==> undashed(s)[0] != '-' && undashed(s).last() != '-',
        (forall|i: int| 0 <= i < s.len() ==> #[trigger] s[i] != '-') ==> undashed(s) == s,
    decreases s.len(),
{
    if s.len() > 0 && s[0] == '-' {
        undashed_ends(s.skip(1));
    } else if s.len() > 0 && s.last() == '-' {
        undashed_ends(s.drop_last());
        assert(s[s.len() - 1] == '-');
    }
}

/// A name that a target can have is kept, and no name begins or ends with a dash.
pub proof fn sound_names_are_kept(raw: &str, r: String)
    requires
        call_ensures(sanitize_name, (raw,), r),
    ensures
        (forall|i: int|
            0 <= i < raw@.len() ==> is_alphanumeric(#[trigger] raw@[i]) || raw@[i] == '_') ==> r@
            == raw@,
        r@.len() > 0 ==> r@[0] != '-' && r@.last() != '-',
{
    let mapped = raw@.map_values(|c: char| name_char(c));
    undashed_ends(mapped);
    if forall|i: int|
        0 <= i < raw@.len() ==> is_alphanumeric(#[trigger] raw@[i]) || raw@[i] == '_' {
        assert forall|i: int| 0 <= i < mapped.len() implies #[trigger] mapped[i] != '-' by {
            assert(is_alphanumeric(raw@[i]) || raw@[i] == '_');
        }
        assert(mapped =~= raw@) by {
            assert forall|i: int| 0 <= i < mapped.len() implies mapped[i] == raw@[i] by {
                assert(is_alphanumeric(raw@[i]) || raw@[i] == '_');
            }
        }
    }
}

/// A source is told by its extension, and what is hidden or was built is not looked
/// at.
pub proof fn sources_are_told_by_extension(path: &str, source: bool, name: &str, hidden: bool)
    requires
        call_ensures(is_source, (path,), source),
        call_ensures(is_unseen, (name,), hidden),
    ensures
        source <==> extension(path@) == Some("c"@) || extension(path@) == Some("cc"@) || extension(
            path@,
        ) == Some("cpp"@) || extension(path@) == Some("cxx"@) || extension(path@) == Some("C"@)
            || extension(path@) == Some("c++"@),
        name@.len() > 0 && name@[0] == '.' ==> hidden,
        name@ == "target"@ || name@ == "build"@ || name@ == "node_modules"@ ==> hidden,
        hidden ==> name@ == "target"@ || name@ == "build"@ || name@ == "node_modules"@ || (
        name@.len() > 0 && name@[0] == '.'),
{
    reveal_strlit(".");
    if name@.len() > 0 && name@[0] == '.' {
        assert(name@.subrange(0, 1) =~= "."@);
    }
    if begins(name@, "."@) {
        assert(name@.subrange(0, 1)[0] == name@[0]);
    }
}

} // verus!

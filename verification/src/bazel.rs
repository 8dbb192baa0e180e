//! Importing Bazel rules for C and C++.

use vstd::prelude::*;
use vstd::string::*;

use crate::action_key::text_map;
use crate::literal::{json_array, json_list};
use crate::order::{in_turn, order_of, sort_texts, sorted_texts, taken, Ranked};
use crate::path_set::{
    path_before, path_before_asymmetric, path_before_carries_over, path_precedes,
};
use crate::paths::{components, components_of, extension, extension_of, join_path, joined_path};
use crate::sorted_map::{in_order, SortedMap, TextSet};
use crate::text::{
    alphanumeric, begins, chars_of, contains, copies, copy, debug_text, ends, ends_with, extend,
    first_at, group_texts, is_alphanumeric, last_at, occurs, quoted, rsplit_once, same, split_once,
    starts_with, strip_prefix, text_between, text_of, texts,
};
use crate::toposort::ints;

verus! {

/// A list attribute of a rule.
#[derive(Debug)]
pub struct RuleList {
    pub name: String,
    pub labels: Vec<String>,
    pub strings: Vec<String>,
}

/// An attribute of a rule with one value.
#[derive(Debug)]
pub struct RuleValue {
    pub name: String,
    pub value: String,
}

/// A rule as Bazel's query shows it.
#[derive(Debug)]
pub struct XmlRule {
    pub class: String,
    pub name: String,
    pub lists: Vec<RuleList>,
    pub strings: Vec<RuleValue>,
    pub ints: Vec<RuleValue>,
    pub booleans: Vec<RuleValue>,
}

/// What keeps rules from being imported.
#[verifier::ext_equal]
pub enum Fault {
    External { value: Seq<char> },
    NonCanonical { value: Seq<char> },
    NoName { value: Seq<char> },
    NotImported { label: Seq<char> },
    SourceIsRule { value: Seq<char> },
    OutsidePackage { value: Seq<char>, package: Seq<char> },
    Extension { value: Seq<char>, extension: Seq<char> },
    Attribute { kind: Seq<char>, rule: Seq<char>, attribute: Seq<char> },
    Linkage { kind: Seq<char>, rule: Seq<char> },
    MakeVariables { kind: Seq<char>, rule: Seq<char> },
    Kind { kind: Seq<char> },
    NoSource { kind: Seq<char>, rule: Seq<char> },
    Linkopts { rule: Seq<char> },
    NoRules,
    NamesCollide { package: Seq<char>, name: Seq<char> },
    Configurable,
}

/// What keeps rules from being imported.
#[derive(Debug)]
pub enum BazelError {
    External { value: String },
    NonCanonical { value: String },
    NoName { value: String },
    NotImported { label: String },
    SourceIsRule { value: String },
    OutsidePackage { value: String, package: String },
    Extension { value: String, extension: String },
    Attribute { kind: String, rule: String, attribute: String },
    Linkage { kind: String, rule: String },
    MakeVariables { kind: String, rule: String },
    Kind { kind: String },
    NoSource { kind: String, rule: String },
    Linkopts { rule: String },
    NoRules,
    NamesCollide { package: String, name: String },
    Configurable,
}

impl View for BazelError {
    type V = Fault;

    open spec fn view(&self) -> Fault {
        match *self {
            BazelError::External { value } => Fault::External { value: value@ },
            BazelError::NonCanonical { value } => Fault::NonCanonical { value: value@ },
            BazelError::NoName { value } => Fault::NoName { value: value@ },
            BazelError::NotImported { label } => Fault::NotImported { label: label@ },
            BazelError::SourceIsRule { value } => Fault::SourceIsRule { value: value@ },
            BazelError::OutsidePackage { value, package } => Fault::OutsidePackage {
                value: value@,
                package: package@,
            },
            BazelError::Extension { value, extension } => Fault::Extension {
                value: value@,
                extension: extension@,
            },
            BazelError::Attribute { kind, rule, attribute } => Fault::Attribute {
                kind: kind@,
                rule: rule@,
                attribute: attribute@,
            },
            BazelError::Linkage { kind, rule } => Fault::Linkage { kind: kind@, rule: rule@ },
            BazelError::MakeVariables { kind, rule } => Fault::MakeVariables {
                kind: kind@,
                rule: rule@,
            },
            BazelError::Kind { kind } => Fault::Kind { kind: kind@ },
            BazelError::NoSource { kind, rule } => Fault::NoSource { kind: kind@, rule: rule@ },
            BazelError::Linkopts { rule } => Fault::Linkopts { rule: rule@ },
            BazelError::NoRules => Fault::NoRules,
            BazelError::NamesCollide { package, name } => Fault::NamesCollide {
                package: package@,
                name: name@,
            },
            BazelError::Configurable => Fault::Configurable,
        }
    }
}

impl Fault {
    /// The fault in words.
    pub open spec fn text(self) -> Seq<char> {
        match self {
            Fault::External { value } => "external repository label "@ + debug_text(value)
                + " is not importable; vendor or wrap it first"@,
            Fault::NonCanonical { value } => "unsupported non-canonical Bazel label "@ + debug_text(
                value,
            ),
            Fault::NoName { value } => "Bazel label "@ + debug_text(value)
                + " has no target name"@,
            Fault::NotImported { label } => "dependency "@ + debug_text(label)
                + " is not a supported imported rule"@,
            Fault::SourceIsRule { value } => "srcs entry "@ + debug_text(value)
                + " is another rule (filegroup/generated sources are not yet importable)"@,
            Fault::OutsidePackage { value, package } => "source "@ + debug_text(value)
                + " is outside package //"@ + package
                + "; cross-package source files are unsupported"@,
            Fault::Extension { value, extension } => "source "@ + debug_text(value)
                + " has unsupported extension "@ + debug_text(extension)
                + "; Frost's Bazel importer currently accepts native C/C++ only"@,
            Fault::Attribute { kind, rule, attribute } => kind + " "@ + rule
                + " uses unsupported attribute "@ + debug_text(attribute)
                + "; import stopped before writing partial semantics"@,
            Fault::Linkage { kind, rule } => kind + " "@ + rule
                + " uses alwayslink/linkshared semantics that Frost's native subset cannot preserve"@,
            Fault::MakeVariables { kind, rule } => kind + " "@ + rule
                + " uses Bazel make-variable expansion in flags; resolve it before importing"@,
            Fault::Kind { kind } => "unsupported Bazel rule "@ + debug_text(kind),
            Fault::NoSource { kind, rule } => kind + " "@ + rule
                + " is header/dep-only; Frost native C/C++ targets currently require a source"@,
            Fault::Linkopts { rule } => "cc_library "@ + rule
                + " has linkopts, which Frost cannot yet export transitively"@,
            Fault::NoRules =>
                "query contains no supported cc_library, cc_binary or cc_test rules"@,
            Fault::NamesCollide { package, name } =>
                "Bazel target names collide after Frost sanitization in //"@ + package + ": "@
                + debug_text(name),
            Fault::Configurable =>
                "Bazel query contains select(); import is configuration-dependent and was stopped before writing files"@,
        }
    }
}

fn three(a: &str, b: &str, c: &str) -> (r: String)
    ensures
        r@ == a@ + b@ + c@,
{
    let mut out = copy(a);
    out.append(b);
    out.append(c);
    out
}

impl BazelError {
    /// Reports the fault.
    pub fn message(&self) -> (r: String)
        ensures
            r@ == self@.text(),
    {
        match self {
            BazelError::External { value } => three(
                "external repository label ",
                &quoted(value),
                " is not importable; vendor or wrap it first",
            ),
            BazelError::NonCanonical { value } => {
                let mut out = copy("unsupported non-canonical Bazel label ");
                out.append(&quoted(value));
                out
            },
            BazelError::NoName { value } => three(
                "Bazel label ",
                &quoted(value),
                " has no target name",
            ),
            BazelError::NotImported { label } => three(
                "dependency ",
                &quoted(label),
                " is not a supported imported rule",
            ),
            BazelError::SourceIsRule { value } => three(
                "srcs entry ",
                &quoted(value),
                " is another rule (filegroup/generated sources are not yet importable)",
            ),
            BazelError::OutsidePackage { value, package } => {
                let mut out = three("source ", &quoted(value), " is outside package //");
                out.append(package);
                out.append("; cross-package source files are unsupported");
                out
            },
            BazelError::Extension { value, extension } => {
                let mut out = three("source ", &quoted(value), " has unsupported extension ");
                out.append(&quoted(extension));
                out.append("; Frost's Bazel importer currently accepts native C/C++ only");
                out
            },
            BazelError::Attribute { kind, rule, attribute } => {
                let mut out = three(kind, " ", rule);
                out.append(" uses unsupported attribute ");
                out.append(&quoted(attribute));
                out.append("; import stopped before writing partial semantics");
                out
            },
            BazelError::Linkage { kind, rule } => {
                let mut out = three(kind, " ", rule);
                out.append(
                    " uses alwayslink/linkshared semantics that Frost's native subset cannot preserve",
                );
                out
            },
            BazelError::MakeVariables { kind, rule } => {
                let mut out = three(kind, " ", rule);
                out.append(
                    " uses Bazel make-variable expansion in flags; resolve it before importing",
                );
                out
            },
            BazelError::Kind { kind } => {
                let mut out = copy("unsupported Bazel rule ");
                out.append(&quoted(kind));
                out
            },
            BazelError::NoSource { kind, rule } => {
                let mut out = three(kind, " ", rule);
                out.append(
                    " is header/dep-only; Frost native C/C++ targets currently require a source",
                );
                out
            },
            BazelError::Linkopts { rule } => three(
                "cc_library ",
                rule,
                " has linkopts, which Frost cannot yet export transitively",
            ),
            BazelError::NoRules => copy(
                "query contains no supported cc_library, cc_binary or cc_test rules",
            ),
            BazelError::NamesCollide { package, name } => {
                let mut out = three(
                    "Bazel target names collide after Frost sanitization in //",
                    package,
                    ": ",
                );
                out.append(&quoted(name));
                out
            },
            BazelError::Configurable => copy(
                "Bazel query contains select(); import is configuration-dependent and was stopped before writing files",
            ),
        }
    }
}

// ---------------------------------------------------------------------------
// Attributes
// ---------------------------------------------------------------------------

/// The kind of a rule: its class without the word behind it.
pub open spec fn kind_of(class: Seq<char>) -> Seq<char> {
    if ends(class, " rule"@) {
        class.take(class.len() - 5)
    } else {
        class
    }
}

/// The first list attribute of this name from number `i` on.
pub open spec fn list_from(lists: Seq<RuleList>, name: Seq<char>, i: int) -> Seq<Seq<char>>
    decreases lists.len() - i,
{
    if i < 0 || i >= lists.len() {
        Seq::empty()
    } else if lists[i].name@ == name {
        texts(lists[i].labels@) + texts(lists[i].strings@)
    } else {
        list_from(lists, name, i + 1)
    }
}

/// The values of a list attribute.
pub open spec fn list_of(rule: XmlRule, name: Seq<char>) -> Seq<Seq<char>> {
    list_from(rule.lists@, name, 0)
}

/// The first value of this name from number `i` on.
pub open spec fn value_from(v: Seq<RuleValue>, name: Seq<char>, i: int) -> Option<Seq<char>>
    decreases v.len() - i,
{
    if i < 0 || i >= v.len() {
        None
    } else if v[i].name@ == name {
        Some(v[i].value@)
    } else {
        value_from(v, name, i + 1)
    }
}

/// The value of an attribute.
pub open spec fn scalar_of(rule: XmlRule, name: Seq<char>) -> Option<Seq<char>> {
    match value_from(rule.strings@, name, 0) {
        Some(value) => Some(value),
        None => match value_from(rule.ints@, name, 0) {
            Some(value) => Some(value),
            None => value_from(rule.booleans@, name, 0),
        },
    }
}

/// An attribute is set.
pub open spec fn is_set(rule: XmlRule, name: Seq<char>) -> bool {
    scalar_of(rule, name) is Some && ({
        let v = scalar_of(rule, name)->0;
        v == "1"@ || v == "true"@ || v == "True"@
    })
}

fn find_value(v: &Vec<RuleValue>, name: &str) -> (r: Option<String>)
    ensures
        match r {
            Some(value) => value_from(v@, name@, 0) == Some(value@),
            None => value_from(v@, name@, 0) is None,
        },
{
    let mut i: usize = 0;
    while i < v.len()
        invariant
            i <= v@.len(),
            value_from(v@, name@, 0) == value_from(v@, name@, i as int),
        decreases v@.len() - i,
    {
        if same(&v[i].name, name) {
            return Some(copy(&v[i].value));
        }
        i += 1;
    }
    None
}

impl XmlRule {
    /// The kind of the rule.
    pub fn kind(&self) -> (r: String)
        ensures
            r@ == kind_of(self.class@),
    {
        proof {
            reveal_strlit(" rule");
        }
        if ends_with(&self.class, " rule") {
            let a = chars_of(&self.class);
            let out = text_between(&a, 0, a.len() - 5);
            assert(out@ =~= self.class@.take(self.class@.len() - 5));
            out
        } else {
            copy(&self.class)
        }
    }

    /// The values of a list attribute.
    pub fn list(&self, name: &str) -> (r: Vec<String>)
        ensures
            texts(r@) == list_of(*self, name@),
    {
        broadcast use group_texts;

        let mut i: usize = 0;
        while i < self.lists.len()
            invariant
                i <= self.lists@.len(),
                list_of(*self, name@) == list_from(self.lists@, name@, i as int),
            decreases self.lists@.len() - i,
        {
            if same(&self.lists[i].name, name) {
                let mut out = copies(&self.lists[i].labels);
                extend(&mut out, &self.lists[i].strings);
                return out;
            }
            i += 1;
        }
        let out: Vec<String> = Vec::new();
        assert(texts(out@) =~= Seq::<Seq<char>>::empty());
        out
    }

    /// The value of an attribute.
    pub fn scalar(&self, name: &str) -> (r: Option<String>)
        ensures
            match r {
                Some(value) => scalar_of(*self, name@) == Some(value@),
                None => scalar_of(*self, name@) is None,
            },
    {
        match find_value(&self.strings, name) {
            Some(value) => Some(value),
            None => match find_value(&self.ints, name) {
                Some(value) => Some(value),
                None => find_value(&self.booleans, name),
            },
        }
    }

    /// Whether an attribute is set.
    pub fn truthy(&self, name: &str) -> (r: bool)
        ensures
            r == is_set(*self, name@),
    {
        match self.scalar(name) {
            Some(value) => same(&value, "1") || same(&value, "true") || same(&value, "True"),
            None => false,
        }
    }
}

/// The attributes that are not imported.
pub open spec fn unsupported_attributes() -> Seq<Seq<char>> {
    seq![
        "additional_linker_inputs"@,
        "data"@,
        "defines"@,
        "include_prefix"@,
        "nocopts"@,
        "strip_include_prefix"@,
        "win_def_file"@,
    ]
}

/// A rule uses an attribute.
pub open spec fn uses(rule: XmlRule, name: Seq<char>) -> bool {
    list_of(rule, name).len() > 0 || (scalar_of(rule, name) is Some && ({
        let v = scalar_of(rule, name)->0;
        v.len() > 0 && v != "0"@ && v != "false"@
    }))
}

/// The first of the attributes from number `i` on that a rule uses.
pub open spec fn first_used(rule: XmlRule, names: Seq<Seq<char>>, i: int) -> Option<Seq<char>>
    decreases names.len() - i,
{
    if i < 0 || i >= names.len() {
        None
    } else if uses(rule, names[i]) {
        Some(names[i])
    } else {
        first_used(rule, names, i + 1)
    }
}

/// One of the flags holds a variable of Bazel's.
pub open spec fn has_variable(flags: Seq<Seq<char>>) -> bool {
    exists|i: int| 0 <= i < flags.len() && occurs(#[trigger] flags[i], "$("@)
}

/// What about the attributes of a rule cannot be imported.
pub open spec fn attribute_fault(rule: XmlRule) -> Option<Fault> {
    let kind = kind_of(rule.class@);
    match first_used(rule, unsupported_attributes(), 0) {
        Some(attribute) => Some(Fault::Attribute { kind, rule: rule.name@, attribute }),
        None => if is_set(rule, "alwayslink"@) || is_set(rule, "linkshared"@) {
            Some(Fault::Linkage { kind, rule: rule.name@ })
        } else if has_variable(list_of(rule, "copts"@)) || has_variable(
            list_of(rule, "linkopts"@),
        ) {
            Some(Fault::MakeVariables { kind, rule: rule.name@ })
        } else {
            None
        },
    }
}

fn any_variable(flags: &Vec<String>) -> (r: bool)
    ensures
        r == has_variable(texts(flags@)),
{
    let mut i: usize = 0;
    while i < flags.len()
        invariant
            i <= flags@.len(),
            forall|k: int| 0 <= k < i ==> !occurs(#[trigger] texts(flags@)[k], "$("@),
        decreases flags@.len() - i,
    {
        assert(texts(flags@)[i as int] == flags@[i as int]@);
        if contains(&flags[i], "$(") {
            return true;
        }
        i += 1;
    }
    false
}

fn rule_uses(rule: &XmlRule, name: &str) -> (r: bool)
    ensures
        r == uses(*rule, name@),
{
    let list = rule.list(name);
    assert(texts(list@).len() == list@.len());
    if list.len() > 0 {
        return true;
    }
    match rule.scalar(name) {
        Some(value) => !value.as_str().is_empty() && !same(&value, "0") && !same(&value, "false"),
        None => false,
    }
}

fn attribute_names() -> (r: Vec<String>)
    ensures
        texts(r@) == unsupported_attributes(),
{
    broadcast use group_texts;

    let mut out: Vec<String> = Vec::new();
    out.push(copy("additional_linker_inputs"));
    out.push(copy("data"));
    out.push(copy("defines"));
    out.push(copy("include_prefix"));
    out.push(copy("nocopts"));
    out.push(copy("strip_include_prefix"));
    out.push(copy("win_def_file"));
    assert(texts(out@) =~= unsupported_attributes());
    out
}

/// Refuses a rule with attributes that cannot be imported.
pub fn ensure_supported_attributes(rule: &XmlRule) -> (r: Result<(), BazelError>)
    ensures
        match r {
            Ok(_) => attribute_fault(*rule) is None,
            Err(e) => attribute_fault(*rule) == Some(e@),
        },
{
    let names = attribute_names();
    let mut i: usize = 0;
    while i < names.len()
        invariant
            texts(names@) == unsupported_attributes(),
            i <= names@.len(),
            first_used(*rule, unsupported_attributes(), 0) == first_used(
                *rule,
                unsupported_attributes(),
                i as int,
            ),
        decreases names@.len() - i,
    {
        assert(texts(names@)[i as int] == names@[i as int]@);
        if rule_uses(rule, &names[i]) {
            return Err(
                BazelError::Attribute {
                    kind: rule.kind(),
                    rule: copy(&rule.name),
                    attribute: copy(&names[i]),
                },
            );
        }
        i += 1;
    }
    assert(texts(names@).len() == names@.len());
    if rule.truthy("alwayslink") || rule.truthy("linkshared") {
        return Err(BazelError::Linkage { kind: rule.kind(), rule: copy(&rule.name) });
    }
    if any_variable(&rule.list("copts")) || any_variable(&rule.list("linkopts")) {
        return Err(BazelError::MakeVariables { kind: rule.kind(), rule: copy(&rule.name) });
    }
    Ok(())
}

// ---------------------------------------------------------------------------
// Labels
// ---------------------------------------------------------------------------

/// A label: a package and a name in it.
#[derive(Debug)]
pub struct BazelLabel {
    pub package: String,
    pub name: String,
}

/// A label.
#[verifier::ext_equal]
pub struct LabelText {
    pub package: Seq<char>,
    pub name: Seq<char>,
}

impl View for BazelLabel {
    type V = LabelText;

    open spec fn view(&self) -> LabelText {
        LabelText { package: self.package@, name: self.name@ }
    }
}

/// The label that a text writes. Without a colon the last part of the package
/// is the name.
pub open spec fn label_of(value: Seq<char>) -> Result<LabelText, Fault> {
    if begins(value, "@"@) {
        Err(Fault::External { value })
    } else if !begins(value, "//"@) {
        Err(Fault::NonCanonical { value })
    } else {
        let body = value.skip(2);
        let colon = first_at(body, ':');
        let package = if colon < body.len() {
            body.take(colon)
        } else {
            body
        };
        let name = if colon < body.len() {
            body.skip(colon + 1)
        } else {
            body.skip(last_at(body, '/') + 1)
        };
        if name.len() == 0 {
            Err(Fault::NoName { value })
        } else {
            Ok(LabelText { package, name })
        }
    }
}

/// The label that a text writes.
pub fn parse_label(value: &str) -> (r: Result<BazelLabel, BazelError>)
    ensures
        match r {
            Ok(label) => label_of(value@) == Ok::<LabelText, Fault>(label@),
            Err(e) => label_of(value@) == Err::<LabelText, Fault>(e@),
        },
{
    if starts_with(value, "@") {
        return Err(BazelError::External { value: copy(value) });
    }
    proof {
        reveal_strlit("//");
    }
    let body = match strip_prefix(value, "//") {
        Some(body) => body,
        None => {
            return Err(BazelError::NonCanonical { value: copy(value) });
        },
    };
    assert(body@ == value@.skip(2));
    let (package, name) = match split_once(&body, ':') {
        Some(cut) => cut,
        None => {
            let name = match rsplit_once(&body, '/') {
                Some(cut) => cut.1,
                None => {
                    proof {
                        crate::text::last_at_means(body@, '/');
                        assert(body@.skip(0) =~= body@);
                    }
                    copy(&body)
                },
            };
            (body, name)
        },
    };
    proof {
        crate::text::first_at_means(body@, ':');
    }
    if name.as_str().is_empty() {
        return Err(BazelError::NoName { value: copy(value) });
    }
    Ok(BazelLabel { package, name })
}

/// A character of a target's name.
pub open spec fn frost_char(c: char) -> char {
    if is_alphanumeric(c) || c == '_' || c == '-' {
        c
    } else {
        '_'
    }
}

/// The name of the target for a rule.
pub open spec fn frost_text(name: Seq<char>) -> Seq<char> {
    name.map_values(|c: char| frost_char(c))
}

/// The name of the target for a rule.
pub fn frost_name(name: &str) -> (r: String)
    ensures
        r@ == frost_text(name@),
{
    let a = chars_of(name);
    let ghost want = frost_text(name@);
    let mut out: Vec<char> = Vec::new();
    let mut i: usize = 0;
    while i < a.len()
        invariant
            a@ == name@,
            want == frost_text(name@),
            i <= a@.len(),
            out@ =~= want.take(i as int),
        decreases a@.len() - i,
    {
        let c = a[i];
        out.push(
            if alphanumeric(c) || c == '_' || c == '-' {
                c
            } else {
                '_'
            },
        );
        assert(want.take(i + 1) =~= want.take(i as int).push(want[i as int]));
        i += 1;
    }
    assert(want.take(i as int) =~= want);
    text_of(&out)
}

/// A label written in full.
pub open spec fn canonical(label: LabelText) -> Seq<char> {
    "//"@ + label.package + ":"@ + label.name
}

/// A target's label in a manifest.
pub open spec fn target_label(package: Seq<char>, name: Seq<char>) -> Seq<char> {
    if package.len() == 0 {
        name
    } else {
        "//"@ + package + ":"@ + name
    }
}

fn label_text(package: &str, name: &str) -> (r: String)
    ensures
        r@ == "//"@ + package@ + ":"@ + name@,
{
    let mut out = three("//", package, ":");
    out.append(name);
    out
}

fn target_label_text(package: &str, name: &str) -> (r: String)
    ensures
        r@ == target_label(package@, name@),
{
    if package.is_empty() {
        copy(name)
    } else {
        label_text(package, name)
    }
}

/// The label in a manifest of a dependency. `names` has the target of each
/// rule that is imported.
pub open spec fn dep_label(label: LabelText, names: Map<Seq<char>, Seq<char>>) -> Result<
    Seq<char>,
    Fault,
> {
    if names.dom().contains(canonical(label)) {
        Ok(target_label(label.package, names[canonical(label)]))
    } else {
        Err(Fault::NotImported { label: canonical(label) })
    }
}

/// The label in a manifest of a dependency.
pub fn frost_label(label: &BazelLabel, names: &SortedMap<String>) -> (r: Result<String, BazelError>)
    requires
        names.wf(),
    ensures
        match r {
            Ok(out) => dep_label(label@, text_map(*names)) == Ok::<Seq<char>, Fault>(out@),
            Err(e) => dep_label(label@, text_map(*names)) == Err::<Seq<char>, Fault>(e@),
        },
{
    let full = label_text(&label.package, &label.name);
    match names.get(&full) {
        Some(name) => Ok(target_label_text(&label.package, name)),
        None => Err(BazelError::NotImported { label: full }),
    }
}

/// The extensions of sources that can be imported.
pub open spec fn native_extension(e: Seq<char>) -> bool {
    e == "c"@ || e == "cc"@ || e == "cpp"@ || e == "cxx"@ || e == "C"@ || e == "c++"@
}

/// The extension of a name, or nothing.
pub open spec fn extension_or_none(name: Seq<char>) -> Seq<char> {
    match extension(name) {
        Some(e) => e,
        None => Seq::empty(),
    }
}

/// The path of a source in its package.
pub open spec fn source_of(
    value: Seq<char>,
    package: Seq<char>,
    all_rules: Set<Seq<char>>,
) -> Result<Seq<char>, Fault> {
    if all_rules.contains(value) {
        Err(Fault::SourceIsRule { value })
    } else {
        match label_of(value) {
            Err(fault) => Err(fault),
            Ok(label) => if label.package != package {
                Err(Fault::OutsidePackage { value, package })
            } else if !native_extension(extension_or_none(label.name)) {
                Err(Fault::Extension { value, extension: extension_or_none(label.name) })
            } else {
                Ok(label.name)
            },
        }
    }
}

/// The path of a source in its package.
pub fn source_path(value: &str, package: &str, all_rules: &TextSet) -> (r: Result<
    String,
    BazelError,
>)
    requires
        all_rules.wf(),
    ensures
        match r {
            Ok(path) => source_of(value@, package@, all_rules@) == Ok::<Seq<char>, Fault>(path@),
            Err(e) => source_of(value@, package@, all_rules@) == Err::<Seq<char>, Fault>(e@),
        },
{
    if all_rules.contains(value) {
        return Err(BazelError::SourceIsRule { value: copy(value) });
    }
    let label = match parse_label(value) {
        Ok(label) => label,
        Err(e) => {
            return Err(e);
        },
    };
    if !same(&label.package, package) {
        return Err(BazelError::OutsidePackage { value: copy(value), package: copy(package) });
    }
    let e = match extension_of(&label.name) {
        Some(e) => e,
        None => {
            let none = String::new();
            assert(none@ =~= Seq::<char>::empty());
            none
        },
    };
    if !(same(&e, "c") || same(&e, "cc") || same(&e, "cpp") || same(&e, "cxx") || same(&e, "C")
        || same(&e, "c++")) {
        return Err(BazelError::Extension { value: copy(value), extension: e });
    }
    Ok(label.name)
}

/// Refuses a query whose rules depend on the configuration.
pub fn ensure_configuration_free(expanded_build: &str) -> (r: Result<(), BazelError>)
    ensures
        match r {
            Ok(_) => !occurs(expanded_build@, "select("@),
            Err(e) => occurs(expanded_build@, "select("@) && e@ == Fault::Configurable,
        },
{
    if contains(expanded_build, "select(") {
        Err(BazelError::Configurable)
    } else {
        Ok(())
    }
}

// ---------------------------------------------------------------------------
// Rules
// ---------------------------------------------------------------------------

/// The paths of the first `n` sources, or what is wrong with the first that
/// cannot be imported.
pub open spec fn sources_upto(
    values: Seq<Seq<char>>,
    package: Seq<char>,
    all_rules: Set<Seq<char>>,
    n: nat,
) -> Result<Seq<Seq<char>>, Fault>
    decreases n,
{
    if n == 0 {
        Ok(Seq::empty())
    } else {
        match sources_upto(values, package, all_rules, (n - 1) as nat) {
            Err(fault) => Err(fault),
            Ok(before) => match source_of(values[n - 1], package, all_rules) {
                Err(fault) => Err(fault),
                Ok(path) => Ok(before.push(path)),
            },
        }
    }
}

proof fn source_fault_stays(
    values: Seq<Seq<char>>,
    package: Seq<char>,
    all_rules: Set<Seq<char>>,
    n: nat,
    m: nat,
)
    requires
        n <= m,
        sources_upto(values, package, all_rules, n) is Err,
    ensures
        sources_upto(values, package, all_rules, m) == sources_upto(values, package, all_rules, n),
    decreases m,
{
    if n < m {
        source_fault_stays(values, package, all_rules, n, (m - 1) as nat);
    }
}

/// The labels of the first `n` dependencies, or what is wrong with the first
/// that is not imported.
pub open spec fn deps_upto(
    values: Seq<Seq<char>>,
    names: Map<Seq<char>, Seq<char>>,
    n: nat,
) -> Result<Seq<Seq<char>>, Fault>
    decreases n,
{
    if n == 0 {
        Ok(Seq::empty())
    } else {
        match deps_upto(values, names, (n - 1) as nat) {
            Err(fault) => Err(fault),
            Ok(before) => match label_of(values[n - 1]) {
                Err(fault) => Err(fault),
                Ok(label) => match dep_label(label, names) {
                    Err(fault) => Err(fault),
                    Ok(out) => Ok(before.push(out)),
                },
            },
        }
    }
}

proof fn dep_fault_stays(
    values: Seq<Seq<char>>,
    names: Map<Seq<char>, Seq<char>>,
    n: nat,
    m: nat,
)
    requires
        n <= m,
        deps_upto(values, names, n) is Err,
    ensures
        deps_upto(values, names, m) == deps_upto(values, names, n),
    decreases m,
{
    if n < m {
        dep_fault_stays(values, names, n, (m - 1) as nat);
    }
}

/// What a rule depends on, in order.
pub open spec fn dep_values(rule: XmlRule) -> Seq<Seq<char>> {
    in_order((list_of(rule, "deps"@) + list_of(rule, "implementation_deps"@)).to_set())
}

/// Definitions as flags.
pub open spec fn define_flags(defines: Seq<Seq<char>>) -> Seq<Seq<char>> {
    Seq::new(defines.len(), |i: int| "-D"@ + defines[i])
}

/// A line of a manifest with a list, where the list is not empty.
pub open spec fn list_line(name: Seq<char>, values: Seq<Seq<char>>) -> Seq<char> {
    if values.len() == 0 {
        ""@
    } else {
        name + " = "@ + json_array(values) + "\n"@
    }
}

/// A rule that is imported.
pub open spec fn native_kind(kind: Seq<char>) -> bool {
    kind == "cc_library"@ || kind == "cc_binary"@ || kind == "cc_test"@
}

/// A target of a manifest: its package, its name, and its section.
#[verifier::ext_equal]
pub struct TargetText {
    pub package: Seq<char>,
    pub name: Seq<char>,
    pub section: Seq<char>,
}

/// The section of a target.
pub open spec fn section_of(
    rule: XmlRule,
    name: Seq<char>,
    sources: Seq<Seq<char>>,
    deps: Seq<Seq<char>>,
) -> Seq<char> {
    "[target."@ + name + "]\nkind = "@ + debug_text(kind_of(rule.class@)) + "\nsrcs = "@
        + json_array(sources) + "\n"@ + list_line("deps"@, deps) + list_line(
        "includes"@,
        list_of(rule, "includes"@),
    ) + list_line(
        "cflags"@,
        list_of(rule, "copts"@) + define_flags(list_of(rule, "local_defines"@)),
    ) + list_line("ldflags"@, list_of(rule, "linkopts"@)) + "\n"@
}

/// The target for a rule, or what keeps it from being imported.
pub open spec fn rendered(
    rule: XmlRule,
    names: Map<Seq<char>, Seq<char>>,
    all_rules: Set<Seq<char>>,
) -> Result<TargetText, Fault> {
    let kind = kind_of(rule.class@);
    match attribute_fault(rule) {
        Some(fault) => Err(fault),
        None => match label_of(rule.name@) {
            Err(fault) => Err(fault),
            Ok(label) => if !native_kind(kind) {
                Err(Fault::Kind { kind })
            } else {
                let srcs = list_of(rule, "srcs"@);
                match sources_upto(srcs, label.package, all_rules, srcs.len()) {
                    Err(fault) => Err(fault),
                    Ok(sources) => if sources.len() == 0 {
                        Err(Fault::NoSource { kind, rule: rule.name@ })
                    } else {
                        let values = dep_values(rule);
                        match deps_upto(values, names, values.len()) {
                            Err(fault) => Err(fault),
                            Ok(deps) => if kind == "cc_library"@ && list_of(
                                rule,
                                "linkopts"@,
                            ).len() > 0 {
                                Err(Fault::Linkopts { rule: rule.name@ })
                            } else {
                                Ok(
                                    TargetText {
                                        package: label.package,
                                        name: names[rule.name@],
                                        section: section_of(
                                            rule,
                                            names[rule.name@],
                                            sources,
                                            deps,
                                        ),
                                    },
                                )
                            },
                        }
                    },
                }
            },
        },
    }
}

fn find_sources(values: &Vec<String>, package: &str, all_rules: &TextSet) -> (r: Result<
    Vec<String>,
    BazelError,
>)
    requires
        all_rules.wf(),
    ensures
        match r {
            Ok(out) => sources_upto(texts(values@), package@, all_rules@, values@.len()) == Ok::<
                Seq<Seq<char>>,
                Fault,
            >(texts(out@)),
            Err(e) => sources_upto(texts(values@), package@, all_rules@, values@.len()) == Err::<
                Seq<Seq<char>>,
                Fault,
            >(e@),
        },
{
    broadcast use group_texts;

    let ghost all = texts(values@);
    let mut out: Vec<String> = Vec::new();
    let mut i: usize = 0;
    while i < values.len()
        invariant
            all_rules.wf(),
            all == texts(values@),
            i <= values@.len(),
            sources_upto(all, package@, all_rules@, i as nat) == Ok::<Seq<Seq<char>>, Fault>(
                texts(out@),
            ),
        decreases values@.len() - i,
    {
        assert(all[i as int] == values@[i as int]@);
        match source_path(&values[i], package, all_rules) {
            Ok(path) => {
                let ghost was = texts(out@);
                let ghost told = path@;
                out.push(path);
                assert(texts(out@) =~= was.push(told));
                assert(sources_upto(all, package@, all_rules@, (i + 1) as nat) == Ok::<
                    Seq<Seq<char>>,
                    Fault,
                >(was.push(told)));
            },
            Err(e) => {
                proof {
                    source_fault_stays(all, package@, all_rules@, (i + 1) as nat, values@.len());
                }
                return Err(e);
            },
        }
        i += 1;
    }
    Ok(out)
}

fn find_deps(values: &Vec<String>, names: &SortedMap<String>) -> (r: Result<
    Vec<String>,
    BazelError,
>)
    requires
        names.wf(),
    ensures
        match r {
            Ok(out) => deps_upto(texts(values@), text_map(*names), values@.len()) == Ok::<
                Seq<Seq<char>>,
                Fault,
            >(texts(out@)),
            Err(e) => deps_upto(texts(values@), text_map(*names), values@.len()) == Err::<
                Seq<Seq<char>>,
                Fault,
            >(e@),
        },
{
    broadcast use group_texts;

    let ghost all = texts(values@);
    let ghost map = text_map(*names);
    let mut out: Vec<String> = Vec::new();
    let mut i: usize = 0;
    while i < values.len()
        invariant
            names.wf(),
            all == texts(values@),
            map == text_map(*names),
            i <= values@.len(),
            deps_upto(all, map, i as nat) == Ok::<Seq<Seq<char>>, Fault>(texts(out@)),
        decreases values@.len() - i,
    {
        assert(all[i as int] == values@[i as int]@);
        let found = match parse_label(&values[i]) {
            Ok(label) => frost_label(&label, names),
            Err(e) => Err(e),
        };
        match found {
            Ok(label) => {
                let ghost was = texts(out@);
                let ghost told = label@;
                out.push(label);
                assert(texts(out@) =~= was.push(told));
                assert(deps_upto(all, map, (i + 1) as nat) == Ok::<Seq<Seq<char>>, Fault>(
                    was.push(told),
                ));
            },
            Err(e) => {
                proof {
                    dep_fault_stays(all, map, (i + 1) as nat, values@.len());
                }
                return Err(e);
            },
        }
        i += 1;
    }
    Ok(out)
}

fn sorted_deps(rule: &XmlRule) -> (r: Vec<String>)
    ensures
        texts(r@) == dep_values(*rule),
{
    let mut all = rule.list("deps");
    extend(&mut all, &rule.list("implementation_deps"));
    let ghost names = texts(all@);
    let mut set = TextSet::new();
    let mut i: usize = 0;
    assert(names.take(0).to_set() =~= Set::<Seq<char>>::empty());
    while i < all.len()
        invariant
            names == texts(all@),
            i <= all@.len(),
            set.wf(),
            set@ =~= names.take(i as int).to_set(),
        decreases all@.len() - i,
    {
        proof {
            assert(names[i as int] == all@[i as int]@);
            assert(names.take(i + 1) =~= names.take(i as int).push(names[i as int]));
            names.take(i as int).lemma_push_to_set_commute(names[i as int]);
        }
        let _ = set.insert(copy(&all[i]));
        i += 1;
    }
    assert(names.take(i as int) =~= names);
    set.items()
}

fn line_of(name: &str, values: &Vec<String>) -> (r: String)
    ensures
        r@ == list_line(name@, texts(values@)),
{
    assert(texts(values@).len() == values@.len());
    if values.len() == 0 {
        return copy("");
    }
    let mut out = copy(name);
    out.append(" = ");
    out.append(&json_list(values));
    out.append("\n");
    out
}

fn flags_of(rule: &XmlRule) -> (r: Vec<String>)
    ensures
        texts(r@) == list_of(*rule, "copts"@) + define_flags(list_of(*rule, "local_defines"@)),
{
    broadcast use group_texts;

    let mut out = rule.list("copts");
    let ghost was = texts(out@);
    let defines = rule.list("local_defines");
    let ghost want = define_flags(texts(defines@));
    let mut i: usize = 0;
    assert(was + want.take(0) =~= was);
    while i < defines.len()
        invariant
            want == define_flags(texts(defines@)),
            i <= defines@.len(),
            texts(out@) == was + want.take(i as int),
        decreases defines@.len() - i,
    {
        let mut flag = copy("-D");
        flag.append(&defines[i]);
        out.push(flag);
        assert(want.take(i + 1) =~= want.take(i as int).push(want[i as int]));
        assert(was + want.take(i + 1) =~= (was + want.take(i as int)).push(want[i as int]));
        i += 1;
    }
    assert(want.take(i as int) =~= want);
    out
}

fn write_section(rule: &XmlRule, name: &str, sources: &Vec<String>, deps: &Vec<String>) -> (r:
    String)
    ensures
        r@ == section_of(*rule, name@, texts(sources@), texts(deps@)),
{
    let mut out = copy("[target.");
    out.append(name);
    out.append("]\nkind = ");
    out.append(&quoted(&rule.kind()));
    out.append("\nsrcs = ");
    out.append(&json_list(sources));
    out.append("\n");
    out.append(&line_of("deps", deps));
    out.append(&line_of("includes", &rule.list("includes")));
    out.append(&line_of("cflags", &flags_of(rule)));
    out.append(&line_of("ldflags", &rule.list("linkopts")));
    out.append("\n");
    out
}

/// A target of a manifest.
struct Rendered {
    package: String,
    name: String,
    section: String,
}

impl View for Rendered {
    type V = TargetText;

    closed spec fn view(&self) -> TargetText {
        TargetText { package: self.package@, name: self.name@, section: self.section@ }
    }
}

fn render_rule(rule: &XmlRule, names: &SortedMap<String>, all_rules: &TextSet) -> (r: Result<
    Rendered,
    BazelError,
>)
    requires
        names.wf(),
        all_rules.wf(),
        names.has(rule.name@),
    ensures
        match r {
            Ok(t) => rendered(*rule, text_map(*names), all_rules@) == Ok::<TargetText, Fault>(t@),
            Err(e) => rendered(*rule, text_map(*names), all_rules@) == Err::<TargetText, Fault>(
                e@,
            ),
        },
{
    if let Err(e) = ensure_supported_attributes(rule) {
        return Err(e);
    }
    let label = match parse_label(&rule.name) {
        Ok(label) => label,
        Err(e) => {
            return Err(e);
        },
    };
    let kind = rule.kind();
    if !(same(&kind, "cc_library") || same(&kind, "cc_binary") || same(&kind, "cc_test")) {
        return Err(BazelError::Kind { kind });
    }
    let srcs = rule.list("srcs");
    assert(texts(srcs@).len() == srcs@.len());
    let sources = match find_sources(&srcs, &label.package, all_rules) {
        Ok(sources) => sources,
        Err(e) => {
            return Err(e);
        },
    };
    assert(texts(sources@).len() == sources@.len());
    if sources.len() == 0 {
        return Err(BazelError::NoSource { kind, rule: copy(&rule.name) });
    }
    let values = sorted_deps(rule);
    assert(texts(values@).len() == values@.len());
    let deps = match find_deps(&values, names) {
        Ok(deps) => deps,
        Err(e) => {
            return Err(e);
        },
    };
    let linkopts = rule.list("linkopts");
    assert(texts(linkopts@).len() == linkopts@.len());
    if same(&kind, "cc_library") && linkopts.len() > 0 {
        return Err(BazelError::Linkopts { rule: copy(&rule.name) });
    }
    match names.get(&rule.name) {
        Some(name) => {
            let section = write_section(rule, name, &sources, &deps);
            Ok(Rendered { package: label.package, name: copy(name), section })
        },
        None => Err(BazelError::NoRules),
    }
}

// ---------------------------------------------------------------------------
// The plan
// ---------------------------------------------------------------------------

/// The numbers of those of the first `n` rules that are imported.
pub open spec fn imported_upto(rules: Seq<XmlRule>, n: nat) -> Seq<int>
    decreases n,
{
    if n == 0 {
        Seq::empty()
    } else {
        let before = imported_upto(rules, (n - 1) as nat);
        if native_kind(kind_of(rules[n - 1].class@)) {
            before.push(n - 1)
        } else {
            before
        }
    }
}

/// The labels of the first `n` rules that are imported, or what is wrong with
/// the first that has no label or no name of its own.
pub open spec fn labels_upto(rules: Seq<XmlRule>, picked: Seq<int>, n: nat) -> Result<
    Seq<LabelText>,
    Fault,
>
    decreases n,
{
    if n == 0 {
        Ok(Seq::empty())
    } else {
        match labels_upto(rules, picked, (n - 1) as nat) {
            Err(fault) => Err(fault),
            Ok(before) => match label_of(rules[picked[n - 1]].name@) {
                Err(fault) => Err(fault),
                Ok(label) => if named_before(before, label) {
                    Err(Fault::NamesCollide { package: label.package, name: label.name })
                } else {
                    Ok(before.push(label))
                },
            },
        }
    }
}

/// One of the labels has the same package, and a target of the same name.
pub open spec fn named_before(labels: Seq<LabelText>, label: LabelText) -> bool {
    exists|i: int|
        0 <= i < labels.len() && (#[trigger] labels[i]).package == label.package && frost_text(
            labels[i].name,
        ) == frost_text(label.name)
}

proof fn label_fault_stays(rules: Seq<XmlRule>, picked: Seq<int>, n: nat, m: nat)
    requires
        n <= m,
        labels_upto(rules, picked, n) is Err,
    ensures
        labels_upto(rules, picked, m) == labels_upto(rules, picked, n),
    decreases m,
{
    if n < m {
        label_fault_stays(rules, picked, n, (m - 1) as nat);
    }
}

/// The targets of the first `n` rules that are imported.
pub open spec fn names_upto(
    rules: Seq<XmlRule>,
    picked: Seq<int>,
    labels: Seq<LabelText>,
    n: nat,
) -> Map<Seq<char>, Seq<char>>
    decreases n,
{
    if n == 0 {
        Map::empty()
    } else {
        names_upto(rules, picked, labels, (n - 1) as nat).insert(
            rules[picked[n - 1]].name@,
            frost_text(labels[n - 1].name),
        )
    }
}

/// The targets for the first `n` rules, or what keeps the first from being
/// imported that cannot be.
pub open spec fn targets_upto(
    rules: Seq<XmlRule>,
    picked: Seq<int>,
    names: Map<Seq<char>, Seq<char>>,
    all_rules: Set<Seq<char>>,
    n: nat,
) -> Result<Seq<TargetText>, Fault>
    decreases n,
{
    if n == 0 {
        Ok(Seq::empty())
    } else {
        match targets_upto(rules, picked, names, all_rules, (n - 1) as nat) {
            Err(fault) => Err(fault),
            Ok(before) => match rendered(rules[picked[n - 1]], names, all_rules) {
                Err(fault) => Err(fault),
                Ok(target) => Ok(before.push(target)),
            },
        }
    }
}

proof fn target_fault_stays(
    rules: Seq<XmlRule>,
    picked: Seq<int>,
    names: Map<Seq<char>, Seq<char>>,
    all_rules: Set<Seq<char>>,
    n: nat,
    m: nat,
)
    requires
        n <= m,
        targets_upto(rules, picked, names, all_rules, n) is Err,
    ensures
        targets_upto(rules, picked, names, all_rules, m) == targets_upto(
            rules,
            picked,
            names,
            all_rules,
            n,
        ),
    decreases m,
{
    if n < m {
        target_fault_stays(rules, picked, names, all_rules, n, (m - 1) as nat);
    }
}

/// The names of all rules.
pub open spec fn rule_names(rules: Seq<XmlRule>) -> Set<Seq<char>> {
    Seq::new(rules.len(), |i: int| rules[i].name@).to_set()
}

/// The sections of those of the first `n` targets that are in a package.
pub open spec fn package_text(targets: Seq<TargetText>, package: Seq<char>, n: nat) -> Seq<char>
    decreases n,
{
    if n == 0 {
        Seq::empty()
    } else {
        let before = package_text(targets, package, (n - 1) as nat);
        if targets[n - 1].package == package {
            before + targets[n - 1].section
        } else {
            before
        }
    }
}

/// The labels of the binaries and tests among the first `n` targets.
pub open spec fn runnable_upto(
    rules: Seq<XmlRule>,
    picked: Seq<int>,
    targets: Seq<TargetText>,
    n: nat,
) -> Seq<Seq<char>>
    decreases n,
{
    if n == 0 {
        Seq::empty()
    } else {
        let before = runnable_upto(rules, picked, targets, (n - 1) as nat);
        let kind = kind_of(rules[picked[n - 1]].class@);
        if kind == "cc_binary"@ || kind == "cc_test"@ {
            before.push(target_label(targets[n - 1].package, targets[n - 1].name))
        } else {
            before
        }
    }
}

/// The values of a map in the order of its keys.
pub open spec fn values_in_order(m: Map<Seq<char>, Seq<char>>) -> Seq<Seq<char>> {
    Seq::new(in_order(m.dom()).len(), |i: int| m[in_order(m.dom())[i]])
}

/// What is built where nothing is asked for: the binaries and tests, or all
/// targets where there are none.
pub open spec fn default_targets(
    rules: Seq<XmlRule>,
    picked: Seq<int>,
    targets: Seq<TargetText>,
    names: Map<Seq<char>, Seq<char>>,
) -> Seq<Seq<char>> {
    let runnable = runnable_upto(rules, picked, targets, targets.len());
    sorted_texts(
        if runnable.len() == 0 {
            values_in_order(names)
        } else {
            runnable
        },
    )
}

/// The beginning of the manifest of the workspace.
pub open spec fn root_head(version: Seq<char>, defaults: Seq<Seq<char>>) -> Seq<char> {
    "# Generated by `frost import-bazel` from "@ + version
        + ".\n# Review toolchain flags and every noted unsupported Bazel feature before deleting BUILD files.\n\n[workspace]\ndefault_targets = "@
        + json_array(defaults)
        + "\n\n[toolchain]\ncc = \"cc\"\ncxx = \"c++\"\ncflags = [\"-Wall\"]\n\n[profile.debug]\ncflags = [\"-O0\", \"-g\"]\n\n[profile.release]\ncflags = [\"-O3\", \"-DNDEBUG\"]\n\n"@
}

/// The manifest of a package.
pub open spec fn package_manifest(version: Seq<char>, sections: Seq<char>) -> Seq<char> {
    "# Generated by `frost import-bazel` from "@ + version + ". Review before use.\n\n"@
        + sections
}

/// A file of a plan.
#[derive(Debug)]
pub struct PlanFile {
    pub path: String,
    pub text: String,
}

/// A file of a plan.
#[verifier::ext_equal]
pub struct FileText {
    pub path: Seq<char>,
    pub text: Seq<char>,
}

impl View for PlanFile {
    type V = FileText;

    open spec fn view(&self) -> FileText {
        FileText { path: self.path@, text: self.text@ }
    }
}

/// Files of a plan.
pub open spec fn file_texts(v: Seq<PlanFile>) -> Seq<FileText> {
    Seq::new(v.len(), |i: int| v[i]@)
}

impl Ranked for PlanFile {
    open spec fn less(&self, other: &Self) -> bool {
        path_before(components(self.path@), components(other.path@))
    }

    proof fn asymmetric(a: &Self, b: &Self) {
        path_before_asymmetric(components(a.path@), components(b.path@));
    }

    proof fn carries_over(a: &Self, b: &Self, c: &Self) {
        path_before_carries_over(components(a.path@), components(b.path@), components(c.path@));
    }

    fn precedes(&self, other: &Self) -> (r: bool) {
        path_precedes(&components_of(&self.path), &components_of(&other.path))
    }
}

/// Where a path stands among files: the first file with the same components,
/// or behind all.
pub open spec fn file_at(files: Seq<FileText>, path: Seq<char>) -> int
    decreases files.len(),
{
    if files.len() == 0 || components(files[0].path) == components(path) {
        0
    } else {
        1 + file_at(files.skip(1), path)
    }
}

/// Files with one more; one with the same path gets its text.
pub open spec fn with_file(files: Seq<FileText>, path: Seq<char>, text: Seq<char>) -> Seq<
    FileText,
> {
    let at = file_at(files, path);
    if at < files.len() {
        files.update(at, FileText { path: files[at].path, text })
    } else {
        files.push(FileText { path, text })
    }
}

/// The manifest of the workspace, and those of the first `n` packages.
pub open spec fn files_upto(
    root: Seq<char>,
    version: Seq<char>,
    targets: Seq<TargetText>,
    packages: Seq<Seq<char>>,
    n: nat,
) -> Seq<FileText>
    decreases n,
{
    if n == 0 {
        seq![FileText { path: "frost.toml"@, text: root }]
    } else {
        let before = files_upto(root, version, targets, packages, (n - 1) as nat);
        if packages[n - 1].len() == 0 {
            before
        } else {
            with_file(
                before,
                joined_path(packages[n - 1], "frost.toml"@),
                package_manifest(
                    version,
                    package_text(targets, packages[n - 1], targets.len()),
                ),
            )
        }
    }
}

/// The packages of targets, in order.
pub open spec fn packages_of(targets: Seq<TargetText>) -> Seq<Seq<char>> {
    in_order(Seq::new(targets.len(), |i: int| targets[i].package).to_set())
}

/// A plan: the files to write, in the order of their paths, and how many rules
/// and packages they are about.
#[derive(Debug)]
pub struct ImportPlan {
    pub files: Vec<PlanFile>,
    pub rule_count: usize,
    pub package_count: usize,
}

fn pick_rules(rules: &Vec<XmlRule>) -> (r: Vec<usize>)
    ensures
        ints(r@) == imported_upto(rules@, rules@.len()),
        forall|k: int| 0 <= k < r@.len() ==> #[trigger] r@[k] < rules@.len(),
{
    let mut out: Vec<usize> = Vec::new();
    let mut i: usize = 0;
    assert(ints(out@) =~= Seq::<int>::empty());
    while i < rules.len()
        invariant
            i <= rules@.len(),
            ints(out@) == imported_upto(rules@, i as nat),
            forall|k: int| 0 <= k < out@.len() ==> #[trigger] out@[k] < rules@.len(),
        decreases rules@.len() - i,
    {
        let kind = rules[i].kind();
        if same(&kind, "cc_library") || same(&kind, "cc_binary") || same(&kind, "cc_test") {
            let ghost was = ints(out@);
            out.push(i);
            assert(ints(out@) =~= was.push(i as int));
        }
        i += 1;
    }
    out
}

fn all_names(rules: &Vec<XmlRule>) -> (r: TextSet)
    ensures
        r.wf(),
        r@ == rule_names(rules@),
{
    let ghost names = Seq::new(rules@.len(), |i: int| rules@[i].name@);
    let mut set = TextSet::new();
    let mut i: usize = 0;
    assert(names.take(0).to_set() =~= Set::<Seq<char>>::empty());
    while i < rules.len()
        invariant
            names == Seq::new(rules@.len(), |i: int| rules@[i].name@),
            i <= rules@.len(),
            set.wf(),
            set@ =~= names.take(i as int).to_set(),
        decreases rules@.len() - i,
    {
        proof {
            assert(names.take(i + 1) =~= names.take(i as int).push(names[i as int]));
            names.take(i as int).lemma_push_to_set_commute(names[i as int]);
        }
        let _ = set.insert(copy(&rules[i].name));
        i += 1;
    }
    assert(names.take(i as int) =~= names);
    set
}

spec fn label_texts(v: Seq<BazelLabel>) -> Seq<LabelText> {
    Seq::new(v.len(), |i: int| v[i]@)
}

fn is_named_before(labels: &Vec<BazelLabel>, label: &BazelLabel) -> (r: bool)
    ensures
        r == named_before(label_texts(labels@), label@),
{
    let name = frost_name(&label.name);
    let mut i: usize = 0;
    while i < labels.len()
        invariant
            name@ == frost_text(label@.name),
            i <= labels@.len(),
            forall|k: int|
                0 <= k < i ==> !((#[trigger] label_texts(labels@)[k]).package == label@.package
                    && frost_text(label_texts(labels@)[k].name) == frost_text(label@.name)),
        decreases labels@.len() - i,
    {
        assert(label_texts(labels@)[i as int] == labels@[i as int]@);
        if same(&labels[i].package, &label.package) && same(&frost_name(&labels[i].name), &name) {
            return true;
        }
        i += 1;
    }
    false
}

fn find_labels(rules: &Vec<XmlRule>, picked: &Vec<usize>) -> (r: Result<
    Vec<BazelLabel>,
    BazelError,
>)
    requires
        forall|k: int| 0 <= k < picked@.len() ==> #[trigger] picked@[k] < rules@.len(),
    ensures
        match r {
            Ok(labels) => labels@.len() == picked@.len() && labels_upto(
                rules@,
                ints(picked@),
                picked@.len(),
            ) == Ok::<Seq<LabelText>, Fault>(label_texts(labels@)),
            Err(e) => labels_upto(rules@, ints(picked@), picked@.len()) == Err::<
                Seq<LabelText>,
                Fault,
            >(e@),
        },
{
    let ghost p = ints(picked@);
    let mut labels: Vec<BazelLabel> = Vec::new();
    let mut i: usize = 0;
    assert(label_texts(labels@) =~= Seq::<LabelText>::empty());
    while i < picked.len()
        invariant
            p == ints(picked@),
            forall|k: int| 0 <= k < picked@.len() ==> #[trigger] picked@[k] < rules@.len(),
            i <= picked@.len(),
            labels@.len() == i,
            labels_upto(rules@, p, i as nat) == Ok::<Seq<LabelText>, Fault>(label_texts(labels@)),
        decreases picked@.len() - i,
    {
        let at: usize = picked[i];
        assert(p[i as int] == at as int);
        let found = match parse_label(&rules[at].name) {
            Ok(label) => if is_named_before(&labels, &label) {
                Err(BazelError::NamesCollide { package: label.package, name: label.name })
            } else {
                Ok(label)
            },
            Err(e) => Err(e),
        };
        match found {
            Ok(label) => {
                let ghost was = label_texts(labels@);
                let ghost told = label@;
                labels.push(label);
                assert(label_texts(labels@) =~= was.push(told));
                assert(labels_upto(rules@, p, (i + 1) as nat) == Ok::<Seq<LabelText>, Fault>(
                    was.push(told),
                ));
            },
            Err(e) => {
                proof {
                    label_fault_stays(rules@, p, (i + 1) as nat, picked@.len());
                }
                return Err(e);
            },
        }
        i += 1;
    }
    Ok(labels)
}

fn find_names(rules: &Vec<XmlRule>, picked: &Vec<usize>, labels: &Vec<BazelLabel>) -> (r: SortedMap<
    String,
>)
    requires
        forall|k: int| 0 <= k < picked@.len() ==> #[trigger] picked@[k] < rules@.len(),
        labels@.len() == picked@.len(),
    ensures
        r.wf(),
        text_map(r) == names_upto(rules@, ints(picked@), label_texts(labels@), picked@.len()),
        forall|k: int| 0 <= k < picked@.len() ==> r.has(rules@[#[trigger] picked@[k] as int].name@),
{
    let ghost p = ints(picked@);
    let ghost l = label_texts(labels@);
    let mut names: SortedMap<String> = SortedMap::new();
    let mut i: usize = 0;
    assert(text_map(names) =~= Map::<Seq<char>, Seq<char>>::empty());
    while i < picked.len()
        invariant
            p == ints(picked@),
            l == label_texts(labels@),
            forall|k: int| 0 <= k < picked@.len() ==> #[trigger] picked@[k] < rules@.len(),
            labels@.len() == picked@.len(),
            i <= picked@.len(),
            names.wf(),
            text_map(names) == names_upto(rules@, p, l, i as nat),
            forall|k: int| 0 <= k < i ==> names.has(rules@[#[trigger] picked@[k] as int].name@),
        decreases picked@.len() - i,
    {
        let at: usize = picked[i];
        assert(p[i as int] == at as int);
        let ghost was = text_map(names);
        let name = frost_name(&labels[i].name);
        let ghost told = name@;
        let _ = names.insert(copy(&rules[at].name), name);
        assert(text_map(names) =~= was.insert(rules@[at as int].name@, told));
        i += 1;
    }
    names
}

spec fn target_texts(v: Seq<Rendered>) -> Seq<TargetText> {
    Seq::new(v.len(), |i: int| v[i]@)
}

fn render_all(
    rules: &Vec<XmlRule>,
    picked: &Vec<usize>,
    names: &SortedMap<String>,
    all_rules: &TextSet,
) -> (r: Result<Vec<Rendered>, BazelError>)
    requires
        forall|k: int| 0 <= k < picked@.len() ==> #[trigger] picked@[k] < rules@.len(),
        names.wf(),
        all_rules.wf(),
        forall|k: int|
            0 <= k < picked@.len() ==> names.has(rules@[#[trigger] picked@[k] as int].name@),
    ensures
        match r {
            Ok(targets) => targets@.len() == picked@.len() && targets_upto(
                rules@,
                ints(picked@),
                text_map(*names),
                all_rules@,
                picked@.len(),
            ) == Ok::<Seq<TargetText>, Fault>(target_texts(targets@)),
            Err(e) => targets_upto(
                rules@,
                ints(picked@),
                text_map(*names),
                all_rules@,
                picked@.len(),
            ) == Err::<Seq<TargetText>, Fault>(e@),
        },
{
    let ghost p = ints(picked@);
    let ghost map = text_map(*names);
    let mut targets: Vec<Rendered> = Vec::new();
    let mut i: usize = 0;
    assert(target_texts(targets@) =~= Seq::<TargetText>::empty());
    while i < picked.len()
        invariant
            p == ints(picked@),
            map == text_map(*names),
            forall|k: int| 0 <= k < picked@.len() ==> #[trigger] picked@[k] < rules@.len(),
            names.wf(),
            all_rules.wf(),
            forall|k: int|
                0 <= k < picked@.len() ==> names.has(rules@[#[trigger] picked@[k] as int].name@),
            i <= picked@.len(),
            targets@.len() == i,
            targets_upto(rules@, p, map, all_rules@, i as nat) == Ok::<Seq<TargetText>, Fault>(
                target_texts(targets@),
            ),
        decreases picked@.len() - i,
    {
        let at: usize = picked[i];
        assert(p[i as int] == at as int);
        match render_rule(&rules[at], names, all_rules) {
            Ok(target) => {
                let ghost was = target_texts(targets@);
                let ghost told = target@;
                targets.push(target);
                assert(target_texts(targets@) =~= was.push(told));
                assert(targets_upto(rules@, p, map, all_rules@, (i + 1) as nat) == Ok::<
                    Seq<TargetText>,
                    Fault,
                >(was.push(told)));
            },
            Err(e) => {
                proof {
                    target_fault_stays(rules@, p, map, all_rules@, (i + 1) as nat, picked@.len());
                }
                return Err(e);
            },
        }
        i += 1;
    }
    Ok(targets)
}

fn find_runnable(rules: &Vec<XmlRule>, picked: &Vec<usize>, targets: &Vec<Rendered>) -> (r: Vec<
    String,
>)
    requires
        forall|k: int| 0 <= k < picked@.len() ==> #[trigger] picked@[k] < rules@.len(),
        targets@.len() == picked@.len(),
    ensures
        texts(r@) == runnable_upto(
            rules@,
            ints(picked@),
            target_texts(targets@),
            targets@.len(),
        ),
{
    broadcast use group_texts;

    let ghost p = ints(picked@);
    let ghost t = target_texts(targets@);
    let mut out: Vec<String> = Vec::new();
    let mut i: usize = 0;
    while i < targets.len()
        invariant
            p == ints(picked@),
            t == target_texts(targets@),
            forall|k: int| 0 <= k < picked@.len() ==> #[trigger] picked@[k] < rules@.len(),
            targets@.len() == picked@.len(),
            i <= targets@.len(),
            texts(out@) == runnable_upto(rules@, p, t, i as nat),
        decreases targets@.len() - i,
    {
        let at: usize = picked[i];
        assert(p[i as int] == at as int);
        assert(t[i as int] == targets@[i as int]@);
        let kind = rules[at].kind();
        if same(&kind, "cc_binary") || same(&kind, "cc_test") {
            out.push(target_label_text(&targets[i].package, &targets[i].name));
        }
        i += 1;
    }
    out
}

fn values_of(m: &SortedMap<String>) -> (r: Vec<String>)
    requires
        m.wf(),
    ensures
        texts(r@) == values_in_order(text_map(*m)),
{
    let out = copies(&m.values);
    proof {
        assert(m.names().to_set() =~= text_map(*m).dom());
        crate::sorted_map::in_order_is(m.names());
        assert forall|i: int| 0 <= i < m.values@.len() implies texts(m.values@)[i]
            == values_in_order(text_map(*m))[i] by {
            m.spot_is(i);
            assert(m.names().contains(m.names()[i]));
        }
        assert(texts(m.values@) =~= values_in_order(text_map(*m)));
    }
    out
}

fn text_in_package(targets: &Vec<Rendered>, package: &str) -> (r: String)
    ensures
        r@ == package_text(target_texts(targets@), package@, targets@.len()),
{
    let ghost t = target_texts(targets@);
    let mut out = String::new();
    let mut i: usize = 0;
    while i < targets.len()
        invariant
            t == target_texts(targets@),
            i <= targets@.len(),
            out@ == package_text(t, package@, i as nat),
        decreases targets@.len() - i,
    {
        assert(t[i as int] == targets@[i as int]@);
        if same(&targets[i].package, package) {
            out.append(&targets[i].section);
        }
        i += 1;
    }
    out
}

fn find_packages(targets: &Vec<Rendered>) -> (r: Vec<String>)
    ensures
        texts(r@) == packages_of(target_texts(targets@)),
{
    let ghost t = target_texts(targets@);
    let ghost names = Seq::new(t.len(), |i: int| t[i].package);
    let mut set = TextSet::new();
    let mut i: usize = 0;
    assert(names.take(0).to_set() =~= Set::<Seq<char>>::empty());
    while i < targets.len()
        invariant
            t == target_texts(targets@),
            names == Seq::new(t.len(), |i: int| t[i].package),
            i <= targets@.len(),
            set.wf(),
            set@ =~= names.take(i as int).to_set(),
        decreases targets@.len() - i,
    {
        proof {
            assert(names.take(i + 1) =~= names.take(i as int).push(names[i as int]));
            names.take(i as int).lemma_push_to_set_commute(names[i as int]);
        }
        let _ = set.insert(copy(&targets[i].package));
        i += 1;
    }
    assert(names.take(i as int) =~= names);
    set.items()
}

fn same_texts(a: &Vec<String>, b: &Vec<String>) -> (r: bool)
    ensures
        r == (texts(a@) == texts(b@)),
{
    if a.len() != b.len() {
        assert(texts(a@).len() != texts(b@).len());
        return false;
    }
    let mut i: usize = 0;
    while i < a.len()
        invariant
            a@.len() == b@.len(),
            i <= a@.len(),
            forall|k: int| 0 <= k < i ==> #[trigger] texts(a@)[k] == texts(b@)[k],
        decreases a@.len() - i,
    {
        if !same(&a[i], &b[i]) {
            assert(texts(a@)[i as int] != texts(b@)[i as int]);
            return false;
        }
        i += 1;
    }
    assert(texts(a@) =~= texts(b@));
    true
}

fn put_file(files: &mut Vec<PlanFile>, path: String, text: String)
    ensures
        file_texts(final(files)@) == with_file(file_texts(old(files)@), path@, text@),
{
    let ghost was = file_texts(files@);
    let wanted = components_of(&path);
    let mut i: usize = 0;
    assert(was.skip(0) =~= was);
    while i < files.len() && !same_texts(&components_of(&files[i].path), &wanted)
        invariant
            was == file_texts(files@),
            texts(wanted@) == components(path@),
            i <= files@.len(),
            file_at(was, path@) == i + file_at(was.skip(i as int), path@),
        decreases files@.len() - i,
    {
        assert(was.skip(i as int).skip(1) =~= was.skip(i + 1));
        assert(was[i as int] == files@[i as int]@);
        i += 1;
    }
    assert(i < files@.len() ==> was[i as int] == files@[i as int]@);
    assert(file_at(was, path@) == i);
    let ghost told = text@;
    if i < files.len() {
        let old_path = copy(&files[i].path);
        files.set(i, PlanFile { path: old_path, text });
        assert(file_texts(files@) =~= was.update(
            i as int,
            FileText { path: was[i as int].path, text: told },
        ));
    } else {
        let ghost at = path@;
        files.push(PlanFile { path, text });
        assert(file_texts(files@) =~= was.push(FileText { path: at, text: told }));
    }
}

/// Files in the order of their paths.
pub open spec fn files_in_order(files: Seq<FileText>, sorted: Seq<FileText>) -> bool {
    exists|v: Seq<PlanFile>, order: Seq<int>|
        file_texts(v) == files && #[trigger] in_turn(order, v) && sorted == file_texts(
            taken(v, order),
        )
}

fn sort_files(files: &Vec<PlanFile>) -> (r: Vec<PlanFile>)
    ensures
        files_in_order(file_texts(files@), file_texts(r@)),
        r@.len() == files@.len(),
{
    let order = order_of(files);
    let ghost want = file_texts(taken(files@, ints(order@)));
    let mut out: Vec<PlanFile> = Vec::new();
    let mut i: usize = 0;
    while i < order.len()
        invariant
            i <= order@.len(),
            want == file_texts(taken(files@, ints(order@))),
            forall|k: int| 0 <= k < order@.len() ==> #[trigger] order@[k] < files@.len(),
            file_texts(out@) =~= want.take(i as int),
        decreases order@.len() - i,
    {
        let f = &files[order[i]];
        out.push(PlanFile { path: copy(&f.path), text: copy(&f.text) });
        assert(want.take(i + 1) =~= want.take(i as int).push(want[i as int]));
        i += 1;
    }
    assert(want.take(i as int) =~= want);
    assert(file_texts(out@).len() == out@.len());
    assert(in_turn(ints(order@), files@));
    out
}

fn write_files(root: String, version: &str, targets: &Vec<Rendered>, packages: &Vec<String>) -> (r:
    Vec<PlanFile>)
    ensures
        file_texts(r@) == files_upto(
            root@,
            version@,
            target_texts(targets@),
            texts(packages@),
            packages@.len(),
        ),
{
    let ghost t = target_texts(targets@);
    let ghost names = texts(packages@);
    let ghost first = root@;
    let mut files: Vec<PlanFile> = Vec::new();
    files.push(PlanFile { path: copy("frost.toml"), text: root });
    assert(file_texts(files@) =~= seq![FileText { path: "frost.toml"@, text: first }]);
    let mut i: usize = 0;
    while i < packages.len()
        invariant
            t == target_texts(targets@),
            names == texts(packages@),
            i <= packages@.len(),
            file_texts(files@) == files_upto(first, version@, t, names, i as nat),
        decreases packages@.len() - i,
    {
        let package = &packages[i];
        assert(names[i as int] == package@);
        if !package.as_str().is_empty() {
            let mut text = copy("# Generated by `frost import-bazel` from ");
            text.append(version);
            text.append(". Review before use.\n\n");
            text.append(&text_in_package(targets, package));
            assert(t.len() == targets@.len());
            put_file(&mut files, join_path(package, "frost.toml"), text);
        }
        i += 1;
    }
    files
}

/// What the import of rules gives.
pub open spec fn plans(rules: Seq<XmlRule>, version: Seq<char>, r: Result<ImportPlan, BazelError>)
    -> bool {
    let picked = imported_upto(rules, rules.len());
    if picked.len() == 0 {
        r is Err && r->Err_0@ == Fault::NoRules
    } else {
        match labels_upto(rules, picked, picked.len()) {
            Err(fault) => r is Err && r->Err_0@ == fault,
            Ok(labels) => {
                let names = names_upto(rules, picked, labels, picked.len());
                match targets_upto(rules, picked, names, rule_names(rules), picked.len()) {
                    Err(fault) => r is Err && r->Err_0@ == fault,
                    Ok(targets) => {
                        let root = root_head(
                            version,
                            default_targets(rules, picked, targets, names),
                        ) + package_text(targets, Seq::empty(), targets.len());
                        let packages = packages_of(targets);
                        let files = files_upto(root, version, targets, packages, packages.len());
                        &&& r is Ok
                        &&& files_in_order(files, file_texts(r->Ok_0.files@))
                        &&& r->Ok_0.rule_count == names.dom().len()
                        &&& r->Ok_0.package_count == files.len()
                    },
                }
            },
        }
    }
}

/// Plans the manifests for rules that Bazel has found. What cannot be imported
/// stops the whole plan.
pub fn generate_plan(rules: &Vec<XmlRule>, bazel_version: &str) -> (r: Result<
    ImportPlan,
    BazelError,
>)
    ensures
        plans(rules@, bazel_version@, r),
{
    let picked = pick_rules(rules);
    assert(ints(picked@).len() == picked@.len());
    if picked.len() == 0 {
        return Err(BazelError::NoRules);
    }
    let all_rules = all_names(rules);
    let labels = match find_labels(rules, &picked) {
        Ok(labels) => labels,
        Err(e) => {
            return Err(e);
        },
    };
    let names = find_names(rules, &picked, &labels);
    let targets = match render_all(rules, &picked, &names, &all_rules) {
        Ok(targets) => targets,
        Err(e) => {
            return Err(e);
        },
    };
    assert(target_texts(targets@).len() == targets@.len());
    let runnable = find_runnable(rules, &picked, &targets);
    assert(texts(runnable@).len() == runnable@.len());
    let defaults = if runnable.len() == 0 {
        sort_texts(&values_of(&names))
    } else {
        sort_texts(&runnable)
    };
    let mut root = copy("# Generated by `frost import-bazel` from ");
    root.append(bazel_version);
    root.append(
        ".\n# Review toolchain flags and every noted unsupported Bazel feature before deleting BUILD files.\n\n[workspace]\ndefault_targets = ",
    );
    root.append(&json_list(&defaults));
    root.append(
        "\n\n[toolchain]\ncc = \"cc\"\ncxx = \"c++\"\ncflags = [\"-Wall\"]\n\n[profile.debug]\ncflags = [\"-O0\", \"-g\"]\n\n[profile.release]\ncflags = [\"-O3\", \"-DNDEBUG\"]\n\n",
    );
    let none = String::new();
    assert(none@ =~= Seq::<char>::empty());
    root.append(&text_in_package(&targets, &none));
    let packages = find_packages(&targets);
    assert(texts(packages@).len() == packages@.len());
    let files = write_files(root, bazel_version, &targets, &packages);
    assert(file_texts(files@).len() == files@.len());
    let sorted = sort_files(&files);
    proof {
        assert(names.names().to_set() =~= text_map(names).dom());
        crate::sorted_map::ascending_distinct(names.names());
        names.names().unique_seq_to_set();
    }
    let rule_count: usize = names.len();
    let package_count: usize = files.len();
    Ok(ImportPlan { files: sorted, rule_count, package_count })
}

/// What Bazel is told to build.
pub open spec fn build_args(target: Seq<char>, given: Seq<Seq<char>>) -> Seq<Seq<char>> {
    seq!["build"@] + given + seq![target]
}

/// What Bazel is told to build.
pub fn bazel_build_args(target: &str, bazel_args: &Vec<String>) -> (r: Vec<String>)
    ensures
        texts(r@) == build_args(target@, texts(bazel_args@)),
{
    broadcast use group_texts;

    let mut out: Vec<String> = Vec::new();
    out.push(copy("build"));
    extend(&mut out, bazel_args);
    out.push(copy(target));
    assert(texts(out@) =~= build_args(target@, texts(bazel_args@)));
    out
}

/// What Bazel is told to run.
pub open spec fn run_args(target: Seq<char>, given: Seq<Seq<char>>, program: Seq<Seq<char>>) -> Seq<
    Seq<char>,
> {
    seq!["run"@] + given + seq![target, "--"@] + program
}

/// What Bazel is told to run.
pub fn bazel_run_args(target: &str, bazel_args: &Vec<String>, program_args: &Vec<String>) -> (r: Vec<
    String,
>)
    ensures
        texts(r@) == run_args(target@, texts(bazel_args@), texts(program_args@)),
{
    broadcast use group_texts;

    let mut out: Vec<String> = Vec::new();
    out.push(copy("run"));
    extend(&mut out, bazel_args);
    out.push(copy(target));
    out.push(copy("--"));
    extend(&mut out, program_args);
    assert(texts(out@) =~= run_args(target@, texts(bazel_args@), texts(program_args@)));
    out
}

// ---------------------------------------------------------------------------
// What is imported of a rule
// ---------------------------------------------------------------------------

/// A label in full has the package before its colon and the name behind it; one
/// without a colon has the last part of its package as its name. A label of another
/// workspace, and one that is not written in full, is refused.
pub proof fn labels_are_read(
    value: &str,
    r: Result<BazelLabel, BazelError>,
    package: Seq<char>,
    name: Seq<char>,
)
    requires
        call_ensures(parse_label, (value,), r),
    ensures
        value@ == "//"@ + package + ":"@ + name && !package.contains(':') && name.len() > 0 ==> r is Ok
            && r->Ok_0.package@ == package && r->Ok_0.name@ == name,
        value@ == "//"@ + package + "/"@ + name && !package.contains(':') && !name.contains(':')
            && !name.contains('/') && name.len() > 0 ==> r is Ok && r->Ok_0.package@ == package
            + "/"@ + name && r->Ok_0.name@ == name,
        begins(value@, "@"@) ==> r is Err,
        !begins(value@, "//"@) ==> r is Err,
{
    reveal_strlit("//");
    reveal_strlit("/");
    reveal_strlit(":");
    reveal_strlit("@");
    let s = value@;
    if s == "//"@ + package + ":"@ + name && !package.contains(':') && name.len() > 0 {
        assert(s.subrange(0, 2) =~= "//"@);
        if begins(s, "@"@) {
            assert(s.subrange(0, 1)[0] == s[0]);
        }
        let body = s.skip(2);
        assert(body =~= package + ":"@ + name);
        assert forall|i: int| 0 <= i < package.len() implies body[i] != ':' by {
            assert(package.contains(package[i]));
        }
        crate::text::first_at_is(body, ':', package.len() as int);
        assert(body.take(package.len() as int) =~= package);
        assert(body.skip(package.len() as int + 1) =~= name);
    }
    if s == "//"@ + package + "/"@ + name && !package.contains(':') && !name.contains(':')
        && !name.contains('/') && name.len() > 0 {
        assert(s.subrange(0, 2) =~= "//"@);
        if begins(s, "@"@) {
            assert(s.subrange(0, 1)[0] == s[0]);
        }
        let body = s.skip(2);
        assert(body =~= package + "/"@ + name);
        assert forall|i: int| 0 <= i < body.len() implies body[i] != ':' by {
            if i < package.len() {
                assert(package.contains(package[i]));
            } else if i > package.len() {
                assert(name.contains(name[i - package.len() - 1]));
            }
        }
        crate::text::first_at_is(body, ':', body.len() as int);
        assert forall|i: int| package.len() < i < body.len() implies body[i] != '/' by {
            assert(name.contains(name[i - package.len() - 1]));
        }
        crate::text::last_at_is(body, '/', package.len() as int);
        assert(body.skip(package.len() as int + 1) =~= name);
    }
}

/// The first list of a rule that has the name is the one that counts, its labels
/// before its texts; without one there are no values.
pub proof fn first_list_counts(rule: XmlRule, name: &str, r: Vec<String>, i: int)
    requires
        call_ensures(XmlRule::list, (&rule, name), r),
    ensures
        0 <= i < rule.lists@.len() && rule.lists@[i].name@ == name@ && (forall|j: int|
            0 <= j < i ==> (#[trigger] rule.lists@[j]).name@ != name@) ==> texts(r@) == texts(
            rule.lists@[i].labels@,
        ) + texts(rule.lists@[i].strings@),
        (forall|j: int|
            0 <= j < rule.lists@.len() ==> (#[trigger] rule.lists@[j]).name@ != name@)
            ==> r@.len() == 0,
{
    if 0 <= i < rule.lists@.len() && rule.lists@[i].name@ == name@ && (forall|j: int|
        0 <= j < i ==> (#[trigger] rule.lists@[j]).name@ != name@) {
        list_found(rule.lists@, name@, 0, i);
    }
    if forall|j: int| 0 <= j < rule.lists@.len() ==> (#[trigger] rule.lists@[j]).name@ != name@ {
        list_missing(rule.lists@, name@, 0);
        assert(texts(r@).len() == r@.len());
    }
}

proof fn list_found(lists: Seq<RuleList>, name: Seq<char>, from: int, i: int)
    requires
        0 <= from <= i < lists.len(),
        lists[i].name@ == name,
        forall|j: int| from <= j < i ==> (#[trigger] lists[j]).name@ != name,
    ensures
        list_from(lists, name, from) == texts(lists[i].labels@) + texts(lists[i].strings@),
    decreases i - from,
{
    if from < i {
        assert(lists[from].name@ != name);
        list_found(lists, name, from + 1, i);
    }
}

proof fn list_missing(lists: Seq<RuleList>, name: Seq<char>, from: int)
    requires
        0 <= from <= lists.len(),
        forall|j: int| from <= j < lists.len() ==> (#[trigger] lists[j]).name@ != name,
    ensures
        list_from(lists, name, from).len() == 0,
    decreases lists.len() - from,
{
    if from < lists.len() {
        list_missing(lists, name, from + 1);
    }
}

proof fn sources_each(
    values: Seq<Seq<char>>,
    package: Seq<char>,
    all_rules: Set<Seq<char>>,
    n: nat,
)
    requires
        sources_upto(values, package, all_rules, n) is Ok,
    ensures
        sources_upto(values, package, all_rules, n)->Ok_0.len() == n,
        forall|k: int|
            #![trigger values[k]]
            0 <= k < n ==> source_of(values[k], package, all_rules) == Ok::<Seq<char>, Fault>(
                sources_upto(values, package, all_rules, n)->Ok_0[k],
            ),
    decreases n,
{
    if n > 0 {
        sources_each(values, package, all_rules, (n - 1) as nat);
    }
}

proof fn deps_each(values: Seq<Seq<char>>, names: Map<Seq<char>, Seq<char>>, n: nat)
    requires
        deps_upto(values, names, n) is Ok,
    ensures
        deps_upto(values, names, n)->Ok_0.len() == n,
        forall|k: int|
            #![trigger values[k]]
            0 <= k < n ==> label_of(values[k]) is Ok && dep_label(label_of(values[k])->Ok_0, names)
                == Ok::<Seq<char>, Fault>(deps_upto(values, names, n)->Ok_0[k]),
    decreases n,
{
    if n > 0 {
        deps_each(values, names, (n - 1) as nat);
    }
}

/// The target of a rule has all that the rule has: its kind; every source, in
/// order; every dependency, public or not, as the label of its target; its include
/// directories; its options and local definitions as flags; and its linker
/// options.
pub proof fn rule_is_imported_whole(
    rule: XmlRule,
    names: Map<Seq<char>, Seq<char>>,
    all_rules: Set<Seq<char>>,
    target: TargetText,
    d: Seq<char>,
) -> (r: (Seq<Seq<char>>, Seq<Seq<char>>))
    requires
        rendered(rule, names, all_rules) == Ok::<TargetText, Fault>(target),
    ensures
        ({
            let (sources, deps) = r;
            let srcs = list_of(rule, "srcs"@);
            let kind = kind_of(rule.class@);
            let flags = list_of(rule, "copts"@) + Seq::new(
                list_of(rule, "local_defines"@).len(),
                |i: int| "-D"@ + list_of(rule, "local_defines"@)[i],
            );
            let listed = |name: Seq<char>, values: Seq<Seq<char>>|
                if values.len() == 0 {
                    ""@
                } else {
                    name + " = "@ + json_array(values) + "\n"@
                };
            &&& kind == "cc_library"@ || kind == "cc_binary"@ || kind == "cc_test"@
            &&& target.name == names[rule.name@]
            &&& label_of(rule.name@) is Ok && label_of(rule.name@)->Ok_0.package == target.package
            &&& target.section == "[target."@ + target.name + "]\nkind = "@ + debug_text(kind)
                + "\nsrcs = "@ + json_array(sources) + "\n"@ + listed("deps"@, deps) + listed(
                "includes"@,
                list_of(rule, "includes"@),
            ) + listed("cflags"@, flags) + listed("ldflags"@, list_of(rule, "linkopts"@)) + "\n"@
            &&& srcs.len() > 0
            &&& sources.len() == srcs.len()
            &&& forall|k: int|
                #![trigger sources[k]]
                0 <= k < sources.len() ==> label_of(srcs[k]) == Ok::<LabelText, Fault>(
                    LabelText { package: target.package, name: sources[k] },
                ) && !all_rules.contains(srcs[k])
            &&& list_of(rule, "deps"@).contains(d) || list_of(rule, "implementation_deps"@).contains(
                d,
            ) ==> label_of(d) is Ok && ({
                let l = label_of(d)->Ok_0;
                let full = "//"@ + l.package + ":"@ + l.name;
                &&& names.dom().contains(full)
                &&& deps.contains(
                    if l.package.len() == 0 {
                        names[full]
                    } else {
                        "//"@ + l.package + ":"@ + names[full]
                    },
                )
            })
            &&& kind == "cc_library"@ ==> list_of(rule, "linkopts"@).len() == 0
        }),
{
    let label = label_of(rule.name@)->Ok_0;
    let srcs = list_of(rule, "srcs"@);
    let sources = sources_upto(srcs, label.package, all_rules, srcs.len())->Ok_0;
    let values = dep_values(rule);
    let deps = deps_upto(values, names, values.len())->Ok_0;
    sources_each(srcs, label.package, all_rules, srcs.len());
    deps_each(values, names, values.len());
    assert forall|k: int| #![trigger sources[k]] 0 <= k < sources.len() implies label_of(srcs[k])
        == Ok::<LabelText, Fault>(LabelText { package: target.package, name: sources[k] })
        && !all_rules.contains(srcs[k]) by {
        assert(source_of(srcs[k], label.package, all_rules) == Ok::<Seq<char>, Fault>(sources[k]));
    }
    let public = list_of(rule, "deps"@);
    let private = list_of(rule, "implementation_deps"@);
    let both = public + private;
    if public.contains(d) || private.contains(d) {
        if public.contains(d) {
            assert(both[public.index_of(d)] == d);
        } else {
            assert(both[public.len() + private.index_of(d)] == d);
        }
        vstd::seq_lib::seq_to_set_is_finite(both);
        crate::sorted_map::in_order_means(both.to_set());
        assert(both.to_set().contains(d));
        assert(values.to_set().contains(d));
        let k = values.index_of(d);
        assert(values[k] == d);
        assert(deps[k] == target_label(
            label_of(d)->Ok_0.package,
            names[canonical(label_of(d)->Ok_0)],
        ));
    }
    let flags = list_of(rule, "copts"@) + Seq::new(
        list_of(rule, "local_defines"@).len(),
        |i: int| "-D"@ + list_of(rule, "local_defines"@)[i],
    );
    assert(flags =~= list_of(rule, "copts"@) + define_flags(list_of(rule, "local_defines"@)));
    (sources, deps)
}

/// A rule that asks for what cannot be imported is refused: shared or always
/// linked, data, definitions for others, other include prefixes, or variables of
/// Bazel's in its options.
pub proof fn unsupported_rules_are_refused(rule: XmlRule, r: Result<(), BazelError>, i: int)
    requires
        call_ensures(ensure_supported_attributes, (&rule,), r),
    ensures
        is_set(rule, "alwayslink"@) || is_set(rule, "linkshared"@) ==> r is Err,
        list_of(rule, "data"@).len() > 0 ==> r is Err,
        list_of(rule, "defines"@).len() > 0 ==> r is Err,
        list_of(rule, "additional_linker_inputs"@).len() > 0 ==> r is Err,
        list_of(rule, "nocopts"@).len() > 0 ==> r is Err,
        list_of(rule, "include_prefix"@).len() > 0 ==> r is Err,
        list_of(rule, "strip_include_prefix"@).len() > 0 ==> r is Err,
        list_of(rule, "win_def_file"@).len() > 0 ==> r is Err,
        0 <= i < list_of(rule, "copts"@).len() && occurs(list_of(rule, "copts"@)[i], "$("@)
            ==> r is Err,
        0 <= i < list_of(rule, "linkopts"@).len() && occurs(list_of(rule, "linkopts"@)[i], "$("@)
            ==> r is Err,
{
    let all = unsupported_attributes();
    assert(all[0] == "additional_linker_inputs"@ && all[1] == "data"@ && all[2] == "defines"@
        && all[3] == "include_prefix"@ && all[4] == "nocopts"@ && all[5]
        == "strip_include_prefix"@ && all[6] == "win_def_file"@ && all.len() == 7);
    assert forall|k: int| 0 <= k < 7 && list_of(rule, #[trigger] all[k]).len() > 0 implies first_used(
        rule,
        all,
        0,
    ) is Some by {
        used_is_found(rule, all, 0, k);
    }
    if 0 <= i < list_of(rule, "copts"@).len() && occurs(list_of(rule, "copts"@)[i], "$("@) {
        assert(has_variable(list_of(rule, "copts"@)));
    }
    if 0 <= i < list_of(rule, "linkopts"@).len() && occurs(list_of(rule, "linkopts"@)[i], "$("@) {
        assert(has_variable(list_of(rule, "linkopts"@)));
    }
}

proof fn used_is_found(rule: XmlRule, names: Seq<Seq<char>>, from: int, k: int)
    requires
        0 <= from <= k < names.len(),
        list_of(rule, names[k]).len() > 0,
    ensures
        first_used(rule, names, from) is Some,
    decreases k - from,
{
    if from < k {
        used_is_found(rule, names, from + 1, k);
    }
}

proof fn targets_each(
    rules: Seq<XmlRule>,
    picked: Seq<int>,
    names: Map<Seq<char>, Seq<char>>,
    all_rules: Set<Seq<char>>,
    n: nat,
)
    requires
        targets_upto(rules, picked, names, all_rules, n) is Ok,
    ensures
        targets_upto(rules, picked, names, all_rules, n)->Ok_0.len() == n,
        forall|k: int|
            #![trigger picked[k]]
            0 <= k < n ==> rendered(rules[picked[k]], names, all_rules) == Ok::<TargetText, Fault>(
                targets_upto(rules, picked, names, all_rules, n)->Ok_0[k],
            ),
    decreases n,
{
    if n > 0 {
        targets_each(rules, picked, names, all_rules, (n - 1) as nat);
    }
}

proof fn picked_holds(rules: Seq<XmlRule>, n: nat, i: int)
    requires
        0 <= i < n <= rules.len(),
        native_kind(kind_of(rules[i].class@)),
    ensures
        imported_upto(rules, n).contains(i),
    decreases n,
{
    let less = (n - 1) as nat;
    let before = imported_upto(rules, less);
    let now = imported_upto(rules, n);
    if i < less {
        picked_holds(rules, less, i);
        assert(now[before.index_of(i)] == i);
    } else {
        assert(now[now.len() - 1] == i);
    }
}

proof fn section_in_package(targets: Seq<TargetText>, package: Seq<char>, n: nat, k: int) -> (r: (
    Seq<char>,
    Seq<char>,
))
    requires
        0 <= k < n <= targets.len(),
        targets[k].package == package,
    ensures
        package_text(targets, package, n) == r.0 + targets[k].section + r.1,
    decreases n,
{
    let less = (n - 1) as nat;
    if k == less {
        let before = package_text(targets, package, less);
        assert(before + targets[k].section =~= before + targets[k].section + Seq::empty());
        (before, Seq::empty())
    } else {
        let (before, after) = section_in_package(targets, package, less, k);
        let last = targets[n - 1];
        if last.package == package {
            assert(before + targets[k].section + after + last.section =~= before
                + targets[k].section + (after + last.section));
            (before, after + last.section)
        } else {
            (before, after)
        }
    }
}

/// The manifest that the targets of a package stand in.
pub open spec fn manifest_path(package: Seq<char>) -> Seq<char> {
    if package.len() == 0 {
        "frost.toml"@
    } else {
        joined_path(package, "frost.toml"@)
    }
}

proof fn file_at_means(files: Seq<FileText>, path: Seq<char>)
    ensures
        0 <= file_at(files, path) <= files.len(),
        file_at(files, path) < files.len() ==> components(files[file_at(files, path)].path)
            == components(path),
    decreases files.len(),
{
    if files.len() > 0 && components(files[0].path) != components(path) {
        file_at_means(files.skip(1), path);
    }
}

proof fn file_stays(
    root: Seq<char>,
    version: Seq<char>,
    targets: Seq<TargetText>,
    packages: Seq<Seq<char>>,
    n: nat,
    package: Seq<char>,
) -> (x: int)
    requires
        n <= packages.len(),
        package.len() == 0 || packages.take(n as int).contains(package),
        forall|k: int|
            0 <= k < packages.len() && #[trigger] packages[k] != package ==> components(
                manifest_path(packages[k]),
            ) != components(manifest_path(package)),
    ensures
        ({
            let files = files_upto(root, version, targets, packages, n);
            &&& 0 <= x < files.len()
            &&& components(files[x].path) == components(manifest_path(package))
            &&& files[x].text == if package.len() == 0 {
                root
            } else {
                package_manifest(version, package_text(targets, package, targets.len()))
            }
        }),
    decreases n,
{
    if n == 0 {
        0
    } else {
        let less = (n - 1) as nat;
        let before = files_upto(root, version, targets, packages, less);
        let now = packages[n - 1];
        if now.len() == 0 {
            if package.len() > 0 {
                let k = packages.take(n as int).index_of(package);
                assert(packages.take(n as int)[k] == package);
                assert(packages.take(less as int)[k] == package);
            }
            file_stays(root, version, targets, packages, less, package)
        } else {
            let path = joined_path(now, "frost.toml"@);
            file_at_means(before, path);
            if now == package {
                file_at(before, path)
            } else {
                if package.len() > 0 {
                    let k = packages.take(n as int).index_of(package);
                    assert(packages.take(n as int)[k] == package);
                    assert(packages.take(less as int)[k] == package);
                }
                file_stays(root, version, targets, packages, less, package)
            }
        }
    }
}

proof fn imported_are_native(rules: Seq<XmlRule>, n: nat, k: int)
    requires
        n <= rules.len(),
        0 <= k < imported_upto(rules, n).len(),
    ensures
        0 <= imported_upto(rules, n)[k] < n,
        native_kind(kind_of(rules[imported_upto(rules, n)[k]].class@)),
    decreases n,
{
    let less = (n - 1) as nat;
    if n > 0 && k < imported_upto(rules, less).len() {
        imported_are_native(rules, less, k);
    }
}

proof fn planned_file(files: Seq<FileText>, sorted: Seq<PlanFile>, x: int) -> (y: int)
    requires
        files_in_order(files, file_texts(sorted)),
        0 <= x < files.len(),
    ensures
        0 <= y < sorted.len(),
        sorted[y]@ == files[x],
{
    let (v, order) = choose|v: Seq<PlanFile>, order: Seq<int>|
        file_texts(v) == files && #[trigger] in_turn(order, v) && file_texts(sorted) == file_texts(
            taken(v, order),
        );
    assert(file_texts(v).len() == v.len());
    let y = crate::order::listed(order, v.len(), x);
    assert(file_texts(taken(v, order))[y] == v[x]@);
    assert(file_texts(v)[x] == v[x]@);
    assert(file_texts(sorted).len() == sorted.len());
    assert(file_texts(sorted)[y] == sorted[y]@);
    y
}

proof fn packages_apart(
    rules: Seq<XmlRule>,
    names: Map<Seq<char>, Seq<char>>,
    targets: Seq<TargetText>,
    k: int,
)
    requires
        targets.len() == imported_upto(rules, rules.len()).len(),
        0 <= k < targets.len(),
        forall|q: int|
            #![trigger imported_upto(rules, rules.len())[q]]
            0 <= q < targets.len() ==> rendered(
                rules[imported_upto(rules, rules.len())[q]],
                names,
                rule_names(rules),
            ) == Ok::<TargetText, Fault>(targets[q]),
        forall|j: int|
            0 <= j < rules.len() && label_of((#[trigger] rules[j]).name@) is Ok && label_of(
                rules[j].name@,
            )->Ok_0.package != targets[k].package ==> components(
                manifest_path(label_of(rules[j].name@)->Ok_0.package),
            ) != components(manifest_path(targets[k].package)),
    ensures
        packages_of(targets).contains(targets[k].package),
        forall|p: int|
            0 <= p < packages_of(targets).len() && #[trigger] packages_of(targets)[p]
                != targets[k].package ==> components(manifest_path(packages_of(targets)[p]))
                != components(manifest_path(targets[k].package)),
{
    let package = targets[k].package;
    let of_each = Seq::new(targets.len(), |i: int| targets[i].package);
    vstd::seq_lib::seq_to_set_is_finite(of_each);
    crate::sorted_map::in_order_means(of_each.to_set());
    let packages = packages_of(targets);
    assert(of_each[k] == package);
    assert(of_each.to_set().contains(package));
    assert(packages.to_set().contains(package));
    assert forall|p: int| 0 <= p < packages.len() && #[trigger] packages[p] != package implies components(
        manifest_path(packages[p]),
    ) != components(manifest_path(package)) by {
        assert(packages.to_set().contains(packages[p]));
        assert(of_each.contains(packages[p]));
        let q = of_each.index_of(packages[p]);
        assert(of_each[q] == targets[q].package);
        imported_are_native(rules, rules.len(), q);
        let j = imported_upto(rules, rules.len())[q];
        assert(label_of(rules[j].name@) is Ok);
    }
}

proof fn plan_targets(rules: Seq<XmlRule>, version: Seq<char>, plan: ImportPlan) -> (r: (
    Map<Seq<char>, Seq<char>>,
    Seq<TargetText>,
    Seq<char>,
))
    requires
        plans(rules, version, Ok::<ImportPlan, BazelError>(plan)),
    ensures
        ({
            let (names, targets, head) = r;
            &&& targets.len() == imported_upto(rules, rules.len()).len()
            &&& forall|q: int|
                #![trigger imported_upto(rules, rules.len())[q]]
                0 <= q < targets.len() ==> rendered(
                    rules[imported_upto(rules, rules.len())[q]],
                    names,
                    rule_names(rules),
                ) == Ok::<TargetText, Fault>(targets[q])
            &&& files_in_order(
                files_upto(
                    head + package_text(targets, Seq::empty(), targets.len()),
                    version,
                    targets,
                    packages_of(targets),
                    packages_of(targets).len(),
                ),
                file_texts(plan.files@),
            )
        }),
{
    let picked = imported_upto(rules, rules.len());
    let labels = labels_upto(rules, picked, picked.len())->Ok_0;
    let names = names_upto(rules, picked, labels, picked.len());
    let targets = targets_upto(rules, picked, names, rule_names(rules), picked.len())->Ok_0;
    targets_each(rules, picked, names, rule_names(rules), picked.len());
    (names, targets, root_head(version, default_targets(rules, picked, targets, names)))
}

proof fn section_is_written(
    version: Seq<char>,
    targets: Seq<TargetText>,
    head: Seq<char>,
    sorted: Seq<PlanFile>,
    k: int,
) -> (r: (int, Seq<char>, Seq<char>))
    requires
        0 <= k < targets.len(),
        packages_of(targets).contains(targets[k].package),
        forall|p: int|
            0 <= p < packages_of(targets).len() && #[trigger] packages_of(targets)[p]
                != targets[k].package ==> components(manifest_path(packages_of(targets)[p]))
                != components(manifest_path(targets[k].package)),
        files_in_order(
            files_upto(
                head + package_text(targets, Seq::empty(), targets.len()),
                version,
                targets,
                packages_of(targets),
                packages_of(targets).len(),
            ),
            file_texts(sorted),
        ),
    ensures
        0 <= r.0 < sorted.len(),
        components(sorted[r.0].path@) == components(manifest_path(targets[k].package)),
        sorted[r.0].text@ == r.1 + targets[k].section + r.2,
{
    let package = targets[k].package;
    let packages = packages_of(targets);
    assert(packages.take(packages.len() as int) =~= packages);
    let root = head + package_text(targets, Seq::empty(), targets.len());
    let files = files_upto(root, version, targets, packages, packages.len());
    let x = file_stays(root, version, targets, packages, packages.len(), package);
    let y = planned_file(files, sorted, x);
    let (before, after) = section_in_package(targets, package, targets.len(), k);
    let section = targets[k].section;
    let lead = if package.len() == 0 {
        head
    } else {
        "# Generated by `frost import-bazel` from "@ + version + ". Review before use.\n\n"@
    };
    if package.len() == 0 {
        assert(package =~= Seq::<char>::empty());
    }
    assert(lead + (before + section + after) =~= (lead + before) + section + after);
    (y, lead + before, after)
}

/// A plan has a target for every library, program and test that Bazel found: one
/// that cannot be imported stops the plan. Its section stands in the manifest of
/// its package, where no two packages share one.
pub proof fn every_rule_is_planned(
    rules: Vec<XmlRule>,
    version: &str,
    plan: ImportPlan,
    i: int,
) -> (r: (Map<Seq<char>, Seq<char>>, TargetText, int, Seq<char>, Seq<char>))
    requires
        call_ensures(generate_plan, (&rules, version), Ok::<ImportPlan, BazelError>(plan)),
        0 <= i < rules@.len(),
        kind_of(rules@[i].class@) == "cc_library"@ || kind_of(rules@[i].class@) == "cc_binary"@
            || kind_of(rules@[i].class@) == "cc_test"@,
        label_of(rules@[i].name@) is Ok ==> forall|j: int|
            0 <= j < rules@.len() && label_of((#[trigger] rules@[j]).name@) is Ok && label_of(
                rules@[j].name@,
            )->Ok_0.package != label_of(rules@[i].name@)->Ok_0.package ==> components(
                manifest_path(label_of(rules@[j].name@)->Ok_0.package),
            ) != components(manifest_path(label_of(rules@[i].name@)->Ok_0.package)),
    ensures
        ({
            let (names, target, x, before, after) = r;
            &&& rendered(rules@[i], names, rule_names(rules@)) == Ok::<TargetText, Fault>(target)
            &&& 0 <= x < plan.files@.len()
            &&& components(plan.files@[x].path@) == components(manifest_path(target.package))
            &&& plan.files@[x].text@ == before + target.section + after
        }),
{
    let picked = imported_upto(rules@, rules@.len());
    picked_holds(rules@, rules@.len(), i);
    let k = picked.index_of(i);
    assert(picked[k] == i);
    let (names, targets, head) = plan_targets(rules@, version@, plan);
    let target = targets[k];
    assert(rendered(rules@[picked[k]], names, rule_names(rules@)) == Ok::<TargetText, Fault>(
        target,
    ));
    packages_apart(rules@, names, targets, k);
    let (x, before, after) = section_is_written(version@, targets, head, plan.files@, k);
    (names, target, x, before, after)
}

/// What is asked of Bazel names the target, and hands on every argument: those for
/// Bazel before the target, those for the program behind the dashes.
pub proof fn bazel_is_told_all(
    target: &str,
    given: Vec<String>,
    program: Vec<String>,
    build: Vec<String>,
    run: Vec<String>,
)
    requires
        call_ensures(bazel_build_args, (target, &given), build),
        call_ensures(bazel_run_args, (target, &given, &program), run),
    ensures
        build@.len() == given@.len() + 2,
        build@[0]@ == "build"@ && build@.last()@ == target@,
        run@.len() == given@.len() + program@.len() + 3,
        run@[0]@ == "run"@ && run@[given@.len() as int + 1]@ == target@ && run@[given@.len() as int + 2]@
            == "--"@,
        forall|i: int|
            #![trigger given@[i]]
            0 <= i < given@.len() ==> build@[1 + i]@ == given@[i]@ && run@[1 + i]@ == given@[i]@,
        forall|i: int|
            #![trigger program@[i]]
            0 <= i < program@.len() ==> run@[given@.len() + 3 + i]@ == program@[i]@,
{
    let b = texts(build@);
    let r = texts(run@);
    assert(b.len() == build@.len() && r.len() == run@.len());
    assert(texts(given@).len() == given@.len() && texts(program@).len() == program@.len());
    assert(b[0] == build@[0]@ && b.last() == build@.last()@);
    assert(r[0] == run@[0]@ && r[given@.len() as int + 1] == run@[given@.len() as int + 1]@ && r[given@.len() as int + 2]
        == run@[given@.len() as int + 2]@);
    assert forall|i: int| #![trigger given@[i]] 0 <= i < given@.len() implies build@[1 + i]@
        == given@[i]@ && run@[1 + i]@ == given@[i]@ by {
        assert(b[1 + i] == texts(given@)[i]);
        assert(r[1 + i] == texts(given@)[i]);
    }
    assert forall|i: int| #![trigger program@[i]] 0 <= i < program@.len() implies run@[given@.len()
        + 3 + i]@ == program@[i]@ by {
        assert(r[given@.len() + 3 + i] == texts(program@)[i]);
    }
}

/// A source is taken where it is a file of the rule's own package in C or C++, and
/// no other: not what another rule makes, not a file of another package, not a file
/// of another language.
pub proof fn native_sources_are_taken(
    value: &str,
    package: &str,
    all_rules: TextSet,
    r: Result<String, BazelError>,
    name: Seq<char>,
)
    requires
        call_ensures(source_path, (value, package, &all_rules), r),
    ensures
        r is Ok ==> !all_rules@.contains(value@) && label_of(value@) == Ok::<LabelText, Fault>(
            LabelText { package: package@, name: r->Ok_0@ },
        ),
        r is Ok ==> extension(r->Ok_0@) is Some && ({
            let e = extension(r->Ok_0@)->0;
            e == "c"@ || e == "cc"@ || e == "cpp"@ || e == "cxx"@ || e == "C"@ || e == "c++"@
        }),
        !all_rules@.contains(value@) && label_of(value@) == Ok::<LabelText, Fault>(
            LabelText { package: package@, name },
        ) && extension(name) is Some && (extension(name)->0 == "c"@ || extension(name)->0 == "cc"@
            || extension(name)->0 == "cpp"@ || extension(name)->0 == "cxx"@ || extension(name)->0
            == "C"@ || extension(name)->0 == "c++"@) ==> r is Ok && r->Ok_0@ == name,
{
    reveal_strlit("c");
    reveal_strlit("cc");
    reveal_strlit("cpp");
    reveal_strlit("cxx");
    reveal_strlit("C");
    reveal_strlit("c++");
    if r is Ok {
        let e = extension_or_none(r->Ok_0@);
        assert(native_extension(e));
        assert(e.len() > 0);
    }
}

/// The target of a rule has the rule's name with every character that a name of a
/// target cannot have replaced, and no other.
pub proof fn names_are_carried_over(name: &str, r: String, i: int)
    requires
        call_ensures(frost_name, (name,), r),
        0 <= i < name@.len(),
    ensures
        r@.len() == name@.len(),
        is_alphanumeric(name@[i]) || name@[i] == '_' || name@[i] == '-' ==> r@[i] == name@[i],
        !is_alphanumeric(name@[i]) && name@[i] != '-' ==> r@[i] == '_',
{
}

/// The kind of a rule is its class without the word behind it, and an attribute is
/// set where its value says so.
pub proof fn kinds_and_switches_are_read(
    rule: XmlRule,
    kind: String,
    name: &str,
    set: bool,
    k: Seq<char>,
)
    requires
        call_ensures(XmlRule::kind, (&rule,), kind),
        call_ensures(XmlRule::truthy, (&rule, name), set),
    ensures
        rule.class@ == k + " rule"@ ==> kind@ == k,
        !ends(rule.class@, " rule"@) ==> kind@ == rule.class@,
        rule.strings@.len() > 0 && rule.strings@[0].name@ == name@ ==> (set
            <==> rule.strings@[0].value@ == "1"@ || rule.strings@[0].value@ == "true"@
            || rule.strings@[0].value@ == "True"@),
        rule.strings@.len() == 0 && rule.ints@.len() == 0 && rule.booleans@.len() > 0
            && rule.booleans@[0].name@ == name@ ==> (set <==> rule.booleans@[0].value@ == "1"@
            || rule.booleans@[0].value@ == "true"@ || rule.booleans@[0].value@ == "True"@),
        rule.strings@.len() == 0 && rule.ints@.len() == 0 && rule.booleans@.len() == 0 ==> !set,
{
    reveal_strlit(" rule");
    if rule.class@ == k + " rule"@ {
        let s = rule.class@;
        assert(s.subrange(s.len() - 5, s.len() as int) =~= " rule"@);
        assert(s.take(s.len() - 5) =~= k);
    }
}

} // verus!

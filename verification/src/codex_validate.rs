//! The codex manifest validator's findings, and its check of the parity exclusions that
//! `RULES.json` declares.
use vstd::prelude::*;

use crate::json_tree::{json_of, JsonTree, JsonValue};
use crate::manifest_rules::ParityExclusionUnit;
use crate::strset::{lex_lt, text_lt};
use crate::text::{blank, cat2, cat3, decimal, is_blank, join, join_text, str_eq, to_owned, u64_text, views};

verus! {

/// How `codex-validate` treats what it finds: report only, or repair what it can first.
#[derive(Debug, Clone, Copy, PartialEq, Eq)]
pub enum Mode {
    Check,
    Fix,
}

/// One finding of the validator.
#[derive(Debug)]
pub struct Violation {
    pub code: &'static str,
    pub path: String,
    pub json_pointer: Option<String>,
    pub message: String,
    pub unit: Option<&'static str>,
    pub command_path: Option<String>,
    pub key_or_name: Option<String>,
    pub field: Option<&'static str>,
    pub target_triple: Option<String>,
    pub details: Option<JsonValue>,
}

/// A finding as plain values.
pub struct ViolationView {
    pub code: Seq<char>,
    pub path: Seq<char>,
    pub json_pointer: Option<Seq<char>>,
    pub message: Seq<char>,
    pub unit: Option<Seq<char>>,
    pub command_path: Option<Seq<char>>,
    pub key_or_name: Option<Seq<char>>,
    pub field: Option<Seq<char>>,
    pub target_triple: Option<Seq<char>>,
    pub details: Option<JsonTree>,
}

pub open spec fn opt_text(o: Option<String>) -> Option<Seq<char>> {
    match o {
        Some(s) => Some(s@),
        None => None,
    }
}

pub open spec fn opt_static(o: Option<&'static str>) -> Option<Seq<char>> {
    match o {
        Some(s) => Some(s@),
        None => None,
    }
}

pub open spec fn opt_json(o: Option<JsonValue>) -> Option<JsonTree> {
    match o {
        Some(v) => Some(json_of(v)),
        None => None,
    }
}

impl Violation {
    pub open spec fn view(self) -> ViolationView {
        ViolationView {
            code: self.code@,
            path: self.path@,
            json_pointer: opt_text(self.json_pointer),
            message: self.message@,
            unit: opt_static(self.unit),
            command_path: opt_text(self.command_path),
            key_or_name: opt_text(self.key_or_name),
            field: opt_static(self.field),
            target_triple: opt_text(self.target_triple),
            details: opt_json(self.details),
        }
    }
}

/// The single line a finding prints as in CI logs: code, `error`, path, the JSON pointer when it
/// is not empty, and the message, joined by spaces.
pub open spec fn human_line(v: ViolationView) -> Seq<char> {
    let head = seq![v.code, "error"@, v.path];
    let with_pointer = match v.json_pointer {
        Some(p) => if p.len() > 0 { head.push(p) } else { head },
        None => head,
    };
    join(with_pointer.push(v.message), " "@)
}

/// A finding as JSON, its members in key order: `code`, `details` when present,
/// `json_pointer` when present, `message`, `path`, `severity`.
pub open spec fn violation_json(v: ViolationView) -> JsonTree {
    let head = seq![("code"@, JsonTree::Str(v.code))];
    let with_details = match v.details {
        Some(d) => head.push(("details"@, d)),
        None => head,
    };
    let with_pointer = match v.json_pointer {
        Some(p) => with_details.push(("json_pointer"@, JsonTree::Str(p))),
        None => with_details,
    };
    JsonTree::Object(with_pointer.push(("message"@, JsonTree::Str(v.message))).push(("path"@, JsonTree::Str(v.path)))
        .push(("severity"@, JsonTree::Str("error"@))))
}

fn copy_json(v: &JsonValue) -> (r: JsonValue)
    ensures
        json_of(r) == json_of(*v),
    decreases v,
{
    match v {
        JsonValue::Null => JsonValue::Null,
        JsonValue::Bool(b) => JsonValue::Bool(*b),
        JsonValue::Number => JsonValue::Number,
        JsonValue::Str(s) => JsonValue::Str(to_owned(s.as_str())),
        JsonValue::Array(items) => {
            let mut out: Vec<JsonValue> = Vec::new();
            let mut i: usize = 0;
            while i < items.len()
                invariant
                    i <= items.len(),
                    *v == JsonValue::Array(*items),
                    crate::json_tree::jsons_of(out@) == crate::json_tree::jsons_of(items@.subrange(0, i as int)),
                decreases items.len() - i,
            {
                assert(decreases_to!(*v => (*v)->Array_0));
                assert(decreases_to!(*items => items@));
                assert(decreases_to!(items@ => items@[i as int]));
                assert(decreases_to!(*v => items@[i as int]));
                let c = copy_json(&items[i]);
                proof {
                    let sub = items@.subrange(0, i + 1);
                    assert(sub.drop_last() =~= items@.subrange(0, i as int));
                    assert(sub.last() == items@[i as int]);
                }
                let ghost before = out@;
                out.push(c);
                assert(out@.drop_last() =~= before);
                i = i + 1;
            }
            assert(items@.subrange(0, items.len() as int) =~= items@);
            JsonValue::Array(out)
        },
        JsonValue::Object(members) => {
            let mut out: Vec<(String, JsonValue)> = Vec::new();
            let mut i: usize = 0;
            while i < members.len()
                invariant
                    i <= members.len(),
                    *v == JsonValue::Object(*members),
                    crate::json_tree::members_of(out@) == crate::json_tree::members_of(members@.subrange(0, i as int)),
                decreases members.len() - i,
            {
                let k = to_owned(members[i].0.as_str());
                assert(decreases_to!(*v => (*v)->Object_0));
                assert(decreases_to!(*members => members@));
                assert(decreases_to!(members@ => members@[i as int]));
                assert(decreases_to!(members@[i as int] => members@[i as int].1));
                assert(decreases_to!(*v => members@[i as int].1));
                let c = copy_json(&members[i].1);
                proof {
                    let sub = members@.subrange(0, i + 1);
                    assert(sub.drop_last() =~= members@.subrange(0, i as int));
                    assert(sub.last() == members@[i as int]);
                }
                let ghost before = out@;
                out.push((k, c));
                assert(out@.drop_last() =~= before);
                i = i + 1;
            }
            assert(members@.subrange(0, members.len() as int) =~= members@);
            JsonValue::Object(out)
        },
    }
}

impl Violation {
    /// The key findings are sorted by: path, unit, command path, key or name, field (absent ones
    /// as empty text).
    pub fn sort_key(&self) -> (r: (&str, &str, &str, &str, &str))
        ensures
            r.0@ == self.path@,
            r.1@ == (match self.unit { Some(u) => u@, None => Seq::empty() }),
            r.2@ == (match self.command_path { Some(c) => c@, None => Seq::empty() }),
            r.3@ == (match self.key_or_name { Some(k) => k@, None => Seq::empty() }),
            r.4@ == (match self.field { Some(f) => f@, None => Seq::empty() }),
    {
        proof {
            reveal_strlit("");
        }
        (
            self.path.as_str(),
            match self.unit { Some(u) => u, None => "" },
            match &self.command_path { Some(c) => c.as_str(), None => "" },
            match &self.key_or_name { Some(k) => k.as_str(), None => "" },
            match self.field { Some(f) => f, None => "" },
        )
    }

    /// `to_human_line`: the finding as one stable line for CI logs.
    pub fn to_human_line(&self) -> (r: String)
        ensures
            r@ == human_line(self.view()),
    {
        let mut parts: Vec<String> = Vec::new();
        parts.push(to_owned(self.code));
        parts.push(to_owned("error"));
        parts.push(to_owned(self.path.as_str()));
        let ghost head = views(parts@);
        assert(head =~= seq![self.code@, "error"@, self.path@]);
        match &self.json_pointer {
            Some(p) => {
                if p.as_str().unicode_len() > 0 {
                    parts.push(to_owned(p.as_str()));
                    assert(views(parts@) =~= head.push(p@));
                }
            },
            None => {},
        }
        let ghost mid = views(parts@);
        parts.push(to_owned(self.message.as_str()));
        assert(views(parts@) =~= mid.push(self.message@));
        join_text(&parts, " ")
    }

    /// `to_json`: the finding as a JSON object.
    pub fn to_json(&self) -> (r: JsonValue)
        ensures
            json_of(r) == violation_json(self.view()),
    {
        let mut members: Vec<(String, JsonValue)> = Vec::new();
        members.push((to_owned("code"), JsonValue::Str(to_owned(self.code))));
        match &self.details {
            Some(d) => members.push((to_owned("details"), copy_json(d))),
            None => {},
        }
        match &self.json_pointer {
            Some(p) => members.push((to_owned("json_pointer"), JsonValue::Str(to_owned(p.as_str())))),
            None => {},
        }
        members.push((to_owned("message"), JsonValue::Str(to_owned(self.message.as_str()))));
        members.push((to_owned("path"), JsonValue::Str(to_owned(self.path.as_str()))));
        members.push((to_owned("severity"), JsonValue::Str(to_owned("error"))));
        proof {
            crate::json_tree::lemma_members_of(members@);
            let v = self.view();
            let want = match violation_json(v) { JsonTree::Object(m) => m, _ => Seq::empty() };
            assert(crate::json_tree::members_of(members@) =~= want);
        }
        JsonValue::Object(members)
    }
}

pub open spec fn violation_view(v: Violation) -> ViolationView {
    v.view()
}

pub open spec fn violations_view(vs: Seq<Violation>) -> Seq<ViolationView> {
    vs.map_values(|v: Violation| violation_view(v))
}

/// A command path as the validator names it: `[]` for the root, else its words joined by `/`.
pub open spec fn command_path_text(path: Seq<Seq<char>>) -> Seq<char> {
    if path.len() == 0 {
        "[]"@
    } else {
        join(path, "/"@)
    }
}

pub fn format_command_path(path: &Vec<String>) -> (r: String)
    ensures
        r@ == command_path_text(views(path@)),
{
    if path.len() == 0 {
        to_owned("[]")
    } else {
        join_text(path, "/")
    }
}

// ---------------------------------------------------------------------------------------------
// Parity exclusions

/// A finding about `RULES.json`'s parity exclusions.
pub open spec fn rules_finding(
    code: Seq<char>,
    pointer: Seq<char>,
    message: Seq<char>,
    command_path: Option<Seq<char>>,
    key_or_name: Option<Seq<char>>,
) -> ViolationView {
    ViolationView {
        code,
        path: "RULES.json"@,
        json_pointer: Some(pointer),
        message,
        unit: Some("rules"@),
        command_path,
        key_or_name,
        field: Some("parity_exclusions"@),
        target_triple: None,
        details: None,
    }
}

fn rules_violation(
    code: &'static str,
    pointer: String,
    message: String,
    command_path: Option<String>,
    key_or_name: Option<String>,
) -> (v: Violation)
    ensures
        v.view() == rules_finding(code@, pointer@, message@, opt_text(command_path), opt_text(key_or_name)),
{
    Violation {
        code,
        path: to_owned("RULES.json"),
        json_pointer: Some(pointer),
        message,
        unit: Some("rules"),
        command_path,
        key_or_name,
        field: Some("parity_exclusions"),
        target_triple: None,
        details: None,
    }
}

pub open spec fn unit_pointer(idx: int, suffix: Seq<char>) -> Seq<char> {
    "/parity_exclusions/units/"@ + decimal(idx as nat) + suffix
}

fn unit_pointer_text(idx: usize, suffix: &str) -> (r: String)
    ensures
        r@ == unit_pointer(idx as int, suffix@),
{
    let mut r = to_owned("/parity_exclusions/units/");
    let n = u64_text(idx as u64);
    r.append(n.as_str());
    r.append(suffix);
    r
}

/// A key or name that is present and not blank.
pub open spec fn nonblank(o: Option<Seq<char>>) -> Option<Seq<char>> {
    match o {
        Some(s) => if is_blank(s) { None } else { Some(s) },
        None => None,
    }
}

/// What identifies an exclusion: its unit kind, its command path, and its key or name (empty
/// for a command).
pub type ExclusionId = (Seq<char>, Seq<Seq<char>>, Seq<char>);

/// The identity of a usable exclusion; `None` for one that names no usable unit.
pub open spec fn exclusion_identity(u: ParityExclusionUnit) -> Option<ExclusionId> {
    let path = views(u.path@);
    if u.unit@ == "command"@ {
        Some(("command"@, path, Seq::empty()))
    } else if u.unit@ == "flag"@ {
        match nonblank(opt_text(u.key)) {
            Some(k) => Some(("flag"@, path, k)),
            None => None,
        }
    } else if u.unit@ == "arg"@ {
        match nonblank(opt_text(u.name)) {
            Some(n) => Some(("arg"@, path, n)),
            None => None,
        }
    } else {
        None
    }
}

pub open spec fn first_some(a: Option<Seq<char>>, b: Option<Seq<char>>, c: Option<Seq<char>>) -> Option<Seq<char>> {
    if a is Some {
        a
    } else if b is Some {
        b
    } else {
        c
    }
}

/// The finding for a blank note, if the note is blank.
pub open spec fn note_findings(idx: int, u: ParityExclusionUnit) -> Seq<ViolationView> {
    if is_blank(u.note@) {
        seq![rules_finding(
            "PARITY_EXCLUSIONS_NOTE_MISSING"@,
            unit_pointer(idx, "/note"@),
            "parity_exclusions entry requires non-empty note"@,
            Some(command_path_text(views(u.path@))),
            first_some(opt_text(u.key), opt_text(u.name), Some(u.unit@)),
        )]
    } else {
        Seq::empty()
    }
}

pub open spec fn invalid_entry(idx: int, suffix: Seq<char>, message: Seq<char>, u: ParityExclusionUnit, key_or_name: Option<Seq<char>>) -> ViolationView {
    rules_finding(
        "PARITY_EXCLUSIONS_INVALID_ENTRY"@,
        unit_pointer(idx, suffix),
        message,
        Some(command_path_text(views(u.path@))),
        key_or_name,
    )
}

/// The findings about an exclusion's unit kind and the key or name it carries.
pub open spec fn shape_findings(idx: int, u: ParityExclusionUnit) -> Seq<ViolationView> {
    if u.unit@ == "command"@ {
        if u.key is Some || u.name is Some {
            seq![invalid_entry(idx, Seq::empty(), "parity_exclusions command entry must not include key or name"@, u, None)]
        } else {
            Seq::empty()
        }
    } else if u.unit@ == "flag"@ {
        match nonblank(opt_text(u.key)) {
            None => seq![invalid_entry(idx, "/key"@, "parity_exclusions flag entry requires key"@, u, None)],
            Some(k) => if u.name is Some {
                seq![invalid_entry(idx, "/name"@, "parity_exclusions flag entry must not include name"@, u, Some(k))]
            } else {
                Seq::empty()
            },
        }
    } else if u.unit@ == "arg"@ {
        match nonblank(opt_text(u.name)) {
            None => seq![invalid_entry(idx, "/name"@, "parity_exclusions arg entry requires name"@, u, None)],
            Some(n) => if u.key is Some {
                seq![invalid_entry(idx, "/key"@, "parity_exclusions arg entry must not include key"@, u, Some(n))]
            } else {
                Seq::empty()
            },
        }
    } else {
        seq![invalid_entry(
            idx,
            "/unit"@,
            "parity_exclusions entry unit must be one of command|flag|arg (got "@ + u.unit@ + ")"@,
            u,
            None,
        )]
    }
}

pub open spec fn unit_findings(idx: int, u: ParityExclusionUnit) -> Seq<ViolationView> {
    note_findings(idx, u) + shape_findings(idx, u)
}

pub open spec fn duplicate_finding(id: ExclusionId) -> ViolationView {
    let cp = command_path_text(id.1);
    rules_finding(
        "PARITY_EXCLUSIONS_DUPLICATE"@,
        "/parity_exclusions/units"@,
        "duplicate parity_exclusions identity (unit="@ + id.0 + " command_path="@ + cp + " key_or_name="@ + id.2
            + ")"@,
        Some(cp),
        Some(id.2),
    )
}

/// The findings for each exclusion in turn, and the identities of the usable ones in order.
pub open spec fn exclusion_walk(units: Seq<ParityExclusionUnit>) -> (Seq<ViolationView>, Seq<ExclusionId>)
    decreases units.len(),
{
    if units.len() == 0 {
        (Seq::empty(), Seq::empty())
    } else {
        let (found, ids) = exclusion_walk(units.drop_last());
        let idx = units.len() - 1;
        let u = units.last();
        let found = found + unit_findings(idx, u);
        match exclusion_identity(u) {
            None => (found, ids),
            Some(id) => (if ids.contains(id) { found.push(duplicate_finding(id)) } else { found }, ids.push(id)),
        }
    }
}

/// Lexicographic order on command paths (`Vec<String>` order).
pub open spec fn path_lt(a: Seq<Seq<char>>, b: Seq<Seq<char>>) -> bool
    decreases a.len(),
{
    if a.len() == 0 {
        b.len() > 0
    } else if b.len() == 0 {
        false
    } else if a[0] != b[0] {
        lex_lt(a[0], b[0])
    } else {
        path_lt(a.drop_first(), b.drop_first())
    }
}

/// Order on identities: by unit kind, then command path, then key or name.
pub open spec fn id_before(a: ExclusionId, b: ExclusionId) -> bool {
    lex_lt(a.0, b.0) || (a.0 == b.0 && (path_lt(a.1, b.1) || (a.1 == b.1 && lex_lt(a.2, b.2))))
}

/// Each identity is no greater than the next: the list is already in sorted order.
pub open spec fn ids_sorted(ids: Seq<ExclusionId>) -> bool {
    forall|i: int| 0 <= i && i + 1 < ids.len() ==> !id_before(#[trigger] ids[i + 1], ids[i])
}

pub open spec fn not_sorted_finding() -> ViolationView {
    ViolationView {
        code: "PARITY_EXCLUSIONS_NOT_SORTED"@,
        path: "RULES.json"@,
        json_pointer: Some("/parity_exclusions/units"@),
        message: "parity_exclusions.units must be stable-sorted by (unit,path,key_or_name)"@,
        unit: Some("rules"@),
        command_path: None,
        key_or_name: None,
        field: Some("parity_exclusions"@),
        target_triple: None,
        details: None,
    }
}

/// Everything the validator finds in `RULES.json`'s parity exclusions: nothing when there are
/// none, one finding for an unknown schema version or a missing unit list, else the findings of
/// each unit, its duplicates, and whether the units are sorted.
pub open spec fn parity_config_findings(schema_version: Option<u32>, units: Option<Seq<ParityExclusionUnit>>) -> Seq<ViolationView> {
    match schema_version {
        None => Seq::empty(),
        Some(v) => if v != 1 {
            seq![rules_finding(
                "PARITY_EXCLUSIONS_SCHEMA_VERSION"@,
                "/parity_exclusions/schema_version"@,
                "parity_exclusions.schema_version must be 1 (got "@ + decimal(v as nat) + ")"@,
                None,
                None,
            )]
        } else {
            match units {
                None => seq![rules_finding(
                    "PARITY_EXCLUSIONS_MISSING_UNITS"@,
                    "/parity_exclusions/units"@,
                    "parity_exclusions.units must exist"@,
                    None,
                    None,
                )],
                Some(us) => {
                    let (found, ids) = exclusion_walk(us);
                    if ids_sorted(ids) {
                        found
                    } else {
                        found.push(not_sorted_finding())
                    }
                },
            }
        },
    }
}

pub open spec fn units_view(units: Option<&Vec<ParityExclusionUnit>>) -> Option<Seq<ParityExclusionUnit>> {
    match units {
        Some(v) => Some(v@),
        None => None,
    }
}

fn push_violation(violations: &mut Vec<Violation>, v: Violation)
    ensures
        violations_view(final(violations)@) == violations_view(old(violations)@).push(v.view()),
{
    let ghost before = violations@;
    violations.push(v);
    assert(violations_view(violations@) =~= violations_view(before).push(v.view()));
}

fn opt_clone(o: &Option<String>) -> (r: Option<String>)
    ensures
        opt_text(r) == opt_text(*o),
{
    match o {
        Some(s) => Some(to_owned(s.as_str())),
        None => None,
    }
}

/// `key.or(name).or(Some(unit))`.
fn key_or_name_of(u: &ParityExclusionUnit) -> (r: Option<String>)
    ensures
        opt_text(r) == first_some(opt_text(u.key), opt_text(u.name), Some(u.unit@)),
{
    match &u.key {
        Some(k) => Some(to_owned(k.as_str())),
        None => match &u.name {
            Some(n) => Some(to_owned(n.as_str())),
            None => Some(to_owned(u.unit.as_str())),
        },
    }
}

fn nonblank_of(o: &Option<String>) -> (r: Option<String>)
    ensures
        opt_text(r) == nonblank(opt_text(*o)),
{
    match o {
        Some(s) => if blank(s.as_str()) {
            None
        } else {
            Some(to_owned(s.as_str()))
        },
        None => None,
    }
}

pub open spec fn id_view(id: (String, Vec<String>, String)) -> ExclusionId {
    (id.0@, views(id.1@), id.2@)
}

pub open spec fn ids_view(ids: Seq<(String, Vec<String>, String)>) -> Seq<ExclusionId> {
    ids.map_values(|id: (String, Vec<String>, String)| id_view(id))
}

/// Push the findings about one exclusion's note and shape, and give its identity if it has one.
fn check_unit(idx: usize, u: &ParityExclusionUnit, violations: &mut Vec<Violation>) -> (r: Option<(String, Vec<String>, String)>)
    ensures
        violations_view(final(violations)@) == violations_view(old(violations)@) + unit_findings(idx as int, *u),
        match r {
            Some(id) => exclusion_identity(*u) == Some(id_view(id)),
            None => exclusion_identity(*u) is None,
        },
{
    let ghost start = violations_view(violations@);
    let cp = format_command_path(&u.path);
    if blank(u.note.as_str()) {
        let v = rules_violation(
            "PARITY_EXCLUSIONS_NOTE_MISSING",
            unit_pointer_text(idx, "/note"),
            to_owned("parity_exclusions entry requires non-empty note"),
            Some(to_owned(cp.as_str())),
            key_or_name_of(u),
        );
        push_violation(violations, v);
    }
    let ghost after_note = violations_view(violations@);
    assert(after_note =~= start + note_findings(idx as int, *u));
    let ghost path = views(u.path@);
    if str_eq(u.unit.as_str(), "command") {
        proof {
            reveal_strlit("");
        }
        if u.key.is_some() || u.name.is_some() {
            let v = rules_violation(
                "PARITY_EXCLUSIONS_INVALID_ENTRY",
                unit_pointer_text(idx, ""),
                to_owned("parity_exclusions command entry must not include key or name"),
                Some(cp),
                None,
            );
            push_violation(violations, v);
        }
        assert(violations_view(violations@) =~= after_note + shape_findings(idx as int, *u));
        let mut p: Vec<String> = Vec::new();
        clone_path(&u.path, &mut p);
        let id = (to_owned("command"), p, String::new());
        assert(id.2@ =~= Seq::<char>::empty());
        Some(id)
    } else if str_eq(u.unit.as_str(), "flag") {
        match nonblank_of(&u.key) {
            None => {
                let v = rules_violation(
                    "PARITY_EXCLUSIONS_INVALID_ENTRY",
                    unit_pointer_text(idx, "/key"),
                    to_owned("parity_exclusions flag entry requires key"),
                    Some(cp),
                    None,
                );
                push_violation(violations, v);
                assert(violations_view(violations@) =~= after_note + shape_findings(idx as int, *u));
                None
            },
            Some(k) => {
                if u.name.is_some() {
                    let v = rules_violation(
                        "PARITY_EXCLUSIONS_INVALID_ENTRY",
                        unit_pointer_text(idx, "/name"),
                        to_owned("parity_exclusions flag entry must not include name"),
                        Some(cp),
                        Some(to_owned(k.as_str())),
                    );
                    push_violation(violations, v);
                }
                assert(violations_view(violations@) =~= after_note + shape_findings(idx as int, *u));
                let mut p: Vec<String> = Vec::new();
                clone_path(&u.path, &mut p);
                Some((to_owned("flag"), p, k))
            },
        }
    } else if str_eq(u.unit.as_str(), "arg") {
        match nonblank_of(&u.name) {
            None => {
                let v = rules_violation(
                    "PARITY_EXCLUSIONS_INVALID_ENTRY",
                    unit_pointer_text(idx, "/name"),
                    to_owned("parity_exclusions arg entry requires name"),
                    Some(cp),
                    None,
                );
                push_violation(violations, v);
                assert(violations_view(violations@) =~= after_note + shape_findings(idx as int, *u));
                None
            },
            Some(n) => {
                if u.key.is_some() {
                    let v = rules_violation(
                        "PARITY_EXCLUSIONS_INVALID_ENTRY",
                        unit_pointer_text(idx, "/key"),
                        to_owned("parity_exclusions arg entry must not include key"),
                        Some(cp),
                        Some(to_owned(n.as_str())),
                    );
                    push_violation(violations, v);
                }
                assert(violations_view(violations@) =~= after_note + shape_findings(idx as int, *u));
                let mut p: Vec<String> = Vec::new();
                clone_path(&u.path, &mut p);
                Some((to_owned("arg"), p, n))
            },
        }
    } else {
        let mut m = cat2("parity_exclusions entry unit must be one of command|flag|arg (got ", u.unit.as_str());
        m.append(")");
        let v = rules_violation("PARITY_EXCLUSIONS_INVALID_ENTRY", unit_pointer_text(idx, "/unit"), m, Some(cp), None);
        push_violation(violations, v);
        assert(violations_view(violations@) =~= after_note + shape_findings(idx as int, *u));
        None
    }
}

/// A copy of a command path.
fn clone_path(path: &Vec<String>, out: &mut Vec<String>)
    requires
        old(out)@.len() == 0,
    ensures
        views(final(out)@) == views(path@),
{
    let mut i: usize = 0;
    while i < path.len()
        invariant
            i <= path.len(),
            views(out@) == views(path@.subrange(0, i as int)),
        decreases path.len() - i,
    {
        proof {
            assert(views(path@.subrange(0, i + 1)) =~= views(path@.subrange(0, i as int)).push(path@[i as int]@));
        }
        let ghost before = out@;
        out.push(to_owned(path[i].as_str()));
        assert(views(out@) =~= views(before).push(path@[i as int]@));
        i = i + 1;
    }
    assert(path@.subrange(0, path.len() as int) =~= path@);
}

fn path_eq(a: &Vec<String>, b: &Vec<String>) -> (r: bool)
    ensures
        r == (views(a@) == views(b@)),
{
    if a.len() != b.len() {
        assert(views(a@).len() != views(b@).len());
        return false;
    }
    let mut i: usize = 0;
    while i < a.len()
        invariant
            a.len() == b.len(),
            i <= a.len(),
            forall|k: int| 0 <= k < i ==> #[trigger] a@[k]@ == b@[k]@,
        decreases a.len() - i,
    {
        if !str_eq(a[i].as_str(), b[i].as_str()) {
            assert(views(a@)[i as int] != views(b@)[i as int]);
            return false;
        }
        i = i + 1;
    }
    assert(views(a@) =~= views(b@));
    true
}

fn path_before(a: &Vec<String>, b: &Vec<String>) -> (r: bool)
    ensures
        r == path_lt(views(a@), views(b@)),
{
    let ghost va = views(a@);
    let ghost vb = views(b@);
    let mut i: usize = 0;
    proof {
        assert(va.subrange(0, va.len() as int) =~= va);
        assert(vb.subrange(0, vb.len() as int) =~= vb);
    }
    while i < a.len() && i < b.len()
        invariant
            va == views(a@),
            vb == views(b@),
            i <= a.len(),
            i <= b.len(),
            path_lt(va, vb) == path_lt(va.subrange(i as int, va.len() as int), vb.subrange(i as int, vb.len() as int)),
        decreases a.len() - i,
    {
        let ghost sa = va.subrange(i as int, va.len() as int);
        let ghost sb = vb.subrange(i as int, vb.len() as int);
        assert(sa[0] == a@[i as int]@ && sb[0] == b@[i as int]@);
        if !str_eq(a[i].as_str(), b[i].as_str()) {
            return text_lt(a[i].as_str(), b[i].as_str());
        }
        assert(sa.drop_first() =~= va.subrange(i + 1, va.len() as int));
        assert(sb.drop_first() =~= vb.subrange(i + 1, vb.len() as int));
        i = i + 1;
    }
    i == a.len() && i < b.len()
}

fn id_precedes(a: &(String, Vec<String>, String), b: &(String, Vec<String>, String)) -> (r: bool)
    ensures
        r == id_before(id_view(*a), id_view(*b)),
{
    if text_lt(a.0.as_str(), b.0.as_str()) {
        return true;
    }
    if !str_eq(a.0.as_str(), b.0.as_str()) {
        return false;
    }
    if path_before(&a.1, &b.1) {
        return true;
    }
    if !path_eq(&a.1, &b.1) {
        return false;
    }
    text_lt(a.2.as_str(), b.2.as_str())
}

fn id_seen(ids: &Vec<(String, Vec<String>, String)>, id: &(String, Vec<String>, String)) -> (r: bool)
    ensures
        r == ids_view(ids@).contains(id_view(*id)),
{
    let mut i: usize = 0;
    while i < ids.len()
        invariant
            i <= ids.len(),
            forall|k: int| 0 <= k < i ==> #[trigger] ids_view(ids@)[k] != id_view(*id),
        decreases ids.len() - i,
    {
        let same = str_eq(ids[i].0.as_str(), id.0.as_str()) && path_eq(&ids[i].1, &id.1) && str_eq(ids[i].2.as_str(), id.2.as_str());
        assert(ids_view(ids@)[i as int] == id_view(ids@[i as int]));
        if same {
            return true;
        }
        i = i + 1;
    }
    false
}

fn ids_in_order(ids: &Vec<(String, Vec<String>, String)>) -> (r: bool)
    ensures
        r == ids_sorted(ids_view(ids@)),
{
    let ghost iv = ids_view(ids@);
    if ids.len() == 0 {
        return true;
    }
    let last = ids.len() - 1;
    let mut i: usize = 0;
    while i < last
        invariant
            iv == ids_view(ids@),
            iv.len() == ids.len(),
            last + 1 == ids.len(),
            i <= last,
            forall|k: int| 0 <= k < i && k + 1 < iv.len() ==> !id_before(#[trigger] iv[k + 1], iv[k]),
        decreases ids.len() - i,
    {
        assert(iv[i + 1] == id_view(ids@[i + 1]) && iv[i as int] == id_view(ids@[i as int]));
        if id_precedes(&ids[i + 1], &ids[i]) {
            return false;
        }
        i = i + 1;
    }
    true
}

/// Check the parity exclusions that `RULES.json` declares, adding each finding to `violations`.
pub fn validate_parity_exclusions_config(
    schema_version: Option<u32>,
    units: Option<&Vec<ParityExclusionUnit>>,
    violations: &mut Vec<Violation>,
)
    ensures
        violations_view(final(violations)@) == violations_view(old(violations)@) + parity_config_findings(schema_version, units_view(units)),
{
    let ghost start = violations_view(violations@);
    let v = match schema_version {
        None => {
            assert(violations_view(violations@) =~= start + Seq::<ViolationView>::empty());
            return;
        },
        Some(v) => v,
    };
    if v != 1 {
        let mut m = to_owned("parity_exclusions.schema_version must be 1 (got ");
        let n = u64_text(v as u64);
        m.append(n.as_str());
        m.append(")");
        let finding = Violation {
            code: "PARITY_EXCLUSIONS_SCHEMA_VERSION",
            path: to_owned("RULES.json"),
            json_pointer: Some(to_owned("/parity_exclusions/schema_version")),
            message: m,
            unit: Some("rules"),
            command_path: None,
            key_or_name: None,
            field: Some("parity_exclusions"),
            target_triple: None,
            details: None,
        };
        push_violation(violations, finding);
        assert(violations_view(violations@) =~= start + parity_config_findings(schema_version, units_view(units)));
        return;
    }
    let units = match units {
        None => {
            let finding = Violation {
                code: "PARITY_EXCLUSIONS_MISSING_UNITS",
                path: to_owned("RULES.json"),
                json_pointer: Some(to_owned("/parity_exclusions/units")),
                message: to_owned("parity_exclusions.units must exist"),
                unit: Some("rules"),
                command_path: None,
                key_or_name: None,
                field: Some("parity_exclusions"),
                target_triple: None,
                details: None,
            };
            push_violation(violations, finding);
            assert(violations_view(violations@) =~= start + parity_config_findings(schema_version, None));
            return;
        },
        Some(us) => us,
    };
    let mut ids: Vec<(String, Vec<String>, String)> = Vec::new();
    let mut i: usize = 0;
    proof {
        assert(units@.subrange(0, 0) =~= Seq::<ParityExclusionUnit>::empty());
        assert(violations_view(violations@) =~= start + exclusion_walk(units@.subrange(0, 0)).0);
        assert(ids_view(ids@) =~= exclusion_walk(units@.subrange(0, 0)).1);
    }
    while i < units.len()
        invariant
            i <= units.len(),
            violations_view(violations@) == start + exclusion_walk(units@.subrange(0, i as int)).0,
            ids_view(ids@) == exclusion_walk(units@.subrange(0, i as int)).1,
        decreases units.len() - i,
    {
        proof {
            assert(units@.subrange(0, i + 1).drop_last() =~= units@.subrange(0, i as int));
            assert(units@.subrange(0, i + 1).last() == units@[i as int]);
        }
        let ghost walked = exclusion_walk(units@.subrange(0, i as int));
        let found = check_unit(i, &units[i], violations);
        assert(violations_view(violations@) =~= start + (walked.0 + unit_findings(i as int, units@[i as int])));
        match found {
            None => {},
            Some(id) => {
                if id_seen(&ids, &id) {
                    let cp = format_command_path(&id.1);
                    let mut m = cat2("duplicate parity_exclusions identity (unit=", id.0.as_str());
                    m.append(" command_path=");
                    m.append(cp.as_str());
                    m.append(" key_or_name=");
                    m.append(id.2.as_str());
                    m.append(")");
                    let finding = rules_violation(
                        "PARITY_EXCLUSIONS_DUPLICATE",
                        to_owned("/parity_exclusions/units"),
                        m,
                        Some(cp),
                        Some(to_owned(id.2.as_str())),
                    );
                    push_violation(violations, finding);
                }
                let ghost before = ids@;
                ids.push(id);
                assert(ids_view(ids@) =~= ids_view(before).push(id_view(id)));
            },
        }
        i = i + 1;
    }
    proof {
        assert(units@.subrange(0, units.len() as int) =~= units@);
    }
    if !ids_in_order(&ids) {
        let finding = Violation {
            code: "PARITY_EXCLUSIONS_NOT_SORTED",
            path: to_owned("RULES.json"),
            json_pointer: Some(to_owned("/parity_exclusions/units")),
            message: to_owned("parity_exclusions.units must be stable-sorted by (unit,path,key_or_name)"),
            unit: Some("rules"),
            command_path: None,
            key_or_name: None,
            field: Some("parity_exclusions"),
            target_triple: None,
            details: None,
        };
        let ghost before = violations_view(violations@);
        push_violation(violations, finding);
        assert(violations_view(violations@) =~= start + parity_config_findings(schema_version, units_view(Some(units))));
    }
}

// ---------------------------------------------------------------------------------------------
// The exclusions as lookup tables

pub type UnitView = (Seq<char>, Seq<Seq<char>>, Option<Seq<char>>, Option<Seq<char>>, Option<Seq<char>>, Seq<char>);

pub open spec fn unit_view(u: ParityExclusionUnit) -> UnitView {
    (u.unit@, views(u.path@), opt_text(u.key), opt_text(u.name), opt_text(u.category), u.note@)
}

/// The parity exclusions indexed by what they exclude: commands by path, flags by path and
/// key, args by path and name. A later entry for the same surface replaces an earlier one.
#[derive(Debug)]
pub struct ParityExclusionsIndex {
    pub commands: Vec<(Vec<String>, ParityExclusionUnit)>,
    pub flags: Vec<((Vec<String>, String), ParityExclusionUnit)>,
    pub args: Vec<((Vec<String>, String), ParityExclusionUnit)>,
}

pub type LeafKey = (Seq<Seq<char>>, Seq<char>);

pub open spec fn command_index(units: Seq<ParityExclusionUnit>) -> Map<Seq<Seq<char>>, UnitView>
    decreases units.len(),
{
    if units.len() == 0 {
        Map::empty()
    } else {
        let m = command_index(units.drop_last());
        let u = units.last();
        if u.unit@ == "command"@ { m.insert(views(u.path@), unit_view(u)) } else { m }
    }
}

/// The flag (`which` is `"flag"`, keyed by `key`) or arg (`"arg"`, keyed by `name`) entries.
pub open spec fn leaf_index(units: Seq<ParityExclusionUnit>, which: Seq<char>) -> Map<LeafKey, UnitView>
    decreases units.len(),
{
    if units.len() == 0 {
        Map::empty()
    } else {
        let m = leaf_index(units.drop_last(), which);
        let u = units.last();
        let leaf = if which == "flag"@ { opt_text(u.key) } else { opt_text(u.name) };
        if u.unit@ == which {
            match leaf {
                Some(k) => m.insert((views(u.path@), k), unit_view(u)),
                None => m,
            }
        } else {
            m
        }
    }
}

pub open spec fn command_entries_map(e: Seq<(Vec<String>, ParityExclusionUnit)>) -> Map<Seq<Seq<char>>, UnitView> {
    Map::new(
        |k: Seq<Seq<char>>| exists|i: int| 0 <= i < e.len() && views(e[i].0@) == k,
        |k: Seq<Seq<char>>| unit_view(e[choose|i: int| 0 <= i < e.len() && views(e[i].0@) == k].1),
    )
}

pub open spec fn leaf_entries_map(e: Seq<((Vec<String>, String), ParityExclusionUnit)>) -> Map<LeafKey, UnitView> {
    Map::new(
        |k: LeafKey| exists|i: int| 0 <= i < e.len() && (views(e[i].0.0@), e[i].0.1@) == k,
        |k: LeafKey| unit_view(e[choose|i: int| 0 <= i < e.len() && (views(e[i].0.0@), e[i].0.1@) == k].1),
    )
}

pub open spec fn command_keys_unique(e: Seq<(Vec<String>, ParityExclusionUnit)>) -> bool {
    forall|i: int, j: int| 0 <= i < j < e.len() ==> views((#[trigger] e[i]).0@) != views((#[trigger] e[j]).0@)
}

pub open spec fn leaf_keys_unique(e: Seq<((Vec<String>, String), ParityExclusionUnit)>) -> bool {
    forall|i: int, j: int| 0 <= i < j < e.len() ==> (views((#[trigger] e[i]).0.0@), e[i].0.1@) != (views((#[trigger] e[j]).0.0@), e[j].0.1@)
}

fn copy_texts(v: &Vec<String>) -> (r: Vec<String>)
    ensures
        views(r@) == views(v@),
{
    let mut out: Vec<String> = Vec::new();
    let mut i: usize = 0;
    while i < v.len()
        invariant
            i <= v.len(),
            views(out@) == views(v@).subrange(0, i as int),
        decreases v.len() - i,
    {
        let ghost before = views(out@);
        out.push(to_owned(v[i].as_str()));
        assert(views(out@) =~= before.push(v@[i as int]@));
        assert(views(v@).subrange(0, i + 1) =~= views(v@).subrange(0, i as int).push(v@[i as int]@));
        i = i + 1;
    }
    assert(views(v@).subrange(0, v.len() as int) =~= views(v@));
    out
}

fn copy_opt(o: &Option<String>) -> (r: Option<String>)
    ensures
        opt_text(r) == opt_text(*o),
{
    match o {
        Some(s) => Some(to_owned(s.as_str())),
        None => None,
    }
}

fn copy_unit(u: &ParityExclusionUnit) -> (r: ParityExclusionUnit)
    ensures
        unit_view(r) == unit_view(*u),
{
    ParityExclusionUnit {
        unit: to_owned(u.unit.as_str()),
        path: copy_texts(&u.path),
        key: copy_opt(&u.key),
        name: copy_opt(&u.name),
        category: copy_opt(&u.category),
        note: to_owned(u.note.as_str()),
    }
}

fn same_path(a: &Vec<String>, b: &Vec<String>) -> (r: bool)
    ensures
        r == (views(a@) == views(b@)),
{
    crate::onboard_validation::same_texts(a, b)
}

fn put_command(entries: &mut Vec<(Vec<String>, ParityExclusionUnit)>, u: &ParityExclusionUnit)
    requires
        command_keys_unique(old(entries)@),
    ensures
        command_keys_unique(final(entries)@),
        command_entries_map(final(entries)@) == command_entries_map(old(entries)@).insert(views(u.path@), unit_view(*u)),
{
    let ghost e0 = entries@;
    let ghost k = views(u.path@);
    let mut i: usize = 0;
    while i < entries.len()
        invariant
            i <= entries.len(),
            entries@ == e0,
            e0 == old(entries)@,
            k == views(u.path@),
            command_keys_unique(e0),
            forall|j: int| 0 <= j < i ==> views((#[trigger] e0[j]).0@) != k,
        decreases entries.len() - i,
    {
        assert(e0[i as int] == entries@[i as int]);
        if same_path(&entries[i].0, &u.path) {
            let fresh = (copy_texts(&u.path), copy_unit(u));
            entries.set(i, fresh);
            proof {
                let e1 = entries@;
                assert forall|a: int, b: int| 0 <= a < b < e1.len() implies views((#[trigger] e1[a]).0@) != views((#[trigger] e1[b]).0@) by {
                    assert(views(e1[a].0@) == views(e0[a].0@));
                    assert(views(e1[b].0@) == views(e0[b].0@));
                    assert(views(e0[a].0@) != views(e0[b].0@));
                }
                assert(command_entries_map(e1) =~= command_entries_map(e0).insert(k, unit_view(*u))) by {
                    assert forall|x: Seq<Seq<char>>| command_entries_map(e1).dom().contains(x) <==> command_entries_map(e0).insert(k, unit_view(*u)).dom().contains(x) by {
                        if command_entries_map(e0).dom().contains(x) {
                            let j = choose|j: int| 0 <= j < e0.len() && views(e0[j].0@) == x;
                            assert(views(e1[j].0@) == x);
                        }
                        if command_entries_map(e1).dom().contains(x) {
                            let j = choose|j: int| 0 <= j < e1.len() && views(e1[j].0@) == x;
                            assert(views(e0[j].0@) == x);
                        }
                        if x == k {
                            assert(views(e1[i as int].0@) == x);
                        }
                    }
                    assert forall|x: Seq<Seq<char>>| #[trigger] command_entries_map(e1).dom().contains(x) implies command_entries_map(e1)[x] == command_entries_map(e0).insert(k, unit_view(*u))[x] by {
                        let j1 = choose|j: int| 0 <= j < e1.len() && views(e1[j].0@) == x;
                        if x == k {
                            assert(j1 == i);
                        } else {
                            let j0 = choose|j: int| 0 <= j < e0.len() && views(e0[j].0@) == x;
                            assert(views(e0[j1].0@) == x);
                            assert(j0 == j1);
                        }
                    }
                }
            }
            return;
        }
        i = i + 1;
    }
    entries.push((copy_texts(&u.path), copy_unit(u)));
    proof {
        let e1 = entries@;
        let n = e0.len() as int;
        assert forall|a: int, b: int| 0 <= a < b < e1.len() implies views((#[trigger] e1[a]).0@) != views((#[trigger] e1[b]).0@) by {
            if b < n {
                assert(e1[a] == e0[a] && e1[b] == e0[b]);
            } else {
                assert(e1[a] == e0[a]);
            }
        }
        assert(command_entries_map(e1) =~= command_entries_map(e0).insert(k, unit_view(*u))) by {
            assert forall|x: Seq<Seq<char>>| command_entries_map(e1).dom().contains(x) <==> command_entries_map(e0).insert(k, unit_view(*u)).dom().contains(x) by {
                if command_entries_map(e0).dom().contains(x) {
                    let j = choose|j: int| 0 <= j < e0.len() && views(e0[j].0@) == x;
                    assert(e1[j] == e0[j]);
                }
                if command_entries_map(e1).dom().contains(x) {
                    let j = choose|j: int| 0 <= j < e1.len() && views(e1[j].0@) == x;
                    if j < n {
                        assert(e1[j] == e0[j]);
                    }
                }
                if x == k {
                    assert(views(e1[n].0@) == x);
                }
            }
            assert forall|x: Seq<Seq<char>>| #[trigger] command_entries_map(e1).dom().contains(x) implies command_entries_map(e1)[x] == command_entries_map(e0).insert(k, unit_view(*u))[x] by {
                let j1 = choose|j: int| 0 <= j < e1.len() && views(e1[j].0@) == x;
                if x == k {
                    if j1 < n {
                        assert(e1[j1] == e0[j1]);
                    }
                    assert(j1 == n);
                } else {
                    let j0 = choose|j: int| 0 <= j < e0.len() && views(e0[j].0@) == x;
                    assert(e1[j0] == e0[j0]);
                    assert(j1 < n);
                    assert(e1[j1] == e0[j1]);
                }
            }
        }
    }
}

fn put_leaf(entries: &mut Vec<((Vec<String>, String), ParityExclusionUnit)>, u: &ParityExclusionUnit, leaf: &String)
    requires
        leaf_keys_unique(old(entries)@),
    ensures
        leaf_keys_unique(final(entries)@),
        leaf_entries_map(final(entries)@) == leaf_entries_map(old(entries)@).insert((views(u.path@), leaf@), unit_view(*u)),
{
    let ghost e0 = entries@;
    let ghost k = (views(u.path@), leaf@);
    let mut i: usize = 0;
    while i < entries.len()
        invariant
            i <= entries.len(),
            entries@ == e0,
            e0 == old(entries)@,
            k == (views(u.path@), leaf@),
            leaf_keys_unique(e0),
            forall|j: int| 0 <= j < i ==> (views((#[trigger] e0[j]).0.0@), e0[j].0.1@) != k,
        decreases entries.len() - i,
    {
        assert(e0[i as int] == entries@[i as int]);
        if same_path(&entries[i].0.0, &u.path) && str_eq(entries[i].0.1.as_str(), leaf.as_str()) {
            let fresh = ((copy_texts(&u.path), to_owned(leaf.as_str())), copy_unit(u));
            entries.set(i, fresh);
            proof {
                let e1 = entries@;
                assert forall|a: int, b: int| 0 <= a < b < e1.len() implies (views((#[trigger] e1[a]).0.0@), e1[a].0.1@) != (views((#[trigger] e1[b]).0.0@), e1[b].0.1@) by {
                    assert((views(e1[a].0.0@), e1[a].0.1@) == (views(e0[a].0.0@), e0[a].0.1@));
                    assert((views(e1[b].0.0@), e1[b].0.1@) == (views(e0[b].0.0@), e0[b].0.1@));
                    assert((views(e0[a].0.0@), e0[a].0.1@) != (views(e0[b].0.0@), e0[b].0.1@));
                }
                assert(leaf_entries_map(e1) =~= leaf_entries_map(e0).insert(k, unit_view(*u))) by {
                    assert forall|x: LeafKey| leaf_entries_map(e1).dom().contains(x) <==> leaf_entries_map(e0).insert(k, unit_view(*u)).dom().contains(x) by {
                        if leaf_entries_map(e0).dom().contains(x) {
                            let j = choose|j: int| 0 <= j < e0.len() && (views(e0[j].0.0@), e0[j].0.1@) == x;
                            assert((views(e1[j].0.0@), e1[j].0.1@) == x);
                        }
                        if leaf_entries_map(e1).dom().contains(x) {
                            let j = choose|j: int| 0 <= j < e1.len() && (views(e1[j].0.0@), e1[j].0.1@) == x;
                            assert((views(e0[j].0.0@), e0[j].0.1@) == x);
                        }
                        if x == k {
                            assert((views(e1[i as int].0.0@), e1[i as int].0.1@) == x);
                        }
                    }
                    assert forall|x: LeafKey| #[trigger] leaf_entries_map(e1).dom().contains(x) implies leaf_entries_map(e1)[x] == leaf_entries_map(e0).insert(k, unit_view(*u))[x] by {
                        let j1 = choose|j: int| 0 <= j < e1.len() && (views(e1[j].0.0@), e1[j].0.1@) == x;
                        if x == k {
                            assert(j1 == i);
                        } else {
                            let j0 = choose|j: int| 0 <= j < e0.len() && (views(e0[j].0.0@), e0[j].0.1@) == x;
                            assert((views(e0[j1].0.0@), e0[j1].0.1@) == x);
                            assert(j0 == j1);
                        }
                    }
                }
            }
            return;
        }
        i = i + 1;
    }
    entries.push(((copy_texts(&u.path), to_owned(leaf.as_str())), copy_unit(u)));
    proof {
        let e1 = entries@;
        let n = e0.len() as int;
        assert forall|a: int, b: int| 0 <= a < b < e1.len() implies (views((#[trigger] e1[a]).0.0@), e1[a].0.1@) != (views((#[trigger] e1[b]).0.0@), e1[b].0.1@) by {
            if b < n {
                assert(e1[a] == e0[a] && e1[b] == e0[b]);
            } else {
                assert(e1[a] == e0[a]);
            }
        }
        assert(leaf_entries_map(e1) =~= leaf_entries_map(e0).insert(k, unit_view(*u))) by {
            assert forall|x: LeafKey| leaf_entries_map(e1).dom().contains(x) <==> leaf_entries_map(e0).insert(k, unit_view(*u)).dom().contains(x) by {
                if leaf_entries_map(e0).dom().contains(x) {
                    let j = choose|j: int| 0 <= j < e0.len() && (views(e0[j].0.0@), e0[j].0.1@) == x;
                    assert(e1[j] == e0[j]);
                }
                if leaf_entries_map(e1).dom().contains(x) {
                    let j = choose|j: int| 0 <= j < e1.len() && (views(e1[j].0.0@), e1[j].0.1@) == x;
                    if j < n {
                        assert(e1[j] == e0[j]);
                    }
                }
                if x == k {
                    assert((views(e1[n].0.0@), e1[n].0.1@) == x);
                }
            }
            assert forall|x: LeafKey| #[trigger] leaf_entries_map(e1).dom().contains(x) implies leaf_entries_map(e1)[x] == leaf_entries_map(e0).insert(k, unit_view(*u))[x] by {
                let j1 = choose|j: int| 0 <= j < e1.len() && (views(e1[j].0.0@), e1[j].0.1@) == x;
                if x == k {
                    if j1 < n {
                        assert(e1[j1] == e0[j1]);
                    }
                    assert(j1 == n);
                } else {
                    let j0 = choose|j: int| 0 <= j < e0.len() && (views(e0[j].0.0@), e0[j].0.1@) == x;
                    assert(e1[j0] == e0[j0]);
                    assert(j1 < n);
                    assert(e1[j1] == e0[j1]);
                }
            }
        }
    }
}


/// `build_parity_exclusions_index`: each exclusion filed by what it excludes; a flag entry
/// without a key, or an arg entry without a name, files nothing, and a later entry for the same
/// surface replaces an earlier one.
pub fn build_parity_exclusions_index(units: &Vec<ParityExclusionUnit>) -> (r: ParityExclusionsIndex)
    ensures
        command_keys_unique(r.commands@),
        leaf_keys_unique(r.flags@),
        leaf_keys_unique(r.args@),
        command_entries_map(r.commands@) == command_index(units@),
        leaf_entries_map(r.flags@) == leaf_index(units@, "flag"@),
        leaf_entries_map(r.args@) == leaf_index(units@, "arg"@),
{
    let mut commands: Vec<(Vec<String>, ParityExclusionUnit)> = Vec::new();
    let mut flags: Vec<((Vec<String>, String), ParityExclusionUnit)> = Vec::new();
    let mut args: Vec<((Vec<String>, String), ParityExclusionUnit)> = Vec::new();
    let mut i: usize = 0;
    assert(command_entries_map(commands@) =~= Map::<Seq<Seq<char>>, UnitView>::empty());
    assert(leaf_entries_map(flags@) =~= Map::<LeafKey, UnitView>::empty());
    assert(leaf_entries_map(args@) =~= Map::<LeafKey, UnitView>::empty());
    assert(units@.subrange(0, 0) =~= Seq::<ParityExclusionUnit>::empty());
    while i < units.len()
        invariant
            i <= units.len(),
            command_keys_unique(commands@),
            leaf_keys_unique(flags@),
            leaf_keys_unique(args@),
            command_entries_map(commands@) == command_index(units@.subrange(0, i as int)),
            leaf_entries_map(flags@) == leaf_index(units@.subrange(0, i as int), "flag"@),
            leaf_entries_map(args@) == leaf_index(units@.subrange(0, i as int), "arg"@),
        decreases units.len() - i,
    {
        let u = &units[i];
        proof {
            let sub = units@.subrange(0, i + 1);
            assert(sub.drop_last() =~= units@.subrange(0, i as int));
            assert(sub.last() == units@[i as int]);
            reveal_strlit("flag");
            reveal_strlit("arg");
            reveal_strlit("command");
            assert("arg"@.len() != "flag"@.len());
            assert("arg"@ != "flag"@);
        }
        let ghost sub = units@.subrange(0, i + 1);
        let ghost pre = units@.subrange(0, i as int);
        assert(leaf_index(sub, "flag"@) == (if u.unit@ == "flag"@ {
            match opt_text(u.key) {
                Some(k) => leaf_index(pre, "flag"@).insert((views(u.path@), k), unit_view(*u)),
                None => leaf_index(pre, "flag"@),
            }
        } else {
            leaf_index(pre, "flag"@)
        }));
        assert(leaf_index(sub, "arg"@) == (if u.unit@ == "arg"@ {
            match opt_text(u.name) {
                Some(k) => leaf_index(pre, "arg"@).insert((views(u.path@), k), unit_view(*u)),
                None => leaf_index(pre, "arg"@),
            }
        } else {
            leaf_index(pre, "arg"@)
        }));
        if str_eq(u.unit.as_str(), "command") {
            put_command(&mut commands, u);
        } else if str_eq(u.unit.as_str(), "flag") {
            if let Some(key) = &u.key {
                put_leaf(&mut flags, u, key);
            }
        } else if str_eq(u.unit.as_str(), "arg") {
            if let Some(name) = &u.name {
                put_leaf(&mut args, u, name);
            }
        }
        i = i + 1;
    }
    assert(units@.subrange(0, units.len() as int) =~= units@);
    ParityExclusionsIndex { commands, flags, args }
}

// ---------------------------------------------------------------------------------------------
// Guardrails on the wrapper-coverage rules

/// The first wrapper-coverage scope rule that the validator does not support, as the message it
/// stops with; `None` when the rules expand platforms through the union's platform mapping, read
/// no scope as every expected target, and resolve scope sets by union.
pub open spec fn rules_guardrail(platforms_expand_using: Seq<char>, no_scope_means: Seq<char>, scope_set_mode: Seq<char>) -> Option<Seq<char>> {
    if platforms_expand_using != "union.platform_mapping"@ {
        Some("unsupported wrapper_coverage.scope_semantics.platforms_expand_using="@ + platforms_expand_using
            + " (expected union.platform_mapping)"@)
    } else if no_scope_means != "all_expected_targets"@ {
        Some("unsupported wrapper_coverage.scope_semantics.defaults.no_scope_means="@ + no_scope_means
            + " (expected all_expected_targets)"@)
    } else if scope_set_mode != "union"@ {
        Some("unsupported wrapper_coverage.scope_semantics.scope_set_resolution.mode="@ + scope_set_mode
            + " (expected union)"@)
    } else {
        None
    }
}

/// The guardrails the validator checks on `RULES.json` before it reads anything else: the rules
/// message of the first one that fails.
pub fn rules_guardrail_error(platforms_expand_using: &str, no_scope_means: &str, scope_set_mode: &str) -> (r: Option<String>)
    ensures
        match rules_guardrail(platforms_expand_using@, no_scope_means@, scope_set_mode@) {
            Some(m) => r matches Some(t) && t@ == m,
            None => r is None,
        },
{
    if !str_eq(platforms_expand_using, "union.platform_mapping") {
        return Some(cat3("unsupported wrapper_coverage.scope_semantics.platforms_expand_using=", platforms_expand_using, " (expected union.platform_mapping)"));
    }
    if !str_eq(no_scope_means, "all_expected_targets") {
        return Some(cat3("unsupported wrapper_coverage.scope_semantics.defaults.no_scope_means=", no_scope_means, " (expected all_expected_targets)"));
    }
    if !str_eq(scope_set_mode, "union") {
        return Some(cat3("unsupported wrapper_coverage.scope_semantics.scope_set_resolution.mode=", scope_set_mode, " (expected union)"));
    }
    None
}

// ---------------------------------------------------------------------------------------------
// The support-matrix publication

/// A problem the consistency check finds in the published support matrix: its code and message,
/// and the row it is about (agent, version, target; any of them may be empty).
pub struct PublicationIssue {
    pub code: &'static str,
    pub message: String,
    pub agent: String,
    pub version: String,
    pub target: String,
}

pub type IssueView = (Seq<char>, Seq<char>, Seq<char>, Seq<char>, Seq<char>);

pub open spec fn issue_view(i: PublicationIssue) -> IssueView {
    (i.code@, i.message@, i.agent@, i.version@, i.target@)
}

pub open spec fn issues_view(v: Seq<PublicationIssue>) -> Seq<IssueView> {
    v.map_values(|i: PublicationIssue| issue_view(i))
}

pub open spec fn matrix_rows_view(rows: Seq<(String, String, String)>) -> Seq<(Seq<char>, Seq<char>, Seq<char>)> {
    rows.map_values(|r: (String, String, String)| (r.0@, r.1@, r.2@))
}

/// The first row with the given agent, version and target.
pub open spec fn row_position(rows: Seq<(Seq<char>, Seq<char>, Seq<char>)>, key: (Seq<char>, Seq<char>, Seq<char>)) -> Option<int>
    decreases rows.len(),
{
    if rows.len() == 0 {
        None
    } else {
        match row_position(rows.drop_last(), key) {
            Some(i) => Some(i),
            None => if rows.last() == key { Some(rows.len() - 1) } else { None },
        }
    }
}

pub open spec fn nonempty_text(t: Seq<char>) -> Option<Seq<char>> {
    if t.len() == 0 { None } else { Some(t) }
}

/// The finding for one issue: it points at the first row it is about, or at `/rows` when no row
/// matches; it names the agent and the target when they are not empty; its details are the
/// version when a row matches, else the whole key as an object (members in key order).
pub open spec fn issue_finding(rel: Seq<char>, rows: Seq<(Seq<char>, Seq<char>, Seq<char>)>, i: IssueView) -> ViolationView {
    let pos = row_position(rows, (i.2, i.3, i.4));
    ViolationView {
        code: i.0,
        path: rel,
        json_pointer: Some(match pos {
            Some(k) => "/rows/"@ + decimal(k as nat),
            None => "/rows"@,
        }),
        message: i.1,
        unit: Some("support_matrix"@),
        command_path: None,
        key_or_name: nonempty_text(i.2),
        field: Some("rows"@),
        target_triple: nonempty_text(i.4),
        details: Some(if pos is Some {
            JsonTree::Str(i.3)
        } else {
            JsonTree::Object(seq![("agent"@, JsonTree::Str(i.2)), ("target"@, JsonTree::Str(i.4)), ("version"@, JsonTree::Str(i.3))])
        }),
    }
}

/// What the support-matrix publication check reports once the artifact has been read and parsed:
/// a schema version other than 1 alone, else one finding per consistency issue, in order.
pub open spec fn support_matrix_findings(rel: Seq<char>, schema_version: u64, rows: Seq<(Seq<char>, Seq<char>, Seq<char>)>, issues: Seq<IssueView>) -> Seq<ViolationView> {
    if schema_version != 1 {
        seq![ViolationView {
            code: "SUPPORT_MATRIX_SCHEMA_INVALID"@,
            path: rel,
            json_pointer: Some("/schema_version"@),
            message: "support_matrix/current.json.schema_version must be 1 (got "@ + decimal(schema_version as nat) + ")"@,
            unit: Some("support_matrix"@),
            command_path: None,
            key_or_name: None,
            field: Some("schema_version"@),
            target_triple: None,
            details: None,
        }]
    } else {
        issues.map_values(|i: IssueView| issue_finding(rel, rows, i))
    }
}

fn find_matrix_row(rows: &Vec<(String, String, String)>, agent: &str, version: &str, target: &str) -> (r: Option<usize>)
    ensures
        match row_position(matrix_rows_view(rows@), (agent@, version@, target@)) {
            Some(k) => r == Some(k as usize) && 0 <= k < rows.len(),
            None => r is None,
        },
{
    let ghost rv = matrix_rows_view(rows@);
    let ghost key = (agent@, version@, target@);
    let mut i: usize = 0;
    assert(rv.subrange(0, 0) =~= Seq::<(Seq<char>, Seq<char>, Seq<char>)>::empty());
    while i < rows.len()
        invariant
            i <= rows.len(),
            rv == matrix_rows_view(rows@),
            key == (agent@, version@, target@),
            row_position(rv.subrange(0, i as int), key) is None,
        decreases rows.len() - i,
    {
        let ghost sub = rv.subrange(0, i + 1);
        assert(sub.drop_last() =~= rv.subrange(0, i as int));
        assert(sub.last() == rv[i as int]);
        if str_eq(rows[i].0.as_str(), agent) && str_eq(rows[i].1.as_str(), version) && str_eq(rows[i].2.as_str(), target) {
            proof {
                lemma_position_extends(rv, key, i as int + 1);
            }
            return Some(i);
        }
        i = i + 1;
    }
    assert(rv.subrange(0, rows.len() as int) =~= rv);
    None
}

proof fn lemma_position_extends(rows: Seq<(Seq<char>, Seq<char>, Seq<char>)>, key: (Seq<char>, Seq<char>, Seq<char>), n: int)
    requires
        0 < n <= rows.len(),
        row_position(rows.subrange(0, n), key) is Some,
    ensures
        row_position(rows, key) == row_position(rows.subrange(0, n), key),
    decreases rows.len() - n,
{
    if n < rows.len() {
        assert(rows.subrange(0, n + 1).drop_last() =~= rows.subrange(0, n));
        lemma_position_extends(rows, key, n + 1);
    } else {
        assert(rows.subrange(0, n) =~= rows);
    }
}

fn text_if_nonempty(t: &str) -> (r: Option<String>)
    ensures
        opt_text(r) == nonempty_text(t@),
{
    if t.unicode_len() == 0 { None } else { Some(to_owned(t)) }
}

/// `validate_support_matrix_publication`, after the artifact at `artifact_rel` has been read and
/// parsed: its schema version, its rows as (agent, version, target), and the issues the
/// consistency check found in them, as findings.
pub fn support_matrix_issue_violations(
    artifact_rel: &str,
    schema_version: u64,
    rows: &Vec<(String, String, String)>,
    issues: &Vec<PublicationIssue>,
) -> (r: Vec<Violation>)
    ensures
        violations_view(r@) == support_matrix_findings(artifact_rel@, schema_version, matrix_rows_view(rows@), issues_view(issues@)),
{
    let mut out: Vec<Violation> = Vec::new();
    if schema_version != 1 {
        let mut m = to_owned("support_matrix/current.json.schema_version must be 1 (got ");
        let n = u64_text(schema_version);
        m.append(n.as_str());
        m.append(")");
        out.push(Violation {
            code: "SUPPORT_MATRIX_SCHEMA_INVALID",
            path: to_owned(artifact_rel),
            json_pointer: Some(to_owned("/schema_version")),
            message: m,
            unit: Some("support_matrix"),
            command_path: None,
            key_or_name: None,
            field: Some("schema_version"),
            target_triple: None,
            details: None,
        });
        assert(violations_view(out@) =~= support_matrix_findings(artifact_rel@, schema_version, matrix_rows_view(rows@), issues_view(issues@)));
        return out;
    }
    let ghost want = support_matrix_findings(artifact_rel@, schema_version, matrix_rows_view(rows@), issues_view(issues@));
    let mut k: usize = 0;
    while k < issues.len()
        invariant
            k <= issues.len(),
            schema_version == 1,
            want == support_matrix_findings(artifact_rel@, schema_version, matrix_rows_view(rows@), issues_view(issues@)),
            want.len() == issues.len(),
            violations_view(out@) == want.subrange(0, k as int),
        decreases issues.len() - k,
    {
        let issue = &issues[k];
        let pos = find_matrix_row(rows, issue.agent.as_str(), issue.version.as_str(), issue.target.as_str());
        let ghost want_k = issue_finding(artifact_rel@, matrix_rows_view(rows@), issue_view(*issue));
        let (pointer, details) = match pos {
            Some(p) => {
                let mut ptr = to_owned("/rows/");
                let n = u64_text(p as u64);
                ptr.append(n.as_str());
                let d = JsonValue::Str(to_owned(issue.version.as_str()));
                assert(row_position(matrix_rows_view(rows@), (issue.agent@, issue.version@, issue.target@)) == Some(p as int));
                assert((p as u64) as nat == p as nat);
                assert(Some(ptr@) == want_k.json_pointer);
                assert(Some(json_of(d)) == want_k.details);
                (ptr, d)
            },
            None => {
                let members = vec![
                    (to_owned("agent"), JsonValue::Str(to_owned(issue.agent.as_str()))),
                    (to_owned("target"), JsonValue::Str(to_owned(issue.target.as_str()))),
                    (to_owned("version"), JsonValue::Str(to_owned(issue.version.as_str()))),
                ];
                proof {
                    assert(crate::json_tree::members_of(members@) =~= seq![("agent"@, JsonTree::Str(issue.agent@)), ("target"@, JsonTree::Str(issue.target@)), ("version"@, JsonTree::Str(issue.version@))]) by {
                        reveal_with_fuel(crate::json_tree::members_of, 4);
                    }
                }
                let d = JsonValue::Object(members);
                assert(Some(json_of(d)) == want_k.details);
                (to_owned("/rows"), d)
            },
        };
        assert(Some(pointer@) == want_k.json_pointer);
        assert(Some(json_of(details)) == want_k.details);
        let finding = Violation {
            code: issue.code,
            path: to_owned(artifact_rel),
            json_pointer: Some(pointer),
            message: to_owned(issue.message.as_str()),
            unit: Some("support_matrix"),
            command_path: None,
            key_or_name: text_if_nonempty(issue.agent.as_str()),
            field: Some("rows"),
            target_triple: text_if_nonempty(issue.target.as_str()),
            details: Some(details),
        };
        let ghost before = violations_view(out@);
        out.push(finding);
        proof {
            assert(issues_view(issues@)[k as int] == issue_view(issues@[k as int]));
            assert(want[k as int] == issue_finding(artifact_rel@, matrix_rows_view(rows@), issue_view(issues@[k as int])));
            assert(want[k as int] == want_k);
            assert(violation_view(finding) == want_k);
            assert(violations_view(out@) =~= before.push(want[k as int]));
            assert(want.subrange(0, k + 1) =~= want.subrange(0, k as int).push(want[k as int]));
        }
        k = k + 1;
    }
    assert(want.subrange(0, issues.len() as int) =~= want);
    out
}

} // verus!

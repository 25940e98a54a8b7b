//! The approved-agent artifact: where it may live, and what it must say.
use vstd::prelude::*;

use crate::digest::{hex_encode, hex_lower, sha256_digest, spec_sha256};
use crate::paths::{normal_components, path_components};
use crate::text::{cat2, cat3, cat4, join, join_text, str_eq, to_owned, trim, trimmed, views};
use crate::toml_tree::{lemma_table_of, lemma_trees_of, parse_toml_document, spec_toml_document, table_of, tree_of, trees_of, TomlTree, TomlValue};

verus! {

pub const DOCS_NEXT_ROOT: &'static str = "docs/agents/lifecycle";
pub const APPROVAL_FILE_NAME: &'static str = "approved-agent.toml";
pub const GOVERNANCE_DIR_NAME: &'static str = "governance";
pub const FACTORY_VALIDATION_MODE: &'static str = "factory_validation";
pub const FRONTIER_EXPANSION_MODE: &'static str = "frontier_expansion";
pub const APPROVAL_ARTIFACT_VERSION: &'static str = "1";

/// Why an approval artifact was refused.
#[derive(Debug, Clone)]
pub enum ApprovalArtifactError {
    Validation(String),
    Internal(String),
}

impl ApprovalArtifactError {
    pub open spec fn text(&self) -> Seq<char> {
        match self {
            ApprovalArtifactError::Validation(m) => m@,
            ApprovalArtifactError::Internal(m) => m@,
        }
    }

    /// The text this error displays as.
    pub fn message(&self) -> (r: String)
        ensures
            r@ == self.text(),
    {
        match self {
            ApprovalArtifactError::Validation(m) => to_owned(m.as_str()),
            ApprovalArtifactError::Internal(m) => to_owned(m.as_str()),
        }
    }
}

/// `r` is `Ok` exactly when `s` is, with the same value under `f`, and a validation error with
/// the same text otherwise.
pub open spec fn is_validation(e: ApprovalArtifactError, m: Seq<char>) -> bool {
    e matches ApprovalArtifactError::Validation(x) && x@ == m
}

pub open spec fn text_result(r: Result<String, ApprovalArtifactError>, s: Result<Seq<char>, Seq<char>>) -> bool {
    match r {
        Ok(v) => s == Ok::<Seq<char>, Seq<char>>(v@),
        Err(e) => s is Err && is_validation(e, s->Err_0),
    }
}

pub open spec fn unit_result(r: Result<(), ApprovalArtifactError>, s: Result<(), Seq<char>>) -> bool {
    match r {
        Ok(_) => s is Ok,
        Err(e) => s is Err && is_validation(e, s->Err_0),
    }
}

// ---------------------------------------------------------------------------------------------
// Where the artifact lives

pub open spec fn invalid_approval_path_message(rel: Seq<char>) -> Seq<char> {
    "approval path `"@ + rel
        + "` must be repo-relative and match `docs/agents/lifecycle/<prefix>/governance/approved-agent.toml`"@
}

/// The onboarding pack an approval path belongs to:
/// `docs/agents/lifecycle/<prefix>/governance/approved-agent.toml`.
pub open spec fn approval_pack_prefix(rel: Seq<char>) -> Option<Seq<char>> {
    match path_components(rel) {
        None => None,
        Some(c) => if c.len() == 6 && c[0] == "docs"@ && c[1] == "agents"@ && c[2] == "lifecycle"@
            && c[4] == "governance"@ && c[5] == "approved-agent.toml"@ {
            Some(c[3])
        } else {
            None
        },
    }
}

pub fn invalid_approval_path(relative_path: &str) -> (r: ApprovalArtifactError)
    ensures
        is_validation(r, invalid_approval_path_message(relative_path@)),
{
    let mut m = cat2("approval path `", relative_path);
    m.append("` must be repo-relative and match `docs/agents/lifecycle/<prefix>/governance/approved-agent.toml`");
    ApprovalArtifactError::Validation(m)
}

/// The onboarding pack prefix an approval path names, or why it is not an approval path.
pub fn validate_approval_path(relative_path: &str) -> (r: Result<String, ApprovalArtifactError>)
    ensures
        text_result(r, match approval_pack_prefix(relative_path@) {
            Some(p) => Ok(p),
            None => Err(invalid_approval_path_message(relative_path@)),
        }),
{
    let components = match normal_components(relative_path) {
        Some(c) => c,
        None => {
            return Err(invalid_approval_path(relative_path));
        },
    };
    let ghost cv = components@.map_values(|s: String| s@);
    proof {
        assert(cv.len() == components.len());
    }
    if components.len() != 6 {
        return Err(invalid_approval_path(relative_path));
    }
    proof {
        assert(cv[0] == components@[0]@ && cv[1] == components@[1]@ && cv[2] == components@[2]@);
        assert(cv[3] == components@[3]@ && cv[4] == components@[4]@ && cv[5] == components@[5]@);
    }
    if !(str_eq(components[0].as_str(), "docs") && str_eq(components[1].as_str(), "agents")
        && str_eq(components[2].as_str(), "lifecycle") && str_eq(components[4].as_str(), GOVERNANCE_DIR_NAME)
        && str_eq(components[5].as_str(), APPROVAL_FILE_NAME)) {
        return Err(invalid_approval_path(relative_path));
    }
    Ok(to_owned(components[3].as_str()))
}

// ---------------------------------------------------------------------------------------------
// Reading fields

pub open spec fn artifact_label(rel: Seq<char>) -> Seq<char> {
    "approval artifact `"@ + rel + "`"@
}

/// `TableLike::get`: the value under `key`.
pub open spec fn table_get(t: Seq<(Seq<char>, TomlTree)>, key: Seq<char>) -> Option<TomlTree>
    decreases t.len(),
{
    if t.len() == 0 {
        None
    } else if t[0].0 == key {
        Some(t[0].1)
    } else {
        table_get(t.drop_first(), key)
    }
}

pub fn get_value<'a>(table: &'a Vec<(String, TomlValue)>, key: &str) -> (r: Option<&'a TomlValue>)
    ensures
        match r {
            Some(v) => table_get(table_of(table@), key@) == Some(tree_of(*v)),
            None => table_get(table_of(table@), key@) is None,
        },
{
    let ghost tv = table_of(table@);
    proof {
        lemma_table_of(table@);
        assert(tv.subrange(0, tv.len() as int) =~= tv);
    }
    let mut i: usize = 0;
    while i < table.len()
        invariant
            i <= table.len(),
            tv == table_of(table@),
            tv.len() == table.len(),
            forall|k: int| 0 <= k < table.len() ==> #[trigger] tv[k] == (table@[k].0@, tree_of(table@[k].1)),
            table_get(tv, key@) == table_get(tv.subrange(i as int, tv.len() as int), key@),
        decreases table.len() - i,
    {
        let ghost rest = tv.subrange(i as int, tv.len() as int);
        assert(rest.drop_first() =~= tv.subrange(i + 1, tv.len() as int));
        assert(rest[0] == tv[i as int]);
        if str_eq(table[i].0.as_str(), key) {
            return Some(&table[i].1);
        }
        i = i + 1;
    }
    None
}

pub open spec fn missing_field(rel: Seq<char>, key: Seq<char>) -> Seq<char> {
    "approval artifact `"@ + rel + "` is missing required field `"@ + key + "`"@
}

/// `approval artifact `<rel>` field `<key>` <problem>`, where `tail` is the closing backtick
/// and the problem.
pub open spec fn field_problem(rel: Seq<char>, key: Seq<char>, tail: Seq<char>) -> Seq<char> {
    "approval artifact `"@ + rel + "` field `"@ + key + tail
}

/// A required, non-blank string field, trimmed.
pub open spec fn required_string_spec(t: Seq<(Seq<char>, TomlTree)>, key: Seq<char>, rel: Seq<char>) -> Result<Seq<char>, Seq<char>> {
    match table_get(t, key) {
        None => Err(missing_field(rel, key)),
        Some(TomlTree::Str(s)) => if trim(s).len() == 0 {
            Err(field_problem(rel, key, "` must not be empty"@))
        } else {
            Ok(trim(s))
        },
        Some(_) => Err(field_problem(rel, key, "` must be a string"@)),
    }
}

/// An optional string field, trimmed; a blank one counts as absent.
pub open spec fn optional_string_spec(t: Seq<(Seq<char>, TomlTree)>, key: Seq<char>, rel: Seq<char>) -> Result<Option<Seq<char>>, Seq<char>> {
    match table_get(t, key) {
        None => Ok(None),
        Some(TomlTree::Str(s)) => if trim(s).len() == 0 {
            Ok(None)
        } else {
            Ok(Some(trim(s)))
        },
        Some(_) => Err(field_problem(rel, key, "` must be a string"@)),
    }
}

pub open spec fn required_bool_spec(t: Seq<(Seq<char>, TomlTree)>, key: Seq<char>, rel: Seq<char>) -> Result<bool, Seq<char>> {
    match table_get(t, key) {
        None => Err(missing_field(rel, key)),
        Some(TomlTree::Bool(b)) => Ok(b),
        Some(_) => Err(field_problem(rel, key, "` must be a bool"@)),
    }
}

/// The strings of an array, each trimmed and non-blank; the first bad element is the answer.
pub open spec fn array_strings(items: Seq<TomlTree>, key: Seq<char>, rel: Seq<char>) -> Result<Seq<Seq<char>>, Seq<char>>
    decreases items.len(),
{
    if items.len() == 0 {
        Ok(Seq::empty())
    } else {
        match array_strings(items.drop_last(), key, rel) {
            Err(e) => Err(e),
            Ok(done) => match items.last() {
                TomlTree::Str(s) => if trim(s).len() == 0 {
                    Err(field_problem(rel, key, "` must not contain empty strings"@))
                } else {
                    Ok(done.push(trim(s)))
                },
                _ => Err(field_problem(rel, key, "` must contain only strings"@)),
            },
        }
    }
}

pub open spec fn string_array_spec(t: Seq<(Seq<char>, TomlTree)>, key: Seq<char>, rel: Seq<char>, required: bool) -> Result<Seq<Seq<char>>, Seq<char>> {
    match table_get(t, key) {
        None => if required {
            Err(missing_field(rel, key))
        } else {
            Ok(Seq::empty())
        },
        Some(TomlTree::Array(items)) => array_strings(items, key, rel),
        Some(_) => Err(field_problem(rel, key, "` must be an array of strings"@)),
    }
}

pub fn required_string(table: &Vec<(String, TomlValue)>, key: &str, relative_path: &str) -> (r: Result<String, ApprovalArtifactError>)
    ensures
        text_result(r, required_string_spec(table_of(table@), key@, relative_path@)),
{
    match get_value(table, key) {
        None => {
            let mut m = cat3("approval artifact `", relative_path, "` is missing required field `");
            m.append(key);
            m.append("`");
            Err(ApprovalArtifactError::Validation(m))
        },
        Some(TomlValue::Str(s)) => {
            let t = trimmed(s.as_str());
            if t.as_str().unicode_len() == 0 {
                let mut m = cat3("approval artifact `", relative_path, "` field `");
                m.append(key);
                m.append("` must not be empty");
                Err(ApprovalArtifactError::Validation(m))
            } else {
                Ok(t)
            }
        },
        Some(_) => {
            let mut m = cat3("approval artifact `", relative_path, "` field `");
            m.append(key);
            m.append("` must be a string");
            Err(ApprovalArtifactError::Validation(m))
        },
    }
}

pub fn optional_string(table: &Vec<(String, TomlValue)>, key: &str, relative_path: &str) -> (r: Result<Option<String>, ApprovalArtifactError>)
    ensures
        match r {
            Ok(Some(v)) => optional_string_spec(table_of(table@), key@, relative_path@) == Ok::<Option<Seq<char>>, Seq<char>>(Some(v@)),
            Ok(None) => optional_string_spec(table_of(table@), key@, relative_path@) == Ok::<Option<Seq<char>>, Seq<char>>(None),
            Err(e) => optional_string_spec(table_of(table@), key@, relative_path@) is Err
                && is_validation(e, optional_string_spec(table_of(table@), key@, relative_path@)->Err_0),
        },
{
    match get_value(table, key) {
        None => Ok(None),
        Some(TomlValue::Str(s)) => {
            let t = trimmed(s.as_str());
            if t.as_str().unicode_len() == 0 {
                Ok(None)
            } else {
                Ok(Some(t))
            }
        },
        Some(_) => {
            let mut m = cat3("approval artifact `", relative_path, "` field `");
            m.append(key);
            m.append("` must be a string");
            Err(ApprovalArtifactError::Validation(m))
        },
    }
}

pub fn required_bool(table: &Vec<(String, TomlValue)>, key: &str, relative_path: &str) -> (r: Result<bool, ApprovalArtifactError>)
    ensures
        match r {
            Ok(b) => required_bool_spec(table_of(table@), key@, relative_path@) == Ok::<bool, Seq<char>>(b),
            Err(e) => required_bool_spec(table_of(table@), key@, relative_path@) is Err
                && is_validation(e, required_bool_spec(table_of(table@), key@, relative_path@)->Err_0),
        },
{
    match get_value(table, key) {
        None => {
            let mut m = cat3("approval artifact `", relative_path, "` is missing required field `");
            m.append(key);
            m.append("`");
            Err(ApprovalArtifactError::Validation(m))
        },
        Some(TomlValue::Bool(b)) => {
            assert(tree_of(TomlValue::Bool(*b)) == TomlTree::Bool(*b));
            Ok(*b)
        },
        Some(_) => {
            let mut m = cat3("approval artifact `", relative_path, "` field `");
            m.append(key);
            m.append("` must be a bool");
            Err(ApprovalArtifactError::Validation(m))
        },
    }
}

pub open spec fn strings_result(r: Result<Vec<String>, ApprovalArtifactError>, s: Result<Seq<Seq<char>>, Seq<char>>) -> bool {
    match r {
        Ok(v) => s == Ok::<Seq<Seq<char>>, Seq<char>>(views(v@)),
        Err(e) => s is Err && is_validation(e, s->Err_0),
    }
}

fn collect_strings(items: &Vec<TomlValue>, key: &str, relative_path: &str) -> (r: Result<Vec<String>, ApprovalArtifactError>)
    ensures
        strings_result(r, array_strings(trees_of(items@), key@, relative_path@)),
{
    let ghost tv = trees_of(items@);
    proof {
        lemma_trees_of(items@);
        assert(tv.subrange(0, 0) =~= Seq::<TomlTree>::empty());
    }
    let mut out: Vec<String> = Vec::new();
    assert(views(out@) =~= Seq::<Seq<char>>::empty());
    let mut i: usize = 0;
    while i < items.len()
        invariant
            i <= items.len(),
            tv == trees_of(items@),
            tv.len() == items.len(),
            forall|k: int| 0 <= k < items.len() ==> #[trigger] tv[k] == tree_of(items@[k]),
            array_strings(tv.subrange(0, i as int), key@, relative_path@) == Ok::<Seq<Seq<char>>, Seq<char>>(views(out@)),
        decreases items.len() - i,
    {
        let ghost pre = tv.subrange(0, i as int);
        let ghost post = tv.subrange(0, i + 1);
        proof {
            assert(post.drop_last() =~= pre);
            assert(post.last() == tree_of(items@[i as int]));
        }
        match &items[i] {
            TomlValue::Str(s) => {
                let t = trimmed(s.as_str());
                if t.as_str().unicode_len() == 0 {
                    let mut m = cat3("approval artifact `", relative_path, "` field `");
                    m.append(key);
                    m.append("` must not contain empty strings");
                    proof {
                        lemma_array_strings_prefix_err(tv, key@, relative_path@, i + 1);
                        assert(tv.subrange(0, tv.len() as int) =~= tv);
                    }
                    return Err(ApprovalArtifactError::Validation(m));
                }
                let ghost before = views(out@);
                out.push(t);
                proof {
                    assert(views(out@) =~= before.push(trim(s@)));
                }
            },
            _ => {
                let mut m = cat3("approval artifact `", relative_path, "` field `");
                m.append(key);
                m.append("` must contain only strings");
                proof {
                    lemma_array_strings_prefix_err(tv, key@, relative_path@, i + 1);
                    assert(tv.subrange(0, tv.len() as int) =~= tv);
                }
                return Err(ApprovalArtifactError::Validation(m));
            },
        }
        i = i + 1;
    }
    proof {
        assert(tv.subrange(0, items.len() as int) =~= tv);
    }
    Ok(out)
}

proof fn lemma_array_strings_prefix_err(items: Seq<TomlTree>, key: Seq<char>, rel: Seq<char>, i: int)
    requires
        0 <= i <= items.len(),
        array_strings(items.subrange(0, i), key, rel) is Err,
    ensures
        array_strings(items, key, rel) == array_strings(items.subrange(0, i), key, rel),
    decreases items.len() - i,
{
    if i < items.len() {
        assert(items.subrange(0, i + 1).drop_last() =~= items.subrange(0, i));
        lemma_array_strings_prefix_err(items, key, rel, i + 1);
    } else {
        assert(items.subrange(0, i) =~= items);
    }
}

pub fn string_array(table: &Vec<(String, TomlValue)>, key: &str, relative_path: &str, required: bool) -> (r: Result<Vec<String>, ApprovalArtifactError>)
    ensures
        strings_result(r, string_array_spec(table_of(table@), key@, relative_path@, required)),
{
    match get_value(table, key) {
        None => {
            if required {
                let mut m = cat3("approval artifact `", relative_path, "` is missing required field `");
                m.append(key);
                m.append("`");
                return Err(ApprovalArtifactError::Validation(m));
            }
            let v: Vec<String> = Vec::new();
            assert(views(v@) =~= Seq::<Seq<char>>::empty());
            Ok(v)
        },
        Some(TomlValue::Array(items)) => collect_strings(items, key, relative_path),
        Some(_) => {
            let mut m = cat3("approval artifact `", relative_path, "` field `");
            m.append(key);
            m.append("` must be an array of strings");
            Err(ApprovalArtifactError::Validation(m))
        },
    }
}


// ---------------------------------------------------------------------------------------------
// Capability gates

/// The keys of a table element; an element that is not a table has none.
pub open spec fn entry_table(t: TomlTree) -> Seq<(Seq<char>, TomlTree)> {
    match t {
        TomlTree::Table(e) => e,
        _ => Seq::empty(),
    }
}

/// `<capability_id>:<targets joined by ,>` for each `[[target_gated_capabilities]]` entry.
pub open spec fn target_gate_list(items: Seq<TomlTree>, rel: Seq<char>) -> Result<Seq<Seq<char>>, Seq<char>>
    decreases items.len(),
{
    if items.len() == 0 {
        Ok(Seq::empty())
    } else {
        match target_gate_list(items.drop_last(), rel) {
            Err(e) => Err(e),
            Ok(done) => {
                let et = entry_table(items.last());
                match required_string_spec(et, "capability_id"@, rel) {
                    Err(e) => Err(e),
                    Ok(cap) => match string_array_spec(et, "targets"@, rel, true) {
                        Err(e) => Err(e),
                        Ok(ts) => Ok(done.push(cap + ":"@ + join(ts, ","@))),
                    },
                }
            },
        }
    }
}

/// `<capability_id>:<config_key>`, then `:<targets joined by ,>` when there are targets, for each
/// `[[config_gated_capabilities]]` entry.
pub open spec fn config_gate_list(items: Seq<TomlTree>, rel: Seq<char>) -> Result<Seq<Seq<char>>, Seq<char>>
    decreases items.len(),
{
    if items.len() == 0 {
        Ok(Seq::empty())
    } else {
        match config_gate_list(items.drop_last(), rel) {
            Err(e) => Err(e),
            Ok(done) => {
                let et = entry_table(items.last());
                match required_string_spec(et, "capability_id"@, rel) {
                    Err(e) => Err(e),
                    Ok(cap) => match required_string_spec(et, "config_key"@, rel) {
                        Err(e) => Err(e),
                        Ok(key) => match string_array_spec(et, "targets"@, rel, false) {
                            Err(e) => Err(e),
                            Ok(ts) => Ok(done.push(if ts.len() == 0 {
                                cap + ":"@ + key
                            } else {
                                cap + ":"@ + key + ":"@ + join(ts, ","@)
                            })),
                        },
                    },
                }
            },
        }
    }
}

pub open spec fn target_gate_entries_spec(t: Seq<(Seq<char>, TomlTree)>, rel: Seq<char>) -> Result<Seq<Seq<char>>, Seq<char>> {
    match table_get(t, "target_gated_capabilities"@) {
        None => Ok(Seq::empty()),
        Some(TomlTree::TableArray(items)) => target_gate_list(items, rel),
        Some(_) => Err("approval artifact `"@ + rel + "` field `descriptor.target_gated_capabilities` must be an array of tables"@),
    }
}

pub open spec fn config_gate_entries_spec(t: Seq<(Seq<char>, TomlTree)>, rel: Seq<char>) -> Result<Seq<Seq<char>>, Seq<char>> {
    match table_get(t, "config_gated_capabilities"@) {
        None => Ok(Seq::empty()),
        Some(TomlTree::TableArray(items)) => config_gate_list(items, rel),
        Some(_) => Err("approval artifact `"@ + rel + "` field `descriptor.config_gated_capabilities` must be an array of tables"@),
    }
}

proof fn lemma_gate_prefix_err(items: Seq<TomlTree>, rel: Seq<char>, i: int, targets: bool)
    requires
        0 <= i <= items.len(),
        targets ==> target_gate_list(items.subrange(0, i), rel) is Err,
        !targets ==> config_gate_list(items.subrange(0, i), rel) is Err,
    ensures
        targets ==> target_gate_list(items, rel) == target_gate_list(items.subrange(0, i), rel),
        !targets ==> config_gate_list(items, rel) == config_gate_list(items.subrange(0, i), rel),
    decreases items.len() - i,
{
    if i < items.len() {
        assert(items.subrange(0, i + 1).drop_last() =~= items.subrange(0, i));
        lemma_gate_prefix_err(items, rel, i + 1, targets);
    } else {
        assert(items.subrange(0, i) =~= items);
    }
}

/// A value equal to `v`, as a tree.
fn copy_toml(v: &TomlValue) -> (r: TomlValue)
    ensures
        tree_of(r) == tree_of(*v),
    decreases v,
{
    match v {
        TomlValue::Str(s) => TomlValue::Str(to_owned(s.as_str())),
        TomlValue::Int(n) => TomlValue::Int(*n),
        TomlValue::Bool(b) => TomlValue::Bool(*b),
        TomlValue::Other => TomlValue::Other,
        TomlValue::Array(items) => {
            let mut out: Vec<TomlValue> = Vec::new();
            let mut i: usize = 0;
            while i < items.len()
                invariant
                    i <= items.len(),
                    *v == TomlValue::Array(*items),
                    trees_of(out@) == trees_of(items@.subrange(0, i as int)),
                decreases items.len() - i,
            {
                assert(decreases_to!(*v => (*v)->Array_0));
                assert(decreases_to!(*items => items@));
                assert(decreases_to!(items@ => items@[i as int]));
                assert(decreases_to!(*v => items@[i as int]));
                let c = copy_toml(&items[i]);
                proof {
                    let sub = items@.subrange(0, i + 1);
                    assert(sub.drop_last() =~= items@.subrange(0, i as int));
                    assert(sub.last() == items@[i as int]);
                }
                let ghost before = out@;
                out.push(c);
                assert(out@.drop_last() =~= before);
                i = i + 1;
            }
            assert(items@.subrange(0, items.len() as int) =~= items@);
            TomlValue::Array(out)
        },
        TomlValue::TableArray(items) => {
            let mut out: Vec<TomlValue> = Vec::new();
            let mut i: usize = 0;
            while i < items.len()
                invariant
                    i <= items.len(),
                    *v == TomlValue::TableArray(*items),
                    trees_of(out@) == trees_of(items@.subrange(0, i as int)),
                decreases items.len() - i,
            {
                assert(decreases_to!(*v => (*v)->TableArray_0));
                assert(decreases_to!(*items => items@));
                assert(decreases_to!(items@ => items@[i as int]));
                assert(decreases_to!(*v => items@[i as int]));
                let c = copy_toml(&items[i]);
                proof {
                    let sub = items@.subrange(0, i + 1);
                    assert(sub.drop_last() =~= items@.subrange(0, i as int));
                    assert(sub.last() == items@[i as int]);
                }
                let ghost before = out@;
                out.push(c);
                assert(out@.drop_last() =~= before);
                i = i + 1;
            }
            assert(items@.subrange(0, items.len() as int) =~= items@);
            TomlValue::TableArray(out)
        },
        TomlValue::Table(entries) => {
            let mut out: Vec<(String, TomlValue)> = Vec::new();
            let mut i: usize = 0;
            while i < entries.len()
                invariant
                    i <= entries.len(),
                    *v == TomlValue::Table(*entries),
                    table_of(out@) == table_of(entries@.subrange(0, i as int)),
                decreases entries.len() - i,
            {
                let k = to_owned(entries[i].0.as_str());
                assert(decreases_to!(*v => (*v)->Table_0));
                assert(decreases_to!(*entries => entries@));
                assert(decreases_to!(entries@ => entries@[i as int]));
                assert(decreases_to!(entries@[i as int] => entries@[i as int].1));
                assert(decreases_to!(*v => entries@[i as int].1));
                let c = copy_toml(&entries[i].1);
                proof {
                    let sub = entries@.subrange(0, i + 1);
                    assert(sub.drop_last() =~= entries@.subrange(0, i as int));
                    assert(sub.last() == entries@[i as int]);
                }
                let ghost before = out@;
                out.push((k, c));
                assert(out@.drop_last() =~= before);
                i = i + 1;
            }
            assert(entries@.subrange(0, entries.len() as int) =~= entries@);
            TomlValue::Table(out)
        },
    }
}

/// The entries of an array element read as a table: a table's own entries, none for any other
/// value.
fn element_table(v: &TomlValue) -> (r: Vec<(String, TomlValue)>)
    ensures
        table_of(r@) == entry_table(tree_of(*v)),
{
    match copy_toml(v) {
        TomlValue::Table(entries) => entries,
        _ => {
            let empty: Vec<(String, TomlValue)> = Vec::new();
            assert(table_of(empty@) =~= Seq::<(Seq<char>, TomlTree)>::empty());
            empty
        },
    }
}

pub fn target_gate_entries(table: &Vec<(String, TomlValue)>, relative_path: &str) -> (r: Result<Vec<String>, ApprovalArtifactError>)
    ensures
        strings_result(r, target_gate_entries_spec(table_of(table@), relative_path@)),
{
    let items = match get_value(table, "target_gated_capabilities") {
        None => {
            let v: Vec<String> = Vec::new();
            assert(views(v@) =~= Seq::<Seq<char>>::empty());
            return Ok(v);
        },
        Some(TomlValue::TableArray(items)) => items,
        Some(_) => {
            let mut m = cat2("approval artifact `", relative_path);
            m.append("` field `descriptor.target_gated_capabilities` must be an array of tables");
            return Err(ApprovalArtifactError::Validation(m));
        },
    };
    let ghost tv = trees_of(items@);
    proof {
        lemma_trees_of(items@);
        assert(tv.subrange(0, 0) =~= Seq::<TomlTree>::empty());
    }
    let mut out: Vec<String> = Vec::new();
    assert(views(out@) =~= Seq::<Seq<char>>::empty());
    let mut i: usize = 0;
    while i < items.len()
        invariant
            i <= items.len(),
            tv == trees_of(items@),
            tv.len() == items.len(),
            forall|k: int| 0 <= k < items.len() ==> #[trigger] tv[k] == tree_of(items@[k]),
            target_gate_list(tv.subrange(0, i as int), relative_path@) == Ok::<Seq<Seq<char>>, Seq<char>>(views(out@)),
            table_get(table_of(table@), "target_gated_capabilities"@) == Some(TomlTree::TableArray(tv)),
        decreases items.len() - i,
    {
        let ghost pre = tv.subrange(0, i as int);
        let ghost post = tv.subrange(0, i + 1);
        proof {
            assert(post.drop_last() =~= pre);
            assert(post.last() == tree_of(items@[i as int]));
        }
        let other: Vec<(String, TomlValue)>;
        let et = match &items[i] {
            TomlValue::Table(et) => et,
            _ => {
                other = element_table(&items[i]);
                &other
            },
        };
        proof {
            assert(table_of(et@) == entry_table(post.last()));
        }
        let cap = match required_string(et, "capability_id", relative_path) {
            Ok(c) => c,
            Err(e) => {
                proof {
                    lemma_gate_prefix_err(tv, relative_path@, i + 1, true);
                    assert(tv.subrange(0, tv.len() as int) =~= tv);
                }
                return Err(e);
            },
        };
        let targets = match string_array(et, "targets", relative_path, true) {
            Ok(t) => t,
            Err(e) => {
                proof {
                    lemma_gate_prefix_err(tv, relative_path@, i + 1, true);
                    assert(tv.subrange(0, tv.len() as int) =~= tv);
                }
                return Err(e);
            },
        };
        let mut line = cap;
        line.append(":");
        let joined = join_text(&targets, ",");
        line.append(joined.as_str());
        let ghost before = views(out@);
        out.push(line);
        proof {
            assert(views(out@) =~= before.push(line@));
        }
        i = i + 1;
    }
    proof {
        assert(tv.subrange(0, items.len() as int) =~= tv);
    }
    Ok(out)
}

pub fn config_gate_entries(table: &Vec<(String, TomlValue)>, relative_path: &str) -> (r: Result<Vec<String>, ApprovalArtifactError>)
    ensures
        strings_result(r, config_gate_entries_spec(table_of(table@), relative_path@)),
{
    let items = match get_value(table, "config_gated_capabilities") {
        None => {
            let v: Vec<String> = Vec::new();
            assert(views(v@) =~= Seq::<Seq<char>>::empty());
            return Ok(v);
        },
        Some(TomlValue::TableArray(items)) => items,
        Some(_) => {
            let mut m = cat2("approval artifact `", relative_path);
            m.append("` field `descriptor.config_gated_capabilities` must be an array of tables");
            return Err(ApprovalArtifactError::Validation(m));
        },
    };
    let ghost tv = trees_of(items@);
    proof {
        lemma_trees_of(items@);
        assert(tv.subrange(0, 0) =~= Seq::<TomlTree>::empty());
    }
    let mut out: Vec<String> = Vec::new();
    assert(views(out@) =~= Seq::<Seq<char>>::empty());
    let mut i: usize = 0;
    while i < items.len()
        invariant
            i <= items.len(),
            tv == trees_of(items@),
            tv.len() == items.len(),
            forall|k: int| 0 <= k < items.len() ==> #[trigger] tv[k] == tree_of(items@[k]),
            config_gate_list(tv.subrange(0, i as int), relative_path@) == Ok::<Seq<Seq<char>>, Seq<char>>(views(out@)),
            table_get(table_of(table@), "config_gated_capabilities"@) == Some(TomlTree::TableArray(tv)),
        decreases items.len() - i,
    {
        let ghost pre = tv.subrange(0, i as int);
        let ghost post = tv.subrange(0, i + 1);
        proof {
            assert(post.drop_last() =~= pre);
            assert(post.last() == tree_of(items@[i as int]));
        }
        let other: Vec<(String, TomlValue)>;
        let et = match &items[i] {
            TomlValue::Table(et) => et,
            _ => {
                other = element_table(&items[i]);
                &other
            },
        };
        proof {
            assert(table_of(et@) == entry_table(post.last()));
        }
        let cap = match required_string(et, "capability_id", relative_path) {
            Ok(c) => c,
            Err(e) => {
                proof {
                    lemma_gate_prefix_err(tv, relative_path@, i + 1, false);
                    assert(tv.subrange(0, tv.len() as int) =~= tv);
                }
                return Err(e);
            },
        };
        let key = match required_string(et, "config_key", relative_path) {
            Ok(c) => c,
            Err(e) => {
                proof {
                    lemma_gate_prefix_err(tv, relative_path@, i + 1, false);
                    assert(tv.subrange(0, tv.len() as int) =~= tv);
                }
                return Err(e);
            },
        };
        let targets = match string_array(et, "targets", relative_path, false) {
            Ok(t) => t,
            Err(e) => {
                proof {
                    lemma_gate_prefix_err(tv, relative_path@, i + 1, false);
                    assert(tv.subrange(0, tv.len() as int) =~= tv);
                }
                return Err(e);
            },
        };
        let mut line = cap;
        line.append(":");
        line.append(key.as_str());
        if targets.len() > 0 {
            line.append(":");
            let joined = join_text(&targets, ",");
            line.append(joined.as_str());
        }
        let ghost before = views(out@);
        out.push(line);
        proof {
            assert(views(out@) =~= before.push(line@));
        }
        i = i + 1;
    }
    proof {
        assert(tv.subrange(0, items.len() as int) =~= tv);
    }
    Ok(out)
}


// ---------------------------------------------------------------------------------------------
// Values

/// 7 to 40 lowercase hexadecimal characters.
pub open spec fn is_commit_value(v: Seq<char>) -> bool {
    7 <= v.len() <= 40 && forall|i: int| 0 <= i < v.len() ==> ('0' <= #[trigger] v[i] <= '9' || 'a' <= v[i] <= 'f')
}

pub open spec fn commit_message(path: Seq<char>, field: Seq<char>) -> Seq<char> {
    path + ": `"@ + field + "` must be 7-40 lowercase hex characters"@
}

pub fn validate_commit_value(path: &str, field_name: &str, value: &str) -> (r: Result<(), ApprovalArtifactError>)
    ensures
        unit_result(r, if is_commit_value(value@) {
            Ok(())
        } else {
            Err(commit_message(path@, field_name@))
        }),
{
    let n = value.unicode_len();
    let mut ok = 7 <= n && n <= 40;
    if ok {
        let mut i: usize = 0;
        while i < n
            invariant
                n == value@.len(),
                i <= n,
                ok == (forall|k: int| 0 <= k < i ==> ('0' <= #[trigger] value@[k] <= '9' || 'a' <= value@[k] <= 'f')),
            decreases n - i,
        {
            let c = value.get_char(i);
            if !(('0' <= c && c <= '9') || ('a' <= c && c <= 'f')) {
                ok = false;
            }
            i = i + 1;
        }
    }
    if !ok {
        let mut m = cat3(path, ": `", field_name);
        m.append("` must be 7-40 lowercase hex characters");
        return Err(ApprovalArtifactError::Validation(m));
    }
    Ok(())
}

/// What `time` reports when `value` is not an RFC 3339 timestamp; `None` when it is one.
pub uninterp spec fn rfc3339_error(value: Seq<char>) -> Option<Seq<char>>;

/// `time::OffsetDateTime::parse(value, &Rfc3339)`: `None` when the value parses, else the
/// parse error's message. Which values parse is named by `rfc3339_error`.
#[verifier::external_body]
fn rfc3339_parse_error(value: &str) -> (r: Option<String>)
    ensures
        match r {
            Some(e) => rfc3339_error(value@) == Some(e@),
            None => rfc3339_error(value@) is None,
        },
{
    match time::OffsetDateTime::parse(value, &time::format_description::well_known::Rfc3339) {
        Ok(_) => None,
        Err(err) => Some(err.to_string()),
    }
}

pub open spec fn rfc3339_message(path: Seq<char>, field: Seq<char>, err: Seq<char>) -> Seq<char> {
    path + ": `"@ + field + "` must be RFC3339 ("@ + err + ")"@
}

pub fn validate_rfc3339_value(path: &str, field_name: &str, value: &str) -> (r: Result<(), ApprovalArtifactError>)
    ensures
        unit_result(r, match rfc3339_error(value@) {
            None => Ok(()),
            Some(err) => Err(rfc3339_message(path@, field_name@, err)),
        }),
{
    match rfc3339_parse_error(value) {
        None => Ok(()),
        Some(err) => {
            let mut m = cat3(path, ": `", field_name);
            m.append("` must be RFC3339 (");
            m.append(err.as_str());
            m.append(")");
            Err(ApprovalArtifactError::Validation(m))
        },
    }
}

pub open spec fn version_message(rel: Seq<char>, version: Seq<char>) -> Seq<char> {
    "approval artifact `"@ + rel + "` has unsupported `artifact_version` `"@ + version + "`; expected `1`"@
}

pub fn validate_artifact_version(relative_path: &str, artifact_version: &str) -> (r: Result<(), ApprovalArtifactError>)
    ensures
        unit_result(r, if artifact_version@ == APPROVAL_ARTIFACT_VERSION@ {
            Ok(())
        } else {
            Err(version_message(relative_path@, artifact_version@))
        }),
{
    if !str_eq(artifact_version, APPROVAL_ARTIFACT_VERSION) {
        let mut m = cat3("approval artifact `", relative_path, "` has unsupported `artifact_version` `");
        m.append(artifact_version);
        m.append("`; expected `1`");
        return Err(ApprovalArtifactError::Validation(m));
    }
    Ok(())
}


// ---------------------------------------------------------------------------------------------
// The document

/// The agent an approval artifact approves, as the artifact describes it.
#[derive(Debug, Clone)]
pub struct ApprovalDescriptor {
    pub agent_id: String,
    pub display_name: String,
    pub crate_path: String,
    pub backend_module: String,
    pub manifest_root: String,
    pub package_name: String,
    pub canonical_targets: Vec<String>,
    pub wrapper_coverage_binding_kind: String,
    pub wrapper_coverage_source_path: String,
    pub always_on_capabilities: Vec<String>,
    pub target_gated_capabilities: Vec<String>,
    pub config_gated_capabilities: Vec<String>,
    pub backend_extensions: Vec<String>,
    pub support_matrix_enabled: bool,
    pub capability_matrix_enabled: bool,
    pub capability_matrix_target: Option<String>,
    pub docs_release_track: String,
    pub onboarding_pack_prefix: String,
}

/// The plain content of a descriptor.
pub struct DescriptorView {
    pub agent_id: Seq<char>,
    pub display_name: Seq<char>,
    pub crate_path: Seq<char>,
    pub backend_module: Seq<char>,
    pub manifest_root: Seq<char>,
    pub package_name: Seq<char>,
    pub canonical_targets: Seq<Seq<char>>,
    pub wrapper_coverage_binding_kind: Seq<char>,
    pub wrapper_coverage_source_path: Seq<char>,
    pub always_on_capabilities: Seq<Seq<char>>,
    pub target_gated_capabilities: Seq<Seq<char>>,
    pub config_gated_capabilities: Seq<Seq<char>>,
    pub backend_extensions: Seq<Seq<char>>,
    pub support_matrix_enabled: bool,
    pub capability_matrix_enabled: bool,
    pub capability_matrix_target: Option<Seq<char>>,
    pub docs_release_track: Seq<char>,
    pub onboarding_pack_prefix: Seq<char>,
}

impl ApprovalDescriptor {
    pub open spec fn view(self) -> DescriptorView {
        DescriptorView {
            agent_id: self.agent_id@,
            display_name: self.display_name@,
            crate_path: self.crate_path@,
            backend_module: self.backend_module@,
            manifest_root: self.manifest_root@,
            package_name: self.package_name@,
            canonical_targets: views(self.canonical_targets@),
            wrapper_coverage_binding_kind: self.wrapper_coverage_binding_kind@,
            wrapper_coverage_source_path: self.wrapper_coverage_source_path@,
            always_on_capabilities: views(self.always_on_capabilities@),
            target_gated_capabilities: views(self.target_gated_capabilities@),
            config_gated_capabilities: views(self.config_gated_capabilities@),
            backend_extensions: views(self.backend_extensions@),
            support_matrix_enabled: self.support_matrix_enabled,
            capability_matrix_enabled: self.capability_matrix_enabled,
            capability_matrix_target: match self.capability_matrix_target {
                Some(t) => Some(t@),
                None => None,
            },
            docs_release_track: self.docs_release_track@,
            onboarding_pack_prefix: self.onboarding_pack_prefix@,
        }
    }
}

/// A loaded approval artifact.
#[derive(Debug, Clone)]
pub struct ApprovalArtifact {
    pub relative_path: String,
    pub canonical_path: String,
    /// SHA-256 of the artifact's bytes, in lowercase hex.
    pub sha256: String,
    pub descriptor: ApprovalDescriptor,
}

/// The failure of a step, if it failed.
pub open spec fn err_of<T>(r: Result<T, Seq<char>>) -> Option<Seq<char>> {
    match r {
        Ok(_) => None,
        Err(e) => Some(e),
    }
}

/// The first failure among steps taken in order.
pub open spec fn first_err(steps: Seq<Option<Seq<char>>>) -> Option<Seq<char>>
    decreases steps.len(),
{
    if steps.len() == 0 {
        None
    } else if steps[0] is Some {
        steps[0]
    } else {
        first_err(steps.drop_first())
    }
}

/// The fields of the descriptor after `agent_id` and `onboarding_pack_prefix`, in the order the
/// artifact is read.
pub open spec fn descriptor_rest(d: Seq<(Seq<char>, TomlTree)>, rel: Seq<char>, agent_id: Seq<char>, prefix: Seq<char>) -> Result<DescriptorView, Seq<char>> {
    let display_name = required_string_spec(d, "display_name"@, rel);
    let crate_path = required_string_spec(d, "crate_path"@, rel);
    let backend_module = required_string_spec(d, "backend_module"@, rel);
    let manifest_root = required_string_spec(d, "manifest_root"@, rel);
    let package_name = required_string_spec(d, "package_name"@, rel);
    let canonical_targets = string_array_spec(d, "canonical_targets"@, rel, true);
    let binding_kind = required_string_spec(d, "wrapper_coverage_binding_kind"@, rel);
    let source_path = required_string_spec(d, "wrapper_coverage_source_path"@, rel);
    let always_on = string_array_spec(d, "always_on_capabilities"@, rel, false);
    let target_gated = target_gate_entries_spec(d, rel);
    let config_gated = config_gate_entries_spec(d, rel);
    let extensions = string_array_spec(d, "backend_extensions"@, rel, false);
    let support = required_bool_spec(d, "support_matrix_enabled"@, rel);
    let capability = required_bool_spec(d, "capability_matrix_enabled"@, rel);
    let matrix_target = optional_string_spec(d, "capability_matrix_target"@, rel);
    let track = required_string_spec(d, "docs_release_track"@, rel);
    let steps = seq![
        err_of(display_name), err_of(crate_path), err_of(backend_module), err_of(manifest_root),
        err_of(package_name), err_of(canonical_targets), err_of(binding_kind), err_of(source_path),
        err_of(always_on), err_of(target_gated), err_of(config_gated), err_of(extensions),
        err_of(support), err_of(capability), err_of(matrix_target), err_of(track),
    ];
    match first_err(steps) {
        Some(e) => Err(e),
        None => Ok(DescriptorView {
            agent_id,
            display_name: display_name->Ok_0,
            crate_path: crate_path->Ok_0,
            backend_module: backend_module->Ok_0,
            manifest_root: manifest_root->Ok_0,
            package_name: package_name->Ok_0,
            canonical_targets: canonical_targets->Ok_0,
            wrapper_coverage_binding_kind: binding_kind->Ok_0,
            wrapper_coverage_source_path: source_path->Ok_0,
            always_on_capabilities: always_on->Ok_0,
            target_gated_capabilities: target_gated->Ok_0,
            config_gated_capabilities: config_gated->Ok_0,
            backend_extensions: extensions->Ok_0,
            support_matrix_enabled: support->Ok_0,
            capability_matrix_enabled: capability->Ok_0,
            capability_matrix_target: matrix_target->Ok_0,
            docs_release_track: track->Ok_0,
            onboarding_pack_prefix: prefix,
        }),
    }
}

pub open spec fn comparison_ref_message(rel: Seq<char>) -> Seq<char> {
    "approval artifact `"@ + rel
        + "` field `comparison_ref` must be a repo-relative file path with only normal path components"@
}

/// The artifact's version and the file it was compared against, read first; the file itself is
/// then checked on disk before the rest is read.
pub open spec fn comparison_ref_spec(root: Seq<(Seq<char>, TomlTree)>, rel: Seq<char>) -> Result<Seq<char>, Seq<char>> {
    match required_string_spec(root, "artifact_version"@, rel) {
        Err(e) => Err(e),
        Ok(version) => if version != "1"@ {
            Err(version_message(rel, version))
        } else {
            match required_string_spec(root, "comparison_ref"@, rel) {
                Err(e) => Err(e),
                Ok(c) => if path_components(c) is None {
                    Err(comparison_ref_message(rel))
                } else {
                    Ok(c)
                },
            }
        },
    }
}

pub open spec fn selection_mode_message(rel: Seq<char>, mode: Seq<char>) -> Seq<char> {
    "approval artifact `"@ + rel + "` has invalid `selection_mode` `"@ + mode
        + "`; expected `factory_validation` or `frontier_expansion`"@
}

pub open spec fn override_message(rel: Seq<char>) -> Seq<char> {
    "approval artifact `"@ + rel
        + "` must include `override_reason` when `recommended_agent_id` and `approved_agent_id` differ"@
}

/// The descriptor table, or no keys when it is absent or not a table.
pub open spec fn descriptor_table(root: Seq<(Seq<char>, TomlTree)>) -> Seq<(Seq<char>, TomlTree)> {
    match table_get(root, "descriptor"@) {
        Some(TomlTree::Table(d)) => d,
        _ => Seq::empty(),
    }
}

pub open spec fn descriptor_presence(root: Seq<(Seq<char>, TomlTree)>, rel: Seq<char>) -> Option<Seq<char>> {
    match table_get(root, "descriptor"@) {
        None => Some("approval artifact `"@ + rel + "` is missing required table `descriptor`"@),
        Some(TomlTree::Table(_)) => None,
        Some(_) => Some("approval artifact `"@ + rel + "` field `descriptor` must be a table"@),
    }
}

pub open spec fn agent_mismatch_message(rel: Seq<char>, agent_id: Seq<char>, approved: Seq<char>) -> Seq<char> {
    "approval artifact `"@ + rel + "` has `descriptor.agent_id` `"@ + agent_id
        + "` that does not match `approved_agent_id` `"@ + approved + "`"@
}

pub open spec fn prefix_mismatch_message(rel: Seq<char>, prefix: Seq<char>, path_prefix: Seq<char>) -> Seq<char> {
    "approval artifact `"@ + rel + "` belongs to onboarding_pack_prefix `"@ + prefix + "` instead of `"@
        + path_prefix + "`"@
}

/// Everything after the comparison file's check: the approval fields, then the descriptor.
pub open spec fn approval_rest(root: Seq<(Seq<char>, TomlTree)>, rel: Seq<char>, path_prefix: Seq<char>) -> Result<DescriptorView, Seq<char>> {
    let mode = required_string_spec(root, "selection_mode"@, rel);
    let recommended = required_string_spec(root, "recommended_agent_id"@, rel);
    let approved = required_string_spec(root, "approved_agent_id"@, rel);
    let commit = required_string_spec(root, "approval_commit"@, rel);
    let recorded_at = required_string_spec(root, "approval_recorded_at"@, rel);
    let override_reason = optional_string_spec(root, "override_reason"@, rel);
    let d = descriptor_table(root);
    let agent_id = required_string_spec(d, "agent_id"@, rel);
    let prefix = required_string_spec(d, "onboarding_pack_prefix"@, rel);
    let steps = seq![
        err_of(mode),
        if mode->Ok_0 != "factory_validation"@ && mode->Ok_0 != "frontier_expansion"@ {
            Some(selection_mode_message(rel, mode->Ok_0))
        } else {
            None
        },
        err_of(recommended),
        err_of(approved),
        err_of(commit),
        if !is_commit_value(commit->Ok_0) { Some(commit_message(rel, "approval_commit"@)) } else { None },
        err_of(recorded_at),
        match rfc3339_error(recorded_at->Ok_0) {
            Some(err) => Some(rfc3339_message(rel, "approval_recorded_at"@, err)),
            None => None,
        },
        err_of(override_reason),
        if recommended->Ok_0 != approved->Ok_0 && override_reason->Ok_0 is None {
            Some(override_message(rel))
        } else {
            None
        },
        descriptor_presence(root, rel),
        err_of(agent_id),
        if agent_id->Ok_0 != approved->Ok_0 {
            Some(agent_mismatch_message(rel, agent_id->Ok_0, approved->Ok_0))
        } else {
            None
        },
        err_of(prefix),
        if prefix->Ok_0 != path_prefix { Some(prefix_mismatch_message(rel, prefix->Ok_0, path_prefix)) } else { None },
    ];
    match first_err(steps) {
        Some(e) => Err(e),
        None => descriptor_rest(d, rel, agent_id->Ok_0, prefix->Ok_0),
    }
}

/// The approval artifact's text as a TOML document: its top-level table, or the parser's
/// message as a validation error.
pub fn parse_approval_toml(relative_path: &str, text: &str) -> (r: Result<Vec<(String, TomlValue)>, ApprovalArtifactError>)
    ensures
        match spec_toml_document(text@) {
            Ok(t) => r matches Ok(root) && table_of(root@) == t,
            Err(e) => r is Err && is_validation(r->Err_0, "parse approval artifact `"@ + relative_path@ + "`: "@ + e),
        },
{
    match parse_toml_document(text) {
        Ok(root) => Ok(root),
        Err(e) => Err(ApprovalArtifactError::Validation(cat4("parse approval artifact `", relative_path, "`: ", e.as_str()))),
    }
}

/// The comparison file an approval artifact names, after its version has been checked: the one
/// file the caller must find on disk before the rest of the artifact is read.
pub fn approval_comparison_ref(root: &Vec<(String, TomlValue)>, relative_path: &str) -> (r: Result<String, ApprovalArtifactError>)
    ensures
        text_result(r, comparison_ref_spec(table_of(root@), relative_path@)),
{
    let version = required_string(root, "artifact_version", relative_path)?;
    validate_artifact_version(relative_path, version.as_str())?;
    let comparison_ref = required_string(root, "comparison_ref", relative_path)?;
    if normal_components(comparison_ref.as_str()).is_none() {
        let mut m = cat2("approval artifact `", relative_path);
        m.append("` field `comparison_ref` must be a repo-relative file path with only normal path components");
        return Err(ApprovalArtifactError::Validation(m));
    }
    Ok(comparison_ref)
}


/// The descriptor fields after `agent_id` and `onboarding_pack_prefix`.
fn read_descriptor_rest(d: &Vec<(String, TomlValue)>, relative_path: &str, agent_id: String, prefix: String) -> (r: Result<ApprovalDescriptor, ApprovalArtifactError>)
    ensures
        match descriptor_rest(table_of(d@), relative_path@, agent_id@, prefix@) {
            Err(e) => r is Err && is_validation(r->Err_0, e),
            Ok(v) => r is Ok && r->Ok_0.view() == v,
        },
{
    proof {
        reveal_with_fuel(first_err, 17);
    }
    let display_name = required_string(d, "display_name", relative_path)?;
    let crate_path = required_string(d, "crate_path", relative_path)?;
    let backend_module = required_string(d, "backend_module", relative_path)?;
    let manifest_root = required_string(d, "manifest_root", relative_path)?;
    let package_name = required_string(d, "package_name", relative_path)?;
    let canonical_targets = string_array(d, "canonical_targets", relative_path, true)?;
    let binding_kind = required_string(d, "wrapper_coverage_binding_kind", relative_path)?;
    let source_path = required_string(d, "wrapper_coverage_source_path", relative_path)?;
    let always_on = string_array(d, "always_on_capabilities", relative_path, false)?;
    let target_gated = target_gate_entries(d, relative_path)?;
    let config_gated = config_gate_entries(d, relative_path)?;
    let extensions = string_array(d, "backend_extensions", relative_path, false)?;
    let support = required_bool(d, "support_matrix_enabled", relative_path)?;
    let capability = required_bool(d, "capability_matrix_enabled", relative_path)?;
    let matrix_target = optional_string(d, "capability_matrix_target", relative_path)?;
    let track = required_string(d, "docs_release_track", relative_path)?;
    Ok(ApprovalDescriptor {
        agent_id,
        display_name,
        crate_path,
        backend_module,
        manifest_root,
        package_name,
        canonical_targets,
        wrapper_coverage_binding_kind: binding_kind,
        wrapper_coverage_source_path: source_path,
        always_on_capabilities: always_on,
        target_gated_capabilities: target_gated,
        config_gated_capabilities: config_gated,
        backend_extensions: extensions,
        support_matrix_enabled: support,
        capability_matrix_enabled: capability,
        capability_matrix_target: matrix_target,
        docs_release_track: track,
        onboarding_pack_prefix: prefix,
    })
}


/// Read an approval artifact's fields, given its top-level table, where it lives, the onboarding
/// pack its path names, what the disk said of its comparison file (`None` when that file was
/// found), and its bytes.
///
/// The caller reads `approval_comparison_ref` first and checks that file on disk; the checks
/// here run in the order the artifact is read, so the first problem found is the one reported.
pub fn parse_approval_document(
    root: &Vec<(String, TomlValue)>,
    relative_path: &str,
    canonical_path: &str,
    path_pack_prefix: &str,
    comparison_ref_problem: Option<String>,
    bytes: &[u8],
) -> (r: Result<ApprovalArtifact, ApprovalArtifactError>)
    ensures
        match comparison_ref_spec(table_of(root@), relative_path@) {
            Err(e) => r is Err && is_validation(r->Err_0, e),
            Ok(_) => match comparison_ref_problem {
                Some(p) => r is Err && is_validation(r->Err_0, p@),
                None => match approval_rest(table_of(root@), relative_path@, path_pack_prefix@) {
                    Err(e) => r is Err && is_validation(r->Err_0, e),
                    Ok(v) => r matches Ok(a) && {
                        &&& a.descriptor.view() == v
                        &&& a.relative_path@ == relative_path@
                        &&& a.canonical_path@ == canonical_path@
                        &&& a.sha256@ == hex_lower(spec_sha256(bytes@))
                    },
                },
            },
        },
{
    proof {
        reveal_with_fuel(first_err, 16);
    }
    approval_comparison_ref(root, relative_path)?;
    if let Some(problem) = comparison_ref_problem {
        return Err(ApprovalArtifactError::Validation(problem));
    }
    let mode = required_string(root, "selection_mode", relative_path)?;
    if !str_eq(mode.as_str(), FACTORY_VALIDATION_MODE) && !str_eq(mode.as_str(), FRONTIER_EXPANSION_MODE) {
        let mut m = cat3("approval artifact `", relative_path, "` has invalid `selection_mode` `");
        m.append(mode.as_str());
        m.append("`; expected `factory_validation` or `frontier_expansion`");
        return Err(ApprovalArtifactError::Validation(m));
    }
    let recommended = required_string(root, "recommended_agent_id", relative_path)?;
    let approved = required_string(root, "approved_agent_id", relative_path)?;
    let commit = required_string(root, "approval_commit", relative_path)?;
    validate_commit_value(relative_path, "approval_commit", commit.as_str())?;
    let recorded_at = required_string(root, "approval_recorded_at", relative_path)?;
    validate_rfc3339_value(relative_path, "approval_recorded_at", recorded_at.as_str())?;
    let override_reason = optional_string(root, "override_reason", relative_path)?;
    if !str_eq(recommended.as_str(), approved.as_str()) && override_reason.is_none() {
        let mut m = cat2("approval artifact `", relative_path);
        m.append("` must include `override_reason` when `recommended_agent_id` and `approved_agent_id` differ");
        return Err(ApprovalArtifactError::Validation(m));
    }
    let d = match get_value(root, "descriptor") {
        None => {
            let mut m = cat2("approval artifact `", relative_path);
            m.append("` is missing required table `descriptor`");
            return Err(ApprovalArtifactError::Validation(m));
        },
        Some(TomlValue::Table(d)) => d,
        Some(_) => {
            let mut m = cat2("approval artifact `", relative_path);
            m.append("` field `descriptor` must be a table");
            return Err(ApprovalArtifactError::Validation(m));
        },
    };
    assert(table_of(d@) == descriptor_table(table_of(root@)));
    let agent_id = required_string(d, "agent_id", relative_path)?;
    if !str_eq(agent_id.as_str(), approved.as_str()) {
        let mut m = cat3("approval artifact `", relative_path, "` has `descriptor.agent_id` `");
        m.append(agent_id.as_str());
        m.append("` that does not match `approved_agent_id` `");
        m.append(approved.as_str());
        m.append("`");
        return Err(ApprovalArtifactError::Validation(m));
    }
    let prefix = required_string(d, "onboarding_pack_prefix", relative_path)?;
    if !str_eq(prefix.as_str(), path_pack_prefix) {
        let mut m = cat3("approval artifact `", relative_path, "` belongs to onboarding_pack_prefix `");
        m.append(prefix.as_str());
        m.append("` instead of `");
        m.append(path_pack_prefix);
        m.append("`");
        return Err(ApprovalArtifactError::Validation(m));
    }
    let digest = sha256_digest(bytes);
    let sha256 = hex_encode(digest.as_slice());
    let descriptor = read_descriptor_rest(d, relative_path, agent_id, prefix)?;
    Ok(ApprovalArtifact {
        relative_path: to_owned(relative_path),
        canonical_path: to_owned(canonical_path),
        sha256,
        descriptor,
    })
}

/// Read an approval artifact from its text: the text parsed as TOML (`parse_approval_toml`),
/// then read as an artifact (`parse_approval_document`) whose digest is that of the very bytes
/// the text is made of, so the digest recorded is always the digest of what was parsed.
pub fn parse_approval_text(
    relative_path: &str,
    canonical_path: &str,
    path_pack_prefix: &str,
    comparison_ref_problem: Option<String>,
    text: &str,
) -> (r: Result<ApprovalArtifact, ApprovalArtifactError>)
    ensures
        match spec_toml_document(text@) {
            Err(e) => r is Err && is_validation(r->Err_0, "parse approval artifact `"@ + relative_path@ + "`: "@ + e),
            Ok(t) => match comparison_ref_spec(t, relative_path@) {
                Err(e) => r is Err && is_validation(r->Err_0, e),
                Ok(_) => match comparison_ref_problem {
                    Some(p) => r is Err && is_validation(r->Err_0, p@),
                    None => match approval_rest(t, relative_path@, path_pack_prefix@) {
                        Err(e) => r is Err && is_validation(r->Err_0, e),
                        Ok(v) => r matches Ok(a) && {
                            &&& a.descriptor.view() == v
                            &&& a.relative_path@ == relative_path@
                            &&& a.canonical_path@ == canonical_path@
                            &&& a.sha256@ == hex_lower(spec_sha256(vstd::utf8::encode_utf8(text@)))
                        },
                    },
                },
            },
        },
{
    let root = parse_approval_toml(relative_path, text)?;
    parse_approval_document(&root, relative_path, canonical_path, path_pack_prefix, comparison_ref_problem, text.as_bytes())
}

} // verus!

//! The support-surface audit: which upstream surfaces an agent's wrapper does not yet support,
//! and which of those the support-debt inventory already accounts for.
use vstd::prelude::*;

use crate::json_tree::{get_member, json_of, jsons_of, lemma_jsons_of, member, members_of, parse_json, spec_json, JsonTree, JsonValue};
use crate::strset::{lemma_lex_asymmetric, lemma_lex_irreflexive, lemma_lex_total, lemma_lex_transitive, lex_lt, text_lt};
use crate::text::{cat2, cat3, cat4, has_prefix, join, join_text, str_eq, to_owned, views};
use crate::support_authorization::{applicable, authorize_gap, derefs, sort_by_row_id, uncovered, DebtInventoryRow as GrantRow, TargetedGap};

verus! {

pub const NON_TUI_SUPPORT_DEBT_PATH: &'static str = "docs/specs/unified-agent-api/non-tui-support-debt.md";
pub const SUPPORT_MATRIX_DOC_PATH: &'static str = "docs/specs/unified-agent-api/support-matrix.md";

/// What a surface is: its kind, the command it belongs to, and its own name.
#[derive(Debug, Clone, PartialEq, Eq, PartialOrd, Ord)]
pub struct SurfaceIdentity {
    pub surface_kind: String,
    pub command_path: String,
    pub surface_id: String,
}

/// An identity as plain text: (kind, command path, id).
pub type IdView = (Seq<char>, Seq<char>, Seq<char>);

impl SurfaceIdentity {
    pub open spec fn view(self) -> IdView {
        (self.surface_kind@, self.command_path@, self.surface_id@)
    }

    pub fn new(surface_kind: String, command_path: String, surface_id: String) -> (r: SurfaceIdentity)
        ensures
            r.view() == (surface_kind@, command_path@, surface_id@),
    {
        SurfaceIdentity { surface_kind, command_path, surface_id }
    }

    /// `surface_kind=<kind> command_path=<path> surface_id=<id>`.
    pub fn describe(&self) -> (r: String)
        ensures
            r@ == "surface_kind="@ + self.surface_kind@ + " command_path="@ + self.command_path@ + " surface_id="@
                + self.surface_id@,
    {
        let mut r = cat3("surface_kind=", self.surface_kind.as_str(), " command_path=");
        r.append(self.command_path.as_str());
        r.append(" surface_id=");
        r.append(self.surface_id.as_str());
        r
    }

    /// A copy with the same text.
    pub fn duplicate(&self) -> (r: SurfaceIdentity)
        ensures
            r.view() == self.view(),
    {
        SurfaceIdentity {
            surface_kind: to_owned(self.surface_kind.as_str()),
            command_path: to_owned(self.command_path.as_str()),
            surface_id: to_owned(self.surface_id.as_str()),
        }
    }
}

/// The order identities sort in: by kind, then command path, then id.
pub open spec fn id_lt(a: IdView, b: IdView) -> bool {
    lex_lt(a.0, b.0) || (a.0 == b.0 && (lex_lt(a.1, b.1) || (a.1 == b.1 && lex_lt(a.2, b.2))))
}

pub proof fn lemma_id_irreflexive(a: IdView)
    ensures
        !id_lt(a, a),
{
    lemma_lex_irreflexive(a.0);
    lemma_lex_irreflexive(a.1);
    lemma_lex_irreflexive(a.2);
}

pub proof fn lemma_id_total(a: IdView, b: IdView)
    ensures
        a == b || id_lt(a, b) || id_lt(b, a),
{
    lemma_lex_total(a.0, b.0);
    lemma_lex_total(a.1, b.1);
    lemma_lex_total(a.2, b.2);
}

pub proof fn lemma_id_transitive(a: IdView, b: IdView, c: IdView)
    requires
        id_lt(a, b),
        id_lt(b, c),
    ensures
        id_lt(a, c),
{
    if lex_lt(a.0, b.0) && lex_lt(b.0, c.0) {
        lemma_lex_transitive(a.0, b.0, c.0);
    } else if a.0 == b.0 && b.0 == c.0 {
        if lex_lt(a.1, b.1) && lex_lt(b.1, c.1) {
            lemma_lex_transitive(a.1, b.1, c.1);
        } else if a.1 == b.1 && b.1 == c.1 {
            lemma_lex_transitive(a.2, b.2, c.2);
        }
    }
}

fn identity_lt(a: &SurfaceIdentity, b: &SurfaceIdentity) -> (r: bool)
    ensures
        r == id_lt(a.view(), b.view()),
{
    if !str_eq(a.surface_kind.as_str(), b.surface_kind.as_str()) {
        return text_lt(a.surface_kind.as_str(), b.surface_kind.as_str());
    }
    proof {
        lemma_lex_irreflexive(a.surface_kind@);
    }
    if !str_eq(a.command_path.as_str(), b.command_path.as_str()) {
        return text_lt(a.command_path.as_str(), b.command_path.as_str());
    }
    proof {
        lemma_lex_irreflexive(a.command_path@);
    }
    text_lt(a.surface_id.as_str(), b.surface_id.as_str())
}

pub(crate) fn identity_eq(a: &SurfaceIdentity, b: &SurfaceIdentity) -> (r: bool)
    ensures
        r == (a.view() == b.view()),
{
    str_eq(a.surface_kind.as_str(), b.surface_kind.as_str()) && str_eq(a.command_path.as_str(), b.command_path.as_str())
        && str_eq(a.surface_id.as_str(), b.surface_id.as_str())
}

pub open spec fn id_views(v: Seq<SurfaceIdentity>) -> Seq<IdView> {
    v.map_values(|i: SurfaceIdentity| i.view())
}

/// Strictly ascending identities: the order a `BTreeSet<SurfaceIdentity>` iterates in.
pub open spec fn ids_ascending(s: Seq<IdView>) -> bool {
    forall|i: int, j: int| 0 <= i < j < s.len() ==> id_lt(#[trigger] s[i], #[trigger] s[j])
}

/// Add an identity to an ascending set of identities (`BTreeSet::insert`).
pub fn insert_identity(set: &mut Vec<SurfaceIdentity>, v: SurfaceIdentity)
    requires
        ids_ascending(id_views(old(set)@)),
    ensures
        ids_ascending(id_views(final(set)@)),
        id_views(final(set)@).to_set() == id_views(old(set)@).to_set().insert(v.view()),
{
    let ghost old_views = id_views(set@);
    let mut i: usize = 0;
    while i < set.len() && identity_lt(&set[i], &v)
        invariant
            i <= set.len(),
            set@ == old(set)@,
            old_views == id_views(set@),
            ids_ascending(old_views),
            forall|k: int| 0 <= k < i ==> id_lt(#[trigger] old_views[k], v.view()),
        decreases set.len() - i,
    {
        i = i + 1;
    }
    if i < set.len() && identity_eq(&set[i], &v) {
        assert(old_views[i as int] == v.view());
        assert(id_views(set@).to_set().insert(v.view()) =~= id_views(set@).to_set());
        return;
    }
    proof {
        if i < set.len() {
            assert(old_views[i as int] == set@[i as int].view());
            lemma_id_total(old_views[i as int], v.view());
        }
    }
    let ghost vv = v.view();
    set.insert(i, v);
    proof {
        let nv = id_views(set@);
        assert(nv =~= old_views.insert(i as int, vv));
        assert forall|a: int, b: int| 0 <= a < b < nv.len() implies id_lt(#[trigger] nv[a], #[trigger] nv[b]) by {
            if a < i && b == i {
            } else if a < i && b > i {
            } else if a == i && b > i {
                if b - 1 > i {
                    lemma_id_transitive(vv, old_views[i as int], old_views[b - 1]);
                }
            } else {
            }
        }
        assert(nv.to_set() =~= old_views.to_set().insert(vv)) by {
            assert forall|x: IdView| nv.to_set().contains(x) implies old_views.to_set().insert(vv).contains(x) by {
                let k = choose|k: int| 0 <= k < nv.len() && nv[k] == x;
                if k < i {
                    assert(old_views[k] == x);
                } else if k > i {
                    assert(old_views[k - 1] == x);
                }
            }
            assert forall|x: IdView| old_views.to_set().insert(vv).contains(x) implies nv.to_set().contains(x) by {
                if x == vv {
                    assert(nv[i as int] == x);
                } else {
                    let k = choose|k: int| 0 <= k < old_views.len() && old_views[k] == x;
                    if k < i {
                        assert(nv[k] == x);
                    } else {
                        assert(nv[k + 1] == x);
                    }
                }
            }
        }
    }
}

/// Whether an ascending set holds an identity.
pub fn contains_identity(set: &Vec<SurfaceIdentity>, v: &SurfaceIdentity) -> (r: bool)
    ensures
        r == id_views(set@).contains(v.view()),
{
    let mut i: usize = 0;
    while i < set.len()
        invariant
            i <= set.len(),
            forall|k: int| 0 <= k < i ==> #[trigger] set@[k].view() != v.view(),
        decreases set.len() - i,
    {
        if identity_eq(&set[i], v) {
            assert(id_views(set@)[i as int] == v.view());
            return true;
        }
        i = i + 1;
    }
    assert forall|k: int| 0 <= k < id_views(set@).len() implies id_views(set@)[k] != v.view() by {
        assert(id_views(set@)[k] == set@[k].view());
    }
    false
}


#[derive(Debug, Clone, PartialEq, Eq)]
pub struct EvidenceBackedSurface {
    pub surface_kind: String,
    pub command_path: String,
    pub surface_id: String,
    pub evidence_ref: String,
}

impl EvidenceBackedSurface {
    /// The identity of the surface this row is about.
    pub fn identity(&self) -> (r: SurfaceIdentity)
        ensures
            r.view() == (self.surface_kind@, self.command_path@, self.surface_id@),
    {
        SurfaceIdentity::new(
            to_owned(self.surface_kind.as_str()),
            to_owned(self.command_path.as_str()),
            to_owned(self.surface_id.as_str()),
        )
    }
}

#[derive(Debug, Clone, PartialEq, Eq)]
pub struct DebtBackedSurface {
    pub surface_kind: String,
    pub command_path: String,
    pub surface_id: String,
    pub debt_ref: String,
}

impl DebtBackedSurface {
    /// The identity of the surface this row is about.
    pub fn identity(&self) -> (r: SurfaceIdentity)
        ensures
            r.view() == (self.surface_kind@, self.command_path@, self.surface_id@),
    {
        SurfaceIdentity::new(
            to_owned(self.surface_kind.as_str()),
            to_owned(self.command_path.as_str()),
            to_owned(self.surface_id.as_str()),
        )
    }
}

#[derive(Debug, Clone, PartialEq, Eq)]
pub struct UnmatchedDebtSurface {
    pub surface_kind: String,
    pub command_path: String,
    pub surface_id: String,
    pub debt_ref: String,
    pub observation: String,
}

impl UnmatchedDebtSurface {
    /// The identity of the surface this row is about.
    pub fn identity(&self) -> (r: SurfaceIdentity)
        ensures
            r.view() == (self.surface_kind@, self.command_path@, self.surface_id@),
    {
        SurfaceIdentity::new(
            to_owned(self.surface_kind.as_str()),
            to_owned(self.command_path.as_str()),
            to_owned(self.surface_id.as_str()),
        )
    }
}

#[derive(Debug, Clone, PartialEq, Eq)]
pub struct EligibleSurface {
    pub surface_kind: String,
    pub command_path: String,
    pub surface_id: String,
    pub eligibility_reason: String,
}

impl EligibleSurface {
    /// The identity of the surface this row is about.
    pub fn identity(&self) -> (r: SurfaceIdentity)
        ensures
            r.view() == (self.surface_kind@, self.command_path@, self.surface_id@),
    {
        SurfaceIdentity::new(
            to_owned(self.surface_kind.as_str()),
            to_owned(self.command_path.as_str()),
            to_owned(self.surface_id.as_str()),
        )
    }
}

#[derive(Debug, Clone, PartialEq, Eq)]
pub struct RequiredUplift {
    pub surface_kind: String,
    pub command_path: String,
    pub surface_id: String,
    pub reason: String,
    pub required_writes: Vec<String>,
}

impl RequiredUplift {
    /// The identity of the surface this row is about.
    pub fn identity(&self) -> (r: SurfaceIdentity)
        ensures
            r.view() == (self.surface_kind@, self.command_path@, self.surface_id@),
    {
        SurfaceIdentity::new(
            to_owned(self.surface_kind.as_str()),
            to_owned(self.command_path.as_str()),
            to_owned(self.surface_id.as_str()),
        )
    }
}

#[derive(Debug, Clone, PartialEq, Eq)]
pub struct DeferredGap {
    pub surface_kind: String,
    pub command_path: String,
    pub surface_id: String,
    pub defer_reason: String,
    pub blocking_follow_on: Option<String>,
}

impl DeferredGap {
    /// The identity of the surface this row is about.
    pub fn identity(&self) -> (r: SurfaceIdentity)
        ensures
            r.view() == (self.surface_kind@, self.command_path@, self.surface_id@),
    {
        SurfaceIdentity::new(
            to_owned(self.surface_kind.as_str()),
            to_owned(self.command_path.as_str()),
            to_owned(self.surface_id.as_str()),
        )
    }
}

#[derive(Debug, Clone, PartialEq, Eq)]
pub struct PublicationImpact {
    pub surface_kind: String,
    pub command_path: String,
    pub surface_id: String,
    pub surface_doc: String,
}

impl PublicationImpact {
    /// The identity of the surface this row is about.
    pub fn identity(&self) -> (r: SurfaceIdentity)
        ensures
            r.view() == (self.surface_kind@, self.command_path@, self.surface_id@),
    {
        SurfaceIdentity::new(
            to_owned(self.surface_kind.as_str()),
            to_owned(self.command_path.as_str()),
            to_owned(self.surface_id.as_str()),
        )
    }
}

/// The audit of one agent's support surfaces.
#[derive(Debug, Clone, PartialEq, Eq)]
pub struct SupportSurfaceAudit {
    pub required: bool,
    pub surface_kinds: Vec<String>,
    pub excluded_surface_kinds: Vec<String>,
    pub allowed_deferrals: Vec<String>,
    pub pre_run_debt_count: usize,
    pub expected_post_run_debt_count: usize,
    pub discovered_upstream_surface: Vec<EvidenceBackedSurface>,
    pub unmatched_debt_surface: Vec<UnmatchedDebtSurface>,
    pub preexisting_unsupported_surface: Vec<DebtBackedSurface>,
    pub eligible_preexisting_surface: Vec<EligibleSurface>,
    pub missing_wrapper_support: Vec<SurfaceIdentity>,
    pub missing_backend_support: Vec<SurfaceIdentity>,
    pub required_uplifts_this_run: Vec<RequiredUplift>,
    pub deferred_preexisting_gaps: Vec<DeferredGap>,
    pub publication_impacts: Vec<PublicationImpact>,
}

/// One row of the support-debt inventory.
#[derive(Debug, Clone, PartialEq, Eq)]
pub struct DebtInventoryRow {
    pub row_id: String,
    pub agent_id: String,
    pub surface_kind: String,
    pub command_path: String,
    pub surface_id: String,
    pub current_reason: String,
    pub blocker_class: String,
    pub owner: String,
    pub milestone: String,
    pub follow_on: String,
    pub evidence_ref: String,
}

impl DebtInventoryRow {
    pub open spec fn id_view(self) -> IdView {
        (self.surface_kind@, self.command_path@, self.surface_id@)
    }

    pub fn identity(&self) -> (r: SurfaceIdentity)
        ensures
            r.view() == self.id_view(),
    {
        SurfaceIdentity::new(
            to_owned(self.surface_kind.as_str()),
            to_owned(self.command_path.as_str()),
            to_owned(self.surface_id.as_str()),
        )
    }

    /// Where the row lives: the inventory's path, `#`, and the row id.
    pub fn debt_ref(&self) -> (r: String)
        ensures
            r@ == NON_TUI_SUPPORT_DEBT_PATH@ + "#"@ + self.row_id@,
    {
        cat3(NON_TUI_SUPPORT_DEBT_PATH, "#", self.row_id.as_str())
    }
}

pub open spec fn surface_kind_list() -> Seq<Seq<char>> {
    seq!["commands"@, "subcommands"@, "flags"@, "global_flags"@, "positional_args"@]
}

pub open spec fn excluded_kind_list() -> Seq<Seq<char>> {
    seq!["tui_only"@]
}

pub open spec fn allowed_deferral_list() -> Seq<Seq<char>> {
    seq![
        "upstream_not_machine_exposed"@,
        "platform_evidence_missing"@,
        "requires_new_infra"@,
        "requires_new_architectural_seam"@,
        "outside_registry_maintenance_write_envelope"@,
    ]
}

pub open spec fn required_write_list() -> Seq<Seq<char>> {
    seq!["wrapper"@, "backend"@, "manifest"@, "publication"@, "packet_docs"@]
}

/// The blocker classes a debt row may defer on.
pub fn allowed_deferrals() -> (r: Vec<String>)
    ensures
        views(r@) == allowed_deferral_list(),
{
    let v = vec![
        to_owned("upstream_not_machine_exposed"),
        to_owned("platform_evidence_missing"),
        to_owned("requires_new_infra"),
        to_owned("requires_new_architectural_seam"),
        to_owned("outside_registry_maintenance_write_envelope"),
    ];
    assert(views(v@) =~= allowed_deferral_list());
    v
}

/// The surface kinds the audit covers.
pub fn surface_kinds() -> (r: Vec<String>)
    ensures
        views(r@) == surface_kind_list(),
{
    let v = vec![to_owned("commands"), to_owned("subcommands"), to_owned("flags"), to_owned("global_flags"), to_owned("positional_args")];
    assert(views(v@) =~= surface_kind_list());
    v
}

/// The surface kinds the audit leaves out.
pub fn excluded_surface_kinds() -> (r: Vec<String>)
    ensures
        views(r@) == excluded_kind_list(),
{
    let v = vec![to_owned("tui_only")];
    assert(views(v@) =~= excluded_kind_list());
    v
}

fn required_writes() -> (r: Vec<String>)
    ensures
        views(r@) == required_write_list(),
{
    let v = vec![to_owned("wrapper"), to_owned("backend"), to_owned("manifest"), to_owned("publication"), to_owned("packet_docs")];
    assert(views(v@) =~= required_write_list());
    v
}

// ---------------------------------------------------------------------------------------------
// Report rows

/// The shape of a report row: a command, a flag (it has a `key`), or an argument (a `name`).
#[derive(Debug, Clone, Copy, PartialEq, Eq, Structural)]
pub enum ReportRowShape {
    Command,
    Flag,
    Arg,
}

impl ReportRowShape {
    /// The shape's name as `{:?}` writes it.
    pub open spec fn name(self) -> Seq<char> {
        match self {
            ReportRowShape::Command => "Command"@,
            ReportRowShape::Flag => "Flag"@,
            ReportRowShape::Arg => "Arg"@,
        }
    }

    pub fn debug_name(self) -> (r: &'static str)
        ensures
            r@ == self.name(),
    {
        match self {
            ReportRowShape::Command => "Command",
            ReportRowShape::Flag => "Flag",
            ReportRowShape::Arg => "Arg",
        }
    }
}

/// The audit identity of a report or union row; `leaf` is the flag key or argument name.
pub open spec fn identity_of(agent_id: Seq<char>, path: Seq<Seq<char>>, shape: ReportRowShape, leaf: Seq<char>) -> IdView {
    let command_path = if path.len() == 0 { agent_id } else { agent_id + " "@ + join(path, " "@) };
    match shape {
        ReportRowShape::Flag => if path.len() == 0 {
            ("global_flags"@, command_path, leaf)
        } else {
            ("flags"@, command_path, leaf)
        },
        ReportRowShape::Arg => ("positional_args"@, command_path, leaf),
        ReportRowShape::Command => (
            if path.len() > 1 { "subcommands"@ } else { "commands"@ },
            command_path,
            if path.len() == 0 { agent_id } else { path.last() },
        ),
    }
}

pub fn surface_identity(agent_id: &str, path: &Vec<String>, shape: ReportRowShape, leaf: &str) -> (r: SurfaceIdentity)
    ensures
        r.view() == identity_of(agent_id@, views(path@), shape, leaf@),
{
    let command_path = if path.len() == 0 {
        to_owned(agent_id)
    } else {
        let joined = join_text(path, " ");
        let mut c = cat2(agent_id, " ");
        c.append(joined.as_str());
        c
    };
    match shape {
        ReportRowShape::Flag => {
            if path.len() == 0 {
                SurfaceIdentity::new(to_owned("global_flags"), command_path, to_owned(leaf))
            } else {
                SurfaceIdentity::new(to_owned("flags"), command_path, to_owned(leaf))
            }
        },
        ReportRowShape::Arg => SurfaceIdentity::new(to_owned("positional_args"), command_path, to_owned(leaf)),
        ReportRowShape::Command => {
            let kind = if path.len() > 1 { to_owned("subcommands") } else { to_owned("commands") };
            let id = if path.len() == 0 {
                to_owned(agent_id)
            } else {
                proof {
                    assert(views(path@).last() == path@[path.len() - 1]@);
                }
                to_owned(path[path.len() - 1].as_str())
            };
            SurfaceIdentity::new(kind, command_path, id)
        },
    }
}


/// The strings of a JSON array, or `None` when one element is not a string.
pub open spec fn json_strings(items: Seq<JsonTree>) -> Option<Seq<Seq<char>>>
    decreases items.len(),
{
    if items.len() == 0 {
        Some(Seq::empty())
    } else {
        match json_strings(items.drop_last()) {
            None => None,
            Some(done) => match items.last() {
                JsonTree::Str(s) => Some(done.push(s)),
                _ => None,
            },
        }
    }
}

pub open spec fn optional_row_string(members: Seq<(Seq<char>, JsonTree)>, field: Seq<char>) -> Result<Option<Seq<char>>, Seq<char>> {
    match member(members, field) {
        None => Ok(None),
        Some(JsonTree::Str(s)) => Ok(Some(s)),
        Some(_) => Err("support-audit report row `"@ + field + "` must be a string"@),
    }
}

/// A report row's shape and identity, or why it is not usable evidence.
pub open spec fn row_surface(agent_id: Seq<char>, row: JsonTree) -> Result<(ReportRowShape, IdView), Seq<char>> {
    match row {
        JsonTree::Object(m) => match member(m, "path"@) {
            Some(JsonTree::Array(items)) => match json_strings(items) {
                None => Err("support-audit report row `path` values must be strings"@),
                Some(path) => match optional_row_string(m, "key"@) {
                    Err(e) => Err(e),
                    Ok(key) => match optional_row_string(m, "name"@) {
                        Err(e) => Err(e),
                        Ok(name) => match (key, name) {
                            (Some(_), Some(_)) => Err("support-audit report row must not carry both `key` and `name`"@),
                            (Some(k), None) => Ok((ReportRowShape::Flag, identity_of(agent_id, path, ReportRowShape::Flag, k))),
                            (None, Some(n)) => Ok((ReportRowShape::Arg, identity_of(agent_id, path, ReportRowShape::Arg, n))),
                            (None, None) => Ok((ReportRowShape::Command, identity_of(agent_id, path, ReportRowShape::Command, Seq::empty()))),
                        },
                    },
                },
            },
            _ => Err("support-audit report row missing `path`"@),
        },
        _ => Err("support-audit report row must be an object"@),
    }
}

pub fn optional_report_row_string(object: &Vec<(String, JsonValue)>, field: &str) -> (r: Result<Option<String>, String>)
    ensures
        match r {
            Ok(Some(s)) => optional_row_string(members_of(object@), field@) == Ok::<Option<Seq<char>>, Seq<char>>(Some(s@)),
            Ok(None) => optional_row_string(members_of(object@), field@) == Ok::<Option<Seq<char>>, Seq<char>>(None),
            Err(e) => optional_row_string(members_of(object@), field@) == Err::<Option<Seq<char>>, Seq<char>>(e@),
        },
{
    match get_member(object, field) {
        None => Ok(None),
        Some(JsonValue::Str(s)) => Ok(Some(to_owned(s.as_str()))),
        Some(_) => Err(cat3("support-audit report row `", field, "` must be a string")),
    }
}

pub(crate) fn json_string_items(items: &Vec<JsonValue>) -> (r: Option<Vec<String>>)
    ensures
        match r {
            Some(v) => json_strings(jsons_of(items@)) == Some(views(v@)),
            None => json_strings(jsons_of(items@)) is None,
        },
{
    let ghost tv = jsons_of(items@);
    proof {
        lemma_jsons_of(items@);
        assert(tv.subrange(0, 0) =~= Seq::<JsonTree>::empty());
    }
    let mut out: Vec<String> = Vec::new();
    assert(views(out@) =~= Seq::<Seq<char>>::empty());
    let mut i: usize = 0;
    while i < items.len()
        invariant
            i <= items.len(),
            tv == jsons_of(items@),
            tv.len() == items.len(),
            forall|k: int| 0 <= k < items.len() ==> #[trigger] tv[k] == json_of(items@[k]),
            json_strings(tv.subrange(0, i as int)) == Some(views(out@)),
        decreases items.len() - i,
    {
        proof {
            assert(tv.subrange(0, i + 1).drop_last() =~= tv.subrange(0, i as int));
            assert(tv.subrange(0, i + 1).last() == json_of(items@[i as int]));
        }
        match &items[i] {
            JsonValue::Str(s) => {
                let ghost before = views(out@);
                out.push(to_owned(s.as_str()));
                assert(views(out@) =~= before.push(s@));
            },
            _ => {
                proof {
                    lemma_json_strings_prefix_none(tv, i + 1);
                    assert(tv.subrange(0, tv.len() as int) =~= tv);
                }
                return None;
            },
        }
        i = i + 1;
    }
    assert(tv.subrange(0, items.len() as int) =~= tv);
    Some(out)
}

proof fn lemma_json_strings_prefix_none(items: Seq<JsonTree>, i: int)
    requires
        0 <= i <= items.len(),
        json_strings(items.subrange(0, i)) is None,
    ensures
        json_strings(items) is None,
    decreases items.len() - i,
{
    if i < items.len() {
        assert(items.subrange(0, i + 1).drop_last() =~= items.subrange(0, i));
        lemma_json_strings_prefix_none(items, i + 1);
    } else {
        assert(items.subrange(0, i) =~= items);
    }
}

/// A report row's shape and identity, or why it is not usable evidence.
pub fn surface_from_report_value(agent_id: &str, row: &JsonValue) -> (r: Result<(ReportRowShape, SurfaceIdentity), String>)
    ensures
        match r {
            Ok((shape, id)) => row_surface(agent_id@, json_of(*row)) == Ok::<(ReportRowShape, IdView), Seq<char>>((shape, id.view())),
            Err(e) => row_surface(agent_id@, json_of(*row)) == Err::<(ReportRowShape, IdView), Seq<char>>(e@),
        },
{
    let object = match row {
        JsonValue::Object(m) => m,
        _ => {
            return Err(to_owned("support-audit report row must be an object"));
        },
    };
    let items = match get_member(object, "path") {
        Some(JsonValue::Array(items)) => items,
        _ => {
            return Err(to_owned("support-audit report row missing `path`"));
        },
    };
    let path = match json_string_items(items) {
        Some(p) => p,
        None => {
            return Err(to_owned("support-audit report row `path` values must be strings"));
        },
    };
    let key = optional_report_row_string(object, "key")?;
    let name = optional_report_row_string(object, "name")?;
    match (key, name) {
        (Some(_), Some(_)) => Err(to_owned("support-audit report row must not carry both `key` and `name`")),
        (Some(flag), None) => Ok((ReportRowShape::Flag, surface_identity(agent_id, &path, ReportRowShape::Flag, flag.as_str()))),
        (None, Some(arg)) => Ok((ReportRowShape::Arg, surface_identity(agent_id, &path, ReportRowShape::Arg, arg.as_str()))),
        (None, None) => {
            let id = surface_identity(agent_id, &path, ReportRowShape::Command, "");
            proof {
                reveal_strlit("");
                assert(""@ =~= Seq::<char>::empty());
            }
            Ok((ReportRowShape::Command, id))
        },
    }
}


/// A report delta list: its key, the row shape it must hold (any shape when `None`), and whether
/// the report must carry it.
pub type ReportList = (&'static str, Option<ReportRowShape>, bool);

pub open spec fn list_view(l: ReportList) -> (Seq<char>, Option<ReportRowShape>, bool) {
    (l.0@, l.1, l.2)
}

/// The rows of one list, in order, or the first row that is not usable.
pub open spec fn list_rows(agent_id: Seq<char>, key: Seq<char>, shape: Option<ReportRowShape>, rows: Seq<JsonTree>) -> Result<Seq<IdView>, Seq<char>>
    decreases rows.len(),
{
    if rows.len() == 0 {
        Ok(Seq::empty())
    } else {
        match list_rows(agent_id, key, shape, rows.drop_last()) {
            Err(e) => Err(e),
            Ok(done) => match row_surface(agent_id, rows.last()) {
                Err(e) => Err(e),
                Ok((found, id)) => if shape is Some && shape->0 != found {
                    Err("support-audit report row in `deltas."@ + key + "` has the shape of a "@ + found.name() + " row"@)
                } else {
                    Ok(done.push(id))
                },
            },
        }
    }
}

pub open spec fn missing_list_message(report_path: Seq<char>, key: Seq<char>) -> Seq<char> {
    report_path + " is missing `deltas."@ + key + "` array"@
}

pub open spec fn list_surfaces(agent_id: Seq<char>, report_path: Seq<char>, deltas: Seq<(Seq<char>, JsonTree)>, list: (Seq<char>, Option<ReportRowShape>, bool)) -> Result<Seq<IdView>, Seq<char>> {
    match member(deltas, list.0) {
        None => if !list.2 {
            Ok(Seq::empty())
        } else {
            Err(missing_list_message(report_path, list.0))
        },
        Some(JsonTree::Array(rows)) => list_rows(agent_id, list.0, list.1, rows),
        Some(_) => Err(missing_list_message(report_path, list.0)),
    }
}

/// The identities every list holds, or the first problem in list then row order.
pub open spec fn lists_surfaces(agent_id: Seq<char>, report_path: Seq<char>, deltas: Seq<(Seq<char>, JsonTree)>, lists: Seq<(Seq<char>, Option<ReportRowShape>, bool)>) -> Result<Set<IdView>, Seq<char>>
    decreases lists.len(),
{
    if lists.len() == 0 {
        Ok(Set::empty())
    } else {
        match lists_surfaces(agent_id, report_path, deltas, lists.drop_last()) {
            Err(e) => Err(e),
            Ok(found) => match list_surfaces(agent_id, report_path, deltas, lists.last()) {
                Err(e) => Err(e),
                Ok(ids) => Ok(found + ids.to_set()),
            },
        }
    }
}

pub open spec fn lists_view(lists: Seq<ReportList>) -> Seq<(Seq<char>, Option<ReportRowShape>, bool)> {
    lists.map_values(|l: ReportList| list_view(l))
}

proof fn lemma_list_rows_prefix_err(agent_id: Seq<char>, key: Seq<char>, shape: Option<ReportRowShape>, rows: Seq<JsonTree>, i: int)
    requires
        0 <= i <= rows.len(),
        list_rows(agent_id, key, shape, rows.subrange(0, i)) is Err,
    ensures
        list_rows(agent_id, key, shape, rows) == list_rows(agent_id, key, shape, rows.subrange(0, i)),
    decreases rows.len() - i,
{
    if i < rows.len() {
        assert(rows.subrange(0, i + 1).drop_last() =~= rows.subrange(0, i));
        lemma_list_rows_prefix_err(agent_id, key, shape, rows, i + 1);
    } else {
        assert(rows.subrange(0, i) =~= rows);
    }
}

proof fn lemma_lists_prefix_err(agent_id: Seq<char>, report_path: Seq<char>, deltas: Seq<(Seq<char>, JsonTree)>, lists: Seq<(Seq<char>, Option<ReportRowShape>, bool)>, i: int)
    requires
        0 <= i <= lists.len(),
        lists_surfaces(agent_id, report_path, deltas, lists.subrange(0, i)) is Err,
    ensures
        lists_surfaces(agent_id, report_path, deltas, lists) == lists_surfaces(agent_id, report_path, deltas, lists.subrange(0, i)),
    decreases lists.len() - i,
{
    if i < lists.len() {
        assert(lists.subrange(0, i + 1).drop_last() =~= lists.subrange(0, i));
        lemma_lists_prefix_err(agent_id, report_path, deltas, lists, i + 1);
    } else {
        assert(lists.subrange(0, i) =~= lists);
    }
}

/// Read one delta list into `set`; answers the problem, if any.
fn collect_list(
    set: &mut Vec<SurfaceIdentity>,
    agent_id: &str,
    report_path: &str,
    deltas: &Vec<(String, JsonValue)>,
    list: ReportList,
) -> (r: Result<(), String>)
    requires
        ids_ascending(id_views(old(set)@)),
    ensures
        ids_ascending(id_views(final(set)@)),
        match list_surfaces(agent_id@, report_path@, members_of(deltas@), list_view(list)) {
            Err(e) => r matches Err(m) && m@ == e,
            Ok(ids) => r is Ok && id_views(final(set)@).to_set() == id_views(old(set)@).to_set() + ids.to_set(),
        },
{
    let (key, shape, required) = list;
    assert(list_view(list) == (key@, shape, required));
    let rows = match get_member(deltas, key) {
        None => {
            if !required {
                assert(id_views(set@).to_set() + Seq::<IdView>::empty().to_set() =~= id_views(set@).to_set());
                return Ok(());
            }
            let mut m = cat2(report_path, " is missing `deltas.");
            m.append(key);
            m.append("` array");
            return Err(m);
        },
        Some(JsonValue::Array(rows)) => rows,
        Some(_) => {
            let mut m = cat2(report_path, " is missing `deltas.");
            m.append(key);
            m.append("` array");
            return Err(m);
        },
    };
    let ghost tv = jsons_of(rows@);
    let ghost start = id_views(set@).to_set();
    let ghost mut found: Seq<IdView> = Seq::empty();
    proof {
        lemma_jsons_of(rows@);
        assert(tv.subrange(0, 0) =~= Seq::<JsonTree>::empty());
        assert(id_views(set@).to_set() =~= start + found.to_set());
    }
    let mut i: usize = 0;
    while i < rows.len()
        invariant
            i <= rows.len(),
            tv == jsons_of(rows@),
            tv.len() == rows.len(),
            forall|k: int| 0 <= k < rows.len() ==> #[trigger] tv[k] == json_of(rows@[k]),
            member(members_of(deltas@), key@) == Some(JsonTree::Array(tv)),
            list_view(list) == (key@, shape, required),
            list_rows(agent_id@, key@, shape, tv.subrange(0, i as int)) == Ok::<Seq<IdView>, Seq<char>>(found),
            ids_ascending(id_views(set@)),
            id_views(set@).to_set() == start + found.to_set(),
        decreases rows.len() - i,
    {
        proof {
            assert(tv.subrange(0, i + 1).drop_last() =~= tv.subrange(0, i as int));
            assert(tv.subrange(0, i + 1).last() == json_of(rows@[i as int]));
        }
        let (row_shape, identity) = match surface_from_report_value(agent_id, &rows[i]) {
            Ok(x) => x,
            Err(e) => {
                proof {
                    assert(list_rows(agent_id@, key@, shape, tv.subrange(0, i + 1)) is Err);
                    lemma_list_rows_prefix_err(agent_id@, key@, shape, tv, i + 1);
                    assert(tv.subrange(0, tv.len() as int) =~= tv);
                }
                return Err(e);
            },
        };
        match shape {
            Some(required_shape) => {
                if required_shape != row_shape {
                    let mut m = cat3("support-audit report row in `deltas.", key, "` has the shape of a ");
                    m.append(row_shape.debug_name());
                    m.append(" row");
                    proof {
                        lemma_list_rows_prefix_err(agent_id@, key@, shape, tv, i + 1);
                        assert(tv.subrange(0, tv.len() as int) =~= tv);
                    }
                    return Err(m);
                }
            },
            None => {},
        }
        let ghost idv = identity.view();
        insert_identity(set, identity);
        proof {
            found.lemma_push_to_set_commute(idv);
            found = found.push(idv);
            assert(id_views(set@).to_set() =~= start + found.to_set());
        }
        i = i + 1;
    }
    proof {
        assert(tv.subrange(0, rows.len() as int) =~= tv);
    }
    Ok(())
}

/// The identities the listed delta lists hold, ascending, or the first problem in list then
/// row order.
pub fn surfaces_from_report_lists(agent_id: &str, report_path: &str, deltas: &Vec<(String, JsonValue)>, lists: &[ReportList]) -> (r: Result<Vec<SurfaceIdentity>, String>)
    ensures
        match lists_surfaces(agent_id@, report_path@, members_of(deltas@), lists_view(lists@)) {
            Err(e) => r matches Err(m) && m@ == e,
            Ok(ids) => r matches Ok(v) && ids_ascending(id_views(v@)) && id_views(v@).to_set() == ids,
        },
{
    let ghost lv = lists_view(lists@);
    let mut set: Vec<SurfaceIdentity> = Vec::new();
    let mut i: usize = 0;
    proof {
        assert(lv.subrange(0, 0) =~= Seq::<(Seq<char>, Option<ReportRowShape>, bool)>::empty());
        assert(id_views(set@).to_set() =~= Set::<IdView>::empty());
    }
    while i < lists.len()
        invariant
            i <= lists@.len(),
            lv == lists_view(lists@),
            lv.len() == lists@.len(),
            ids_ascending(id_views(set@)),
            lists_surfaces(agent_id@, report_path@, members_of(deltas@), lv.subrange(0, i as int)) == Ok::<Set<IdView>, Seq<char>>(id_views(set@).to_set()),
        decreases lists@.len() - i,
    {
        proof {
            assert(lv.subrange(0, i + 1).drop_last() =~= lv.subrange(0, i as int));
            assert(lv.subrange(0, i + 1).last() == list_view(lists@[i as int]));
        }
        match collect_list(&mut set, agent_id, report_path, deltas, lists[i]) {
            Ok(()) => {},
            Err(m) => {
                proof {
                    lemma_lists_prefix_err(agent_id@, report_path@, members_of(deltas@), lv, i + 1);
                    assert(lv.subrange(0, lv.len() as int) =~= lv);
                }
                return Err(m);
            },
        }
        i = i + 1;
    }
    proof {
        assert(lv.subrange(0, lists@.len() as int) =~= lv);
    }
    Ok(set)
}

/// The lists whose rows are gaps. `deltas.unsupported` is not one of them.
pub fn gap_lists() -> (r: [ReportList; 4])
    ensures
        lists_view(r@) == gap_list_view(),
{
    let r = [
        ("missing_commands", Some(ReportRowShape::Command), true),
        ("missing_flags", Some(ReportRowShape::Flag), true),
        ("missing_args", Some(ReportRowShape::Arg), true),
        ("intentionally_unsupported", None, false),
    ];
    assert(lists_view(r@) =~= gap_list_view());
    r
}

pub open spec fn gap_list_view() -> Seq<(Seq<char>, Option<ReportRowShape>, bool)> {
    seq![
        ("missing_commands"@, Some(ReportRowShape::Command), true),
        ("missing_flags"@, Some(ReportRowShape::Flag), true),
        ("missing_args"@, Some(ReportRowShape::Arg), true),
        ("intentionally_unsupported"@, None, false),
    ]
}

/// The gap surfaces a report's deltas list, ascending.
pub fn surfaces_from_report_deltas(agent_id: &str, report_path: &str, deltas: &Vec<(String, JsonValue)>) -> (r: Result<Vec<SurfaceIdentity>, String>)
    ensures
        match lists_surfaces(agent_id@, report_path@, members_of(deltas@), gap_list_view()) {
            Err(e) => r matches Err(m) && m@ == e,
            Ok(ids) => r matches Ok(v) && ids_ascending(id_views(v@)) && id_views(v@).to_set() == ids,
        },
{
    let lists = gap_lists();
    surfaces_from_report_lists(agent_id, report_path, deltas, &lists)
}

/// The gap surfaces of a coverage report's text: its `deltas` object read as
/// `surfaces_from_report_deltas` reads it.
pub open spec fn report_text_gaps(agent_id: Seq<char>, report_path: Seq<char>, text: Seq<char>) -> Result<Set<IdView>, Seq<char>> {
    let missing = report_path + " is missing `deltas` object"@;
    match spec_json(text) {
        Err(e) => Err("parse "@ + report_path + ": "@ + e),
        Ok(JsonTree::Object(doc)) => match member(doc, "deltas"@) {
            Some(JsonTree::Object(deltas)) => lists_surfaces(agent_id, report_path, deltas, gap_list_view()),
            _ => Err(missing),
        },
        Ok(_) => Err(missing),
    }
}

/// Parse a coverage report at `report_path` and list the gap surfaces its deltas hold,
/// ascending, or say why the report is not usable.
pub fn report_gaps(agent_id: &str, report_path: &str, text: &str) -> (r: Result<Vec<SurfaceIdentity>, String>)
    ensures
        match report_text_gaps(agent_id@, report_path@, text@) {
            Err(e) => r matches Err(m) && m@ == e,
            Ok(ids) => r matches Ok(v) && ids_ascending(id_views(v@)) && id_views(v@).to_set() == ids,
        },
{
    let doc = match parse_json(text) {
        Ok(doc) => doc,
        Err(e) => return Err(cat4("parse ", report_path, ": ", e.as_str())),
    };
    match &doc {
        JsonValue::Object(members) => match get_member(members, "deltas") {
            Some(JsonValue::Object(deltas)) => surfaces_from_report_deltas(agent_id, report_path, deltas),
            _ => Err(cat2(report_path, " is missing `deltas` object")),
        },
        _ => Err(cat2(report_path, " is missing `deltas` object")),
    }
}


// ---------------------------------------------------------------------------------------------
// The support-debt inventory

/// `p` occurs in `s` starting at `i`.
pub open spec fn occurs_at(s: Seq<char>, p: Seq<char>, i: int) -> bool {
    0 <= i && i + p.len() <= s.len() && s.subrange(i, i + p.len()) == p
}

/// The first place `p` occurs in `s`.
pub open spec fn first_occurrence(s: Seq<char>, p: Seq<char>) -> int {
    choose|i: int| occurs_at(s, p, i) && forall|j: int| 0 <= j < i ==> !occurs_at(s, p, j)
}

/// A field line's key and value: `<key>`: `<value>` after the leading `` - ` ``.
pub open spec fn key_value(input: Seq<char>) -> Option<(Seq<char>, Seq<char>)> {
    let sep = "`: `"@;
    if exists|i: int| occurs_at(input, sep, i) {
        let i = first_occurrence(input, sep);
        let rest = input.subrange(i + 4, input.len() as int);
        if rest.len() > 0 && rest.last() == '`' {
            Some((input.subrange(0, i), rest.drop_last()))
        } else {
            None
        }
    } else {
        None
    }
}

fn occurs_here(s: &str, n: usize, i: usize) -> (r: bool)
    requires
        n == s@.len(),
        i + 4 <= n,
    ensures
        r == occurs_at(s@, "`: `"@, i as int),
{
    proof {
        reveal_strlit("`: `");
    }
    let r = s.get_char(i) == '`' && s.get_char(i + 1) == ':' && s.get_char(i + 2) == ' ' && s.get_char(i + 3) == '`';
    proof {
        if r {
            assert(s@.subrange(i as int, i + 4) =~= "`: `"@);
        } else if occurs_at(s@, "`: `"@, i as int) {
            assert(s@.subrange(i as int, i + 4)[0] == s@[i as int]);
            assert(s@.subrange(i as int, i + 4)[1] == s@[i + 1]);
            assert(s@.subrange(i as int, i + 4)[2] == s@[i + 2]);
            assert(s@.subrange(i as int, i + 4)[3] == s@[i + 3]);
        }
    }
    r
}

/// `input.split_once("`: `")`, then the value without its closing backtick.
pub fn parse_key_value(input: &str) -> (r: Option<(String, String)>)
    ensures
        match r {
            Some((k, v)) => key_value(input@) == Some((k@, v@)),
            None => key_value(input@) is None,
        },
{
    proof {
        reveal_strlit("`: `");
    }
    let n = input.unicode_len();
    if n < 4 {
        assert forall|i: int| !occurs_at(input@, "`: `"@, i) by {}
        return None;
    }
    let mut i: usize = 0;
    while i < n - 3
        invariant
            n == input@.len(),
            n >= 4,
            i <= n - 3,
            forall|j: int| 0 <= j < i ==> !occurs_at(input@, "`: `"@, j),
        decreases n - i,
    {
        if occurs_here(input, n, i) {
            proof {
                let f = first_occurrence(input@, "`: `"@);
                assert(occurs_at(input@, "`: `"@, i as int));
                assert(occurs_at(input@, "`: `"@, f) && forall|j: int| 0 <= j < f ==> !occurs_at(input@, "`: `"@, j));
                if f < i {
                } else if f > i {
                }
                assert(f == i);
            }
            let key = String::from_str(input.substring_char(0, i));
            let rest = input.substring_char(i + 4, n);
            let m = rest.unicode_len();
            if m > 0 && rest.get_char(m - 1) == '`' {
                let value = String::from_str(rest.substring_char(0, m - 1));
                proof {
                    assert(rest@.subrange(0, m - 1) =~= rest@.drop_last());
                }
                return Some((key, value));
            }
            return None;
        }
        i = i + 1;
    }
    proof {
        assert forall|j: int| !occurs_at(input@, "`: `"@, j) by {
            if 0 <= j < i {
            }
        }
    }
    None
}

/// The value of `key` among a row's fields; a repeated field's last value wins.
pub open spec fn field_value(fields: Seq<(Seq<char>, Seq<char>)>, key: Seq<char>) -> Option<Seq<char>>
    decreases fields.len(),
{
    if fields.len() == 0 {
        None
    } else if fields.last().0 == key {
        Some(fields.last().1)
    } else {
        field_value(fields.drop_last(), key)
    }
}

pub open spec fn fields_view(fields: Seq<(String, String)>) -> Seq<(Seq<char>, Seq<char>)> {
    fields.map_values(|f: (String, String)| (f.0@, f.1@))
}

fn get_field(fields: &Vec<(String, String)>, row_id: &str, key: &str) -> (r: Result<String, String>)
    ensures
        match field_value(fields_view(fields@), key@) {
            Some(v) => r matches Ok(s) && s@ == v,
            None => r matches Err(m) && m@ == missing_debt_field(row_id@, key@),
        },
{
    let ghost fv = fields_view(fields@);
    let mut i: usize = fields.len();
    assert(fv.subrange(0, fields.len() as int) =~= fv);
    while i > 0
        invariant
            i <= fields.len(),
            fv == fields_view(fields@),
            fv.len() == fields.len(),
            field_value(fv, key@) == field_value(fv.subrange(0, i as int), key@),
        decreases i,
    {
        let ghost sub = fv.subrange(0, i as int);
        assert(sub.drop_last() =~= fv.subrange(0, i - 1));
        assert(sub.last() == (fields@[i - 1].0@, fields@[i - 1].1@));
        if str_eq(fields[i - 1].0.as_str(), key) {
            return Ok(to_owned(fields[i - 1].1.as_str()));
        }
        i = i - 1;
    }
    assert(fv.subrange(0, 0) =~= Seq::<(Seq<char>, Seq<char>)>::empty());
    let mut m = cat3("debt row `", row_id, "` is missing required field `");
    m.append(key);
    m.append("`");
    Err(m)
}

pub open spec fn missing_debt_field(row_id: Seq<char>, key: Seq<char>) -> Seq<char> {
    "debt row `"@ + row_id + "` is missing required field `"@ + key + "`"@
}

/// A debt row's eleven fields in declaration order.
pub open spec fn row_fields(r: DebtInventoryRow) -> Seq<Seq<char>> {
    seq![
        r.row_id@, r.agent_id@, r.surface_kind@, r.command_path@, r.surface_id@, r.current_reason@,
        r.blocker_class@, r.owner@, r.milestone@, r.follow_on@, r.evidence_ref@,
    ]
}

/// A debt row from its heading and fields, or the first field that is missing or invalid:
/// `blocker_class` is read first, then the rest in declaration order.
#[verifier::opaque]
pub open spec fn debt_row(row_id: Seq<char>, fields: Seq<(Seq<char>, Seq<char>)>) -> Result<Seq<Seq<char>>, Seq<char>> {
    let keys = seq!["agent_id"@, "surface_kind"@, "command_path"@, "surface_id"@, "current_reason"@];
    let later = seq!["owner"@, "milestone"@, "follow_on"@, "evidence_ref"@];
    match field_value(fields, "blocker_class"@) {
        None => Err(missing_debt_field(row_id, "blocker_class"@)),
        Some(blocker) => if !allowed_deferral_list().contains(blocker) {
            Err("debt row `"@ + row_id + "` has invalid blocker_class `"@ + blocker + "`"@)
        } else {
            match first_missing(fields, keys + later) {
                Some(k) => Err(missing_debt_field(row_id, k)),
                None => Ok(seq![row_id] + keys.map_values(|k: Seq<char>| field_value(fields, k)->0) + seq![blocker]
                    + later.map_values(|k: Seq<char>| field_value(fields, k)->0)),
            }
        },
    }
}

/// The first of `keys` that `fields` lacks.
pub open spec fn first_missing(fields: Seq<(Seq<char>, Seq<char>)>, keys: Seq<Seq<char>>) -> Option<Seq<char>>
    decreases keys.len(),
{
    if keys.len() == 0 {
        None
    } else if field_value(fields, keys[0]) is None {
        Some(keys[0])
    } else {
        first_missing(fields, keys.drop_first())
    }
}

pub(crate) fn is_allowed_deferral(v: &str) -> (r: bool)
    ensures
        r == allowed_deferral_list().contains(v@),
{
    let r = str_eq(v, "upstream_not_machine_exposed") || str_eq(v, "platform_evidence_missing") || str_eq(v, "requires_new_infra")
        || str_eq(v, "requires_new_architectural_seam") || str_eq(v, "outside_registry_maintenance_write_envelope");
    proof {
        let l = allowed_deferral_list();
        if l.contains(v@) {
            let k = choose|k: int| 0 <= k < l.len() && l[k] == v@;
            assert(k == 0 || k == 1 || k == 2 || k == 3 || k == 4);
        }
        if r {
            if v@ == "upstream_not_machine_exposed"@ { assert(l[0] == v@); }
            if v@ == "platform_evidence_missing"@ { assert(l[1] == v@); }
            if v@ == "requires_new_infra"@ { assert(l[2] == v@); }
            if v@ == "requires_new_architectural_seam"@ { assert(l[3] == v@); }
            if v@ == "outside_registry_maintenance_write_envelope"@ { assert(l[4] == v@); }
        }
    }
    r
}

/// A debt row from its heading and fields.
pub fn build_debt_row(row_id: &str, fields: &Vec<(String, String)>) -> (r: Result<DebtInventoryRow, String>)
    ensures
        match debt_row(row_id@, fields_view(fields@)) {
            Ok(v) => r matches Ok(row) && row_fields(row) == v,
            Err(e) => r matches Err(m) && m@ == e,
        },
{
    proof {
        reveal(debt_row);
        reveal_with_fuel(first_missing, 10);
    }
    let blocker_class = get_field(fields, row_id, "blocker_class")?;
    if !is_allowed_deferral(blocker_class.as_str()) {
        let mut m = cat3("debt row `", row_id, "` has invalid blocker_class `");
        m.append(blocker_class.as_str());
        m.append("`");
        return Err(m);
    }
    let agent_id = get_field(fields, row_id, "agent_id")?;
    let surface_kind = get_field(fields, row_id, "surface_kind")?;
    let command_path = get_field(fields, row_id, "command_path")?;
    let surface_id = get_field(fields, row_id, "surface_id")?;
    let current_reason = get_field(fields, row_id, "current_reason")?;
    let owner = get_field(fields, row_id, "owner")?;
    let milestone = get_field(fields, row_id, "milestone")?;
    let follow_on = get_field(fields, row_id, "follow_on")?;
    let evidence_ref = get_field(fields, row_id, "evidence_ref")?;
    let row = DebtInventoryRow {
        row_id: to_owned(row_id),
        agent_id,
        surface_kind,
        command_path,
        surface_id,
        current_reason,
        blocker_class,
        owner,
        milestone,
        follow_on,
        evidence_ref,
    };
    proof {
        let fv = fields_view(fields@);
        let keys = seq!["agent_id"@, "surface_kind"@, "command_path"@, "surface_id"@, "current_reason"@];
        let later = seq!["owner"@, "milestone"@, "follow_on"@, "evidence_ref"@];
        assert(keys + later =~= seq!["agent_id"@, "surface_kind"@, "command_path"@, "surface_id"@, "current_reason"@, "owner"@, "milestone"@, "follow_on"@, "evidence_ref"@]);
        assert(row_fields(row) =~= seq![row_id@] + keys.map_values(|k: Seq<char>| field_value(fv, k)->0) + seq![blocker_class@]
            + later.map_values(|k: Seq<char>| field_value(fv, k)->0));
    }
    Ok(row)
}


/// Where the inventory reader stands after some lines: the rows read so far, and the row being
/// read (its id and fields), if any.
pub type InventoryState = (Seq<Seq<Seq<char>>>, Option<(Seq<char>, Seq<(Seq<char>, Seq<char>)>)>);

/// The rows read so far, with the row being read closed off.
pub open spec fn flush(state: InventoryState) -> Result<Seq<Seq<Seq<char>>>, Seq<char>> {
    match state.1 {
        None => Ok(state.0),
        Some((id, fields)) => match debt_row(id, fields) {
            Err(e) => Err(e),
            Ok(r) => Ok(state.0.push(r)),
        },
    }
}

/// One line of the inventory: a `` ### `<row id>` `` heading closes the current row and opens
/// another; a `` - `<key>`: `<value>` `` line inside a row records a field; anything else is
/// prose.
#[verifier::opaque]
pub open spec fn inventory_step(state: InventoryState, line: Seq<char>, path: Seq<char>) -> Result<InventoryState, Seq<char>> {
    if has_prefix(line, "### `"@) {
        let rest = line.subrange(5, line.len() as int);
        match flush(state) {
            Err(e) => Err(e),
            Ok(rows) => if rest.len() > 0 && rest.last() == '`' {
                Ok((rows, Some((rest.drop_last(), Seq::empty()))))
            } else {
                Err("invalid debt heading in "@ + path)
            },
        }
    } else if state.1 is Some && has_prefix(line, "- `"@) {
        match (key_value(line.subrange(3, line.len() as int)), state.1) {
            (None, _) => Err("invalid debt row field `"@ + line + "` in "@ + path),
            (Some(kv), Some((id, fields))) => Ok((state.0, Some((id, fields.push(kv))))),
            (Some(_), None) => Ok(state),
        }
    } else {
        Ok(state)
    }
}

pub open spec fn inventory_walk(lines: Seq<Seq<char>>, path: Seq<char>) -> Result<InventoryState, Seq<char>>
    decreases lines.len(),
{
    if lines.len() == 0 {
        Ok((Seq::empty(), None))
    } else {
        match inventory_walk(lines.drop_last(), path) {
            Err(e) => Err(e),
            Ok(state) => inventory_step(state, lines.last(), path),
        }
    }
}

/// The rows of a support-debt inventory, each as its eleven fields, or the first problem.
pub open spec fn inventory_rows(text: Seq<char>, path: Seq<char>) -> Result<Seq<Seq<Seq<char>>>, Seq<char>> {
    match inventory_walk(crate::text::text_lines(text), path) {
        Err(e) => Err(e),
        Ok(state) => flush(state),
    }
}

pub open spec fn rows_fields(rows: Seq<DebtInventoryRow>) -> Seq<Seq<Seq<char>>> {
    rows.map_values(|r: DebtInventoryRow| row_fields(r))
}

proof fn lemma_walk_prefix_err(lines: Seq<Seq<char>>, path: Seq<char>, i: int)
    requires
        0 <= i <= lines.len(),
        inventory_walk(lines.subrange(0, i), path) is Err,
    ensures
        inventory_walk(lines, path) == inventory_walk(lines.subrange(0, i), path),
    decreases lines.len() - i,
{
    if i < lines.len() {
        assert(lines.subrange(0, i + 1).drop_last() =~= lines.subrange(0, i));
        lemma_walk_prefix_err(lines, path, i + 1);
    } else {
        assert(lines.subrange(0, i) =~= lines);
    }
}

/// Close off the row being read, if any.
fn flush_row(rows: &mut Vec<DebtInventoryRow>, current: &Option<(String, Vec<(String, String)>)>) -> (r: Result<(), String>)
    ensures
        match flush((rows_fields(old(rows)@), current_view(*current))) {
            Err(e) => r matches Err(m) && m@ == e,
            Ok(v) => r is Ok && rows_fields(final(rows)@) == v,
        },
{
    match current {
        None => Ok(()),
        Some((id, fields)) => {
            let row = build_debt_row(id.as_str(), fields)?;
            let ghost before = rows_fields(rows@);
            rows.push(row);
            assert(rows_fields(rows@) =~= before.push(row_fields(row)));
            Ok(())
        },
    }
}

pub open spec fn current_view(c: Option<(String, Vec<(String, String)>)>) -> Option<(Seq<char>, Seq<(Seq<char>, Seq<char>)>)> {
    match c {
        None => None,
        Some((id, fields)) => Some((id@, fields_view(fields@))),
    }
}

/// One line of the inventory.
fn inventory_line(
    rows: &mut Vec<DebtInventoryRow>,
    current: &mut Option<(String, Vec<(String, String)>)>,
    line: &str,
    path: &str,
) -> (r: Result<(), String>)
    ensures
        match inventory_step((rows_fields(old(rows)@), current_view(*old(current))), line@, path@) {
            Err(e) => r matches Err(m) && m@ == e,
            Ok(state) => r is Ok && state == (rows_fields(final(rows)@), current_view(*final(current))),
        },
{
    proof {
        reveal(inventory_step);
        reveal_strlit("### `");
        reveal_strlit("- `");
    }
    if crate::text::starts_with(line, "### `") {
        let n = line.unicode_len();
        let rest = line.substring_char(5, n);
        flush_row(rows, current)?;
        let m = rest.unicode_len();
        if m > 0 && rest.get_char(m - 1) == '`' {
            let id = String::from_str(rest.substring_char(0, m - 1));
            proof {
                assert(rest@.subrange(0, m - 1) =~= rest@.drop_last());
            }
            let empty: Vec<(String, String)> = Vec::new();
            assert(fields_view(empty@) =~= Seq::<(Seq<char>, Seq<char>)>::empty());
            *current = Some((id, empty));
            return Ok(());
        }
        return Err(cat2("invalid debt heading in ", path));
    }
    if current.is_some() && crate::text::starts_with(line, "- `") {
        let n = line.unicode_len();
        let rest = line.substring_char(3, n);
        match parse_key_value(rest) {
            None => {
                let mut m = cat3("invalid debt row field `", line, "` in ");
                m.append(path);
                return Err(m);
            },
            Some((k, v)) => {
                let ghost kv = (k@, v@);
                let taken = current.take();
                match taken {
                    Some((id, mut fields)) => {
                        let ghost before = fields_view(fields@);
                        fields.push((k, v));
                        assert(fields_view(fields@) =~= before.push(kv));
                        *current = Some((id, fields));
                    },
                    None => {},
                }
                return Ok(());
            },
        }
    }
    Ok(())
}

/// Read the support-debt inventory's text; `path` names it in messages.
pub fn parse_debt_inventory(text: &str, path: &str) -> (r: Result<Vec<DebtInventoryRow>, String>)
    ensures
        match inventory_rows(text@, path@) {
            Err(e) => r matches Err(m) && m@ == e,
            Ok(v) => r matches Ok(rows) && rows_fields(rows@) == v,
        },
{
    let lines = crate::text::lines_of(text);
    let ghost lv = views(lines@);
    let mut rows: Vec<DebtInventoryRow> = Vec::new();
    let mut current: Option<(String, Vec<(String, String)>)> = None;
    let mut i: usize = 0;
    proof {
        assert(lv.subrange(0, 0) =~= Seq::<Seq<char>>::empty());
        assert(rows_fields(rows@) =~= Seq::<Seq<Seq<char>>>::empty());
    }
    while i < lines.len()
        invariant
            i <= lines.len(),
            lv == views(lines@),
            lv == crate::text::text_lines(text@),
            lv.len() == lines.len(),
            inventory_walk(lv.subrange(0, i as int), path@) == Ok::<InventoryState, Seq<char>>((rows_fields(rows@), current_view(current))),
        decreases lines.len() - i,
    {
        let line = lines[i].as_str();
        proof {
            assert(lv.subrange(0, i + 1).drop_last() =~= lv.subrange(0, i as int));
            assert(lv.subrange(0, i + 1).last() == line@);
        }
        match inventory_line(&mut rows, &mut current, line, path) {
            Ok(()) => {},
            Err(e) => {
                proof {
                    lemma_walk_prefix_err(lv, path@, i + 1);
                    assert(lv.subrange(0, lv.len() as int) =~= lv);
                }
                return Err(e);
            },
        }
        i = i + 1;
    }
    proof {
        assert(lv.subrange(0, lines.len() as int) =~= lv);
    }
    flush_row(&mut rows, &current)?;
    Ok(rows)
}


// ---------------------------------------------------------------------------------------------
// The audit

/// A row of the scoped support-debt inventory: a grant that defers a surface at one version for
/// the targets it names.
pub open spec fn grant_debt_ref(row: GrantRow) -> Seq<char> {
    NON_TUI_SUPPORT_DEBT_PATH@ + "#"@ + row.row_id@
}

/// The rows that belong to `agent_id`, in inventory order.
pub open spec fn agent_grants(rows: Seq<GrantRow>, agent_id: Seq<char>) -> Seq<GrantRow>
    decreases rows.len(),
{
    if rows.len() == 0 {
        Seq::empty()
    } else if rows.last().agent_id@ == agent_id {
        agent_grants(rows.drop_last(), agent_id).push(rows.last())
    } else {
        agent_grants(rows.drop_last(), agent_id)
    }
}

/// A gap as the audit reads it: the surface and the targets whose exact reports list it.
pub open spec fn gap_view(g: TargetedGap) -> (IdView, Seq<Seq<char>>) {
    (g.identity.view(), views(g.targets@))
}

pub open spec fn gap_views(gaps: Seq<TargetedGap>) -> Seq<(IdView, Seq<Seq<char>>)> {
    gaps.map_values(|g: TargetedGap| gap_view(g))
}

/// How the audit judges one surface: the surface, the row that defers it when one does, and
/// whether some of its targets are left for this run to uplift.
pub type Judgement = (IdView, Option<GrantRow>, bool);

/// A report gap is deferred by the applicable grant with the least row id, when there is one,
/// and is a required uplift when some of its targets no applicable grant covers.
pub open spec fn gap_judgement(debt: Seq<GrantRow>, version: Seq<char>, g: (IdView, Seq<Seq<char>>)) -> Judgement {
    let grants = applicable(debt, g.0, version, g.1);
    let ordered = sort_by_row_id(grants);
    (g.0, if ordered.len() > 0 { Some(ordered[0]) } else { None }, uncovered(g.1, grants).len() > 0)
}

/// The surfaces the audit judges: with a live report, its gaps, each judged against the grants
/// at the release's version; without one, every debt row, each deferred by itself.
pub open spec fn judgements(debt: Seq<GrantRow>, version: Seq<char>, report: Option<(Seq<char>, Seq<(IdView, Seq<Seq<char>>)>)>) -> Seq<Judgement> {
    match report {
        Some((_, gaps)) => gaps.map_values(|g: (IdView, Seq<Seq<char>>)| gap_judgement(debt, version, g)),
        None => debt.map_values(|r: GrantRow| (r.id_view(), Some(r), false)),
    }
}

pub open spec fn judged_ids(js: Seq<Judgement>) -> Seq<IdView> {
    js.map_values(|j: Judgement| j.0)
}

/// The judged surfaces some row defers, each with that row's reference.
pub open spec fn preexisting_of(js: Seq<Judgement>) -> Seq<(IdView, Seq<char>)>
    decreases js.len(),
{
    if js.len() == 0 {
        Seq::empty()
    } else {
        let rest = preexisting_of(js.drop_last());
        match js.last().1 {
            Some(row) => rest.push((js.last().0, grant_debt_ref(row))),
            None => rest,
        }
    }
}

/// The judged surfaces some row defers: the row's blocker and follow-on.
pub open spec fn deferred_of(js: Seq<Judgement>) -> Seq<(IdView, Seq<char>, Option<Seq<char>>)>
    decreases js.len(),
{
    if js.len() == 0 {
        Seq::empty()
    } else {
        let rest = deferred_of(js.drop_last());
        match js.last().1 {
            Some(row) => rest.push((js.last().0, row.blocker_class@, Some(row.follow_on@))),
            None => rest,
        }
    }
}

/// The judged surfaces with targets left to uplift: new upstream surface for this run.
pub open spec fn discovered_of(js: Seq<Judgement>) -> Seq<IdView>
    decreases js.len(),
{
    if js.len() == 0 {
        Seq::empty()
    } else {
        let rest = discovered_of(js.drop_last());
        if js.last().2 {
            rest.push(js.last().0)
        } else {
            rest
        }
    }
}

/// The identities, each kept where it first occurs.
pub open spec fn distinct_ids(s: Seq<IdView>) -> Seq<IdView>
    decreases s.len(),
{
    if s.len() == 0 {
        Seq::empty()
    } else {
        let p = distinct_ids(s.drop_last());
        if p.contains(s.last()) {
            p
        } else {
            p.push(s.last())
        }
    }
}

pub open spec fn grant_ids(debt: Seq<GrantRow>) -> Seq<IdView> {
    debt.map_values(|r: GrantRow| r.id_view())
}

pub open spec fn evidence_view(s: EvidenceBackedSurface) -> (IdView, Seq<char>) {
    ((s.surface_kind@, s.command_path@, s.surface_id@), s.evidence_ref@)
}

pub open spec fn debt_backed_view(s: DebtBackedSurface) -> (IdView, Seq<char>) {
    ((s.surface_kind@, s.command_path@, s.surface_id@), s.debt_ref@)
}

pub open spec fn deferred_view(s: DeferredGap) -> (IdView, Seq<char>, Option<Seq<char>>) {
    (
        (s.surface_kind@, s.command_path@, s.surface_id@),
        s.defer_reason@,
        match s.blocking_follow_on {
            Some(f) => Some(f@),
            None => None,
        },
    )
}

pub open spec fn impact_view(s: PublicationImpact) -> (IdView, Seq<char>) {
    ((s.surface_kind@, s.command_path@, s.surface_id@), s.surface_doc@)
}

pub open spec fn uplift_view(s: RequiredUplift) -> (IdView, Seq<char>, Seq<Seq<char>>) {
    ((s.surface_kind@, s.command_path@, s.surface_id@), s.reason@, views(s.required_writes@))
}

pub open spec fn evidence_rows(ids: Seq<IdView>, evidence: Seq<char>) -> Seq<(IdView, Seq<char>)> {
    ids.map_values(|id: IdView| (id, evidence))
}

pub open spec fn uplift_rows(ids: Seq<IdView>) -> Seq<(IdView, Seq<char>, Seq<Seq<char>>)> {
    ids.map_values(|id: IdView| (id, "new_upstream_surface"@, required_write_list()))
}

pub open spec fn impact_rows(ids: Seq<IdView>) -> Seq<(IdView, Seq<char>)> {
    ids.map_values(|id: IdView| (id, SUPPORT_MATRIX_DOC_PATH@))
}

pub open spec fn evidence_views(v: Seq<EvidenceBackedSurface>) -> Seq<(IdView, Seq<char>)> {
    v.map_values(|s: EvidenceBackedSurface| evidence_view(s))
}

pub open spec fn debt_backed_views(v: Seq<DebtBackedSurface>) -> Seq<(IdView, Seq<char>)> {
    v.map_values(|s: DebtBackedSurface| debt_backed_view(s))
}

pub open spec fn deferred_views(v: Seq<DeferredGap>) -> Seq<(IdView, Seq<char>, Option<Seq<char>>)> {
    v.map_values(|s: DeferredGap| deferred_view(s))
}

pub open spec fn impact_views(v: Seq<PublicationImpact>) -> Seq<(IdView, Seq<char>)> {
    v.map_values(|s: PublicationImpact| impact_view(s))
}

pub open spec fn uplift_views(v: Seq<RequiredUplift>) -> Seq<(IdView, Seq<char>, Seq<Seq<char>>)> {
    v.map_values(|s: RequiredUplift| uplift_view(s))
}

/// Where newly discovered surfaces are evidenced: the live report, or else the inventory.
pub open spec fn evidence_of(report: Option<(Seq<char>, Seq<(IdView, Seq<Seq<char>>)>)>) -> Seq<char> {
    match report {
        Some((reference, _)) => reference,
        None => NON_TUI_SUPPORT_DEBT_PATH@,
    }
}

/// What the audit finds for `agent_id` at the release's `version`, given the scoped inventory,
/// the live report's reference and targeted gaps when there is one, and the classification of
/// the rows it leaves unmatched.
pub open spec fn audit_holds(
    a: SupportSurfaceAudit,
    agent_id: Seq<char>,
    version: Seq<char>,
    inventory: Seq<GrantRow>,
    report: Option<(Seq<char>, Seq<(IdView, Seq<Seq<char>>)>)>,
    unmatched: Seq<UnmatchedDebtSurface>,
) -> bool {
    let debt = agent_grants(inventory, agent_id);
    let js = judgements(debt, version, report);
    let surfaces = judged_ids(js);
    &&& a.required
    &&& views(a.surface_kinds@) == surface_kind_list()
    &&& views(a.excluded_surface_kinds@) == excluded_kind_list()
    &&& views(a.allowed_deferrals@) == allowed_deferral_list()
    &&& a.pre_run_debt_count == distinct_ids(grant_ids(debt)).len()
    &&& a.expected_post_run_debt_count == preexisting_of(js).len()
    &&& evidence_views(a.discovered_upstream_surface@) == evidence_rows(discovered_of(js), evidence_of(report))
    &&& a.unmatched_debt_surface@ == (if report is Some { unmatched } else { Seq::empty() })
    &&& debt_backed_views(a.preexisting_unsupported_surface@) == preexisting_of(js)
    &&& a.eligible_preexisting_surface@.len() == 0
    &&& id_views(a.missing_wrapper_support@) == surfaces
    &&& id_views(a.missing_backend_support@) == surfaces
    &&& uplift_views(a.required_uplifts_this_run@) == uplift_rows(discovered_of(js))
    &&& deferred_views(a.deferred_preexisting_gaps@) == deferred_of(js)
    &&& impact_views(a.publication_impacts@) == impact_rows(surfaces)
}

pub open spec fn report_view(report: Option<(String, Vec<TargetedGap>)>) -> Option<(Seq<char>, Seq<(IdView, Seq<Seq<char>>)>)> {
    match report {
        Some((reference, gaps)) => Some((reference@, gap_views(gaps@))),
        None => None,
    }
}

/// The agent's rows of the scoped inventory, in inventory order.
pub fn agent_inventory_rows(agent_id: &str, inventory: Vec<GrantRow>) -> (r: Vec<GrantRow>)
    ensures
        r@ == agent_grants(inventory@, agent_id@),
{
    let ghost all = inventory@;
    let mut rest = inventory;
    let mut debt: Vec<GrantRow> = Vec::new();
    assert(all.subrange(0, 0) =~= Seq::<GrantRow>::empty());
    assert(rest@ =~= all.subrange(0, all.len() as int));
    while rest.len() > 0
        invariant
            rest.len() <= all.len(),
            rest@ == all.subrange(all.len() - rest.len(), all.len() as int),
            debt@ == agent_grants(all.subrange(0, all.len() - rest.len()), agent_id@),
        decreases rest.len(),
    {
        let ghost i = all.len() - rest.len();
        let row = rest.remove(0);
        proof {
            assert(row == all[i]);
            assert(rest@ =~= all.subrange(i + 1, all.len() as int));
            assert(all.subrange(0, i + 1).drop_last() =~= all.subrange(0, i));
            assert(all.subrange(0, i + 1).last() == all[i]);
        }
        if str_eq(row.agent_id.as_str(), agent_id) {
            let ghost before = debt@;
            debt.push(row);
            assert(debt@ =~= before.push(all[i]));
        }
    }
    assert(all.subrange(0, all.len() as int) =~= all);
    debt
}

/// How many distinct surfaces the rows name.
fn distinct_count(debt: &Vec<GrantRow>) -> (r: usize)
    ensures
        r == distinct_ids(grant_ids(debt@)).len(),
{
    let ghost ids = grant_ids(debt@);
    let mut seen: Vec<SurfaceIdentity> = Vec::new();
    let mut i: usize = 0;
    assert(ids.subrange(0, 0) =~= Seq::<IdView>::empty());
    assert(id_views(seen@) =~= Seq::<IdView>::empty());
    while i < debt.len()
        invariant
            i <= debt.len(),
            ids == grant_ids(debt@),
            id_views(seen@) == distinct_ids(ids.subrange(0, i as int)),
            seen.len() <= i,
        decreases debt.len() - i,
    {
        let id = debt[i].identity();
        proof {
            assert(ids.subrange(0, i + 1).drop_last() =~= ids.subrange(0, i as int));
            assert(ids.subrange(0, i + 1).last() == id.view());
        }
        if !contains_identity(&seen, &id) {
            let ghost before = id_views(seen@);
            seen.push(id);
            assert(id_views(seen@) =~= before.push(id.view()));
        }
        i = i + 1;
    }
    assert(ids.subrange(0, debt.len() as int) =~= ids);
    seen.len()
}

pub open spec fn judged_view<'a>(j: (SurfaceIdentity, Option<&'a GrantRow>, bool)) -> Judgement {
    (j.0.view(), match j.1 {
        Some(r) => Some(*r),
        None => None,
    }, j.2)
}

pub open spec fn judged_views<'a>(v: Seq<(SurfaceIdentity, Option<&'a GrantRow>, bool)>) -> Seq<Judgement> {
    v.map_values(|j: (SurfaceIdentity, Option<&'a GrantRow>, bool)| judged_view(j))
}

/// Judge the report's gaps against the agent's grants, or, with no report, each row by itself.
fn judge_surfaces<'a>(debt: &'a Vec<GrantRow>, version: &str, gaps: Option<&Vec<TargetedGap>>) -> (r: Vec<(SurfaceIdentity, Option<&'a GrantRow>, bool)>)
    ensures
        judged_views(r@) == judgements(debt@, version@, match gaps {
            Some(g) => Some((Seq::<char>::empty(), gap_views(g@))),
            None => None,
        }),
{
    let mut out: Vec<(SurfaceIdentity, Option<&'a GrantRow>, bool)> = Vec::new();
    match gaps {
        Some(g) => {
            let ghost gv = gap_views(g@);
            let ghost want = gv.map_values(|x: (IdView, Seq<Seq<char>>)| gap_judgement(debt@, version@, x));
            let mut k: usize = 0;
            while k < g.len()
                invariant
                    k <= g.len(),
                    gv == gap_views(g@),
                    want == gv.map_values(|x: (IdView, Seq<Seq<char>>)| gap_judgement(debt@, version@, x)),
                    judged_views(out@) == want.subrange(0, k as int),
                decreases g.len() - k,
            {
                let auth = authorize_gap(&g[k], version, debt.as_slice());
                let first: Option<&'a GrantRow> = if auth.applicable_rows.len() > 0 {
                    Some(auth.applicable_rows[0])
                } else {
                    None
                };
                let left = auth.remaining_targets.len() > 0;
                let ghost before = judged_views(out@);
                out.push((g[k].identity.duplicate(), first, left));
                proof {
                    assert(gv[k as int] == gap_view(g@[k as int]));
                    assert(want[k as int] == gap_judgement(debt@, version@, gv[k as int]));
                    assert(derefs(auth.applicable_rows@).len() == auth.applicable_rows@.len());
                    if auth.applicable_rows.len() > 0 {
                        assert(derefs(auth.applicable_rows@)[0] == *auth.applicable_rows@[0]);
                    }
                    assert(views(auth.remaining_targets@).len() == auth.remaining_targets@.len());
                    assert(judged_views(out@) =~= before.push(want[k as int]));
                    assert(want.subrange(0, k + 1) =~= want.subrange(0, k as int).push(want[k as int]));
                }
                k = k + 1;
            }
            assert(want.subrange(0, g.len() as int) =~= want);
        },
        None => {
            let ghost want = debt@.map_values(|r: GrantRow| (r.id_view(), Some(r), false));
            let mut k: usize = 0;
            while k < debt.len()
                invariant
                    k <= debt.len(),
                    want == debt@.map_values(|r: GrantRow| (r.id_view(), Some(r), false)),
                    judged_views(out@) == want.subrange(0, k as int),
                decreases debt.len() - k,
            {
                let row: &'a GrantRow = &debt[k];
                let ghost before = judged_views(out@);
                out.push((row.identity(), Some(row), false));
                proof {
                    assert(judged_views(out@) =~= before.push(want[k as int]));
                    assert(want.subrange(0, k + 1) =~= want.subrange(0, k as int).push(want[k as int]));
                }
                k = k + 1;
            }
            assert(want.subrange(0, debt.len() as int) =~= want);
        },
    }
    out
}

fn copy_identities(v: &Vec<SurfaceIdentity>) -> (r: Vec<SurfaceIdentity>)
    ensures
        id_views(r@) == id_views(v@),
{
    let mut out: Vec<SurfaceIdentity> = Vec::new();
    let mut i: usize = 0;
    while i < v.len()
        invariant
            i <= v.len(),
            id_views(out@) == id_views(v@).subrange(0, i as int),
        decreases v.len() - i,
    {
        let ghost before = id_views(out@);
        out.push(v[i].duplicate());
        assert(id_views(out@) =~= before.push(v@[i as int].view()));
        assert(id_views(v@)[i as int] == v@[i as int].view());
        assert(id_views(out@) =~= id_views(v@).subrange(0, i + 1));
        i = i + 1;
    }
    assert(id_views(v@).subrange(0, v.len() as int) =~= id_views(v@));
    out
}

/// Derive the support-surface audit for `agent_id` at the release's `version` from the scoped
/// support-debt inventory, the live coverage report (its repo-relative reference and the gaps
/// its exact-target reports list, each with its targets) when one exists, and the classification
/// of the debt rows that report leaves unmatched.
///
/// Each judged surface is a publication impact. A gap is deferred by the applicable grant (same
/// surface, same version, a shared target) with the least row id, and each of its targets that
/// no applicable grant covers is left for this run: the gap is then also a required uplift.
pub fn derive_support_surface_audit(
    agent_id: &str,
    version: &str,
    inventory: Vec<GrantRow>,
    report: Option<(String, Vec<TargetedGap>)>,
    unmatched_debt_surface: Vec<UnmatchedDebtSurface>,
) -> (r: SupportSurfaceAudit)
    ensures
        audit_holds(r, agent_id@, version@, inventory@, report_view(report), unmatched_debt_surface@),
{
    let ghost rv = report_view(report);
    let debt = agent_inventory_rows(agent_id, inventory);
    let pre_run_debt_count = distinct_count(&debt);
    let has_report = report.is_some();
    let (evidence, judged) = match &report {
        Some((reference, gaps)) => (to_owned(reference.as_str()), judge_surfaces(&debt, version, Some(gaps))),
        None => (to_owned(NON_TUI_SUPPORT_DEBT_PATH), judge_surfaces(&debt, version, None)),
    };
    let ghost js = judged_views(judged@);
    assert(js == judgements(debt@, version@, rv));
    assert(evidence@ == evidence_of(rv));
    let mut surfaces: Vec<SurfaceIdentity> = Vec::new();
    let mut preexisting: Vec<DebtBackedSurface> = Vec::new();
    let mut discovered: Vec<EvidenceBackedSurface> = Vec::new();
    let mut deferred: Vec<DeferredGap> = Vec::new();
    let mut impacts: Vec<PublicationImpact> = Vec::new();
    let mut uplifts: Vec<RequiredUplift> = Vec::new();
    let mut k: usize = 0;
    proof {
        assert(js.subrange(0, 0) =~= Seq::<Judgement>::empty());
        assert(id_views(surfaces@) =~= Seq::<IdView>::empty());
        assert(debt_backed_views(preexisting@) =~= Seq::<(IdView, Seq<char>)>::empty());
        assert(evidence_views(discovered@) =~= Seq::<(IdView, Seq<char>)>::empty());
        assert(deferred_views(deferred@) =~= Seq::<(IdView, Seq<char>, Option<Seq<char>>)>::empty());
        assert(impact_views(impacts@) =~= Seq::<(IdView, Seq<char>)>::empty());
        assert(uplift_views(uplifts@) =~= Seq::<(IdView, Seq<char>, Seq<Seq<char>>)>::empty());
    }
    while k < judged.len()
        invariant
            k <= judged.len(),
            js == judged_views(judged@),
            id_views(surfaces@) == judged_ids(js.subrange(0, k as int)),
            debt_backed_views(preexisting@) == preexisting_of(js.subrange(0, k as int)),
            deferred_views(deferred@) == deferred_of(js.subrange(0, k as int)),
            evidence_views(discovered@) == evidence_rows(discovered_of(js.subrange(0, k as int)), evidence@),
            uplift_views(uplifts@) == uplift_rows(discovered_of(js.subrange(0, k as int))),
            impact_views(impacts@) == impact_rows(judged_ids(js.subrange(0, k as int))),
        decreases judged.len() - k,
    {
        let surface = &judged[k].0;
        let ghost sid = surface.view();
        let ghost jk = js[k as int];
        proof {
            assert(jk == judged_view(judged@[k as int]));
            assert(js.subrange(0, k + 1).drop_last() =~= js.subrange(0, k as int));
            assert(js.subrange(0, k + 1).last() == jk);
            assert(judged_ids(js.subrange(0, k + 1)) =~= judged_ids(js.subrange(0, k as int)).push(sid));
        }
        let ghost before_ids = id_views(surfaces@);
        surfaces.push(surface.duplicate());
        assert(id_views(surfaces@) =~= before_ids.push(sid));
        let ghost before_impacts = impact_views(impacts@);
        impacts.push(PublicationImpact {
            surface_kind: to_owned(surface.surface_kind.as_str()),
            command_path: to_owned(surface.command_path.as_str()),
            surface_id: to_owned(surface.surface_id.as_str()),
            surface_doc: to_owned(SUPPORT_MATRIX_DOC_PATH),
        });
        assert(impact_views(impacts@) =~= before_impacts.push((sid, SUPPORT_MATRIX_DOC_PATH@)));
        assert(impact_rows(judged_ids(js.subrange(0, k + 1))) =~= impact_rows(judged_ids(js.subrange(0, k as int))).push((sid, SUPPORT_MATRIX_DOC_PATH@)));
        match judged[k].1 {
            Some(row) => {
                let ghost before_pre = debt_backed_views(preexisting@);
                preexisting.push(DebtBackedSurface {
                    surface_kind: to_owned(surface.surface_kind.as_str()),
                    command_path: to_owned(surface.command_path.as_str()),
                    surface_id: to_owned(surface.surface_id.as_str()),
                    debt_ref: row.debt_ref(),
                });
                assert(debt_backed_views(preexisting@) =~= before_pre.push((sid, grant_debt_ref(*row))));
                let ghost before_def = deferred_views(deferred@);
                deferred.push(DeferredGap {
                    surface_kind: to_owned(surface.surface_kind.as_str()),
                    command_path: to_owned(surface.command_path.as_str()),
                    surface_id: to_owned(surface.surface_id.as_str()),
                    defer_reason: to_owned(row.blocker_class.as_str()),
                    blocking_follow_on: Some(to_owned(row.follow_on.as_str())),
                });
                assert(deferred_views(deferred@) =~= before_def.push((sid, row.blocker_class@, Some(row.follow_on@))));
            },
            None => {},
        }
        if judged[k].2 {
            let ghost before_dis = evidence_views(discovered@);
            discovered.push(EvidenceBackedSurface {
                surface_kind: to_owned(surface.surface_kind.as_str()),
                command_path: to_owned(surface.command_path.as_str()),
                surface_id: to_owned(surface.surface_id.as_str()),
                evidence_ref: to_owned(evidence.as_str()),
            });
            assert(evidence_views(discovered@) =~= before_dis.push((sid, evidence@)));
            assert(evidence_rows(discovered_of(js.subrange(0, k + 1)), evidence@) =~= evidence_rows(discovered_of(js.subrange(0, k as int)), evidence@).push((sid, evidence@)));
            let ghost before_up = uplift_views(uplifts@);
            uplifts.push(RequiredUplift {
                surface_kind: to_owned(surface.surface_kind.as_str()),
                command_path: to_owned(surface.command_path.as_str()),
                surface_id: to_owned(surface.surface_id.as_str()),
                reason: to_owned("new_upstream_surface"),
                required_writes: required_writes(),
            });
            assert(uplift_views(uplifts@) =~= before_up.push((sid, "new_upstream_surface"@, required_write_list())));
            assert(uplift_rows(discovered_of(js.subrange(0, k + 1))) =~= uplift_rows(discovered_of(js.subrange(0, k as int))).push((sid, "new_upstream_surface"@, required_write_list())));
        }
        k = k + 1;
    }
    assert(js.subrange(0, judged.len() as int) =~= js);
    let missing_wrapper_support = copy_identities(&surfaces);
    let missing_backend_support = surfaces;
    let expected_post_run_debt_count = preexisting.len();
    let unmatched = if has_report {
        unmatched_debt_surface
    } else {
        Vec::new()
    };
    SupportSurfaceAudit {
        required: true,
        surface_kinds: surface_kinds(),
        excluded_surface_kinds: excluded_surface_kinds(),
        allowed_deferrals: allowed_deferrals(),
        pre_run_debt_count,
        expected_post_run_debt_count,
        discovered_upstream_surface: discovered,
        unmatched_debt_surface: unmatched,
        preexisting_unsupported_surface: preexisting,
        eligible_preexisting_surface: Vec::new(),
        missing_wrapper_support,
        missing_backend_support,
        required_uplifts_this_run: uplifts,
        deferred_preexisting_gaps: deferred,
        publication_impacts: impacts,
    }
}

proof fn lemma_split_counts(js: Seq<Judgement>)
    requires
        forall|i: int| 0 <= i < js.len() ==> (#[trigger] js[i]).1 is Some || js[i].2,
    ensures
        discovered_of(js).len() + preexisting_of(js).len() >= js.len(),
        deferred_of(js).len() == preexisting_of(js).len(),
    decreases js.len(),
{
    if js.len() > 0 {
        assert forall|i: int| 0 <= i < js.drop_last().len() implies (#[trigger] js.drop_last()[i]).1 is Some || js.drop_last()[i].2 by {
            assert(js.drop_last()[i] == js[i]);
        }
        lemma_split_counts(js.drop_last());
        assert(js[js.len() - 1] == js.last());
    }
}

proof fn lemma_no_grant_leaves_every_target(targets: Seq<Seq<char>>)
    ensures
        uncovered(targets, Seq::<GrantRow>::empty()) == targets,
    decreases targets.len(),
{
    if targets.len() > 0 {
        lemma_no_grant_leaves_every_target(targets.drop_last());
        assert(!crate::support_authorization::covered(Seq::<GrantRow>::empty(), targets.last()));
        assert(targets.drop_last().push(targets.last()) =~= targets);
    }
}

proof fn lemma_sorted_len(s: Seq<GrantRow>)
    ensures
        sort_by_row_id(s).len() == s.len(),
    decreases s.len(),
{
    if s.len() > 0 {
        lemma_sorted_len(s.drop_last());
        lemma_insert_len(sort_by_row_id(s.drop_last()), s.last());
    }
}

proof fn lemma_insert_len(s: Seq<GrantRow>, x: GrantRow)
    ensures
        crate::support_authorization::insert_by_row_id(s, x).len() == s.len() + 1,
    decreases s.len(),
{
    if s.len() > 0 {
        lemma_insert_len(s.drop_last(), x);
    }
}

/// No surface the audit judges slips through: a report gap that some exact-target report lists
/// for at least one target is deferred by a grant, left as a required uplift, or both (a grant
/// for some of its targets defers it while its other targets are uplifted). So the uplifts and
/// the deferred gaps together are at least as many as the publication impacts.
pub proof fn law_each_gap_is_deferred_or_uplifted(
    a: SupportSurfaceAudit,
    agent_id: Seq<char>,
    version: Seq<char>,
    inventory: Seq<GrantRow>,
    report: Option<(Seq<char>, Seq<(IdView, Seq<Seq<char>>)>)>,
    unmatched: Seq<UnmatchedDebtSurface>,
)
    requires
        audit_holds(a, agent_id, version, inventory, report, unmatched),
        report matches Some((_, gaps)) ==> forall|i: int| 0 <= i < gaps.len() ==> (#[trigger] gaps[i]).1.len() > 0,
    ensures
        a.required_uplifts_this_run@.len() + a.deferred_preexisting_gaps@.len() >= a.publication_impacts@.len(),
{
    let debt = agent_grants(inventory, agent_id);
    let js = judgements(debt, version, report);
    assert forall|i: int| 0 <= i < js.len() implies (#[trigger] js[i]).1 is Some || js[i].2 by {
        match report {
            Some((_, gaps)) => {
                let g = gaps[i];
                let grants = applicable(debt, g.0, version, g.1);
                lemma_sorted_len(grants);
                if grants.len() == 0 {
                    assert(grants =~= Seq::<GrantRow>::empty());
                    lemma_no_grant_leaves_every_target(g.1);
                }
            },
            None => {},
        }
    }
    lemma_split_counts(js);
    assert(uplift_views(a.required_uplifts_this_run@).len() == a.required_uplifts_this_run@.len());
    assert(deferred_views(a.deferred_preexisting_gaps@).len() == a.deferred_preexisting_gaps@.len());
    assert(impact_views(a.publication_impacts@).len() == a.publication_impacts@.len());
}

} // verus!

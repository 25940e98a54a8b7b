//! Authorized support debt: inventory rows that defer a surface for named targets at one exact
//! upstream version, each backed by the coverage report that observed it.
use vstd::prelude::*;

use crate::agent_registry::AgentRegistryEntry;
use crate::json_tree::{get_member, json_of, jsons_of, lemma_jsons_of, member, members_of, parse_json, spec_json, JsonTree, JsonValue};
use crate::manifest_union::debug_option;
use crate::onboard_preview::debug_quote;
use crate::paths::{components, parts_view, path_parts, Part, PartView};
use crate::strset::{ascending, lemma_lex_total, lex_lt, set_insert, text_lt};
use crate::support_audit::{identity_eq, NON_TUI_SUPPORT_DEBT_PATH, gap_list_view, gap_lists, json_string_items, json_strings, row_surface, surface_from_report_value, IdView, ReportList, ReportRowShape, SurfaceIdentity};
use crate::onboard_agent::trims;
use crate::support_audit::{allowed_deferral_list, field_value, fields_view, is_allowed_deferral, key_value, parse_key_value};
use crate::text::{blank, is_blank, split, split_text, lemma_split_len, trim, trimmed};
use crate::text::{cat2, cat3, ends_with, has_prefix, has_suffix, join, join_text, starts_with, str_eq, to_owned, views};

verus! {

/// An inventory problem, as the inventory reports it.
pub open spec fn inventory_text(m: Seq<char>) -> Seq<char> {
    "parse support debt inventory: "@ + m
}

fn inventory_error(m: &str) -> (r: String)
    ensures
        r@ == inventory_text(m@),
{
    cat2("parse support debt inventory: ", m)
}

/// One row of the authorized support-debt inventory.
#[derive(Debug, Clone)]
pub struct DebtInventoryRow {
    pub row_id: String,
    pub agent_id: String,
    pub surface_kind: String,
    pub command_path: String,
    pub surface_id: String,
    pub current_reason: String,
    pub blocker_class: String,
    pub owner: String,
    pub milestone: String,
    pub follow_on: String,
    pub evidence_ref: String,
    /// The targets the deferral covers, ascending.
    pub scope_target_triples: Vec<String>,
    pub authorized_at_version: String,
    pub authorization_evidence_ref: String,
}

impl DebtInventoryRow {
    pub open spec fn id_view(self) -> IdView {
        (self.surface_kind@, self.command_path@, self.surface_id@)
    }

    pub fn identity(&self) -> (r: SurfaceIdentity)
        ensures
            r.view() == self.id_view(),
    {
        SurfaceIdentity::new(
            to_owned(self.surface_kind.as_str()),
            to_owned(self.command_path.as_str()),
            to_owned(self.surface_id.as_str()),
        )
    }

    /// Where the row lives: the inventory's path, `#`, and the row id.
    pub fn debt_ref(&self) -> (r: String)
        ensures
            r@ == NON_TUI_SUPPORT_DEBT_PATH@ + "#"@ + self.row_id@,
    {
        cat3(NON_TUI_SUPPORT_DEBT_PATH, "#", self.row_id.as_str())
    }
}

// ---------------------------------------------------------------------------------------------
// Where the evidence may live

pub open spec fn all_normal(parts: Seq<PartView>) -> bool {
    forall|k: int| 0 <= k < parts.len() ==> #[trigger] parts[k] is Normal
}

/// The components of `base.join(rel)`: `rel`'s alone when it is absolute, else `base`'s then
/// `rel`'s (a leading `.` of `rel` falls inside the joined path and is dropped).
pub open spec fn joined_parts(base: Seq<PartView>, rel: Seq<char>) -> Seq<PartView> {
    let rp = path_parts(rel);
    if rel.len() > 0 && rel[0] == '/' {
        rp
    } else if rp.len() > 0 && rp[0] is Current {
        base + rp.drop_first()
    } else {
        base + rp
    }
}

/// The directory every authorization report of a row lives in:
/// `<manifest_root>/reports/<authorized_at_version>`.
pub open spec fn report_dir_parts(manifest_root: Seq<char>, version: Seq<char>) -> Seq<PartView> {
    joined_parts(joined_parts(path_parts(manifest_root), "reports"@), version)
}

pub open spec fn coverage_file(p: PartView) -> bool {
    p matches PartView::Normal(n) && has_prefix(n, "coverage."@) && has_suffix(n, ".json"@)
}

/// Why a row's `authorization_evidence_ref` cannot name its coverage report, if it cannot.
pub open spec fn evidence_ref_problem(manifest_root: Seq<char>, row: DebtInventoryRow) -> Option<Seq<char>> {
    let parts = path_parts(row.authorization_evidence_ref@);
    if !all_normal(parts) {
        Some(inventory_text("debt row `"@ + row.row_id@ + "` authorization_evidence_ref must be a repository-relative coverage report"@))
    } else if parts.len() == 0 || parts.drop_last() != report_dir_parts(manifest_root, row.authorized_at_version@)
        || !coverage_file(parts.last()) {
        Some(inventory_text("debt row `"@ + row.row_id@ + "` authorization_evidence_ref `"@ + row.authorization_evidence_ref@
            + "` is not a coverage report for agent `"@ + row.agent_id@ + "` at version `"@ + row.authorized_at_version@ + "`"@))
    } else {
        None
    }
}

fn join_parts(base: Vec<Part>, rel: &str) -> (r: Vec<Part>)
    ensures
        parts_view(r@) == joined_parts(parts_view(base@), rel@),
{
    let rp = components(rel);
    if rel.unicode_len() > 0 && rel.get_char(0) == '/' {
        return rp;
    }
    let mut out = base;
    let ghost start = parts_view(out@);
    let skip: usize = if rp.len() > 0 && matches!(rp[0], Part::Current) { 1 } else { 0 };
    proof {
        if rp.len() > 0 {
            assert(parts_view(rp@)[0] == rp@[0].view());
        }
    }
    let mut i: usize = skip;
    let ghost tail = parts_view(rp@).subrange(skip as int, rp.len() as int);
    assert(out@.len() == start.len());
    while i < rp.len()
        invariant
            skip <= i <= rp.len(),
            tail == parts_view(rp@).subrange(skip as int, rp.len() as int),
            parts_view(out@) == start + tail.subrange(0, i - skip),
        decreases rp.len() - i,
    {
        let ghost before = parts_view(out@);
        let p = match &rp[i] {
            Part::Root => Part::Root,
            Part::Current => Part::Current,
            Part::Parent => Part::Parent,
            Part::Normal(s) => Part::Normal(to_owned(s.as_str())),
        };
        assert(p.view() == rp@[i as int].view());
        out.push(p);
        proof {
            assert(parts_view(out@) =~= before.push(rp@[i as int].view()));
            assert(tail.subrange(0, i + 1 - skip) =~= tail.subrange(0, i - skip).push(parts_view(rp@)[i as int]));
        }
        i = i + 1;
    }
    proof {
        assert(tail.subrange(0, rp.len() - skip) =~= tail);
        if skip == 1 {
            assert(tail =~= parts_view(rp@).drop_first());
        } else {
            assert(tail =~= parts_view(rp@));
        }
    }
    out
}

fn same_part(a: &Part, b: &Part) -> (r: bool)
    ensures
        r == (a.view() == b.view()),
{
    match (a, b) {
        (Part::Root, Part::Root) => true,
        (Part::Current, Part::Current) => true,
        (Part::Parent, Part::Parent) => true,
        (Part::Normal(x), Part::Normal(y)) => str_eq(x.as_str(), y.as_str()),
        _ => false,
    }
}

/// Whether the first `n` parts of `a` are exactly `b`.
fn prefix_parts_equal(a: &Vec<Part>, n: usize, b: &Vec<Part>) -> (r: bool)
    requires
        n <= a.len(),
    ensures
        r == (parts_view(a@).subrange(0, n as int) == parts_view(b@)),
{
    if n != b.len() {
        assert(parts_view(a@).subrange(0, n as int).len() != parts_view(b@).len());
        return false;
    }
    let mut i: usize = 0;
    while i < n
        invariant
            n <= a.len(),
            n == b.len(),
            i <= n,
            forall|k: int| 0 <= k < i ==> #[trigger] a@[k].view() == b@[k].view(),
        decreases n - i,
    {
        if !same_part(&a[i], &b[i]) {
            assert(parts_view(a@).subrange(0, n as int)[i as int] == a@[i as int].view());
            assert(parts_view(b@)[i as int] == b@[i as int].view());
            return false;
        }
        i = i + 1;
    }
    assert(parts_view(a@).subrange(0, n as int) =~= parts_view(b@));
    true
}

/// Check where a row's authorization evidence lives: a coverage report in the row's agent's
/// `reports/<version>` directory, named by a repository-relative path of normal components.
pub fn check_evidence_ref(manifest_root: &str, row: &DebtInventoryRow) -> (r: Result<(), String>)
    ensures
        match evidence_ref_problem(manifest_root@, *row) {
            None => r is Ok,
            Some(m) => r matches Err(e) && e@ == m,
        },
{
    let parts = components(row.authorization_evidence_ref.as_str());
    let ghost pv = parts_view(parts@);
    let mut i: usize = 0;
    while i < parts.len()
        invariant
            i <= parts.len(),
            pv == parts_view(parts@),
            pv == path_parts(row.authorization_evidence_ref@),
            forall|k: int| 0 <= k < i ==> #[trigger] pv[k] is Normal,
        decreases parts.len() - i,
    {
        assert(pv[i as int] == parts@[i as int].view());
        match &parts[i] {
            Part::Normal(_) => {},
            _ => {
                assert(!(pv[i as int] is Normal));
                assert(!all_normal(pv));
                let m = cat3("debt row `", row.row_id.as_str(), "` authorization_evidence_ref must be a repository-relative coverage report");
                return Err(inventory_error(m.as_str()));
            },
        }
        i = i + 1;
    }
    let expected = join_parts(join_parts(components(manifest_root), "reports"), row.authorized_at_version.as_str());
    proof {
        reveal_strlit("reports");
    }
    let ok = parts.len() > 0 && prefix_parts_equal(&parts, parts.len() - 1, &expected) && match &parts[parts.len() - 1] {
        Part::Normal(n) => starts_with(n.as_str(), "coverage.") && ends_with(n.as_str(), ".json"),
        _ => false,
    };
    proof {
        if parts.len() > 0 {
            assert(pv.drop_last() =~= pv.subrange(0, parts.len() - 1));
            assert(pv.last() == parts@[parts.len() - 1].view());
        }
    }
    if !ok {
        let mut m = cat3("debt row `", row.row_id.as_str(), "` authorization_evidence_ref `");
        m.append(row.authorization_evidence_ref.as_str());
        m.append("` is not a coverage report for agent `");
        m.append(row.agent_id.as_str());
        m.append("` at version `");
        m.append(row.authorized_at_version.as_str());
        m.append("`");
        return Err(inventory_error(m.as_str()));
    }
    Ok(())
}

// ---------------------------------------------------------------------------------------------
// What the evidence observed

/// `value.get(key)`: a member of an object, `None` for anything else.
pub open spec fn json_get(t: JsonTree, key: Seq<char>) -> Option<JsonTree> {
    match t {
        JsonTree::Object(m) => member(m, key),
        _ => None,
    }
}

/// `value.pointer("/inputs/upstream/<field>")`.
pub open spec fn upstream_input(doc: JsonTree, field: Seq<char>) -> Option<JsonTree> {
    match json_get(doc, "inputs"@) {
        None => None,
        Some(inputs) => match json_get(inputs, "upstream"@) {
            None => None,
            Some(upstream) => json_get(upstream, field),
        },
    }
}

pub open spec fn report_version(doc: JsonTree) -> Option<Seq<char>> {
    match upstream_input(doc, "semantic_version"@) {
        Some(JsonTree::Str(s)) => Some(s),
        _ => None,
    }
}

pub open spec fn report_targets(doc: JsonTree) -> Option<Seq<Seq<char>>> {
    match upstream_input(doc, "targets"@) {
        Some(JsonTree::Array(items)) => json_strings(items),
        _ => None,
    }
}

/// The report's upstream version must be the expected one.
pub open spec fn version_problem(path: Seq<char>, doc: JsonTree, expected: Seq<char>) -> Option<Seq<char>> {
    if report_version(doc) != Some(expected) {
        Some(inventory_text(path + " upstream semantic_version "@ + debug_option(report_version(doc)) + " does not equal `"@ + expected + "`"@))
    } else {
        None
    }
}

/// The targets the matching rows of one list observed, among the report's targets; or why a
/// row is not usable.
pub open spec fn rows_observed(agent: Seq<char>, row_id: Seq<char>, id: IdView, path: Seq<char>, allowed: Set<Seq<char>>, rows: Seq<JsonTree>) -> Result<Set<Seq<char>>, Seq<char>>
    decreases rows.len(),
{
    if rows.len() == 0 {
        Ok(Set::empty())
    } else {
        match rows_observed(agent, row_id, id, path, allowed, rows.drop_last()) {
            Err(e) => Err(e),
            Ok(seen) => match row_surface(agent, rows.last()) {
                Err(e) => Err(e),
                Ok((_, found)) => if found != id {
                    Ok(seen)
                } else {
                    match json_get(rows.last(), "upstream_available_on"@) {
                        Some(JsonTree::Array(ts)) => match json_strings(ts) {
                            None => Err(inventory_text(path + " evidence row upstream_available_on values must be strings"@)),
                            Some(names) => Ok(seen + names.to_set().intersect(allowed)),
                        },
                        _ => Err(inventory_text(path + " evidence row for `"@ + row_id + "` is missing upstream_available_on"@)),
                    }
                },
            },
        }
    }
}

/// The targets every gap list's matching rows observed, list by list.
pub open spec fn lists_observed(
    agent: Seq<char>,
    row_id: Seq<char>,
    id: IdView,
    path: Seq<char>,
    allowed: Set<Seq<char>>,
    deltas: Seq<(Seq<char>, JsonTree)>,
    lists: Seq<(Seq<char>, Option<ReportRowShape>, bool)>,
) -> Result<Set<Seq<char>>, Seq<char>>
    decreases lists.len(),
{
    if lists.len() == 0 {
        Ok(Set::empty())
    } else {
        match lists_observed(agent, row_id, id, path, allowed, deltas, lists.drop_last()) {
            Err(e) => Err(e),
            Ok(seen) => {
                let l = lists.last();
                let missing = inventory_text(path + " is missing `deltas."@ + l.0 + "` array"@);
                match member(deltas, l.0) {
                    None => if l.2 { Err(missing) } else { Ok(seen) },
                    Some(JsonTree::Array(rows)) => match rows_observed(agent, row_id, id, path, allowed, rows) {
                        Err(e) => Err(e),
                        Ok(more) => Ok(seen + more),
                    },
                    Some(_) => Err(missing),
                }
            },
        }
    }
}

/// What a row's authorization evidence says: the report must be for the row's version, name
/// its upstream targets, and observe the row's surface on every target of the row's scope.
pub open spec fn evidence_verdict(agent: Seq<char>, row: DebtInventoryRow, path: Seq<char>, report: Result<Seq<char>, Seq<char>>) -> Result<(), Seq<char>> {
    match report {
        Err(m) => Err(inventory_text("read "@ + path + ": "@ + m)),
        Ok(text) => match spec_json(text) {
            Err(e) => Err(inventory_text("parse "@ + path + ": "@ + e)),
            Ok(doc) => match version_problem(path, doc, row.authorized_at_version@) {
                Some(e) => Err(e),
                None => match report_targets(doc) {
                    None => Err(inventory_text(path + " has no usable `inputs.upstream.targets`"@)),
                    Some(ts) => match json_get(doc, "deltas"@) {
                        Some(JsonTree::Object(d)) => match lists_observed(agent, row.row_id@, row.id_view(), path, ts.to_set(), d, gap_list_view()) {
                            Err(e) => Err(e),
                            Ok(seen) => {
                                let scope = views(row.scope_target_triples@);
                                if scope.to_set().subset_of(seen) {
                                    Ok(())
                                } else {
                                    Err(inventory_text("debt row `"@ + row.row_id@ + "` scope exceeds surface observations in `"@
                                        + row.authorization_evidence_ref@ + "`: "@ + join(scope.filter(|t: Seq<char>| !seen.contains(t)), ", "@)))
                                }
                            },
                        },
                        _ => Err(inventory_text(path + " is missing `deltas` object"@)),
                    },
                },
            },
        },
    }
}

fn json_field<'a>(v: &'a JsonValue, key: &str) -> (r: Option<&'a JsonValue>)
    ensures
        match r {
            Some(x) => json_get(json_of(*v), key@) == Some(json_of(*x)),
            None => json_get(json_of(*v), key@) is None,
        },
{
    match v {
        JsonValue::Object(m) => get_member(m, key),
        _ => None,
    }
}

fn upstream_field<'a>(doc: &'a JsonValue, field: &str) -> (r: Option<&'a JsonValue>)
    ensures
        match r {
            Some(x) => upstream_input(json_of(*doc), field@) == Some(json_of(*x)),
            None => upstream_input(json_of(*doc), field@) is None,
        },
{
    proof {
        reveal_strlit("inputs");
        reveal_strlit("upstream");
    }
    match json_field(doc, "inputs") {
        None => None,
        Some(inputs) => match json_field(inputs, "upstream") {
            None => None,
            Some(upstream) => json_field(upstream, field),
        },
    }
}

fn text_listed(items: &Vec<String>, v: &str) -> (r: bool)
    ensures
        r == views(items@).contains(v@),
{
    let mut j: usize = 0;
    while j < items.len()
        invariant
            j <= items.len(),
            forall|m: int| 0 <= m < j ==> items@[m]@ != v@,
        decreases items.len() - j,
    {
        if str_eq(items[j].as_str(), v) {
            assert(views(items@)[j as int] == v@);
            return true;
        }
        j = j + 1;
    }
    proof {
        if views(items@).contains(v@) {
            let m = choose|m: int| 0 <= m < views(items@).len() && views(items@)[m] == v@;
            assert(items@[m]@ == v@);
        }
    }
    false
}

/// Add the targets a report row observed.
fn observe_targets(seen: &mut Vec<String>, names: &Vec<String>, allowed: &Vec<String>)
    requires
        ascending(views(old(seen)@)),
    ensures
        ascending(views(final(seen)@)),
        views(final(seen)@).to_set() == views(old(seen)@).to_set() + views(names@).to_set().intersect(views(allowed@).to_set()),
{
    let ghost start = views(seen@).to_set();
    let ghost av = views(allowed@).to_set();
    let mut i: usize = 0;
    assert(views(names@).subrange(0, 0).to_set().intersect(av) =~= Set::<Seq<char>>::empty());
    assert(views(seen@).to_set() =~= start + views(names@).subrange(0, 0).to_set().intersect(av));
    while i < names.len()
        invariant
            i <= names.len(),
            ascending(views(seen@)),
            av == views(allowed@).to_set(),
            views(seen@).to_set() == start + views(names@).subrange(0, i as int).to_set().intersect(av),
        decreases names.len() - i,
    {
        let ghost nv = views(names@);
        proof {
            assert(nv.subrange(0, i + 1) =~= nv.subrange(0, i as int).push(nv[i as int]));
            nv.subrange(0, i as int).lemma_push_to_set_commute(nv[i as int]);
            assert(nv[i as int] == names@[i as int]@);
        }
        if text_listed(allowed, names[i].as_str()) {
            set_insert(seen, to_owned(names[i].as_str()));
            assert(views(seen@).to_set() =~= start + nv.subrange(0, i + 1).to_set().intersect(av));
        } else {
            assert(views(seen@).to_set() =~= start + nv.subrange(0, i + 1).to_set().intersect(av));
        }
        i = i + 1;
    }
    assert(views(names@).subrange(0, names.len() as int) =~= views(names@));
}

proof fn lemma_rows_observed_prefix_err(agent: Seq<char>, row_id: Seq<char>, id: IdView, path: Seq<char>, allowed: Set<Seq<char>>, rows: Seq<JsonTree>, i: int)
    requires
        0 <= i <= rows.len(),
        rows_observed(agent, row_id, id, path, allowed, rows.subrange(0, i)) is Err,
    ensures
        rows_observed(agent, row_id, id, path, allowed, rows) == rows_observed(agent, row_id, id, path, allowed, rows.subrange(0, i)),
    decreases rows.len() - i,
{
    if i < rows.len() {
        assert(rows.subrange(0, i + 1).drop_last() =~= rows.subrange(0, i));
        lemma_rows_observed_prefix_err(agent, row_id, id, path, allowed, rows, i + 1);
    } else {
        assert(rows.subrange(0, i) =~= rows);
    }
}

/// Add the targets one list's matching rows observed.
fn observe_rows(
    seen: &mut Vec<String>,
    agent: &str,
    row: &DebtInventoryRow,
    path: &str,
    allowed: &Vec<String>,
    rows: &Vec<JsonValue>,
) -> (r: Result<(), String>)
    requires
        ascending(views(old(seen)@)),
    ensures
        ascending(views(final(seen)@)),
        match rows_observed(agent@, row.row_id@, row.id_view(), path@, views(allowed@).to_set(), jsons_of(rows@)) {
            Err(e) => r matches Err(m) && m@ == e,
            Ok(more) => r is Ok && views(final(seen)@).to_set() == views(old(seen)@).to_set() + more,
        },
{
    let ghost start = views(seen@).to_set();
    let ghost tv = jsons_of(rows@);
    let ghost av = views(allowed@).to_set();
    proof {
        lemma_jsons_of(rows@);
        assert(tv.subrange(0, 0) =~= Seq::<JsonTree>::empty());
        assert(views(seen@).to_set() =~= start + Set::<Seq<char>>::empty());
    }
    let id = row.identity();
    let mut i: usize = 0;
    while i < rows.len()
        invariant
            i <= rows.len(),
            tv == jsons_of(rows@),
            tv.len() == rows.len(),
            forall|k: int| 0 <= k < rows.len() ==> #[trigger] tv[k] == json_of(rows@[k]),
            av == views(allowed@).to_set(),
            id.view() == row.id_view(),
            ascending(views(seen@)),
            rows_observed(agent@, row.row_id@, row.id_view(), path@, av, tv.subrange(0, i as int)) matches Ok(more)
                && views(seen@).to_set() == start + more,
        decreases rows.len() - i,
    {
        let ghost pre = tv.subrange(0, i as int);
        proof {
            assert(tv.subrange(0, i + 1).drop_last() =~= pre);
            assert(tv.subrange(0, i + 1).last() == json_of(rows@[i as int]));
        }
        let (_, found) = match surface_from_report_value(agent, &rows[i]) {
            Ok(x) => x,
            Err(e) => {
                proof {
                    lemma_rows_observed_prefix_err(agent@, row.row_id@, row.id_view(), path@, av, tv, i + 1);
                    assert(tv.subrange(0, tv.len() as int) =~= tv);
                }
                return Err(e);
            },
        };
        let same = str_eq(found.surface_kind.as_str(), id.surface_kind.as_str())
            && str_eq(found.command_path.as_str(), id.command_path.as_str())
            && str_eq(found.surface_id.as_str(), id.surface_id.as_str());
        if same {
            proof {
                reveal_strlit("upstream_available_on");
            }
            let names = match json_field(&rows[i], "upstream_available_on") {
                Some(JsonValue::Array(ts)) => match json_string_items(ts) {
                    Some(n) => n,
                    None => {
                        proof {
                            lemma_rows_observed_prefix_err(agent@, row.row_id@, row.id_view(), path@, av, tv, i + 1);
                            assert(tv.subrange(0, tv.len() as int) =~= tv);
                        }
                        let m = cat2(path, " evidence row upstream_available_on values must be strings");
                        return Err(inventory_error(m.as_str()));
                    },
                },
                _ => {
                    proof {
                        lemma_rows_observed_prefix_err(agent@, row.row_id@, row.id_view(), path@, av, tv, i + 1);
                        assert(tv.subrange(0, tv.len() as int) =~= tv);
                    }
                    let mut m = cat3(path, " evidence row for `", row.row_id.as_str());
                    m.append("` is missing upstream_available_on");
                    return Err(inventory_error(m.as_str()));
                },
            };
            let ghost before = views(seen@).to_set();
            observe_targets(seen, &names, allowed);
            proof {
                let more = rows_observed(agent@, row.row_id@, row.id_view(), path@, av, pre)->Ok_0;
                assert(views(seen@).to_set() =~= start + (more + views(names@).to_set().intersect(av)));
            }
        }
        i = i + 1;
    }
    assert(tv.subrange(0, rows.len() as int) =~= tv);
    Ok(())
}

proof fn lemma_lists_observed_prefix_err(
    agent: Seq<char>,
    row_id: Seq<char>,
    id: IdView,
    path: Seq<char>,
    allowed: Set<Seq<char>>,
    deltas: Seq<(Seq<char>, JsonTree)>,
    lists: Seq<(Seq<char>, Option<ReportRowShape>, bool)>,
    i: int,
)
    requires
        0 <= i <= lists.len(),
        lists_observed(agent, row_id, id, path, allowed, deltas, lists.subrange(0, i)) is Err,
    ensures
        lists_observed(agent, row_id, id, path, allowed, deltas, lists) == lists_observed(agent, row_id, id, path, allowed, deltas, lists.subrange(0, i)),
    decreases lists.len() - i,
{
    if i < lists.len() {
        assert(lists.subrange(0, i + 1).drop_last() =~= lists.subrange(0, i));
        lemma_lists_observed_prefix_err(agent, row_id, id, path, allowed, deltas, lists, i + 1);
    } else {
        assert(lists.subrange(0, i) =~= lists);
    }
}

/// The targets the report's gap lists observed for the row's surface.
fn observe_lists(
    agent: &str,
    row: &DebtInventoryRow,
    path: &str,
    allowed: &Vec<String>,
    deltas: &Vec<(String, JsonValue)>,
) -> (r: Result<Vec<String>, String>)
    ensures
        match lists_observed(agent@, row.row_id@, row.id_view(), path@, views(allowed@).to_set(), members_of(deltas@), gap_list_view()) {
            Err(e) => r matches Err(m) && m@ == e,
            Ok(seen) => r matches Ok(v) && ascending(views(v@)) && views(v@).to_set() == seen,
        },
{
    let lists = gap_lists();
    let ghost lv = gap_list_view();
    let ghost av = views(allowed@).to_set();
    let mut seen: Vec<String> = Vec::new();
    let mut i: usize = 0;
    proof {
        assert(lv.subrange(0, 0) =~= Seq::<(Seq<char>, Option<ReportRowShape>, bool)>::empty());
        assert(views(seen@).to_set() =~= Set::<Seq<char>>::empty());
    }
    while i < 4
        invariant
            i <= 4,
            lv == gap_list_view(),
            crate::support_audit::lists_view(lists@) == lv,
            av == views(allowed@).to_set(),
            ascending(views(seen@)),
            lists_observed(agent@, row.row_id@, row.id_view(), path@, av, members_of(deltas@), lv.subrange(0, i as int)) == Ok::<Set<Seq<char>>, Seq<char>>(views(seen@).to_set()),
        decreases 4 - i,
    {
        let (key, _, required) = lists[i];
        proof {
            assert(lv.subrange(0, i + 1).drop_last() =~= lv.subrange(0, i as int));
            assert(lv.subrange(0, i + 1).last() == lv[i as int]);
            assert(lv[i as int] == crate::support_audit::list_view(lists@[i as int]));
        }
        let missing = {
            let mut m = cat3(path, " is missing `deltas.", key);
            m.append("` array");
            m
        };
        match get_member(deltas, key) {
            None => {
                if required {
                    proof {
                        lemma_lists_observed_prefix_err(agent@, row.row_id@, row.id_view(), path@, av, members_of(deltas@), lv, i + 1);
                        assert(lv.subrange(0, 4) =~= lv);
                    }
                    return Err(inventory_error(missing.as_str()));
                }
            },
            Some(JsonValue::Array(rows)) => {
                let ghost before = views(seen@).to_set();
                match observe_rows(&mut seen, agent, row, path, allowed, rows) {
                    Ok(()) => {},
                    Err(e) => {
                        proof {
                            lemma_lists_observed_prefix_err(agent@, row.row_id@, row.id_view(), path@, av, members_of(deltas@), lv, i + 1);
                            assert(lv.subrange(0, 4) =~= lv);
                        }
                        return Err(e);
                    },
                }
            },
            Some(_) => {
                proof {
                    lemma_lists_observed_prefix_err(agent@, row.row_id@, row.id_view(), path@, av, members_of(deltas@), lv, i + 1);
                    assert(lv.subrange(0, 4) =~= lv);
                }
                return Err(inventory_error(missing.as_str()));
            },
        }
        i = i + 1;
    }
    assert(lv.subrange(0, 4) =~= lv);
    Ok(seen)
}

/// Check one row's authorization evidence: where it lives, then what the coverage report at
/// `report_path` (its text, or the message reading it gave) observed.
pub fn validate_authorization_evidence(
    entry: &AgentRegistryEntry,
    row: &DebtInventoryRow,
    report_path: &str,
    report: Result<String, String>,
) -> (r: Result<(), String>)
    ensures
        match evidence_ref_problem(entry.manifest_root@, *row) {
            Some(m) => r matches Err(e) && e@ == m,
            None => match evidence_verdict(entry.agent_id@, *row, report_path@, match report { Ok(t) => Ok(t@), Err(m) => Err(m@) }) {
                Ok(()) => r is Ok,
                Err(m) => r matches Err(e) && e@ == m,
            },
        },
{
    check_evidence_ref(entry.manifest_root.as_str(), row)?;
    let text = match report {
        Ok(t) => t,
        Err(m) => {
            let mut e = cat3("read ", report_path, ": ");
            e.append(m.as_str());
            return Err(inventory_error(e.as_str()));
        },
    };
    let doc = match parse_json(text.as_str()) {
        Ok(d) => d,
        Err(m) => {
            let mut e = cat3("parse ", report_path, ": ");
            e.append(m.as_str());
            return Err(inventory_error(e.as_str()));
        },
    };
    proof {
        reveal_strlit("semantic_version");
        reveal_strlit("targets");
        reveal_strlit("deltas");
    }
    let observed = match upstream_field(&doc, "semantic_version") {
        Some(JsonValue::Str(v)) => Some(v),
        _ => None,
    };
    let version_ok = match observed {
        Some(v) => str_eq(v.as_str(), row.authorized_at_version.as_str()),
        None => false,
    };
    if !version_ok {
        let mut e = cat2(report_path, " upstream semantic_version ");
        match observed {
            Some(v) => {
                e.append("Some(");
                let q = debug_quote(v.as_str());
                e.append(q.as_str());
                e.append(")");
            },
            None => {
                e.append("None");
            },
        }
        e.append(" does not equal `");
        e.append(row.authorized_at_version.as_str());
        e.append("`");
        return Err(inventory_error(e.as_str()));
    }
    let targets = match upstream_field(&doc, "targets") {
        Some(JsonValue::Array(items)) => json_string_items(items),
        _ => None,
    };
    let targets = match targets {
        Some(t) => t,
        None => {
            let e = cat2(report_path, " has no usable `inputs.upstream.targets`");
            return Err(inventory_error(e.as_str()));
        },
    };
    let deltas = match json_field(&doc, "deltas") {
        Some(JsonValue::Object(d)) => d,
        _ => {
            let e = cat2(report_path, " is missing `deltas` object");
            return Err(inventory_error(e.as_str()));
        },
    };
    let seen = observe_lists(entry.agent_id.as_str(), row, report_path, &targets, deltas)?;
    let ghost sv = views(seen@).to_set();
    let scope = &row.scope_target_triples;
    let ghost scv = views(scope@);
    let mut excess: Vec<String> = Vec::new();
    let mut i: usize = 0;
    assert(scv.subrange(0, 0).filter(|t: Seq<char>| !sv.contains(t)) =~= Seq::<Seq<char>>::empty());
    while i < scope.len()
        invariant
            i <= scope.len(),
            scv == views(scope@),
            sv == views(seen@).to_set(),
            views(excess@) == scv.subrange(0, i as int).filter(|t: Seq<char>| !sv.contains(t)),
        decreases scope.len() - i,
    {
        proof {
            reveal(Seq::filter);
            assert(scv.subrange(0, i + 1).drop_last() =~= scv.subrange(0, i as int));
            assert(scv.subrange(0, i + 1).last() == scope@[i as int]@);
        }
        if !text_listed(&seen, scope[i].as_str()) {
            proof {
                assert(!views(seen@).contains(scope@[i as int]@));
                assert(!sv.contains(scope@[i as int]@));
            }
            let ghost before = views(excess@);
            excess.push(to_owned(scope[i].as_str()));
            assert(views(excess@) =~= before.push(scope@[i as int]@));
        } else {
            proof {
                assert(sv.contains(scope@[i as int]@));
            }
        }
        i = i + 1;
    }
    assert(scv.subrange(0, scope.len() as int) =~= scv);
    proof {
        let pred = |t: Seq<char>| !sv.contains(t);
        let f = scv.filter(pred);
        assert(f == views(excess@));
        if excess.len() == 0 {
            assert forall|t: Seq<char>| scv.to_set().contains(t) implies sv.contains(t) by {
                let k = choose|k: int| 0 <= k < scv.len() && scv[k] == t;
                if !sv.contains(t) {
                    scv.lemma_filter_contains(pred, k);
                    assert(f.contains(scv[k]));
                }
            }
        } else {
            assert(f.len() > 0);
            scv.lemma_filter_pred(pred, 0);
            scv.lemma_filter_contains_rev(pred, f[0]);
            assert(f.contains(f[0]));
            assert(scv.contains(f[0]) && !sv.contains(f[0]));
            assert(scv.to_set().contains(f[0]));
        }
    }
    if excess.len() > 0 {
        let mut e = cat3("debt row `", row.row_id.as_str(), "` scope exceeds surface observations in `");
        e.append(row.authorization_evidence_ref.as_str());
        e.append("`: ");
        let joined = join_text(&excess, ", ");
        e.append(joined.as_str());
        return Err(inventory_error(e.as_str()));
    }
    Ok(())
}

// ---------------------------------------------------------------------------------------------
// Reading a row

/// What `semver::Version::parse` makes of a text: the version as its `Display` writes it, or
/// the parser's message.
pub uninterp spec fn spec_semver(text: Seq<char>) -> Result<Seq<char>, Seq<char>>;

/// `semver::Version::parse(text)`, the parsed version written back with `to_string`, or the
/// error's message. The parse is named by `spec_semver`.
#[verifier::external_body]
pub(crate) fn semver_written(text: &str) -> (r: Result<String, String>)
    ensures
        match r {
            Ok(v) => spec_semver(text@) == Ok::<Seq<char>, Seq<char>>(v@),
            Err(e) => spec_semver(text@) == Err::<Seq<char>, Seq<char>>(e@),
        },
{
    match semver::Version::parse(text) {
        Ok(version) => Ok(version.to_string()),
        Err(err) => Err(err.to_string()),
    }
}

pub open spec fn missing_field_text(row_id: Seq<char>, key: Seq<char>) -> Seq<char> {
    inventory_text("debt row `"@ + row_id + "` is missing or empty required field `"@ + key + "`"@)
}

/// A field's value when it is present and not blank.
pub open spec fn nonblank_field(fields: Seq<(Seq<char>, Seq<char>)>, key: Seq<char>) -> Option<Seq<char>> {
    match field_value(fields, key) {
        Some(v) => if is_blank(v) { None } else { Some(v) },
        None => None,
    }
}

fn get_nonblank(fields: &Vec<(String, String)>, row_id: &str, key: &str) -> (r: Result<String, String>)
    ensures
        match nonblank_field(fields_view(fields@), key@) {
            Some(v) => r matches Ok(s) && s@ == v,
            None => r matches Err(m) && m@ == missing_field_text(row_id@, key@),
        },
{
    let ghost fv = fields_view(fields@);
    let mut i: usize = fields.len();
    assert(fv.subrange(0, fields.len() as int) =~= fv);
    let mut found: Option<String> = None;
    while i > 0
        invariant
            i <= fields.len(),
            fv == fields_view(fields@),
            fv.len() == fields.len(),
            field_value(fv, key@) == field_value(fv.subrange(0, i as int), key@),
        decreases i,
    {
        let ghost sub = fv.subrange(0, i as int);
        assert(sub.drop_last() =~= fv.subrange(0, i - 1));
        assert(sub.last() == (fields@[i - 1].0@, fields@[i - 1].1@));
        if str_eq(fields[i - 1].0.as_str(), key) {
            let v = fields[i - 1].1.as_str();
            if blank(v) {
                let mut m = cat3("debt row `", row_id, "` is missing or empty required field `");
                m.append(key);
                m.append("`");
                return Err(inventory_error(m.as_str()));
            }
            return Ok(to_owned(v));
        }
        i = i - 1;
    }
    assert(fv.subrange(0, 0) =~= Seq::<(Seq<char>, Seq<char>)>::empty());
    let mut m = cat3("debt row `", row_id, "` is missing or empty required field `");
    m.append(key);
    m.append("`");
    Err(inventory_error(m.as_str()))
}

/// A row's scope: its comma-separated targets, trimmed; none may be empty or repeat.
pub open spec fn scope_of(row_id: Seq<char>, value: Seq<char>) -> Result<Set<Seq<char>>, Seq<char>> {
    let parts = trims(split(value, ','));
    if exists|k: int| 0 <= k < parts.len() && (#[trigger] parts[k]).len() == 0 {
        Err(inventory_text("debt row `"@ + row_id + "` has malformed scope_target_triples `"@ + value + "`"@))
    } else if !parts.no_duplicates() {
        Err(inventory_text("debt row `"@ + row_id + "` scope_target_triples contains a duplicate target"@))
    } else {
        Ok(parts.to_set())
    }
}

/// `parse_scope`: the row's targets, ascending.
pub fn parse_scope(row_id: &str, value: &str) -> (r: Result<Vec<String>, String>)
    ensures
        match scope_of(row_id@, value@) {
            Err(e) => r matches Err(m) && m@ == e,
            Ok(set) => r matches Ok(v) && ascending(views(v@)) && views(v@).to_set() == set,
        },
{
    let raw = split_text(value, ',');
    let ghost sp = split(value@, ',');
    let mut parts: Vec<String> = Vec::new();
    let mut i: usize = 0;
    while i < raw.len()
        invariant
            i <= raw.len(),
            sp == split(value@, ','),
            raw.len() == sp.len(),
            forall|k: int| 0 <= k < raw.len() ==> #[trigger] raw[k]@ == sp[k],
            views(parts@) == trims(sp).subrange(0, i as int),
        decreases raw.len() - i,
    {
        let ghost before = views(parts@);
        let t = trimmed(raw[i].as_str());
        assert(t@ == trim(sp[i as int]));
        parts.push(t);
        assert(trims(sp)[i as int] == trim(sp[i as int]));
        assert(views(parts@) =~= before.push(trim(sp[i as int])));
        assert(views(parts@) =~= trims(sp).subrange(0, i + 1));
        i = i + 1;
    }
    let ghost pv = trims(sp);
    assert(pv.subrange(0, raw.len() as int) =~= pv);
    let mut j: usize = 0;
    while j < parts.len()
        invariant
            j <= parts.len(),
            views(parts@) == pv,
            pv == trims(split(value@, ',')),
            forall|k: int| 0 <= k < j ==> (#[trigger] pv[k]).len() != 0,
        decreases parts.len() - j,
    {
        assert(pv[j as int] == parts@[j as int]@);
        if parts[j].as_str().unicode_len() == 0 {
            assert(pv[j as int].len() == 0);
            let mut m = cat3("debt row `", row_id, "` has malformed scope_target_triples `");
            m.append(value);
            m.append("`");
            return Err(inventory_error(m.as_str()));
        }
        j = j + 1;
    }
    let mut set: Vec<String> = Vec::new();
    let mut k: usize = 0;
    assert(views(set@).to_set() =~= pv.subrange(0, 0).to_set());
    while k < parts.len()
        invariant
            k <= parts.len(),
            views(parts@) == pv,
            pv == trims(split(value@, ',')),
            forall|m: int| 0 <= m < pv.len() ==> (#[trigger] pv[m]).len() != 0,
            ascending(views(set@)),
            views(set@).to_set() == pv.subrange(0, k as int).to_set(),
            pv.subrange(0, k as int).no_duplicates(),
        decreases parts.len() - k,
    {
        proof {
            assert(pv.subrange(0, k + 1) =~= pv.subrange(0, k as int).push(pv[k as int]));
            pv.subrange(0, k as int).lemma_push_to_set_commute(pv[k as int]);
            assert(pv[k as int] == parts@[k as int]@);
        }
        let ghost before_set = views(set@);
        let added = set_insert(&mut set, to_owned(parts[k].as_str()));
        if !added {
            proof {
                assert(before_set.contains(pv[k as int]));
                let b = choose|b: int| 0 <= b < before_set.len() && before_set[b] == pv[k as int];
                assert(before_set.to_set().contains(pv[k as int]));
                assert(pv.subrange(0, k as int).to_set().contains(pv[k as int]));
                assert(pv.subrange(0, k as int).contains(pv[k as int]));
                let w = choose|w: int| 0 <= w < k && pv.subrange(0, k as int)[w] == pv[k as int];
                assert(pv[w] == pv[k as int]);
                assert(!pv.no_duplicates());
            }
            let m = cat3("debt row `", row_id, "` scope_target_triples contains a duplicate target");
            return Err(inventory_error(m.as_str()));
        }
        proof {
            let q = pv.subrange(0, k + 1);
            assert(q.no_duplicates()) by {
                assert forall|a: int, b: int| 0 <= a < q.len() && 0 <= b < q.len() && a != b implies #[trigger] q[a] != #[trigger] q[b] by {
                    if a < k && b < k {
                        assert(q[a] == pv.subrange(0, k as int)[a] && q[b] == pv.subrange(0, k as int)[b]);
                    } else if a == k || b == k {
                        let o = if a == k { b } else { a };
                        assert(q[k as int] == pv[k as int]);
                        if q[o] == pv[k as int] {
                            assert(pv.subrange(0, k as int)[o] == pv[k as int]);
                            assert(pv.subrange(0, k as int).contains(pv[k as int]));
                            assert(pv.subrange(0, k as int).to_set().contains(pv[k as int]));
                            assert(before_set.to_set().contains(pv[k as int]));
                            assert(before_set.contains(pv[k as int]));
                        }
                    }
                }
            }
        }
        k = k + 1;
    }
    assert(pv.subrange(0, parts.len() as int) =~= pv);
    Ok(set)
}

/// The fields read after the version, in the order the row is built.
pub open spec fn later_keys() -> Seq<Seq<char>> {
    seq![
        "agent_id"@, "surface_kind"@, "command_path"@, "surface_id"@, "current_reason"@, "owner"@, "milestone"@,
        "follow_on"@, "evidence_ref"@, "authorization_evidence_ref"@,
    ]
}

/// The first of `keys` whose field is missing or blank.
pub open spec fn first_blank(fields: Seq<(Seq<char>, Seq<char>)>, keys: Seq<Seq<char>>) -> Option<Seq<char>>
    decreases keys.len(),
{
    if keys.len() == 0 {
        None
    } else if nonblank_field(fields, keys[0]) is None {
        Some(keys[0])
    } else {
        first_blank(fields, keys.drop_first())
    }
}

/// The first problem with a row's fields, in the order the row is read: its blocker class,
/// its scope, its exact version, then the remaining fields.
#[verifier::opaque]
pub open spec fn row_problem(row_id: Seq<char>, fields: Seq<(Seq<char>, Seq<char>)>) -> Option<Seq<char>> {
    match nonblank_field(fields, "blocker_class"@) {
        None => Some(missing_field_text(row_id, "blocker_class"@)),
        Some(b) => if !allowed_deferral_list().contains(b) {
            Some(inventory_text("debt row `"@ + row_id + "` has invalid blocker_class `"@ + b + "`"@))
        } else {
            match nonblank_field(fields, "scope_target_triples"@) {
                None => Some(missing_field_text(row_id, "scope_target_triples"@)),
                Some(sc) => match scope_of(row_id, sc) {
                    Err(e) => Some(e),
                    Ok(_) => match nonblank_field(fields, "authorized_at_version"@) {
                        None => Some(missing_field_text(row_id, "authorized_at_version"@)),
                        Some(v) => match spec_semver(v) {
                            Err(e) => Some(inventory_text("debt row `"@ + row_id + "` has malformed authorized_at_version `"@ + v + "`: "@ + e)),
                            Ok(written) => if written != v {
                                Some(inventory_text("debt row `"@ + row_id + "` authorized_at_version must be one canonical exact version"@))
                            } else {
                                match first_blank(fields, later_keys()) {
                                    Some(k) => Some(missing_field_text(row_id, k)),
                                    None => None,
                                }
                            },
                        },
                    },
                },
            }
        },
    }
}

/// A row read from its heading and fields: each field is the row's value for its key.
pub open spec fn row_built(r: DebtInventoryRow, row_id: Seq<char>, fields: Seq<(Seq<char>, Seq<char>)>) -> bool {
    let f = |k: Seq<char>| nonblank_field(fields, k)->0;
    &&& r.row_id@ == row_id
    &&& r.agent_id@ == f("agent_id"@)
    &&& r.surface_kind@ == f("surface_kind"@)
    &&& r.command_path@ == f("command_path"@)
    &&& r.surface_id@ == f("surface_id"@)
    &&& r.current_reason@ == f("current_reason"@)
    &&& r.blocker_class@ == f("blocker_class"@)
    &&& r.owner@ == f("owner"@)
    &&& r.milestone@ == f("milestone"@)
    &&& r.follow_on@ == f("follow_on"@)
    &&& r.evidence_ref@ == f("evidence_ref"@)
    &&& ascending(views(r.scope_target_triples@))
    &&& scope_of(row_id, f("scope_target_triples"@)) == Ok::<Set<Seq<char>>, Seq<char>>(views(r.scope_target_triples@).to_set())
    &&& r.authorized_at_version@ == f("authorized_at_version"@)
    &&& r.authorization_evidence_ref@ == f("authorization_evidence_ref"@)
}

/// `build_debt_row`: a row from its heading and fields, or the first problem with them.
pub fn build_debt_row(row_id: &str, fields: &Vec<(String, String)>) -> (r: Result<DebtInventoryRow, String>)
    ensures
        match row_problem(row_id@, fields_view(fields@)) {
            Some(e) => r matches Err(m) && m@ == e,
            None => r matches Ok(row) && row_built(row, row_id@, fields_view(fields@)),
        },
{
    proof {
        reveal(row_problem);
        reveal_with_fuel(first_blank, 11);
    }
    let blocker_class = get_nonblank(fields, row_id, "blocker_class")?;
    if !is_allowed_deferral(blocker_class.as_str()) {
        let mut m = cat3("debt row `", row_id, "` has invalid blocker_class `");
        m.append(blocker_class.as_str());
        m.append("`");
        return Err(inventory_error(m.as_str()));
    }
    let scope_text = get_nonblank(fields, row_id, "scope_target_triples")?;
    let scope_target_triples = parse_scope(row_id, scope_text.as_str())?;
    let authorized_at_version = get_nonblank(fields, row_id, "authorized_at_version")?;
    match semver_written(authorized_at_version.as_str()) {
        Err(e) => {
            let mut m = cat3("debt row `", row_id, "` has malformed authorized_at_version `");
            m.append(authorized_at_version.as_str());
            m.append("`: ");
            m.append(e.as_str());
            return Err(inventory_error(m.as_str()));
        },
        Ok(written) => {
            if !str_eq(written.as_str(), authorized_at_version.as_str()) {
                let m = cat3("debt row `", row_id, "` authorized_at_version must be one canonical exact version");
                return Err(inventory_error(m.as_str()));
            }
        },
    }
    let agent_id = get_nonblank(fields, row_id, "agent_id")?;
    let surface_kind = get_nonblank(fields, row_id, "surface_kind")?;
    let command_path = get_nonblank(fields, row_id, "command_path")?;
    let surface_id = get_nonblank(fields, row_id, "surface_id")?;
    let current_reason = get_nonblank(fields, row_id, "current_reason")?;
    let owner = get_nonblank(fields, row_id, "owner")?;
    let milestone = get_nonblank(fields, row_id, "milestone")?;
    let follow_on = get_nonblank(fields, row_id, "follow_on")?;
    let evidence_ref = get_nonblank(fields, row_id, "evidence_ref")?;
    let authorization_evidence_ref = get_nonblank(fields, row_id, "authorization_evidence_ref")?;
    Ok(DebtInventoryRow {
        row_id: to_owned(row_id),
        agent_id,
        surface_kind,
        command_path,
        surface_id,
        current_reason,
        blocker_class,
        owner,
        milestone,
        follow_on,
        evidence_ref,
        scope_target_triples,
        authorized_at_version,
        authorization_evidence_ref,
    })
}

// ---------------------------------------------------------------------------------------------
// Reading the inventory

pub const CONTRACT_MARKER_ROW_ID: &'static str = "support-debt-authorization-contract-target-version-v1";

/// The fields a row may carry.
pub open spec fn required_keys() -> Seq<Seq<char>> {
    seq![
        "agent_id"@, "surface_kind"@, "command_path"@, "surface_id"@, "current_reason"@, "blocker_class"@, "owner"@,
        "milestone"@, "follow_on"@, "evidence_ref"@, "scope_target_triples"@, "authorized_at_version"@,
        "authorization_evidence_ref"@,
    ]
}

fn is_required_key(k: &str) -> (r: bool)
    ensures
        r == required_keys().contains(k@),
{
    let names = [
        "agent_id", "surface_kind", "command_path", "surface_id", "current_reason", "blocker_class", "owner",
        "milestone", "follow_on", "evidence_ref", "scope_target_triples", "authorized_at_version",
        "authorization_evidence_ref",
    ];
    assert(names@.map_values(|n: &'static str| n@) =~= required_keys());
    let mut i: usize = 0;
    while i < 13
        invariant
            i <= 13,
            names@.map_values(|n: &'static str| n@) == required_keys(),
            forall|m: int| 0 <= m < i ==> required_keys()[m] != k@,
        decreases 13 - i,
    {
        assert(required_keys()[i as int] == names@[i as int]@);
        if str_eq(names[i], k) {
            assert(required_keys()[i as int] == k@);
            return true;
        }
        i = i + 1;
    }
    false
}

pub type RowSource = (Seq<char>, Seq<(Seq<char>, Seq<char>)>);

/// Where the reader stands: the rows closed so far (each as its heading and fields), the row
/// being read, and whether the contract marker was seen.
pub type AuthorizedState = (Seq<RowSource>, Option<RowSource>, bool);

pub open spec fn close_row(state: AuthorizedState) -> Result<Seq<RowSource>, Seq<char>> {
    match state.1 {
        None => Ok(state.0),
        Some((id, fields)) => match row_problem(id, fields) {
            Some(e) => Err(e),
            None => Ok(state.0.push((id, fields))),
        },
    }
}

/// One line of the inventory.
#[verifier::opaque]
pub open spec fn authorized_step(state: AuthorizedState, line: Seq<char>, path: Seq<char>) -> Result<AuthorizedState, Seq<char>> {
    if has_prefix(line, "### `"@) {
        match close_row(state) {
            Err(e) => Err(e),
            Ok(rows) => {
                let rest = line.subrange(5, line.len() as int);
                if rest.len() > 0 && rest.last() == '`' {
                    let id = rest.drop_last();
                    if id == CONTRACT_MARKER_ROW_ID@ {
                        if state.2 {
                            Err(inventory_text("duplicate contract marker"@))
                        } else {
                            Ok((rows, None, true))
                        }
                    } else {
                        Ok((rows, Some((id, Seq::empty())), state.2))
                    }
                } else {
                    Err(inventory_text("invalid debt heading in "@ + path))
                }
            },
        }
    } else if state.1 is Some && has_prefix(line, "- `"@) {
        match key_value(line.subrange(3, line.len() as int)) {
            None => Err(inventory_text("invalid debt row field `"@ + line + "` in "@ + path)),
            Some((k, v)) => {
                let (id, fields) = state.1->0;
                if !required_keys().contains(k) {
                    Err(inventory_text("debt row `"@ + id + "` has unknown field `"@ + k + "`"@))
                } else if field_value(fields, k) is Some {
                    Err(inventory_text("debt row `"@ + id + "` repeats field `"@ + k + "`"@))
                } else {
                    Ok((state.0, Some((id, fields.push((k, v)))), state.2))
                }
            },
        }
    } else {
        Ok(state)
    }
}

pub open spec fn authorized_walk(lines: Seq<Seq<char>>, path: Seq<char>) -> Result<AuthorizedState, Seq<char>>
    decreases lines.len(),
{
    if lines.len() == 0 {
        Ok((Seq::empty(), None, false))
    } else {
        match authorized_walk(lines.drop_last(), path) {
            Err(e) => Err(e),
            Ok(state) => authorized_step(state, lines.last(), path),
        }
    }
}

/// The rows of an authorized support-debt inventory (each as its heading and fields), or the
/// first problem; the inventory must carry the contract marker exactly once.
pub open spec fn authorized_rows(text: Seq<char>, path: Seq<char>) -> Result<Seq<RowSource>, Seq<char>> {
    match authorized_walk(crate::text::text_lines(text), path) {
        Err(e) => Err(e),
        Ok(state) => match close_row(state) {
            Err(e) => Err(e),
            Ok(rows) => if !state.2 {
                Err(inventory_text(path + " is missing required contract marker `"@ + CONTRACT_MARKER_ROW_ID@ + "`"@))
            } else {
                Ok(rows)
            },
        },
    }
}

proof fn lemma_authorized_walk_prefix_err(lines: Seq<Seq<char>>, path: Seq<char>, i: int)
    requires
        0 <= i <= lines.len(),
        authorized_walk(lines.subrange(0, i), path) is Err,
    ensures
        authorized_walk(lines, path) == authorized_walk(lines.subrange(0, i), path),
    decreases lines.len() - i,
{
    if i < lines.len() {
        assert(lines.subrange(0, i + 1).drop_last() =~= lines.subrange(0, i));
        lemma_authorized_walk_prefix_err(lines, path, i + 1);
    } else {
        assert(lines.subrange(0, i) =~= lines);
    }
}

pub open spec fn rows_built(rows: Seq<DebtInventoryRow>, sources: Seq<RowSource>) -> bool {
    rows.len() == sources.len() && forall|k: int| 0 <= k < rows.len() ==> row_built(#[trigger] rows[k], sources[k].0, sources[k].1)
}

pub open spec fn current_source(c: Option<(String, Vec<(String, String)>)>) -> Option<RowSource> {
    match c {
        None => None,
        Some((id, fields)) => Some((id@, fields_view(fields@))),
    }
}

fn close_current(
    rows: &mut Vec<DebtInventoryRow>,
    sources: Ghost<Seq<RowSource>>,
    current: Option<(String, Vec<(String, String)>)>,
) -> (r: Result<(), String>)
    requires
        rows_built(old(rows)@, sources@),
    ensures
        match close_row((sources@, current_source(current), false)) {
            Err(e) => r matches Err(m) && m@ == e,
            Ok(v) => r is Ok && rows_built(final(rows)@, v),
        },
{
    match current {
        None => Ok(()),
        Some((id, fields)) => {
            let row = build_debt_row(id.as_str(), &fields)?;
            let ghost before = rows@;
            rows.push(row);
            proof {
                let v = sources@.push((id@, fields_view(fields@)));
                assert forall|k: int| 0 <= k < rows@.len() implies row_built(#[trigger] rows@[k], v[k].0, v[k].1) by {
                    if k < before.len() {
                        assert(rows@[k] == before[k]);
                    }
                }
            }
            Ok(())
        },
    }
}

/// `load_debt_inventory` on the inventory's text; `path` names it in messages.
pub fn parse_authorized_inventory(text: &str, path: &str) -> (r: Result<Vec<DebtInventoryRow>, String>)
    ensures
        match authorized_rows(text@, path@) {
            Err(e) => r matches Err(m) && m@ == e,
            Ok(v) => r matches Ok(rows) && rows_built(rows@, v),
        },
{
    let lines = crate::text::lines_of(text);
    let ghost lv = views(lines@);
    let mut rows: Vec<DebtInventoryRow> = Vec::new();
    let ghost mut sources: Seq<RowSource> = Seq::empty();
    let mut current: Option<(String, Vec<(String, String)>)> = None;
    let mut marker_seen = false;
    let mut i: usize = 0;
    assert(lv.subrange(0, 0) =~= Seq::<Seq<char>>::empty());
    while i < lines.len()
        invariant
            i <= lines.len(),
            lv == views(lines@),
            lv == crate::text::text_lines(text@),
            lv.len() == lines.len(),
            rows_built(rows@, sources),
            authorized_walk(lv.subrange(0, i as int), path@) == Ok::<AuthorizedState, Seq<char>>((sources, current_source(current), marker_seen)),
        decreases lines.len() - i,
    {
        let line = lines[i].as_str();
        let ghost state = (sources, current_source(current), marker_seen);
        proof {
            assert(lv.subrange(0, i + 1).drop_last() =~= lv.subrange(0, i as int));
            assert(lv.subrange(0, i + 1).last() == line@);
            reveal(authorized_step);
            reveal_strlit("### `");
            reveal_strlit("- `");
        }
        if starts_with(line, "### `") {
            let taken = current.take();
            let ghost closed = close_row((sources, current_source(taken), false));
            assert(close_row(state) == closed);
            match close_current(&mut rows, Ghost(sources), taken) {
                Ok(()) => {},
                Err(e) => {
                    proof {
                        lemma_authorized_walk_prefix_err(lv, path@, i + 1);
                        assert(lv.subrange(0, lv.len() as int) =~= lv);
                    }
                    return Err(e);
                },
            }
            proof {
                sources = closed->Ok_0;
            }
            let n = line.unicode_len();
            let rest = line.substring_char(5, n);
            let m = rest.unicode_len();
            if !(m > 0 && rest.get_char(m - 1) == '`') {
                proof {
                    lemma_authorized_walk_prefix_err(lv, path@, i + 1);
                    assert(lv.subrange(0, lv.len() as int) =~= lv);
                }
                let e = cat2("invalid debt heading in ", path);
                return Err(inventory_error(e.as_str()));
            }
            let id = String::from_str(rest.substring_char(0, m - 1));
            proof {
                assert(rest@.subrange(0, m - 1) =~= rest@.drop_last());
            }
            if str_eq(id.as_str(), CONTRACT_MARKER_ROW_ID) {
                if marker_seen {
                    proof {
                        lemma_authorized_walk_prefix_err(lv, path@, i + 1);
                        assert(lv.subrange(0, lv.len() as int) =~= lv);
                    }
                    return Err(inventory_error("duplicate contract marker"));
                }
                marker_seen = true;
            } else {
                let empty: Vec<(String, String)> = Vec::new();
                assert(fields_view(empty@) =~= Seq::<(Seq<char>, Seq<char>)>::empty());
                current = Some((id, empty));
            }
        } else if current.is_some() && starts_with(line, "- `") {
            let n = line.unicode_len();
            let rest = line.substring_char(3, n);
            match parse_key_value(rest) {
                None => {
                    proof {
                        lemma_authorized_walk_prefix_err(lv, path@, i + 1);
                        assert(lv.subrange(0, lv.len() as int) =~= lv);
                    }
                    let mut e = cat3("invalid debt row field `", line, "` in ");
                    e.append(path);
                    return Err(inventory_error(e.as_str()));
                },
                Some((k, v)) => {
                    let (id, mut fields) = current.take().unwrap();
                    if !is_required_key(k.as_str()) {
                        proof {
                            lemma_authorized_walk_prefix_err(lv, path@, i + 1);
                            assert(lv.subrange(0, lv.len() as int) =~= lv);
                        }
                        let mut e = cat3("debt row `", id.as_str(), "` has unknown field `");
                        e.append(k.as_str());
                        e.append("`");
                        return Err(inventory_error(e.as_str()));
                    }
                    if field_present(&fields, k.as_str()) {
                        proof {
                            lemma_authorized_walk_prefix_err(lv, path@, i + 1);
                            assert(lv.subrange(0, lv.len() as int) =~= lv);
                        }
                        let mut e = cat3("debt row `", id.as_str(), "` repeats field `");
                        e.append(k.as_str());
                        e.append("`");
                        return Err(inventory_error(e.as_str()));
                    }
                    let ghost before = fields_view(fields@);
                    let ghost kv = (k@, v@);
                    fields.push((k, v));
                    assert(fields_view(fields@) =~= before.push(kv));
                    current = Some((id, fields));
                },
            }
        }
        i = i + 1;
    }
    proof {
        assert(lv.subrange(0, lines.len() as int) =~= lv);
    }
    let ghost final_state = (sources, current_source(current), marker_seen);
    let ghost closed = close_row((sources, current_source(current), false));
    match close_current(&mut rows, Ghost(sources), current) {
        Ok(()) => {},
        Err(e) => {
            assert(close_row(final_state) == closed);
            return Err(e);
        },
    }
    if !marker_seen {
        let mut e = cat2(path, " is missing required contract marker `");
        e.append(CONTRACT_MARKER_ROW_ID);
        e.append("`");
        return Err(inventory_error(e.as_str()));
    }
    Ok(rows)
}

fn field_present(fields: &Vec<(String, String)>, key: &str) -> (r: bool)
    ensures
        r == field_value(fields_view(fields@), key@) is Some,
{
    let ghost fv = fields_view(fields@);
    let mut i: usize = fields.len();
    assert(fv.subrange(0, fields.len() as int) =~= fv);
    while i > 0
        invariant
            i <= fields.len(),
            fv == fields_view(fields@),
            fv.len() == fields.len(),
            field_value(fv, key@) == field_value(fv.subrange(0, i as int), key@),
        decreases i,
    {
        let ghost sub = fv.subrange(0, i as int);
        assert(sub.drop_last() =~= fv.subrange(0, i - 1));
        assert(sub.last() == (fields@[i - 1].0@, fields@[i - 1].1@));
        if str_eq(fields[i - 1].0.as_str(), key) {
            return true;
        }
        i = i - 1;
    }
    assert(fv.subrange(0, 0) =~= Seq::<(Seq<char>, Seq<char>)>::empty());
    false
}

// ---------------------------------------------------------------------------------------------
// Validating the grants

/// A grant: a surface deferred at a version for a target, by a row.
pub type Grant = (IdView, Seq<char>, Seq<char>, Seq<char>);

/// The row that first granted the surface at this version and target.
pub open spec fn first_grant(grants: Seq<Grant>, id: IdView, version: Seq<char>, target: Seq<char>) -> Option<Seq<char>>
    decreases grants.len(),
{
    if grants.len() == 0 {
        None
    } else if grants[0].0 == id && grants[0].1 == version && grants[0].2 == target {
        Some(grants[0].3)
    } else {
        first_grant(grants.drop_first(), id, version, target)
    }
}

pub open spec fn describe_id(id: IdView) -> Seq<char> {
    "surface_kind="@ + id.0 + " command_path="@ + id.1 + " surface_id="@ + id.2
}

/// The grants after a row's scope is added, or the first overlap with an earlier row.
pub open spec fn scope_grants(grants: Seq<Grant>, row: DebtInventoryRow, scope: Seq<Seq<char>>) -> Result<Seq<Grant>, Seq<char>>
    decreases scope.len(),
{
    if scope.len() == 0 {
        Ok(grants)
    } else {
        match scope_grants(grants, row, scope.drop_last()) {
            Err(e) => Err(e),
            Ok(g) => {
                let t = scope.last();
                match first_grant(g, row.id_view(), row.authorized_at_version@, t) {
                    Some(first) => Err(inventory_text("debt rows `"@ + first + "` and `"@ + row.row_id@ + "` overlap on "@
                        + describe_id(row.id_view()) + " version="@ + row.authorized_at_version@ + " target="@ + t)),
                    None => Ok(g.push((row.id_view(), row.authorized_at_version@, t, row.row_id@))),
                }
            },
        }
    }
}

/// The first target of a row's scope that the rules do not expect.
pub open spec fn unexpected_target(scope: Seq<Seq<char>>, expected: Seq<Seq<char>>) -> Option<Seq<char>>
    decreases scope.len(),
{
    if scope.len() == 0 {
        None
    } else if !expected.contains(scope[0]) {
        Some(scope[0])
    } else {
        unexpected_target(scope.drop_first(), expected)
    }
}

/// Each row in order: its scope must be expected, its evidence must hold, and no two rows may
/// grant the same surface, version and target.
pub open spec fn authorizations_walk(
    entry: AgentRegistryEntry,
    expected: Seq<Seq<char>>,
    rows: Seq<DebtInventoryRow>,
    evidence: Seq<(Seq<char>, Result<Seq<char>, Seq<char>>)>,
) -> Result<Seq<Grant>, Seq<char>>
    decreases rows.len(),
{
    if rows.len() == 0 {
        Ok(Seq::empty())
    } else {
        match authorizations_walk(entry, expected, rows.drop_last(), evidence) {
            Err(e) => Err(e),
            Ok(g) => {
                let row = rows.last();
                let k = rows.len() - 1;
                match unexpected_target(views(row.scope_target_triples@), expected) {
                    Some(t) => Err(inventory_text("debt row `"@ + row.row_id@ + "` scope_target_triples contains target `"@ + t
                        + "` absent from "@ + entry.manifest_root@ + "/RULES.json union.expected_targets"@)),
                    None => match evidence_ref_problem(entry.manifest_root@, row) {
                        Some(e) => Err(e),
                        None => match evidence_verdict(entry.agent_id@, row, evidence[k].0, evidence[k].1) {
                            Err(e) => Err(e),
                            Ok(()) => scope_grants(g, row, views(row.scope_target_triples@)),
                        },
                    },
                }
            },
        }
    }
}

pub open spec fn evidence_view(e: Seq<(String, Result<String, String>)>) -> Seq<(Seq<char>, Result<Seq<char>, Seq<char>>)> {
    e.map_values(|x: (String, Result<String, String>)| (x.0@, match x.1 { Ok(t) => Ok(t@), Err(m) => Err(m@) }))
}

pub open spec fn grant_view(g: (SurfaceIdentity, String, String, String)) -> Grant {
    (g.0.view(), g.1@, g.2@, g.3@)
}

pub open spec fn grants_view(g: Seq<(SurfaceIdentity, String, String, String)>) -> Seq<Grant> {
    g.map_values(|x: (SurfaceIdentity, String, String, String)| grant_view(x))
}

fn find_grant(grants: &Vec<(SurfaceIdentity, String, String, String)>, id: &SurfaceIdentity, version: &str, target: &str) -> (r: Option<String>)
    ensures
        match first_grant(grants_view(grants@), id.view(), version@, target@) {
            Some(first) => r matches Some(s) && s@ == first,
            None => r is None,
        },
{
    let ghost gv = grants_view(grants@);
    let mut i: usize = 0;
    assert(gv.subrange(0, gv.len() as int) =~= gv);
    while i < grants.len()
        invariant
            i <= grants.len(),
            gv == grants_view(grants@),
            gv.len() == grants.len(),
            first_grant(gv, id.view(), version@, target@) == first_grant(gv.subrange(i as int, gv.len() as int), id.view(), version@, target@),
        decreases grants.len() - i,
    {
        let ghost rest = gv.subrange(i as int, gv.len() as int);
        assert(rest[0] == grant_view(grants@[i as int]));
        assert(rest.drop_first() =~= gv.subrange(i + 1, gv.len() as int));
        let g = &grants[i];
        if str_eq(g.0.surface_kind.as_str(), id.surface_kind.as_str()) && str_eq(g.0.command_path.as_str(), id.command_path.as_str())
            && str_eq(g.0.surface_id.as_str(), id.surface_id.as_str()) && str_eq(g.1.as_str(), version) && str_eq(g.2.as_str(), target) {
            return Some(to_owned(g.3.as_str()));
        }
        i = i + 1;
    }
    None
}

proof fn lemma_scope_grants_prefix_err(grants: Seq<Grant>, row: DebtInventoryRow, scope: Seq<Seq<char>>, i: int)
    requires
        0 <= i <= scope.len(),
        scope_grants(grants, row, scope.subrange(0, i)) is Err,
    ensures
        scope_grants(grants, row, scope) == scope_grants(grants, row, scope.subrange(0, i)),
    decreases scope.len() - i,
{
    if i < scope.len() {
        assert(scope.subrange(0, i + 1).drop_last() =~= scope.subrange(0, i));
        lemma_scope_grants_prefix_err(grants, row, scope, i + 1);
    } else {
        assert(scope.subrange(0, i) =~= scope);
    }
}

fn grant_scope(grants: &mut Vec<(SurfaceIdentity, String, String, String)>, row: &DebtInventoryRow) -> (r: Result<(), String>)
    ensures
        match scope_grants(grants_view(old(grants)@), *row, views(row.scope_target_triples@)) {
            Err(e) => r matches Err(m) && m@ == e,
            Ok(g) => r is Ok && grants_view(final(grants)@) == g,
        },
{
    let ghost start = grants_view(grants@);
    let ghost sv = views(row.scope_target_triples@);
    let id = row.identity();
    let mut i: usize = 0;
    assert(sv.subrange(0, 0) =~= Seq::<Seq<char>>::empty());
    while i < row.scope_target_triples.len()
        invariant
            i <= row.scope_target_triples.len(),
            sv == views(row.scope_target_triples@),
            start == grants_view(old(grants)@),
            id.view() == row.id_view(),
            scope_grants(start, *row, sv.subrange(0, i as int)) == Ok::<Seq<Grant>, Seq<char>>(grants_view(grants@)),
        decreases row.scope_target_triples.len() - i,
    {
        let t = row.scope_target_triples[i].as_str();
        proof {
            assert(sv.subrange(0, i + 1).drop_last() =~= sv.subrange(0, i as int));
            assert(sv.subrange(0, i + 1).last() == t@);
        }
        match find_grant(grants, &id, row.authorized_at_version.as_str(), t) {
            Some(first) => {
                let mut m = cat3("debt rows `", first.as_str(), "` and `");
                m.append(row.row_id.as_str());
                m.append("` overlap on ");
                let d = id.describe();
                m.append(d.as_str());
                m.append(" version=");
                m.append(row.authorized_at_version.as_str());
                m.append(" target=");
                m.append(t);
                let e = inventory_error(m.as_str());
                proof {
                    assert(m@ =~= "debt rows `"@ + first@ + "` and `"@ + row.row_id@ + "` overlap on "@
                        + describe_id(row.id_view()) + " version="@ + row.authorized_at_version@ + " target="@ + t@);
                    assert(scope_grants(start, *row, sv.subrange(0, i + 1)) == Err::<Seq<Grant>, Seq<char>>(e@));
                    lemma_scope_grants_prefix_err(start, *row, sv, i + 1);
                    assert(sv.subrange(0, sv.len() as int) =~= sv);
                }
                return Err(e);
            },
            None => {
                let ghost before = grants_view(grants@);
                grants.push((id.duplicate(), to_owned(row.authorized_at_version.as_str()), to_owned(t), to_owned(row.row_id.as_str())));
                assert(grants_view(grants@) =~= before.push((row.id_view(), row.authorized_at_version@, t@, row.row_id@)));
            },
        }
        i = i + 1;
    }
    assert(sv.subrange(0, sv.len() as int) =~= sv);
    Ok(())
}

fn check_scope_expected(row: &DebtInventoryRow, expected: &Vec<String>, manifest_root: &str) -> (r: Result<(), String>)
    ensures
        match unexpected_target(views(row.scope_target_triples@), views(expected@)) {
            Some(t) => r matches Err(m) && m@ == inventory_text("debt row `"@ + row.row_id@ + "` scope_target_triples contains target `"@ + t
                + "` absent from "@ + manifest_root@ + "/RULES.json union.expected_targets"@),
            None => r is Ok,
        },
{
    let ghost sv = views(row.scope_target_triples@);
    let mut i: usize = 0;
    assert(sv.subrange(0, sv.len() as int) =~= sv);
    while i < row.scope_target_triples.len()
        invariant
            i <= row.scope_target_triples.len(),
            sv == views(row.scope_target_triples@),
            unexpected_target(sv, views(expected@)) == unexpected_target(sv.subrange(i as int, sv.len() as int), views(expected@)),
        decreases row.scope_target_triples.len() - i,
    {
        let ghost rest = sv.subrange(i as int, sv.len() as int);
        assert(rest[0] == row.scope_target_triples@[i as int]@);
        assert(rest.drop_first() =~= sv.subrange(i + 1, sv.len() as int));
        let t = row.scope_target_triples[i].as_str();
        if !text_listed(expected, t) {
            let mut m = cat3("debt row `", row.row_id.as_str(), "` scope_target_triples contains target `");
            m.append(t);
            m.append("` absent from ");
            m.append(manifest_root);
            m.append("/RULES.json union.expected_targets");
            return Err(inventory_error(m.as_str()));
        }
        i = i + 1;
    }
    Ok(())
}

proof fn lemma_authorizations_prefix_err(
    entry: AgentRegistryEntry,
    expected: Seq<Seq<char>>,
    rows: Seq<DebtInventoryRow>,
    evidence: Seq<(Seq<char>, Result<Seq<char>, Seq<char>>)>,
    i: int,
)
    requires
        0 <= i <= rows.len(),
        authorizations_walk(entry, expected, rows.subrange(0, i), evidence) is Err,
    ensures
        authorizations_walk(entry, expected, rows, evidence) == authorizations_walk(entry, expected, rows.subrange(0, i), evidence),
    decreases rows.len() - i,
{
    if i < rows.len() {
        assert(rows.subrange(0, i + 1).drop_last() =~= rows.subrange(0, i));
        lemma_authorizations_prefix_err(entry, expected, rows, evidence, i + 1);
    } else {
        assert(rows.subrange(0, i) =~= rows);
    }
}

fn copy_report(r: &Result<String, String>) -> (c: Result<String, String>)
    ensures
        match (c, *r) {
            (Ok(a), Ok(b)) => a@ == b@,
            (Err(a), Err(b)) => a@ == b@,
            _ => false,
        },
{
    match r {
        Ok(t) => Ok(to_owned(t.as_str())),
        Err(m) => Err(to_owned(m.as_str())),
    }
}

/// `validate_authorizations`: every row of the agent's inventory, in order, against the
/// targets `RULES.json` expects and the coverage report each row names (`evidence[k]` is row
/// `k`'s report path and text, or the message reading it gave).
pub fn validate_authorizations(
    entry: &AgentRegistryEntry,
    expected_targets: &Vec<String>,
    rows: &Vec<DebtInventoryRow>,
    evidence: &Vec<(String, Result<String, String>)>,
) -> (r: Result<(), String>)
    requires
        evidence.len() == rows.len(),
    ensures
        match authorizations_walk(*entry, views(expected_targets@), rows@, evidence_view(evidence@)) {
            Err(e) => r matches Err(m) && m@ == e,
            Ok(_) => r is Ok,
        },
{
    let ghost ev = evidence_view(evidence@);
    let ghost xv = views(expected_targets@);
    let mut grants: Vec<(SurfaceIdentity, String, String, String)> = Vec::new();
    let mut i: usize = 0;
    assert(rows@.subrange(0, 0) =~= Seq::<DebtInventoryRow>::empty());
    assert(grants_view(grants@) =~= Seq::<Grant>::empty());
    while i < rows.len()
        invariant
            i <= rows.len(),
            evidence.len() == rows.len(),
            evidence_view(evidence@) == ev,
            xv == views(expected_targets@),
            authorizations_walk(*entry, xv, rows@.subrange(0, i as int), ev) == Ok::<Seq<Grant>, Seq<char>>(grants_view(grants@)),
        decreases rows.len() - i,
    {
        let row = &rows[i];
        proof {
            assert(rows@.subrange(0, i + 1).drop_last() =~= rows@.subrange(0, i as int));
            assert(rows@.subrange(0, i + 1).last() == rows@[i as int]);
        }
        if let Err(e) = check_scope_expected(row, expected_targets, entry.manifest_root.as_str()) {
            proof {
                lemma_authorizations_prefix_err(*entry, xv, rows@, ev, i + 1);
                assert(rows@.subrange(0, rows.len() as int) =~= rows@);
            }
            return Err(e);
        }
        let path = evidence[i].0.as_str();
        let report = copy_report(&evidence[i].1);
        assert(ev[i as int] == (evidence@[i as int].0@, match evidence@[i as int].1 { Ok(t) => Ok(t@), Err(m) => Err(m@) }));
        if let Err(e) = validate_authorization_evidence(entry, row, path, report) {
            proof {
                lemma_authorizations_prefix_err(*entry, xv, rows@, ev, i + 1);
                assert(rows@.subrange(0, rows.len() as int) =~= rows@);
            }
            return Err(e);
        }
        if let Err(e) = grant_scope(&mut grants, row) {
            proof {
                lemma_authorizations_prefix_err(*entry, xv, rows@, ev, i + 1);
                assert(rows@.subrange(0, rows.len() as int) =~= rows@);
            }
            return Err(e);
        }
        i = i + 1;
    }
    assert(rows@.subrange(0, rows.len() as int) =~= rows@);
    Ok(())
}

pub open spec fn empty_targets_message(rules_path: Seq<char>) -> Seq<char> {
    inventory_text(rules_path + " union.expected_targets must not be empty"@)
}

/// `validate_authorizations` as the audit runs it for one agent: the union's expected targets,
/// read from `rules_path`, must not be empty; then the agent's rows are checked against them and
/// against each row's evidence.
pub fn validate_agent_authorizations(
    entry: &AgentRegistryEntry,
    rules_path: &str,
    expected_targets: &Vec<String>,
    rows: &Vec<DebtInventoryRow>,
    evidence: &Vec<(String, Result<String, String>)>,
) -> (r: Result<(), String>)
    requires
        evidence.len() == rows.len(),
    ensures
        expected_targets.len() == 0 ==> (r matches Err(m) && m@ == empty_targets_message(rules_path@)),
        expected_targets.len() > 0 ==> match authorizations_walk(*entry, views(expected_targets@), rows@, evidence_view(evidence@)) {
            Err(e) => r matches Err(m) && m@ == e,
            Ok(_) => r is Ok,
        },
{
    if expected_targets.len() == 0 {
        let e = cat2(rules_path, " union.expected_targets must not be empty");
        return Err(inventory_error(e.as_str()));
    }
    validate_authorizations(entry, expected_targets, rows, evidence)
}

// ---------------------------------------------------------------------------------------------
// Which rows defer a gap

/// A surface that exact-target reports list as a gap, with the targets that list it, ascending.
#[derive(Debug)]
pub struct TargetedGap {
    pub identity: SurfaceIdentity,
    pub targets: Vec<String>,
}

/// The rows that defer a gap, ordered by row id, and the gap's targets that none of them covers.
pub struct GapAuthorization<'a> {
    pub applicable_rows: Vec<&'a DebtInventoryRow>,
    pub remaining_targets: Vec<String>,
}

pub open spec fn shares_target(scope: Seq<Seq<char>>, targets: Seq<Seq<char>>) -> bool {
    exists|i: int| 0 <= i < scope.len() && targets.contains(#[trigger] scope[i])
}

/// A row applies to a gap when it names the same surface at the same version and covers at
/// least one of the gap's targets.
pub open spec fn applies(row: DebtInventoryRow, id: IdView, version: Seq<char>, targets: Seq<Seq<char>>) -> bool {
    &&& row.id_view() == id
    &&& row.authorized_at_version@ == version
    &&& shares_target(views(row.scope_target_triples@), targets)
}

/// The rows that apply, in inventory order.
pub open spec fn applicable(rows: Seq<DebtInventoryRow>, id: IdView, version: Seq<char>, targets: Seq<Seq<char>>) -> Seq<DebtInventoryRow>
    decreases rows.len(),
{
    if rows.len() == 0 {
        Seq::empty()
    } else {
        let p = applicable(rows.drop_last(), id, version, targets);
        if applies(rows.last(), id, version, targets) {
            p.push(rows.last())
        } else {
            p
        }
    }
}

/// `x` placed after every row whose id does not exceed its own.
pub open spec fn insert_by_row_id(s: Seq<DebtInventoryRow>, x: DebtInventoryRow) -> Seq<DebtInventoryRow>
    decreases s.len(),
{
    if s.len() == 0 {
        seq![x]
    } else if lex_lt(x.row_id@, s.last().row_id@) {
        insert_by_row_id(s.drop_last(), x).push(s.last())
    } else {
        s.push(x)
    }
}

/// The rows ordered by row id; rows with equal ids keep their order.
pub open spec fn sort_by_row_id(s: Seq<DebtInventoryRow>) -> Seq<DebtInventoryRow>
    decreases s.len(),
{
    if s.len() == 0 {
        Seq::empty()
    } else {
        insert_by_row_id(sort_by_row_id(s.drop_last()), s.last())
    }
}

pub open spec fn covered(rows: Seq<DebtInventoryRow>, t: Seq<char>) -> bool {
    exists|i: int| 0 <= i < rows.len() && views(#[trigger] rows[i].scope_target_triples@).contains(t)
}

/// The targets, in order, that no row covers.
pub open spec fn uncovered(targets: Seq<Seq<char>>, rows: Seq<DebtInventoryRow>) -> Seq<Seq<char>>
    decreases targets.len(),
{
    if targets.len() == 0 {
        Seq::empty()
    } else {
        let p = uncovered(targets.drop_last(), rows);
        if covered(rows, targets.last()) {
            p
        } else {
            p.push(targets.last())
        }
    }
}

pub open spec fn derefs<'a>(v: Seq<&'a DebtInventoryRow>) -> Seq<DebtInventoryRow> {
    v.map_values(|x: &'a DebtInventoryRow| *x)
}

proof fn lemma_insert_at(s: Seq<DebtInventoryRow>, x: DebtInventoryRow, j: int)
    requires
        0 <= j <= s.len(),
        forall|k: int| j <= k < s.len() ==> lex_lt(x.row_id@, #[trigger] s[k].row_id@),
        j == 0 || !lex_lt(x.row_id@, s[j - 1].row_id@),
    ensures
        insert_by_row_id(s, x) == s.subrange(0, j).push(x) + s.subrange(j, s.len() as int),
    decreases s.len(),
{
    if s.len() == j {
        assert(s.subrange(0, j) =~= s);
        assert(s.subrange(j, s.len() as int) =~= Seq::<DebtInventoryRow>::empty());
        assert(s.subrange(0, j).push(x) + Seq::<DebtInventoryRow>::empty() =~= s.push(x));
    } else {
        let t = s.drop_last();
        assert(lex_lt(x.row_id@, s[s.len() - 1].row_id@));
        assert forall|k: int| j <= k < t.len() implies lex_lt(x.row_id@, #[trigger] t[k].row_id@) by {
            assert(t[k] == s[k]);
        }
        lemma_insert_at(t, x, j);
        assert(t.subrange(0, j) =~= s.subrange(0, j));
        assert((t.subrange(0, j).push(x) + t.subrange(j, t.len() as int)).push(s.last())
            =~= s.subrange(0, j).push(x) + s.subrange(j, s.len() as int));
    }
}

fn insert_row<'a>(sorted: &mut Vec<&'a DebtInventoryRow>, x: &'a DebtInventoryRow)
    ensures
        derefs(final(sorted)@) == insert_by_row_id(derefs(old(sorted)@), *x),
{
    let ghost s = derefs(sorted@);
    let mut j: usize = sorted.len();
    while j > 0 && text_lt(x.row_id.as_str(), sorted[j - 1].row_id.as_str())
        invariant
            j <= sorted.len(),
            s == derefs(sorted@),
            s.len() == sorted.len(),
            forall|k: int| j <= k < s.len() ==> lex_lt(x.row_id@, #[trigger] s[k].row_id@),
        decreases j,
    {
        assert(s[j - 1] == *sorted@[j - 1]);
        j = j - 1;
    }
    proof {
        if j > 0 {
            assert(s[j - 1] == *sorted@[j - 1]);
        }
        lemma_insert_at(s, *x, j as int);
    }
    sorted.insert(j, x);
    assert(derefs(sorted@) =~= s.subrange(0, j as int).push(*x) + s.subrange(j as int, s.len() as int));
}

fn row_applies(row: &DebtInventoryRow, gap: &TargetedGap, version: &str) -> (r: bool)
    ensures
        r == applies(*row, gap.identity.view(), version@, views(gap.targets@)),
{
    let id = row.identity();
    if !identity_eq(&id, &gap.identity) || !str_eq(row.authorized_at_version.as_str(), version) {
        return false;
    }
    let ghost sv = views(row.scope_target_triples@);
    let mut i: usize = 0;
    while i < row.scope_target_triples.len()
        invariant
            i <= row.scope_target_triples.len(),
            sv == views(row.scope_target_triples@),
            row.id_view() == gap.identity.view(),
            row.authorized_at_version@ == version@,
            forall|k: int| 0 <= k < i ==> !views(gap.targets@).contains(#[trigger] sv[k]),
        decreases row.scope_target_triples.len() - i,
    {
        if text_listed(&gap.targets, row.scope_target_triples[i].as_str()) {
            assert(views(gap.targets@).contains(sv[i as int]));
            assert(shares_target(sv, views(gap.targets@)));
            return true;
        }
        i = i + 1;
    }
    false
}

fn target_covered(chosen: &Vec<&DebtInventoryRow>, t: &str) -> (r: bool)
    ensures
        r == covered(derefs(chosen@), t@),
{
    let ghost cv = derefs(chosen@);
    let mut i: usize = 0;
    while i < chosen.len()
        invariant
            i <= chosen.len(),
            cv == derefs(chosen@),
            cv.len() == chosen.len(),
            forall|k: int| 0 <= k < i ==> !views(#[trigger] cv[k].scope_target_triples@).contains(t@),
        decreases chosen.len() - i,
    {
        assert(cv[i as int] == *chosen@[i as int]);
        if text_listed(&chosen[i].scope_target_triples, t) {
            return true;
        }
        i = i + 1;
    }
    false
}

/// `authorize_gap`: the rows that defer `gap` at `version`, ordered by row id, and the gap's
/// targets that none of them covers, ascending as the gap lists them.
pub fn authorize_gap<'a>(gap: &TargetedGap, version: &str, rows: &'a [DebtInventoryRow]) -> (r: GapAuthorization<'a>)
    ensures
        derefs(r.applicable_rows@) == sort_by_row_id(applicable(rows@, gap.identity.view(), version@, views(gap.targets@))),
        views(r.remaining_targets@) == uncovered(views(gap.targets@), applicable(rows@, gap.identity.view(), version@, views(gap.targets@))),
{
    let ghost id = gap.identity.view();
    let ghost tv = views(gap.targets@);
    let mut chosen: Vec<&'a DebtInventoryRow> = Vec::new();
    let mut sorted: Vec<&'a DebtInventoryRow> = Vec::new();
    let mut i: usize = 0;
    assert(rows@.subrange(0, 0) =~= Seq::<DebtInventoryRow>::empty());
    assert(derefs(chosen@) =~= Seq::<DebtInventoryRow>::empty());
    assert(derefs(sorted@) =~= Seq::<DebtInventoryRow>::empty());
    while i < rows.len()
        invariant
            i <= rows.len(),
            id == gap.identity.view(),
            tv == views(gap.targets@),
            derefs(chosen@) == applicable(rows@.subrange(0, i as int), id, version@, tv),
            derefs(sorted@) == sort_by_row_id(derefs(chosen@)),
        decreases rows.len() - i,
    {
        let row = &rows[i];
        let ghost before = derefs(chosen@);
        proof {
            assert(rows@.subrange(0, i + 1).drop_last() =~= rows@.subrange(0, i as int));
            assert(rows@.subrange(0, i + 1).last() == rows@[i as int]);
        }
        if row_applies(row, gap, version) {
            chosen.push(row);
            assert(derefs(chosen@) =~= before.push(*row));
            assert(derefs(chosen@).drop_last() =~= before);
            insert_row(&mut sorted, row);
        }
        i = i + 1;
    }
    assert(rows@.subrange(0, rows.len() as int) =~= rows@);
    let ghost cv = derefs(chosen@);
    let mut remaining: Vec<String> = Vec::new();
    let mut j: usize = 0;
    assert(tv.subrange(0, 0) =~= Seq::<Seq<char>>::empty());
    while j < gap.targets.len()
        invariant
            j <= gap.targets.len(),
            tv == views(gap.targets@),
            cv == derefs(chosen@),
            views(remaining@) == uncovered(tv.subrange(0, j as int), cv),
        decreases gap.targets.len() - j,
    {
        let t = gap.targets[j].as_str();
        let ghost before = views(remaining@);
        proof {
            assert(tv.subrange(0, j + 1).drop_last() =~= tv.subrange(0, j as int));
            assert(tv.subrange(0, j + 1).last() == t@);
        }
        if !target_covered(&chosen, t) {
            remaining.push(to_owned(t));
            assert(views(remaining@) =~= before.push(t@));
        }
        j = j + 1;
    }
    assert(tv.subrange(0, tv.len() as int) =~= tv);
    GapAuthorization { applicable_rows: sorted, remaining_targets: remaining }
}

// ---------------------------------------------------------------------------------------------
// What always holds of grants and gaps

/// No two grants defer the same surface at the same version for the same target.
pub open spec fn grants_disjoint(g: Seq<Grant>) -> bool {
    forall|i: int, j: int| 0 <= i < j < g.len() ==> (#[trigger] g[i].0, g[i].1, g[i].2) != (#[trigger] g[j].0, g[j].1, g[j].2)
}

proof fn lemma_first_grant_none(g: Seq<Grant>, id: IdView, version: Seq<char>, target: Seq<char>)
    requires
        first_grant(g, id, version, target) is None,
    ensures
        forall|i: int| 0 <= i < g.len() ==> (#[trigger] g[i].0, g[i].1, g[i].2) != (id, version, target),
    decreases g.len(),
{
    if g.len() > 0 {
        lemma_first_grant_none(g.drop_first(), id, version, target);
        assert forall|i: int| 0 <= i < g.len() implies (#[trigger] g[i].0, g[i].1, g[i].2) != (id, version, target) by {
            if i > 0 {
                assert(g[i] == g.drop_first()[i - 1]);
            }
        }
    }
}

proof fn lemma_scope_grants_disjoint(g: Seq<Grant>, row: DebtInventoryRow, scope: Seq<Seq<char>>)
    requires
        grants_disjoint(g),
        scope_grants(g, row, scope) is Ok,
    ensures
        grants_disjoint(scope_grants(g, row, scope)->Ok_0),
    decreases scope.len(),
{
    if scope.len() > 0 {
        lemma_scope_grants_disjoint(g, row, scope.drop_last());
        let p = scope_grants(g, row, scope.drop_last())->Ok_0;
        let t = scope.last();
        lemma_first_grant_none(p, row.id_view(), row.authorized_at_version@, t);
        let q = p.push((row.id_view(), row.authorized_at_version@, t, row.row_id@));
        assert forall|i: int, j: int| 0 <= i < j < q.len() implies (#[trigger] q[i].0, q[i].1, q[i].2) != (#[trigger] q[j].0, q[j].1, q[j].2) by {
            if j < p.len() {
                assert(q[i] == p[i] && q[j] == p[j]);
            } else {
                assert(q[i] == p[i]);
            }
        }
    }
}

/// An inventory whose authorizations validate never grants the same surface, version and
/// target twice.
pub proof fn law_validated_grants_never_overlap(
    entry: AgentRegistryEntry,
    expected: Seq<Seq<char>>,
    rows: Seq<DebtInventoryRow>,
    evidence: Seq<(Seq<char>, Result<Seq<char>, Seq<char>>)>,
)
    requires
        authorizations_walk(entry, expected, rows, evidence) is Ok,
    ensures
        grants_disjoint(authorizations_walk(entry, expected, rows, evidence)->Ok_0),
    decreases rows.len(),
{
    if rows.len() > 0 {
        law_validated_grants_never_overlap(entry, expected, rows.drop_last(), evidence);
        let g = authorizations_walk(entry, expected, rows.drop_last(), evidence)->Ok_0;
        lemma_scope_grants_disjoint(g, rows.last(), views(rows.last().scope_target_triples@));
    }
}

proof fn lemma_applicable_members(rows: Seq<DebtInventoryRow>, id: IdView, version: Seq<char>, targets: Seq<Seq<char>>)
    ensures
        forall|x: DebtInventoryRow| applicable(rows, id, version, targets).contains(x) <==> (rows.contains(x) && applies(x, id, version, targets)),
    decreases rows.len(),
{
    if rows.len() > 0 {
        let p = applicable(rows.drop_last(), id, version, targets);
        lemma_applicable_members(rows.drop_last(), id, version, targets);
        assert forall|x: DebtInventoryRow| applicable(rows, id, version, targets).contains(x) <==> (rows.contains(x) && applies(x, id, version, targets)) by {
            if rows.contains(x) && x != rows.last() {
                let k = choose|k: int| 0 <= k < rows.len() && rows[k] == x;
                assert(rows.drop_last()[k] == x);
            }
            if rows.drop_last().contains(x) {
                let k = choose|k: int| 0 <= k < rows.drop_last().len() && rows.drop_last()[k] == x;
                assert(rows[k] == x);
            }
            if applies(rows.last(), id, version, targets) {
                assert(p.push(rows.last()).last() == rows.last());
                if p.push(rows.last()).contains(x) && x != rows.last() {
                    let k = choose|k: int| 0 <= k < p.push(rows.last()).len() && p.push(rows.last())[k] == x;
                    assert(p[k] == x);
                }
                if p.contains(x) {
                    let k = choose|k: int| 0 <= k < p.len() && p[k] == x;
                    assert(p.push(rows.last())[k] == x);
                }
            }
            assert(rows[rows.len() - 1] == rows.last());
        }
    }
}

proof fn lemma_uncovered_depends_on_coverage(targets: Seq<Seq<char>>, a: Seq<DebtInventoryRow>, b: Seq<DebtInventoryRow>)
    requires
        forall|t: Seq<char>| covered(a, t) <==> covered(b, t),
    ensures
        uncovered(targets, a) == uncovered(targets, b),
    decreases targets.len(),
{
    if targets.len() > 0 {
        lemma_uncovered_depends_on_coverage(targets.drop_last(), a, b);
        assert(covered(a, targets.last()) == covered(b, targets.last()));
    }
}

proof fn lemma_covered_transfer(
    rows1: Seq<DebtInventoryRow>,
    rows2: Seq<DebtInventoryRow>,
    id: IdView,
    version: Seq<char>,
    targets: Seq<Seq<char>>,
    t: Seq<char>,
)
    requires
        forall|x: DebtInventoryRow| rows1.contains(x) <==> rows2.contains(x),
        covered(applicable(rows1, id, version, targets), t),
    ensures
        covered(applicable(rows2, id, version, targets), t),
{
    let a = applicable(rows1, id, version, targets);
    let b = applicable(rows2, id, version, targets);
    lemma_applicable_members(rows1, id, version, targets);
    lemma_applicable_members(rows2, id, version, targets);
    let i = choose|i: int| 0 <= i < a.len() && views(#[trigger] a[i].scope_target_triples@).contains(t);
    let x = a[i];
    assert(a.contains(x));
    assert(rows1.contains(x) && applies(x, id, version, targets));
    assert(rows2.contains(x));
    assert(b.contains(x));
    let j = choose|j: int| 0 <= j < b.len() && b[j] == x;
    assert(views(b[j].scope_target_triples@).contains(t));
}

/// Which of a gap's targets remain unauthorized depends on which rows the inventory holds, not
/// on the order it lists them in.
pub proof fn law_inventory_order_does_not_change_remaining_targets(
    rows1: Seq<DebtInventoryRow>,
    rows2: Seq<DebtInventoryRow>,
    id: IdView,
    version: Seq<char>,
    targets: Seq<Seq<char>>,
)
    requires
        forall|x: DebtInventoryRow| rows1.contains(x) <==> rows2.contains(x),
    ensures
        uncovered(targets, applicable(rows1, id, version, targets)) == uncovered(targets, applicable(rows2, id, version, targets)),
{
    let a = applicable(rows1, id, version, targets);
    let b = applicable(rows2, id, version, targets);
    lemma_applicable_members(rows1, id, version, targets);
    lemma_applicable_members(rows2, id, version, targets);
    assert forall|t: Seq<char>| covered(a, t) <==> covered(b, t) by {
        if covered(a, t) {
            lemma_covered_transfer(rows1, rows2, id, version, targets, t);
        }
        if covered(b, t) {
            lemma_covered_transfer(rows2, rows1, id, version, targets, t);
        }
    }
    lemma_uncovered_depends_on_coverage(targets, a, b);
}

/// A target stays unauthorized exactly when it is one of the gap's targets and no applicable
/// row's scope holds it: a grant for one target never authorizes another.
pub proof fn law_remaining_targets_are_the_uncovered_ones(targets: Seq<Seq<char>>, rows: Seq<DebtInventoryRow>, t: Seq<char>)
    ensures
        uncovered(targets, rows).contains(t) <==> (targets.contains(t) && !covered(rows, t)),
    decreases targets.len(),
{
    if targets.len() > 0 {
        let init = targets.drop_last();
        law_remaining_targets_are_the_uncovered_ones(init, rows, t);
        let p = uncovered(init, rows);
        if targets.contains(t) && t != targets.last() {
            let k = choose|k: int| 0 <= k < targets.len() && targets[k] == t;
            assert(init[k] == t);
        }
        if init.contains(t) {
            let k = choose|k: int| 0 <= k < init.len() && init[k] == t;
            assert(targets[k] == t);
        }
        assert(targets[targets.len() - 1] == targets.last());
        if !covered(rows, targets.last()) {
            let q = p.push(targets.last());
            assert(q[q.len() - 1] == targets.last());
            if q.contains(t) && t != targets.last() {
                let k = choose|k: int| 0 <= k < q.len() && q[k] == t;
                assert(p[k] == t);
            }
            if p.contains(t) {
                let k = choose|k: int| 0 <= k < p.len() && p[k] == t;
                assert(q[k] == t);
            }
        }
    }
}

// ---------------------------------------------------------------------------------------------
// Gaps from exact-target reports

/// `value.pointer("/platform_filter/<field>")`.
pub open spec fn platform_field(doc: JsonTree, field: Seq<char>) -> Option<JsonTree> {
    match json_get(doc, "platform_filter"@) {
        None => None,
        Some(p) => json_get(p, field),
    }
}

/// The gap surfaces one exact-target report lists, or why it cannot serve: it must be readable
/// JSON, be for the expected upstream version, select exactly its own target, name only that
/// target as its input, and hold a `deltas` object.
pub open spec fn exact_report_gaps(agent: Seq<char>, version: Seq<char>, target: Seq<char>, path: Seq<char>, report: Result<Seq<char>, Seq<char>>) -> Result<Set<IdView>, Seq<char>> {
    match report {
        Err(m) => Err(inventory_text("read "@ + path + ": "@ + m)),
        Ok(text) => match spec_json(text) {
            Err(e) => Err(inventory_text("parse "@ + path + ": "@ + e)),
            Ok(doc) => match version_problem(path, doc, version) {
                Some(e) => Err(e),
                None => if platform_field(doc, "mode"@) != Some(JsonTree::Str("exact_target"@))
                    || platform_field(doc, "target_triple"@) != Some(JsonTree::Str(target)) {
                    Err(inventory_text(path + " must select platform_filter.mode=exact_target and target_triple="@ + target))
                } else if !(report_targets(doc) matches Some(ts) && ts.to_set() == set![target]) {
                    Err(inventory_text(path + " inputs.upstream.targets must contain only `"@ + target + "`"@))
                } else {
                    match json_get(doc, "deltas"@) {
                        Some(JsonTree::Object(d)) => crate::support_audit::lists_surfaces(agent, path, d, gap_list_view()),
                        _ => Err(path + " is missing `deltas` object"@),
                    }
                }
            },
        },
    }
}

/// Where the exact-target report for a target lives in a version's report directory.
pub open spec fn exact_report_path(dir: Seq<char>, target: Seq<char>) -> Seq<char> {
    dir + "/coverage."@ + target + ".json"@
}

/// The gap surfaces of each target's report, in target order; the first unusable report stops
/// the reading.
pub open spec fn report_sets(agent: Seq<char>, version: Seq<char>, dir: Seq<char>, targets: Seq<Seq<char>>, reports: Seq<Result<Seq<char>, Seq<char>>>) -> Result<Seq<Set<IdView>>, Seq<char>>
    decreases targets.len(),
{
    if targets.len() == 0 || reports.len() != targets.len() {
        Ok(Seq::empty())
    } else {
        match report_sets(agent, version, dir, targets.drop_last(), reports.drop_last()) {
            Err(e) => Err(e),
            Ok(done) => match exact_report_gaps(agent, version, targets.last(), exact_report_path(dir, targets.last()), reports.last()) {
                Err(e) => Err(e),
                Ok(ids) => Ok(done.push(ids)),
            },
        }
    }
}

pub open spec fn gap_ids(gaps: Seq<TargetedGap>) -> Seq<IdView> {
    gaps.map_values(|g: TargetedGap| g.identity.view())
}

/// Some target's report lists `id`.
pub open spec fn listed_somewhere(sets: Seq<Set<IdView>>, id: IdView) -> bool {
    exists|i: int| 0 <= i < sets.len() && (#[trigger] sets[i]).contains(id)
}

/// The targets whose reports list `id`, in target order.
pub open spec fn targets_listing(targets: Seq<Seq<char>>, sets: Seq<Set<IdView>>, id: IdView) -> Seq<Seq<char>>
    decreases targets.len(),
{
    if targets.len() == 0 || sets.len() != targets.len() {
        Seq::empty()
    } else {
        let p = targets_listing(targets.drop_last(), sets.drop_last(), id);
        if sets.last().contains(id) {
            p.push(targets.last())
        } else {
            p
        }
    }
}

pub open spec fn report_views(reports: Seq<Result<String, String>>) -> Seq<Result<Seq<char>, Seq<char>>> {
    reports.map_values(|r: Result<String, String>| match r {
        Ok(t) => Ok(t@),
        Err(m) => Err(m@),
    })
}

fn platform_filter_field<'a>(doc: &'a JsonValue, field: &str) -> (r: Option<&'a JsonValue>)
    ensures
        match r {
            Some(x) => platform_field(json_of(*doc), field@) == Some(json_of(*x)),
            None => platform_field(json_of(*doc), field@) is None,
        },
{
    proof {
        reveal_strlit("platform_filter");
    }
    match json_field(doc, "platform_filter") {
        None => None,
        Some(p) => json_field(p, field),
    }
}

/// `load_targeted_gaps` for one target: the gap surfaces its exact-target report lists,
/// ascending, or why the report cannot serve.
pub fn exact_target_report_gaps(agent_id: &str, version: &str, target: &str, report_path: &str, report: &Result<String, String>) -> (r: Result<Vec<SurfaceIdentity>, String>)
    ensures
        match exact_report_gaps(agent_id@, version@, target@, report_path@, match report { Ok(t) => Ok(t@), Err(m) => Err(m@) }) {
            Err(e) => r matches Err(m) && m@ == e,
            Ok(ids) => r matches Ok(v) && crate::support_audit::ids_ascending(crate::support_audit::id_views(v@)) && crate::support_audit::id_views(v@).to_set() == ids,
        },
{
    let text = match report {
        Ok(t) => t,
        Err(m) => {
            let mut e = cat3("read ", report_path, ": ");
            e.append(m.as_str());
            return Err(inventory_error(e.as_str()));
        },
    };
    let doc = match parse_json(text.as_str()) {
        Ok(d) => d,
        Err(m) => {
            let mut e = cat3("parse ", report_path, ": ");
            e.append(m.as_str());
            return Err(inventory_error(e.as_str()));
        },
    };
    proof {
        reveal_strlit("semantic_version");
        reveal_strlit("targets");
        reveal_strlit("deltas");
        reveal_strlit("mode");
        reveal_strlit("target_triple");
        reveal_strlit("exact_target");
    }
    let observed = match upstream_field(&doc, "semantic_version") {
        Some(JsonValue::Str(v)) => Some(v),
        _ => None,
    };
    let version_ok = match observed {
        Some(v) => str_eq(v.as_str(), version),
        None => false,
    };
    if !version_ok {
        let mut e = cat2(report_path, " upstream semantic_version ");
        match observed {
            Some(v) => {
                e.append("Some(");
                let q = debug_quote(v.as_str());
                e.append(q.as_str());
                e.append(")");
            },
            None => {
                e.append("None");
            },
        }
        e.append(" does not equal `");
        e.append(version);
        e.append("`");
        return Err(inventory_error(e.as_str()));
    }
    let mode_ok = match platform_filter_field(&doc, "mode") {
        Some(JsonValue::Str(m)) => str_eq(m.as_str(), "exact_target"),
        _ => false,
    };
    let target_ok = match platform_filter_field(&doc, "target_triple") {
        Some(JsonValue::Str(t)) => str_eq(t.as_str(), target),
        _ => false,
    };
    if !mode_ok || !target_ok {
        let e = cat3(report_path, " must select platform_filter.mode=exact_target and target_triple=", target);
        return Err(inventory_error(e.as_str()));
    }
    let names = match upstream_field(&doc, "targets") {
        Some(JsonValue::Array(items)) => json_string_items(items),
        _ => None,
    };
    let only_target = match &names {
        Some(ts) => {
            let ghost tv = views(ts@);
            let mut ok = ts.len() > 0;
            let mut i: usize = 0;
            while i < ts.len()
                invariant
                    i <= ts.len(),
                    tv == views(ts@),
                    ok == (ts.len() > 0 && forall|k: int| 0 <= k < i ==> #[trigger] tv[k] == target@),
                decreases ts.len() - i,
            {
                assert(tv[i as int] == ts@[i as int]@);
                if !str_eq(ts[i].as_str(), target) {
                    ok = false;
                }
                i = i + 1;
            }
            proof {
                if ok {
                    assert(tv.to_set() =~= set![target@]) by {
                        assert(tv.to_set().contains(tv[0]));
                        assert forall|x: Seq<char>| tv.to_set().contains(x) implies x == target@ by {
                            let k = choose|k: int| 0 <= k < tv.len() && tv[k] == x;
                        }
                    }
                } else {
                    if tv.to_set() == set![target@] {
                        assert(set![target@].contains(target@));
                        let w = choose|k: int| 0 <= k < tv.len() && tv[k] == target@;
                        assert(tv.len() > 0);
                        let bad = choose|k: int| 0 <= k < tv.len() && tv[k] != target@;
                        assert(tv.to_set().contains(tv[bad]));
                    }
                }
            }
            ok
        },
        None => false,
    };
    if !only_target {
        let mut e = cat3(report_path, " inputs.upstream.targets must contain only `", target);
        e.append("`");
        return Err(inventory_error(e.as_str()));
    }
    match json_field(&doc, "deltas") {
        Some(JsonValue::Object(d)) => crate::support_audit::surfaces_from_report_deltas(agent_id, report_path, d),
        _ => Err(cat2(report_path, " is missing `deltas` object")),
    }
}

proof fn lemma_report_sets_prefix_err(agent: Seq<char>, version: Seq<char>, dir: Seq<char>, targets: Seq<Seq<char>>, reports: Seq<Result<Seq<char>, Seq<char>>>, i: int)
    requires
        0 <= i <= targets.len(),
        targets.len() == reports.len(),
        report_sets(agent, version, dir, targets.subrange(0, i), reports.subrange(0, i)) is Err,
    ensures
        report_sets(agent, version, dir, targets, reports) == report_sets(agent, version, dir, targets.subrange(0, i), reports.subrange(0, i)),
    decreases targets.len() - i,
{
    if i < targets.len() {
        assert(targets.subrange(0, i + 1).drop_last() =~= targets.subrange(0, i));
        assert(reports.subrange(0, i + 1).drop_last() =~= reports.subrange(0, i));
        lemma_report_sets_prefix_err(agent, version, dir, targets, reports, i + 1);
    } else {
        assert(targets.subrange(0, i) =~= targets);
        assert(reports.subrange(0, i) =~= reports);
    }
}

/// `load_targeted_gaps`, given each target's exact-target report as read from the version's
/// report directory (its text, or why it could not be read), in the order the targets are
/// checked: each gap surface any report lists, ascending, with the targets whose reports list
/// it, in target order; or the first report that cannot serve.
pub fn targeted_gaps(
    agent_id: &str,
    version: &str,
    version_dir: &str,
    targets: &Vec<String>,
    reports: &Vec<Result<String, String>>,
) -> (r: Result<Vec<TargetedGap>, String>)
    requires
        targets.len() == reports.len(),
    ensures
        match report_sets(agent_id@, version@, version_dir@, views(targets@), report_views(reports@)) {
            Err(e) => r matches Err(m) && m@ == e,
            Ok(sets) => r matches Ok(gaps)
                && crate::support_audit::ids_ascending(gap_ids(gaps@))
                && (forall|id: IdView| #![trigger gap_ids(gaps@).contains(id)] #![trigger listed_somewhere(sets, id)]
                    gap_ids(gaps@).contains(id) <==> listed_somewhere(sets, id))
                && (forall|k: int| 0 <= k < gaps@.len() ==> views((#[trigger] gaps@[k]).targets@) == targets_listing(views(targets@), sets, gaps@[k].identity.view())),
        },
{
    let ghost tv = views(targets@);
    let ghost rv = report_views(reports@);
    let mut per: Vec<Vec<SurfaceIdentity>> = Vec::new();
    let mut all: Vec<SurfaceIdentity> = Vec::new();
    let ghost mut sets: Seq<Set<IdView>> = Seq::empty();
    let mut i: usize = 0;
    assert(tv.subrange(0, 0) =~= Seq::<Seq<char>>::empty());
    assert(rv.subrange(0, 0) =~= Seq::<Result<Seq<char>, Seq<char>>>::empty());
    assert(crate::support_audit::id_views(all@) =~= Seq::<IdView>::empty());
    while i < targets.len()
        invariant
            i <= targets.len(),
            targets.len() == reports.len(),
            tv == views(targets@),
            rv == report_views(reports@),
            report_sets(agent_id@, version@, version_dir@, tv.subrange(0, i as int), rv.subrange(0, i as int)) == Ok::<Seq<Set<IdView>>, Seq<char>>(sets),
            per.len() == i,
            sets.len() == i,
            forall|k: int| 0 <= k < i ==> crate::support_audit::id_views((#[trigger] per@[k])@).to_set() == sets[k],
            crate::support_audit::ids_ascending(crate::support_audit::id_views(all@)),
            forall|id: IdView| crate::support_audit::id_views(all@).to_set().contains(id) <==> exists|k: int| 0 <= k < i && (#[trigger] sets[k]).contains(id),
        decreases targets.len() - i,
    {
        let mut path = cat2(version_dir, "/coverage.");
        path.append(targets[i].as_str());
        path.append(".json");
        proof {
            assert(tv.subrange(0, i + 1).drop_last() =~= tv.subrange(0, i as int));
            assert(rv.subrange(0, i + 1).drop_last() =~= rv.subrange(0, i as int));
            assert(tv.subrange(0, i + 1).last() == targets@[i as int]@);
            assert(rv.subrange(0, i + 1).last() == rv[i as int]);
        }
        let found = match exact_target_report_gaps(agent_id, version, targets[i].as_str(), path.as_str(), &reports[i]) {
            Ok(v) => v,
            Err(e) => {
                proof {
                    lemma_report_sets_prefix_err(agent_id@, version@, version_dir@, tv, rv, i + 1);
                    assert(tv.subrange(0, tv.len() as int) =~= tv);
                    assert(rv.subrange(0, rv.len() as int) =~= rv);
                }
                return Err(e);
            },
        };
        let ghost s_i = crate::support_audit::id_views(found@).to_set();
        let mut j: usize = 0;
        let ghost start = crate::support_audit::id_views(all@).to_set();
        while j < found.len()
            invariant
                j <= found.len(),
                crate::support_audit::ids_ascending(crate::support_audit::id_views(all@)),
                forall|id: IdView| #![trigger crate::support_audit::id_views(all@).to_set().contains(id)]
                    crate::support_audit::id_views(all@).to_set().contains(id)
                    <==> (start.contains(id) || exists|m: int| 0 <= m < j && (#[trigger] found@[m]).view() == id),
            decreases found.len() - j,
        {
            let ghost before = crate::support_audit::id_views(all@).to_set();
            crate::support_audit::insert_identity(&mut all, found[j].duplicate());
            proof {
                assert forall|id: IdView| crate::support_audit::id_views(all@).to_set().contains(id)
                    <==> (start.contains(id) || exists|m: int| 0 <= m < j + 1 && (#[trigger] found@[m]).view() == id) by {
                    assert(before.contains(id) == (start.contains(id) || exists|m: int| 0 <= m < j && (#[trigger] found@[m]).view() == id));
                    if id == found@[j as int].view() {
                        assert(found@[j as int].view() == id);
                    }
                    if exists|m: int| 0 <= m < j + 1 && (#[trigger] found@[m]).view() == id {
                        let m = choose|m: int| 0 <= m < j + 1 && (#[trigger] found@[m]).view() == id;
                        if m < j {
                            assert(before.contains(id));
                        }
                    }
                }
            }
            j = j + 1;
        }
        proof {
            assert forall|id: IdView| s_i.contains(id) <==> exists|m: int| 0 <= m < found.len() && (#[trigger] found@[m]).view() == id by {
                if s_i.contains(id) {
                    let m = choose|m: int| 0 <= m < crate::support_audit::id_views(found@).len() && crate::support_audit::id_views(found@)[m] == id;
                    assert(found@[m].view() == id);
                }
                if exists|m: int| 0 <= m < found.len() && (#[trigger] found@[m]).view() == id {
                    let m = choose|m: int| 0 <= m < found.len() && (#[trigger] found@[m]).view() == id;
                    assert(crate::support_audit::id_views(found@)[m] == id);
                }
            }
            let nsets = sets.push(s_i);
            assert forall|id: IdView| crate::support_audit::id_views(all@).to_set().contains(id)
                <==> exists|k: int| 0 <= k < i + 1 && (#[trigger] nsets[k]).contains(id) by {
                if exists|k: int| 0 <= k < i + 1 && (#[trigger] nsets[k]).contains(id) {
                    let k = choose|k: int| 0 <= k < i + 1 && (#[trigger] nsets[k]).contains(id);
                    if k < i {
                        assert(sets[k].contains(id));
                    }
                }
                if start.contains(id) {
                    let k = choose|k: int| 0 <= k < i && (#[trigger] sets[k]).contains(id);
                    assert(nsets[k].contains(id));
                }
                if s_i.contains(id) {
                    assert(nsets[i as int].contains(id));
                }
            }
        }
        per.push(found);
        proof {
            sets = sets.push(s_i);
        }
        i = i + 1;
    }
    proof {
        assert(tv.subrange(0, tv.len() as int) =~= tv);
        assert(rv.subrange(0, rv.len() as int) =~= rv);
    }
    let mut gaps: Vec<TargetedGap> = Vec::new();
    let mut g: usize = 0;
    while g < all.len()
        invariant
            g <= all.len(),
            gaps.len() == g,
            per.len() == targets.len(),
            sets.len() == targets.len(),
            tv == views(targets@),
            forall|k: int| 0 <= k < per.len() ==> crate::support_audit::id_views((#[trigger] per@[k])@).to_set() == sets[k],
            gap_ids(gaps@) == crate::support_audit::id_views(all@).subrange(0, g as int),
            forall|k: int| 0 <= k < gaps@.len() ==> views((#[trigger] gaps@[k]).targets@) == targets_listing(tv, sets, gaps@[k].identity.view()),
        decreases all.len() - g,
    {
        let id = &all[g];
        let mut ts: Vec<String> = Vec::new();
        let mut t: usize = 0;
        assert(tv.subrange(0, 0) =~= Seq::<Seq<char>>::empty());
        while t < targets.len()
            invariant
                t <= targets.len(),
                per.len() == targets.len(),
                sets.len() == targets.len(),
                tv == views(targets@),
                forall|k: int| 0 <= k < per.len() ==> crate::support_audit::id_views((#[trigger] per@[k])@).to_set() == sets[k],
                views(ts@) == targets_listing(tv.subrange(0, t as int), sets.subrange(0, t as int), id.view()),
            decreases targets.len() - t,
        {
            proof {
                assert(tv.subrange(0, t + 1).drop_last() =~= tv.subrange(0, t as int));
                assert(sets.subrange(0, t + 1).drop_last() =~= sets.subrange(0, t as int));
                assert(tv.subrange(0, t + 1).last() == tv[t as int]);
                assert(sets.subrange(0, t + 1).last() == sets[t as int]);
                assert(crate::support_audit::id_views(per@[t as int]@).to_set() == sets[t as int]);
            }
            if crate::support_audit::contains_identity(&per[t], id) {
                let ghost before = views(ts@);
                ts.push(to_owned(targets[t].as_str()));
                assert(views(ts@) =~= before.push(tv[t as int]));
            }
            t = t + 1;
        }
        proof {
            assert(tv.subrange(0, tv.len() as int) =~= tv);
            assert(sets.subrange(0, sets.len() as int) =~= sets);
        }
        let ghost before = gaps@;
        let dup = id.duplicate();
        gaps.push(TargetedGap { identity: dup, targets: ts });
        proof {
            assert(gaps@ =~= before.push(gaps@[g as int]));
            assert(gap_ids(gaps@) =~= gap_ids(before).push(all@[g as int].view()));
            assert(crate::support_audit::id_views(all@)[g as int] == all@[g as int].view());
            assert(crate::support_audit::id_views(all@).subrange(0, g + 1) =~= crate::support_audit::id_views(all@).subrange(0, g as int).push(all@[g as int].view()));
            assert(gap_ids(gaps@) =~= crate::support_audit::id_views(all@).subrange(0, g + 1));
            assert forall|k: int| 0 <= k < gaps@.len() implies views((#[trigger] gaps@[k]).targets@) == targets_listing(tv, sets, gaps@[k].identity.view()) by {
                if k < before.len() {
                    assert(gaps@[k] == before[k]);
                }
            }
        }
        g = g + 1;
    }
    proof {
        let ids = gap_ids(gaps@);
        assert(crate::support_audit::id_views(all@).subrange(0, all.len() as int) =~= crate::support_audit::id_views(all@));
        assert(ids == crate::support_audit::id_views(all@));
        assert forall|id: IdView| #![trigger ids.contains(id)] #![trigger listed_somewhere(sets, id)] ids.contains(id) <==> listed_somewhere(sets, id) by {
            assert(ids.contains(id) <==> ids.to_set().contains(id));
        }
    }
    Ok(gaps)
}

// ---------------------------------------------------------------------------------------------
// Which rows apply does not depend on the inventory's order

/// The row ids of rows, in order.
pub open spec fn row_id_seq(s: Seq<DebtInventoryRow>) -> Seq<Seq<char>> {
    s.map_values(|r: DebtInventoryRow| r.row_id@)
}

/// `a` does not come after `b` by row id.
pub open spec fn id_le(a: DebtInventoryRow, b: DebtInventoryRow) -> bool {
    !lex_lt(b.row_id@, a.row_id@)
}

/// Rows whose ids never decrease.
pub open spec fn by_row_id(s: Seq<DebtInventoryRow>) -> bool {
    forall|i: int, j: int| 0 <= i < j < s.len() ==> id_le(#[trigger] s[i], #[trigger] s[j])
}

proof fn lemma_id_le_trans(a: DebtInventoryRow, b: DebtInventoryRow, c: DebtInventoryRow)
    requires
        id_le(a, b),
        id_le(b, c),
    ensures
        id_le(a, c),
{
    lemma_lex_total(a.row_id@, b.row_id@);
    lemma_lex_total(b.row_id@, c.row_id@);
    if lex_lt(c.row_id@, a.row_id@) {
        if lex_lt(a.row_id@, b.row_id@) {
            crate::strset::lemma_lex_transitive(c.row_id@, a.row_id@, b.row_id@);
        }
    }
}

proof fn lemma_id_le_antisym(a: DebtInventoryRow, b: DebtInventoryRow)
    requires
        id_le(a, b),
        id_le(b, a),
    ensures
        a.row_id@ == b.row_id@,
{
    lemma_lex_total(a.row_id@, b.row_id@);
}

proof fn lemma_insert_multiset(s: Seq<DebtInventoryRow>, x: DebtInventoryRow)
    ensures
        insert_by_row_id(s, x).to_multiset() == s.to_multiset().insert(x),
    decreases s.len(),
{
    broadcast use vstd::seq_lib::to_multiset_build;
    if s.len() == 0 {
        assert(seq![x] =~= Seq::<DebtInventoryRow>::empty().push(x));
        assert(s =~= Seq::<DebtInventoryRow>::empty());
    } else if lex_lt(x.row_id@, s.last().row_id@) {
        lemma_insert_multiset(s.drop_last(), x);
        assert(s.drop_last().push(s.last()) =~= s);
        assert(insert_by_row_id(s, x).to_multiset() =~= s.to_multiset().insert(x));
    } else {
    }
}

proof fn lemma_sort_multiset(s: Seq<DebtInventoryRow>)
    ensures
        sort_by_row_id(s).to_multiset() == s.to_multiset(),
    decreases s.len(),
{
    broadcast use vstd::seq_lib::to_multiset_build;
    broadcast use vstd::seq_lib::to_multiset_len;
    broadcast use vstd::multiset::group_multiset_axioms;
    if s.len() == 0 {
        assert(s =~= Seq::<DebtInventoryRow>::empty());
        assert(s.to_multiset().len() == 0);
        assert(sort_by_row_id(s).to_multiset().len() == 0);
        assert(sort_by_row_id(s).to_multiset() =~= s.to_multiset());
    } else {
        assert(s.drop_last().push(s.last()) =~= s);
        assert(s.drop_last().push(s.last()).to_multiset() == s.drop_last().to_multiset().insert(s.last()));
        lemma_sort_multiset(s.drop_last());
        lemma_insert_multiset(sort_by_row_id(s.drop_last()), s.last());
    }
}

proof fn lemma_multiset_member(s: Seq<DebtInventoryRow>, y: DebtInventoryRow)
    ensures
        s.contains(y) <==> s.to_multiset().count(y) > 0,
{
    broadcast use vstd::seq_lib::to_multiset_contains;
}

proof fn lemma_insert_sorted(s: Seq<DebtInventoryRow>, x: DebtInventoryRow)
    requires
        by_row_id(s),
    ensures
        by_row_id(insert_by_row_id(s, x)),
    decreases s.len(),
{
    broadcast use vstd::multiset::group_multiset_axioms;
    if s.len() == 0 {
    } else if lex_lt(x.row_id@, s.last().row_id@) {
        let t = s.drop_last();
        assert forall|i: int, j: int| 0 <= i < j < t.len() implies id_le(#[trigger] t[i], #[trigger] t[j]) by {
            assert(t[i] == s[i] && t[j] == s[j]);
        }
        lemma_insert_sorted(t, x);
        let p = insert_by_row_id(t, x);
        let r = p.push(s.last());
        lemma_insert_multiset(t, x);
        assert forall|i: int| 0 <= i < p.len() implies id_le(#[trigger] p[i], s.last()) by {
            assert(p.contains(p[i]));
            lemma_multiset_member(p, p[i]);
            lemma_multiset_member(t, p[i]);
            if p[i] != x {
                assert(t.contains(p[i]));
                let k = choose|k: int| 0 <= k < t.len() && t[k] == p[i];
                assert(s[k] == p[i]);
                assert(id_le(s[k], s[s.len() - 1]));
            } else {
                crate::strset::lemma_lex_asymmetric(x.row_id@, s.last().row_id@);
            }
        }
        assert forall|i: int, j: int| 0 <= i < j < r.len() implies id_le(#[trigger] r[i], #[trigger] r[j]) by {
            if j < p.len() {
                assert(r[i] == p[i] && r[j] == p[j]);
            } else {
                assert(r[i] == p[i]);
                assert(r[j] == s.last());
            }
        }
    } else {
        let r = s.push(x);
        assert forall|i: int, j: int| 0 <= i < j < r.len() implies id_le(#[trigger] r[i], #[trigger] r[j]) by {
            if j < s.len() {
                assert(r[i] == s[i] && r[j] == s[j]);
            } else {
                assert(r[i] == s[i]);
                if i < s.len() - 1 {
                    assert(id_le(s[i], s[s.len() - 1]));
                    lemma_id_le_trans(s[i], s[s.len() - 1], x);
                }
            }
        }
    }
}

proof fn lemma_sort_sorted(s: Seq<DebtInventoryRow>)
    ensures
        by_row_id(sort_by_row_id(s)),
    decreases s.len(),
{
    if s.len() > 0 {
        lemma_sort_sorted(s.drop_last());
        lemma_insert_sorted(sort_by_row_id(s.drop_last()), s.last());
    }
}

/// Two row sequences that hold the same rows and are both ordered by row id list the same ids.
proof fn lemma_sorted_ids_unique(a: Seq<DebtInventoryRow>, b: Seq<DebtInventoryRow>)
    requires
        by_row_id(a),
        by_row_id(b),
        a.to_multiset() == b.to_multiset(),
    ensures
        row_id_seq(a) == row_id_seq(b),
    decreases a.len(),
{
    broadcast use vstd::multiset::group_multiset_axioms;
    broadcast use vstd::seq_lib::to_multiset_len;
    broadcast use vstd::seq_lib::to_multiset_remove;
    assert(a.len() == a.to_multiset().len());
    assert(b.len() == b.to_multiset().len());
    if a.len() == 0 {
        assert(row_id_seq(a) =~= row_id_seq(b));
    } else {
        let x = a[0];
        lemma_multiset_member(a, x);
        assert(a.contains(x));
        lemma_multiset_member(b, x);
        let k = choose|k: int| 0 <= k < b.len() && b[k] == x;
        let y = b[0];
        lemma_multiset_member(b, y);
        assert(b.contains(y));
        lemma_multiset_member(a, y);
        let m = choose|m: int| 0 <= m < a.len() && a[m] == y;
        crate::strset::lemma_lex_irreflexive(x.row_id@);
        if m > 0 {
            assert(id_le(a[0], a[m]));
        }
        if k > 0 {
            assert(id_le(b[0], b[k]));
        }
        assert(id_le(x, y));
        assert(id_le(y, x));
        lemma_id_le_antisym(x, y);
        let a2 = a.drop_first();
        let b2 = b.remove(k);
        assert(a.remove(0) =~= a2);
        assert(a2.to_multiset() == a.to_multiset().remove(x));
        assert(b2.to_multiset() == b.to_multiset().remove(b[k]));
        assert forall|i: int, j: int| 0 <= i < j < a2.len() implies id_le(#[trigger] a2[i], #[trigger] a2[j]) by {
            assert(a2[i] == a[i + 1] && a2[j] == a[j + 1]);
        }
        assert forall|i: int, j: int| 0 <= i < j < b2.len() implies id_le(#[trigger] b2[i], #[trigger] b2[j]) by {
            let i2 = if i < k { i } else { i + 1 };
            let j2 = if j < k { j } else { j + 1 };
            assert(b2[i] == b[i2] && b2[j] == b[j2]);
        }
        lemma_sorted_ids_unique(a2, b2);
        assert forall|i: int| 0 <= i < row_id_seq(a).len() implies row_id_seq(a)[i] == row_id_seq(b)[i] by {
            if i == 0 {
            } else if i <= k {
                // b[0..=k] all share x's id
                assert(id_le(b[0], b[i]) || i == 0);
                if i < k {
                    assert(id_le(b[i], b[k]));
                }
                lemma_id_le_antisym(b[i], b[k]);
                assert(row_id_seq(b2)[i - 1] == b[i - 1].row_id@);
                if i - 1 > 0 {
                    assert(id_le(b[0], b[i - 1]));
                    assert(id_le(b[i - 1], b[k]));
                    lemma_id_le_antisym(b[i - 1], b[k]);
                }
                assert(row_id_seq(a2)[i - 1] == a[i].row_id@);
            } else {
                assert(row_id_seq(b2)[i - 1] == b[i].row_id@);
                assert(row_id_seq(a2)[i - 1] == a[i].row_id@);
            }
        }
        assert(row_id_seq(a) =~= row_id_seq(b));
    }
}

proof fn lemma_applicable_count(rows: Seq<DebtInventoryRow>, id: IdView, version: Seq<char>, targets: Seq<Seq<char>>, x: DebtInventoryRow)
    ensures
        applicable(rows, id, version, targets).to_multiset().count(x)
            == if applies(x, id, version, targets) { rows.to_multiset().count(x) } else { 0 },
    decreases rows.len(),
{
    broadcast use vstd::multiset::group_multiset_axioms;
    broadcast use vstd::seq_lib::to_multiset_build;
    broadcast use vstd::seq_lib::to_multiset_len;
    if rows.len() == 0 {
        assert(rows.to_multiset().len() == 0);
        assert(applicable(rows, id, version, targets).to_multiset().len() == 0);
    } else {
        lemma_applicable_count(rows.drop_last(), id, version, targets, x);
        let p = applicable(rows.drop_last(), id, version, targets);
        assert(rows.drop_last().push(rows.last()) =~= rows);
        assert(rows.drop_last().push(rows.last()).to_multiset() == rows.drop_last().to_multiset().insert(rows.last()));
        if applies(rows.last(), id, version, targets) {
            assert(p.push(rows.last()).to_multiset() == p.to_multiset().insert(rows.last()));
        }
    }
}

/// The rows that defer a gap, ordered by row id as `authorize_gap` returns them, name the same
/// row ids whatever order the inventory lists its rows in: two inventories that hold the same
/// rows give the same applicable row ids, in the same order.
pub proof fn law_applicable_row_ids_do_not_depend_on_inventory_order(
    rows1: Seq<DebtInventoryRow>,
    rows2: Seq<DebtInventoryRow>,
    id: IdView,
    version: Seq<char>,
    targets: Seq<Seq<char>>,
)
    requires
        rows1.to_multiset() == rows2.to_multiset(),
    ensures
        row_id_seq(sort_by_row_id(applicable(rows1, id, version, targets)))
            == row_id_seq(sort_by_row_id(applicable(rows2, id, version, targets))),
{
    let a1 = applicable(rows1, id, version, targets);
    let a2 = applicable(rows2, id, version, targets);
    assert(a1.to_multiset() =~= a2.to_multiset()) by {
        assert forall|x: DebtInventoryRow| a1.to_multiset().count(x) == a2.to_multiset().count(x) by {
            lemma_applicable_count(rows1, id, version, targets, x);
            lemma_applicable_count(rows2, id, version, targets, x);
        }
    }
    lemma_sort_multiset(a1);
    lemma_sort_multiset(a2);
    lemma_sort_sorted(a1);
    lemma_sort_sorted(a2);
    lemma_sorted_ids_unique(sort_by_row_id(a1), sort_by_row_id(a2));
}

/// `authorize_gap` answers the same for any order of the inventory's rows: two inventories that
/// hold the same rows (one a permutation of the other) give the same applicable row ids, in the
/// same order, and the same remaining targets, as `authorize_gap`'s contract states them.
pub proof fn law_authorize_gap_ignores_inventory_order(
    rows1: Seq<DebtInventoryRow>,
    rows2: Seq<DebtInventoryRow>,
    id: IdView,
    version: Seq<char>,
    targets: Seq<Seq<char>>,
)
    requires
        rows1.to_multiset() == rows2.to_multiset(),
    ensures
        row_id_seq(sort_by_row_id(applicable(rows1, id, version, targets)))
            == row_id_seq(sort_by_row_id(applicable(rows2, id, version, targets))),
        uncovered(targets, applicable(rows1, id, version, targets))
            == uncovered(targets, applicable(rows2, id, version, targets)),
{
    law_applicable_row_ids_do_not_depend_on_inventory_order(rows1, rows2, id, version, targets);
    assert forall|x: DebtInventoryRow| rows1.contains(x) <==> rows2.contains(x) by {
        lemma_multiset_member(rows1, x);
        lemma_multiset_member(rows2, x);
    }
    law_inventory_order_does_not_change_remaining_targets(rows1, rows2, id, version, targets);
}

} // verus!

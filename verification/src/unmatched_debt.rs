//! Debt rows that match no gap, classified by what the live evidence shows of their surface.
//! A surface absent from the union is `not_observed`, never removed: help output cannot prove a
//! removal, because upstream can hide a surface from help.
use vstd::prelude::*;

use crate::json_tree::{members_of, JsonTree, JsonValue};
use crate::onboard_preview::{debug_string, quoted};
use crate::strset::{ascending, set_insert};
use crate::support_audit::{
    contains_identity, id_views, identity_of, ids_ascending, insert_identity, lists_surfaces, lists_view, surface_identity,
    surfaces_from_report_lists, DebtInventoryRow, IdView, ReportList, ReportRowShape, SurfaceIdentity, UnmatchedDebtSurface,
    NON_TUI_SUPPORT_DEBT_PATH,
};
use crate::text::{cat2, cat3, join, join_text, str_eq, to_owned, views};

verus! {

/// One command of a union snapshot: its path and the keys of its flags and names of its args.
#[derive(Debug, Clone)]
pub struct UnionCommand {
    pub path: Vec<String>,
    pub flag_keys: Vec<String>,
    pub arg_names: Vec<String>,
}

/// What a union snapshot shows: the targets it was merged from and the surfaces it holds, each
/// ascending.
#[derive(Debug)]
pub struct UnionEvidence {
    pub input_targets: Vec<String>,
    pub surfaces: Vec<SurfaceIdentity>,
}

pub type UnionCommandView = (Seq<Seq<char>>, Seq<Seq<char>>, Seq<Seq<char>>);

pub open spec fn command_view(c: UnionCommand) -> UnionCommandView {
    (views(c.path@), views(c.flag_keys@), views(c.arg_names@))
}

pub open spec fn commands_view(cs: Seq<UnionCommand>) -> Seq<UnionCommandView> {
    cs.map_values(|c: UnionCommand| command_view(c))
}

pub open spec fn leaf_surfaces(agent_id: Seq<char>, path: Seq<Seq<char>>, shape: ReportRowShape, leaves: Seq<Seq<char>>) -> Set<IdView>
    decreases leaves.len(),
{
    if leaves.len() == 0 {
        Set::empty()
    } else {
        leaf_surfaces(agent_id, path, shape, leaves.drop_last()).insert(identity_of(agent_id, path, shape, leaves.last()))
    }
}

/// A command's surfaces: the command itself, each flag and each arg.
pub open spec fn command_surfaces(agent_id: Seq<char>, c: UnionCommandView) -> Set<IdView> {
    leaf_surfaces(agent_id, c.0, ReportRowShape::Flag, c.1)
        .union(leaf_surfaces(agent_id, c.0, ReportRowShape::Arg, c.2))
        .insert(identity_of(agent_id, c.0, ReportRowShape::Command, ""@))
}

pub open spec fn union_surfaces(agent_id: Seq<char>, cs: Seq<UnionCommandView>) -> Set<IdView>
    decreases cs.len(),
{
    if cs.len() == 0 {
        Set::empty()
    } else {
        union_surfaces(agent_id, cs.drop_last()).union(command_surfaces(agent_id, cs.last()))
    }
}

fn insert_leaves(set: &mut Vec<SurfaceIdentity>, agent_id: &str, path: &Vec<String>, shape: ReportRowShape, leaves: &Vec<String>)
    requires
        ids_ascending(id_views(old(set)@)),
    ensures
        ids_ascending(id_views(final(set)@)),
        id_views(final(set)@).to_set() == id_views(old(set)@).to_set().union(leaf_surfaces(agent_id@, views(path@), shape, views(leaves@))),
{
    let ghost start = id_views(set@).to_set();
    let ghost lv = views(leaves@);
    let mut i: usize = 0;
    assert(lv.subrange(0, 0) =~= Seq::<Seq<char>>::empty());
    assert(start.union(Set::<IdView>::empty()) =~= start);
    while i < leaves.len()
        invariant
            i <= leaves.len(),
            lv == views(leaves@),
            ids_ascending(id_views(set@)),
            id_views(set@).to_set() == start.union(leaf_surfaces(agent_id@, views(path@), shape, lv.subrange(0, i as int))),
        decreases leaves.len() - i,
    {
        let ghost sub = lv.subrange(0, i + 1);
        proof {
            assert(sub.drop_last() =~= lv.subrange(0, i as int));
            assert(sub.last() == leaves@[i as int]@);
        }
        let id = surface_identity(agent_id, path, shape, leaves[i].as_str());
        let ghost before = id_views(set@).to_set();
        insert_identity(set, id);
        assert(id_views(set@).to_set() =~= start.union(leaf_surfaces(agent_id@, views(path@), shape, sub)));
        i = i + 1;
    }
    assert(lv.subrange(0, lv.len() as int) =~= lv);
}

/// The part of `load_union` that follows the parse: the union's input targets and every
/// surface of its commands, each as an ascending set.
pub fn union_evidence(agent_id: &str, input_targets: &Vec<String>, commands: &Vec<UnionCommand>) -> (r: UnionEvidence)
    ensures
        ascending(views(r.input_targets@)),
        views(r.input_targets@).to_set() == views(input_targets@).to_set(),
        ids_ascending(id_views(r.surfaces@)),
        id_views(r.surfaces@).to_set() == union_surfaces(agent_id@, commands_view(commands@)),
{
    let mut targets: Vec<String> = Vec::new();
    let mut i: usize = 0;
    assert(views(targets@) =~= Seq::<Seq<char>>::empty());
    assert(views(input_targets@).subrange(0, 0).to_set() =~= Set::<Seq<char>>::empty());
    assert(views(targets@).to_set() =~= Set::<Seq<char>>::empty());
    while i < input_targets.len()
        invariant
            i <= input_targets.len(),
            ascending(views(targets@)),
            views(targets@).to_set() == views(input_targets@).subrange(0, i as int).to_set(),
        decreases input_targets.len() - i,
    {
        let ghost before = views(targets@).to_set();
        set_insert(&mut targets, to_owned(input_targets[i].as_str()));
        proof {
            let all = views(input_targets@);
            assert(all.subrange(0, i + 1) =~= all.subrange(0, i as int).push(all[i as int]));
            all.subrange(0, i as int).lemma_push_to_set_commute(all[i as int]);
        }
        i = i + 1;
    }
    assert(views(input_targets@).subrange(0, input_targets.len() as int) =~= views(input_targets@));
    let ghost cv = commands_view(commands@);
    let mut surfaces: Vec<SurfaceIdentity> = Vec::new();
    let mut j: usize = 0;
    assert(cv.subrange(0, 0) =~= Seq::<UnionCommandView>::empty());
    assert(id_views(surfaces@) =~= Seq::<IdView>::empty());
    assert(id_views(surfaces@).to_set() =~= Set::<IdView>::empty());
    while j < commands.len()
        invariant
            j <= commands.len(),
            cv == commands_view(commands@),
            ids_ascending(id_views(surfaces@)),
            id_views(surfaces@).to_set() == union_surfaces(agent_id@, cv.subrange(0, j as int)),
        decreases commands.len() - j,
    {
        let c = &commands[j];
        let ghost before = id_views(surfaces@).to_set();
        let ghost sub = cv.subrange(0, j + 1);
        proof {
            assert(sub.drop_last() =~= cv.subrange(0, j as int));
            assert(sub.last() == command_view(commands@[j as int]));
        }
        let empty = String::new();
        let id = surface_identity(agent_id, &c.path, ReportRowShape::Command, empty.as_str());
        insert_identity(&mut surfaces, id);
        insert_leaves(&mut surfaces, agent_id, &c.path, ReportRowShape::Flag, &c.flag_keys);
        insert_leaves(&mut surfaces, agent_id, &c.path, ReportRowShape::Arg, &c.arg_names);
        assert(id_views(surfaces@).to_set() =~= before.union(command_surfaces(agent_id@, command_view(*c))));
        j = j + 1;
    }
    assert(cv.subrange(0, cv.len() as int) =~= cv);
    UnionEvidence { input_targets: targets, surfaces }
}

// ---------------------------------------------------------------------------------------------
// Classifying the rows

/// The lists whose rows are surfaces the rules exclude; the report writer omits each when empty.
pub fn excluded_lists() -> (r: [ReportList; 3])
    ensures
        lists_view(r@) == excluded_list_view(),
{
    let r = [
        ("excluded_commands", Some(ReportRowShape::Command), false),
        ("excluded_flags", Some(ReportRowShape::Flag), false),
        ("excluded_args", Some(ReportRowShape::Arg), false),
    ];
    assert(lists_view(r@) =~= excluded_list_view());
    r
}

pub open spec fn excluded_list_view() -> Seq<(Seq<char>, Option<ReportRowShape>, bool)> {
    seq![
        ("excluded_commands"@, Some(ReportRowShape::Command), false),
        ("excluded_flags"@, Some(ReportRowShape::Flag), false),
        ("excluded_args"@, Some(ReportRowShape::Arg), false),
    ]
}

/// What the evidence shows of a row's surface: excluded by the rules, covered by the wrapper
/// (the union holds it and no list names it), or not observed at all.
pub open spec fn observation(excluded: Set<IdView>, observed: Set<IdView>, id: IdView) -> Seq<char> {
    if excluded.contains(id) {
        "excluded_by_rules"@
    } else if observed.contains(id) {
        "covered_by_wrapper"@
    } else {
        "not_observed"@
    }
}

/// `{:?}` of a `BTreeSet<String>` that iterates as `s`.
pub open spec fn set_debug(s: Seq<Seq<char>>) -> Seq<char> {
    "{"@ + join(quoted(s), ", "@) + "}"@
}

pub open spec fn cannot_classify(m: Seq<char>) -> Seq<char> {
    "cannot classify unmatched debt rows: "@ + m
}

/// The classification: each row in order, or why the evidence cannot classify them.
pub open spec fn classify_spec(
    agent_id: Seq<char>,
    report_path: Seq<char>,
    mode: Option<Seq<char>>,
    report_targets: Option<Seq<Seq<char>>>,
    deltas: Seq<(Seq<char>, JsonTree)>,
    rows: Seq<DebtInventoryRow>,
    union: Result<(Seq<Seq<char>>, Set<IdView>), Seq<char>>,
) -> Result<Seq<(IdView, Seq<char>, Seq<char>)>, Seq<char>> {
    if rows.len() == 0 {
        Ok(Seq::empty())
    } else {
        match mode {
            None => Err(cannot_classify("report "@ + report_path + " is missing `platform_filter.mode`"@)),
            Some(m) => if m != "any"@ {
                Err(cannot_classify("report "@ + report_path + " has `platform_filter.mode` `"@ + m + "`, expected `any`"@))
            } else {
                match report_targets {
                    None => Err(cannot_classify("report "@ + report_path + " has no usable `inputs.upstream.targets`"@)),
                    Some(t) => match union {
                        Err(e) => Err(e),
                        Ok((ut, observed)) => if t != ut {
                            Err(cannot_classify("report "@ + report_path + " `inputs.upstream.targets` "@ + set_debug(t)
                                + " differs from union input targets "@ + set_debug(ut)))
                        } else {
                            match lists_surfaces(agent_id, report_path, deltas, excluded_list_view()) {
                                Err(e) => Err(e),
                                Ok(excluded) => Ok(rows.map_values(|row: DebtInventoryRow|
                                    (row.id_view(), NON_TUI_SUPPORT_DEBT_PATH@ + "#"@ + row.row_id@, observation(excluded, observed, row.id_view())))),
                            }
                        },
                    },
                }
            },
        }
    }
}

pub open spec fn unmatched_view(u: UnmatchedDebtSurface) -> (IdView, Seq<char>, Seq<char>) {
    ((u.surface_kind@, u.command_path@, u.surface_id@), u.debt_ref@, u.observation@)
}

pub open spec fn deref_rows(v: Seq<&DebtInventoryRow>) -> Seq<DebtInventoryRow> {
    v.map_values(|r: &DebtInventoryRow| *r)
}

pub open spec fn union_view(u: Result<UnionEvidence, String>) -> Result<(Seq<Seq<char>>, Set<IdView>), Seq<char>> {
    match u {
        Ok(e) => Ok((views(e.input_targets@), id_views(e.surfaces@).to_set())),
        Err(m) => Err(m@),
    }
}

fn set_debug_text(s: &Vec<String>) -> (r: String)
    ensures
        r@ == set_debug(views(s@)),
{
    let mut quoted_items: Vec<String> = Vec::new();
    let mut i: usize = 0;
    while i < s.len()
        invariant
            i <= s.len(),
            views(quoted_items@) == quoted(views(s@).subrange(0, i as int)),
        decreases s.len() - i,
    {
        let ghost before = views(quoted_items@);
        quoted_items.push(crate::onboard_preview::debug_quote(s[i].as_str()));
        proof {
            assert(views(quoted_items@) =~= before.push(debug_string(s@[i as int]@)));
            assert(quoted(views(s@).subrange(0, i + 1)) =~= quoted(views(s@).subrange(0, i as int)).push(debug_string(views(s@)[i as int])));
        }
        i = i + 1;
    }
    assert(views(s@).subrange(0, s.len() as int) =~= views(s@));
    let inner = join_text(&quoted_items, ", ");
    cat3("{", inner.as_str(), "}")
}

fn same_list(a: &Vec<String>, b: &Vec<String>) -> (r: bool)
    ensures
        r == (views(a@) == views(b@)),
{
    crate::onboard_validation::same_texts(a, b)
}

/// `classify_unmatched_debt_rows` on the live report (its path, `platform_filter.mode`, its
/// ascending `inputs.upstream.targets` when usable, and its `deltas`), the rows no gap matched,
/// and the union snapshot's evidence or the reason it could not be loaded.
pub fn classify_unmatched_debt_rows(
    agent_id: &str,
    report_path: &str,
    platform_filter_mode: Option<&str>,
    upstream_targets: Option<&Vec<String>>,
    deltas: &Vec<(String, JsonValue)>,
    rows: &Vec<&DebtInventoryRow>,
    union: Result<UnionEvidence, String>,
) -> (r: Result<Vec<UnmatchedDebtSurface>, String>)
    ensures
        match classify_spec(
            agent_id@,
            report_path@,
            match platform_filter_mode { Some(m) => Some(m@), None => None },
            match upstream_targets { Some(t) => Some(views(t@)), None => None },
            members_of(deltas@),
            deref_rows(rows@),
            union_view(union),
        ) {
            Ok(v) => r matches Ok(out) && out@.map_values(|u: UnmatchedDebtSurface| unmatched_view(u)) == v,
            Err(e) => r matches Err(m) && m@ == e,
        },
{
    let ghost uv = union_view(union);
    if rows.len() == 0 {
        let out: Vec<UnmatchedDebtSurface> = Vec::new();
        assert(out@.map_values(|u: UnmatchedDebtSurface| unmatched_view(u)) =~= Seq::<(IdView, Seq<char>, Seq<char>)>::empty());
        return Ok(out);
    }
    let mode = match platform_filter_mode {
        Some(m) => m,
        None => {
            let mut e = cat3("cannot classify unmatched debt rows: ", "report ", report_path);
            e.append(" is missing `platform_filter.mode`");
            return Err(e);
        },
    };
    if !str_eq(mode, "any") {
        let mut e = cat3("cannot classify unmatched debt rows: ", "report ", report_path);
        e.append(" has `platform_filter.mode` `");
        e.append(mode);
        e.append("`, expected `any`");
        return Err(e);
    }
    let report_targets = match upstream_targets {
        Some(t) => t,
        None => {
            let mut e = cat3("cannot classify unmatched debt rows: ", "report ", report_path);
            e.append(" has no usable `inputs.upstream.targets`");
            return Err(e);
        },
    };
    let evidence = match union {
        Ok(u) => u,
        Err(e) => return Err(e),
    };
    if !same_list(report_targets, &evidence.input_targets) {
        let mut e = cat3("cannot classify unmatched debt rows: ", "report ", report_path);
        e.append(" `inputs.upstream.targets` ");
        let a = set_debug_text(report_targets);
        e.append(a.as_str());
        e.append(" differs from union input targets ");
        let b = set_debug_text(&evidence.input_targets);
        e.append(b.as_str());
        return Err(e);
    }
    let lists = excluded_lists();
    let excluded = surfaces_from_report_lists(agent_id, report_path, deltas, &lists)?;
    let ghost ex = id_views(excluded@).to_set();
    let ghost obs = id_views(evidence.surfaces@).to_set();
    let ghost rv = deref_rows(rows@);
    let ghost want = rv.map_values(|row: DebtInventoryRow|
        (row.id_view(), NON_TUI_SUPPORT_DEBT_PATH@ + "#"@ + row.row_id@, observation(ex, obs, row.id_view())));
    let mut out: Vec<UnmatchedDebtSurface> = Vec::new();
    let mut i: usize = 0;
    while i < rows.len()
        invariant
            i <= rows.len(),
            rv == deref_rows(rows@),
            ex == id_views(excluded@).to_set(),
            obs == id_views(evidence.surfaces@).to_set(),
            want == rv.map_values(|row: DebtInventoryRow|
                (row.id_view(), NON_TUI_SUPPORT_DEBT_PATH@ + "#"@ + row.row_id@, observation(ex, obs, row.id_view()))),
            out@.map_values(|u: UnmatchedDebtSurface| unmatched_view(u)) == want.subrange(0, i as int),
        decreases rows.len() - i,
    {
        let row = rows[i];
        assert(rv[i as int] == *row);
        let identity = row.identity();
        let observation_text = if contains_identity(&excluded, &identity) {
            "excluded_by_rules"
        } else if contains_identity(&evidence.surfaces, &identity) {
            "covered_by_wrapper"
        } else {
            "not_observed"
        };
        let ghost before = out@.map_values(|u: UnmatchedDebtSurface| unmatched_view(u));
        let item = UnmatchedDebtSurface {
            surface_kind: identity.surface_kind,
            command_path: identity.command_path,
            surface_id: identity.surface_id,
            debt_ref: row.debt_ref(),
            observation: to_owned(observation_text),
        };
        out.push(item);
        proof {
            assert(out@.map_values(|u: UnmatchedDebtSurface| unmatched_view(u)) =~= before.push(want[i as int]));
            assert(want.subrange(0, i + 1) =~= want.subrange(0, i as int).push(want[i as int]));
        }
        i = i + 1;
    }
    assert(want.subrange(0, rows.len() as int) =~= want);
    Ok(out)
}

} // verus!

//! Which upstream surfaces count as present in a coverage report, and where each wrapper gap is
//! filed.
use vstd::prelude::*;

use crate::text::{str_eq, to_owned, vec_contains, views};

verus! {

/// How a report combines targets: any report target, one exact target, or every expected one.
#[derive(Debug, Clone, Copy)]
pub enum FilterMode<'a> {
    Any,
    ExactTarget(&'a str),
    All,
}

/// Whether a surface available on `available_on` counts as present under the filter.
pub open spec fn present_spec(available_on: Seq<Seq<char>>, report_targets: Seq<Seq<char>>, expected_targets: Seq<Seq<char>>, mode: FilterMode) -> bool {
    match mode {
        FilterMode::Any => exists|i: int| 0 <= i < available_on.len() && report_targets.contains(#[trigger] available_on[i]),
        FilterMode::ExactTarget(t) => available_on.contains(t@),
        FilterMode::All => forall|i: int| 0 <= i < expected_targets.len() ==> available_on.contains(#[trigger] expected_targets[i]),
    }
}

pub fn present_on_filter(available_on: &Vec<String>, report_targets: &Vec<String>, expected_targets: &Vec<String>, mode: FilterMode) -> (r: bool)
    ensures
        r == present_spec(views(available_on@), views(report_targets@), views(expected_targets@), mode),
{
    match mode {
        FilterMode::Any => {
            let mut i: usize = 0;
            while i < available_on.len()
                invariant
                    i <= available_on.len(),
                    mode is Any,
                    forall|k: int| 0 <= k < i ==> !views(report_targets@).contains(#[trigger] views(available_on@)[k]),
                decreases available_on.len() - i,
            {
                if vec_contains(report_targets, available_on[i].as_str()) {
                    assert(views(available_on@)[i as int] == available_on@[i as int]@);
                    assert(views(report_targets@).contains(views(available_on@)[i as int]));
                    return true;
                }
                assert(views(available_on@)[i as int] == available_on@[i as int]@);
                i = i + 1;
            }
            false
        },
        FilterMode::ExactTarget(t) => vec_contains(available_on, t),
        FilterMode::All => {
            let mut i: usize = 0;
            while i < expected_targets.len()
                invariant
                    i <= expected_targets.len(),
                    mode is All,
                    forall|k: int| 0 <= k < i ==> views(available_on@).contains(#[trigger] views(expected_targets@)[k]),
                decreases expected_targets.len() - i,
            {
                assert(views(expected_targets@)[i as int] == expected_targets@[i as int]@);
                if !vec_contains(available_on, expected_targets[i].as_str()) {
                    assert(!views(available_on@).contains(views(expected_targets@)[i as int]));
                    return false;
                }
                i = i + 1;
            }
            true
        },
    }
}

/// How the wrapper covers a surface on the report's targets.
#[derive(Debug, Clone)]
pub struct CoverageResolution {
    pub level: Option<String>,
    pub note: Option<String>,
    pub targets: Vec<String>,
    pub present: bool,
}

#[derive(Debug, Clone)]
pub struct ReportCommandDeltaV1 {
    pub path: Vec<String>,
    pub upstream_available_on: Vec<String>,
    pub wrapper_level: Option<String>,
    pub note: Option<String>,
}

#[derive(Debug, Clone)]
pub struct ReportFlagDeltaV1 {
    pub path: Vec<String>,
    pub key: String,
    pub upstream_available_on: Vec<String>,
    pub wrapper_level: Option<String>,
    pub note: Option<String>,
}

#[derive(Debug, Clone)]
pub struct ReportArgDeltaV1 {
    pub path: Vec<String>,
    pub name: String,
    pub upstream_available_on: Vec<String>,
    pub wrapper_level: Option<String>,
    pub note: Option<String>,
}

#[derive(Debug, Clone)]
pub struct UnionFlagV2 {
    pub key: String,
    pub available_on: Vec<String>,
}

#[derive(Debug, Clone)]
pub struct UnionArgV2 {
    pub name: String,
    pub available_on: Vec<String>,
}

pub open spec fn opt_text(o: Option<String>) -> Option<Seq<char>> {
    match o {
        Some(s) => Some(s@),
        None => None,
    }
}

/// A command delta as plain values.
pub open spec fn command_delta_view(d: ReportCommandDeltaV1) -> (Seq<Seq<char>>, Seq<Seq<char>>, Option<Seq<char>>, Option<Seq<char>>) {
    (views(d.path@), views(d.upstream_available_on@), opt_text(d.wrapper_level), opt_text(d.note))
}

pub open spec fn command_deltas(v: Seq<ReportCommandDeltaV1>) -> Seq<(Seq<Seq<char>>, Seq<Seq<char>>, Option<Seq<char>>, Option<Seq<char>>)> {
    v.map_values(|d: ReportCommandDeltaV1| command_delta_view(d))
}

/// Where a command gap is filed: `Missing` for no level, `unknown`, or a level this report does
/// not name; `Unsupported`; `Passthrough`; and nowhere for `explicit` or
/// `intentionally_unsupported`.
pub enum CommandBucket {
    Missing,
    Unsupported,
    Passthrough,
    Nowhere,
}

pub open spec fn command_bucket(level: Option<Seq<char>>) -> CommandBucket {
    match level {
        None => CommandBucket::Missing,
        Some(l) => if l == "unsupported"@ {
            CommandBucket::Unsupported
        } else if l == "passthrough"@ {
            CommandBucket::Passthrough
        } else if l == "intentionally_unsupported"@ || l == "explicit"@ {
            CommandBucket::Nowhere
        } else {
            CommandBucket::Missing
        },
    }
}

fn copy_strings(v: &Vec<String>) -> (r: Vec<String>)
    ensures
        views(r@) == views(v@),
{
    let mut out: Vec<String> = Vec::new();
    let mut i: usize = 0;
    while i < v.len()
        invariant
            i <= v.len(),
            views(out@) == views(v@).subrange(0, i as int),
        decreases v.len() - i,
    {
        let ghost before = views(out@);
        out.push(to_owned(v[i].as_str()));
        assert(views(out@) =~= before.push(v@[i as int]@));
        assert(views(v@)[i as int] == v@[i as int]@);
        assert(views(out@) =~= views(v@).subrange(0, i + 1));
        i = i + 1;
    }
    assert(views(v@).subrange(0, v.len() as int) =~= views(v@));
    out
}

fn copy_opt(o: &Option<String>) -> (r: Option<String>)
    ensures
        opt_text(r) == opt_text(*o),
{
    match o {
        Some(s) => Some(to_owned(s.as_str())),
        None => None,
    }
}

fn level_is(level: &Option<String>, v: &str) -> (r: bool)
    ensures
        r == (level is Some && level->0@ == v@),
{
    match level {
        Some(l) => str_eq(l.as_str(), v),
        None => false,
    }
}

/// File a command gap by the wrapper's level.
pub fn classify_command_delta(
    missing: &mut Vec<ReportCommandDeltaV1>,
    passthrough_candidates: &mut Vec<ReportCommandDeltaV1>,
    unsupported: &mut Vec<ReportCommandDeltaV1>,
    path: &Vec<String>,
    upstream_available_on: &Vec<String>,
    wrapper: &CoverageResolution,
)
    ensures
        ({
            let entry = (views(path@), views(upstream_available_on@), opt_text(wrapper.level), opt_text(wrapper.note));
            match command_bucket(opt_text(wrapper.level)) {
                CommandBucket::Missing => command_deltas(final(missing)@) == command_deltas(old(missing)@).push(entry)
                    && final(passthrough_candidates)@ == old(passthrough_candidates)@ && final(unsupported)@ == old(unsupported)@,
                CommandBucket::Unsupported => command_deltas(final(unsupported)@) == command_deltas(old(unsupported)@).push(entry)
                    && final(passthrough_candidates)@ == old(passthrough_candidates)@ && final(missing)@ == old(missing)@,
                CommandBucket::Passthrough => command_deltas(final(passthrough_candidates)@) == command_deltas(old(passthrough_candidates)@).push(entry)
                    && final(missing)@ == old(missing)@ && final(unsupported)@ == old(unsupported)@,
                CommandBucket::Nowhere => final(missing)@ == old(missing)@ && final(passthrough_candidates)@ == old(passthrough_candidates)@
                    && final(unsupported)@ == old(unsupported)@,
            }
        }),
{
    let entry = ReportCommandDeltaV1 {
        path: copy_strings(path),
        upstream_available_on: copy_strings(upstream_available_on),
        wrapper_level: copy_opt(&wrapper.level),
        note: copy_opt(&wrapper.note),
    };
    if level_is(&wrapper.level, "unsupported") {
        let ghost before = command_deltas(unsupported@);
        unsupported.push(entry);
        assert(command_deltas(unsupported@) =~= before.push(command_delta_view(entry)));
    } else if level_is(&wrapper.level, "passthrough") {
        let ghost before = command_deltas(passthrough_candidates@);
        passthrough_candidates.push(entry);
        assert(command_deltas(passthrough_candidates@) =~= before.push(command_delta_view(entry)));
    } else if level_is(&wrapper.level, "intentionally_unsupported") || level_is(&wrapper.level, "explicit") {
    } else {
        let ghost before = command_deltas(missing@);
        missing.push(entry);
        assert(command_deltas(missing@) =~= before.push(command_delta_view(entry)));
    }
}

/// Flag and argument gaps: filed for no level, `unknown`, `unsupported`, or an unnamed level;
/// not for `explicit`, `passthrough`, or `intentionally_unsupported`.
pub open spec fn leaf_gap(level: Option<Seq<char>>) -> bool {
    match level {
        None => true,
        Some(l) => !(l == "intentionally_unsupported"@ || l == "explicit"@ || l == "passthrough"@),
    }
}

pub open spec fn flag_delta_view(d: ReportFlagDeltaV1) -> (Seq<Seq<char>>, Seq<char>, Seq<Seq<char>>, Option<Seq<char>>, Option<Seq<char>>) {
    (views(d.path@), d.key@, views(d.upstream_available_on@), opt_text(d.wrapper_level), opt_text(d.note))
}

pub open spec fn flag_deltas(v: Seq<ReportFlagDeltaV1>) -> Seq<(Seq<Seq<char>>, Seq<char>, Seq<Seq<char>>, Option<Seq<char>>, Option<Seq<char>>)> {
    v.map_values(|d: ReportFlagDeltaV1| flag_delta_view(d))
}

pub fn classify_flag_delta(out: &mut Vec<ReportFlagDeltaV1>, path: &Vec<String>, flag: &UnionFlagV2, wrapper: &CoverageResolution)
    ensures
        leaf_gap(opt_text(wrapper.level)) ==> flag_deltas(final(out)@) == flag_deltas(old(out)@).push(
            (views(path@), flag.key@, views(flag.available_on@), opt_text(wrapper.level), opt_text(wrapper.note)),
        ),
        !leaf_gap(opt_text(wrapper.level)) ==> final(out)@ == old(out)@,
{
    if level_is(&wrapper.level, "intentionally_unsupported") || level_is(&wrapper.level, "explicit")
        || level_is(&wrapper.level, "passthrough") {
        return;
    }
    let entry = ReportFlagDeltaV1 {
        path: copy_strings(path),
        key: to_owned(flag.key.as_str()),
        upstream_available_on: copy_strings(&flag.available_on),
        wrapper_level: copy_opt(&wrapper.level),
        note: copy_opt(&wrapper.note),
    };
    let ghost before = flag_deltas(out@);
    out.push(entry);
    assert(flag_deltas(out@) =~= before.push(flag_delta_view(entry)));
}

pub open spec fn arg_delta_view(d: ReportArgDeltaV1) -> (Seq<Seq<char>>, Seq<char>, Seq<Seq<char>>, Option<Seq<char>>, Option<Seq<char>>) {
    (views(d.path@), d.name@, views(d.upstream_available_on@), opt_text(d.wrapper_level), opt_text(d.note))
}

pub open spec fn arg_deltas(v: Seq<ReportArgDeltaV1>) -> Seq<(Seq<Seq<char>>, Seq<char>, Seq<Seq<char>>, Option<Seq<char>>, Option<Seq<char>>)> {
    v.map_values(|d: ReportArgDeltaV1| arg_delta_view(d))
}

pub fn classify_arg_delta(out: &mut Vec<ReportArgDeltaV1>, path: &Vec<String>, arg: &UnionArgV2, wrapper: &CoverageResolution)
    ensures
        leaf_gap(opt_text(wrapper.level)) ==> arg_deltas(final(out)@) == arg_deltas(old(out)@).push(
            (views(path@), arg.name@, views(arg.available_on@), opt_text(wrapper.level), opt_text(wrapper.note)),
        ),
        !leaf_gap(opt_text(wrapper.level)) ==> final(out)@ == old(out)@,
{
    if level_is(&wrapper.level, "intentionally_unsupported") || level_is(&wrapper.level, "explicit")
        || level_is(&wrapper.level, "passthrough") {
        return;
    }
    let entry = ReportArgDeltaV1 {
        path: copy_strings(path),
        name: to_owned(arg.name.as_str()),
        upstream_available_on: copy_strings(&arg.available_on),
        wrapper_level: copy_opt(&wrapper.level),
        note: copy_opt(&wrapper.note),
    };
    let ghost before = arg_deltas(out@);
    out.push(entry);
    assert(arg_deltas(out@) =~= before.push(arg_delta_view(entry)));
}

} // verus!

//! The coverage report: every upstream surface that the report's filter selects, filed by how
//! the wrapper covers it, and every wrapper surface that upstream does not have.
use vstd::prelude::*;

use crate::codex_validate::{path_lt, ParityExclusionsIndex};
use crate::manifest_filtering::{
    arg_delta_view, arg_deltas, classify_command_delta, command_bucket, command_delta_view, command_deltas, flag_delta_view,
    flag_deltas, leaf_gap, opt_text, present_on_filter, present_spec, CommandBucket, CoverageResolution, FilterMode,
    ReportArgDeltaV1, ReportCommandDeltaV1, ReportFlagDeltaV1, UnionArgV2, UnionFlagV2,
};
use crate::manifest_rules::{ParityExclusionUnit, RulesFile};
use crate::onboard_validation::same_texts;
use crate::strset::lex_lt;
use crate::text::{str_eq, to_owned, vec_contains, views};

verus! {

// ---------------------------------------------------------------------------------------------
// Inputs

/// One command of the upstream union: where it is available, and its flags and args.
#[derive(Debug, Clone)]
pub struct UnionCommandV2 {
    pub path: Vec<String>,
    pub available_on: Vec<String>,
    pub flags: Vec<UnionFlagV2>,
    pub args: Vec<UnionArgV2>,
}

/// The identity of the wrapper-coverage manifest the report was built against.
#[derive(Debug, Clone)]
pub struct WrapperCoverageV1 {
    pub schema_version: u32,
    pub wrapper_version: Option<String>,
}

/// The wrapper's coverage by surface: commands by path, flags by path and key, args by path
/// and name, each already resolved against the report's targets and filter (or the error that
/// resolving it gave). A surface with no entry has no coverage: no level, no note, no targets.
#[derive(Debug)]
pub struct WrapperIndex {
    pub commands: Vec<(Vec<String>, Result<CoverageResolution, String>)>,
    pub flags: Vec<((Vec<String>, String), Result<CoverageResolution, String>)>,
    pub args: Vec<((Vec<String>, String), Result<CoverageResolution, String>)>,
}

/// What the intentionally-unsupported bookkeeping says of one upstream surface: the note of an
/// intentionally-unsupported root that the surface inherits, if any; and the surface's own
/// declared note, as checked for being present and non-empty.
#[derive(Debug)]
pub struct IuFacts {
    pub inherited: Result<Option<String>, String>,
    pub declared_note: Result<String, String>,
}

/// The intentionally-unsupported facts of one upstream command and of each of its flags and
/// args, in their order.
#[derive(Debug)]
pub struct CommandIuFacts {
    pub command: IuFacts,
    pub flags: Vec<IuFacts>,
    pub args: Vec<IuFacts>,
}

// ---------------------------------------------------------------------------------------------
// Outputs

#[derive(Debug, Clone)]
pub struct ReportUpstreamInputsV1 {
    pub semantic_version: String,
    pub mode: String,
    pub targets: Vec<String>,
}

#[derive(Debug, Clone)]
pub struct ReportWrapperInputsV1 {
    pub schema_version: u32,
    pub wrapper_version: Option<String>,
}

#[derive(Debug, Clone)]
pub struct ReportRulesInputsV1 {
    pub rules_schema_version: u32,
}

#[derive(Debug, Clone)]
pub struct ReportInputsV1 {
    pub upstream: ReportUpstreamInputsV1,
    pub wrapper: ReportWrapperInputsV1,
    pub rules: ReportRulesInputsV1,
}

#[derive(Debug, Clone)]
pub struct PlatformFilterV1 {
    pub mode: String,
    pub target_triple: Option<String>,
}

/// An intentionally unsupported surface of any kind.
#[derive(Debug, Clone)]
pub enum ReportIntentionallyUnsupportedDeltaV1 {
    Command(ReportCommandDeltaV1),
    Flag(ReportFlagDeltaV1),
    Arg(ReportArgDeltaV1),
}

/// The report's lists. The missing lists are always there; every other list is left out when
/// empty.
#[derive(Debug, Clone)]
pub struct ReportDeltasV1 {
    pub missing_commands: Vec<ReportCommandDeltaV1>,
    pub missing_flags: Vec<ReportFlagDeltaV1>,
    pub missing_args: Vec<ReportArgDeltaV1>,
    pub excluded_commands: Option<Vec<ReportCommandDeltaV1>>,
    pub excluded_flags: Option<Vec<ReportFlagDeltaV1>>,
    pub excluded_args: Option<Vec<ReportArgDeltaV1>>,
    pub passthrough_candidates: Option<Vec<ReportCommandDeltaV1>>,
    pub unsupported: Option<Vec<ReportCommandDeltaV1>>,
    pub intentionally_unsupported: Option<Vec<ReportIntentionallyUnsupportedDeltaV1>>,
    pub wrapper_only_commands: Option<Vec<ReportCommandDeltaV1>>,
    pub wrapper_only_flags: Option<Vec<ReportFlagDeltaV1>>,
    pub wrapper_only_args: Option<Vec<ReportArgDeltaV1>>,
}

#[derive(Debug, Clone)]
pub struct CoverageReportV1 {
    pub schema_version: u32,
    pub generated_at: String,
    pub inputs: ReportInputsV1,
    pub platform_filter: PlatformFilterV1,
    pub deltas: ReportDeltasV1,
}

// ---------------------------------------------------------------------------------------------
// The model

/// A command row: path, upstream availability, wrapper level, note.
pub type CmdRow = (Seq<Seq<char>>, Seq<Seq<char>>, Option<Seq<char>>, Option<Seq<char>>);

/// A flag or arg row: path, key or name, upstream availability, wrapper level, note.
pub type LeafRow = (Seq<Seq<char>>, Seq<char>, Seq<Seq<char>>, Option<Seq<char>>, Option<Seq<char>>);

/// A resolution as plain values: level, note, targets, and whether it is present.
pub type ResView = (Option<Seq<char>>, Option<Seq<char>>, Seq<Seq<char>>, bool);

/// The report's lists as plain values, the intentionally unsupported ones kept by kind.
#[verifier::ext_equal]
pub struct DeltaLists {
    pub missing_commands: Seq<CmdRow>,
    pub missing_flags: Seq<LeafRow>,
    pub missing_args: Seq<LeafRow>,
    pub excluded_commands: Seq<CmdRow>,
    pub excluded_flags: Seq<LeafRow>,
    pub excluded_args: Seq<LeafRow>,
    pub passthrough_candidates: Seq<CmdRow>,
    pub unsupported: Seq<CmdRow>,
    pub iu_commands: Seq<CmdRow>,
    pub iu_flags: Seq<LeafRow>,
    pub iu_args: Seq<LeafRow>,
    pub wrapper_only_commands: Seq<CmdRow>,
    pub wrapper_only_flags: Seq<LeafRow>,
    pub wrapper_only_args: Seq<LeafRow>,
}

pub open spec fn no_lists() -> DeltaLists {
    DeltaLists {
        missing_commands: Seq::empty(),
        missing_flags: Seq::empty(),
        missing_args: Seq::empty(),
        excluded_commands: Seq::empty(),
        excluded_flags: Seq::empty(),
        excluded_args: Seq::empty(),
        passthrough_candidates: Seq::empty(),
        unsupported: Seq::empty(),
        iu_commands: Seq::empty(),
        iu_flags: Seq::empty(),
        iu_args: Seq::empty(),
        wrapper_only_commands: Seq::empty(),
        wrapper_only_flags: Seq::empty(),
        wrapper_only_args: Seq::empty(),
    }
}

/// The first position in `s` whose item satisfies `p`.
pub open spec fn first_index<T>(s: Seq<T>, p: spec_fn(T) -> bool) -> Option<int>
    decreases s.len(),
{
    if s.len() == 0 {
        None
    } else if p(s[0]) {
        Some(0)
    } else {
        match first_index(s.drop_first(), p) {
            Some(i) => Some(i + 1),
            None => None,
        }
    }
}

pub proof fn lemma_first_index<T>(s: Seq<T>, p: spec_fn(T) -> bool)
    ensures
        match first_index(s, p) {
            Some(i) => 0 <= i < s.len() && p(s[i]) && forall|k: int| 0 <= k < i ==> !p(#[trigger] s[k]),
            None => forall|k: int| 0 <= k < s.len() ==> !p(#[trigger] s[k]),
        },
    decreases s.len(),
{
    if s.len() > 0 && !p(s[0]) {
        lemma_first_index(s.drop_first(), p);
        assert forall|k: int| 1 <= k < s.len() implies s[k] == #[trigger] s.drop_first()[k - 1] by {}
        match first_index(s.drop_first(), p) {
            Some(i) => {
                assert forall|k: int| 0 <= k < i + 1 implies !p(#[trigger] s[k]) by {
                    if k > 0 {
                        assert(s[k] == s.drop_first()[k - 1]);
                    }
                }
            },
            None => {
                assert forall|k: int| 0 <= k < s.len() implies !p(#[trigger] s[k]) by {
                    if k > 0 {
                        assert(s[k] == s.drop_first()[k - 1]);
                    }
                }
            },
        }
    }
}

pub open spec fn res_at(path: Seq<Seq<char>>) -> spec_fn((Vec<String>, Result<CoverageResolution, String>)) -> bool {
    |e: (Vec<String>, Result<CoverageResolution, String>)| views(e.0@) == path
}

pub open spec fn leaf_res_at(path: Seq<Seq<char>>, key: Seq<char>) -> spec_fn(((Vec<String>, String), Result<CoverageResolution, String>)) -> bool {
    |e: ((Vec<String>, String), Result<CoverageResolution, String>)| views(e.0.0@) == path && e.0.1@ == key
}

pub open spec fn excl_at(path: Seq<Seq<char>>) -> spec_fn((Vec<String>, ParityExclusionUnit)) -> bool {
    |e: (Vec<String>, ParityExclusionUnit)| views(e.0@) == path
}

pub open spec fn excl_leaf_at(path: Seq<Seq<char>>, key: Seq<char>) -> spec_fn(((Vec<String>, String), ParityExclusionUnit)) -> bool {
    |e: ((Vec<String>, String), ParityExclusionUnit)| views(e.0.0@) == path && e.0.1@ == key
}

pub open spec fn upstream_at(path: Seq<Seq<char>>) -> spec_fn((Vec<String>, UnionCommandV2)) -> bool {
    |e: (Vec<String>, UnionCommandV2)| views(e.0@) == path
}

pub open spec fn flag_named(key: Seq<char>) -> spec_fn(UnionFlagV2) -> bool {
    |f: UnionFlagV2| f.key@ == key
}

pub open spec fn arg_named(name: Seq<char>) -> spec_fn(UnionArgV2) -> bool {
    |a: UnionArgV2| a.name@ == name
}

pub open spec fn res_view(c: CoverageResolution) -> ResView {
    (opt_text(c.level), opt_text(c.note), views(c.targets@), c.present)
}

pub open spec fn res_result(r: Result<CoverageResolution, String>) -> Result<ResView, Seq<char>> {
    match r {
        Ok(c) => Ok(res_view(c)),
        Err(e) => Err(e@),
    }
}

/// What a surface with no wrapper entry resolves to.
pub open spec fn uncovered() -> ResView {
    (None, None, Seq::empty(), false)
}

/// The wrapper's resolution of the command at `path`.
pub open spec fn command_resolution(idx: WrapperIndex, path: Seq<Seq<char>>) -> Result<ResView, Seq<char>> {
    match first_index(idx.commands@, res_at(path)) {
        Some(i) => res_result(idx.commands@[i].1),
        None => Ok(uncovered()),
    }
}

/// The wrapper's resolution of the flag or arg `key` of the command at `path`.
pub open spec fn leaf_resolution(entries: Seq<((Vec<String>, String), Result<CoverageResolution, String>)>, path: Seq<Seq<char>>, key: Seq<char>) -> Result<ResView, Seq<char>> {
    match first_index(entries, leaf_res_at(path, key)) {
        Some(i) => res_result(entries[i].1),
        None => Ok(uncovered()),
    }
}

/// The note of the parity exclusion of the command at `path`, if it is excluded.
pub open spec fn command_exclusion(ex: Option<&ParityExclusionsIndex>, path: Seq<Seq<char>>) -> Option<Seq<char>> {
    match ex {
        None => None,
        Some(x) => match first_index(x.commands@, excl_at(path)) {
            Some(i) => Some(x.commands@[i].1.note@),
            None => None,
        },
    }
}

/// The note of the parity exclusion of a flag (`flags`) or arg of the command at `path`.
pub open spec fn leaf_exclusion(entries: Seq<((Vec<String>, String), ParityExclusionUnit)>, path: Seq<Seq<char>>, key: Seq<char>) -> Option<Seq<char>> {
    match first_index(entries, excl_leaf_at(path, key)) {
        Some(i) => Some(entries[i].1.note@),
        None => None,
    }
}

pub open spec fn flag_exclusion(ex: Option<&ParityExclusionsIndex>, path: Seq<Seq<char>>, key: Seq<char>) -> Option<Seq<char>> {
    match ex {
        None => None,
        Some(x) => leaf_exclusion(x.flags@, path, key),
    }
}

pub open spec fn arg_exclusion(ex: Option<&ParityExclusionsIndex>, path: Seq<Seq<char>>, name: Seq<char>) -> Option<Seq<char>> {
    match ex {
        None => None,
        Some(x) => leaf_exclusion(x.args@, path, name),
    }
}

pub open spec fn inherited_view(f: IuFacts) -> Result<Option<Seq<char>>, Seq<char>> {
    match f.inherited {
        Ok(o) => Ok(opt_text(o)),
        Err(e) => Err(e@),
    }
}

pub open spec fn declared_view(f: IuFacts) -> Result<Seq<char>, Seq<char>> {
    match f.declared_note {
        Ok(n) => Ok(n@),
        Err(e) => Err(e@),
    }
}

pub open spec fn iu_level() -> Option<Seq<char>> {
    Some("intentionally_unsupported"@)
}

/// What the filter makes of a surface's availability.
pub open spec fn present(rules: RulesFile, rt: Seq<Seq<char>>, mode: FilterMode, avail: Seq<Seq<char>>) -> bool {
    present_spec(avail, rt, views(rules.union.expected_targets@), mode)
}

/// A command gap filed by the wrapper's level.
pub open spec fn file_command(l: DeltaLists, row: CmdRow) -> DeltaLists {
    match command_bucket(row.2) {
        CommandBucket::Missing => DeltaLists { missing_commands: l.missing_commands.push(row), ..l },
        CommandBucket::Unsupported => DeltaLists { unsupported: l.unsupported.push(row), ..l },
        CommandBucket::Passthrough => DeltaLists { passthrough_candidates: l.passthrough_candidates.push(row), ..l },
        CommandBucket::Nowhere => l,
    }
}

/// How one selected upstream command is filed: excluded (with the exclusion's note), declared
/// or inherited intentionally unsupported, or by the wrapper's level.
pub open spec fn command_part(
    ex: Option<&ParityExclusionsIndex>,
    idx: WrapperIndex,
    l: DeltaLists,
    path: Seq<Seq<char>>,
    avail: Seq<Seq<char>>,
    f: IuFacts,
) -> Result<DeltaLists, Seq<char>> {
    match command_resolution(idx, path) {
        Err(e) => Err(e),
        Ok(r) => match command_exclusion(ex, path) {
            Some(note) => Ok(DeltaLists { excluded_commands: l.excluded_commands.push((path, avail, r.0, Some(note))), ..l }),
            None => if r.0 is None {
                match inherited_view(f) {
                    Err(e) => Err(e),
                    Ok(Some(note)) => Ok(DeltaLists { iu_commands: l.iu_commands.push((path, avail, iu_level(), Some(note))), ..l }),
                    Ok(None) => Ok(file_command(l, (path, avail, r.0, r.1))),
                }
            } else if r.0 == iu_level() {
                match declared_view(f) {
                    Err(e) => Err(e),
                    Ok(note) => Ok(DeltaLists { iu_commands: l.iu_commands.push((path, avail, iu_level(), Some(note))), ..l }),
                }
            } else {
                Ok(file_command(l, (path, avail, r.0, r.1)))
            },
        },
    }
}

/// How one selected flag or arg is filed, given its resolution and exclusion. The result
/// names the list it went to: 0 excluded, 1 intentionally unsupported, 2 missing, 3 none.
pub open spec fn leaf_outcome(
    res: Result<ResView, Seq<char>>,
    exclusion: Option<Seq<char>>,
    row_path: Seq<Seq<char>>,
    key: Seq<char>,
    avail: Seq<Seq<char>>,
    f: IuFacts,
) -> Result<(int, LeafRow), Seq<char>> {
    match res {
        Err(e) => Err(e),
        Ok(r) => match exclusion {
            Some(note) => Ok((0, (row_path, key, avail, r.0, Some(note)))),
            None => if r.0 is None {
                match inherited_view(f) {
                    Err(e) => Err(e),
                    Ok(Some(note)) => Ok((1, (row_path, key, avail, iu_level(), Some(note)))),
                    Ok(None) => Ok((2, (row_path, key, avail, r.0, r.1))),
                }
            } else if r.0 == iu_level() {
                match declared_view(f) {
                    Err(e) => Err(e),
                    Ok(note) => Ok((1, (row_path, key, avail, iu_level(), Some(note)))),
                }
            } else if leaf_gap(r.0) {
                Ok((2, (row_path, key, avail, r.0, r.1)))
            } else {
                Ok((3, (row_path, key, avail, r.0, r.1)))
            },
        },
    }
}

pub open spec fn file_flag(l: DeltaLists, o: (int, LeafRow)) -> DeltaLists {
    if o.0 == 0 {
        DeltaLists { excluded_flags: l.excluded_flags.push(o.1), ..l }
    } else if o.0 == 1 {
        DeltaLists { iu_flags: l.iu_flags.push(o.1), ..l }
    } else if o.0 == 2 {
        DeltaLists { missing_flags: l.missing_flags.push(o.1), ..l }
    } else {
        l
    }
}

pub open spec fn file_arg(l: DeltaLists, o: (int, LeafRow)) -> DeltaLists {
    if o.0 == 0 {
        DeltaLists { excluded_args: l.excluded_args.push(o.1), ..l }
    } else if o.0 == 1 {
        DeltaLists { iu_args: l.iu_args.push(o.1), ..l }
    } else if o.0 == 2 {
        DeltaLists { missing_args: l.missing_args.push(o.1), ..l }
    } else {
        l
    }
}

/// One flag of the command at `path`: skipped when the filter does not select it, else filed.
pub open spec fn flag_step(
    rules: RulesFile, rt: Seq<Seq<char>>, mode: FilterMode, ex: Option<&ParityExclusionsIndex>, idx: WrapperIndex,
    l: DeltaLists, path: Seq<Seq<char>>, fl: UnionFlagV2, f: IuFacts,
) -> Result<DeltaLists, Seq<char>> {
    let avail = views(fl.available_on@);
    if !present(rules, rt, mode, avail) {
        Ok(l)
    } else {
        match leaf_outcome(leaf_resolution(idx.flags@, path, fl.key@), flag_exclusion(ex, path, fl.key@), path, fl.key@, avail, f) {
            Err(e) => Err(e),
            Ok(o) => Ok(file_flag(l, o)),
        }
    }
}

/// One arg of the command at `path`: skipped when the filter does not select it, else filed.
pub open spec fn arg_step(
    rules: RulesFile, rt: Seq<Seq<char>>, mode: FilterMode, ex: Option<&ParityExclusionsIndex>, idx: WrapperIndex,
    l: DeltaLists, path: Seq<Seq<char>>, a: UnionArgV2, f: IuFacts,
) -> Result<DeltaLists, Seq<char>> {
    let avail = views(a.available_on@);
    if !present(rules, rt, mode, avail) {
        Ok(l)
    } else {
        match leaf_outcome(leaf_resolution(idx.args@, path, a.name@), arg_exclusion(ex, path, a.name@), path, a.name@, avail, f) {
            Err(e) => Err(e),
            Ok(o) => Ok(file_arg(l, o)),
        }
    }
}

/// The first `n` flags of the command at `path`, each filed in turn.
pub open spec fn flags_walk(
    rules: RulesFile, rt: Seq<Seq<char>>, mode: FilterMode, ex: Option<&ParityExclusionsIndex>, idx: WrapperIndex,
    l: DeltaLists, path: Seq<Seq<char>>, flags: Seq<UnionFlagV2>, facts: Seq<IuFacts>, n: nat,
) -> Result<DeltaLists, Seq<char>>
    decreases n,
{
    if n == 0 {
        Ok(l)
    } else {
        match flags_walk(rules, rt, mode, ex, idx, l, path, flags, facts, (n - 1) as nat) {
            Err(e) => Err(e),
            Ok(l1) => flag_step(rules, rt, mode, ex, idx, l1, path, flags[n - 1], facts[n - 1]),
        }
    }
}

/// The first `n` args of the command at `path`, each filed in turn.
pub open spec fn args_walk(
    rules: RulesFile, rt: Seq<Seq<char>>, mode: FilterMode, ex: Option<&ParityExclusionsIndex>, idx: WrapperIndex,
    l: DeltaLists, path: Seq<Seq<char>>, args: Seq<UnionArgV2>, facts: Seq<IuFacts>, n: nat,
) -> Result<DeltaLists, Seq<char>>
    decreases n,
{
    if n == 0 {
        Ok(l)
    } else {
        match args_walk(rules, rt, mode, ex, idx, l, path, args, facts, (n - 1) as nat) {
            Err(e) => Err(e),
            Ok(l1) => arg_step(rules, rt, mode, ex, idx, l1, path, args[n - 1], facts[n - 1]),
        }
    }
}

/// One upstream command: skipped with its flags and args when the filter does not select it;
/// else the command, then each flag, then each arg.
pub open spec fn upstream_step(
    rules: RulesFile, rt: Seq<Seq<char>>, mode: FilterMode, ex: Option<&ParityExclusionsIndex>, idx: WrapperIndex,
    l: DeltaLists, entry: (Vec<String>, UnionCommandV2), f: CommandIuFacts,
) -> Result<DeltaLists, Seq<char>> {
    let path = views(entry.0@);
    let cmd = entry.1;
    let avail = views(cmd.available_on@);
    if !present(rules, rt, mode, avail) {
        Ok(l)
    } else {
        match command_part(ex, idx, l, path, avail, f.command) {
            Err(e) => Err(e),
            Ok(l1) => match flags_walk(rules, rt, mode, ex, idx, l1, path, cmd.flags@, f.flags@, cmd.flags@.len()) {
                Err(e) => Err(e),
                Ok(l2) => args_walk(rules, rt, mode, ex, idx, l2, path, cmd.args@, f.args@, cmd.args@.len()),
            },
        }
    }
}

/// The first `n` upstream commands, in order.
pub open spec fn upstream_walk(
    rules: RulesFile, rt: Seq<Seq<char>>, mode: FilterMode, ex: Option<&ParityExclusionsIndex>, idx: WrapperIndex,
    upstream: Seq<(Vec<String>, UnionCommandV2)>, facts: Seq<CommandIuFacts>, n: nat,
) -> Result<DeltaLists, Seq<char>>
    decreases n,
{
    if n == 0 {
        Ok(no_lists())
    } else {
        match upstream_walk(rules, rt, mode, ex, idx, upstream, facts, (n - 1) as nat) {
            Err(e) => Err(e),
            Ok(l) => upstream_step(rules, rt, mode, ex, idx, l, upstream[n - 1], facts[n - 1]),
        }
    }
}


/// `expected` kept where `targets` has it, in `expected`'s order.
pub open spec fn ordered_subset(expected: Seq<Seq<char>>, targets: Seq<Seq<char>>) -> Seq<Seq<char>>
    decreases expected.len(),
{
    if expected.len() == 0 {
        Seq::empty()
    } else {
        let rest = ordered_subset(expected.drop_last(), targets);
        if targets.contains(expected.last()) {
            rest.push(expected.last())
        } else {
            rest
        }
    }
}

/// The upstream command at `path`, if upstream has one.
pub open spec fn upstream_command(upstream: Seq<(Vec<String>, UnionCommandV2)>, path: Seq<Seq<char>>) -> Option<UnionCommandV2> {
    match first_index(upstream, upstream_at(path)) {
        Some(i) => Some(upstream[i].1),
        None => None,
    }
}

/// A wrapper command that the wrapper covers on the report's targets, and that upstream does
/// not have or the filter does not select, is wrapper-only.
pub open spec fn wrapper_command_step(
    rules: RulesFile, rt: Seq<Seq<char>>, mode: FilterMode, upstream: Seq<(Vec<String>, UnionCommandV2)>,
    l: DeltaLists, e: (Vec<String>, Result<CoverageResolution, String>),
) -> Result<DeltaLists, Seq<char>> {
    match e.1 {
        Err(m) => Err(m@),
        Ok(c) => if !c.present {
            Ok(l)
        } else {
            let path = views(e.0@);
            match upstream_command(upstream, path) {
                Some(cmd) => if present(rules, rt, mode, views(cmd.available_on@)) {
                    Ok(l)
                } else {
                    Ok(DeltaLists { wrapper_only_commands: l.wrapper_only_commands.push((path, views(cmd.available_on@), opt_text(c.level), opt_text(c.note))), ..l })
                },
                None => Ok(DeltaLists {
                    wrapper_only_commands: l.wrapper_only_commands.push(
                        (path, ordered_subset(views(rules.union.expected_targets@), views(c.targets@)), opt_text(c.level), opt_text(c.note)),
                    ),
                    ..l
                }),
            }
        },
    }
}

/// Upstream's availability of the flag `key` at `path`, and whether the filter selects it.
/// A flag missing from its command is found on the root command when the effective-flags
/// model is on and `path` is not the root; a command upstream does not have takes the
/// wrapper's own targets, in expected order, and is never selected.
pub open spec fn flag_availability(
    rules: RulesFile, rt: Seq<Seq<char>>, mode: FilterMode, upstream: Seq<(Vec<String>, UnionCommandV2)>,
    path: Seq<Seq<char>>, key: Seq<char>, c: CoverageResolution,
) -> (Seq<Seq<char>>, bool) {
    match upstream_command(upstream, path) {
        None => (ordered_subset(views(rules.union.expected_targets@), views(c.targets@)), false),
        Some(cmd) => match first_index(cmd.flags@, flag_named(key)) {
            Some(j) => (views(cmd.flags@[j].available_on@), present(rules, rt, mode, views(cmd.flags@[j].available_on@))),
            None => if rules.globals.effective_flags_model.enabled && path.len() > 0 {
                match upstream_command(upstream, Seq::empty()) {
                    Some(root) => match first_index(root.flags@, flag_named(key)) {
                        Some(k) => (views(root.flags@[k].available_on@), present(rules, rt, mode, views(root.flags@[k].available_on@))),
                        None => (views(cmd.available_on@), false),
                    },
                    None => (views(cmd.available_on@), false),
                }
            } else {
                (views(cmd.available_on@), false)
            },
        },
    }
}

/// Upstream's availability of the arg `name` at `path`, and whether the filter selects it.
pub open spec fn arg_availability(
    rules: RulesFile, rt: Seq<Seq<char>>, mode: FilterMode, upstream: Seq<(Vec<String>, UnionCommandV2)>,
    path: Seq<Seq<char>>, name: Seq<char>, c: CoverageResolution,
) -> (Seq<Seq<char>>, bool) {
    match upstream_command(upstream, path) {
        None => (ordered_subset(views(rules.union.expected_targets@), views(c.targets@)), false),
        Some(cmd) => match first_index(cmd.args@, arg_named(name)) {
            Some(j) => (views(cmd.args@[j].available_on@), present(rules, rt, mode, views(cmd.args@[j].available_on@))),
            None => (views(cmd.available_on@), false),
        },
    }
}

pub open spec fn wrapper_flag_step(
    rules: RulesFile, rt: Seq<Seq<char>>, mode: FilterMode, upstream: Seq<(Vec<String>, UnionCommandV2)>,
    l: DeltaLists, e: ((Vec<String>, String), Result<CoverageResolution, String>),
) -> Result<DeltaLists, Seq<char>> {
    match e.1 {
        Err(m) => Err(m@),
        Ok(c) => if !c.present {
            Ok(l)
        } else {
            let found = flag_availability(rules, rt, mode, upstream, views(e.0.0@), e.0.1@, c);
            if found.1 {
                Ok(l)
            } else {
                Ok(DeltaLists { wrapper_only_flags: l.wrapper_only_flags.push((views(e.0.0@), e.0.1@, found.0, opt_text(c.level), opt_text(c.note))), ..l })
            }
        },
    }
}

pub open spec fn wrapper_arg_step(
    rules: RulesFile, rt: Seq<Seq<char>>, mode: FilterMode, upstream: Seq<(Vec<String>, UnionCommandV2)>,
    l: DeltaLists, e: ((Vec<String>, String), Result<CoverageResolution, String>),
) -> Result<DeltaLists, Seq<char>> {
    match e.1 {
        Err(m) => Err(m@),
        Ok(c) => if !c.present {
            Ok(l)
        } else {
            let found = arg_availability(rules, rt, mode, upstream, views(e.0.0@), e.0.1@, c);
            if found.1 {
                Ok(l)
            } else {
                Ok(DeltaLists { wrapper_only_args: l.wrapper_only_args.push((views(e.0.0@), e.0.1@, found.0, opt_text(c.level), opt_text(c.note))), ..l })
            }
        },
    }
}

pub open spec fn wrapper_commands_walk(
    rules: RulesFile, rt: Seq<Seq<char>>, mode: FilterMode, upstream: Seq<(Vec<String>, UnionCommandV2)>,
    l: DeltaLists, entries: Seq<(Vec<String>, Result<CoverageResolution, String>)>, n: nat,
) -> Result<DeltaLists, Seq<char>>
    decreases n,
{
    if n == 0 {
        Ok(l)
    } else {
        match wrapper_commands_walk(rules, rt, mode, upstream, l, entries, (n - 1) as nat) {
            Err(e) => Err(e),
            Ok(l1) => wrapper_command_step(rules, rt, mode, upstream, l1, entries[n - 1]),
        }
    }
}

pub open spec fn wrapper_flags_walk(
    rules: RulesFile, rt: Seq<Seq<char>>, mode: FilterMode, upstream: Seq<(Vec<String>, UnionCommandV2)>,
    l: DeltaLists, entries: Seq<((Vec<String>, String), Result<CoverageResolution, String>)>, n: nat,
) -> Result<DeltaLists, Seq<char>>
    decreases n,
{
    if n == 0 {
        Ok(l)
    } else {
        match wrapper_flags_walk(rules, rt, mode, upstream, l, entries, (n - 1) as nat) {
            Err(e) => Err(e),
            Ok(l1) => wrapper_flag_step(rules, rt, mode, upstream, l1, entries[n - 1]),
        }
    }
}

pub open spec fn wrapper_args_walk(
    rules: RulesFile, rt: Seq<Seq<char>>, mode: FilterMode, upstream: Seq<(Vec<String>, UnionCommandV2)>,
    l: DeltaLists, entries: Seq<((Vec<String>, String), Result<CoverageResolution, String>)>, n: nat,
) -> Result<DeltaLists, Seq<char>>
    decreases n,
{
    if n == 0 {
        Ok(l)
    } else {
        match wrapper_args_walk(rules, rt, mode, upstream, l, entries, (n - 1) as nat) {
            Err(e) => Err(e),
            Ok(l1) => wrapper_arg_step(rules, rt, mode, upstream, l1, entries[n - 1]),
        }
    }
}

/// Every list of the report: the upstream walk, then the wrapper's commands, flags and args.
pub open spec fn report_lists(
    rules: RulesFile, rt: Seq<Seq<char>>, mode: FilterMode, ex: Option<&ParityExclusionsIndex>, idx: WrapperIndex,
    upstream: Seq<(Vec<String>, UnionCommandV2)>, facts: Seq<CommandIuFacts>,
) -> Result<DeltaLists, Seq<char>> {
    match upstream_walk(rules, rt, mode, ex, idx, upstream, facts, upstream.len()) {
        Err(e) => Err(e),
        Ok(l1) => match wrapper_commands_walk(rules, rt, mode, upstream, l1, idx.commands@, idx.commands@.len()) {
            Err(e) => Err(e),
            Ok(l2) => match wrapper_flags_walk(rules, rt, mode, upstream, l2, idx.flags@, idx.flags@.len()) {
                Err(e) => Err(e),
                Ok(l3) => wrapper_args_walk(rules, rt, mode, upstream, l3, idx.args@, idx.args@.len()),
            },
        },
    }
}

/// An intentionally unsupported row of any kind.
pub enum IuRow {
    Command(CmdRow),
    Flag(LeafRow),
    Arg(LeafRow),
}

/// The intentionally unsupported rows: commands, then flags, then args.
pub open spec fn iu_rows(l: DeltaLists) -> Seq<IuRow> {
    iu_join(l.iu_commands, l.iu_flags, l.iu_args)
}

pub open spec fn iu_join(c: Seq<CmdRow>, f: Seq<LeafRow>, a: Seq<LeafRow>) -> Seq<IuRow> {
    c.map_values(|r: CmdRow| IuRow::Command(r)) + f.map_values(|r: LeafRow| IuRow::Flag(r)) + a.map_values(|r: LeafRow| IuRow::Arg(r))
}

/// A list the report leaves out when it is empty.
pub open spec fn unless_empty<T>(s: Seq<T>) -> Option<Seq<T>> {
    if s.len() == 0 {
        None
    } else {
        Some(s)
    }
}

/// The report's lists as plain values.
pub struct DeltasView {
    pub missing_commands: Seq<CmdRow>,
    pub missing_flags: Seq<LeafRow>,
    pub missing_args: Seq<LeafRow>,
    pub excluded_commands: Option<Seq<CmdRow>>,
    pub excluded_flags: Option<Seq<LeafRow>>,
    pub excluded_args: Option<Seq<LeafRow>>,
    pub passthrough_candidates: Option<Seq<CmdRow>>,
    pub unsupported: Option<Seq<CmdRow>>,
    pub intentionally_unsupported: Option<Seq<IuRow>>,
    pub wrapper_only_commands: Option<Seq<CmdRow>>,
    pub wrapper_only_flags: Option<Seq<LeafRow>>,
    pub wrapper_only_args: Option<Seq<LeafRow>>,
}

pub open spec fn deltas_of(l: DeltaLists) -> DeltasView {
    DeltasView {
        missing_commands: l.missing_commands,
        missing_flags: l.missing_flags,
        missing_args: l.missing_args,
        excluded_commands: unless_empty(l.excluded_commands),
        excluded_flags: unless_empty(l.excluded_flags),
        excluded_args: unless_empty(l.excluded_args),
        passthrough_candidates: unless_empty(l.passthrough_candidates),
        unsupported: unless_empty(l.unsupported),
        intentionally_unsupported: unless_empty(iu_rows(l)),
        wrapper_only_commands: unless_empty(l.wrapper_only_commands),
        wrapper_only_flags: unless_empty(l.wrapper_only_flags),
        wrapper_only_args: unless_empty(l.wrapper_only_args),
    }
}

/// A coverage report as plain values.
pub struct ReportView {
    pub schema_version: u32,
    pub generated_at: Seq<char>,
    pub semantic_version: Seq<char>,
    pub upstream_mode: Seq<char>,
    pub upstream_targets: Seq<Seq<char>>,
    pub wrapper_schema_version: u32,
    pub wrapper_version: Option<Seq<char>>,
    pub rules_schema_version: u32,
    pub platform_mode: Seq<char>,
    pub target_triple: Option<Seq<char>>,
    pub deltas: DeltasView,
}

pub open spec fn iu_row_view(d: ReportIntentionallyUnsupportedDeltaV1) -> IuRow {
    match d {
        ReportIntentionallyUnsupportedDeltaV1::Command(c) => IuRow::Command(command_delta_view(c)),
        ReportIntentionallyUnsupportedDeltaV1::Flag(f) => IuRow::Flag(flag_delta_view(f)),
        ReportIntentionallyUnsupportedDeltaV1::Arg(a) => IuRow::Arg(arg_delta_view(a)),
    }
}

pub open spec fn opt_commands(o: Option<Vec<ReportCommandDeltaV1>>) -> Option<Seq<CmdRow>> {
    match o {
        Some(v) => Some(command_deltas(v@)),
        None => None,
    }
}

pub open spec fn opt_flags(o: Option<Vec<ReportFlagDeltaV1>>) -> Option<Seq<LeafRow>> {
    match o {
        Some(v) => Some(flag_deltas(v@)),
        None => None,
    }
}

pub open spec fn opt_args(o: Option<Vec<ReportArgDeltaV1>>) -> Option<Seq<LeafRow>> {
    match o {
        Some(v) => Some(arg_deltas(v@)),
        None => None,
    }
}

pub open spec fn opt_iu(o: Option<Vec<ReportIntentionallyUnsupportedDeltaV1>>) -> Option<Seq<IuRow>> {
    match o {
        Some(v) => Some(v@.map_values(|d: ReportIntentionallyUnsupportedDeltaV1| iu_row_view(d))),
        None => None,
    }
}

impl ReportDeltasV1 {
    pub open spec fn view(&self) -> DeltasView {
        DeltasView {
            missing_commands: command_deltas(self.missing_commands@),
            missing_flags: flag_deltas(self.missing_flags@),
            missing_args: arg_deltas(self.missing_args@),
            excluded_commands: opt_commands(self.excluded_commands),
            excluded_flags: opt_flags(self.excluded_flags),
            excluded_args: opt_args(self.excluded_args),
            passthrough_candidates: opt_commands(self.passthrough_candidates),
            unsupported: opt_commands(self.unsupported),
            intentionally_unsupported: opt_iu(self.intentionally_unsupported),
            wrapper_only_commands: opt_commands(self.wrapper_only_commands),
            wrapper_only_flags: opt_flags(self.wrapper_only_flags),
            wrapper_only_args: opt_args(self.wrapper_only_args),
        }
    }
}

impl CoverageReportV1 {
    pub open spec fn view(&self) -> ReportView {
        ReportView {
            schema_version: self.schema_version,
            generated_at: self.generated_at@,
            semantic_version: self.inputs.upstream.semantic_version@,
            upstream_mode: self.inputs.upstream.mode@,
            upstream_targets: views(self.inputs.upstream.targets@),
            wrapper_schema_version: self.inputs.wrapper.schema_version,
            wrapper_version: opt_text(self.inputs.wrapper.wrapper_version),
            rules_schema_version: self.inputs.rules.rules_schema_version,
            platform_mode: self.platform_filter.mode@,
            target_triple: opt_text(self.platform_filter.target_triple),
            deltas: self.deltas.view(),
        }
    }
}

/// Whether every expected target is one of the report's targets.
pub open spec fn covers_expected(rt: Seq<Seq<char>>, expected: Seq<Seq<char>>) -> bool {
    forall|i: int| 0 <= i < expected.len() ==> rt.contains(#[trigger] expected[i])
}

pub open spec fn opt_str(o: Option<&str>) -> Option<Seq<char>> {
    match o {
        Some(s) => Some(s@),
        None => None,
    }
}

/// The report `build_report` makes, or the error it stops on: the intentionally-unsupported
/// facts' own error first; then, for the `all` filter over a union that lacks an expected
/// target, the refusal the rules ask for; then the first error met walking upstream and the
/// wrapper.
pub open spec fn report_spec(
    rules: RulesFile,
    ex: Option<&ParityExclusionsIndex>,
    version: Seq<char>,
    platform_mode: Seq<char>,
    target_triple: Option<Seq<char>>,
    mode: FilterMode,
    report_targets: Seq<Seq<char>>,
    upstream: Seq<(Vec<String>, UnionCommandV2)>,
    wrapper: WrapperCoverageV1,
    idx: WrapperIndex,
    iu_facts: Result<Vec<CommandIuFacts>, String>,
    generated_at: Seq<char>,
) -> Result<ReportView, Seq<char>> {
    match iu_facts {
        Err(e) => Err(e@),
        Ok(facts) => if mode is All && !covers_expected(report_targets, views(rules.union.expected_targets@))
            && rules.report.filter_semantics.when_union_incomplete.all@ == "error"@ {
            Err("cannot generate platform_filter.mode=all with an incomplete union target set"@)
        } else {
            match report_lists(rules, report_targets, mode, ex, idx, upstream, facts@) {
                Err(e) => Err(e),
                Ok(l) => Ok(ReportView {
                    schema_version: 1,
                    generated_at: generated_at,
                    semantic_version: version,
                    upstream_mode: "union"@,
                    upstream_targets: report_targets,
                    wrapper_schema_version: wrapper.schema_version,
                    wrapper_version: opt_text(wrapper.wrapper_version),
                    rules_schema_version: rules.rules_schema_version,
                    platform_mode: platform_mode,
                    target_triple: target_triple,
                    deltas: deltas_of(l),
                }),
            }
        },
    }
}

/// Strictly ascending command paths: the order of a map keyed by path.
pub open spec fn paths_ascending(upstream: Seq<(Vec<String>, UnionCommandV2)>) -> bool {
    forall|i: int, j: int| 0 <= i < j < upstream.len() ==> path_lt(views((#[trigger] upstream[i]).0@), views((#[trigger] upstream[j]).0@))
}

/// Each command's flags ascending by key and args by name, as the union writes them.
pub open spec fn members_ascending(upstream: Seq<(Vec<String>, UnionCommandV2)>) -> bool {
    forall|i: int| 0 <= i < upstream.len() ==> {
        let c = (#[trigger] upstream[i]).1;
        &&& forall|a: int, b: int| 0 <= a < b < c.flags.len() ==> lex_lt((#[trigger] c.flags@[a]).key@, (#[trigger] c.flags@[b]).key@)
        &&& forall|a: int, b: int| 0 <= a < b < c.args.len() ==> lex_lt((#[trigger] c.args@[a]).name@, (#[trigger] c.args@[b]).name@)
    }
}

pub open spec fn leaf_key_lt(a: (Vec<String>, String), b: (Vec<String>, String)) -> bool {
    path_lt(views(a.0@), views(b.0@)) || (views(a.0@) == views(b.0@) && lex_lt(a.1@, b.1@))
}

/// The wrapper index in key order, each key once: the order of a map.
pub open spec fn index_ascending(idx: WrapperIndex) -> bool {
    &&& forall|i: int, j: int| 0 <= i < j < idx.commands.len() ==> path_lt(views((#[trigger] idx.commands@[i]).0@), views((#[trigger] idx.commands@[j]).0@))
    &&& forall|i: int, j: int| 0 <= i < j < idx.flags.len() ==> leaf_key_lt((#[trigger] idx.flags@[i]).0, (#[trigger] idx.flags@[j]).0)
    &&& forall|i: int, j: int| 0 <= i < j < idx.args.len() ==> leaf_key_lt((#[trigger] idx.args@[i]).0, (#[trigger] idx.args@[j]).0)
}

// ---------------------------------------------------------------------------------------------
// Laws

/// `b` still holds every missing flag and missing arg row of `a`, in the same places.
pub open spec fn keeps_missing(a: DeltaLists, b: DeltaLists) -> bool {
    &&& a.missing_flags.len() <= b.missing_flags.len()
    &&& forall|k: int| 0 <= k < a.missing_flags.len() ==> #[trigger] b.missing_flags[k] == a.missing_flags[k]
    &&& a.missing_args.len() <= b.missing_args.len()
    &&& forall|k: int| 0 <= k < a.missing_args.len() ==> #[trigger] b.missing_args[k] == a.missing_args[k]
}

proof fn lemma_flags_walk_keeps(
    rules: RulesFile, rt: Seq<Seq<char>>, mode: FilterMode, ex: Option<&ParityExclusionsIndex>, idx: WrapperIndex,
    l: DeltaLists, path: Seq<Seq<char>>, flags: Seq<UnionFlagV2>, facts: Seq<IuFacts>, j: nat, n: nat,
)
    requires
        j <= n,
        flags_walk(rules, rt, mode, ex, idx, l, path, flags, facts, n) is Ok,
    ensures
        flags_walk(rules, rt, mode, ex, idx, l, path, flags, facts, j) is Ok,
        keeps_missing(flags_walk(rules, rt, mode, ex, idx, l, path, flags, facts, j)->Ok_0, flags_walk(rules, rt, mode, ex, idx, l, path, flags, facts, n)->Ok_0),
    decreases n - j,
{
    if j < n {
        let prev = flags_walk(rules, rt, mode, ex, idx, l, path, flags, facts, (n - 1) as nat);
        assert(prev is Ok);
        lemma_flags_walk_keeps(rules, rt, mode, ex, idx, l, path, flags, facts, j, (n - 1) as nat);
    }
}

proof fn lemma_args_walk_keeps(
    rules: RulesFile, rt: Seq<Seq<char>>, mode: FilterMode, ex: Option<&ParityExclusionsIndex>, idx: WrapperIndex,
    l: DeltaLists, path: Seq<Seq<char>>, args: Seq<UnionArgV2>, facts: Seq<IuFacts>, j: nat, n: nat,
)
    requires
        j <= n,
        args_walk(rules, rt, mode, ex, idx, l, path, args, facts, n) is Ok,
    ensures
        args_walk(rules, rt, mode, ex, idx, l, path, args, facts, j) is Ok,
        keeps_missing(args_walk(rules, rt, mode, ex, idx, l, path, args, facts, j)->Ok_0, args_walk(rules, rt, mode, ex, idx, l, path, args, facts, n)->Ok_0),
    decreases n - j,
{
    if j < n {
        let prev = args_walk(rules, rt, mode, ex, idx, l, path, args, facts, (n - 1) as nat);
        assert(prev is Ok);
        lemma_args_walk_keeps(rules, rt, mode, ex, idx, l, path, args, facts, j, (n - 1) as nat);
    }
}

proof fn lemma_upstream_step_keeps(
    rules: RulesFile, rt: Seq<Seq<char>>, mode: FilterMode, ex: Option<&ParityExclusionsIndex>, idx: WrapperIndex,
    l: DeltaLists, entry: (Vec<String>, UnionCommandV2), f: CommandIuFacts,
)
    requires
        upstream_step(rules, rt, mode, ex, idx, l, entry, f) is Ok,
    ensures
        keeps_missing(l, upstream_step(rules, rt, mode, ex, idx, l, entry, f)->Ok_0),
{
    let path = views(entry.0@);
    let cmd = entry.1;
    if present(rules, rt, mode, views(cmd.available_on@)) {
        let l1 = command_part(ex, idx, l, path, views(cmd.available_on@), f.command)->Ok_0;
        lemma_flags_walk_keeps(rules, rt, mode, ex, idx, l1, path, cmd.flags@, f.flags@, 0, cmd.flags@.len());
        let l2 = flags_walk(rules, rt, mode, ex, idx, l1, path, cmd.flags@, f.flags@, cmd.flags@.len())->Ok_0;
        lemma_args_walk_keeps(rules, rt, mode, ex, idx, l2, path, cmd.args@, f.args@, 0, cmd.args@.len());
    }
}

proof fn lemma_upstream_walk_keeps(
    rules: RulesFile, rt: Seq<Seq<char>>, mode: FilterMode, ex: Option<&ParityExclusionsIndex>, idx: WrapperIndex,
    upstream: Seq<(Vec<String>, UnionCommandV2)>, facts: Seq<CommandIuFacts>, j: nat, n: nat,
)
    requires
        j <= n,
        upstream_walk(rules, rt, mode, ex, idx, upstream, facts, n) is Ok,
    ensures
        upstream_walk(rules, rt, mode, ex, idx, upstream, facts, j) is Ok,
        keeps_missing(upstream_walk(rules, rt, mode, ex, idx, upstream, facts, j)->Ok_0, upstream_walk(rules, rt, mode, ex, idx, upstream, facts, n)->Ok_0),
    decreases n - j,
{
    if j < n {
        let prev = upstream_walk(rules, rt, mode, ex, idx, upstream, facts, (n - 1) as nat);
        assert(prev is Ok);
        lemma_upstream_step_keeps(rules, rt, mode, ex, idx, prev->Ok_0, upstream[n - 1], facts[n - 1]);
        lemma_upstream_walk_keeps(rules, rt, mode, ex, idx, upstream, facts, j, (n - 1) as nat);
    }
}

proof fn lemma_wrapper_walks_keep(
    rules: RulesFile, rt: Seq<Seq<char>>, mode: FilterMode, upstream: Seq<(Vec<String>, UnionCommandV2)>,
    l: DeltaLists, idx: WrapperIndex, n1: nat, n2: nat, n3: nat,
)
    requires
        wrapper_commands_walk(rules, rt, mode, upstream, l, idx.commands@, n1) is Ok,
    ensures
        keeps_missing(l, wrapper_commands_walk(rules, rt, mode, upstream, l, idx.commands@, n1)->Ok_0),
        ({
            let l2 = wrapper_commands_walk(rules, rt, mode, upstream, l, idx.commands@, n1)->Ok_0;
            wrapper_flags_walk(rules, rt, mode, upstream, l2, idx.flags@, n2) is Ok ==> {
                let l3 = wrapper_flags_walk(rules, rt, mode, upstream, l2, idx.flags@, n2)->Ok_0;
                &&& keeps_missing(l2, l3)
                &&& wrapper_args_walk(rules, rt, mode, upstream, l3, idx.args@, n3) is Ok
                    ==> keeps_missing(l3, wrapper_args_walk(rules, rt, mode, upstream, l3, idx.args@, n3)->Ok_0)
            }
        }),
    decreases n1 + n2 + n3,
{
    if n3 > 0 {
        lemma_wrapper_walks_keep(rules, rt, mode, upstream, l, idx, n1, n2, (n3 - 1) as nat);
    } else if n2 > 0 {
        lemma_wrapper_walks_keep(rules, rt, mode, upstream, l, idx, n1, (n2 - 1) as nat, 0);
    } else if n1 > 0 {
        assert(wrapper_commands_walk(rules, rt, mode, upstream, l, idx.commands@, (n1 - 1) as nat) is Ok);
        lemma_wrapper_walks_keep(rules, rt, mode, upstream, l, idx, (n1 - 1) as nat, 0, 0);
    }
}

/// Excluding a command does not exclude its flags. A flag of an excluded command, both
/// selected by the filter, that no exclusion names and that the wrapper leaves as a gap (no
/// level without an inherited intentionally-unsupported root, or an `unknown`, `unsupported`
/// or unnamed level) is listed as a missing flag in the report, whenever the report is made.
pub proof fn law_excluded_command_keeps_its_flags(
    rules: RulesFile,
    ex: Option<&ParityExclusionsIndex>,
    version: Seq<char>,
    platform_mode: Seq<char>,
    target_triple: Option<Seq<char>>,
    mode: FilterMode,
    rt: Seq<Seq<char>>,
    upstream: Seq<(Vec<String>, UnionCommandV2)>,
    wrapper: WrapperCoverageV1,
    idx: WrapperIndex,
    facts: Vec<CommandIuFacts>,
    generated_at: Seq<char>,
    i: int,
    j: int,
)
    requires
        facts_fit(upstream, facts@),
        0 <= i < upstream.len(),
        0 <= j < upstream[i].1.flags.len(),
        command_exclusion(ex, views(upstream[i].0@)) is Some,
        present(rules, rt, mode, views(upstream[i].1.available_on@)),
        present(rules, rt, mode, views(upstream[i].1.flags@[j].available_on@)),
        flag_exclusion(ex, views(upstream[i].0@), upstream[i].1.flags@[j].key@) is None,
        leaf_resolution(idx.flags@, views(upstream[i].0@), upstream[i].1.flags@[j].key@) matches Ok(r)
            && leaf_gap(r.0) && (r.0 is None ==> inherited_view(facts@[i].flags@[j]) == Ok::<Option<Seq<char>>, Seq<char>>(None)),
        report_spec(rules, ex, version, platform_mode, target_triple, mode, rt, upstream, wrapper, idx, Ok(facts), generated_at) is Ok,
    ensures
        ({
            let path = views(upstream[i].0@);
            let fl = upstream[i].1.flags@[j];
            let r = leaf_resolution(idx.flags@, path, fl.key@)->Ok_0;
            report_spec(rules, ex, version, platform_mode, target_triple, mode, rt, upstream, wrapper, idx, Ok(facts), generated_at)->Ok_0
                .deltas.missing_flags.contains((path, fl.key@, views(fl.available_on@), r.0, r.1))
        }),
{
    let path = views(upstream[i].0@);
    let cmd = upstream[i].1;
    let fl = cmd.flags@[j];
    let r = leaf_resolution(idx.flags@, path, fl.key@)->Ok_0;
    let row = (path, fl.key@, views(fl.available_on@), r.0, r.1);
    let n = upstream.len();
    let l_all = upstream_walk(rules, rt, mode, ex, idx, upstream, facts@, n);
    assert(l_all is Ok);
    lemma_upstream_walk_keeps(rules, rt, mode, ex, idx, upstream, facts@, (i + 1) as nat, n);
    lemma_upstream_walk_keeps(rules, rt, mode, ex, idx, upstream, facts@, i as nat, (i + 1) as nat);
    let li = upstream_walk(rules, rt, mode, ex, idx, upstream, facts@, i as nat)->Ok_0;
    let f = facts@[i];
    let l1 = command_part(ex, idx, li, path, views(cmd.available_on@), f.command)->Ok_0;
    let nf = cmd.flags@.len();
    lemma_flags_walk_keeps(rules, rt, mode, ex, idx, l1, path, cmd.flags@, f.flags@, (j + 1) as nat, nf);
    lemma_flags_walk_keeps(rules, rt, mode, ex, idx, l1, path, cmd.flags@, f.flags@, j as nat, (j + 1) as nat);
    let lj = flags_walk(rules, rt, mode, ex, idx, l1, path, cmd.flags@, f.flags@, j as nat)->Ok_0;
    let lj1 = flags_walk(rules, rt, mode, ex, idx, l1, path, cmd.flags@, f.flags@, (j + 1) as nat)->Ok_0;
    let pos = lj.missing_flags.len() as int;
    assert(lj1.missing_flags[pos] == row);
    let l2 = flags_walk(rules, rt, mode, ex, idx, l1, path, cmd.flags@, f.flags@, nf)->Ok_0;
    lemma_args_walk_keeps(rules, rt, mode, ex, idx, l2, path, cmd.args@, f.args@, 0, cmd.args@.len());
    let l_up = l_all->Ok_0;
    assert(l_up.missing_flags[pos] == row);
    lemma_wrapper_walks_keep(rules, rt, mode, upstream, l_up, idx, idx.commands@.len(), idx.flags@.len(), idx.args@.len());
    let fin = report_lists(rules, rt, mode, ex, idx, upstream, facts@)->Ok_0;
    assert(fin.missing_flags[pos] == row);
}

/// Excluding a command does not exclude its args: as for flags, an arg of an excluded command
/// that the filter selects, that no exclusion names and that the wrapper leaves as a gap is
/// listed as a missing arg in the report, whenever the report is made.
pub proof fn law_excluded_command_keeps_its_args(
    rules: RulesFile,
    ex: Option<&ParityExclusionsIndex>,
    version: Seq<char>,
    platform_mode: Seq<char>,
    target_triple: Option<Seq<char>>,
    mode: FilterMode,
    rt: Seq<Seq<char>>,
    upstream: Seq<(Vec<String>, UnionCommandV2)>,
    wrapper: WrapperCoverageV1,
    idx: WrapperIndex,
    facts: Vec<CommandIuFacts>,
    generated_at: Seq<char>,
    i: int,
    j: int,
)
    requires
        facts_fit(upstream, facts@),
        0 <= i < upstream.len(),
        0 <= j < upstream[i].1.args.len(),
        command_exclusion(ex, views(upstream[i].0@)) is Some,
        present(rules, rt, mode, views(upstream[i].1.available_on@)),
        present(rules, rt, mode, views(upstream[i].1.args@[j].available_on@)),
        arg_exclusion(ex, views(upstream[i].0@), upstream[i].1.args@[j].name@) is None,
        leaf_resolution(idx.args@, views(upstream[i].0@), upstream[i].1.args@[j].name@) matches Ok(r)
            && leaf_gap(r.0) && (r.0 is None ==> inherited_view(facts@[i].args@[j]) == Ok::<Option<Seq<char>>, Seq<char>>(None)),
        report_spec(rules, ex, version, platform_mode, target_triple, mode, rt, upstream, wrapper, idx, Ok(facts), generated_at) is Ok,
    ensures
        ({
            let path = views(upstream[i].0@);
            let fl = upstream[i].1.args@[j];
            let r = leaf_resolution(idx.args@, path, fl.name@)->Ok_0;
            report_spec(rules, ex, version, platform_mode, target_triple, mode, rt, upstream, wrapper, idx, Ok(facts), generated_at)->Ok_0
                .deltas.missing_args.contains((path, fl.name@, views(fl.available_on@), r.0, r.1))
        }),
{
    let path = views(upstream[i].0@);
    let cmd = upstream[i].1;
    let fl = cmd.args@[j];
    let r = leaf_resolution(idx.args@, path, fl.name@)->Ok_0;
    let row = (path, fl.name@, views(fl.available_on@), r.0, r.1);
    let n = upstream.len();
    let l_all = upstream_walk(rules, rt, mode, ex, idx, upstream, facts@, n);
    assert(l_all is Ok);
    lemma_upstream_walk_keeps(rules, rt, mode, ex, idx, upstream, facts@, (i + 1) as nat, n);
    lemma_upstream_walk_keeps(rules, rt, mode, ex, idx, upstream, facts@, i as nat, (i + 1) as nat);
    let li = upstream_walk(rules, rt, mode, ex, idx, upstream, facts@, i as nat)->Ok_0;
    let f = facts@[i];
    let l1 = command_part(ex, idx, li, path, views(cmd.available_on@), f.command)->Ok_0;
    let l2 = flags_walk(rules, rt, mode, ex, idx, l1, path, cmd.flags@, f.flags@, cmd.flags@.len())->Ok_0;
    let na = cmd.args@.len();
    lemma_args_walk_keeps(rules, rt, mode, ex, idx, l2, path, cmd.args@, f.args@, (j + 1) as nat, na);
    lemma_args_walk_keeps(rules, rt, mode, ex, idx, l2, path, cmd.args@, f.args@, j as nat, (j + 1) as nat);
    let lj = args_walk(rules, rt, mode, ex, idx, l2, path, cmd.args@, f.args@, j as nat)->Ok_0;
    let lj1 = args_walk(rules, rt, mode, ex, idx, l2, path, cmd.args@, f.args@, (j + 1) as nat)->Ok_0;
    let pos = lj.missing_args.len() as int;
    assert(lj1.missing_args[pos] == row);
    let l_up = l_all->Ok_0;
    assert(l_up.missing_args[pos] == row);
    lemma_wrapper_walks_keep(rules, rt, mode, upstream, l_up, idx, idx.commands@.len(), idx.flags@.len(), idx.args@.len());
    let fin = report_lists(rules, rt, mode, ex, idx, upstream, facts@)->Ok_0;
    assert(fin.missing_args[pos] == row);
}

/// Command rows in strictly ascending path order.
pub open spec fn cmd_rows_ascending(s: Seq<CmdRow>) -> bool {
    forall|a: int, b: int| 0 <= a < b < s.len() ==> path_lt((#[trigger] s[a]).0, (#[trigger] s[b]).0)
}

/// Every row's path is below the path of each upstream command from position `i` on.
pub open spec fn cmd_rows_below(s: Seq<CmdRow>, upstream: Seq<(Vec<String>, UnionCommandV2)>, i: int) -> bool {
    forall|a: int, m: int| 0 <= a < s.len() && i <= m < upstream.len() ==> path_lt((#[trigger] s[a]).0, views((#[trigger] upstream[m]).0@))
}

pub open spec fn cmd_list_ordered(s: Seq<CmdRow>, upstream: Seq<(Vec<String>, UnionCommandV2)>, i: int) -> bool {
    cmd_rows_ascending(s) && cmd_rows_below(s, upstream, i)
}

/// The command lists the upstream walk fills, each ordered and below what is still to come.
pub open spec fn command_lists_ordered(l: DeltaLists, upstream: Seq<(Vec<String>, UnionCommandV2)>, i: int) -> bool {
    &&& cmd_list_ordered(l.missing_commands, upstream, i)
    &&& cmd_list_ordered(l.excluded_commands, upstream, i)
    &&& cmd_list_ordered(l.passthrough_candidates, upstream, i)
    &&& cmd_list_ordered(l.unsupported, upstream, i)
    &&& cmd_list_ordered(l.iu_commands, upstream, i)
}

pub open spec fn same_command_lists(a: DeltaLists, b: DeltaLists) -> bool {
    &&& a.missing_commands == b.missing_commands
    &&& a.excluded_commands == b.excluded_commands
    &&& a.passthrough_candidates == b.passthrough_candidates
    &&& a.unsupported == b.unsupported
    &&& a.iu_commands == b.iu_commands
}

proof fn lemma_leaf_walks_keep_command_lists(
    rules: RulesFile, rt: Seq<Seq<char>>, mode: FilterMode, ex: Option<&ParityExclusionsIndex>, idx: WrapperIndex,
    l: DeltaLists, path: Seq<Seq<char>>, flags: Seq<UnionFlagV2>, ffacts: Seq<IuFacts>, args: Seq<UnionArgV2>, afacts: Seq<IuFacts>,
    nf: nat, na: nat,
)
    ensures
        flags_walk(rules, rt, mode, ex, idx, l, path, flags, ffacts, nf) matches Ok(b) ==> same_command_lists(l, b),
        args_walk(rules, rt, mode, ex, idx, l, path, args, afacts, na) matches Ok(b) ==> same_command_lists(l, b),
    decreases nf + na,
{
    if nf > 0 {
        lemma_leaf_walks_keep_command_lists(rules, rt, mode, ex, idx, l, path, flags, ffacts, args, afacts, (nf - 1) as nat, na);
    }
    if na > 0 {
        lemma_leaf_walks_keep_command_lists(rules, rt, mode, ex, idx, l, path, flags, ffacts, args, afacts, nf, (na - 1) as nat);
    }
}

proof fn lemma_push_ordered(s: Seq<CmdRow>, row: CmdRow, upstream: Seq<(Vec<String>, UnionCommandV2)>, i: int)
    requires
        paths_ascending(upstream),
        0 <= i < upstream.len(),
        row.0 == views(upstream[i].0@),
        cmd_list_ordered(s, upstream, i),
    ensures
        cmd_list_ordered(s.push(row), upstream, i + 1),
{
    let t = s.push(row);
    assert forall|a: int, b: int| 0 <= a < b < t.len() implies path_lt((#[trigger] t[a]).0, (#[trigger] t[b]).0) by {
        if b == s.len() {
            assert(path_lt(s[a].0, views(upstream[i].0@)));
        } else {
            assert(t[a] == s[a] && t[b] == s[b]);
        }
    }
    assert forall|a: int, m: int| 0 <= a < t.len() && i + 1 <= m < upstream.len() implies path_lt((#[trigger] t[a]).0, views((#[trigger] upstream[m]).0@)) by {
        if a == s.len() {
            assert(path_lt(views(upstream[i].0@), views(upstream[m].0@)));
        } else {
            assert(t[a] == s[a]);
            assert(path_lt(s[a].0, views(upstream[m].0@)));
        }
    }
}

proof fn lemma_keep_ordered(s: Seq<CmdRow>, upstream: Seq<(Vec<String>, UnionCommandV2)>, i: int)
    requires
        cmd_list_ordered(s, upstream, i),
    ensures
        cmd_list_ordered(s, upstream, i + 1),
{
}

proof fn lemma_upstream_walk_ordered(
    rules: RulesFile, rt: Seq<Seq<char>>, mode: FilterMode, ex: Option<&ParityExclusionsIndex>, idx: WrapperIndex,
    upstream: Seq<(Vec<String>, UnionCommandV2)>, facts: Seq<CommandIuFacts>, n: nat,
)
    requires
        paths_ascending(upstream),
        n <= upstream.len(),
    ensures
        upstream_walk(rules, rt, mode, ex, idx, upstream, facts, n) matches Ok(l) ==> command_lists_ordered(l, upstream, n as int),
    decreases n,
{
    if n > 0 {
        let i = n - 1;
        lemma_upstream_walk_ordered(rules, rt, mode, ex, idx, upstream, facts, (n - 1) as nat);
        match upstream_walk(rules, rt, mode, ex, idx, upstream, facts, (n - 1) as nat) {
            Err(_) => {},
            Ok(l) => {
                let entry = upstream[i];
                let f = facts[i];
                let path = views(entry.0@);
                let cmd = entry.1;
                lemma_keep_ordered(l.missing_commands, upstream, i);
                lemma_keep_ordered(l.excluded_commands, upstream, i);
                lemma_keep_ordered(l.passthrough_candidates, upstream, i);
                lemma_keep_ordered(l.unsupported, upstream, i);
                lemma_keep_ordered(l.iu_commands, upstream, i);
                if present(rules, rt, mode, views(cmd.available_on@)) {
                    match command_part(ex, idx, l, path, views(cmd.available_on@), f.command) {
                        Err(_) => {},
                        Ok(l1) => {
                            let avail = views(cmd.available_on@);
                            let r = command_resolution(idx, path)->Ok_0;
                            assert(command_lists_ordered(l1, upstream, n as int)) by {
                                if let Some(note) = command_exclusion(ex, path) {
                                    lemma_push_ordered(l.excluded_commands, (path, avail, r.0, Some(note)), upstream, i);
                                } else if r.0 is None {
                                    if let Ok(Some(note)) = inherited_view(f.command) {
                                        lemma_push_ordered(l.iu_commands, (path, avail, iu_level(), Some(note)), upstream, i);
                                    } else {
                                        let row = (path, avail, r.0, r.1);
                                        lemma_push_ordered(l.missing_commands, row, upstream, i);
                                        lemma_push_ordered(l.unsupported, row, upstream, i);
                                        lemma_push_ordered(l.passthrough_candidates, row, upstream, i);
                                    }
                                } else if r.0 == iu_level() {
                                    if let Ok(note) = declared_view(f.command) {
                                        lemma_push_ordered(l.iu_commands, (path, avail, iu_level(), Some(note)), upstream, i);
                                    }
                                } else {
                                    let row = (path, avail, r.0, r.1);
                                    lemma_push_ordered(l.missing_commands, row, upstream, i);
                                    lemma_push_ordered(l.unsupported, row, upstream, i);
                                    lemma_push_ordered(l.passthrough_candidates, row, upstream, i);
                                }
                            }
                            lemma_leaf_walks_keep_command_lists(rules, rt, mode, ex, idx, l1, path, cmd.flags@, f.flags@, cmd.args@, f.args@, cmd.flags@.len(), 0);
                            if let Ok(l2) = flags_walk(rules, rt, mode, ex, idx, l1, path, cmd.flags@, f.flags@, cmd.flags@.len()) {
                                lemma_leaf_walks_keep_command_lists(rules, rt, mode, ex, idx, l2, path, cmd.flags@, f.flags@, cmd.args@, f.args@, 0, cmd.args@.len());
                            }
                        },
                    }
                }
            },
        }
    }
}

proof fn lemma_wrapper_walks_keep_command_lists(
    rules: RulesFile, rt: Seq<Seq<char>>, mode: FilterMode, upstream: Seq<(Vec<String>, UnionCommandV2)>,
    l: DeltaLists, idx: WrapperIndex, n1: nat, n2: nat, n3: nat,
)
    ensures
        wrapper_commands_walk(rules, rt, mode, upstream, l, idx.commands@, n1) matches Ok(l2) ==> same_command_lists(l, l2),
        wrapper_flags_walk(rules, rt, mode, upstream, l, idx.flags@, n2) matches Ok(l3) ==> same_command_lists(l, l3),
        wrapper_args_walk(rules, rt, mode, upstream, l, idx.args@, n3) matches Ok(l4) ==> same_command_lists(l, l4),
    decreases n1 + n2 + n3,
{
    if n1 > 0 {
        lemma_wrapper_walks_keep_command_lists(rules, rt, mode, upstream, l, idx, (n1 - 1) as nat, n2, n3);
    }
    if n2 > 0 {
        lemma_wrapper_walks_keep_command_lists(rules, rt, mode, upstream, l, idx, n1, (n2 - 1) as nat, n3);
    }
    if n3 > 0 {
        lemma_wrapper_walks_keep_command_lists(rules, rt, mode, upstream, l, idx, n1, n2, (n3 - 1) as nat);
    }
}

/// The report's command lists come out in path order: with upstream's commands in strictly
/// ascending path order, the missing, excluded, passthrough, unsupported and intentionally
/// unsupported commands of any report made are each in strictly ascending path order.
pub proof fn law_command_lists_follow_path_order(
    rules: RulesFile,
    ex: Option<&ParityExclusionsIndex>,
    version: Seq<char>,
    platform_mode: Seq<char>,
    target_triple: Option<Seq<char>>,
    mode: FilterMode,
    rt: Seq<Seq<char>>,
    upstream: Seq<(Vec<String>, UnionCommandV2)>,
    wrapper: WrapperCoverageV1,
    idx: WrapperIndex,
    facts: Vec<CommandIuFacts>,
    generated_at: Seq<char>,
)
    requires
        paths_ascending(upstream),
        report_spec(rules, ex, version, platform_mode, target_triple, mode, rt, upstream, wrapper, idx, Ok(facts), generated_at) is Ok,
    ensures
        ({
            let l = report_lists(rules, rt, mode, ex, idx, upstream, facts@)->Ok_0;
            &&& cmd_rows_ascending(l.missing_commands)
            &&& cmd_rows_ascending(l.excluded_commands)
            &&& cmd_rows_ascending(l.passthrough_candidates)
            &&& cmd_rows_ascending(l.unsupported)
            &&& cmd_rows_ascending(l.iu_commands)
        }),
{
    lemma_upstream_walk_ordered(rules, rt, mode, ex, idx, upstream, facts@, upstream.len());
    let l1 = upstream_walk(rules, rt, mode, ex, idx, upstream, facts@, upstream.len())->Ok_0;
    lemma_wrapper_walks_keep_command_lists(rules, rt, mode, upstream, l1, idx, idx.commands@.len(), 0, 0);
    let l2 = wrapper_commands_walk(rules, rt, mode, upstream, l1, idx.commands@, idx.commands@.len())->Ok_0;
    lemma_wrapper_walks_keep_command_lists(rules, rt, mode, upstream, l2, idx, 0, idx.flags@.len(), 0);
    let l3 = wrapper_flags_walk(rules, rt, mode, upstream, l2, idx.flags@, idx.flags@.len())->Ok_0;
    lemma_wrapper_walks_keep_command_lists(rules, rt, mode, upstream, l3, idx, 0, 0, idx.args@.len());
}

/// How the wrapper's level files a selected flag that no exclusion names. `explicit` and
/// `passthrough` leave every list as it was. Any other level (`unsupported`, `unknown`, or one
/// this report does not name), and no level when no intentionally-unsupported root is
/// inherited, appends the flag, with that level and note, to the missing flags and changes no
/// other list.
pub proof fn law_flag_gap_levels(
    rules: RulesFile, rt: Seq<Seq<char>>, mode: FilterMode, ex: Option<&ParityExclusionsIndex>, idx: WrapperIndex,
    l: DeltaLists, path: Seq<Seq<char>>, fl: UnionFlagV2, f: IuFacts,
)
    requires
        present(rules, rt, mode, views(fl.available_on@)),
        flag_exclusion(ex, path, fl.key@) is None,
        leaf_resolution(idx.flags@, path, fl.key@) is Ok,
    ensures
        ({
            let r = leaf_resolution(idx.flags@, path, fl.key@)->Ok_0;
            let row = (path, fl.key@, views(fl.available_on@), r.0, r.1);
            let missing = DeltaLists { missing_flags: l.missing_flags.push(row), ..l };
            &&& (r.0 == Some("explicit"@) || r.0 == Some("passthrough"@)) ==> flag_step(rules, rt, mode, ex, idx, l, path, fl, f) == Ok::<DeltaLists, Seq<char>>(l)
            &&& (r.0 matches Some(v) && v != "explicit"@ && v != "passthrough"@ && v != "intentionally_unsupported"@)
                ==> flag_step(rules, rt, mode, ex, idx, l, path, fl, f) == Ok::<DeltaLists, Seq<char>>(missing)
            &&& (r.0 is None && f.inherited == Ok::<Option<String>, String>(None))
                ==> flag_step(rules, rt, mode, ex, idx, l, path, fl, f) == Ok::<DeltaLists, Seq<char>>(missing)
        }),
{
    reveal_strlit("explicit");
    reveal_strlit("passthrough");
    reveal_strlit("intentionally_unsupported");
    let r = leaf_resolution(idx.flags@, path, fl.key@)->Ok_0;
    let row = (path, fl.key@, views(fl.available_on@), r.0, r.1);
    assert(file_flag(l, (2, row)) =~= DeltaLists { missing_flags: l.missing_flags.push(row), ..l });
    assert("explicit"@ != "intentionally_unsupported"@) by {
        assert("explicit"@.len() != "intentionally_unsupported"@.len());
    }
    assert("passthrough"@ != "intentionally_unsupported"@) by {
        assert("passthrough"@.len() != "intentionally_unsupported"@.len());
    }
}

/// The same for a selected arg that no exclusion names: `explicit` and `passthrough` leave the
/// lists alone; any other level, or no level with nothing inherited, appends the arg to the
/// missing args.
pub proof fn law_arg_gap_levels(
    rules: RulesFile, rt: Seq<Seq<char>>, mode: FilterMode, ex: Option<&ParityExclusionsIndex>, idx: WrapperIndex,
    l: DeltaLists, path: Seq<Seq<char>>, a: UnionArgV2, f: IuFacts,
)
    requires
        present(rules, rt, mode, views(a.available_on@)),
        arg_exclusion(ex, path, a.name@) is None,
        leaf_resolution(idx.args@, path, a.name@) is Ok,
    ensures
        ({
            let r = leaf_resolution(idx.args@, path, a.name@)->Ok_0;
            let row = (path, a.name@, views(a.available_on@), r.0, r.1);
            let missing = DeltaLists { missing_args: l.missing_args.push(row), ..l };
            &&& (r.0 == Some("explicit"@) || r.0 == Some("passthrough"@)) ==> arg_step(rules, rt, mode, ex, idx, l, path, a, f) == Ok::<DeltaLists, Seq<char>>(l)
            &&& (r.0 matches Some(v) && v != "explicit"@ && v != "passthrough"@ && v != "intentionally_unsupported"@)
                ==> arg_step(rules, rt, mode, ex, idx, l, path, a, f) == Ok::<DeltaLists, Seq<char>>(missing)
            &&& (r.0 is None && f.inherited == Ok::<Option<String>, String>(None))
                ==> arg_step(rules, rt, mode, ex, idx, l, path, a, f) == Ok::<DeltaLists, Seq<char>>(missing)
        }),
{
    reveal_strlit("explicit");
    reveal_strlit("passthrough");
    reveal_strlit("intentionally_unsupported");
    let r = leaf_resolution(idx.args@, path, a.name@)->Ok_0;
    let row = (path, a.name@, views(a.available_on@), r.0, r.1);
    assert(file_arg(l, (2, row)) =~= DeltaLists { missing_args: l.missing_args.push(row), ..l });
    assert("explicit"@ != "intentionally_unsupported"@) by {
        assert("explicit"@.len() != "intentionally_unsupported"@.len());
    }
    assert("passthrough"@ != "intentionally_unsupported"@) by {
        assert("passthrough"@.len() != "intentionally_unsupported"@.len());
    }
}

/// How the wrapper's level files a selected command that no exclusion names: `unsupported`
/// goes to the unsupported list, `passthrough` to the passthrough candidates, `explicit` to no
/// list, and any other level, or no level when no intentionally-unsupported root is
/// inherited, to the missing commands, each with the command's level and note.
pub proof fn law_command_levels(
    ex: Option<&ParityExclusionsIndex>, idx: WrapperIndex, l: DeltaLists, path: Seq<Seq<char>>, avail: Seq<Seq<char>>, f: IuFacts,
)
    requires
        command_exclusion(ex, path) is None,
        command_resolution(idx, path) is Ok,
    ensures
        ({
            let r = command_resolution(idx, path)->Ok_0;
            let row = (path, avail, r.0, r.1);
            let got = command_part(ex, idx, l, path, avail, f);
            &&& r.0 == Some("unsupported"@) ==> got == Ok::<DeltaLists, Seq<char>>(DeltaLists { unsupported: l.unsupported.push(row), ..l })
            &&& r.0 == Some("passthrough"@)
                ==> got == Ok::<DeltaLists, Seq<char>>(DeltaLists { passthrough_candidates: l.passthrough_candidates.push(row), ..l })
            &&& r.0 == Some("explicit"@) ==> got == Ok::<DeltaLists, Seq<char>>(l)
            &&& (r.0 matches Some(v) && v != "explicit"@ && v != "passthrough"@ && v != "unsupported"@ && v != "intentionally_unsupported"@)
                ==> got == Ok::<DeltaLists, Seq<char>>(DeltaLists { missing_commands: l.missing_commands.push(row), ..l })
            &&& (r.0 is None && f.inherited == Ok::<Option<String>, String>(None))
                ==> got == Ok::<DeltaLists, Seq<char>>(DeltaLists { missing_commands: l.missing_commands.push(row), ..l })
        }),
{
    reveal_strlit("explicit");
    reveal_strlit("passthrough");
    reveal_strlit("unsupported");
    reveal_strlit("intentionally_unsupported");
    assert("explicit"@ != "intentionally_unsupported"@) by {
        assert("explicit"@.len() != "intentionally_unsupported"@.len());
    }
    assert("passthrough"@ != "intentionally_unsupported"@) by {
        assert("passthrough"@.len() != "intentionally_unsupported"@.len());
    }
    assert("unsupported"@ != "intentionally_unsupported"@) by {
        assert("unsupported"@.len() != "intentionally_unsupported"@.len());
    }
    assert("unsupported"@ != "passthrough"@) by {
        assert("unsupported"@[0] != "passthrough"@[0]);
    }
    assert("explicit"@ != "passthrough"@) by {
        assert("explicit"@[0] != "passthrough"@[0]);
    }
    assert("explicit"@ != "unsupported"@) by {
        assert("explicit"@[0] != "unsupported"@[0]);
    }
}

// ---------------------------------------------------------------------------------------------
// Lookups

fn copy_texts(v: &Vec<String>) -> (r: Vec<String>)
    ensures
        views(r@) == views(v@),
{
    let mut out: Vec<String> = Vec::new();
    let mut i: usize = 0;
    while i < v.len()
        invariant
            i <= v.len(),
            views(out@) == views(v@).subrange(0, i as int),
        decreases v.len() - i,
    {
        let ghost before = views(out@);
        out.push(to_owned(v[i].as_str()));
        assert(views(out@) =~= before.push(v@[i as int]@));
        assert(views(v@).subrange(0, i + 1) =~= views(v@).subrange(0, i as int).push(v@[i as int]@));
        i = i + 1;
    }
    assert(views(v@).subrange(0, v.len() as int) =~= views(v@));
    out
}

fn copy_opt(o: &Option<String>) -> (r: Option<String>)
    ensures
        opt_text(r) == opt_text(*o),
{
    match o {
        Some(s) => Some(to_owned(s.as_str())),
        None => None,
    }
}

fn copy_resolution(r: &Result<CoverageResolution, String>) -> (c: Result<CoverageResolution, String>)
    ensures
        res_result(c) == res_result(*r),
{
    match r {
        Ok(x) => Ok(CoverageResolution {
            level: copy_opt(&x.level),
            note: copy_opt(&x.note),
            targets: copy_texts(&x.targets),
            present: x.present,
        }),
        Err(e) => Err(to_owned(e.as_str())),
    }
}

fn find_resolution(entries: &Vec<(Vec<String>, Result<CoverageResolution, String>)>, path: &Vec<String>) -> (r: Option<usize>)
    ensures
        r matches Some(i) ==> i < entries.len() && first_index(entries@, res_at(views(path@))) == Some(i as int),
        r is None ==> first_index(entries@, res_at(views(path@))) is None,
{
    let ghost p = res_at(views(path@));
    let mut i: usize = 0;
    while i < entries.len()
        invariant
            i <= entries.len(),
            p == res_at(views(path@)),
            forall|k: int| 0 <= k < i ==> !p(#[trigger] entries@[k]),
        decreases entries.len() - i,
    {
        if same_texts(&entries[i].0, path) {
            proof {
                assert(p(entries@[i as int]));
                lemma_first_index(entries@, p);
            }
            return Some(i);
        }
        i = i + 1;
    }
    proof {
        lemma_first_index(entries@, p);
    }
    None
}

fn find_leaf_resolution(entries: &Vec<((Vec<String>, String), Result<CoverageResolution, String>)>, path: &Vec<String>, key: &str) -> (r: Option<usize>)
    ensures
        r matches Some(i) ==> i < entries.len() && first_index(entries@, leaf_res_at(views(path@), key@)) == Some(i as int),
        r is None ==> first_index(entries@, leaf_res_at(views(path@), key@)) is None,
{
    let ghost p = leaf_res_at(views(path@), key@);
    let mut i: usize = 0;
    while i < entries.len()
        invariant
            i <= entries.len(),
            p == leaf_res_at(views(path@), key@),
            forall|k: int| 0 <= k < i ==> !p(#[trigger] entries@[k]),
        decreases entries.len() - i,
    {
        if same_texts(&entries[i].0.0, path) && str_eq(entries[i].0.1.as_str(), key) {
            proof {
                assert(p(entries@[i as int]));
                lemma_first_index(entries@, p);
            }
            return Some(i);
        }
        i = i + 1;
    }
    proof {
        lemma_first_index(entries@, p);
    }
    None
}

fn resolve_command(idx: &WrapperIndex, path: &Vec<String>) -> (r: Result<CoverageResolution, String>)
    ensures
        res_result(r) == command_resolution(*idx, views(path@)),
{
    match find_resolution(&idx.commands, path) {
        Some(i) => copy_resolution(&idx.commands[i].1),
        None => {
            let t: Vec<String> = Vec::new();
            assert(views(t@) =~= Seq::<Seq<char>>::empty());
            Ok(CoverageResolution { level: None, note: None, targets: t, present: false })
        },
    }
}

fn resolve_leaf(entries: &Vec<((Vec<String>, String), Result<CoverageResolution, String>)>, path: &Vec<String>, key: &str) -> (r: Result<CoverageResolution, String>)
    ensures
        res_result(r) == leaf_resolution(entries@, views(path@), key@),
{
    match find_leaf_resolution(entries, path, key) {
        Some(i) => copy_resolution(&entries[i].1),
        None => {
            let t: Vec<String> = Vec::new();
            assert(views(t@) =~= Seq::<Seq<char>>::empty());
            Ok(CoverageResolution { level: None, note: None, targets: t, present: false })
        },
    }
}

fn command_exclusion_note(ex: Option<&ParityExclusionsIndex>, path: &Vec<String>) -> (r: Option<String>)
    ensures
        opt_text(r) == command_exclusion(ex, views(path@)),
{
    match ex {
        None => None,
        Some(x) => {
            let ghost p = excl_at(views(path@));
            let mut i: usize = 0;
            while i < x.commands.len()
                invariant
                    i <= x.commands.len(),
                    ex == Some(x),
                    p == excl_at(views(path@)),
                    forall|k: int| 0 <= k < i ==> !p(#[trigger] x.commands@[k]),
                decreases x.commands.len() - i,
            {
                if same_texts(&x.commands[i].0, path) {
                    proof {
                        assert(p(x.commands@[i as int]));
                        lemma_first_index(x.commands@, p);
                        assert(first_index(x.commands@, p) == Some(i as int));
                    }
                    let n = to_owned(x.commands[i].1.note.as_str());
                    assert(n@ == x.commands@[i as int].1.note@);
                    return Some(n);
                }
                i = i + 1;
            }
            proof {
                lemma_first_index(x.commands@, p);
            }
            None
        },
    }
}

fn leaf_exclusion_note(entries: &Vec<((Vec<String>, String), ParityExclusionUnit)>, path: &Vec<String>, key: &str) -> (r: Option<String>)
    ensures
        opt_text(r) == leaf_exclusion(entries@, views(path@), key@),
{
    let ghost p = excl_leaf_at(views(path@), key@);
    let mut i: usize = 0;
    while i < entries.len()
        invariant
            i <= entries.len(),
            p == excl_leaf_at(views(path@), key@),
            forall|k: int| 0 <= k < i ==> !p(#[trigger] entries@[k]),
        decreases entries.len() - i,
    {
        if same_texts(&entries[i].0.0, path) && str_eq(entries[i].0.1.as_str(), key) {
            proof {
                assert(p(entries@[i as int]));
                lemma_first_index(entries@, p);
            }
            return Some(to_owned(entries[i].1.note.as_str()));
        }
        i = i + 1;
    }
    proof {
        lemma_first_index(entries@, p);
    }
    None
}


// ---------------------------------------------------------------------------------------------
// Filing

struct Acc {
    missing_commands: Vec<ReportCommandDeltaV1>,
    missing_flags: Vec<ReportFlagDeltaV1>,
    missing_args: Vec<ReportArgDeltaV1>,
    excluded_commands: Vec<ReportCommandDeltaV1>,
    excluded_flags: Vec<ReportFlagDeltaV1>,
    excluded_args: Vec<ReportArgDeltaV1>,
    passthrough_candidates: Vec<ReportCommandDeltaV1>,
    unsupported: Vec<ReportCommandDeltaV1>,
    iu_commands: Vec<ReportCommandDeltaV1>,
    iu_flags: Vec<ReportFlagDeltaV1>,
    iu_args: Vec<ReportArgDeltaV1>,
    wrapper_only_commands: Vec<ReportCommandDeltaV1>,
    wrapper_only_flags: Vec<ReportFlagDeltaV1>,
    wrapper_only_args: Vec<ReportArgDeltaV1>,
}

spec fn acc_view(a: Acc) -> DeltaLists {
    DeltaLists {
        missing_commands: command_deltas(a.missing_commands@),
        missing_flags: flag_deltas(a.missing_flags@),
        missing_args: arg_deltas(a.missing_args@),
        excluded_commands: command_deltas(a.excluded_commands@),
        excluded_flags: flag_deltas(a.excluded_flags@),
        excluded_args: arg_deltas(a.excluded_args@),
        passthrough_candidates: command_deltas(a.passthrough_candidates@),
        unsupported: command_deltas(a.unsupported@),
        iu_commands: command_deltas(a.iu_commands@),
        iu_flags: flag_deltas(a.iu_flags@),
        iu_args: arg_deltas(a.iu_args@),
        wrapper_only_commands: command_deltas(a.wrapper_only_commands@),
        wrapper_only_flags: flag_deltas(a.wrapper_only_flags@),
        wrapper_only_args: arg_deltas(a.wrapper_only_args@),
    }
}

fn level_is(level: &Option<String>, v: &str) -> (r: bool)
    ensures
        r == (opt_text(*level) == Some(v@)),
{
    match level {
        Some(l) => str_eq(l.as_str(), v),
        None => false,
    }
}

fn push_command(v: &mut Vec<ReportCommandDeltaV1>, row: ReportCommandDeltaV1)
    ensures
        command_deltas(final(v)@) == command_deltas(old(v)@).push(command_delta_view(row)),
{
    let ghost before = command_deltas(v@);
    v.push(row);
    assert(command_deltas(v@) =~= before.push(command_delta_view(row)));
}

fn push_flag(v: &mut Vec<ReportFlagDeltaV1>, row: ReportFlagDeltaV1)
    ensures
        flag_deltas(final(v)@) == flag_deltas(old(v)@).push(flag_delta_view(row)),
{
    let ghost before = flag_deltas(v@);
    v.push(row);
    assert(flag_deltas(v@) =~= before.push(flag_delta_view(row)));
}

fn push_arg(v: &mut Vec<ReportArgDeltaV1>, row: ReportArgDeltaV1)
    ensures
        arg_deltas(final(v)@) == arg_deltas(old(v)@).push(arg_delta_view(row)),
{
    let ghost before = arg_deltas(v@);
    v.push(row);
    assert(arg_deltas(v@) =~= before.push(arg_delta_view(row)));
}

fn iu_text() -> (r: Option<String>)
    ensures
        opt_text(r) == iu_level(),
{
    Some(to_owned("intentionally_unsupported"))
}

/// Files one selected upstream command (`command_part`).
fn file_command_exec(
    ex: Option<&ParityExclusionsIndex>,
    idx: &WrapperIndex,
    acc: &mut Acc,
    path: &Vec<String>,
    avail: &Vec<String>,
    f: &IuFacts,
) -> (r: Result<(), String>)
    ensures
        match command_part(ex, *idx, acc_view(*old(acc)), views(path@), views(avail@), *f) {
            Ok(l) => r is Ok && acc_view(*final(acc)) == l,
            Err(e) => r matches Err(m) && m@ == e,
        },
{
    let c = match resolve_command(idx, path) {
        Err(e) => return Err(e),
        Ok(c) => c,
    };
    let ghost l0 = acc_view(*acc);
    match command_exclusion_note(ex, path) {
        Some(note) => {
            let row = ReportCommandDeltaV1 { path: copy_texts(path), upstream_available_on: copy_texts(avail), wrapper_level: copy_opt(&c.level), note: Some(note) };
            push_command(&mut acc.excluded_commands, row);
            assert(acc_view(*acc) =~= DeltaLists { excluded_commands: l0.excluded_commands.push(command_delta_view(row)), ..l0 });
            Ok(())
        },
        None => {
            if c.level.is_none() {
                match &f.inherited {
                    Err(e) => Err(to_owned(e.as_str())),
                    Ok(Some(n)) => {
                        let row = ReportCommandDeltaV1 { path: copy_texts(path), upstream_available_on: copy_texts(avail), wrapper_level: iu_text(), note: Some(to_owned(n.as_str())) };
                        push_command(&mut acc.iu_commands, row);
                        assert(acc_view(*acc) =~= DeltaLists { iu_commands: l0.iu_commands.push(command_delta_view(row)), ..l0 });
                        Ok(())
                    },
                    Ok(None) => {
                        classify_command_delta(&mut acc.missing_commands, &mut acc.passthrough_candidates, &mut acc.unsupported, path, avail, &c);
                        assert(acc_view(*acc) =~= file_command(l0, (views(path@), views(avail@), opt_text(c.level), opt_text(c.note))));
                        Ok(())
                    },
                }
            } else if level_is(&c.level, "intentionally_unsupported") {
                match &f.declared_note {
                    Err(e) => Err(to_owned(e.as_str())),
                    Ok(n) => {
                        let row = ReportCommandDeltaV1 { path: copy_texts(path), upstream_available_on: copy_texts(avail), wrapper_level: iu_text(), note: Some(to_owned(n.as_str())) };
                        push_command(&mut acc.iu_commands, row);
                        assert(acc_view(*acc) =~= DeltaLists { iu_commands: l0.iu_commands.push(command_delta_view(row)), ..l0 });
                        Ok(())
                    },
                }
            } else {
                classify_command_delta(&mut acc.missing_commands, &mut acc.passthrough_candidates, &mut acc.unsupported, path, avail, &c);
                assert(acc_view(*acc) =~= file_command(l0, (views(path@), views(avail@), opt_text(c.level), opt_text(c.note))));
                Ok(())
            }
        },
    }
}

/// Where one selected flag or arg goes (`leaf_outcome`), with its row.
fn leaf_outcome_exec(
    res: Result<CoverageResolution, String>,
    exclusion: Option<String>,
    path: &Vec<String>,
    key: &str,
    avail: &Vec<String>,
    f: &IuFacts,
) -> (r: Result<(u8, ReportFlagDeltaV1), String>)
    ensures
        match leaf_outcome(res_result(res), opt_text(exclusion), views(path@), key@, views(avail@), *f) {
            Ok(o) => r matches Ok(x) && x.0 as int == o.0 && flag_delta_view(x.1) == o.1,
            Err(e) => r matches Err(m) && m@ == e,
        },
{
    let c = match res {
        Err(e) => return Err(e),
        Ok(c) => c,
    };
    match exclusion {
        Some(note) => Ok((0, ReportFlagDeltaV1 { path: copy_texts(path), key: to_owned(key), upstream_available_on: copy_texts(avail), wrapper_level: copy_opt(&c.level), note: Some(note) })),
        None => {
            if c.level.is_none() {
                match &f.inherited {
                    Err(e) => Err(to_owned(e.as_str())),
                    Ok(Some(n)) => Ok((1, ReportFlagDeltaV1 { path: copy_texts(path), key: to_owned(key), upstream_available_on: copy_texts(avail), wrapper_level: iu_text(), note: Some(to_owned(n.as_str())) })),
                    Ok(None) => Ok((2, ReportFlagDeltaV1 { path: copy_texts(path), key: to_owned(key), upstream_available_on: copy_texts(avail), wrapper_level: None, note: copy_opt(&c.note) })),
                }
            } else if level_is(&c.level, "intentionally_unsupported") {
                match &f.declared_note {
                    Err(e) => Err(to_owned(e.as_str())),
                    Ok(n) => Ok((1, ReportFlagDeltaV1 { path: copy_texts(path), key: to_owned(key), upstream_available_on: copy_texts(avail), wrapper_level: iu_text(), note: Some(to_owned(n.as_str())) })),
                }
            } else {
                let gap = !(level_is(&c.level, "explicit") || level_is(&c.level, "passthrough"));
                let row = ReportFlagDeltaV1 { path: copy_texts(path), key: to_owned(key), upstream_available_on: copy_texts(avail), wrapper_level: copy_opt(&c.level), note: copy_opt(&c.note) };
                if gap { Ok((2, row)) } else { Ok((3, row)) }
            }
        },
    }
}

fn as_arg(d: ReportFlagDeltaV1) -> (r: ReportArgDeltaV1)
    ensures
        arg_delta_view(r) == flag_delta_view(d),
{
    ReportArgDeltaV1 { path: d.path, name: d.key, upstream_available_on: d.upstream_available_on, wrapper_level: d.wrapper_level, note: d.note }
}

fn flag_step_exec(
    rules: &RulesFile, rt: &Vec<String>, mode: FilterMode, ex: Option<&ParityExclusionsIndex>, idx: &WrapperIndex,
    acc: &mut Acc, path: &Vec<String>, fl: &UnionFlagV2, f: &IuFacts,
) -> (r: Result<(), String>)
    ensures
        match flag_step(*rules, views(rt@), mode, ex, *idx, acc_view(*old(acc)), views(path@), *fl, *f) {
            Ok(l) => r is Ok && acc_view(*final(acc)) == l,
            Err(e) => r matches Err(m) && m@ == e,
        },
{
    if !present_on_filter(&fl.available_on, rt, &rules.union.expected_targets, mode) {
        return Ok(());
    }
    let res = resolve_leaf(&idx.flags, path, fl.key.as_str());
    let exclusion = match ex {
        Some(x) => leaf_exclusion_note(&x.flags, path, fl.key.as_str()),
        None => None,
    };
    let ghost l0 = acc_view(*acc);
    match leaf_outcome_exec(res, exclusion, path, fl.key.as_str(), &fl.available_on, f) {
        Err(e) => Err(e),
        Ok((k, row)) => {
            let ghost o = (k as int, flag_delta_view(row));
            if k == 0 {
                push_flag(&mut acc.excluded_flags, row);
            } else if k == 1 {
                push_flag(&mut acc.iu_flags, row);
            } else if k == 2 {
                push_flag(&mut acc.missing_flags, row);
            }
            assert(acc_view(*acc) =~= file_flag(l0, o));
            Ok(())
        },
    }
}

fn arg_step_exec(
    rules: &RulesFile, rt: &Vec<String>, mode: FilterMode, ex: Option<&ParityExclusionsIndex>, idx: &WrapperIndex,
    acc: &mut Acc, path: &Vec<String>, a: &UnionArgV2, f: &IuFacts,
) -> (r: Result<(), String>)
    ensures
        match arg_step(*rules, views(rt@), mode, ex, *idx, acc_view(*old(acc)), views(path@), *a, *f) {
            Ok(l) => r is Ok && acc_view(*final(acc)) == l,
            Err(e) => r matches Err(m) && m@ == e,
        },
{
    if !present_on_filter(&a.available_on, rt, &rules.union.expected_targets, mode) {
        return Ok(());
    }
    let res = resolve_leaf(&idx.args, path, a.name.as_str());
    let exclusion = match ex {
        Some(x) => leaf_exclusion_note(&x.args, path, a.name.as_str()),
        None => None,
    };
    let ghost l0 = acc_view(*acc);
    match leaf_outcome_exec(res, exclusion, path, a.name.as_str(), &a.available_on, f) {
        Err(e) => Err(e),
        Ok((k, row)) => {
            let ghost o = (k as int, flag_delta_view(row));
            let row = as_arg(row);
            if k == 0 {
                push_arg(&mut acc.excluded_args, row);
            } else if k == 1 {
                push_arg(&mut acc.iu_args, row);
            } else if k == 2 {
                push_arg(&mut acc.missing_args, row);
            }
            assert(acc_view(*acc) =~= file_arg(l0, o));
            Ok(())
        },
    }
}

proof fn lemma_flags_sticky(
    rules: RulesFile, rt: Seq<Seq<char>>, mode: FilterMode, ex: Option<&ParityExclusionsIndex>, idx: WrapperIndex,
    l: DeltaLists, path: Seq<Seq<char>>, flags: Seq<UnionFlagV2>, facts: Seq<IuFacts>, j: nat, n: nat,
)
    requires
        j <= n,
        flags_walk(rules, rt, mode, ex, idx, l, path, flags, facts, j) is Err,
    ensures
        flags_walk(rules, rt, mode, ex, idx, l, path, flags, facts, n) == flags_walk(rules, rt, mode, ex, idx, l, path, flags, facts, j),
    decreases n - j,
{
    if j < n {
        lemma_flags_sticky(rules, rt, mode, ex, idx, l, path, flags, facts, j, (n - 1) as nat);
    }
}

proof fn lemma_args_sticky(
    rules: RulesFile, rt: Seq<Seq<char>>, mode: FilterMode, ex: Option<&ParityExclusionsIndex>, idx: WrapperIndex,
    l: DeltaLists, path: Seq<Seq<char>>, args: Seq<UnionArgV2>, facts: Seq<IuFacts>, j: nat, n: nat,
)
    requires
        j <= n,
        args_walk(rules, rt, mode, ex, idx, l, path, args, facts, j) is Err,
    ensures
        args_walk(rules, rt, mode, ex, idx, l, path, args, facts, n) == args_walk(rules, rt, mode, ex, idx, l, path, args, facts, j),
    decreases n - j,
{
    if j < n {
        lemma_args_sticky(rules, rt, mode, ex, idx, l, path, args, facts, j, (n - 1) as nat);
    }
}

proof fn lemma_upstream_sticky(
    rules: RulesFile, rt: Seq<Seq<char>>, mode: FilterMode, ex: Option<&ParityExclusionsIndex>, idx: WrapperIndex,
    upstream: Seq<(Vec<String>, UnionCommandV2)>, facts: Seq<CommandIuFacts>, j: nat, n: nat,
)
    requires
        j <= n,
        upstream_walk(rules, rt, mode, ex, idx, upstream, facts, j) is Err,
    ensures
        upstream_walk(rules, rt, mode, ex, idx, upstream, facts, n) == upstream_walk(rules, rt, mode, ex, idx, upstream, facts, j),
    decreases n - j,
{
    if j < n {
        lemma_upstream_sticky(rules, rt, mode, ex, idx, upstream, facts, j, (n - 1) as nat);
    }
}

/// Whether the facts line up with the upstream commands, flag for flag and arg for arg.
pub open spec fn facts_fit(upstream: Seq<(Vec<String>, UnionCommandV2)>, facts: Seq<CommandIuFacts>) -> bool {
    &&& facts.len() == upstream.len()
    &&& forall|i: int| 0 <= i < upstream.len() ==> (#[trigger] facts[i]).flags.len() == upstream[i].1.flags.len()
        && facts[i].args.len() == upstream[i].1.args.len()
}

fn file_upstream_entry(
    rules: &RulesFile, rt: &Vec<String>, mode: FilterMode, ex: Option<&ParityExclusionsIndex>, idx: &WrapperIndex,
    acc: &mut Acc, entry: &(Vec<String>, UnionCommandV2), f: &CommandIuFacts,
) -> (r: Result<(), String>)
    requires
        f.flags.len() == entry.1.flags.len(),
        f.args.len() == entry.1.args.len(),
    ensures
        match upstream_step(*rules, views(rt@), mode, ex, *idx, acc_view(*old(acc)), *entry, *f) {
            Ok(l) => r is Ok && acc_view(*final(acc)) == l,
            Err(e) => r matches Err(m) && m@ == e,
        },
{
    let path = &entry.0;
    let cmd = &entry.1;
    let ghost l0 = acc_view(*acc);
    if !present_on_filter(&cmd.available_on, rt, &rules.union.expected_targets, mode) {
        return Ok(());
    }
    match file_command_exec(ex, idx, acc, path, &cmd.available_on, &f.command) {
        Err(e) => return Err(e),
        Ok(()) => {},
    }
    let ghost l1 = acc_view(*acc);
    let ghost vrt = views(rt@);
    let ghost vp = views(path@);
    let mut j: usize = 0;
    while j < cmd.flags.len()
        invariant
            j <= cmd.flags.len(),
            f.flags.len() == cmd.flags.len(),
            vrt == views(rt@),
            vp == views(path@),
            *cmd == entry.1,
            *path == entry.0,
            present(*rules, vrt, mode, views(cmd.available_on@)),
            command_part(ex, *idx, l0, vp, views(cmd.available_on@), f.command) == Ok::<DeltaLists, Seq<char>>(l1),
            l0 == acc_view(*old(acc)),
            flags_walk(*rules, vrt, mode, ex, *idx, l1, vp, cmd.flags@, f.flags@, j as nat) == Ok::<DeltaLists, Seq<char>>(acc_view(*acc)),
        decreases cmd.flags.len() - j,
    {
        match flag_step_exec(rules, rt, mode, ex, idx, acc, path, &cmd.flags[j], &f.flags[j]) {
            Err(e) => {
                proof {
                    assert(flags_walk(*rules, vrt, mode, ex, *idx, l1, vp, cmd.flags@, f.flags@, (j + 1) as nat) == Err::<DeltaLists, Seq<char>>(e@));
                    lemma_flags_sticky(*rules, vrt, mode, ex, *idx, l1, vp, cmd.flags@, f.flags@, (j + 1) as nat, cmd.flags@.len());
                    assert(upstream_step(*rules, vrt, mode, ex, *idx, l0, *entry, *f) == Err::<DeltaLists, Seq<char>>(e@));
                }
                return Err(e);
            },
            Ok(()) => {},
        }
        j = j + 1;
    }
    let ghost l2 = acc_view(*acc);
    let mut k: usize = 0;
    while k < cmd.args.len()
        invariant
            k <= cmd.args.len(),
            f.args.len() == cmd.args.len(),
            vrt == views(rt@),
            vp == views(path@),
            *cmd == entry.1,
            *path == entry.0,
            present(*rules, vrt, mode, views(cmd.available_on@)),
            command_part(ex, *idx, l0, vp, views(cmd.available_on@), f.command) == Ok::<DeltaLists, Seq<char>>(l1),
            l0 == acc_view(*old(acc)),
            flags_walk(*rules, vrt, mode, ex, *idx, l1, vp, cmd.flags@, f.flags@, cmd.flags@.len()) == Ok::<DeltaLists, Seq<char>>(l2),
            args_walk(*rules, vrt, mode, ex, *idx, l2, vp, cmd.args@, f.args@, k as nat) == Ok::<DeltaLists, Seq<char>>(acc_view(*acc)),
        decreases cmd.args.len() - k,
    {
        match arg_step_exec(rules, rt, mode, ex, idx, acc, path, &cmd.args[k], &f.args[k]) {
            Err(e) => {
                proof {
                    lemma_args_sticky(*rules, vrt, mode, ex, *idx, l2, vp, cmd.args@, f.args@, (k + 1) as nat, cmd.args@.len());
                }
                return Err(e);
            },
            Ok(()) => {},
        }
        k = k + 1;
    }
    Ok(())
}

// ---------------------------------------------------------------------------------------------
// Wrapper-only surfaces

fn ordered_subset_exec(expected: &Vec<String>, targets: &Vec<String>) -> (r: Vec<String>)
    ensures
        views(r@) == ordered_subset(views(expected@), views(targets@)),
{
    let mut out: Vec<String> = Vec::new();
    let mut i: usize = 0;
    assert(views(expected@).subrange(0, 0) =~= Seq::<Seq<char>>::empty());
    while i < expected.len()
        invariant
            i <= expected.len(),
            views(out@) == ordered_subset(views(expected@).subrange(0, i as int), views(targets@)),
        decreases expected.len() - i,
    {
        let ghost sub = views(expected@).subrange(0, i + 1);
        assert(sub.drop_last() =~= views(expected@).subrange(0, i as int));
        assert(sub.last() == expected@[i as int]@);
        if vec_contains(targets, expected[i].as_str()) {
            let ghost before = views(out@);
            out.push(to_owned(expected[i].as_str()));
            assert(views(out@) =~= before.push(expected@[i as int]@));
        }
        i = i + 1;
    }
    assert(views(expected@).subrange(0, expected.len() as int) =~= views(expected@));
    out
}

fn find_upstream(upstream: &Vec<(Vec<String>, UnionCommandV2)>, path: &Vec<String>) -> (r: Option<usize>)
    ensures
        r matches Some(i) ==> i < upstream.len() && first_index(upstream@, upstream_at(views(path@))) == Some(i as int),
        r is None ==> first_index(upstream@, upstream_at(views(path@))) is None,
{
    let ghost p = upstream_at(views(path@));
    let mut i: usize = 0;
    while i < upstream.len()
        invariant
            i <= upstream.len(),
            p == upstream_at(views(path@)),
            forall|k: int| 0 <= k < i ==> !p(#[trigger] upstream@[k]),
        decreases upstream.len() - i,
    {
        if same_texts(&upstream[i].0, path) {
            proof {
                assert(p(upstream@[i as int]));
                lemma_first_index(upstream@, p);
            }
            return Some(i);
        }
        i = i + 1;
    }
    proof {
        lemma_first_index(upstream@, p);
    }
    None
}

fn find_flag_named(flags: &Vec<UnionFlagV2>, key: &str) -> (r: Option<usize>)
    ensures
        r matches Some(i) ==> i < flags.len() && first_index(flags@, flag_named(key@)) == Some(i as int),
        r is None ==> first_index(flags@, flag_named(key@)) is None,
{
    let ghost p = flag_named(key@);
    let mut i: usize = 0;
    while i < flags.len()
        invariant
            i <= flags.len(),
            p == flag_named(key@),
            forall|k: int| 0 <= k < i ==> !p(#[trigger] flags@[k]),
        decreases flags.len() - i,
    {
        if str_eq(flags[i].key.as_str(), key) {
            proof {
                assert(p(flags@[i as int]));
                lemma_first_index(flags@, p);
            }
            return Some(i);
        }
        i = i + 1;
    }
    proof {
        lemma_first_index(flags@, p);
    }
    None
}

fn find_arg_named(args: &Vec<UnionArgV2>, name: &str) -> (r: Option<usize>)
    ensures
        r matches Some(i) ==> i < args.len() && first_index(args@, arg_named(name@)) == Some(i as int),
        r is None ==> first_index(args@, arg_named(name@)) is None,
{
    let ghost p = arg_named(name@);
    let mut i: usize = 0;
    while i < args.len()
        invariant
            i <= args.len(),
            p == arg_named(name@),
            forall|k: int| 0 <= k < i ==> !p(#[trigger] args@[k]),
        decreases args.len() - i,
    {
        if str_eq(args[i].name.as_str(), name) {
            proof {
                assert(p(args@[i as int]));
                lemma_first_index(args@, p);
            }
            return Some(i);
        }
        i = i + 1;
    }
    proof {
        lemma_first_index(args@, p);
    }
    None
}

fn flag_availability_exec(
    rules: &RulesFile, rt: &Vec<String>, mode: FilterMode, upstream: &Vec<(Vec<String>, UnionCommandV2)>,
    path: &Vec<String>, key: &str, c: &CoverageResolution,
) -> (r: (Vec<String>, bool))
    ensures
        (views(r.0@), r.1) == flag_availability(*rules, views(rt@), mode, upstream@, views(path@), key@, *c),
{
    let i = match find_upstream(upstream, path) {
        None => return (ordered_subset_exec(&rules.union.expected_targets, &c.targets), false),
        Some(i) => i,
    };
    let cmd = &upstream[i].1;
    if let Some(j) = find_flag_named(&cmd.flags, key) {
        let a = &cmd.flags[j].available_on;
        return (copy_texts(a), present_on_filter(a, rt, &rules.union.expected_targets, mode));
    }
    if rules.globals.effective_flags_model.enabled && path.len() > 0 {
        let root_path: Vec<String> = Vec::new();
        assert(views(root_path@) =~= Seq::<Seq<char>>::empty());
        if let Some(r) = find_upstream(upstream, &root_path) {
            let root = &upstream[r].1;
            if let Some(k) = find_flag_named(&root.flags, key) {
                let a = &root.flags[k].available_on;
                return (copy_texts(a), present_on_filter(a, rt, &rules.union.expected_targets, mode));
            }
        }
    }
    (copy_texts(&cmd.available_on), false)
}

fn arg_availability_exec(
    rules: &RulesFile, rt: &Vec<String>, mode: FilterMode, upstream: &Vec<(Vec<String>, UnionCommandV2)>,
    path: &Vec<String>, name: &str, c: &CoverageResolution,
) -> (r: (Vec<String>, bool))
    ensures
        (views(r.0@), r.1) == arg_availability(*rules, views(rt@), mode, upstream@, views(path@), name@, *c),
{
    let i = match find_upstream(upstream, path) {
        None => return (ordered_subset_exec(&rules.union.expected_targets, &c.targets), false),
        Some(i) => i,
    };
    let cmd = &upstream[i].1;
    if let Some(j) = find_arg_named(&cmd.args, name) {
        let a = &cmd.args[j].available_on;
        return (copy_texts(a), present_on_filter(a, rt, &rules.union.expected_targets, mode));
    }
    (copy_texts(&cmd.available_on), false)
}

fn wrapper_command_exec(
    rules: &RulesFile, rt: &Vec<String>, mode: FilterMode, upstream: &Vec<(Vec<String>, UnionCommandV2)>,
    acc: &mut Acc, e: &(Vec<String>, Result<CoverageResolution, String>),
) -> (r: Result<(), String>)
    ensures
        match wrapper_command_step(*rules, views(rt@), mode, upstream@, acc_view(*old(acc)), *e) {
            Ok(l) => r is Ok && acc_view(*final(acc)) == l,
            Err(x) => r matches Err(m) && m@ == x,
        },
{
    let c = match &e.1 {
        Err(m) => return Err(to_owned(m.as_str())),
        Ok(c) => c,
    };
    if !c.present {
        return Ok(());
    }
    let ghost l0 = acc_view(*acc);
    let avail = match find_upstream(upstream, &e.0) {
        Some(i) => {
            let cmd = &upstream[i].1;
            if present_on_filter(&cmd.available_on, rt, &rules.union.expected_targets, mode) {
                return Ok(());
            }
            copy_texts(&cmd.available_on)
        },
        None => ordered_subset_exec(&rules.union.expected_targets, &c.targets),
    };
    let row = ReportCommandDeltaV1 { path: copy_texts(&e.0), upstream_available_on: avail, wrapper_level: copy_opt(&c.level), note: copy_opt(&c.note) };
    push_command(&mut acc.wrapper_only_commands, row);
    assert(acc_view(*acc) =~= DeltaLists { wrapper_only_commands: l0.wrapper_only_commands.push(command_delta_view(row)), ..l0 });
    Ok(())
}

fn wrapper_flag_exec(
    rules: &RulesFile, rt: &Vec<String>, mode: FilterMode, upstream: &Vec<(Vec<String>, UnionCommandV2)>,
    acc: &mut Acc, e: &((Vec<String>, String), Result<CoverageResolution, String>),
) -> (r: Result<(), String>)
    ensures
        match wrapper_flag_step(*rules, views(rt@), mode, upstream@, acc_view(*old(acc)), *e) {
            Ok(l) => r is Ok && acc_view(*final(acc)) == l,
            Err(x) => r matches Err(m) && m@ == x,
        },
{
    let c = match &e.1 {
        Err(m) => return Err(to_owned(m.as_str())),
        Ok(c) => c,
    };
    if !c.present {
        return Ok(());
    }
    let ghost l0 = acc_view(*acc);
    let (avail, found) = flag_availability_exec(rules, rt, mode, upstream, &e.0.0, e.0.1.as_str(), c);
    if found {
        return Ok(());
    }
    let row = ReportFlagDeltaV1 { path: copy_texts(&e.0.0), key: to_owned(e.0.1.as_str()), upstream_available_on: avail, wrapper_level: copy_opt(&c.level), note: copy_opt(&c.note) };
    push_flag(&mut acc.wrapper_only_flags, row);
    assert(acc_view(*acc) =~= DeltaLists { wrapper_only_flags: l0.wrapper_only_flags.push(flag_delta_view(row)), ..l0 });
    Ok(())
}

fn wrapper_arg_exec(
    rules: &RulesFile, rt: &Vec<String>, mode: FilterMode, upstream: &Vec<(Vec<String>, UnionCommandV2)>,
    acc: &mut Acc, e: &((Vec<String>, String), Result<CoverageResolution, String>),
) -> (r: Result<(), String>)
    ensures
        match wrapper_arg_step(*rules, views(rt@), mode, upstream@, acc_view(*old(acc)), *e) {
            Ok(l) => r is Ok && acc_view(*final(acc)) == l,
            Err(x) => r matches Err(m) && m@ == x,
        },
{
    let c = match &e.1 {
        Err(m) => return Err(to_owned(m.as_str())),
        Ok(c) => c,
    };
    if !c.present {
        return Ok(());
    }
    let ghost l0 = acc_view(*acc);
    let (avail, found) = arg_availability_exec(rules, rt, mode, upstream, &e.0.0, e.0.1.as_str(), c);
    if found {
        return Ok(());
    }
    let row = ReportArgDeltaV1 { path: copy_texts(&e.0.0), name: to_owned(e.0.1.as_str()), upstream_available_on: avail, wrapper_level: copy_opt(&c.level), note: copy_opt(&c.note) };
    push_arg(&mut acc.wrapper_only_args, row);
    assert(acc_view(*acc) =~= DeltaLists { wrapper_only_args: l0.wrapper_only_args.push(arg_delta_view(row)), ..l0 });
    Ok(())
}

proof fn lemma_wrapper_commands_sticky(
    rules: RulesFile, rt: Seq<Seq<char>>, mode: FilterMode, upstream: Seq<(Vec<String>, UnionCommandV2)>,
    l: DeltaLists, entries: Seq<(Vec<String>, Result<CoverageResolution, String>)>, j: nat, n: nat,
)
    requires
        j <= n,
        wrapper_commands_walk(rules, rt, mode, upstream, l, entries, j) is Err,
    ensures
        wrapper_commands_walk(rules, rt, mode, upstream, l, entries, n) == wrapper_commands_walk(rules, rt, mode, upstream, l, entries, j),
    decreases n - j,
{
    if j < n {
        lemma_wrapper_commands_sticky(rules, rt, mode, upstream, l, entries, j, (n - 1) as nat);
    }
}

proof fn lemma_wrapper_flags_sticky(
    rules: RulesFile, rt: Seq<Seq<char>>, mode: FilterMode, upstream: Seq<(Vec<String>, UnionCommandV2)>,
    l: DeltaLists, entries: Seq<((Vec<String>, String), Result<CoverageResolution, String>)>, j: nat, n: nat,
)
    requires
        j <= n,
        wrapper_flags_walk(rules, rt, mode, upstream, l, entries, j) is Err,
    ensures
        wrapper_flags_walk(rules, rt, mode, upstream, l, entries, n) == wrapper_flags_walk(rules, rt, mode, upstream, l, entries, j),
    decreases n - j,
{
    if j < n {
        lemma_wrapper_flags_sticky(rules, rt, mode, upstream, l, entries, j, (n - 1) as nat);
    }
}

proof fn lemma_wrapper_args_sticky(
    rules: RulesFile, rt: Seq<Seq<char>>, mode: FilterMode, upstream: Seq<(Vec<String>, UnionCommandV2)>,
    l: DeltaLists, entries: Seq<((Vec<String>, String), Result<CoverageResolution, String>)>, j: nat, n: nat,
)
    requires
        j <= n,
        wrapper_args_walk(rules, rt, mode, upstream, l, entries, j) is Err,
    ensures
        wrapper_args_walk(rules, rt, mode, upstream, l, entries, n) == wrapper_args_walk(rules, rt, mode, upstream, l, entries, j),
    decreases n - j,
{
    if j < n {
        lemma_wrapper_args_sticky(rules, rt, mode, upstream, l, entries, j, (n - 1) as nat);
    }
}

/// Every list of the report (`report_lists`).
fn file_report_lists(
    rules: &RulesFile, rt: &Vec<String>, mode: FilterMode, ex: Option<&ParityExclusionsIndex>, idx: &WrapperIndex,
    upstream: &Vec<(Vec<String>, UnionCommandV2)>, facts: &Vec<CommandIuFacts>,
) -> (r: Result<Acc, String>)
    requires
        facts_fit(upstream@, facts@),
    ensures
        match report_lists(*rules, views(rt@), mode, ex, *idx, upstream@, facts@) {
            Ok(l) => r matches Ok(a) && acc_view(a) == l,
            Err(e) => r matches Err(m) && m@ == e,
        },
{
    let mut acc = Acc {
        missing_commands: Vec::new(),
        missing_flags: Vec::new(),
        missing_args: Vec::new(),
        excluded_commands: Vec::new(),
        excluded_flags: Vec::new(),
        excluded_args: Vec::new(),
        passthrough_candidates: Vec::new(),
        unsupported: Vec::new(),
        iu_commands: Vec::new(),
        iu_flags: Vec::new(),
        iu_args: Vec::new(),
        wrapper_only_commands: Vec::new(),
        wrapper_only_flags: Vec::new(),
        wrapper_only_args: Vec::new(),
    };
    assert(acc_view(acc) =~= no_lists());
    let ghost vrt = views(rt@);
    let mut i: usize = 0;
    while i < upstream.len()
        invariant
            i <= upstream.len(),
            vrt == views(rt@),
            facts_fit(upstream@, facts@),
            upstream_walk(*rules, vrt, mode, ex, *idx, upstream@, facts@, i as nat) == Ok::<DeltaLists, Seq<char>>(acc_view(acc)),
        decreases upstream.len() - i,
    {
        assert(facts@[i as int].flags.len() == upstream@[i as int].1.flags.len());
        match file_upstream_entry(rules, rt, mode, ex, idx, &mut acc, &upstream[i], &facts[i]) {
            Err(e) => {
                proof {
                    lemma_upstream_sticky(*rules, vrt, mode, ex, *idx, upstream@, facts@, (i + 1) as nat, upstream@.len());
                }
                return Err(e);
            },
            Ok(()) => {},
        }
        i = i + 1;
    }
    let ghost l1 = acc_view(acc);
    let mut j: usize = 0;
    while j < idx.commands.len()
        invariant
            j <= idx.commands.len(),
            vrt == views(rt@),
            upstream_walk(*rules, vrt, mode, ex, *idx, upstream@, facts@, upstream@.len()) == Ok::<DeltaLists, Seq<char>>(l1),
            wrapper_commands_walk(*rules, vrt, mode, upstream@, l1, idx.commands@, j as nat) == Ok::<DeltaLists, Seq<char>>(acc_view(acc)),
        decreases idx.commands.len() - j,
    {
        match wrapper_command_exec(rules, rt, mode, upstream, &mut acc, &idx.commands[j]) {
            Err(e) => {
                proof {
                    lemma_wrapper_commands_sticky(*rules, vrt, mode, upstream@, l1, idx.commands@, (j + 1) as nat, idx.commands@.len());
                }
                return Err(e);
            },
            Ok(()) => {},
        }
        j = j + 1;
    }
    let ghost l2 = acc_view(acc);
    let mut k: usize = 0;
    while k < idx.flags.len()
        invariant
            k <= idx.flags.len(),
            vrt == views(rt@),
            upstream_walk(*rules, vrt, mode, ex, *idx, upstream@, facts@, upstream@.len()) == Ok::<DeltaLists, Seq<char>>(l1),
            wrapper_commands_walk(*rules, vrt, mode, upstream@, l1, idx.commands@, idx.commands@.len()) == Ok::<DeltaLists, Seq<char>>(l2),
            wrapper_flags_walk(*rules, vrt, mode, upstream@, l2, idx.flags@, k as nat) == Ok::<DeltaLists, Seq<char>>(acc_view(acc)),
        decreases idx.flags.len() - k,
    {
        match wrapper_flag_exec(rules, rt, mode, upstream, &mut acc, &idx.flags[k]) {
            Err(e) => {
                proof {
                    lemma_wrapper_flags_sticky(*rules, vrt, mode, upstream@, l2, idx.flags@, (k + 1) as nat, idx.flags@.len());
                }
                return Err(e);
            },
            Ok(()) => {},
        }
        k = k + 1;
    }
    let ghost l3 = acc_view(acc);
    let mut m: usize = 0;
    while m < idx.args.len()
        invariant
            m <= idx.args.len(),
            vrt == views(rt@),
            upstream_walk(*rules, vrt, mode, ex, *idx, upstream@, facts@, upstream@.len()) == Ok::<DeltaLists, Seq<char>>(l1),
            wrapper_commands_walk(*rules, vrt, mode, upstream@, l1, idx.commands@, idx.commands@.len()) == Ok::<DeltaLists, Seq<char>>(l2),
            wrapper_flags_walk(*rules, vrt, mode, upstream@, l2, idx.flags@, idx.flags@.len()) == Ok::<DeltaLists, Seq<char>>(l3),
            wrapper_args_walk(*rules, vrt, mode, upstream@, l3, idx.args@, m as nat) == Ok::<DeltaLists, Seq<char>>(acc_view(acc)),
        decreases idx.args.len() - m,
    {
        match wrapper_arg_exec(rules, rt, mode, upstream, &mut acc, &idx.args[m]) {
            Err(e) => {
                proof {
                    lemma_wrapper_args_sticky(*rules, vrt, mode, upstream@, l3, idx.args@, (m + 1) as nat, idx.args@.len());
                }
                return Err(e);
            },
            Ok(()) => {},
        }
        m = m + 1;
    }
    Ok(acc)
}

// ---------------------------------------------------------------------------------------------
// The report

fn copy_command_delta(d: &ReportCommandDeltaV1) -> (r: ReportCommandDeltaV1)
    ensures
        command_delta_view(r) == command_delta_view(*d),
{
    ReportCommandDeltaV1 {
        path: copy_texts(&d.path),
        upstream_available_on: copy_texts(&d.upstream_available_on),
        wrapper_level: copy_opt(&d.wrapper_level),
        note: copy_opt(&d.note),
    }
}

fn copy_flag_delta(d: &ReportFlagDeltaV1) -> (r: ReportFlagDeltaV1)
    ensures
        flag_delta_view(r) == flag_delta_view(*d),
{
    ReportFlagDeltaV1 {
        path: copy_texts(&d.path),
        key: to_owned(d.key.as_str()),
        upstream_available_on: copy_texts(&d.upstream_available_on),
        wrapper_level: copy_opt(&d.wrapper_level),
        note: copy_opt(&d.note),
    }
}

fn copy_arg_delta(d: &ReportArgDeltaV1) -> (r: ReportArgDeltaV1)
    ensures
        arg_delta_view(r) == arg_delta_view(*d),
{
    ReportArgDeltaV1 {
        path: copy_texts(&d.path),
        name: to_owned(d.name.as_str()),
        upstream_available_on: copy_texts(&d.upstream_available_on),
        wrapper_level: copy_opt(&d.wrapper_level),
        note: copy_opt(&d.note),
    }
}

pub open spec fn iu_views(v: Seq<ReportIntentionallyUnsupportedDeltaV1>) -> Seq<IuRow> {
    v.map_values(|d: ReportIntentionallyUnsupportedDeltaV1| iu_row_view(d))
}

/// The intentionally unsupported rows in one list: commands, then flags, then args.
fn iu_list(cmds: &Vec<ReportCommandDeltaV1>, flags: &Vec<ReportFlagDeltaV1>, args: &Vec<ReportArgDeltaV1>) -> (r: Vec<ReportIntentionallyUnsupportedDeltaV1>)
    ensures
        iu_views(r@) == iu_join(command_deltas(cmds@), flag_deltas(flags@), arg_deltas(args@)),
{
    let ghost target = iu_join(command_deltas(cmds@), flag_deltas(flags@), arg_deltas(args@));
    let ghost nc = cmds@.len() as int;
    let ghost nf = flags@.len() as int;
    let mut out: Vec<ReportIntentionallyUnsupportedDeltaV1> = Vec::new();
    let mut i: usize = 0;
    while i < cmds.len()
        invariant
            i <= cmds.len(),
            nc == cmds@.len(),
            target == iu_join(command_deltas(cmds@), flag_deltas(flags@), arg_deltas(args@)),
            target.len() == cmds@.len() + flags@.len() + args@.len(),
            iu_views(out@) == target.subrange(0, i as int),
        decreases cmds.len() - i,
    {
        let d = ReportIntentionallyUnsupportedDeltaV1::Command(copy_command_delta(&cmds[i]));
        let ghost before = iu_views(out@);
        out.push(d);
        assert(target[i as int] == IuRow::Command(command_delta_view(cmds@[i as int])));
        assert(iu_views(out@) =~= before.push(iu_row_view(d)));
        assert(iu_views(out@) =~= target.subrange(0, i + 1));
        i = i + 1;
    }
    let mut j: usize = 0;
    while j < flags.len()
        invariant
            j <= flags.len(),
            nc == cmds@.len(),
            nf == flags@.len(),
            target == iu_join(command_deltas(cmds@), flag_deltas(flags@), arg_deltas(args@)),
            target.len() == cmds@.len() + flags@.len() + args@.len(),
            iu_views(out@) == target.subrange(0, nc + j),
        decreases flags.len() - j,
    {
        let d = ReportIntentionallyUnsupportedDeltaV1::Flag(copy_flag_delta(&flags[j]));
        let ghost before = iu_views(out@);
        out.push(d);
        assert(target[nc + j] == IuRow::Flag(flag_delta_view(flags@[j as int])));
        assert(iu_views(out@) =~= before.push(iu_row_view(d)));
        assert(iu_views(out@) =~= target.subrange(0, nc + j + 1));
        j = j + 1;
    }
    let mut k: usize = 0;
    while k < args.len()
        invariant
            k <= args.len(),
            nc == cmds@.len(),
            nf == flags@.len(),
            target == iu_join(command_deltas(cmds@), flag_deltas(flags@), arg_deltas(args@)),
            target.len() == cmds@.len() + flags@.len() + args@.len(),
            iu_views(out@) == target.subrange(0, nc + nf + k),
        decreases args.len() - k,
    {
        let d = ReportIntentionallyUnsupportedDeltaV1::Arg(copy_arg_delta(&args[k]));
        let ghost before = iu_views(out@);
        out.push(d);
        assert(target[nc + nf + k] == IuRow::Arg(arg_delta_view(args@[k as int])));
        assert(iu_views(out@) =~= before.push(iu_row_view(d)));
        assert(iu_views(out@) =~= target.subrange(0, nc + nf + k + 1));
        k = k + 1;
    }
    assert(target.subrange(0, nc + nf + args@.len()) =~= target);
    out
}

fn commands_unless_empty(v: Vec<ReportCommandDeltaV1>) -> (r: Option<Vec<ReportCommandDeltaV1>>)
    ensures
        opt_commands(r) == unless_empty(command_deltas(v@)),
{
    if v.len() == 0 { None } else { Some(v) }
}

fn flags_unless_empty(v: Vec<ReportFlagDeltaV1>) -> (r: Option<Vec<ReportFlagDeltaV1>>)
    ensures
        opt_flags(r) == unless_empty(flag_deltas(v@)),
{
    if v.len() == 0 { None } else { Some(v) }
}

fn args_unless_empty(v: Vec<ReportArgDeltaV1>) -> (r: Option<Vec<ReportArgDeltaV1>>)
    ensures
        opt_args(r) == unless_empty(arg_deltas(v@)),
{
    if v.len() == 0 { None } else { Some(v) }
}

/// Whether every expected target is one of the report's targets.
fn covers_expected_exec(rt: &Vec<String>, expected: &Vec<String>) -> (r: bool)
    ensures
        r == covers_expected(views(rt@), views(expected@)),
{
    let mut i: usize = 0;
    while i < expected.len()
        invariant
            i <= expected.len(),
            forall|k: int| 0 <= k < i ==> views(rt@).contains(#[trigger] views(expected@)[k]),
        decreases expected.len() - i,
    {
        assert(views(expected@)[i as int] == expected@[i as int]@);
        if !vec_contains(rt, expected[i].as_str()) {
            return false;
        }
        i = i + 1;
    }
    true
}

/// `build_report`: the coverage report of one upstream version against the wrapper, for one
/// filter. Upstream's commands are walked in path order, each with its flags and then its
/// args; a surface the filter does not select is skipped (a command with its flags and args).
/// A selected surface is filed as excluded when the parity exclusions name it, as
/// intentionally unsupported when the wrapper declares it so (with its non-empty note) or when
/// it has no level and inherits an intentionally-unsupported root, and otherwise by the
/// wrapper's level. Excluding a command does not exclude its flags or args: each is judged on
/// its own exclusion and coverage. Then every wrapper surface that the wrapper covers on the
/// report's targets, and that upstream lacks or the filter does not select, is wrapper-only.
/// The upstream commands come in strictly ascending path order with their flags and args by
/// key and name, and the wrapper index in key order (as the maps they are read from keep
/// them), so each list comes out in path order, then key or name order; for the command lists
/// `law_command_lists_follow_path_order` proves it.
pub fn build_report(
    rules: &RulesFile,
    parity_exclusions: Option<&ParityExclusionsIndex>,
    version: &str,
    platform_mode: &str,
    target_triple: Option<&str>,
    filter_mode: FilterMode,
    report_targets: &Vec<String>,
    upstream: &Vec<(Vec<String>, UnionCommandV2)>,
    wrapper: &WrapperCoverageV1,
    wrapper_index: &WrapperIndex,
    iu_facts: &Result<Vec<CommandIuFacts>, String>,
    generated_at: &str,
) -> (r: Result<CoverageReportV1, String>)
    requires
        paths_ascending(upstream@),
        members_ascending(upstream@),
        index_ascending(*wrapper_index),
        iu_facts matches Ok(f) ==> facts_fit(upstream@, f@),
    ensures
        match report_spec(*rules, parity_exclusions, version@, platform_mode@, opt_str(target_triple), filter_mode,
            views(report_targets@), upstream@, *wrapper, *wrapper_index, *iu_facts, generated_at@) {
            Ok(v) => r matches Ok(rep) && rep.view() == v,
            Err(e) => r matches Err(m) && m@ == e,
        },
{
    let facts = match iu_facts {
        Err(e) => return Err(to_owned(e.as_str())),
        Ok(f) => f,
    };
    let is_all = match filter_mode {
        FilterMode::All => true,
        _ => false,
    };
    if is_all && !covers_expected_exec(report_targets, &rules.union.expected_targets)
        && str_eq(rules.report.filter_semantics.when_union_incomplete.all.as_str(), "error") {
        return Err(to_owned("cannot generate platform_filter.mode=all with an incomplete union target set"));
    }
    let acc = match file_report_lists(rules, report_targets, filter_mode, parity_exclusions, wrapper_index, upstream, facts) {
        Err(e) => return Err(e),
        Ok(a) => a,
    };
    let ghost l = acc_view(acc);
    let iu = iu_list(&acc.iu_commands, &acc.iu_flags, &acc.iu_args);
    let intentionally_unsupported = if iu.len() == 0 { None } else { Some(iu) };
    let Acc {
        missing_commands, missing_flags, missing_args, excluded_commands, excluded_flags, excluded_args,
        passthrough_candidates, unsupported, iu_commands: _, iu_flags: _, iu_args: _,
        wrapper_only_commands, wrapper_only_flags, wrapper_only_args,
    } = acc;
    let deltas = ReportDeltasV1 {
        missing_commands,
        missing_flags,
        missing_args,
        excluded_commands: commands_unless_empty(excluded_commands),
        excluded_flags: flags_unless_empty(excluded_flags),
        excluded_args: args_unless_empty(excluded_args),
        passthrough_candidates: commands_unless_empty(passthrough_candidates),
        unsupported: commands_unless_empty(unsupported),
        intentionally_unsupported,
        wrapper_only_commands: commands_unless_empty(wrapper_only_commands),
        wrapper_only_flags: flags_unless_empty(wrapper_only_flags),
        wrapper_only_args: args_unless_empty(wrapper_only_args),
    };
    assert(deltas.view() == deltas_of(l));
    let target = match target_triple {
        Some(t) => Some(to_owned(t)),
        None => None,
    };
    Ok(CoverageReportV1 {
        schema_version: 1,
        generated_at: to_owned(generated_at),
        inputs: ReportInputsV1 {
            upstream: ReportUpstreamInputsV1 {
                semantic_version: to_owned(version),
                mode: to_owned("union"),
                targets: copy_texts(report_targets),
            },
            wrapper: ReportWrapperInputsV1 {
                schema_version: wrapper.schema_version,
                wrapper_version: copy_opt(&wrapper.wrapper_version),
            },
            rules: ReportRulesInputsV1 { rules_schema_version: rules.rules_schema_version },
        },
        platform_filter: PlatformFilterV1 { mode: to_owned(platform_mode), target_triple: target },
        deltas,
    })
}

} // verus!

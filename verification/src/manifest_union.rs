//! The union engine's rules checks, snapshot admission, and flag normalization: what decides
//! which per-target snapshots make up a version's union, and what the union keeps.
use vstd::prelude::*;

use crate::onboard_preview::{debug_quote, debug_string};
use crate::text::{cat2, cat3, is_blank, join, join_text, str_eq, to_owned, trim, trimmed, views};

verus! {

/// Why the union engine stopped.
#[derive(Debug)]
pub enum Error {
    /// A file could not be read; the message is the I/O error's.
    Io(String),
    /// A file is not the JSON it should be; the message is the parser's.
    Json(String),
    Rules(String),
    MissingRoot,
    MissingRequiredSnapshot { target_triple: String, path: String },
    SnapshotToolMismatch { path: String, expected: String, got: String },
    SnapshotVersionMismatch { path: String, expected: String, got: Option<String> },
    SnapshotTargetMismatch { path: String, expected: String, got: String },
}

/// `format!("{:?}", got)` for an optional string.
pub open spec fn debug_option(got: Option<Seq<char>>) -> Seq<char> {
    match got {
        Some(s) => "Some("@ + debug_string(s) + ")"@,
        None => "None"@,
    }
}

impl Error {
    /// The text this error displays as.
    pub open spec fn text(&self) -> Seq<char> {
        match self {
            Error::Io(m) => "I/O error: "@ + m@,
            Error::Json(m) => "failed to parse JSON: "@ + m@,
            Error::Rules(m) => "invalid rules file: "@ + m@,
            Error::MissingRoot => "--root is required (no manifest root default is available for this subcommand)"@,
            Error::MissingRequiredSnapshot { target_triple, path } => "missing required snapshot for target "@
                + target_triple@ + ": "@ + path@,
            Error::SnapshotToolMismatch { path, expected, got } => "snapshot tool mismatch in "@ + path@ + " (expected "@
                + expected@ + ", got "@ + got@ + ")"@,
            Error::SnapshotVersionMismatch { path, expected, got } => "snapshot semantic version mismatch in "@ + path@
                + " (expected "@ + expected@ + ", got "@ + debug_option(match got { Some(g) => Some(g@), None => None })
                + ")"@,
            Error::SnapshotTargetMismatch { path, expected, got } => "snapshot target mismatch in "@ + path@
                + " (filename declares "@ + expected@ + ", binary.target_triple is "@ + got@ + ")"@,
        }
    }

    pub fn message(&self) -> (r: String)
        ensures
            r@ == self.text(),
    {
        match self {
            Error::Io(m) => cat2("I/O error: ", m.as_str()),
            Error::Json(m) => cat2("failed to parse JSON: ", m.as_str()),
            Error::Rules(m) => cat2("invalid rules file: ", m.as_str()),
            Error::MissingRoot => to_owned("--root is required (no manifest root default is available for this subcommand)"),
            Error::MissingRequiredSnapshot { target_triple, path } => {
                let mut r = cat3("missing required snapshot for target ", target_triple.as_str(), ": ");
                r.append(path.as_str());
                r
            },
            Error::SnapshotToolMismatch { path, expected, got } => {
                let mut r = cat3("snapshot tool mismatch in ", path.as_str(), " (expected ");
                r.append(expected.as_str());
                r.append(", got ");
                r.append(got.as_str());
                r.append(")");
                r
            },
            Error::SnapshotVersionMismatch { path, expected, got } => {
                let mut r = cat3("snapshot semantic version mismatch in ", path.as_str(), " (expected ");
                r.append(expected.as_str());
                r.append(", got ");
                match got {
                    Some(g) => {
                        r.append("Some(");
                        let q = debug_quote(g.as_str());
                        r.append(q.as_str());
                        r.append(")");
                    },
                    None => {
                        r.append("None");
                    },
                }
                r.append(")");
                r
            },
            Error::SnapshotTargetMismatch { path, expected, got } => {
                let mut r = cat3("snapshot target mismatch in ", path.as_str(), " (filename declares ");
                r.append(expected.as_str());
                r.append(", binary.target_triple is ");
                r.append(got.as_str());
                r.append(")");
                r
            },
        }
    }
}

/// The manifest root to work on: `--root`, else the subcommand's default, else none at all.
pub fn requested_root(root: Option<String>, default_root: Option<&str>) -> (r: Result<String, Error>)
    ensures
        match root {
            Some(x) => r matches Ok(s) && s@ == x@,
            None => match default_root {
                Some(d) => r matches Ok(s) && s@ == d@,
                None => r matches Err(Error::MissingRoot),
            },
        },
{
    match root {
        Some(x) => Ok(x),
        None => match default_root {
            Some(d) => Ok(to_owned(d)),
            None => Err(Error::MissingRoot),
        },
    }
}

// ---------------------------------------------------------------------------------------------
// Rules the engine supports

/// `RULES.json`'s sorting section.
#[derive(Debug, Clone)]
pub struct RulesSorting {
    pub commands: String,
    pub flags: String,
    pub args: String,
    pub inputs: String,
    pub available_on: String,
    pub conflicts: String,
}

pub open spec fn sorting_entry(field: Seq<char>, value: Seq<char>, supported: Seq<char>) -> Seq<Seq<char>> {
    if value == supported {
        Seq::empty()
    } else {
        seq!["sorting."@ + field + "="@ + value]
    }
}

/// Each sorting rule the engine does not implement, as `sorting.<field>=<value>`, in field order.
pub open spec fn unsupported_sorting(s: RulesSorting) -> Seq<Seq<char>> {
    sorting_entry("commands"@, s.commands@, "lexicographic_path"@)
        + sorting_entry("flags"@, s.flags@, "by_key_then_long_then_short"@)
        + sorting_entry("args"@, s.args@, "by_name"@)
        + sorting_entry("inputs"@, s.inputs@, "rules_expected_targets_order"@)
        + sorting_entry("available_on"@, s.available_on@, "rules_expected_targets_order"@)
        + sorting_entry("conflicts"@, s.conflicts@, "by_unit_then_path_then_key_or_name_then_field"@)
}

fn note_sorting(out: &mut Vec<String>, field: &str, value: &str, supported: &str)
    ensures
        views(final(out)@) == views(old(out)@) + sorting_entry(field@, value@, supported@),
{
    if !str_eq(value, supported) {
        let ghost before = views(out@);
        let mut e = cat3("sorting.", field, "=");
        e.append(value);
        out.push(e);
        assert(views(out@) =~= before + sorting_entry(field@, value@, supported@));
    } else {
        assert(views(out@) =~= views(out@) + sorting_entry(field@, value@, supported@));
    }
}

/// The engine sorts one way only; any other sorting rule is refused, all of them named.
pub fn assert_supported_sorting(sorting: &RulesSorting) -> (r: Result<(), Error>)
    ensures
        unsupported_sorting(*sorting).len() == 0 ==> r is Ok,
        unsupported_sorting(*sorting).len() > 0 ==> (r matches Err(Error::Rules(m))
            && m@ == "unsupported sorting rules: "@ + join(unsupported_sorting(*sorting), ", "@)),
{
    let mut unsupported: Vec<String> = Vec::new();
    assert(views(unsupported@) =~= Seq::<Seq<char>>::empty());
    note_sorting(&mut unsupported, "commands", sorting.commands.as_str(), "lexicographic_path");
    note_sorting(&mut unsupported, "flags", sorting.flags.as_str(), "by_key_then_long_then_short");
    note_sorting(&mut unsupported, "args", sorting.args.as_str(), "by_name");
    note_sorting(&mut unsupported, "inputs", sorting.inputs.as_str(), "rules_expected_targets_order");
    note_sorting(&mut unsupported, "available_on", sorting.available_on.as_str(), "rules_expected_targets_order");
    note_sorting(&mut unsupported, "conflicts", sorting.conflicts.as_str(), "by_unit_then_path_then_key_or_name_then_field");
    assert(views(unsupported@) =~= unsupported_sorting(*sorting));
    if unsupported.len() == 0 {
        Ok(())
    } else {
        let joined = join_text(&unsupported, ", ");
        Err(Error::Rules(cat2("unsupported sorting rules: ", joined.as_str())))
    }
}

/// `RULES.json`'s effective-flags model, as the union engine reads it.
#[derive(Debug, Clone, Default)]
pub struct RulesEffectiveFlagsModel {
    pub enabled: bool,
    pub dedupe_per_command_flags_against_root: bool,
    pub dedupe_key: String,
}

pub open spec fn dedupes_against_root(m: RulesEffectiveFlagsModel) -> bool {
    m.enabled && m.dedupe_per_command_flags_against_root
}

/// When per-command flags are deduplicated against the root, the key must be `flag_key` (or
/// left blank).
pub fn assert_supported_globals(model: &RulesEffectiveFlagsModel) -> (r: Result<(), Error>)
    ensures
        !dedupes_against_root(*model) ==> r is Ok,
        dedupes_against_root(*model) ==> {
            let key = trim(model.dedupe_key@);
            if key.len() == 0 || key == "flag_key"@ {
                r is Ok
            } else {
                r matches Err(Error::Rules(m))
                    && m@ == "unsupported globals.effective_flags_model.union_normalization.dedupe_key="@ + key
            }
        },
{
    if !model.enabled || !model.dedupe_per_command_flags_against_root {
        return Ok(());
    }
    let key = trimmed(model.dedupe_key.as_str());
    if key.as_str().unicode_len() == 0 || str_eq(key.as_str(), "flag_key") {
        Ok(())
    } else {
        Err(Error::Rules(cat2("unsupported globals.effective_flags_model.union_normalization.dedupe_key=", key.as_str())))
    }
}

// ---------------------------------------------------------------------------------------------
// Snapshot admission

/// What a per-target snapshot says about itself.
#[derive(Debug, Clone)]
pub struct SnapshotIdentity {
    pub tool: String,
    pub semantic_version: Option<String>,
    pub target_triple: String,
}

/// A per-target snapshot as found: its path, and `None` when it is not a file, else the
/// snapshot's identity or the error reading it gave.
pub type FoundSnapshot = (String, Option<Result<SnapshotIdentity, Error>>);

pub open spec fn opt_text(o: Option<String>) -> Option<Seq<char>> {
    match o {
        Some(s) => Some(s@),
        None => None,
    }
}

/// Why snapshot `i` cannot join the union, if it cannot.
pub open spec fn snapshot_problem(expected: Seq<char>, tool: Seq<char>, version: Seq<char>, f: FoundSnapshot) -> Option<Seq<char>> {
    match f.1 {
        None => None,
        Some(Err(e)) => Some(e.text()),
        Some(Ok(s)) => if s.tool@ != tool {
            Some("snapshot tool mismatch in "@ + f.0@ + " (expected "@ + tool + ", got "@ + s.tool@ + ")"@)
        } else if opt_text(s.semantic_version) != Some(version) {
            Some("snapshot semantic version mismatch in "@ + f.0@ + " (expected "@ + version + ", got "@
                + debug_option(opt_text(s.semantic_version)) + ")"@)
        } else if s.target_triple@ != expected {
            Some("snapshot target mismatch in "@ + f.0@ + " (filename declares "@ + expected + ", binary.target_triple is "@
                + s.target_triple@ + ")"@)
        } else {
            None
        },
    }
}

/// The first snapshot, in expected-target order, that cannot join the union.
pub open spec fn first_problem(expected: Seq<Seq<char>>, tool: Seq<char>, version: Seq<char>, found: Seq<FoundSnapshot>, n: int) -> Option<Seq<char>>
    decreases n,
{
    if n <= 0 {
        None
    } else {
        match first_problem(expected, tool, version, found, n - 1) {
            Some(e) => Some(e),
            None => snapshot_problem(expected[n - 1], tool, version, found[n - 1]),
        }
    }
}

proof fn lemma_first_problem_stays(expected: Seq<Seq<char>>, tool: Seq<char>, version: Seq<char>, found: Seq<FoundSnapshot>, i: int, n: int)
    requires
        0 <= i <= n,
        first_problem(expected, tool, version, found, i) is Some,
    ensures
        first_problem(expected, tool, version, found, n) == first_problem(expected, tool, version, found, i),
    decreases n - i,
{
    if n > i {
        lemma_first_problem_stays(expected, tool, version, found, i, n - 1);
    }
}

/// Whether some snapshot of target `t` was admitted.
pub open spec fn admitted(expected: Seq<Seq<char>>, found: Seq<FoundSnapshot>, t: Seq<char>) -> bool {
    exists|j: int| 0 <= j < expected.len() && expected[j] == t && (#[trigger] found[j]).1 is Some
}

/// Which snapshots make up the union: the expected targets that have one, and those that do not.
#[derive(Debug, Clone)]
pub struct SnapshotSelection {
    pub present_targets: Vec<String>,
    pub missing_targets: Vec<String>,
    pub complete: bool,
}

pub open spec fn present_of(expected: Seq<Seq<char>>, found: Seq<FoundSnapshot>) -> Seq<Seq<char>> {
    expected.filter(|t: Seq<char>| admitted(expected, found, t))
}

pub open spec fn missing_of(expected: Seq<Seq<char>>, found: Seq<FoundSnapshot>) -> Seq<Seq<char>> {
    expected.filter(|t: Seq<char>| !admitted(expected, found, t))
}

fn target_admitted(expected: &Vec<String>, flags: &Vec<bool>, found: Ghost<Seq<FoundSnapshot>>, t: &str) -> (r: bool)
    requires
        flags.len() == expected.len(),
        found@.len() == expected.len(),
        forall|k: int| 0 <= k < flags.len() ==> flags@[k] == (#[trigger] found@[k]).1 is Some,
    ensures
        r == admitted(views(expected@), found@, t@),
{
    let mut j: usize = 0;
    while j < expected.len()
        invariant
            flags.len() == expected.len(),
            found@.len() == expected.len(),
            forall|k: int| 0 <= k < flags.len() ==> flags@[k] == (#[trigger] found@[k]).1 is Some,
            j <= expected.len(),
            forall|k: int| 0 <= k < j ==> !(views(expected@)[k] == t@ && (#[trigger] found@[k]).1 is Some),
        decreases expected.len() - j,
    {
        assert(views(expected@)[j as int] == expected@[j as int]@);
        assert(flags@[j as int] == found@[j as int].1 is Some);
        if str_eq(expected[j].as_str(), t) && flags[j] {
            return true;
        }
        j = j + 1;
    }
    false
}

/// Admit the per-target snapshots found for `version`: the first one whose read failed, or
/// whose tool, version or target is not what its file name and the rules say, refuses the
/// union; so does a missing snapshot for the required target. Otherwise the expected targets
/// split into those with a snapshot and those without, each in expected order.
pub fn admit_snapshots(
    expected_targets: &Vec<String>,
    required_target: &str,
    required_path: &str,
    tool_name: &str,
    version: &str,
    found: Vec<FoundSnapshot>,
) -> (r: Result<SnapshotSelection, Error>)
    requires
        found.len() == expected_targets.len(),
    ensures
        match first_problem(views(expected_targets@), tool_name@, version@, found@, found.len() as int) {
            Some(e) => r matches Err(x) && x.text() == e,
            None => if !admitted(views(expected_targets@), found@, required_target@) {
                r matches Err(x) && x.text() == "missing required snapshot for target "@ + required_target@ + ": "@ + required_path@
            } else {
                r matches Ok(sel) && {
                    &&& views(sel.present_targets@) == present_of(views(expected_targets@), found@)
                    &&& views(sel.missing_targets@) == missing_of(views(expected_targets@), found@)
                    &&& sel.complete == (sel.present_targets.len() == expected_targets.len())
                }
            },
        },
{
    let ghost ev = views(expected_targets@);
    let ghost fv = found@;
    let mut rest = found;
    let mut flags: Vec<bool> = Vec::new();
    let mut i: usize = 0;
    assert(fv.subrange(0, fv.len() as int) =~= fv);
    while rest.len() > 0
        invariant
            i <= fv.len(),
            rest@ == fv.subrange(i as int, fv.len() as int),
            fv == found@,
            fv.len() == expected_targets.len(),
            ev == views(expected_targets@),
            flags.len() == i,
            forall|k: int| 0 <= k < i ==> flags@[k] == (#[trigger] fv[k]).1 is Some,
            first_problem(ev, tool_name@, version@, fv, i as int) is None,
        decreases rest.len(),
    {
        assert(rest@[0] == fv[i as int]);
        assert(rest@.subrange(1, rest@.len() as int) =~= fv.subrange(i + 1, fv.len() as int));
        let entry = rest.remove(0);
        let expected = expected_targets[i].as_str();
        assert(ev[i as int] == expected@);
        let (path, snapshot) = entry;
        proof {
            if snapshot_problem(ev[i as int], tool_name@, version@, fv[i as int]) is Some {
                lemma_first_problem_stays(ev, tool_name@, version@, fv, i + 1, fv.len() as int);
            }
        }
        match snapshot {
            None => {
                flags.push(false);
            },
            Some(Err(e)) => {
                assert(fv[i as int].1 == Some(Err::<SnapshotIdentity, Error>(e)));
                assert(snapshot_problem(ev[i as int], tool_name@, version@, fv[i as int]) == Some(e.text()));
                assert(first_problem(ev, tool_name@, version@, fv, i + 1) == Some(e.text()));
                proof {
                    lemma_first_problem_stays(ev, tool_name@, version@, fv, i + 1, fv.len() as int);
                }
                return Err(e);
            },
            Some(Ok(s)) => {
                if !str_eq(s.tool.as_str(), tool_name) {
                    return Err(Error::SnapshotToolMismatch { path, expected: to_owned(tool_name), got: s.tool });
                }
                let version_matches = match &s.semantic_version {
                    Some(v) => str_eq(v.as_str(), version),
                    None => false,
                };
                if !version_matches {
                    return Err(Error::SnapshotVersionMismatch { path, expected: to_owned(version), got: s.semantic_version });
                }
                if !str_eq(s.target_triple.as_str(), expected) {
                    return Err(Error::SnapshotTargetMismatch { path, expected: to_owned(expected), got: s.target_triple });
                }
                flags.push(true);
            },
        }
        i = i + 1;
    }
    let ghost g = Ghost(fv);
    if !target_admitted(expected_targets, &flags, Ghost(fv), required_target) {
        return Err(Error::MissingRequiredSnapshot { target_triple: to_owned(required_target), path: to_owned(required_path) });
    }
    let mut present: Vec<String> = Vec::new();
    let mut missing: Vec<String> = Vec::new();
    let mut k: usize = 0;
    assert(ev.subrange(0, 0) =~= Seq::<Seq<char>>::empty());
    while k < expected_targets.len()
        invariant
            k <= expected_targets.len(),
            flags.len() == expected_targets.len(),
            fv.len() == expected_targets.len(),
            forall|j: int| 0 <= j < flags.len() ==> flags@[j] == (#[trigger] fv[j]).1 is Some,
            ev == views(expected_targets@),
            views(present@) == ev.subrange(0, k as int).filter(|t: Seq<char>| admitted(ev, fv, t)),
            views(missing@) == ev.subrange(0, k as int).filter(|t: Seq<char>| !admitted(ev, fv, t)),
        decreases expected_targets.len() - k,
    {
        let t = expected_targets[k].as_str();
        let yes = target_admitted(expected_targets, &flags, Ghost(fv), t);
        proof {
            reveal(Seq::filter);
            assert(ev.subrange(0, k + 1).drop_last() =~= ev.subrange(0, k as int));
            assert(ev.subrange(0, k + 1).last() == t@);
        }
        if yes {
            let ghost before = views(present@);
            present.push(to_owned(t));
            assert(views(present@) =~= before.push(t@));
        } else {
            let ghost before = views(missing@);
            missing.push(to_owned(t));
            assert(views(missing@) =~= before.push(t@));
        }
        k = k + 1;
    }
    assert(ev.subrange(0, expected_targets.len() as int) =~= ev);
    let complete = present.len() == expected_targets.len();
    Ok(SnapshotSelection { present_targets: present, missing_targets: missing, complete })
}

// ---------------------------------------------------------------------------------------------
// Flag normalization

/// A union flag, as normalization reads it: by its key.
#[derive(Debug, Clone)]
pub struct UnionFlag {
    pub key: String,
}

/// A union conflict record, as normalization reads it.
#[derive(Debug, Clone)]
pub struct UnionConflict {
    pub unit: String,
    pub path: Vec<String>,
    pub key: Option<String>,
}

/// A union command, as normalization reads it: its path, flags and conflicts.
#[derive(Debug, Clone)]
pub struct UnionCommand {
    pub path: Vec<String>,
    pub flags: Option<Vec<UnionFlag>>,
    pub conflicts: Option<Vec<UnionConflict>>,
}

pub type ConflictView = (Seq<char>, Seq<Seq<char>>, Option<Seq<char>>);

pub type CommandView = (Seq<Seq<char>>, Option<Seq<Seq<char>>>, Option<Seq<ConflictView>>);

pub open spec fn flag_keys(flags: Seq<UnionFlag>) -> Seq<Seq<char>> {
    flags.map_values(|f: UnionFlag| f.key@)
}

pub open spec fn conflict_view(c: UnionConflict) -> ConflictView {
    (c.unit@, views(c.path@), opt_text(c.key))
}

pub open spec fn command_view(c: UnionCommand) -> CommandView {
    (
        views(c.path@),
        match c.flags { Some(f) => Some(flag_keys(f@)), None => None },
        match c.conflicts { Some(cs) => Some(cs@.map_values(|x: UnionConflict| conflict_view(x))), None => None },
    )
}

pub open spec fn commands_view(cs: Seq<UnionCommand>) -> Seq<CommandView> {
    cs.map_values(|c: UnionCommand| command_view(c))
}

/// The flag keys of the first root command (the one with an empty path), if any.
pub open spec fn root_flag_keys(cs: Seq<CommandView>) -> Seq<Seq<char>>
    decreases cs.len(),
{
    if cs.len() == 0 {
        Seq::empty()
    } else if cs[0].0.len() == 0 {
        match cs[0].1 {
            Some(keys) => keys,
            None => Seq::empty(),
        }
    } else {
        root_flag_keys(cs.drop_first())
    }
}

/// A conflict survives unless it is a flag conflict of this very command on a root flag key.
pub open spec fn conflict_kept(c: ConflictView, path: Seq<Seq<char>>, root: Seq<Seq<char>>) -> bool {
    !(c.0 == "flag"@ && c.1 == path && c.2 is Some && root.contains(c.2->0))
}

pub open spec fn none_if_empty<T>(s: Seq<T>) -> Option<Seq<T>> {
    if s.len() == 0 {
        None
    } else {
        Some(s)
    }
}

/// A command after its flags are deduplicated against the root's: root flag keys and the
/// conflicts about them leave non-root commands, and an emptied list becomes absent.
pub open spec fn normalized(c: CommandView, root: Seq<Seq<char>>) -> CommandView {
    if c.0.len() == 0 {
        c
    } else {
        (
            c.0,
            match c.1 {
                Some(keys) => none_if_empty(keys.filter(|k: Seq<char>| !root.contains(k))),
                None => None,
            },
            match c.2 {
                Some(cs) => none_if_empty(cs.filter(|x: ConflictView| conflict_kept(x, c.0, root))),
                None => None,
            },
        )
    }
}

/// What normalization makes of the union's commands.
pub open spec fn normalized_commands(cs: Seq<CommandView>, model: RulesEffectiveFlagsModel) -> Seq<CommandView> {
    let root = root_flag_keys(cs);
    if !dedupes_against_root(model) || root.len() == 0 {
        cs
    } else {
        cs.map_values(|c: CommandView| normalized(c, root))
    }
}

fn find_root_keys(commands: &Vec<UnionCommand>) -> (r: Vec<String>)
    ensures
        views(r@) == root_flag_keys(commands_view(commands@)),
{
    let ghost cv = commands_view(commands@);
    let mut i: usize = 0;
    proof {
        assert(cv.subrange(0, cv.len() as int) =~= cv);
    }
    while i < commands.len()
        invariant
            i <= commands.len(),
            cv == commands_view(commands@),
            cv.len() == commands.len(),
            root_flag_keys(cv) == root_flag_keys(cv.subrange(i as int, cv.len() as int)),
        decreases commands.len() - i,
    {
        let ghost rest = cv.subrange(i as int, cv.len() as int);
        assert(rest[0] == command_view(commands@[i as int]));
        assert(rest.drop_first() =~= cv.subrange(i + 1, cv.len() as int));
        if commands[i].path.len() == 0 {
            let mut keys: Vec<String> = Vec::new();
            match &commands[i].flags {
                Some(flags) => {
                    let mut j: usize = 0;
                    while j < flags.len()
                        invariant
                            j <= flags.len(),
                            views(keys@) == flag_keys(flags@).subrange(0, j as int),
                        decreases flags.len() - j,
                    {
                        let ghost before = views(keys@);
                        keys.push(to_owned(flags[j].key.as_str()));
                        assert(flag_keys(flags@)[j as int] == flags@[j as int].key@);
                        assert(views(keys@) =~= before.push(flags@[j as int].key@));
                        assert(views(keys@) =~= flag_keys(flags@).subrange(0, j + 1));
                        j = j + 1;
                    }
                    assert(flag_keys(flags@).subrange(0, flags.len() as int) =~= flag_keys(flags@));
                },
                None => {},
            }
            return keys;
        }
        i = i + 1;
    }
    Vec::new()
}

fn key_listed(keys: &Vec<String>, k: &str) -> (r: bool)
    ensures
        r == views(keys@).contains(k@),
{
    let mut j: usize = 0;
    while j < keys.len()
        invariant
            j <= keys.len(),
            forall|m: int| 0 <= m < j ==> keys@[m]@ != k@,
        decreases keys.len() - j,
    {
        if str_eq(keys[j].as_str(), k) {
            assert(views(keys@)[j as int] == k@);
            return true;
        }
        j = j + 1;
    }
    proof {
        if views(keys@).contains(k@) {
            let m = choose|m: int| 0 <= m < views(keys@).len() && views(keys@)[m] == k@;
            assert(keys@[m]@ == k@);
        }
    }
    false
}

fn same_path(a: &Vec<String>, b: &Vec<String>) -> (r: bool)
    ensures
        r == (views(a@) == views(b@)),
{
    if a.len() != b.len() {
        assert(views(a@).len() != views(b@).len());
        return false;
    }
    let mut i: usize = 0;
    while i < a.len()
        invariant
            a.len() == b.len(),
            i <= a.len(),
            forall|k: int| 0 <= k < i ==> #[trigger] a@[k]@ == b@[k]@,
        decreases a.len() - i,
    {
        if !str_eq(a[i].as_str(), b[i].as_str()) {
            assert(views(a@)[i as int] != views(b@)[i as int]);
            return false;
        }
        i = i + 1;
    }
    assert(views(a@) =~= views(b@));
    true
}

fn normalize_command(cmd: UnionCommand, root: &Vec<String>) -> (r: UnionCommand)
    ensures
        command_view(r) == normalized(command_view(cmd), views(root@)),
{
    if cmd.path.len() == 0 {
        return cmd;
    }
    let ghost rv = views(root@);
    let UnionCommand { path, flags, conflicts } = cmd;
    let new_flags = match flags {
        None => None,
        Some(fs) => {
            let mut kept: Vec<UnionFlag> = Vec::new();
            let mut i: usize = 0;
            while i < fs.len()
                invariant
                    i <= fs.len(),
                    rv == views(root@),
                    flag_keys(kept@) == flag_keys(fs@).subrange(0, i as int).filter(|k: Seq<char>| !rv.contains(k)),
                decreases fs.len() - i,
            {
                proof {
                    reveal(Seq::filter);
                    assert(flag_keys(fs@).subrange(0, i + 1).drop_last() =~= flag_keys(fs@).subrange(0, i as int));
                    assert(flag_keys(fs@).subrange(0, i + 1).last() == fs@[i as int].key@);
                }
                if !key_listed(root, fs[i].key.as_str()) {
                    let ghost before = flag_keys(kept@);
                    kept.push(UnionFlag { key: to_owned(fs[i].key.as_str()) });
                    assert(flag_keys(kept@) =~= before.push(fs@[i as int].key@));
                }
                i = i + 1;
            }
            assert(flag_keys(fs@).subrange(0, fs.len() as int) =~= flag_keys(fs@));
            if kept.len() == 0 {
                None
            } else {
                Some(kept)
            }
        },
    };
    let new_conflicts = match conflicts {
        None => None,
        Some(cs) => {
            let ghost pv = views(path@);
            let ghost cvs = cs@.map_values(|x: UnionConflict| conflict_view(x));
            let mut kept: Vec<UnionConflict> = Vec::new();
            let mut i: usize = 0;
            while i < cs.len()
                invariant
                    i <= cs.len(),
                    rv == views(root@),
                    pv == views(path@),
                    cvs == cs@.map_values(|x: UnionConflict| conflict_view(x)),
                    kept@.map_values(|x: UnionConflict| conflict_view(x)) == cvs.subrange(0, i as int).filter(|x: ConflictView| conflict_kept(x, pv, rv)),
                decreases cs.len() - i,
            {
                proof {
                    reveal(Seq::filter);
                    assert(cvs.subrange(0, i + 1).drop_last() =~= cvs.subrange(0, i as int));
                    assert(cvs.subrange(0, i + 1).last() == conflict_view(cs@[i as int]));
                }
                let c = &cs[i];
                let dropped = str_eq(c.unit.as_str(), "flag") && same_path(&c.path, &path) && match &c.key {
                    Some(k) => key_listed(root, k.as_str()),
                    None => false,
                };
                if !dropped {
                    let ghost before = kept@.map_values(|x: UnionConflict| conflict_view(x));
                    let copy = UnionConflict {
                        unit: to_owned(c.unit.as_str()),
                        path: copy_strings(&c.path),
                        key: match &c.key { Some(k) => Some(to_owned(k.as_str())), None => None },
                    };
                    kept.push(copy);
                    assert(kept@.map_values(|x: UnionConflict| conflict_view(x)) =~= before.push(conflict_view(cs@[i as int])));
                }
                i = i + 1;
            }
            assert(cvs.subrange(0, cs.len() as int) =~= cvs);
            if kept.len() == 0 {
                None
            } else {
                Some(kept)
            }
        },
    };
    UnionCommand { path, flags: new_flags, conflicts: new_conflicts }
}

fn copy_strings(v: &Vec<String>) -> (r: Vec<String>)
    ensures
        views(r@) == views(v@),
{
    let mut out: Vec<String> = Vec::new();
    let mut i: usize = 0;
    while i < v.len()
        invariant
            i <= v.len(),
            views(out@) == views(v@).subrange(0, i as int),
        decreases v.len() - i,
    {
        let ghost before = views(out@);
        out.push(to_owned(v[i].as_str()));
        assert(views(v@)[i as int] == v@[i as int]@);
        assert(views(out@) =~= before.push(v@[i as int]@));
        assert(views(out@) =~= views(v@).subrange(0, i + 1));
        i = i + 1;
    }
    assert(views(v@).subrange(0, v.len() as int) =~= views(v@));
    out
}

/// Deduplicate per-command flags against the root command's when the rules ask for it.
pub fn normalize_union_commands(commands: &mut Vec<UnionCommand>, model: &RulesEffectiveFlagsModel)
    ensures
        commands_view(final(commands)@) == normalized_commands(commands_view(old(commands)@), *model),
{
    if !model.enabled || !model.dedupe_per_command_flags_against_root {
        return;
    }
    let root = find_root_keys(commands);
    if root.len() == 0 {
        return;
    }
    let ghost cv = commands_view(commands@);
    let mut rest: Vec<UnionCommand> = Vec::new();
    std::mem::swap(&mut rest, commands);
    let ghost all = rest@;
    let total = rest.len();
    assert(all.len() == total);
    let mut out: Vec<UnionCommand> = Vec::new();
    let mut i: usize = 0;
    assert(all.subrange(0, all.len() as int) =~= all);
    while rest.len() > 0
        invariant
            i <= all.len(),
            rest@ == all.subrange(i as int, all.len() as int),
            rest@.len() + i == all.len(),
            all.len() <= usize::MAX,
            cv == commands_view(all),
            views(root@) == root_flag_keys(cv),
            commands_view(out@) == commands_view(all.subrange(0, i as int)).map_values(|c: CommandView| normalized(c, views(root@))),
        decreases rest.len(),
    {
        assert(rest@[0] == all[i as int]);
        assert(rest@.subrange(1, rest@.len() as int) =~= all.subrange(i + 1, all.len() as int));
        let cmd = rest.remove(0);
        let n = normalize_command(cmd, &root);
        let ghost before = out@;
        out.push(n);
        proof {
            assert(commands_view(out@) =~= commands_view(before).push(command_view(n)));
            assert(commands_view(all.subrange(0, i + 1)) =~= commands_view(all.subrange(0, i as int)).push(command_view(all[i as int])));
            assert(commands_view(all.subrange(0, i + 1)).map_values(|c: CommandView| normalized(c, views(root@))) =~= commands_view(all.subrange(0, i as int)).map_values(|c: CommandView| normalized(c, views(root@))).push(normalized(command_view(all[i as int]), views(root@))));
        }
        i = i + 1;
    }
    assert(all.subrange(0, all.len() as int) =~= all);
    *commands = out;
}

} // verus!

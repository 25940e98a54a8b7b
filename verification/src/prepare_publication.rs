//! Publication preparation: judging the runtime-follow-on evidence runs that stand behind an
//! approved agent.
use vstd::prelude::*;

use crate::approval_artifact::ApprovalArtifact;
use crate::strset::{ascending, lemma_lex_asymmetric, lemma_lex_irreflexive, lemma_lex_total, lemma_lex_transitive, lex_lt, set_insert, text_lt};
use crate::text::{blank, cat2, cat3, is_blank, str_eq, to_owned, trim, views};

verus! {

pub const RUNTIME_RUNS_ROOT: &'static str = "docs/agents/.uaa-temp/runtime-follow-on/runs";

/// The files every runtime evidence run must hold, in the order they are reported.
pub open spec fn required_runtime_files() -> Seq<Seq<char>> {
    seq![
        "input-contract.json"@,
        "run-status.json"@,
        "run-summary.md"@,
        "validation-report.json"@,
        "written-paths.json"@,
        "handoff.json"@,
    ]
}

pub fn required_runtime_evidence_files() -> (r: [&'static str; 6])
    ensures
        r@.map_values(|s: &'static str| s@) == required_runtime_files(),
{
    let r = [
        "input-contract.json",
        "run-status.json",
        "run-summary.md",
        "validation-report.json",
        "written-paths.json",
        "handoff.json",
    ];
    assert(r@.map_values(|s: &'static str| s@) =~= required_runtime_files());
    r
}

/// Why publication preparation stopped.
#[derive(Debug)]
pub enum Error {
    Validation(String),
    Internal(String),
}

impl Error {
    pub open spec fn text(&self) -> Seq<char> {
        match self {
            Error::Validation(m) => m@,
            Error::Internal(m) => m@,
        }
    }

    /// The process exit code: 2 for a validation failure, 1 for an internal one.
    pub fn exit_code(&self) -> (r: i32)
        ensures
            r == (if self is Validation { 2i32 } else { 1i32 }),
    {
        match self {
            Error::Validation(_) => 2,
            Error::Internal(_) => 1,
        }
    }

    /// The text this error displays as.
    pub fn message(&self) -> (r: String)
        ensures
            r@ == self.text(),
    {
        match self {
            Error::Validation(m) => to_owned(m.as_str()),
            Error::Internal(m) => to_owned(m.as_str()),
        }
    }
}

/// `runtime input-contract.json`.
#[derive(Debug, Clone)]
pub struct RuntimeInputContract {
    pub approval_artifact_path: String,
    pub approval_artifact_sha256: String,
    pub agent_id: String,
    pub manifest_root: String,
    pub required_handoff_commands: Vec<String>,
}

/// `run-status.json`.
#[derive(Debug, Clone)]
pub struct RuntimeRunStatus {
    pub approval_artifact_path: String,
    pub agent_id: String,
    pub status: String,
    pub validation_passed: bool,
    pub handoff_ready: bool,
    pub run_dir: String,
}

/// `validation-report.json`.
#[derive(Debug, Clone)]
pub struct RuntimeValidationReport {
    pub status: String,
}

/// `handoff.json`.
#[derive(Debug, Clone)]
pub struct RuntimeHandoff {
    pub agent_id: String,
    pub manifest_root: String,
    pub runtime_lane_complete: bool,
    pub publication_refresh_required: bool,
    pub required_commands: Vec<String>,
    pub blockers: Vec<String>,
}

/// The runtime evidence run that backs a publication: its id and its evidence files.
#[derive(Debug, Clone)]
pub struct RuntimeEvidenceBundle {
    pub run_id: String,
    pub runtime_evidence_paths: Vec<String>,
}

/// A run directory as it was read: each file's content, or the message its read or parse gave.
/// `run_status` is `None` when `run-status.json` is not a file; `present` says, for each of the
/// required evidence files in order, whether it is a file.
pub struct RuntimeRunFiles {
    pub run_status: Option<Result<RuntimeRunStatus, String>>,
    pub input_contract: Result<RuntimeInputContract, String>,
    pub validation_report: Result<RuntimeValidationReport, String>,
    pub handoff: Result<RuntimeHandoff, String>,
    pub written_paths: Result<Vec<String>, String>,
    pub run_summary: Result<String, String>,
    pub present: Vec<bool>,
}

/// The refusal for a run that exists but cannot back the approval, with the repair commands.
pub open spec fn stale_message(approval_path: Seq<char>, run_id: Seq<char>, detail: Seq<char>) -> Seq<char> {
    "runtime evidence run `"@ + run_id + "` "@ + detail
        + "; rerun `cargo run -p xtask -- repair-runtime-evidence --approval "@ + approval_path
        + " --check` to inspect or `cargo run -p xtask -- repair-runtime-evidence --approval "@ + approval_path
        + " --write` to repair the runtime evidence bundle"@
}

fn stale_runtime_evidence_error(approval: &ApprovalArtifact, run_id: &str, detail: &str) -> (r: Error)
    ensures
        r == Error::Validation(r->Validation_0),
        r->Validation_0@ == stale_message(approval.relative_path@, run_id@, detail@),
{
    let rel = approval.relative_path.as_str();
    let mut m = cat3("runtime evidence run `", run_id, "` ");
    m.append(detail);
    m.append("; rerun `cargo run -p xtask -- repair-runtime-evidence --approval ");
    m.append(rel);
    m.append(" --check` to inspect or `cargo run -p xtask -- repair-runtime-evidence --approval ");
    m.append(rel);
    m.append(" --write` to repair the runtime evidence bundle");
    Error::Validation(m)
}

pub open spec fn commands_message(field: Seq<char>) -> Seq<char> {
    field + " must match the frozen publication command set exactly"@
}

fn same_strings(a: &Vec<String>, b: &Vec<String>) -> (r: bool)
    ensures
        r == (views(a@) == views(b@)),
{
    if a.len() != b.len() {
        assert(views(a@).len() != views(b@).len());
        return false;
    }
    let mut i: usize = 0;
    while i < a.len()
        invariant
            a.len() == b.len(),
            i <= a.len(),
            forall|k: int| 0 <= k < i ==> #[trigger] a@[k]@ == b@[k]@,
        decreases a.len() - i,
    {
        if !str_eq(a[i].as_str(), b[i].as_str()) {
            assert(views(a@)[i as int] != views(b@)[i as int]);
            return false;
        }
        i = i + 1;
    }
    assert(views(a@) =~= views(b@));
    true
}

/// A recorded command list must be the frozen publication command set, entry for entry.
pub fn validate_required_commands(field: &str, commands: &Vec<String>, expected: &Vec<String>) -> (r: Result<(), Error>)
    ensures
        views(commands@) == views(expected@) ==> r is Ok,
        views(commands@) != views(expected@) ==> (r matches Err(Error::Validation(m)) && m@ == commands_message(field@)),
{
    if same_strings(commands, expected) {
        Ok(())
    } else {
        Err(Error::Validation(cat2(field, " must match the frozen publication command set exactly")))
    }
}

/// The evidence paths of a run: each required file under the run's repo-relative root.
pub open spec fn evidence_paths(run_id: Seq<char>) -> Seq<Seq<char>> {
    required_runtime_files().map_values(|name: Seq<char>| RUNTIME_RUNS_ROOT@ + "/"@ + run_id + "/"@ + name)
}

/// The first required file, from index `k` on, that the run lacks.
pub open spec fn absent_from(present: Seq<bool>, k: int) -> Option<int>
    decreases 6 - k,
{
    if k >= 6 || k < 0 {
        None
    } else if !(k < present.len() && present[k]) {
        Some(k)
    } else {
        absent_from(present, k + 1)
    }
}

/// The first required file the run lacks.
pub open spec fn first_absent(present: Seq<bool>) -> Option<int> {
    absent_from(present, 0)
}

/// How a run is judged, in the order the checks are made: `Ok(None)` for a run that does not
/// belong to this approval, `Ok(Some(paths))` for a usable run, or the refusal's text.
pub open spec fn run_verdict(
    approval: ApprovalArtifact,
    run_id: Seq<char>,
    run_root: Seq<char>,
    required: Seq<Seq<char>>,
    f: RuntimeRunFiles,
) -> Result<Option<Seq<Seq<char>>>, Seq<char>> {
    let rel = approval.relative_path@;
    let agent = approval.descriptor.agent_id@;
    let root = approval.descriptor.manifest_root@;
    let stale = |d: Seq<char>| stale_message(rel, run_id, d);
    match f.run_status {
        None => Ok(None),
        Some(Err(e)) => Err(e@),
        Some(Ok(s)) => if s.approval_artifact_path@ != rel || s.agent_id@ != agent {
            Ok(None)
        } else if s.status@ != "write_validated"@ || !s.validation_passed || !s.handoff_ready {
            Err(stale("is not a validated runtime handoff"@))
        } else if s.run_dir@ != run_root {
            Err(stale("recorded run_dir `"@ + s.run_dir@ + "` but expected `"@ + run_root + "`"@))
        } else {
            match f.input_contract {
                Err(e) => Err(e@),
                Ok(c) => if c.approval_artifact_path@ != rel || c.approval_artifact_sha256@ != approval.sha256@
                    || c.agent_id@ != agent || c.manifest_root@ != root {
                    Err(stale("no longer matches the approval artifact continuity"@))
                } else if views(c.required_handoff_commands@) != required {
                    Err(stale(commands_message("runtime input-contract required_handoff_commands"@)))
                } else {
                    match f.validation_report {
                        Err(e) => Err(e@),
                        Ok(report) => if report.status@ != "pass"@ {
                            Err(stale("validation-report.json is not green"@))
                        } else {
                            handoff_verdict(approval, run_id, required, f)
                        },
                    }
                },
            }
        },
    }
}

/// The checks from `handoff.json` on.
pub open spec fn handoff_verdict(
    approval: ApprovalArtifact,
    run_id: Seq<char>,
    required: Seq<Seq<char>>,
    f: RuntimeRunFiles,
) -> Result<Option<Seq<Seq<char>>>, Seq<char>> {
    let rel = approval.relative_path@;
    let stale = |d: Seq<char>| stale_message(rel, run_id, d);
    match f.handoff {
        Err(e) => Err(e@),
        Ok(h) => if h.agent_id@ != approval.descriptor.agent_id@ || h.manifest_root@ != approval.descriptor.manifest_root@ {
            Err(stale("handoff.json no longer matches the approval artifact continuity"@))
        } else if !h.runtime_lane_complete || !h.publication_refresh_required {
            Err(stale("handoff.json is not publication-ready"@))
        } else if exists|k: int| 0 <= k < h.blockers.len() && !is_blank(#[trigger] h.blockers@[k]@) {
            Err(stale("handoff.json still carries blocker text"@))
        } else if views(h.required_commands@) != required {
            Err(stale(commands_message("runtime handoff required_commands"@)))
        } else {
            match f.written_paths {
                Err(e) => Err(e@),
                Ok(w) => if w.len() == 0 {
                    Err(stale("did not record any written paths"@))
                } else {
                    match f.run_summary {
                        Err(e) => Err(e@),
                        Ok(summary) => if is_blank(summary@) {
                            Err(stale("run-summary.md is empty"@))
                        } else {
                            match first_absent(f.present@) {
                                Some(k) => Err(stale("is missing required file `"@ + required_runtime_files()[k] + "`"@)),
                                None => Ok(Some(evidence_paths(run_id))),
                            }
                        },
                    }
                },
            }
        },
    }
}

pub open spec fn verdict_of(r: Result<Option<RuntimeEvidenceBundle>, Error>, run_id: Seq<char>) -> Result<Option<Seq<Seq<char>>>, Seq<char>> {
    match r {
        Ok(None) => Ok(None),
        Ok(Some(b)) => if b.run_id@ == run_id { Ok(Some(views(b.runtime_evidence_paths@))) } else { Err(Seq::empty()) },
        Err(Error::Validation(m)) => Err(m@),
        Err(Error::Internal(_)) => Err(Seq::empty()),
    }
}

fn message_error(m: &String) -> (r: Error)
    ensures
        r matches Error::Validation(x) && x@ == m@,
{
    Error::Validation(to_owned(m.as_str()))
}

fn any_blocker(blockers: &Vec<String>) -> (r: bool)
    ensures
        r == exists|k: int| 0 <= k < blockers.len() && !is_blank(#[trigger] blockers@[k]@),
{
    let mut i: usize = 0;
    while i < blockers.len()
        invariant
            i <= blockers.len(),
            forall|k: int| 0 <= k < i ==> is_blank(#[trigger] blockers@[k]@),
        decreases blockers.len() - i,
    {
        if !blank(blockers[i].as_str()) {
            return true;
        }
        i = i + 1;
    }
    false
}

/// The first required evidence file that is not present, by its index.
fn missing_required_file(present: &Vec<bool>) -> (r: Option<usize>)
    ensures
        match r {
            Some(k) => first_absent(present@) == Some(k as int) && k < 6,
            None => first_absent(present@) is None,
        },
{
    let mut k: usize = 0;
    while k < 6
        invariant
            k <= 6,
            first_absent(present@) == absent_from(present@, k as int),
        decreases 6 - k,
    {
        if k >= present.len() || !present[k] {
            return Some(k);
        }
        k = k + 1;
    }
    None
}

fn bundle_for(run_id: &str) -> (r: RuntimeEvidenceBundle)
    ensures
        r.run_id@ == run_id@,
        views(r.runtime_evidence_paths@) == evidence_paths(run_id@),
{
    let names = required_runtime_evidence_files();
    let mut paths: Vec<String> = Vec::new();
    let mut i: usize = 0;
    while i < 6
        invariant
            i <= 6,
            names@.map_values(|s: &'static str| s@) == required_runtime_files(),
            views(paths@) == evidence_paths(run_id@).subrange(0, i as int),
        decreases 6 - i,
    {
        let mut p = cat3(RUNTIME_RUNS_ROOT, "/", run_id);
        p.append("/");
        p.append(names[i]);
        proof {
            assert(names@.map_values(|s: &'static str| s@)[i as int] == names@[i as int]@);
            assert(evidence_paths(run_id@)[i as int] == RUNTIME_RUNS_ROOT@ + "/"@ + run_id@ + "/"@ + required_runtime_files()[i as int]);
        }
        let ghost before = paths@;
        assert(p@ == evidence_paths(run_id@)[i as int]);
        paths.push(p);
        assert(views(paths@) =~= views(before).push(p@));
        assert(views(paths@) =~= evidence_paths(run_id@).subrange(0, i + 1));
        i = i + 1;
    }
    assert(evidence_paths(run_id@).subrange(0, 6) =~= evidence_paths(run_id@));
    RuntimeEvidenceBundle { run_id: to_owned(run_id), runtime_evidence_paths: paths }
}

/// Judge one runtime evidence run for `approval` from what its directory holds: `Ok(None)` when
/// the run belongs to another approval or agent, the evidence bundle when the run is validated,
/// publication-ready and complete, and otherwise the first problem found, as a validation error.
/// `run_root` is the run directory's absolute path; `required` is the frozen publication command
/// set that the run's contract and handoff must both record.
pub fn inspect_runtime_run(
    approval: &ApprovalArtifact,
    run_id: &str,
    run_root: &str,
    required: &Vec<String>,
    files: &RuntimeRunFiles,
) -> (r: Result<Option<RuntimeEvidenceBundle>, Error>)
    ensures
        r is Err ==> r->Err_0 is Validation,
        r matches Ok(Some(b)) ==> b.run_id@ == run_id@,
        verdict_of(r, run_id@) == run_verdict(*approval, run_id@, run_root@, views(required@), *files),
{
    let status = match &files.run_status {
        None => return Ok(None),
        Some(Err(e)) => return Err(message_error(e)),
        Some(Ok(s)) => s,
    };
    if !str_eq(status.approval_artifact_path.as_str(), approval.relative_path.as_str())
        || !str_eq(status.agent_id.as_str(), approval.descriptor.agent_id.as_str()) {
        return Ok(None);
    }
    if !str_eq(status.status.as_str(), "write_validated") || !status.validation_passed || !status.handoff_ready {
        return Err(stale_runtime_evidence_error(approval, run_id, "is not a validated runtime handoff"));
    }
    if !str_eq(status.run_dir.as_str(), run_root) {
        let mut d = cat3("recorded run_dir `", status.run_dir.as_str(), "` but expected `");
        d.append(run_root);
        d.append("`");
        return Err(stale_runtime_evidence_error(approval, run_id, d.as_str()));
    }
    let contract = match &files.input_contract {
        Err(e) => return Err(message_error(e)),
        Ok(c) => c,
    };
    if !str_eq(contract.approval_artifact_path.as_str(), approval.relative_path.as_str())
        || !str_eq(contract.approval_artifact_sha256.as_str(), approval.sha256.as_str())
        || !str_eq(contract.agent_id.as_str(), approval.descriptor.agent_id.as_str())
        || !str_eq(contract.manifest_root.as_str(), approval.descriptor.manifest_root.as_str()) {
        return Err(stale_runtime_evidence_error(approval, run_id, "no longer matches the approval artifact continuity"));
    }
    if let Err(err) = validate_required_commands(
        "runtime input-contract required_handoff_commands",
        &contract.required_handoff_commands,
        required,
    ) {
        let m = err.message();
        return Err(stale_runtime_evidence_error(approval, run_id, m.as_str()));
    }
    let report = match &files.validation_report {
        Err(e) => return Err(message_error(e)),
        Ok(report) => report,
    };
    if !str_eq(report.status.as_str(), "pass") {
        return Err(stale_runtime_evidence_error(approval, run_id, "validation-report.json is not green"));
    }
    inspect_handoff(approval, run_id, required, files)
}

fn inspect_handoff(
    approval: &ApprovalArtifact,
    run_id: &str,
    required: &Vec<String>,
    files: &RuntimeRunFiles,
) -> (r: Result<Option<RuntimeEvidenceBundle>, Error>)
    ensures
        r is Err ==> r->Err_0 is Validation,
        r matches Ok(Some(b)) ==> b.run_id@ == run_id@,
        verdict_of(r, run_id@) == handoff_verdict(*approval, run_id@, views(required@), *files),
{
    let handoff = match &files.handoff {
        Err(e) => return Err(message_error(e)),
        Ok(h) => h,
    };
    if !str_eq(handoff.agent_id.as_str(), approval.descriptor.agent_id.as_str())
        || !str_eq(handoff.manifest_root.as_str(), approval.descriptor.manifest_root.as_str()) {
        return Err(stale_runtime_evidence_error(approval, run_id, "handoff.json no longer matches the approval artifact continuity"));
    }
    if !handoff.runtime_lane_complete || !handoff.publication_refresh_required {
        return Err(stale_runtime_evidence_error(approval, run_id, "handoff.json is not publication-ready"));
    }
    if any_blocker(&handoff.blockers) {
        return Err(stale_runtime_evidence_error(approval, run_id, "handoff.json still carries blocker text"));
    }
    if let Err(err) = validate_required_commands("runtime handoff required_commands", &handoff.required_commands, required) {
        let m = err.message();
        return Err(stale_runtime_evidence_error(approval, run_id, m.as_str()));
    }
    let written = match &files.written_paths {
        Err(e) => return Err(message_error(e)),
        Ok(w) => w,
    };
    if written.len() == 0 {
        return Err(stale_runtime_evidence_error(approval, run_id, "did not record any written paths"));
    }
    let summary = match &files.run_summary {
        Err(e) => return Err(message_error(e)),
        Ok(s) => s,
    };
    if blank(summary.as_str()) {
        return Err(stale_runtime_evidence_error(approval, run_id, "run-summary.md is empty"));
    }
    match missing_required_file(&files.present) {
        Some(k) => {
            let names = required_runtime_evidence_files();
            proof {
                assert(names@.map_values(|s: &'static str| s@)[k as int] == names@[k as int]@);
            }
            let d = cat3("is missing required file `", names[k], "`");
            Err(stale_runtime_evidence_error(approval, run_id, d.as_str()))
        },
        None => Ok(Some(bundle_for(run_id))),
    }
}

// ---------------------------------------------------------------------------------------------
// Choosing among runs

/// Strictly descending, the order runs are tried in: newest run id first.
pub open spec fn descending(s: Seq<Seq<char>>) -> bool {
    forall|i: int, j: int| 0 <= i < j < s.len() ==> lex_lt(#[trigger] s[j], #[trigger] s[i])
}

/// The run ids of a runs directory, newest first (sorted, then reversed).
pub fn runtime_run_order(run_ids: Vec<String>) -> (r: Vec<String>)
    requires
        views(run_ids@).no_duplicates(),
    ensures
        descending(views(r@)),
        views(r@).to_set() == views(run_ids@).to_set(),
{
    let mut set: Vec<String> = Vec::new();
    let mut i: usize = 0;
    let ghost ids = views(run_ids@);
    assert(views(set@).to_set() =~= ids.subrange(0, 0).to_set());
    while i < run_ids.len()
        invariant
            i <= run_ids.len(),
            ids == views(run_ids@),
            ids.no_duplicates(),
            ascending(views(set@)),
            views(set@).to_set() == ids.subrange(0, i as int).to_set(),
        decreases run_ids.len() - i,
    {
        proof {
            assert(ids.subrange(0, i + 1) =~= ids.subrange(0, i as int).push(ids[i as int]));
            ids.subrange(0, i as int).lemma_push_to_set_commute(ids[i as int]);
            assert(!ids.subrange(0, i as int).contains(ids[i as int])) by {
                if ids.subrange(0, i as int).contains(ids[i as int]) {
                    let k = choose|k: int| 0 <= k < i && ids.subrange(0, i as int)[k] == ids[i as int];
                    assert(ids[k] == ids[i as int]);
                }
            }
        }
        set_insert(&mut set, to_owned(run_ids[i].as_str()));
        i = i + 1;
    }
    assert(ids.subrange(0, run_ids.len() as int) =~= ids);
    let mut out: Vec<String> = Vec::new();
    let mut j: usize = set.len();
    let ghost sv = views(set@);
    while j > 0
        invariant
            j <= set.len(),
            sv == views(set@),
            ascending(sv),
            views(out@) == sv.subrange(j as int, sv.len() as int).reverse(),
        decreases j,
    {
        j = j - 1;
        let ghost before = views(out@);
        out.push(to_owned(set[j].as_str()));
        assert(views(out@) =~= sv.subrange(j as int, sv.len() as int).reverse()) by {
            assert(views(out@) =~= before.push(sv[j as int]));
        }
    }
    proof {
        let o = views(out@);
        assert(sv.subrange(0, sv.len() as int) =~= sv);
        assert(o =~= sv.reverse());
        assert forall|a: int, b: int| 0 <= a < b < o.len() implies lex_lt(#[trigger] o[b], #[trigger] o[a]) by {
            assert(o[a] == sv[sv.len() - 1 - a]);
            assert(o[b] == sv[sv.len() - 1 - b]);
        }
        assert(o.to_set() =~= sv.to_set()) by {
            assert forall|x: Seq<char>| o.to_set().contains(x) implies sv.to_set().contains(x) by {
                let k = choose|k: int| 0 <= k < o.len() && o[k] == x;
                assert(sv[sv.len() - 1 - k] == x);
            }
            assert forall|x: Seq<char>| sv.to_set().contains(x) implies o.to_set().contains(x) by {
                let k = choose|k: int| 0 <= k < sv.len() && sv[k] == x;
                assert(o[sv.len() - 1 - k] == x);
            }
        }
    }
    out
}

pub open spec fn no_run_message(agent_id: Seq<char>) -> Seq<char> {
    "no successful runtime-follow-on evidence run was found for `"@ + agent_id + "` under `"@ + RUNTIME_RUNS_ROOT@ + "`"@
}

/// The first usable run in the order given, as (run id, evidence paths); failing that, the
/// first refusal; failing that, the statement that no run was found.
pub open spec fn selection(agent_id: Seq<char>, verdicts: Seq<(Seq<char>, Result<Option<Seq<Seq<char>>>, Seq<char>>)>) -> Result<(Seq<char>, Seq<Seq<char>>), Seq<char>>
    decreases verdicts.len(),
{
    if verdicts.len() == 0 {
        Err(no_run_message(agent_id))
    } else {
        match verdicts[0].1 {
            Ok(Some(paths)) => Ok((verdicts[0].0, paths)),
            Ok(None) => selection(agent_id, verdicts.drop_first()),
            Err(e) => match selection(agent_id, verdicts.drop_first()) {
                Ok(b) => Ok(b),
                Err(_) => Err(e),
            },
        }
    }
}

/// A candidate run: its id, its directory's absolute path, and what the directory holds.
pub type RuntimeRun = (String, String, RuntimeRunFiles);

pub open spec fn run_verdicts(
    approval: ApprovalArtifact,
    required: Seq<Seq<char>>,
    runs: Seq<RuntimeRun>,
) -> Seq<(Seq<char>, Result<Option<Seq<Seq<char>>>, Seq<char>>)> {
    runs.map_values(|run: RuntimeRun| (run.0@, run_verdict(approval, run.0@, run.1@, required, run.2)))
}

pub open spec fn selection_of(r: Result<RuntimeEvidenceBundle, Error>) -> Result<(Seq<char>, Seq<Seq<char>>), Seq<char>> {
    match r {
        Ok(b) => Ok((b.run_id@, views(b.runtime_evidence_paths@))),
        Err(e) => Err(e.text()),
    }
}

/// Judge the candidate runs in the order given (newest first, as `runtime_run_order` gives
/// them) and take the first usable one; if none is usable, report the first refusal, or that
/// no run was found at all.
pub fn discover_runtime_evidence(
    approval: &ApprovalArtifact,
    required: &Vec<String>,
    runs: &Vec<RuntimeRun>,
) -> (r: Result<RuntimeEvidenceBundle, Error>)
    ensures
        selection_of(r) == selection(approval.descriptor.agent_id@, run_verdicts(*approval, views(required@), runs@)),
        r is Err ==> r->Err_0 is Validation,
{
    let ghost vs = run_verdicts(*approval, views(required@), runs@);
    let ghost agent = approval.descriptor.agent_id@;
    let mut best_error: Option<Error> = None;
    let mut i: usize = 0;
    assert(vs.subrange(0, vs.len() as int) =~= vs);
    while i < runs.len()
        invariant
            i <= runs.len(),
            vs == run_verdicts(*approval, views(required@), runs@),
            vs.len() == runs.len(),
            agent == approval.descriptor.agent_id@,
            best_error matches Some(e) ==> e is Validation,
            selection(agent, vs) == match best_error {
                None => selection(agent, vs.subrange(i as int, vs.len() as int)),
                Some(e) => match selection(agent, vs.subrange(i as int, vs.len() as int)) {
                    Ok(b) => Ok(b),
                    Err(_) => Err(e.text()),
                },
            },
        decreases runs.len() - i,
    {
        let ghost rest = vs.subrange(i as int, vs.len() as int);
        assert(rest.drop_first() =~= vs.subrange(i + 1, vs.len() as int));
        assert(rest[0] == vs[i as int]);
        assert(vs[i as int] == (runs@[i as int].0@, run_verdict(*approval, runs@[i as int].0@, runs@[i as int].1@, views(required@), runs@[i as int].2)));
        let run = &runs[i];
        let outcome = inspect_runtime_run(approval, run.0.as_str(), run.1.as_str(), required, &run.2);
        match outcome {
            Ok(Some(bundle)) => {
                return Ok(bundle);
            },
            Ok(None) => {},
            Err(err) => {
                if best_error.is_none() {
                    best_error = Some(err);
                }
            },
        }
        i = i + 1;
    }
    match best_error {
        Some(e) => Err(e),
        None => {
            let mut m = cat3("no successful runtime-follow-on evidence run was found for `", approval.descriptor.agent_id.as_str(), "` under `");
            m.append(RUNTIME_RUNS_ROOT);
            m.append("`");
            Err(Error::Validation(m))
        },
    }
}

/// A verdict that names a usable run.
pub open spec fn usable(v: Result<Option<Seq<Seq<char>>>, Seq<char>>) -> bool {
    v matches Ok(Some(_))
}

proof fn lemma_selection(agent: Seq<char>, vs: Seq<(Seq<char>, Result<Option<Seq<Seq<char>>>, Seq<char>>)>)
    ensures
        (selection(agent, vs) is Err) <==> (forall|j: int| 0 <= j < vs.len() ==> !usable(#[trigger] vs[j].1)),
        selection(agent, vs) is Ok ==> exists|k: int| 0 <= k < vs.len()
            && (#[trigger] vs[k]).0 == selection(agent, vs)->Ok_0.0
            && vs[k].1 == Ok::<Option<Seq<Seq<char>>>, Seq<char>>(Some(selection(agent, vs)->Ok_0.1))
            && forall|j: int| 0 <= j < k ==> !usable(#[trigger] vs[j].1),
    decreases vs.len(),
{
    if vs.len() > 0 {
        let rest = vs.drop_first();
        lemma_selection(agent, rest);
        assert forall|j: int| 0 <= j < rest.len() implies rest[j] == vs[j + 1] by {}
        if usable(vs[0].1) {
        } else {
            if selection(agent, vs) is Ok {
                assert(selection(agent, rest) is Ok);
                let k = choose|k: int| 0 <= k < rest.len()
                    && (#[trigger] rest[k]).0 == selection(agent, rest)->Ok_0.0
                    && rest[k].1 == Ok::<Option<Seq<Seq<char>>>, Seq<char>>(Some(selection(agent, rest)->Ok_0.1))
                    && forall|j: int| 0 <= j < k ==> !usable(#[trigger] rest[j].1);
                assert(vs[k + 1] == rest[k]);
                assert forall|j: int| 0 <= j < k + 1 implies !usable(#[trigger] vs[j].1) by {
                    if j > 0 {
                        assert(vs[j] == rest[j - 1]);
                    }
                }
            }
            if selection(agent, vs) is Err {
                assert forall|j: int| 0 <= j < vs.len() implies !usable(#[trigger] vs[j].1) by {
                    if j > 0 {
                        assert(vs[j] == rest[j - 1]);
                    }
                }
            } else {
                if forall|j: int| 0 <= j < vs.len() ==> !usable(#[trigger] vs[j].1) {
                    assert forall|j: int| 0 <= j < rest.len() implies !usable(#[trigger] rest[j].1) by {
                        assert(rest[j] == vs[j + 1]);
                    }
                }
            }
        }
    }
}

pub open spec fn run_ids(runs: Seq<RuntimeRun>) -> Seq<Seq<char>> {
    runs.map_values(|r: RuntimeRun| r.0@)
}

/// `ordered` holds exactly the runs of `runs`, newest run id first.
pub open spec fn newest_first(ordered: Seq<RuntimeRun>, runs: Seq<RuntimeRun>) -> bool {
    &&& ordered.len() == runs.len()
    &&& forall|x: RuntimeRun| ordered.contains(x) <==> runs.contains(x)
    &&& descending(run_ids(ordered))
}

/// The runs, newest run id first.
fn order_runs(runs: Vec<RuntimeRun>) -> (r: Vec<RuntimeRun>)
    requires
        run_ids(runs@).no_duplicates(),
    ensures
        newest_first(r@, runs@),
{
    let ghost all = runs@;
    let mut rest = runs;
    let mut out: Vec<RuntimeRun> = Vec::new();
    while rest.len() > 0
        invariant
            out.len() + rest.len() == all.len(),
            forall|x: RuntimeRun| all.contains(x) <==> (out@.contains(x) || rest@.contains(x)),
            run_ids(rest@).no_duplicates(),
            descending(run_ids(out@)),
            forall|a: int, b: int| 0 <= a < out.len() && 0 <= b < rest.len() ==> lex_lt(#[trigger] rest@[b].0@, #[trigger] out@[a].0@),
        decreases rest.len(),
    {
        let mut m: usize = 0;
        let mut j: usize = 1;
        while j < rest.len()
            invariant
                m < j <= rest.len(),
                run_ids(rest@).no_duplicates(),
                forall|k: int| 0 <= k < j && k != m ==> lex_lt(#[trigger] rest@[k].0@, rest@[m as int].0@),
            decreases rest.len() - j,
        {
            proof {
                assert(run_ids(rest@)[j as int] == rest@[j as int].0@);
                assert(run_ids(rest@)[m as int] == rest@[m as int].0@);
                lemma_lex_total(rest@[j as int].0@, rest@[m as int].0@);
            }
            if text_lt(rest[m].0.as_str(), rest[j].0.as_str()) {
                proof {
                    assert forall|k: int| 0 <= k < j + 1 && k != j implies lex_lt(#[trigger] rest@[k].0@, rest@[j as int].0@) by {
                        if k != m {
                            lemma_lex_transitive(rest@[k].0@, rest@[m as int].0@, rest@[j as int].0@);
                        }
                    }
                }
                m = j;
            }
            j = j + 1;
        }
        let ghost old_rest = rest@;
        let ghost old_out = out@;
        let x = rest.remove(m);
        proof {
            assert forall|k: int| 0 <= k < rest@.len() implies rest@[k] == old_rest[if k < m { k } else { k + 1 }] by {}
            assert forall|y: RuntimeRun| old_rest.contains(y) <==> (y == x || rest@.contains(y)) by {
                if old_rest.contains(y) && y != x {
                    let k = choose|k: int| 0 <= k < old_rest.len() && old_rest[k] == y;
                    assert(k != m);
                    if k < m {
                        assert(rest@[k] == y);
                    } else {
                        assert(rest@[k - 1] == y);
                    }
                }
                if rest@.contains(y) {
                    let k = choose|k: int| 0 <= k < rest@.len() && rest@[k] == y;
                    assert(old_rest[if k < m { k } else { k + 1 }] == y);
                }
            }
            assert forall|a: int, b: int| 0 <= a < b < run_ids(rest@).len() implies run_ids(rest@)[a] != run_ids(rest@)[b] by {
                let a2 = if a < m { a } else { a + 1 };
                let b2 = if b < m { b } else { b + 1 };
                assert(run_ids(old_rest)[a2] != run_ids(old_rest)[b2]);
            }
        }
        out.push(x);
        proof {
            assert forall|y: RuntimeRun| out@.contains(y) <==> (y == x || old_out.contains(y)) by {
                if out@.contains(y) && y != x {
                    let k = choose|k: int| 0 <= k < out@.len() && out@[k] == y;
                    assert(old_out[k] == y);
                }
                if old_out.contains(y) {
                    let k = choose|k: int| 0 <= k < old_out.len() && old_out[k] == y;
                    assert(out@[k] == y);
                }
                if y == x {
                    assert(out@[old_out.len() as int] == y);
                }
            }
            assert forall|a: int, b: int| 0 <= a < b < run_ids(out@).len() implies lex_lt(#[trigger] run_ids(out@)[b], #[trigger] run_ids(out@)[a]) by {
                if b < old_out.len() {
                    assert(run_ids(old_out)[a] == run_ids(out@)[a]);
                    assert(run_ids(old_out)[b] == run_ids(out@)[b]);
                } else {
                    assert(out@[b] == x);
                    assert(out@[a] == old_out[a]);
                    assert(lex_lt(old_rest[m as int].0@, old_out[a].0@));
                }
            }
            assert forall|a: int, b: int| 0 <= a < out.len() && 0 <= b < rest.len() implies lex_lt(#[trigger] rest@[b].0@, #[trigger] out@[a].0@) by {
                let b2 = if b < m { b } else { b + 1 };
                assert(rest@[b] == old_rest[b2]);
                if a < old_out.len() {
                    assert(out@[a] == old_out[a]);
                } else {
                    assert(out@[a] == x);
                    assert(b2 != m);
                }
            }
        }
    }
    out
}

/// `discover_runtime_evidence_for_approval`, given the run directories found under the runtime
/// runs root (their ids, which a directory listing gives distinct): the runs are judged newest
/// run id first, so the run taken is the newest usable one; with none usable, the answer is the
/// first refusal in that order, or that no run was found.
pub fn discover_runtime_evidence_for_approval(
    approval: &ApprovalArtifact,
    required: &Vec<String>,
    runs: Vec<RuntimeRun>,
) -> (r: Result<RuntimeEvidenceBundle, Error>)
    requires
        run_ids(runs@).no_duplicates(),
    ensures
        exists|ordered: Seq<RuntimeRun>| #[trigger] newest_first(ordered, runs@)
            && selection_of(r) == selection(approval.descriptor.agent_id@, run_verdicts(*approval, views(required@), ordered)),
        r matches Ok(b) ==> exists|k: int| 0 <= k < runs@.len() && (#[trigger] runs@[k]).0@ == b.run_id@
            && run_verdict(*approval, runs@[k].0@, runs@[k].1@, views(required@), runs@[k].2)
                == Ok::<Option<Seq<Seq<char>>>, Seq<char>>(Some(views(b.runtime_evidence_paths@))),
        r matches Ok(b) ==> forall|k: int| 0 <= k < runs@.len()
            && usable(run_verdict(*approval, (#[trigger] runs@[k]).0@, runs@[k].1@, views(required@), runs@[k].2))
            ==> !lex_lt(b.run_id@, runs@[k].0@),
        r is Err <==> forall|k: int| 0 <= k < runs@.len()
            ==> !usable(run_verdict(*approval, (#[trigger] runs@[k]).0@, runs@[k].1@, views(required@), runs@[k].2)),
        r is Err ==> r->Err_0 is Validation,
{
    let ghost all = runs@;
    let ordered = order_runs(runs);
    let r = discover_runtime_evidence(approval, required, &ordered);
    proof {
        let o = ordered@;
        let req = views(required@);
        let agent = approval.descriptor.agent_id@;
        let vs = run_verdicts(*approval, req, o);
        assert(newest_first(o, all));
        lemma_selection(agent, vs);
        assert forall|k: int| 0 <= k < vs.len() implies #[trigger] vs[k] == (o[k].0@, run_verdict(*approval, o[k].0@, o[k].1@, req, o[k].2)) by {}
        if r is Ok {
            let b = r->Ok_0;
            let k = choose|k: int| 0 <= k < vs.len()
                && (#[trigger] vs[k]).0 == selection(agent, vs)->Ok_0.0
                && vs[k].1 == Ok::<Option<Seq<Seq<char>>>, Seq<char>>(Some(selection(agent, vs)->Ok_0.1))
                && forall|j: int| 0 <= j < k ==> !usable(#[trigger] vs[j].1);
            assert(o.contains(o[k]));
            assert(all.contains(o[k]));
            let i = choose|i: int| 0 <= i < all.len() && all[i] == o[k];
            assert(all[i].0@ == b.run_id@);
            assert forall|q: int| 0 <= q < all.len()
                && usable(run_verdict(*approval, (#[trigger] all[q]).0@, all[q].1@, req, all[q].2))
                implies !lex_lt(b.run_id@, all[q].0@) by {
                assert(all.contains(all[q]));
                assert(o.contains(all[q]));
                let n = choose|n: int| 0 <= n < o.len() && o[n] == all[q];
                assert(usable(vs[n].1));
                assert(run_ids(o)[n] == o[n].0@ && run_ids(o)[k] == o[k].0@);
                if n < k {
                } else if n > k {
                    assert(lex_lt(o[n].0@, o[k].0@));
                    lemma_lex_asymmetric(o[n].0@, o[k].0@);
                } else {
                    lemma_lex_irreflexive(o[k].0@);
                }
            }
        }
        if r is Err {
            assert forall|q: int| 0 <= q < all.len()
                implies !usable(run_verdict(*approval, (#[trigger] all[q]).0@, all[q].1@, req, all[q].2)) by {
                assert(all.contains(all[q]));
                assert(o.contains(all[q]));
                let n = choose|n: int| 0 <= n < o.len() && o[n] == all[q];
                assert(!usable(vs[n].1));
            }
        } else {
            assert(selection(agent, vs) is Ok);
            let b = r->Ok_0;
            let k = choose|k: int| 0 <= k < vs.len()
                && (#[trigger] vs[k]).0 == selection(agent, vs)->Ok_0.0
                && vs[k].1 == Ok::<Option<Seq<Seq<char>>>, Seq<char>>(Some(selection(agent, vs)->Ok_0.1))
                && forall|j: int| 0 <= j < k ==> !usable(#[trigger] vs[j].1);
            assert(o.contains(o[k]));
            let i = choose|i: int| 0 <= i < all.len() && all[i] == o[k];
            assert(usable(run_verdict(*approval, all[i].0@, all[i].1@, req, all[i].2)));
        }
    }
    r
}

} // verus!

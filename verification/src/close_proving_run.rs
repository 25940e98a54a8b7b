//! The documents a closed proving run leaves in its onboarding pack.
use vstd::prelude::*;

use crate::agent_registry::AgentRegistryEntry;
use crate::approval_artifact::ApprovalArtifact;
use crate::capability_publication::{all_capability_ids, allowlisted, all_ids, backends_plain, lemma_violating_empty, supporters, supporters_of, violates, violating};
use crate::paths::{components, path_parts, Part, PartView};
use crate::strset::ascending;
use crate::text::{has_prefix, starts_with, str_eq};
use crate::proving_run_closeout::{DurationTruth, ProvingRunCloseout, ResidualFrictionTruth};
use crate::text::{bool_str, bool_text, cat2, cat3, decimal, join, join_text, to_owned, u64_text, views};

verus! {

pub const OWNERSHIP_MARKER: &'static str = "<!-- generated-by: xtask onboard-agent; owner: control-plane -->";
pub const DOCS_NEXT_ROOT: &'static str = "docs/agents/lifecycle";
pub const REGISTRY_ENTRY_PATH: &'static str = "crates/xtask/data/agent_registry.toml";
pub const RELEASE_DOC_PATH: &'static str = "docs/crates-io-release.md";
pub const PUBLISH_WORKFLOW_PATH: &'static str = ".github/workflows/publish-crates.yml";
pub const PUBLISH_SCRIPT_PATH: &'static str = "scripts/publish_crates.py";
pub const VALIDATE_PUBLISH_SCRIPT_PATH: &'static str = "scripts/validate_publish_versions.py";
pub const CHECK_PUBLISH_READINESS_SCRIPT_PATH: &'static str = "scripts/check_publish_readiness.py";

pub open spec fn touchpoint_lines(entry: AgentRegistryEntry) -> Seq<Seq<char>> {
    seq![
        "Path: Cargo.toml will ensure workspace member `"@ + entry.crate_path@ + "` is enrolled."@,
        "Path: docs/crates-io-release.md will ensure the generated release block includes `"@ + entry.package_name@
            + "` on release track `"@ + entry.release.docs_release_track@ + "`."@,
        "Workflow and script files remain unchanged: .github/workflows/publish-crates.yml, scripts/publish_crates.py, scripts/validate_publish_versions.py, scripts/check_publish_readiness.py."@,
    ]
}

/// What a release will touch for this entry, one line each.
pub fn release_touchpoint_lines(entry: &AgentRegistryEntry) -> (r: Vec<String>)
    ensures
        views(r@) == touchpoint_lines(*entry),
{
    let a = cat3("Path: Cargo.toml will ensure workspace member `", entry.crate_path.as_str(), "` is enrolled.");
    let mut b = cat3("Path: docs/crates-io-release.md will ensure the generated release block includes `", entry.package_name.as_str(), "` on release track `");
    b.append(entry.release.docs_release_track.as_str());
    b.append("`.");
    let c = to_owned("Workflow and script files remain unchanged: .github/workflows/publish-crates.yml, scripts/publish_crates.py, scripts/validate_publish_versions.py, scripts/check_publish_readiness.py.");
    let v = vec![a, b, c];
    assert(views(v@) =~= touchpoint_lines(*entry));
    v
}

pub open spec fn markdown_file(body: Seq<char>) -> Seq<char> {
    OWNERSHIP_MARKER@ + "\n\n"@ + body
}

/// A generated markdown file: the ownership marker, a blank line, then the body.
pub fn render_markdown_file(body: String) -> (r: String)
    ensures
        r@ == markdown_file(body@),
{
    let mut r = cat2(OWNERSHIP_MARKER, "\n\n");
    r.append(body.as_str());
    r
}

pub open spec fn readme_body(entry: AgentRegistryEntry, closeout: ProvingRunCloseout, closeout_path: Seq<char>) -> Seq<char> {
    "# "@ + entry.display_name@ + " onboarding pack\n\nThis packet records the closed proving run for `"@ + entry.display_name@
        + "`.\n\n- Packet state: `closed_proving_run`\n- Agent id: `"@ + entry.agent_id@ + "`\n- Wrapper crate: `"@
        + entry.crate_path@ + "`\n- Backend module: `"@ + entry.backend_module@ + "`\n- Manifest root: `"@
        + entry.manifest_root@ + "`\n- Closeout metadata is recorded in `"@ + closeout_path
        + "`.\n- Approval linkage: `"@ + closeout.approval_source@ + "` via `"@ + closeout.approval_ref@
        + "` (`sha256: "@ + closeout.approval_sha256@ + "`)\n"@
}

pub fn render_readme_body(entry: &AgentRegistryEntry, closeout: &ProvingRunCloseout, closeout_path: &str) -> (r: String)
    ensures
        r@ == readme_body(*entry, *closeout, closeout_path@),
{
    let mut r = cat3("# ", entry.display_name.as_str(), " onboarding pack\n\nThis packet records the closed proving run for `");
    r.append(entry.display_name.as_str());
    r.append("`.\n\n- Packet state: `closed_proving_run`\n- Agent id: `");
    r.append(entry.agent_id.as_str());
    r.append("`\n- Wrapper crate: `");
    r.append(entry.crate_path.as_str());
    r.append("`\n- Backend module: `");
    r.append(entry.backend_module.as_str());
    r.append("`\n- Manifest root: `");
    r.append(entry.manifest_root.as_str());
    r.append("`\n- Closeout metadata is recorded in `");
    r.append(closeout_path);
    r.append("`.\n- Approval linkage: `");
    r.append(closeout.approval_source.as_str());
    r.append("` via `");
    r.append(closeout.approval_ref.as_str());
    r.append("` (`sha256: ");
    r.append(closeout.approval_sha256.as_str());
    r.append("`)\n");
    r
}

pub open spec fn scope_brief_body(entry: AgentRegistryEntry, docs_root: Seq<char>, closeout: ProvingRunCloseout, closeout_path: Seq<char>) -> Seq<char> {
    "# Scope brief\n\nThis packet records the closed proving run for `"@ + entry.agent_id@
        + "`.\n\n- Registry enrollment in `crates/xtask/data/agent_registry.toml`\n- Docs pack in `"@ + docs_root
        + "`\n- Manifest root in `"@ + entry.manifest_root@ + "`\n- Closeout metadata in `"@ + closeout_path
        + "`\n- Approval linkage via `"@ + closeout.approval_ref@ + "` (`"@ + closeout.approval_source@ + "`, sha256 `"@
        + closeout.approval_sha256@ + "`)\n\nCloseout status: `make preflight` "@
        + (if closeout.preflight_passed { "passed"@ } else { "did not pass"@ }) + " for this proving run.\n"@
}

pub fn render_scope_brief_body(entry: &AgentRegistryEntry, docs_root_display: &str, closeout: &ProvingRunCloseout, closeout_path: &str) -> (r: String)
    ensures
        r@ == scope_brief_body(*entry, docs_root_display@, *closeout, closeout_path@),
{
    let mut r = cat3("# Scope brief\n\nThis packet records the closed proving run for `", entry.agent_id.as_str(), "`.\n\n- Registry enrollment in `crates/xtask/data/agent_registry.toml`\n- Docs pack in `");
    r.append(docs_root_display);
    r.append("`\n- Manifest root in `");
    r.append(entry.manifest_root.as_str());
    r.append("`\n- Closeout metadata in `");
    r.append(closeout_path);
    r.append("`\n- Approval linkage via `");
    r.append(closeout.approval_ref.as_str());
    r.append("` (`");
    r.append(closeout.approval_source.as_str());
    r.append("`, sha256 `");
    r.append(closeout.approval_sha256.as_str());
    r.append("`)\n\nCloseout status: `make preflight` ");
    r.append(if closeout.preflight_passed { "passed" } else { "did not pass" });
    r.append(" for this proving run.\n");
    r
}

pub open spec fn seam_map_body(entry: AgentRegistryEntry, docs_root: Seq<char>) -> Seq<char> {
    "# Seam map\n\n- Declaration seam: registry entry for `"@ + entry.agent_id@ + "`\n- Docs seam: onboarding pack `"@
        + docs_root + "`\n- Manifest seam: `"@ + entry.manifest_root@ + "`\n- Runtime seam: wrapper crate `"@
        + entry.crate_path@ + "` and backend module `"@ + entry.backend_module@ + "`\n"@
}

pub fn render_seam_map_body(entry: &AgentRegistryEntry, docs_root_display: &str) -> (r: String)
    ensures
        r@ == seam_map_body(*entry, docs_root_display@),
{
    let mut r = cat3("# Seam map\n\n- Declaration seam: registry entry for `", entry.agent_id.as_str(), "`\n- Docs seam: onboarding pack `");
    r.append(docs_root_display);
    r.append("`\n- Manifest seam: `");
    r.append(entry.manifest_root.as_str());
    r.append("`\n- Runtime seam: wrapper crate `");
    r.append(entry.crate_path.as_str());
    r.append("` and backend module `");
    r.append(entry.backend_module.as_str());
    r.append("`\n");
    r
}

pub open spec fn threading_body(entry: AgentRegistryEntry) -> Seq<char> {
    "# Threading\n\n1. Control-plane onboarding writes for `"@ + entry.agent_id@
        + "` landed without follow-up packet drift.\n2. Runtime-owned wrapper and backend work landed at `"@
        + entry.crate_path@ + "` and `"@ + entry.backend_module@
        + "`.\n3. Manifest evidence and publication artifacts were regenerated from committed runtime outputs.\n4. The proving run closed with `make preflight`.\n"@
}

pub fn render_threading_body(entry: &AgentRegistryEntry) -> (r: String)
    ensures
        r@ == threading_body(*entry),
{
    let mut r = cat3("# Threading\n\n1. Control-plane onboarding writes for `", entry.agent_id.as_str(), "` landed without follow-up packet drift.\n2. Runtime-owned wrapper and backend work landed at `");
    r.append(entry.crate_path.as_str());
    r.append("` and `");
    r.append(entry.backend_module.as_str());
    r.append("`.\n3. Manifest evidence and publication artifacts were regenerated from committed runtime outputs.\n4. The proving run closed with `make preflight`.\n");
    r
}

pub open spec fn review_surfaces_body(entry: AgentRegistryEntry, docs_root: Seq<char>) -> Seq<char> {
    "# Review surfaces\n\n- `crates/xtask/data/agent_registry.toml`\n- `"@ + docs_root + "`\n- `"@ + entry.manifest_root@
        + "`\n- `docs/crates-io-release.md`\n- Supporting release rails remained unchanged across the proving run: `.github/workflows/publish-crates.yml`, `scripts/publish_crates.py`, `scripts/validate_publish_versions.py`, `scripts/check_publish_readiness.py`\n"@
}

pub fn render_review_surfaces_body(entry: &AgentRegistryEntry, docs_root_display: &str) -> (r: String)
    ensures
        r@ == review_surfaces_body(*entry, docs_root_display@),
{
    let mut r = cat3("# Review surfaces\n\n- `crates/xtask/data/agent_registry.toml`\n- `", docs_root_display, "`\n- `");
    r.append(entry.manifest_root.as_str());
    r.append("`\n- `docs/crates-io-release.md`\n- Supporting release rails remained unchanged across the proving run: `.github/workflows/publish-crates.yml`, `scripts/publish_crates.py`, `scripts/validate_publish_versions.py`, `scripts/check_publish_readiness.py`\n");
    r
}

pub open spec fn duration_text(closeout: ProvingRunCloseout) -> Seq<char> {
    match closeout.duration {
        DurationTruth::Seconds(s) => decimal(s as nat) + "s"@,
        DurationTruth::MissingReason(reason) => "missing ("@ + reason@ + ")"@,
    }
}

pub fn render_closeout_duration(closeout: &ProvingRunCloseout) -> (r: String)
    ensures
        r@ == duration_text(*closeout),
{
    match &closeout.duration {
        DurationTruth::Seconds(seconds) => {
            let mut r = u64_text(*seconds);
            r.append("s");
            r
        },
        DurationTruth::MissingReason(reason) => cat3("missing (", reason.as_str(), ")"),
    }
}

pub open spec fn bullets(items: Seq<String>) -> Seq<Seq<char>> {
    items.map_values(|item: String| "- "@ + item@)
}

/// The residual-friction lines of a closeout, then the reason a duration is missing.
pub open spec fn friction_lines(closeout: ProvingRunCloseout) -> Seq<Seq<char>> {
    let lines = match closeout.residual_friction {
        ResidualFrictionTruth::Items(items) => bullets(items@),
        ResidualFrictionTruth::ExplicitNone(reason) => seq!["- No residual friction recorded: "@ + reason@],
    };
    match closeout.duration {
        DurationTruth::MissingReason(reason) => lines.push("- Duration missing reason: "@ + reason@),
        _ => lines,
    }
}

pub fn render_residual_friction_lines(closeout: &ProvingRunCloseout) -> (r: String)
    ensures
        r@ == join(friction_lines(*closeout), "\n"@),
{
    let mut lines: Vec<String> = Vec::new();
    match &closeout.residual_friction {
        ResidualFrictionTruth::Items(items) => {
            let mut i: usize = 0;
            while i < items.len()
                invariant
                    i <= items.len(),
                    views(lines@) == bullets(items@.subrange(0, i as int)),
                decreases items.len() - i,
            {
                let ghost before = views(lines@);
                lines.push(cat2("- ", items[i].as_str()));
                assert(bullets(items@.subrange(0, i + 1))[i as int] == "- "@ + items@[i as int]@);
                assert(views(lines@) =~= before.push("- "@ + items@[i as int]@));
                assert(views(lines@) =~= bullets(items@.subrange(0, i + 1)));
                i = i + 1;
            }
            assert(items@.subrange(0, items.len() as int) =~= items@);
        },
        ResidualFrictionTruth::ExplicitNone(reason) => {
            lines.push(cat2("- No residual friction recorded: ", reason.as_str()));
        },
    }
    let ghost first = views(lines@);
    match &closeout.duration {
        DurationTruth::MissingReason(reason) => {
            lines.push(cat2("- Duration missing reason: ", reason.as_str()));
            assert(views(lines@) =~= first.push("- Duration missing reason: "@ + reason@));
        },
        _ => {},
    }
    proof {
        assert(views(lines@) =~= friction_lines(*closeout));
    }
    join_text(&lines, "\n")
}

pub open spec fn remediation_log_body(closeout: ProvingRunCloseout) -> Seq<char> {
    "# Remediation log\n\n"@ + join(friction_lines(closeout), "\n"@) + "\n"@
}

pub fn render_remediation_log_body(closeout: &ProvingRunCloseout) -> (r: String)
    ensures
        r@ == remediation_log_body(*closeout),
{
    let lines = render_residual_friction_lines(closeout);
    let mut r = cat2("# Remediation log\n\n", lines.as_str());
    r.append("\n");
    r
}

pub open spec fn handoff_body(entry: AgentRegistryEntry, c: ProvingRunCloseout, closeout_path: Seq<char>, touchpoints: Seq<char>) -> Seq<char> {
    "# Handoff\n\nThis packet records the closed proving run for `"@ + entry.agent_id@
        + "`.\n\n## Release touchpoints\n\n"@ + touchpoints + "\n\n## Proving-run closeout\n\n- approval ref: `"@
        + c.approval_ref@ + "`\n- approval source: `"@ + c.approval_source@ + "`\n- approval artifact sha256: `"@
        + c.approval_sha256@ + "`\n- manual control-plane file edits by maintainers: `"@
        + decimal(c.manual_control_plane_edits as nat) + "`\n- partial-write incidents: `"@
        + decimal(c.partial_write_incidents as nat) + "`\n- ambiguous ownership incidents: `"@
        + decimal(c.ambiguous_ownership_incidents as nat)
        + "`\n- approved-agent to repo-ready control-plane mutation time: `"@ + duration_text(c)
        + "`\n- proving-run closeout passes `make preflight`: `"@ + bool_text(c.preflight_passed)
        + "`\n- recorded at: `"@ + c.recorded_at@ + "`\n- commit: `"@ + c.commit@ + "`\n- closeout metadata: `"@
        + closeout_path + "`\n\n## Residual friction\n\n"@ + join(friction_lines(c), "\n"@)
        + "\n\n## Status\n\nNo open runtime next step remains in this packet.\n"@
}

pub fn render_handoff_body(entry: &AgentRegistryEntry, closeout: &ProvingRunCloseout, closeout_path: &str, release_touchpoints: &str) -> (r: String)
    ensures
        r@ == handoff_body(*entry, *closeout, closeout_path@, release_touchpoints@),
{
    let mut r = cat3("# Handoff\n\nThis packet records the closed proving run for `", entry.agent_id.as_str(), "`.\n\n## Release touchpoints\n\n");
    r.append(release_touchpoints);
    r.append("\n\n## Proving-run closeout\n\n- approval ref: `");
    r.append(closeout.approval_ref.as_str());
    r.append("`\n- approval source: `");
    r.append(closeout.approval_source.as_str());
    r.append("`\n- approval artifact sha256: `");
    r.append(closeout.approval_sha256.as_str());
    r.append("`\n- manual control-plane file edits by maintainers: `");
    let a = u64_text(closeout.manual_control_plane_edits);
    r.append(a.as_str());
    r.append("`\n- partial-write incidents: `");
    let b = u64_text(closeout.partial_write_incidents);
    r.append(b.as_str());
    r.append("`\n- ambiguous ownership incidents: `");
    let c = u64_text(closeout.ambiguous_ownership_incidents);
    r.append(c.as_str());
    r.append("`\n- approved-agent to repo-ready control-plane mutation time: `");
    let d = render_closeout_duration(closeout);
    r.append(d.as_str());
    r.append("`\n- proving-run closeout passes `make preflight`: `");
    r.append(bool_str(closeout.preflight_passed));
    r.append("`\n- recorded at: `");
    r.append(closeout.recorded_at.as_str());
    r.append("`\n- commit: `");
    r.append(closeout.commit.as_str());
    r.append("`\n- closeout metadata: `");
    r.append(closeout_path);
    r.append("`\n\n## Residual friction\n\n");
    let f = render_residual_friction_lines(closeout);
    r.append(f.as_str());
    r.append("\n\n## Status\n\nNo open runtime next step remains in this packet.\n");
    r
}


/// An onboarding pack's docs directory.
pub open spec fn docs_root(prefix: Seq<char>) -> Seq<char> {
    DOCS_NEXT_ROOT@ + "/"@ + prefix
}

pub fn docs_pack_root(prefix: &str) -> (r: String)
    ensures
        r@ == docs_root(prefix@),
{
    cat3(DOCS_NEXT_ROOT, "/", prefix)
}

/// Each line as a bullet.
pub open spec fn bulleted(lines: Seq<Seq<char>>) -> Seq<Seq<char>> {
    lines.map_values(|l: Seq<char>| "- "@ + l)
}

/// The release touchpoints as a bulleted block.
pub open spec fn touchpoint_block(entry: AgentRegistryEntry) -> Seq<char> {
    join(bulleted(touchpoint_lines(entry)), "\n"@)
}

pub open spec fn docs_preview(entry: AgentRegistryEntry, closeout: ProvingRunCloseout, closeout_path: Seq<char>) -> Seq<(Seq<char>, Option<Seq<char>>)> {
    let root = docs_root(entry.scaffold.onboarding_pack_prefix@);
    seq![
        (root + "/README.md"@, Some(markdown_file(readme_body(entry, closeout, closeout_path)))),
        (root + "/scope_brief.md"@, Some(markdown_file(scope_brief_body(entry, root, closeout, closeout_path)))),
        (root + "/seam_map.md"@, Some(markdown_file(seam_map_body(entry, root)))),
        (root + "/threading.md"@, Some(markdown_file(threading_body(entry)))),
        (root + "/review_surfaces.md"@, Some(markdown_file(review_surfaces_body(entry, root)))),
        (root + "/governance/remediation-log.md"@, Some(markdown_file(remediation_log_body(closeout)))),
        (root + "/HANDOFF.md"@, Some(markdown_file(handoff_body(entry, closeout, closeout_path, touchpoint_block(entry))))),
    ]
}

pub open spec fn preview_view(v: Seq<(String, Option<String>)>) -> Seq<(Seq<char>, Option<Seq<char>>)> {
    v.map_values(|e: (String, Option<String>)| (e.0@, match e.1 {
        Some(s) => Some(s@),
        None => None,
    }))
}

/// The seven documents of a closed proving run, each with its repo-relative path.
pub fn build_docs_preview(entry: &AgentRegistryEntry, closeout: &ProvingRunCloseout, closeout_path: &str) -> (r: Vec<(String, Option<String>)>)
    ensures
        preview_view(r@) == docs_preview(*entry, *closeout, closeout_path@),
{
    let root = docs_pack_root(entry.scaffold.onboarding_pack_prefix.as_str());
    let lines = release_touchpoint_lines(entry);
    let mut items: Vec<String> = Vec::new();
    let mut i: usize = 0;
    while i < lines.len()
        invariant
            i <= lines.len(),
            views(lines@) == touchpoint_lines(*entry),
            views(items@) == bulleted(touchpoint_lines(*entry).subrange(0, i as int)),
        decreases lines.len() - i,
    {
        let ghost before = views(items@);
        items.push(cat2("- ", lines[i].as_str()));
        proof {
            assert(lines@[i as int]@ == touchpoint_lines(*entry)[i as int]);
            assert(views(items@) =~= before.push("- "@ + lines@[i as int]@));
            assert(bulleted(touchpoint_lines(*entry).subrange(0, i + 1))[i as int] == "- "@ + touchpoint_lines(*entry)[i as int]);
            assert(views(items@) =~= bulleted(touchpoint_lines(*entry).subrange(0, i + 1)));
        }
        i = i + 1;
    }
    assert(touchpoint_lines(*entry).subrange(0, 3) =~= touchpoint_lines(*entry));
    let touchpoints = join_text(&items, "\n");
    let r = root.as_str();
    let v = vec![
        (cat2(r, "/README.md"), Some(render_markdown_file(render_readme_body(entry, closeout, closeout_path)))),
        (cat2(r, "/scope_brief.md"), Some(render_markdown_file(render_scope_brief_body(entry, r, closeout, closeout_path)))),
        (cat2(r, "/seam_map.md"), Some(render_markdown_file(render_seam_map_body(entry, r)))),
        (cat2(r, "/threading.md"), Some(render_markdown_file(render_threading_body(entry)))),
        (cat2(r, "/review_surfaces.md"), Some(render_markdown_file(render_review_surfaces_body(entry, r)))),
        (cat2(r, "/governance/remediation-log.md"), Some(render_markdown_file(render_remediation_log_body(closeout)))),
        (cat2(r, "/HANDOFF.md"), Some(render_markdown_file(render_handoff_body(entry, closeout, closeout_path, touchpoints.as_str())))),
    ];
    assert(preview_view(v@) =~= docs_preview(*entry, *closeout, closeout_path@));
    v
}

// ---------------------------------------------------------------------------------------------
// Closeout prerequisites

/// Why closing a proving run stopped.
#[derive(Debug)]
pub enum Error {
    Validation(String),
    Internal(String),
}

impl Error {
    pub open spec fn text(&self) -> Seq<char> {
        match self {
            Error::Validation(m) => m@,
            Error::Internal(m) => m@,
        }
    }

    /// The process exit code: 2 for a validation failure, 1 for an internal one.
    pub fn exit_code(&self) -> (r: i32)
        ensures
            r == (if self is Validation { 2i32 } else { 1i32 }),
    {
        match self {
            Error::Validation(_) => 2,
            Error::Internal(_) => 1,
        }
    }

    pub fn message(&self) -> (r: String)
        ensures
            r@ == self.text(),
    {
        match self {
            Error::Validation(m) => to_owned(m.as_str()),
            Error::Internal(m) => to_owned(m.as_str()),
        }
    }
}

pub open spec fn refused_with<T>(r: Result<T, Error>, m: Seq<char>) -> bool {
    r matches Err(Error::Validation(x)) && x@ == m
}

/// The backends that support `capability_id`, in order.
pub fn supported_backends(backends: &Vec<(String, Vec<String>)>, capability_id: &str) -> (r: Vec<String>)
    ensures
        views(r@) == supporters(backends_plain(backends@), capability_id@),
{
    supporters_of(backends, capability_id)
}

pub open spec fn green_line(bp: Seq<(Seq<char>, Seq<Seq<char>>)>, c: Seq<char>) -> Seq<char> {
    let sup = supporters(bp, c);
    c + ": supported by "@ + decimal(sup.len()) + " backend(s): ["@ + join(sup, ", "@) + "]"@
}

pub open spec fn green_lines(bp: Seq<(Seq<char>, Seq<Seq<char>>)>, vs: Seq<Seq<char>>) -> Seq<Seq<char>> {
    vs.map_values(|c: Seq<char>| green_line(bp, c))
}

/// The orthogonality audit that closing a proving run requires to be green: every
/// `agent_api.*` capability outside the allowlist is supported by at least two backends. The
/// backends come by name, ascending and distinct.
pub fn validate_capability_matrix_audit_green(backends: &Vec<(String, Vec<String>)>) -> (r: Result<(), Error>)
    requires
        ascending(crate::capability_publication::backend_names(backends@)),
    ensures
        (r is Ok) <==> (forall|c: Seq<char>| #[trigger] all_ids(backends_plain(backends@)).contains(c) ==> !violates(backends_plain(backends@), c)),
        r is Err ==> exists|all: Seq<Seq<char>>|
            ascending(all) && all.to_set() == all_ids(backends_plain(backends@))
                && refused_with(r, "capability-matrix-audit failed: "@ + join(green_lines(backends_plain(backends@), violating(all, backends_plain(backends@))), " | "@)),
{
    let ghost bp = backends_plain(backends@);
    let all = all_capability_ids(backends);
    let ghost allv = views(all@);
    let mut violations: Vec<String> = Vec::new();
    let mut lines: Vec<String> = Vec::new();
    let mut j: usize = 0;
    proof {
        assert(allv.subrange(0, 0) =~= Seq::<Seq<char>>::empty());
        assert(views(violations@) =~= Seq::<Seq<char>>::empty());
        assert(views(lines@) =~= green_lines(bp, Seq::<Seq<char>>::empty()));
    }
    while j < all.len()
        invariant
            j <= all.len(),
            bp == backends_plain(backends@),
            allv == views(all@),
            allv.len() == all.len(),
            views(violations@) == violating(allv.subrange(0, j as int), bp),
            views(lines@) == green_lines(bp, views(violations@)),
        decreases all.len() - j,
    {
        let c = all[j].as_str();
        proof {
            assert(allv.subrange(0, j + 1).drop_last() =~= allv.subrange(0, j as int));
            assert(allv.subrange(0, j + 1).last() == c@);
        }
        if starts_with(c, "agent_api.") && !crate::capability_publication::is_allowlisted(c) {
            let sup = supported_backends(backends, c);
            if sup.len() < 2 {
                let ghost before = views(violations@);
                let ghost lines_before = views(lines@);
                violations.push(to_owned(c));
                let mut line = cat2(c, ": supported by ");
                let n = u64_text(sup.len() as u64);
                line.append(n.as_str());
                line.append(" backend(s): [");
                let joined = join_text(&sup, ", ");
                line.append(joined.as_str());
                line.append("]");
                lines.push(line);
                proof {
                    assert(views(violations@) =~= before.push(c@));
                    assert(views(lines@) =~= lines_before.push(green_line(bp, c@)));
                    assert(green_lines(bp, views(violations@)) =~= green_lines(bp, before).push(green_line(bp, c@)));
                }
            }
        }
        j = j + 1;
    }
    proof {
        assert(allv.subrange(0, all.len() as int) =~= allv);
        lemma_violating_empty(allv, bp);
    }
    if violations.len() == 0 {
        proof {
            assert forall|c: Seq<char>| #[trigger] all_ids(bp).contains(c) implies !violates(bp, c) by {
                assert(allv.to_set().contains(c));
                let k = choose|k: int| 0 <= k < allv.len() && allv[k] == c;
                assert(!violates(bp, allv[k]));
            }
        }
        return Ok(());
    }
    proof {
        let i = choose|i: int| 0 <= i < allv.len() && violates(bp, #[trigger] allv[i]);
        assert(allv.to_set().contains(allv[i]));
        assert(all_ids(bp).contains(allv[i]));
    }
    let mut m = to_owned("capability-matrix-audit failed: ");
    let joined = join_text(&lines, " | ");
    m.append(joined.as_str());
    Err(Error::Validation(m))
}

/// What a publication-ready packet says about whose it is.
#[derive(Debug, Clone)]
pub struct PacketIdentity {
    pub approval_artifact_path: String,
    pub approval_artifact_sha256: String,
    pub agent_id: String,
    pub manifest_root: String,
}

/// The first way the packet's identity departs from the approval and manifest root.
pub open spec fn packet_identity_problem(path: Seq<char>, p: PacketIdentity, approval: ApprovalArtifact, root: Seq<char>) -> Option<Seq<char>> {
    let quoted = "`"@ + path + "` "@;
    if p.approval_artifact_path@ != approval.relative_path@ {
        Some(quoted + "approval_artifact_path `"@ + p.approval_artifact_path@ + "` does not match `"@ + approval.relative_path@ + "`"@)
    } else if p.approval_artifact_sha256@ != approval.sha256@ {
        Some(quoted + "approval_artifact_sha256 does not match `"@ + approval.relative_path@ + "`"@)
    } else if p.agent_id@ != approval.descriptor.agent_id@ {
        Some(quoted + "agent_id `"@ + p.agent_id@ + "` does not match `"@ + approval.descriptor.agent_id@ + "`"@)
    } else if p.manifest_root@ != root {
        Some(quoted + "manifest_root `"@ + p.manifest_root@ + "` does not match `"@ + root + "`"@)
    } else {
        None
    }
}

/// The packet at `packet_path` must belong to this approval, agent and manifest root.
pub fn validate_packet_identity(packet_path: &str, packet: &PacketIdentity, approval: &ApprovalArtifact, manifest_root: &str) -> (r: Result<(), Error>)
    ensures
        match packet_identity_problem(packet_path@, *packet, *approval, manifest_root@) {
            None => r is Ok,
            Some(m) => refused_with(r, m),
        },
{
    let mut m = cat3("`", packet_path, "` ");
    if !str_eq(packet.approval_artifact_path.as_str(), approval.relative_path.as_str()) {
        m.append("approval_artifact_path `");
        m.append(packet.approval_artifact_path.as_str());
        m.append("` does not match `");
        m.append(approval.relative_path.as_str());
        m.append("`");
        return Err(Error::Validation(m));
    }
    if !str_eq(packet.approval_artifact_sha256.as_str(), approval.sha256.as_str()) {
        m.append("approval_artifact_sha256 does not match `");
        m.append(approval.relative_path.as_str());
        m.append("`");
        return Err(Error::Validation(m));
    }
    if !str_eq(packet.agent_id.as_str(), approval.descriptor.agent_id.as_str()) {
        m.append("agent_id `");
        m.append(packet.agent_id.as_str());
        m.append("` does not match `");
        m.append(approval.descriptor.agent_id.as_str());
        m.append("`");
        return Err(Error::Validation(m));
    }
    if !str_eq(packet.manifest_root.as_str(), manifest_root) {
        m.append("manifest_root `");
        m.append(packet.manifest_root.as_str());
        m.append("` does not match `");
        m.append(manifest_root);
        m.append("`");
        return Err(Error::Validation(m));
    }
    Ok(())
}

pub open spec fn normal_is(p: PartView, name: Seq<char>) -> bool {
    p matches PartView::Normal(n) && n == name
}

/// The onboarding pack a closeout belongs to: the `<prefix>` of
/// `docs/agents/lifecycle/<prefix>/governance/proving-run-closeout.json`.
pub open spec fn closeout_pack_prefix(p: Seq<char>) -> Result<Seq<char>, Seq<char>> {
    let parts = path_parts(p);
    if parts.len() != 6 || !normal_is(parts[0], "docs"@) || !normal_is(parts[1], "agents"@)
        || !normal_is(parts[2], "lifecycle"@) || !normal_is(parts[4], "governance"@)
        || !normal_is(parts[5], "proving-run-closeout.json"@) {
        Err(p + " must point to docs/agents/lifecycle/<prefix>/governance/proving-run-closeout.json"@)
    } else {
        match parts[3] {
            PartView::Normal(prefix) => Ok(prefix),
            _ => Err("onboarding pack prefix must be a normal path component"@),
        }
    }
}

fn is_normal(p: &Part, name: &str) -> (r: bool)
    ensures
        r == normal_is(p.view(), name@),
{
    match p {
        Part::Normal(n) => str_eq(n.as_str(), name),
        _ => false,
    }
}

/// `onboarding_pack_prefix_from_closeout_path`.
pub fn onboarding_pack_prefix_from_closeout_path(closeout_path: &str) -> (r: Result<String, Error>)
    ensures
        match closeout_pack_prefix(closeout_path@) {
            Ok(prefix) => r matches Ok(s) && s@ == prefix,
            Err(m) => refused_with(r, m),
        },
{
    let parts = components(closeout_path);
    let ghost pv = crate::paths::parts_view(parts@);
    if parts.len() != 6 || !is_normal(&parts[0], "docs") || !is_normal(&parts[1], "agents")
        || !is_normal(&parts[2], "lifecycle") || !is_normal(&parts[4], "governance")
        || !is_normal(&parts[5], "proving-run-closeout.json") {
        proof {
            if parts.len() == 6 {
                assert(pv[0] == parts@[0].view() && pv[1] == parts@[1].view() && pv[2] == parts@[2].view());
                assert(pv[4] == parts@[4].view() && pv[5] == parts@[5].view());
            }
        }
        return Err(Error::Validation(cat2(closeout_path, " must point to docs/agents/lifecycle/<prefix>/governance/proving-run-closeout.json")));
    }
    proof {
        assert(pv[0] == parts@[0].view() && pv[1] == parts@[1].view() && pv[2] == parts@[2].view());
        assert(pv[3] == parts@[3].view() && pv[4] == parts@[4].view() && pv[5] == parts@[5].view());
    }
    match &parts[3] {
        Part::Normal(prefix) => Ok(to_owned(prefix.as_str())),
        _ => Err(Error::Validation(to_owned("onboarding pack prefix must be a normal path component"))),
    }
}

} // verus!

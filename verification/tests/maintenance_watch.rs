use xtask_core::maintenance_watch::{
    build_curl_args, gcs_listing_url, gcs_page_versions, gcs_source, github_release_page, github_releases_url,
    github_source, parse_semver, percent_encode_query_value, select_target_version, GithubRelease,
    assemble_watch_queue, evaluate_watch_entry, render_watch_summary, watch_check_verdict, Error,
    MaintenanceWatchQueueEntry, WatchContract,
};
use xtask_core::agent_registry::{
    AgentRegistryEntry, CapabilityDeclaration, MaintenanceMetadata, PublicationFlags, ReleaseMetadata,
    ScaffoldMetadata, WrapperCoverageBinding,
};
use xtask_core::release_watch::{ReleaseWatchSourceKind, ReleaseWatchUpstream, ReleaseWatchVersionPolicy};

fn strings(items: &[&str]) -> Vec<String> {
    items.iter().map(|s| s.to_string()).collect()
}

fn release(tag: Option<&str>, draft: bool, prerelease: bool) -> GithubRelease {
    GithubRelease { tag_name: tag.map(str::to_string), draft, prerelease }
}

fn upstream() -> ReleaseWatchUpstream {
    ReleaseWatchUpstream {
        source_kind: ReleaseWatchSourceKind::GithubReleases,
        owner: Some("openai".to_string()),
        repo: Some("codex".to_string()),
        tag_prefix: Some("rust-v".to_string()),
        bucket: None,
        prefix: None,
        version_marker: None,
    }
}

#[test]
fn the_target_is_the_latest_stable_but_one() {
    let policy = ReleaseWatchVersionPolicy::LatestStableMinusOne;
    assert_eq!(select_target_version(&strings(&["1.0.0", "1.1.0", "1.2.0"]), policy), Some("1.1.0".to_string()));
    assert_eq!(select_target_version(&strings(&["1.2.0"]), policy), None);
    assert_eq!(select_target_version(&vec![], policy), None);
}

#[test]
fn query_values_keep_only_unreserved_bytes() {
    assert_eq!(percent_encode_query_value("AZaz09-._~"), "AZaz09-._~");
    assert_eq!(percent_encode_query_value("@scope/name"), "%40scope%2Fname");
    assert_eq!(percent_encode_query_value("a b+c"), "a%20b%2Bc");
    assert_eq!(percent_encode_query_value("é"), "%C3%A9");
    assert_eq!(percent_encode_query_value("€"), "%E2%82%AC");
    assert_eq!(percent_encode_query_value("😀"), "%F0%9F%98%80");
}

#[test]
fn curl_writes_the_body_to_a_file_and_sends_the_token_only_to_github() {
    let args = build_curl_args("https://api.github.com/repos/o/r/releases", "/tmp/body", Some("  secret "));
    assert_eq!(args[args.len() - 3], "-H");
    assert_eq!(args[args.len() - 2], "Authorization: Bearer secret");
    assert_eq!(args[args.len() - 1], "https://api.github.com/repos/o/r/releases");
    let o = args.iter().position(|a| a == "-o").expect("-o present");
    assert_eq!(args[o + 1], "/tmp/body");
    assert!(!args.iter().any(|a| a == "-C" || a == "--append"));

    let args = build_curl_args("https://storage.googleapis.com/x", "/tmp/body", Some("secret"));
    assert!(!args.iter().any(|a| a.starts_with("Authorization")));
    assert_eq!(args.len(), 17);
    let args = build_curl_args("https://api.github.com/x", "/tmp/body", Some("   "));
    assert_eq!(args.len(), 17);
}

#[test]
fn malformed_versions_name_their_context() {
    assert_eq!(parse_semver("1.2.3", "ctx").unwrap(), "1.2.3");
    let err = parse_semver("1.2", "latest_validated.txt").expect_err("not strict semver");
    assert_eq!(err.exit_code(), 2);
    assert!(err.message().starts_with("latest_validated.txt must be strict semver MAJOR.MINOR.PATCH (got `1.2`): "));
}

#[test]
fn github_pages_keep_published_prefixed_tags() {
    let (owner, repo, prefix) = github_source("codex", &upstream()).unwrap();
    assert_eq!(github_releases_url(&owner, &repo, 2), "https://api.github.com/repos/openai/codex/releases?per_page=100&page=2");
    let releases = vec![
        release(Some("rust-v0.2.0"), false, false),
        release(Some("rust-v0.3.0"), true, false),
        release(Some("rust-v0.4.0-alpha"), false, true),
        release(None, false, false),
        release(Some("other-1.0.0"), false, false),
        release(Some("rust-v0.1.0"), false, false),
    ];
    let (versions, last) = github_release_page("codex", &prefix, &releases).unwrap();
    assert_eq!(versions, strings(&["0.2.0", "0.1.0"]));
    assert!(last);
    let bad = vec![release(Some("rust-vnext"), false, false)];
    let err = github_release_page("codex", &prefix, &bad).expect_err("unreadable tag");
    assert!(err.message().starts_with("GitHub tag `rust-vnext` for agent `codex` must be strict semver"));
}

#[test]
fn a_missing_source_field_is_named() {
    let mut u = upstream();
    u.repo = None;
    let err = github_source("codex", &u).expect_err("repo missing");
    assert_eq!(err.message(), "release_watch repo missing for github_releases agent `codex`");
    let err = gcs_source("gcs_agent", &u).expect_err("bucket missing");
    assert_eq!(err.message(), "release_watch bucket missing for gcs_object_listing agent `gcs_agent`");
}

#[test]
fn gcs_listings_keep_objects_under_the_marker() {
    let mut u = upstream();
    u.bucket = Some("b".to_string());
    u.prefix = Some("releases".to_string());
    u.version_marker = Some("VERSION".to_string());
    let (bucket, prefix, marker) = gcs_source("gcs_agent", &u).unwrap();
    assert_eq!(prefix, "releases/");
    assert_eq!(gcs_listing_url(&bucket, &prefix, None), "https://storage.googleapis.com/storage/v1/b/b/o?prefix=releases/");
    assert_eq!(
        gcs_listing_url(&bucket, &prefix, Some("a/b=")),
        "https://storage.googleapis.com/storage/v1/b/b/o?prefix=releases/&pageToken=a%2Fb%3D"
    );
    let names = strings(&["releases/1.0.0/VERSION", "releases/1.0.1/other", "elsewhere/2.0.0/VERSION", "releases/2.0.0/VERSION"]);
    assert_eq!(gcs_page_versions("gcs_agent", &prefix, &marker, &names).unwrap(), strings(&["1.0.0", "2.0.0"]));
    let bad = strings(&["releases/latest/VERSION"]);
    let err = gcs_page_versions("gcs_agent", &prefix, &marker, &bad).expect_err("unreadable version");
    assert!(err.message().starts_with("GCS object `releases/latest/VERSION` for agent `gcs_agent` must be strict semver"));
}

fn stale_entry(agent: &str) -> MaintenanceWatchQueueEntry {
    MaintenanceWatchQueueEntry {
        agent_id: agent.to_string(),
        manifest_root: format!("cli_manifests/{agent}"),
        current_validated: "1.2.0".to_string(),
        latest_stable: "1.4.0".to_string(),
        target_version: "1.3.0".to_string(),
        version_policy: "latest_stable_minus_one".to_string(),
        dispatch_kind: "workflow_dispatch".to_string(),
        dispatch_workflow: "codex-maintenance.yml".to_string(),
        maintenance_root: format!("docs/agents/lifecycle/{agent}-maintenance"),
        request_path: format!("docs/agents/lifecycle/{agent}-maintenance/governance/maintenance-request.toml"),
        opened_from: ".github/workflows/codex-maintenance.yml".to_string(),
        detected_by: ".github/workflows/agent-maintenance-release-watch.yml".to_string(),
        branch_name: format!("automation/{agent}-maintenance-1.3.0"),
    }
}

#[test]
fn the_queue_keeps_stale_agents_and_failures_in_order() {
    let queue = assemble_watch_queue(
        "2026-01-01T00:00:00Z".to_string(),
        vec![
            ("codex".to_string(), Ok(Some(stale_entry("codex")))),
            ("gemini_cli".to_string(), Ok(None)),
            ("opencode".to_string(), Err(Error::Validation("no stable versions".to_string()))),
        ],
    );
    assert_eq!(queue.schema_version, 1);
    assert_eq!(queue.stale_agents, vec![stale_entry("codex")]);
    assert_eq!(queue.failed_agents.len(), 1);
    assert_eq!(queue.failed_agents[0].agent_id, "opencode");
    assert_eq!(queue.failed_agents[0].error, "no stable versions");
    assert_eq!(
        render_watch_summary(&queue),
        strings(&[
            "schema_version: 1",
            "generated_at: 2026-01-01T00:00:00Z",
            "stale_agents: 1",
            "failed_agents: 1",
            "codex -> 1.3.0 (current 1.2.0 latest 1.4.0 via codex-maintenance.yml)",
            "opencode failed: no stable versions",
        ])
    );
}

#[test]
fn check_mode_fails_only_with_stale_agents() {
    let stale = assemble_watch_queue("t".to_string(), vec![("codex".to_string(), Ok(Some(stale_entry("codex"))))]);
    let current = assemble_watch_queue("t".to_string(), vec![("codex".to_string(), Ok(None))]);
    match watch_check_verdict(true, &stale) {
        Err(e) => assert_eq!(
            e.message(),
            "maintenance-watch found 1 stale enrolled agent(s); rerun with --emit-json to inspect the queue"
        ),
        Ok(()) => panic!("a stale queue must fail the check"),
    }
    assert!(watch_check_verdict(false, &stale).is_ok());
    assert!(watch_check_verdict(true, &current).is_ok());
}

fn registry_entry(agent_id: &str) -> AgentRegistryEntry {
    AgentRegistryEntry {
        agent_id: agent_id.to_string(),
        display_name: agent_id.to_string(),
        crate_path: format!("crates/{agent_id}"),
        backend_module: format!("crates/agent_api/src/backends/{agent_id}"),
        manifest_root: format!("cli_manifests/{agent_id}"),
        package_name: format!("unified-agent-api-{agent_id}"),
        canonical_targets: strings(&["linux-x64"]),
        wrapper_coverage: WrapperCoverageBinding {
            binding_kind: "generated_from_wrapper_crate".to_string(),
            source_path: format!("crates/{agent_id}"),
        },
        capability_declaration: CapabilityDeclaration {
            always_on: strings(&["agent_api.run"]),
            target_gated: vec![],
            config_gated: vec![],
            backend_extensions: vec![],
        },
        publication: PublicationFlags {
            support_matrix_enabled: true,
            capability_matrix_enabled: true,
            capability_matrix_target: None,
        },
        release: ReleaseMetadata { docs_release_track: "crates-io".to_string() },
        scaffold: ScaffoldMetadata { onboarding_pack_prefix: format!("{agent_id}-onboarding") },
        maintenance: MaintenanceMetadata { governance_checks: vec![] },
    }
}

fn contract(workflow: Result<&str, &str>) -> WatchContract {
    WatchContract {
        version_policy: "latest_stable_minus_one".to_string(),
        dispatch_kind: "workflow_dispatch".to_string(),
        dispatch_workflow: workflow.map(str::to_string).map_err(str::to_string),
        request_path: "docs/agents/lifecycle/codex-maintenance/governance/maintenance-request.toml".to_string(),
        opened_from: ".github/workflows/codex-maintenance.yml".to_string(),
        detected_by: ".github/workflows/agent-maintenance-release-watch.yml".to_string(),
    }
}

#[test]
fn a_stale_agent_is_queued_at_the_latest_but_one_version_in_semver_order() {
    let versions = strings(&["1.9.0", "1.10.0", "1.8.0", "1.9.0"]);
    let entry = evaluate_watch_entry(
        &registry_entry("codex"),
        ReleaseWatchVersionPolicy::LatestStableMinusOne,
        "1.8.0",
        &versions,
        &contract(Ok("codex-maintenance.yml")),
    )
    .expect("evaluates")
    .expect("stale");
    assert_eq!(entry.latest_stable, "1.10.0");
    assert_eq!(entry.target_version, "1.9.0");
    assert_eq!(entry.current_validated, "1.8.0");
    assert_eq!(entry.branch_name, "automation/codex-maintenance-1.9.0");
    assert_eq!(entry.maintenance_root, "docs/agents/lifecycle/codex-maintenance");
    assert_eq!(entry.dispatch_workflow, "codex-maintenance.yml");
}

#[test]
fn an_agent_at_or_past_the_target_is_not_queued() {
    for current in ["1.9.0", "1.10.0"] {
        let result = evaluate_watch_entry(
            &registry_entry("codex"),
            ReleaseWatchVersionPolicy::LatestStableMinusOne,
            current,
            &strings(&["1.9.0", "1.10.0"]),
            &contract(Ok("codex-maintenance.yml")),
        );
        assert!(matches!(result, Ok(None)), "current {current}");
    }
    let single = evaluate_watch_entry(
        &registry_entry("codex"),
        ReleaseWatchVersionPolicy::LatestStableMinusOne,
        "1.0.0",
        &strings(&["2.0.0", "2.0.0"]),
        &contract(Ok("codex-maintenance.yml")),
    );
    assert!(matches!(single, Ok(None)));
}

#[test]
fn no_upstream_versions_or_no_dispatch_workflow_fail_the_agent() {
    match evaluate_watch_entry(&registry_entry("codex"), ReleaseWatchVersionPolicy::LatestStableMinusOne, "1.0.0", &vec![], &contract(Ok("w.yml"))) {
        Err(e) => assert_eq!(e.message(), "maintenance-watch found no stable upstream versions for agent `codex`"),
        Ok(_) => panic!("no versions must fail"),
    }
    match evaluate_watch_entry(
        &registry_entry("codex"),
        ReleaseWatchVersionPolicy::LatestStableMinusOne,
        "1.0.0",
        &strings(&["1.1.0", "1.2.0"]),
        &contract(Err("dispatch_workflow is required")),
    ) {
        Err(e) => {
            assert_eq!(e.exit_code(), 2);
            assert_eq!(e.message(), "dispatch_workflow is required");
        },
        Ok(_) => panic!("a missing workflow must fail"),
    }
}

use xtask_core::onboard_agent::{
    normalize_capability_matrix_target, normalize_ordered_unique, normalize_sorted_unique,
    parse_config_gates, parse_gate_targets, parse_target_gates, required_arg, required_bool,
    validate_gate_scalar, Error,
};
use xtask_core::onboard_preview::{ConfigGate, TargetGate};

fn strings(items: &[&str]) -> Vec<String> {
    items.iter().map(|s| s.to_string()).collect()
}

fn refusal<T: std::fmt::Debug>(r: Result<T, Error>) -> String {
    let err = r.expect_err("expected a refusal");
    assert_eq!(err.exit_code(), 2);
    err.message()
}

fn canonical() -> Vec<String> {
    strings(&["linux-x64", "darwin-arm64", "win32-x64"])
}

#[test]
fn id_lists_are_trimmed_and_keep_their_order() {
    assert_eq!(
        normalize_ordered_unique(strings(&[" b ", "a"]), "--always-on-capability", true).unwrap(),
        strings(&["b", "a"])
    );
    assert_eq!(
        refusal(normalize_ordered_unique(vec![], "--canonical-target", true)),
        "--canonical-target must be provided at least once"
    );
    assert!(normalize_ordered_unique(vec![], "--backend-extension", false).unwrap().is_empty());
    assert_eq!(
        refusal(normalize_ordered_unique(strings(&["a", "  "]), "--x", false)),
        "--x must not contain empty values"
    );
    assert_eq!(
        refusal(normalize_ordered_unique(strings(&["a", " a"]), "--x", false)),
        "--x contains duplicate value `a`"
    );
}

#[test]
fn sorted_id_lists_are_ascending() {
    assert_eq!(
        normalize_sorted_unique(strings(&["zeta", "alpha", " mid "]), "--x").unwrap(),
        strings(&["alpha", "mid", "zeta"])
    );
}

#[test]
fn gate_targets_are_checked_in_the_order_written() {
    assert_eq!(
        parse_gate_targets(" darwin-arm64, ,linux-x64 ", "--t", "v", &canonical()).unwrap(),
        strings(&["darwin-arm64", "linux-x64"])
    );
    assert_eq!(
        refusal(parse_gate_targets(" , ", "--t", "cap: , ", &canonical())),
        "--t must declare at least one target in `cap: , `"
    );
    assert_eq!(
        refusal(parse_gate_targets("linux-x64,linux-x64", "--t", "v", &canonical())),
        "--t contains duplicate target `linux-x64` in `v`"
    );
    assert_eq!(
        refusal(parse_gate_targets("freebsd", "--t", "v", &canonical())),
        "--t target `freebsd` is not present in --canonical-target"
    );
    assert_eq!(validate_gate_scalar("  id ", "--t", "v").unwrap(), "id");
    assert_eq!(refusal(validate_gate_scalar(" ", "--t", "v")), "--t contains an empty field in `v`");
}

#[test]
fn target_gates_sort_their_targets_by_canonical_position() {
    let gates = parse_target_gates(
        strings(&["agent_api.tools.mcp.list.v1:win32-x64,linux-x64", "agent_api.x:darwin-arm64"]),
        "--target-gated-capability",
        &canonical(),
    )
    .unwrap();
    assert_eq!(
        gates,
        vec![
            TargetGate { capability_id: "agent_api.tools.mcp.list.v1".to_string(), targets: strings(&["linux-x64", "win32-x64"]) },
            TargetGate { capability_id: "agent_api.x".to_string(), targets: strings(&["darwin-arm64"]) },
        ]
    );
}

#[test]
fn target_gates_refuse_malformed_and_repeated_values() {
    let flag = "--target-gated-capability";
    assert_eq!(
        refusal(parse_target_gates(strings(&["agent_api.x"]), flag, &canonical())),
        "--target-gated-capability must be formatted as <capability-id>:<target>[,<target>...] (got `agent_api.x`)"
    );
    assert_eq!(
        refusal(parse_target_gates(strings(&["a:linux-x64", " a :linux-x64"]), flag, &canonical())),
        "--target-gated-capability contains duplicate entry ` a :linux-x64`"
    );
    // The same targets written in another order are a different entry as written.
    assert_eq!(
        parse_target_gates(strings(&["a:linux-x64,win32-x64", "a:win32-x64,linux-x64"]), flag, &canonical())
            .unwrap()
            .len(),
        2
    );
}

#[test]
fn config_gates_take_an_optional_target_list() {
    let gates = parse_config_gates(
        strings(&["agent_api.exec.external_sandbox.v1:allow_external_sandbox_exec", "agent_api.tools.mcp.add.v1:allow_mcp_write:win32-x64,linux-x64"]),
        "--config-gated-capability",
        &canonical(),
    )
    .unwrap();
    assert_eq!(
        gates,
        vec![
            ConfigGate {
                capability_id: "agent_api.exec.external_sandbox.v1".to_string(),
                config_key: "allow_external_sandbox_exec".to_string(),
                targets: None,
            },
            ConfigGate {
                capability_id: "agent_api.tools.mcp.add.v1".to_string(),
                config_key: "allow_mcp_write".to_string(),
                targets: Some(strings(&["linux-x64", "win32-x64"])),
            },
        ]
    );
}

#[test]
fn config_gates_refuse_empty_fields_and_duplicate_signatures() {
    let flag = "--config-gated-capability";
    assert_eq!(
        refusal(parse_config_gates(strings(&["agent_api.x"]), flag, &canonical())),
        "--config-gated-capability contains an empty field in `agent_api.x`"
    );
    assert_eq!(
        refusal(parse_config_gates(strings(&[":key"]), flag, &canonical())),
        "--config-gated-capability contains an empty field in `:key`"
    );
    assert_eq!(
        refusal(parse_config_gates(strings(&["a:k:win32-x64,linux-x64", "a:k:linux-x64,win32-x64"]), flag, &canonical())),
        "--config-gated-capability contains duplicate entry `a:k:linux-x64,win32-x64`"
    );
    assert_eq!(
        refusal(parse_config_gates(strings(&["a:k:"]), flag, &canonical())),
        "--config-gated-capability must declare at least one target in `a:k:`"
    );
}

#[test]
fn descriptor_arguments_are_required_without_an_approval() {
    assert_eq!(required_arg(Some(" codex ".to_string()), "--agent-id").unwrap(), "codex");
    assert_eq!(
        refusal(required_arg(None, "--agent-id")),
        "--agent-id must be provided when --approval is not used"
    );
    assert_eq!(
        refusal(required_arg(Some("  ".to_string()), "--agent-id")),
        "--agent-id must not be empty when --approval is not used"
    );
    assert_eq!(required_bool(Some(false), "--support-matrix-enabled").unwrap(), false);
    assert_eq!(
        refusal(required_bool(None, "--support-matrix-enabled")),
        "--support-matrix-enabled must be provided when --approval is not used"
    );
}

#[test]
fn the_matrix_target_is_required_for_target_scoped_declarations() {
    let gated = vec![TargetGate { capability_id: "a".to_string(), targets: strings(&["linux-x64"]) }];
    assert_eq!(
        normalize_capability_matrix_target(Some(" linux-x64 ".to_string()), &canonical(), true, &gated, &vec![], false).unwrap(),
        Some("linux-x64".to_string())
    );
    assert_eq!(
        refusal(normalize_capability_matrix_target(Some("freebsd".to_string()), &canonical(), true, &gated, &vec![], false)),
        "--capability-matrix-target `freebsd` is not present in --canonical-target"
    );
    assert_eq!(
        refusal(normalize_capability_matrix_target(None, &canonical(), true, &gated, &vec![], true)),
        "--capability-matrix-target is required when capability-matrix publication uses target-scoped declarations"
    );
    assert_eq!(
        normalize_capability_matrix_target(None, &strings(&["linux-x64"]), true, &gated, &vec![], true).unwrap(),
        Some("linux-x64".to_string())
    );
    assert_eq!(normalize_capability_matrix_target(None, &canonical(), false, &gated, &vec![], false).unwrap(), None);
    let scoped = vec![ConfigGate { capability_id: "c".to_string(), config_key: "k".to_string(), targets: Some(strings(&["linux-x64"])) }];
    assert!(normalize_capability_matrix_target(None, &canonical(), true, &vec![], &scoped, false).is_err());
}

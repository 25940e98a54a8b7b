use sha2::{Digest, Sha256};

use xtask_core::approval_artifact::{
    approval_comparison_ref, parse_approval_document, parse_approval_text, parse_approval_toml, validate_approval_path,
    validate_artifact_version, validate_commit_value, validate_rfc3339_value, ApprovalArtifact,
    ApprovalArtifactError,
};

const PATH: &str = "docs/agents/lifecycle/gemini-onboarding/governance/approved-agent.toml";

const APPROVAL: &str = r#"artifact_version = "1"
comparison_ref = "docs/agents/lifecycle/gemini-onboarding/governance/comparison.md"
selection_mode = "factory_validation"
recommended_agent_id = "gemini_cli"
approved_agent_id = "gemini_cli"
approval_commit = "0123abc"
approval_recorded_at = "2026-04-21T11:23:09Z"

[descriptor]
agent_id = "gemini_cli"
display_name = " Gemini CLI "
crate_path = "crates/gemini_cli"
backend_module = "crates/agent_api/src/backends/gemini_cli"
manifest_root = "cli_manifests/gemini_cli"
package_name = "unified-agent-api-gemini-cli"
canonical_targets = ["linux-x64", "darwin-arm64"]
wrapper_coverage_binding_kind = "generated_from_wrapper_crate"
wrapper_coverage_source_path = "crates/gemini_cli"
always_on_capabilities = ["agent_api.run"]
support_matrix_enabled = true
capability_matrix_enabled = false
docs_release_track = "crates-io"
onboarding_pack_prefix = "gemini-onboarding"

[[descriptor.target_gated_capabilities]]
capability_id = "agent_api.tools.mcp.list.v1"
targets = ["linux-x64", "darwin-arm64"]

[[descriptor.config_gated_capabilities]]
capability_id = "agent_api.exec.external_sandbox.v1"
config_key = "allow_external_sandbox_exec"
"#;

fn validation(err: ApprovalArtifactError) -> String {
    match err {
        ApprovalArtifactError::Validation(m) => m,
        ApprovalArtifactError::Internal(m) => panic!("expected a validation error, got internal `{m}`"),
    }
}

fn load(text: &str) -> Result<ApprovalArtifact, ApprovalArtifactError> {
    let prefix = validate_approval_path(PATH)?;
    let root = parse_approval_toml(PATH, text)?;
    approval_comparison_ref(&root, PATH)?;
    parse_approval_document(&root, PATH, "/work/repo/approved-agent.toml", &prefix, None, text.as_bytes())
}

#[test]
fn an_approval_path_yields_its_pack_prefix() {
    assert_eq!(validate_approval_path(PATH).unwrap(), "gemini-onboarding");
}

#[test]
fn approval_paths_outside_the_governance_layout_are_refused() {
    for path in [
        "docs/agents/lifecycle/gemini-onboarding/approved-agent.toml",
        "docs/agents/lifecycle/gemini-onboarding/governance/other.toml",
        "/docs/agents/lifecycle/p/governance/approved-agent.toml",
        "docs/agents/lifecycle/../governance/approved-agent.toml",
        "docs/agents/later/p/governance/approved-agent.toml",
        "",
    ] {
        let message = validation(validate_approval_path(path).unwrap_err());
        assert_eq!(
            message,
            format!(
                "approval path `{path}` must be repo-relative and match `docs/agents/lifecycle/<prefix>/governance/approved-agent.toml`"
            )
        );
    }
}

#[test]
fn a_well_formed_approval_is_read_in_full() {
    let artifact = load(APPROVAL).expect("valid approval");
    assert_eq!(artifact.relative_path, PATH);
    assert_eq!(artifact.canonical_path, "/work/repo/approved-agent.toml");
    assert_eq!(artifact.sha256, hex_of(APPROVAL.as_bytes()));
    let d = &artifact.descriptor;
    assert_eq!(d.agent_id, "gemini_cli");
    assert_eq!(d.display_name, "Gemini CLI");
    assert_eq!(d.canonical_targets, vec!["linux-x64".to_string(), "darwin-arm64".to_string()]);
    assert_eq!(d.always_on_capabilities, vec!["agent_api.run".to_string()]);
    assert_eq!(
        d.target_gated_capabilities,
        vec!["agent_api.tools.mcp.list.v1:linux-x64,darwin-arm64".to_string()]
    );
    assert_eq!(
        d.config_gated_capabilities,
        vec!["agent_api.exec.external_sandbox.v1:allow_external_sandbox_exec".to_string()]
    );
    assert!(d.backend_extensions.is_empty());
    assert!(d.support_matrix_enabled);
    assert!(!d.capability_matrix_enabled);
    assert_eq!(d.onboarding_pack_prefix, "gemini-onboarding");
}

fn hex_of(bytes: &[u8]) -> String {
    Sha256::digest(bytes).iter().map(|b| format!("{b:02x}")).collect()
}

#[test]
fn the_comparison_ref_is_named_before_the_rest_is_read() {
    let root = parse_approval_toml(PATH, APPROVAL).unwrap();
    assert_eq!(
        approval_comparison_ref(&root, PATH).unwrap(),
        "docs/agents/lifecycle/gemini-onboarding/governance/comparison.md"
    );
    let problem = "comparison_ref does not resolve".to_string();
    let err = parse_approval_document(&root, PATH, "/c", "gemini-onboarding", Some(problem.clone()), b"").unwrap_err();
    assert_eq!(validation(err), problem);
}

#[test]
fn a_comparison_ref_outside_the_repo_is_refused() {
    let text = APPROVAL.replace(
        "comparison_ref = \"docs/agents/lifecycle/gemini-onboarding/governance/comparison.md\"",
        "comparison_ref = \"../comparison.md\"",
    );
    let root = parse_approval_toml(PATH, &text).unwrap();
    assert_eq!(
        validation(approval_comparison_ref(&root, PATH).unwrap_err()),
        format!("approval artifact `{PATH}` field `comparison_ref` must be a repo-relative file path with only normal path components")
    );
}

#[test]
fn a_differing_recommendation_needs_an_override_reason() {
    let text = APPROVAL.replace("recommended_agent_id = \"gemini_cli\"", "recommended_agent_id = \"other\"");
    assert_eq!(
        validation(load(&text).unwrap_err()),
        format!("approval artifact `{PATH}` must include `override_reason` when `recommended_agent_id` and `approved_agent_id` differ")
    );
    let text = text.replace("approval_commit", "override_reason = \"operator choice\"\napproval_commit");
    assert!(load(&text).is_ok());
}

#[test]
fn an_unknown_selection_mode_is_refused() {
    let text = APPROVAL.replace("factory_validation", "guesswork");
    assert_eq!(
        validation(load(&text).unwrap_err()),
        format!("approval artifact `{PATH}` has invalid `selection_mode` `guesswork`; expected `factory_validation` or `frontier_expansion`")
    );
}

#[test]
fn the_descriptor_must_match_the_approved_agent_and_the_pack() {
    let text = APPROVAL.replace("agent_id = \"gemini_cli\"\ndisplay_name", "agent_id = \"gemini\"\ndisplay_name");
    assert_eq!(
        validation(load(&text).unwrap_err()),
        format!("approval artifact `{PATH}` has `descriptor.agent_id` `gemini` that does not match `approved_agent_id` `gemini_cli`")
    );
    let text = APPROVAL.replace("onboarding_pack_prefix = \"gemini-onboarding\"", "onboarding_pack_prefix = \"other\"");
    assert_eq!(
        validation(load(&text).unwrap_err()),
        format!("approval artifact `{PATH}` belongs to onboarding_pack_prefix `other` instead of `gemini-onboarding`")
    );
}

#[test]
fn field_types_are_checked() {
    let text = APPROVAL.replace("support_matrix_enabled = true", "support_matrix_enabled = \"yes\"");
    assert_eq!(validation(load(&text).unwrap_err()), format!("approval artifact `{PATH}` field `support_matrix_enabled` must be a bool"));
    let text = APPROVAL.replace("display_name = \" Gemini CLI \"", "display_name = \"  \"");
    assert_eq!(validation(load(&text).unwrap_err()), format!("approval artifact `{PATH}` field `display_name` must not be empty"));
    let text = APPROVAL.replace("canonical_targets = [\"linux-x64\", \"darwin-arm64\"]", "canonical_targets = [\"linux-x64\", 3]");
    assert_eq!(validation(load(&text).unwrap_err()), format!("approval artifact `{PATH}` field `canonical_targets` must contain only strings"));
    let text = APPROVAL.split("[descriptor]").next().unwrap().to_string();
    assert_eq!(validation(load(&text).unwrap_err()), format!("approval artifact `{PATH}` is missing required table `descriptor`"));
}

#[test]
fn unparseable_toml_is_a_validation_error() {
    let message = validation(parse_approval_toml(PATH, "artifact_version = ").unwrap_err());
    assert!(message.starts_with(&format!("parse approval artifact `{PATH}`: ")), "{message}");
}

#[test]
fn scalar_rules_match_their_messages() {
    assert!(validate_artifact_version(PATH, "1").is_ok());
    assert_eq!(
        validation(validate_artifact_version(PATH, "2").unwrap_err()),
        format!("approval artifact `{PATH}` has unsupported `artifact_version` `2`; expected `1`")
    );
    assert!(validate_commit_value("p", "approval_commit", "0123abc").is_ok());
    assert!(validate_commit_value("p", "approval_commit", &"a".repeat(40)).is_ok());
    for bad in ["0123ab", "0123ABC", &"a".repeat(41), "0123abg"] {
        assert_eq!(
            validation(validate_commit_value("p", "approval_commit", bad).unwrap_err()),
            "p: `approval_commit` must be 7-40 lowercase hex characters"
        );
    }
    assert!(validate_rfc3339_value("p", "approval_recorded_at", "2026-04-21T11:23:09Z").is_ok());
    let message = validation(validate_rfc3339_value("p", "approval_recorded_at", "2026-04-21").unwrap_err());
    assert!(message.starts_with("p: `approval_recorded_at` must be RFC3339 ("), "{message}");
}

#[test]
fn an_artifact_read_from_its_text_carries_the_digest_of_that_text() {
    let artifact = parse_approval_text(PATH, "/work/repo/approved-agent.toml", "gemini-onboarding", None, APPROVAL)
        .expect("valid approval");
    assert_eq!(artifact.sha256, hex_of(APPROVAL.as_bytes()));
    assert_eq!(artifact.relative_path, PATH);
    let edited = APPROVAL.replace("artifact_version = \"1\"", "artifact_version = \"1\"\n");
    let again = parse_approval_text(PATH, "/work/repo/approved-agent.toml", "gemini-onboarding", None, &edited)
        .expect("still valid");
    assert_ne!(again.sha256, artifact.sha256);
    assert_eq!(again.sha256, hex_of(edited.as_bytes()));
    let message = validation(parse_approval_text(PATH, "/c", "gemini-onboarding", None, "artifact_version = ").unwrap_err());
    assert!(message.starts_with(&format!("parse approval artifact `{PATH}`: ")), "{message}");
}

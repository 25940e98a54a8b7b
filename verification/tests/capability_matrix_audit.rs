use xtask_core::capability_publication::audit_capability_publication;

fn backend(name: &str, ids: &[&str]) -> (String, Vec<String>) {
    (name.to_string(), ids.iter().map(|id| id.to_string()).collect())
}

#[test]
fn non_allowlisted_agent_api_cap_supported_by_1_backend_fails() {
    let backends = vec![
        backend("claude_code", &["agent_api.run"]),
        backend("codex", &["agent_api.run", "agent_api.tools.results.v1"]),
    ];

    let err = audit_capability_publication(&backends).unwrap_err();
    assert!(err.contains("published agents: [claude_code, codex]"));
    assert!(err.contains("agent_api.tools.results.v1"));
}

#[test]
fn non_allowlisted_agent_api_cap_supported_by_2_backends_passes() {
    let backends = vec![
        backend("claude_code", &["agent_api.run", "agent_api.tools.results.v1"]),
        backend("codex", &["agent_api.run", "agent_api.tools.results.v1"]),
    ];

    audit_capability_publication(&backends).unwrap();
}

#[test]
fn allowlisted_agent_api_cap_supported_by_1_backend_is_ignored() {
    let backends = vec![backend("claude_code", &["agent_api.run"]), backend("codex", &[])];

    audit_capability_publication(&backends).unwrap();
}

#[test]
fn allowlisted_mcp_cap_supported_by_1_backend_is_ignored() {
    let backends = vec![
        backend("claude_code", &["agent_api.tools.mcp.list.v1"]),
        backend("codex", &[]),
    ];

    audit_capability_publication(&backends).unwrap();
}

#[test]
fn the_audit_message_counts_and_lists_each_violation() {
    let backends = vec![
        backend("claude_code", &["agent_api.a.v1", "agent_api.run"]),
        backend("codex", &["agent_api.b.v1", "other.cap"]),
    ];

    let err = audit_capability_publication(&backends).unwrap_err();
    assert!(err.contains("2 violation(s)"), "{err}");
    assert!(err.contains("agent_api.a.v1"), "{err}");
    assert!(err.contains("agent_api.b.v1"), "{err}");
    assert!(!err.contains("other.cap"), "{err}");
    assert!(err.ends_with("agent_api.tools.mcp.remove.v1]\n"), "{err}");
}

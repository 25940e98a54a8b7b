use xtask_core::release_preview::{
    find_text, publishable_release_packages, render_release_doc_block, splice_release_doc_block,
    workspace_member_insertion, MemberManifest,
};

const START: &str = "<!-- section: crates-io-release -->";
const END: &str = "<!-- /section: crates-io-release -->";

fn strings(items: &[&str]) -> Vec<String> {
    items.iter().map(|s| s.to_string()).collect()
}

#[test]
fn the_release_block_lists_packages_then_their_order() {
    let block = render_release_doc_block(&strings(&["a", "b"]), START, END);
    assert_eq!(
        block,
        format!(
            "{START}\n## Published crates\n\nThis repository publishes 2 Rust packages for each root `VERSION` bump:\n\n\
             - `a`\n- `b`\n\n## Publish order\n\nAlways publish in this order:\n\n1. `a`\n2. `b`\n{END}"
        )
    );
}

#[test]
fn an_existing_block_is_replaced_in_place() {
    let doc = format!("# Release\n\n{START}\nold\n{END}\ntrailer\n");
    assert_eq!(splice_release_doc_block(&doc, "NEW", START, END), "# Release\n\nNEW\ntrailer\n");
}

#[test]
fn a_missing_block_is_appended_after_a_blank_line() {
    assert_eq!(splice_release_doc_block("# Release\n\n\n", "NEW", START, END), "# Release\n\nNEW\n");
    let reversed = format!("{END}\n{START}\n");
    assert_eq!(splice_release_doc_block(&reversed, "NEW", START, END), format!("{END}\n{START}\n\nNEW\n"));
    assert_eq!(find_text("abcabc", "ca"), Some(2));
    assert_eq!(find_text("abc", ""), Some(0));
    assert_eq!(find_text("abc", "x"), None);
}

#[test]
fn published_packages_end_with_wrapper_events_then_the_root() {
    let members = vec![
        (Some("crates/agent_api".to_string()), "crates/agent_api/Cargo.toml".to_string(),
            MemberManifest::Text("[package]\nname = \"unified-agent-api\"\n".to_string())),
        (Some("crates/wrapper_events".to_string()), "crates/wrapper_events/Cargo.toml".to_string(),
            MemberManifest::Text("[package]\nname = \"unified-agent-api-wrapper-events\"\n".to_string())),
        (Some("crates/codex".to_string()), "crates/codex/Cargo.toml".to_string(),
            MemberManifest::Text("[package]\nname = \"unified-agent-api-codex\"\n".to_string())),
        (Some("crates/xtask".to_string()), "crates/xtask/Cargo.toml".to_string(),
            MemberManifest::Text("[package]\nname = \"xtask\"\npublish = false\n".to_string())),
        (Some("crates/gone".to_string()), "crates/gone/Cargo.toml".to_string(), MemberManifest::Missing),
        (Some("crates/new".to_string()), "crates/new/Cargo.toml".to_string(), MemberManifest::Missing),
    ];
    let order = publishable_release_packages("crates/new", "unified-agent-api-new", &members).unwrap();
    assert_eq!(order, strings(&["unified-agent-api-codex", "unified-agent-api-new", "unified-agent-api-wrapper-events", "unified-agent-api"]));
}

#[test]
fn unreadable_or_malformed_members_are_internal_errors() {
    let members = vec![(None, "x/Cargo.toml".to_string(), MemberManifest::Missing)];
    let err = publishable_release_packages("crates/new", "n", &members).expect_err("non-string member");
    assert_eq!(err.exit_code(), 1);
    assert_eq!(err.message(), "workspace.members entries must be strings");
    let members = vec![(Some("crates/a".to_string()), "crates/a/Cargo.toml".to_string(), MemberManifest::Unreadable("denied".to_string()))];
    let err = publishable_release_packages("crates/new", "n", &members).expect_err("unreadable");
    assert_eq!(err.message(), "read crates/a/Cargo.toml: denied");
    let members = vec![(Some("crates/a".to_string()), "crates/a/Cargo.toml".to_string(), MemberManifest::Text("[package".to_string()))];
    let err = publishable_release_packages("crates/new", "n", &members).expect_err("malformed");
    assert!(err.message().starts_with("parse crates/a/Cargo.toml: "));
}

#[test]
fn a_new_crate_joins_before_wrapper_events() {
    let members = vec![Some("crates/agent_api".to_string()), Some("crates/wrapper_events".to_string()), Some("crates/xtask".to_string())];
    assert_eq!(workspace_member_insertion(&members, "crates/new"), Some(1));
    assert_eq!(workspace_member_insertion(&members, "crates/xtask"), None);
    let members = vec![Some("crates/agent_api".to_string()), None, Some("crates/xtask".to_string())];
    assert_eq!(workspace_member_insertion(&members, "crates/new"), Some(2));
    let members = vec![Some("crates/agent_api".to_string())];
    assert_eq!(workspace_member_insertion(&members, "crates/new"), Some(1));
}

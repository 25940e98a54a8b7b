use xtask_core::manifest_union::{
    admit_snapshots, assert_supported_globals, assert_supported_sorting, normalize_union_commands,
    requested_root, Error, RulesEffectiveFlagsModel, RulesSorting, SnapshotIdentity, UnionCommand,
    UnionConflict, UnionFlag,
};

fn strings(items: &[&str]) -> Vec<String> {
    items.iter().map(|s| s.to_string()).collect()
}

fn sorting() -> RulesSorting {
    RulesSorting {
        commands: "lexicographic_path".to_string(),
        flags: "by_key_then_long_then_short".to_string(),
        args: "by_name".to_string(),
        inputs: "rules_expected_targets_order".to_string(),
        available_on: "rules_expected_targets_order".to_string(),
        conflicts: "by_unit_then_path_then_key_or_name_then_field".to_string(),
    }
}

#[test]
fn the_root_comes_from_the_flag_or_the_default() {
    assert_eq!(requested_root(Some("cli_manifests/x".to_string()), Some("d")).unwrap(), "cli_manifests/x");
    assert_eq!(requested_root(None, Some("cli_manifests/codex")).unwrap(), "cli_manifests/codex");
    assert_eq!(
        requested_root(None, None).unwrap_err().message(),
        "--root is required (no manifest root default is available for this subcommand)"
    );
}

#[test]
fn only_the_implemented_sorting_rules_are_accepted() {
    assert!(assert_supported_sorting(&sorting()).is_ok());
    let mut s = sorting();
    s.flags = "by_long".to_string();
    s.conflicts = "none".to_string();
    assert_eq!(
        assert_supported_sorting(&s).unwrap_err().message(),
        "invalid rules file: unsupported sorting rules: sorting.flags=by_long, sorting.conflicts=none"
    );
}

#[test]
fn the_dedupe_key_must_be_the_flag_key() {
    let mut model = RulesEffectiveFlagsModel { enabled: true, dedupe_per_command_flags_against_root: true, dedupe_key: " flag_key ".to_string() };
    assert!(assert_supported_globals(&model).is_ok());
    model.dedupe_key = "long".to_string();
    assert_eq!(
        assert_supported_globals(&model).unwrap_err().message(),
        "invalid rules file: unsupported globals.effective_flags_model.union_normalization.dedupe_key=long"
    );
    model.enabled = false;
    assert!(assert_supported_globals(&model).is_ok());
}

fn identity(tool: &str, version: Option<&str>, target: &str) -> SnapshotIdentity {
    SnapshotIdentity { tool: tool.to_string(), semantic_version: version.map(str::to_string), target_triple: target.to_string() }
}

fn found(target: &str, snapshot: Option<Result<SnapshotIdentity, Error>>) -> (String, Option<Result<SnapshotIdentity, Error>>) {
    (format!("snapshots/1.2.3/{target}.json"), snapshot)
}

#[test]
fn present_and_missing_targets_keep_the_expected_order() {
    let expected = strings(&["linux", "darwin", "win32"]);
    let selection = admit_snapshots(
        &expected,
        "linux",
        "snapshots/1.2.3/linux.json",
        "codex-cli",
        "1.2.3",
        vec![
            found("linux", Some(Ok(identity("codex-cli", Some("1.2.3"), "linux")))),
            found("darwin", None),
            found("win32", Some(Ok(identity("codex-cli", Some("1.2.3"), "win32")))),
        ],
    )
    .unwrap();
    assert_eq!(selection.present_targets, strings(&["linux", "win32"]));
    assert_eq!(selection.missing_targets, strings(&["darwin"]));
    assert!(!selection.complete);
}

#[test]
fn a_snapshot_must_say_what_its_file_name_says() {
    let expected = strings(&["linux", "darwin"]);
    let err = admit_snapshots(
        &expected,
        "linux",
        "snapshots/1.2.3/linux.json",
        "codex-cli",
        "1.2.3",
        vec![
            found("linux", Some(Ok(identity("codex-cli", Some("1.2.3"), "linux")))),
            found("darwin", Some(Ok(identity("codex-cli", Some("1.2.3"), "linux")))),
        ],
    )
    .unwrap_err();
    assert_eq!(
        err.message(),
        "snapshot target mismatch in snapshots/1.2.3/darwin.json (filename declares darwin, binary.target_triple is linux)"
    );

    let err = admit_snapshots(
        &expected,
        "linux",
        "snapshots/1.2.3/linux.json",
        "codex-cli",
        "1.2.3",
        vec![found("linux", Some(Ok(identity("codex-cli", None, "linux")))), found("darwin", None)],
    )
    .unwrap_err();
    assert_eq!(err.message(), "snapshot semantic version mismatch in snapshots/1.2.3/linux.json (expected 1.2.3, got None)");

    let err = admit_snapshots(
        &expected,
        "linux",
        "snapshots/1.2.3/linux.json",
        "codex-cli",
        "1.2.3",
        vec![found("linux", Some(Ok(identity("codex-cli", Some("1.2.4"), "linux")))), found("darwin", None)],
    )
    .unwrap_err();
    assert_eq!(
        err.message(),
        "snapshot semantic version mismatch in snapshots/1.2.3/linux.json (expected 1.2.3, got Some(\"1.2.4\"))"
    );

    let err = admit_snapshots(
        &expected,
        "linux",
        "snapshots/1.2.3/linux.json",
        "codex-cli",
        "1.2.3",
        vec![found("linux", Some(Ok(identity("other-cli", Some("1.2.3"), "linux")))), found("darwin", None)],
    )
    .unwrap_err();
    assert_eq!(err.message(), "snapshot tool mismatch in snapshots/1.2.3/linux.json (expected codex-cli, got other-cli)");
}

#[test]
fn the_required_target_must_have_a_snapshot() {
    let err = admit_snapshots(
        &strings(&["linux", "darwin"]),
        "linux",
        "snapshots/1.2.3/linux.json",
        "codex-cli",
        "1.2.3",
        vec![found("linux", None), found("darwin", Some(Ok(identity("codex-cli", Some("1.2.3"), "darwin"))))],
    )
    .unwrap_err();
    assert_eq!(err.message(), "missing required snapshot for target linux: snapshots/1.2.3/linux.json");
}

#[test]
fn a_read_failure_is_reported_in_target_order() {
    let err = admit_snapshots(
        &strings(&["linux", "darwin"]),
        "linux",
        "snapshots/1.2.3/linux.json",
        "codex-cli",
        "1.2.3",
        vec![found("linux", Some(Err(Error::Json("expected value".to_string())))), found("darwin", Some(Err(Error::Io("gone".to_string()))))],
    )
    .unwrap_err();
    assert_eq!(err.message(), "failed to parse JSON: expected value");
}

fn command(path: &[&str], flags: Option<&[&str]>, conflicts: Option<Vec<UnionConflict>>) -> UnionCommand {
    UnionCommand {
        path: strings(path),
        flags: flags.map(|keys| keys.iter().map(|k| UnionFlag { key: k.to_string() }).collect()),
        conflicts,
    }
}

fn keys(cmd: &UnionCommand) -> Option<Vec<String>> {
    cmd.flags.as_ref().map(|flags| flags.iter().map(|f| f.key.clone()).collect())
}

#[test]
fn root_flags_are_removed_from_subcommands() {
    let model = RulesEffectiveFlagsModel { enabled: true, dedupe_per_command_flags_against_root: true, dedupe_key: String::new() };
    let conflict = |unit: &str, path: &[&str], key: Option<&str>| UnionConflict { unit: unit.to_string(), path: strings(path), key: key.map(str::to_string) };
    let mut commands = vec![
        command(&[], Some(&["--help", "--model"]), None),
        command(&["exec"], Some(&["--help", "--json"]), Some(vec![conflict("flag", &["exec"], Some("--model")), conflict("flag", &["exec"], Some("--json"))])),
        command(&["login"], Some(&["--help"]), Some(vec![conflict("flag", &["login"], Some("--help"))])),
    ];
    normalize_union_commands(&mut commands, &model);
    assert_eq!(keys(&commands[0]), Some(strings(&["--help", "--model"])));
    assert_eq!(keys(&commands[1]), Some(strings(&["--json"])));
    assert_eq!(commands[1].conflicts.as_ref().map(|c| c.len()), Some(1));
    assert_eq!(keys(&commands[2]), None);
    assert!(commands[2].conflicts.is_none());

    let mut untouched = vec![command(&["exec"], Some(&["--help"]), None)];
    normalize_union_commands(&mut untouched, &model);
    assert_eq!(keys(&untouched[0]), Some(strings(&["--help"])));
}

use xtask_core::version_metadata::{
    build_validation, check_rules_and_version, eligible_for_latest_validated, enforce_gates, CoverageV1, GateRules,
    Status, ValidationV1, VersionMetadataError,
};

fn strings(items: &[&str]) -> Vec<String> {
    items.iter().map(|s| s.to_string()).collect()
}

fn rules() -> GateRules {
    GateRules {
        required_target: "x86_64-unknown-linux-musl".to_string(),
        expected_targets: strings(&["x86_64-unknown-linux-musl", "aarch64-apple-darwin"]),
        requires_union_complete: true,
    }
}

fn gate_message(r: Result<(), VersionMetadataError>) -> String {
    r.expect_err("expected a gate").message()
}

#[test]
fn snapshotted_and_reported_need_no_gate() {
    assert!(enforce_gates(Status::Snapshotted, &rules(), false, &None, &None).is_ok());
    assert!(enforce_gates(Status::Reported, &rules(), false, &None, &None).is_ok());
}

#[test]
fn validated_needs_the_required_target_supported_and_passed() {
    assert_eq!(
        gate_message(enforce_gates(Status::Validated, &rules(), true, &None, &None)),
        "cannot set status to validated: supported_on_required_target=false (required_target=x86_64-unknown-linux-musl)"
    );
    let coverage = Some(CoverageV1 { supported_targets: None, supported_required_target: Some(true) });
    let failed = Some(ValidationV1 {
        passed_targets: Some(strings(&["aarch64-apple-darwin"])),
        failed_targets: None,
        skipped_targets: None,
    });
    assert_eq!(
        gate_message(enforce_gates(Status::Validated, &rules(), true, &coverage, &failed)),
        "cannot set status to validated: validation_passed_on_required_target=false (required_target=x86_64-unknown-linux-musl)"
    );
    let passed = Some(ValidationV1 {
        passed_targets: Some(strings(&["x86_64-unknown-linux-musl"])),
        failed_targets: None,
        skipped_targets: None,
    });
    assert!(enforce_gates(Status::Validated, &rules(), false, &coverage, &passed).is_ok());
}

#[test]
fn supported_needs_a_complete_union_and_every_expected_target() {
    let all = Some(CoverageV1 {
        supported_targets: Some(strings(&["aarch64-apple-darwin", "x86_64-unknown-linux-musl"])),
        supported_required_target: Some(true),
    });
    assert_eq!(
        gate_message(enforce_gates(Status::Supported, &rules(), false, &all, &None)),
        "cannot set status to supported: requires union.complete=true"
    );
    assert!(enforce_gates(Status::Supported, &rules(), true, &all, &None).is_ok());
    let some = Some(CoverageV1 {
        supported_targets: Some(strings(&["x86_64-unknown-linux-musl"])),
        supported_required_target: Some(true),
    });
    assert_eq!(
        gate_message(enforce_gates(Status::Supported, &rules(), true, &some, &None)),
        "cannot set status to supported: supported_on_all_expected_targets=false"
    );
}

#[test]
fn validation_flags_replace_the_recorded_validation() {
    let existing = ValidationV1 { passed_targets: Some(strings(&["a"])), failed_targets: None, skipped_targets: None };
    let kept = build_validation(Status::Validated, &vec![], &vec![], &vec![], Some(&existing)).unwrap().unwrap();
    assert_eq!(kept.passed_targets, Some(strings(&["a"])));
    let replaced = build_validation(Status::Reported, &strings(&["b"]), &vec![], &vec![], Some(&existing)).unwrap().unwrap();
    assert_eq!(replaced.passed_targets, Some(strings(&["b"])));
    assert_eq!(replaced.failed_targets, Some(vec![]));
    let err = build_validation(Status::Snapshotted, &strings(&["b"]), &vec![], &vec![], None).expect_err("flags refused");
    assert_eq!(
        err.message(),
        "cannot set status to snapshotted: validation target flags are only supported for reported/validated/supported metadata"
    );
    assert!(build_validation(Status::Snapshotted, &vec![], &vec![], &vec![], None).unwrap().is_none());
}

#[test]
fn the_rules_and_version_are_checked_first() {
    let err = check_rules_and_version(Status::Reported, &vec![], true, "0.1.0").expect_err("no targets");
    assert_eq!(err.message(), "invalid rules file: union.expected_targets must not be empty");
    assert!(check_rules_and_version(Status::Reported, &strings(&["t"]), true, "0.1.0").is_ok());
    assert!(check_rules_and_version(Status::Reported, &strings(&["t"]), false, "latest").is_ok());
    let err = check_rules_and_version(Status::Reported, &strings(&["t"]), true, "latest").expect_err("not semver");
    assert!(err.message().starts_with("cannot set status to reported: version is not a semantic version: "));
    assert!(eligible_for_latest_validated(Status::Validated));
    assert!(!eligible_for_latest_validated(Status::Supported));
    assert_eq!(Status::Supported.as_str(), "supported");
}

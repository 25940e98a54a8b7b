use xtask_core::codex_validate::{build_parity_exclusions_index, ParityExclusionsIndex};
use xtask_core::manifest_filtering::{CoverageResolution, FilterMode, UnionArgV2, UnionFlagV2};
use xtask_core::manifest_report::{
    build_report, CommandIuFacts, IuFacts, ReportIntentionallyUnsupportedDeltaV1, UnionCommandV2, WrapperCoverageV1,
    WrapperIndex,
};
use xtask_core::manifest_rules::{
    ParityExclusionUnit, RulesEffectiveFlagsModel, RulesFile, RulesFilterSemantics, RulesGlobals, RulesReport,
    RulesReportFileNaming, RulesReportSorting, RulesSorting, RulesUnion, RulesWhenUnionIncomplete,
};

const TARGETS: [&str; 2] = ["linux-x64", "darwin-arm64"];

fn texts(items: &[&str]) -> Vec<String> {
    items.iter().map(|s| s.to_string()).collect()
}

fn rules(root_flags_inherited: bool, when_incomplete: &str) -> RulesFile {
    let by_path = |s: &str| s.to_string();
    RulesFile {
        rules_schema_version: 3,
        union: RulesUnion {
            expected_targets: texts(&TARGETS),
            platform_mapping: vec![
                ("darwin-arm64".to_string(), "macos".to_string()),
                ("linux-x64".to_string(), "linux".to_string()),
            ],
        },
        globals: RulesGlobals { effective_flags_model: RulesEffectiveFlagsModel { enabled: root_flags_inherited } },
        report: RulesReport {
            file_naming: RulesReportFileNaming {
                any: "coverage.any.json".to_string(),
                all: "coverage.all.json".to_string(),
                per_target: "coverage.<target_triple>.json".to_string(),
            },
            filter_semantics: RulesFilterSemantics {
                when_union_incomplete: RulesWhenUnionIncomplete { all: when_incomplete.to_string() },
            },
        },
        sorting: RulesSorting {
            report: RulesReportSorting {
                missing_commands: by_path("by_path"),
                missing_flags: by_path("by_path_then_key"),
                missing_args: by_path("by_path_then_name"),
                excluded_commands: by_path("by_path"),
                excluded_flags: by_path("by_path_then_key"),
                excluded_args: by_path("by_path_then_name"),
                passthrough_candidates: by_path("by_path"),
                unsupported: by_path("by_path"),
                intentionally_unsupported: by_path("by_kind_then_path_then_key_or_name"),
                wrapper_only_commands: by_path("by_path"),
                wrapper_only_flags: by_path("by_path_then_key"),
                wrapper_only_args: by_path("by_path_then_name"),
            },
        },
        parity_exclusions: None,
    }
}

fn flag(key: &str, on: &[&str]) -> UnionFlagV2 {
    UnionFlagV2 { key: key.to_string(), available_on: texts(on) }
}

fn arg(name: &str, on: &[&str]) -> UnionArgV2 {
    UnionArgV2 { name: name.to_string(), available_on: texts(on) }
}

fn command(path: &[&str], on: &[&str], flags: Vec<UnionFlagV2>, args: Vec<UnionArgV2>) -> (Vec<String>, UnionCommandV2) {
    (texts(path), UnionCommandV2 { path: texts(path), available_on: texts(on), flags, args })
}

fn no_facts() -> IuFacts {
    IuFacts { inherited: Ok(None), declared_note: Err("no note".to_string()) }
}

fn facts_for(upstream: &[(Vec<String>, UnionCommandV2)]) -> Vec<CommandIuFacts> {
    upstream
        .iter()
        .map(|(_, c)| CommandIuFacts {
            command: no_facts(),
            flags: c.flags.iter().map(|_| no_facts()).collect(),
            args: c.args.iter().map(|_| no_facts()).collect(),
        })
        .collect()
}

fn covered(level: &str, note: Option<&str>, targets: &[&str]) -> Result<CoverageResolution, String> {
    Ok(CoverageResolution {
        level: Some(level.to_string()),
        note: note.map(|n| n.to_string()),
        targets: texts(targets),
        present: !targets.is_empty(),
    })
}

fn empty_index() -> WrapperIndex {
    WrapperIndex { commands: vec![], flags: vec![], args: vec![] }
}

fn wrapper() -> WrapperCoverageV1 {
    WrapperCoverageV1 { schema_version: 1, wrapper_version: Some("0.4.0".to_string()) }
}

fn exclusions(units: Vec<ParityExclusionUnit>) -> ParityExclusionsIndex {
    build_parity_exclusions_index(&units)
}

fn exclusion(unit: &str, path: &[&str], key: Option<&str>, name: Option<&str>, note: &str) -> ParityExclusionUnit {
    ParityExclusionUnit {
        unit: unit.to_string(),
        path: texts(path),
        key: key.map(|k| k.to_string()),
        name: name.map(|n| n.to_string()),
        category: None,
        note: note.to_string(),
    }
}

fn report(
    rules: &RulesFile,
    ex: Option<&ParityExclusionsIndex>,
    mode: FilterMode,
    upstream: &Vec<(Vec<String>, UnionCommandV2)>,
    index: &WrapperIndex,
) -> Result<xtask_core::manifest_report::CoverageReportV1, String> {
    let facts = Ok(facts_for(upstream));
    build_report(rules, ex, "1.18.30", "any", None, mode, &texts(&TARGETS), upstream, &wrapper(), index, &facts, "2026-01-01T00:00:00Z")
}

#[test]
fn an_uncovered_surface_is_missing_and_the_inputs_are_echoed() {
    let upstream = vec![command(&["run"], &TARGETS, vec![flag("--json", &TARGETS)], vec![arg("PROMPT", &TARGETS)])];
    let rep = report(&rules(false, "error"), None, FilterMode::Any, &upstream, &empty_index()).expect("report");
    assert_eq!(rep.schema_version, 1);
    assert_eq!(rep.generated_at, "2026-01-01T00:00:00Z");
    assert_eq!(rep.inputs.upstream.semantic_version, "1.18.30");
    assert_eq!(rep.inputs.upstream.mode, "union");
    assert_eq!(rep.inputs.upstream.targets, texts(&TARGETS));
    assert_eq!(rep.inputs.wrapper.wrapper_version.as_deref(), Some("0.4.0"));
    assert_eq!(rep.inputs.rules.rules_schema_version, 3);
    assert_eq!(rep.platform_filter.mode, "any");
    assert_eq!(rep.platform_filter.target_triple, None);
    assert_eq!(rep.deltas.missing_commands.len(), 1);
    assert_eq!(rep.deltas.missing_commands[0].path, texts(&["run"]));
    assert_eq!(rep.deltas.missing_commands[0].wrapper_level, None);
    assert_eq!(rep.deltas.missing_flags.len(), 1);
    assert_eq!(rep.deltas.missing_flags[0].key, "--json");
    assert_eq!(rep.deltas.missing_args.len(), 1);
    assert_eq!(rep.deltas.missing_args[0].name, "PROMPT");
    assert!(rep.deltas.excluded_commands.is_none());
    assert!(rep.deltas.intentionally_unsupported.is_none());
    assert!(rep.deltas.wrapper_only_commands.is_none());
}

#[test]
fn excluding_a_command_leaves_its_flags_and_args_to_their_own_exclusions() {
    let upstream = vec![command(
        &["acp"],
        &TARGETS,
        vec![flag("--port", &TARGETS), flag("--quiet", &TARGETS)],
        vec![arg("TARGET", &TARGETS)],
    )];
    let ex = exclusions(vec![
        exclusion("command", &["acp"], None, None, "not a wrapper surface"),
        exclusion("flag", &["acp"], Some("--quiet"), None, "cosmetic"),
    ]);
    let rep = report(&rules(false, "error"), Some(&ex), FilterMode::Any, &upstream, &empty_index()).expect("report");
    let excluded = rep.deltas.excluded_commands.expect("excluded commands");
    assert_eq!(excluded.len(), 1);
    assert_eq!(excluded[0].note.as_deref(), Some("not a wrapper surface"));
    assert!(rep.deltas.missing_commands.is_empty());
    assert_eq!(rep.deltas.missing_flags.len(), 1);
    assert_eq!(rep.deltas.missing_flags[0].key, "--port");
    let excluded_flags = rep.deltas.excluded_flags.expect("excluded flags");
    assert_eq!(excluded_flags[0].key, "--quiet");
    assert_eq!(excluded_flags[0].note.as_deref(), Some("cosmetic"));
    assert_eq!(rep.deltas.missing_args.len(), 1);
    assert_eq!(rep.deltas.missing_args[0].name, "TARGET");
}

#[test]
fn levels_file_commands_into_their_lists() {
    let upstream = vec![
        command(&["a"], &TARGETS, vec![], vec![]),
        command(&["b"], &TARGETS, vec![], vec![]),
        command(&["c"], &TARGETS, vec![], vec![]),
        command(&["d"], &TARGETS, vec![], vec![]),
        command(&["e"], &TARGETS, vec![], vec![]),
    ];
    let index = WrapperIndex {
        commands: vec![
            (texts(&["a"]), covered("explicit", None, &TARGETS)),
            (texts(&["b"]), covered("passthrough", None, &TARGETS)),
            (texts(&["c"]), covered("unsupported", Some("later"), &TARGETS)),
            (texts(&["d"]), covered("unknown", None, &TARGETS)),
            (texts(&["e"]), covered("partial", None, &TARGETS)),
        ],
        flags: vec![],
        args: vec![],
    };
    let rep = report(&rules(false, "error"), None, FilterMode::Any, &upstream, &index).expect("report");
    let passthrough = rep.deltas.passthrough_candidates.expect("passthrough");
    assert_eq!(passthrough.len(), 1);
    assert_eq!(passthrough[0].path, texts(&["b"]));
    let unsupported = rep.deltas.unsupported.expect("unsupported");
    assert_eq!(unsupported[0].note.as_deref(), Some("later"));
    let missing: Vec<Vec<String>> = rep.deltas.missing_commands.iter().map(|d| d.path.clone()).collect();
    assert_eq!(missing, vec![texts(&["d"]), texts(&["e"])]);
    assert_eq!(rep.deltas.missing_commands[1].wrapper_level.as_deref(), Some("partial"));
    assert!(rep.deltas.wrapper_only_commands.is_none());
}

#[test]
fn intentionally_unsupported_rows_come_commands_first_with_their_notes() {
    let upstream = vec![
        command(&["a"], &TARGETS, vec![flag("--x", &TARGETS)], vec![]),
        command(&["b"], &TARGETS, vec![], vec![]),
    ];
    let index = WrapperIndex {
        commands: vec![(texts(&["b"]), covered("intentionally_unsupported", Some("by design"), &TARGETS))],
        flags: vec![],
        args: vec![],
    };
    let mut facts = facts_for(&upstream);
    facts[0].flags[0].inherited = Ok(Some("inherited root".to_string()));
    facts[1].command.declared_note = Ok("by design".to_string());
    let rep = build_report(
        &rules(false, "error"), None, "1.18.30", "any", None, FilterMode::Any, &texts(&TARGETS), &upstream, &wrapper(),
        &index, &Ok(facts), "now",
    )
    .expect("report");
    let iu = rep.deltas.intentionally_unsupported.expect("iu");
    assert_eq!(iu.len(), 2);
    match &iu[0] {
        ReportIntentionallyUnsupportedDeltaV1::Command(c) => {
            assert_eq!(c.path, texts(&["b"]));
            assert_eq!(c.note.as_deref(), Some("by design"));
            assert_eq!(c.wrapper_level.as_deref(), Some("intentionally_unsupported"));
        },
        other => panic!("expected a command first, got {other:?}"),
    }
    match &iu[1] {
        ReportIntentionallyUnsupportedDeltaV1::Flag(f) => {
            assert_eq!(f.key, "--x");
            assert_eq!(f.note.as_deref(), Some("inherited root"));
        },
        other => panic!("expected the flag, got {other:?}"),
    }
    assert_eq!(rep.deltas.missing_commands.len(), 1);
    assert_eq!(rep.deltas.missing_commands[0].path, texts(&["a"]));
}

#[test]
fn a_missing_declared_note_fails_the_report() {
    let upstream = vec![command(&["b"], &TARGETS, vec![], vec![])];
    let index = WrapperIndex {
        commands: vec![(texts(&["b"]), covered("intentionally_unsupported", None, &TARGETS))],
        flags: vec![],
        args: vec![],
    };
    let err = report(&rules(false, "error"), None, FilterMode::Any, &upstream, &index).expect_err("no note");
    assert_eq!(err, "no note");
}

#[test]
fn the_all_filter_refuses_an_incomplete_union_when_the_rules_say_so() {
    let upstream = vec![command(&["run"], &TARGETS, vec![], vec![])];
    let facts = Ok(facts_for(&upstream));
    let err = build_report(
        &rules(false, "error"), None, "1.18.30", "all", None, FilterMode::All, &texts(&["linux-x64"]), &upstream,
        &wrapper(), &empty_index(), &facts, "now",
    )
    .expect_err("incomplete union");
    assert_eq!(err, "cannot generate platform_filter.mode=all with an incomplete union target set");
    let ok = build_report(
        &rules(false, "skip"), None, "1.18.30", "all", None, FilterMode::All, &texts(&["linux-x64"]), &upstream,
        &wrapper(), &empty_index(), &facts, "now",
    );
    assert!(ok.is_ok());
}

#[test]
fn an_error_in_the_intentionally_unsupported_facts_comes_first() {
    let upstream = vec![command(&["run"], &TARGETS, vec![], vec![])];
    let err = build_report(
        &rules(false, "error"), None, "1.18.30", "all", None, FilterMode::All, &texts(&["linux-x64"]), &upstream,
        &wrapper(), &empty_index(), &Err("bad roots".to_string()), "now",
    )
    .expect_err("roots");
    assert_eq!(err, "bad roots");
}

#[test]
fn a_surface_the_filter_does_not_select_is_skipped_with_its_children() {
    let upstream = vec![command(&["win"], &["win32-x64"], vec![flag("--x", &TARGETS)], vec![])];
    let rep = build_report(
        &rules(false, "error"), None, "1.18.30", "exact_target", Some("linux-x64"), FilterMode::ExactTarget("linux-x64"),
        &texts(&["linux-x64"]), &upstream, &wrapper(), &empty_index(), &Ok(facts_for(&upstream)), "now",
    )
    .expect("report");
    assert!(rep.deltas.missing_commands.is_empty());
    assert!(rep.deltas.missing_flags.is_empty());
    assert_eq!(rep.platform_filter.target_triple.as_deref(), Some("linux-x64"));
}

#[test]
fn wrapper_only_surfaces_take_upstream_or_expected_order_availability() {
    let upstream = vec![command(&["run"], &TARGETS, vec![], vec![])];
    let index = WrapperIndex {
        commands: vec![
            (texts(&["ghost"]), covered("explicit", None, &["darwin-arm64", "linux-x64"])),
            (texts(&["run"]), covered("explicit", None, &TARGETS)),
        ],
        flags: vec![((texts(&["run"]), "--nope".to_string()), covered("explicit", None, &TARGETS))],
        args: vec![((texts(&["gone"]), "X".to_string()), covered("explicit", None, &["darwin-arm64"]))],
    };
    let rep = report(&rules(false, "error"), None, FilterMode::Any, &upstream, &index).expect("report");
    let cmds = rep.deltas.wrapper_only_commands.expect("wrapper-only commands");
    assert_eq!(cmds.len(), 1);
    assert_eq!(cmds[0].path, texts(&["ghost"]));
    assert_eq!(cmds[0].upstream_available_on, texts(&TARGETS));
    let flags = rep.deltas.wrapper_only_flags.expect("wrapper-only flags");
    assert_eq!(flags[0].key, "--nope");
    assert_eq!(flags[0].upstream_available_on, texts(&TARGETS));
    let args = rep.deltas.wrapper_only_args.expect("wrapper-only args");
    assert_eq!(args[0].upstream_available_on, texts(&["darwin-arm64"]));
}

#[test]
fn a_subcommand_claim_on_a_root_flag_is_credited_under_the_effective_flags_model() {
    let upstream = vec![
        command(&[], &TARGETS, vec![flag("--model", &TARGETS)], vec![]),
        command(&["run"], &TARGETS, vec![], vec![]),
    ];
    let index = WrapperIndex {
        commands: vec![
            (texts(&[]), covered("explicit", None, &TARGETS)),
            (texts(&["run"]), covered("explicit", None, &TARGETS)),
        ],
        flags: vec![
            ((texts(&[]), "--model".to_string()), covered("explicit", None, &TARGETS)),
            ((texts(&["run"]), "--model".to_string()), covered("explicit", None, &TARGETS)),
        ],
        args: vec![],
    };
    let with_model = report(&rules(true, "error"), None, FilterMode::Any, &upstream, &index).expect("report");
    assert!(with_model.deltas.wrapper_only_flags.is_none());
    let without = report(&rules(false, "error"), None, FilterMode::Any, &upstream, &index).expect("report");
    let flags = without.deltas.wrapper_only_flags.expect("wrapper-only flags");
    assert_eq!(flags.len(), 1);
    assert_eq!(flags[0].path, texts(&["run"]));
}

#[test]
fn a_resolution_error_stops_the_report() {
    let upstream = vec![command(&["run"], &TARGETS, vec![], vec![])];
    let index = WrapperIndex {
        commands: vec![(texts(&["run"]), Err("overlapping scopes at path=run".to_string()))],
        flags: vec![],
        args: vec![],
    };
    let err = report(&rules(false, "error"), None, FilterMode::Any, &upstream, &index).expect_err("resolution");
    assert_eq!(err, "overlapping scopes at path=run");
}

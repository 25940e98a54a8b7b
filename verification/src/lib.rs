use vstd::prelude::*;

pub mod text;
pub mod checks;
pub mod codex_validate;
pub mod agent_registry;
pub mod strset;
pub mod capability_projection;
pub mod digest;
pub mod release_watch;
pub mod stand_down;
pub mod toml_tree;
pub mod paths;
pub mod json_tree;
pub mod approval_artifact;
pub mod capability_publication;
pub mod prepare_publication;
pub mod proving_run_closeout;
pub mod close_proving_run;
pub mod support_audit;
pub mod support_authorization;
pub mod manifest_rules;
pub mod manifest_filtering;
pub mod manifest_union;
pub mod onboard_preview;
pub mod onboard_agent;
pub mod onboard_validation;
pub mod maintenance_watch;
pub mod unmatched_debt;
pub mod version_metadata;
pub mod release_preview;
pub mod onboard_draft;
pub mod manifest_report;

verus! {

} // verus!

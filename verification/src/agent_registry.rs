//! The agent registry: its model, lookups, and the validation every registry must pass.
use vstd::prelude::*;

use crate::capability_projection::{
    resolve_capability_publication_target, resolve_target_spec, validate_config_key_allowlist,
    config_key_check,
};
use crate::checks::{and_then, first_failure, lemma_first_failure_step, lemma_first_failure_stops, lemma_first_failure_whole};
use crate::text::{contains_char, cat5, ends_with, has_suffix, vec_contains, blank, cat2, cat3, cat4, cat6, len, lemma_split_len, split, split_text, str_eq, to_owned, views, has_prefix, is_blank, starts_with};

verus! {

pub const REGISTRY_RELATIVE_PATH: &'static str = "crates/xtask/data/agent_registry.toml";

#[derive(Debug, Clone, PartialEq, Eq)]
pub struct AgentRegistry {
    pub agents: Vec<AgentRegistryEntry>,
}

#[derive(Debug, Clone, PartialEq, Eq)]
pub struct AgentRegistryEntry {
    pub agent_id: String,
    pub display_name: String,
    pub crate_path: String,
    pub backend_module: String,
    pub manifest_root: String,
    pub package_name: String,
    pub canonical_targets: Vec<String>,
    pub wrapper_coverage: WrapperCoverageBinding,
    pub capability_declaration: CapabilityDeclaration,
    pub publication: PublicationFlags,
    pub release: ReleaseMetadata,
    pub scaffold: ScaffoldMetadata,
    pub maintenance: MaintenanceMetadata,
}

#[derive(Debug, Clone, PartialEq, Eq)]
pub struct WrapperCoverageBinding {
    pub binding_kind: String,
    pub source_path: String,
}

#[derive(Debug, Clone, PartialEq, Eq)]
pub struct CapabilityDeclaration {
    pub always_on: Vec<String>,
    pub target_gated: Vec<TargetGatedCapability>,
    pub config_gated: Vec<ConfigGatedCapability>,
    pub backend_extensions: Vec<String>,
}

#[derive(Debug, Clone, PartialEq, Eq)]
pub struct TargetGatedCapability {
    pub capability_id: String,
    pub targets: Vec<String>,
}

#[derive(Debug, Clone, PartialEq, Eq)]
pub struct ConfigGatedCapability {
    pub capability_id: String,
    pub config_key: String,
    pub targets: Option<Vec<String>>,
}

#[derive(Debug, Clone, PartialEq, Eq)]
pub struct PublicationFlags {
    pub support_matrix_enabled: bool,
    pub capability_matrix_enabled: bool,
    pub capability_matrix_target: Option<String>,
}

#[derive(Debug, Clone, PartialEq, Eq)]
pub struct ReleaseMetadata {
    pub docs_release_track: String,
}

#[derive(Debug, Clone, PartialEq, Eq)]
pub struct ScaffoldMetadata {
    pub onboarding_pack_prefix: String,
}

#[derive(Debug, Clone, PartialEq, Eq)]
pub struct MaintenanceMetadata {
    pub governance_checks: Vec<GovernanceCheck>,
}

#[derive(Debug, Clone, PartialEq, Eq)]
pub struct GovernanceCheck {
    pub path: String,
    pub required: bool,
    pub comparison_kind: GovernanceComparisonKind,
    pub start_marker: Option<String>,
    pub end_marker: Option<String>,
    pub extraction_mode: Option<MarkdownExtractionMode>,
}

#[derive(Debug, Clone, Copy, PartialEq, Eq)]
pub enum GovernanceComparisonKind {
    ApprovedAgentDescriptor,
    MarkdownCapabilityClaim,
    MarkdownSupportClaim,
}

#[derive(Debug, Clone, Copy, PartialEq, Eq)]
pub enum MarkdownExtractionMode {
    InlineCodeIds,
    SupportStateLines,
}

/// Why a registry could not be loaded.
#[derive(Debug)]
pub enum AgentRegistryError {
    /// The registry file could not be read.
    Read { path: String, message: String },
    /// The registry file is not TOML of the registry's shape.
    Toml(String),
    /// The registry is well-formed TOML but breaks a registry rule.
    Validation(String),
}

impl AgentRegistryError {
    /// The text this error displays as.
    pub open spec fn text(&self) -> Seq<char> {
        match self {
            AgentRegistryError::Read { path, message } => "read "@ + path@ + ": "@ + message@,
            AgentRegistryError::Toml(m) => "parse agent registry TOML: "@ + m@,
            AgentRegistryError::Validation(m) => m@,
        }
    }

    pub fn message(&self) -> (r: String)
        ensures
            r@ == self.text(),
    {
        match self {
            AgentRegistryError::Read { path, message } => cat4(
                "read ",
                path.as_str(),
                ": ",
                message.as_str(),
            ),
            AgentRegistryError::Toml(m) => cat2("parse agent registry TOML: ", m.as_str()),
            AgentRegistryError::Validation(m) => to_owned(m.as_str()),
        }
    }
}

/// The outcome of a check, as the text of its first failure.
pub open spec fn vres(r: Result<(), AgentRegistryError>) -> Result<(), Seq<char>> {
    match r {
        Ok(()) => Ok(()),
        Err(e) => Err(e.text()),
    }
}


fn invalid(m: String) -> (r: Result<(), AgentRegistryError>)
    ensures
        vres(r) == Err::<(), Seq<char>>(m@),
{
    Err(AgentRegistryError::Validation(m))
}

// ---------------------------------------------------------------------------------------------
// Scalar and path rules

pub open spec fn check_non_empty(field: Seq<char>, value: Seq<char>) -> Result<(), Seq<char>> {
    if is_blank(value) {
        Err(field + " must not be empty"@)
    } else {
        Ok(())
    }
}

pub fn validate_non_empty_scalar(field_name: &str, value: &str) -> (r: Result<(), AgentRegistryError>)
    ensures
        vres(r) == check_non_empty(field_name@, value@),
{
    if blank(value) {
        return invalid(cat2(field_name, " must not be empty"));
    }
    Ok(())
}

/// Whether `Path::new(value).components()` yields a `.` or `..` component: a leading `.` piece,
/// or a `..` piece anywhere.
pub open spec fn has_dot_component(value: Seq<char>) -> bool {
    let parts = split(value, '/');
    parts[0] == "."@ || exists|k: int| 0 <= k < parts.len() && parts[k] == ".."@
}

pub open spec fn check_repo_relative_path(field: Seq<char>, value: Seq<char>) -> Result<(), Seq<char>> {
    if is_blank(value) {
        Err(field + " must not be empty"@)
    } else if value.len() > 0 && value[0] == '/' {
        Err(field + " must be repo-relative (got absolute path `"@ + value + "`)"@)
    } else if has_dot_component(value) {
        Err(field + " must be normalized and repo-relative (got `"@ + value + "`)"@)
    } else {
        Ok(())
    }
}

/// Whether some piece of `parts` is `..`.
fn any_parent_piece(parts: &Vec<String>) -> (r: bool)
    ensures
        r == exists|k: int| 0 <= k < parts.len() && parts@[k]@ == ".."@,
{
    let mut i: usize = 0;
    while i < parts.len()
        invariant
            i <= parts.len(),
            forall|k: int| 0 <= k < i ==> parts@[k]@ != ".."@,
        decreases parts.len() - i,
    {
        if str_eq(parts[i].as_str(), "..") {
            return true;
        }
        i = i + 1;
    }
    false
}

/// Whether `Path::new(value).components()` yields a `.` or `..` component.
pub fn dot_component(value: &str) -> (r: bool)
    ensures
        r == has_dot_component(value@),
{
    let parts = split_text(value, '/');
    proof {
        lemma_split_len(value@, '/');
    }
    let first_is_dot = str_eq(parts[0].as_str(), ".");
    let any_parent = any_parent_piece(&parts);
    proof {
        let sp = split(value@, '/');
        if any_parent {
            let k = choose|k: int| 0 <= k < parts.len() && parts@[k]@ == ".."@;
            assert(sp[k] == ".."@);
        }
        if exists|k: int| 0 <= k < sp.len() && sp[k] == ".."@ {
            let k = choose|k: int| 0 <= k < sp.len() && sp[k] == ".."@;
            assert(parts@[k]@ == ".."@);
        }
    }
    first_is_dot || any_parent
}

pub fn validate_repo_relative_path(field_name: &str, value: &str) -> (r: Result<(), AgentRegistryError>)
    ensures
        vres(r) == check_repo_relative_path(field_name@, value@),
{
    validate_non_empty_scalar(field_name, value)?;
    if len(value) > 0 && value.get_char(0) == '/' {
        return invalid(cat4(field_name, " must be repo-relative (got absolute path `", value, "`)"));
    }
    if dot_component(value) {
        return invalid(cat4(field_name, " must be normalized and repo-relative (got `", value, "`)"));
    }
    Ok(())
}

pub open spec fn check_prefix(field: Seq<char>, value: Seq<char>, prefix: Seq<char>) -> Result<(), Seq<char>> {
    if !has_prefix(value, prefix) {
        Err(field + " must start with `"@ + prefix + "` (got `"@ + value + "`)"@)
    } else {
        Ok(())
    }
}

pub fn ensure_has_prefix(field_name: &str, value: &str, expected_prefix: &str) -> (r: Result<(), AgentRegistryError>)
    ensures
        vres(r) == check_prefix(field_name@, value@, expected_prefix@),
{
    if !starts_with(value, expected_prefix) {
        return invalid(cat6(field_name, " must start with `", expected_prefix, "` (got `", value, "`)"));
    }
    Ok(())
}

// ---------------------------------------------------------------------------------------------
// Array rules

/// One entry of a string array, given the entries before it.
pub open spec fn string_entry_step(field: Seq<char>) -> spec_fn(Seq<Seq<char>>, Seq<char>) -> Result<(), Seq<char>> {
    |earlier: Seq<Seq<char>>, v: Seq<char>|
        if is_blank(v) {
            Err(field + " must not be empty"@)
        } else if earlier.contains(v) {
            Err(field + " contains duplicate entry `"@ + v + "`"@)
        } else {
            Ok(())
        }
}

/// Entries are checked in order: each must be non-blank and not repeat an earlier one.
pub open spec fn check_string_array(field: Seq<char>, values: Seq<Seq<char>>) -> Result<(), Seq<char>> {
    first_failure(values, string_entry_step(field))
}

pub open spec fn check_non_empty_string_array(field: Seq<char>, values: Seq<Seq<char>>) -> Result<(), Seq<char>> {
    if values.len() == 0 {
        Err(field + " must contain at least one entry"@)
    } else {
        check_string_array(field, values)
    }
}

proof fn lemma_views_prefix(v: Seq<String>, i: int)
    requires
        0 <= i < v.len(),
    ensures
        views(v).subrange(0, i) == views(v.subrange(0, i)),
        views(v)[i] == v[i]@,
        views(v).len() == v.len(),
{
    assert(views(v).subrange(0, i) =~= views(v.subrange(0, i)));
}

/// Whether `v` equals one of `values[0..end]`, answering as the earlier entries of a sequential
/// check see them.
fn earlier_contains(values: &Vec<String>, end: usize, v: &str) -> (r: bool)
    requires
        end <= values.len(),
    ensures
        r == views(values@).subrange(0, end as int).contains(v@),
{
    let ghost earlier = views(values@).subrange(0, end as int);
    let mut j: usize = 0;
    while j < end
        invariant
            end <= values.len(),
            j <= end,
            earlier == views(values@).subrange(0, end as int),
            forall|k: int| 0 <= k < j ==> earlier[k] != v@,
        decreases end - j,
    {
        if str_eq(values[j].as_str(), v) {
            assert(earlier[j as int] == v@);
            return true;
        }
        j = j + 1;
    }
    false
}

pub fn validate_string_array(field_name: &str, values: &Vec<String>) -> (r: Result<(), AgentRegistryError>)
    ensures
        vres(r) == check_string_array(field_name@, views(values@)),
{
    let ghost vs = views(values@);
    let ghost step = string_entry_step(field_name@);
    let mut i: usize = 0;
    assert(vs.subrange(0, 0) =~= Seq::<Seq<char>>::empty());
    while i < values.len()
        invariant
            i <= values.len(),
            vs == views(values@),
            vs.len() == values.len(),
            step == string_entry_step(field_name@),
            first_failure(vs.subrange(0, i as int), step) == Ok::<(), Seq<char>>(()),
        decreases values.len() - i,
    {
        proof {
            lemma_views_prefix(values@, i as int);
            lemma_first_failure_step(vs, step, i as int);
        }
        let v = values[i].as_str();
        if blank(v) {
            proof { lemma_first_failure_stops(vs, step, i as int); }
            return invalid(cat2(field_name, " must not be empty"));
        }
        if earlier_contains(values, i, v) {
            proof { lemma_first_failure_stops(vs, step, i as int); }
            return invalid(cat4(field_name, " contains duplicate entry `", v, "`"));
        }
        i = i + 1;
    }
    proof { lemma_first_failure_whole(vs, step); }
    Ok(())
}


pub fn validate_non_empty_string_array(field_name: &str, values: &Vec<String>) -> (r: Result<(), AgentRegistryError>)
    ensures
        vres(r) == check_non_empty_string_array(field_name@, views(values@)),
{
    if values.len() == 0 {
        return invalid(cat2(field_name, " must contain at least one entry"));
    }
    validate_string_array(field_name, values)
}

/// One gate target, given the targets before it and the entry's canonical targets.
pub open spec fn gate_target_step(field: Seq<char>, canonical: Seq<Seq<char>>) -> spec_fn(Seq<Seq<char>>, Seq<char>) -> Result<(), Seq<char>> {
    |earlier: Seq<Seq<char>>, t: Seq<char>|
        if is_blank(t) {
            Err(field + " must not be empty"@)
        } else if earlier.contains(t) {
            Err(field + " contains duplicate target `"@ + t + "`"@)
        } else if !canonical.contains(t) {
            Err(field + " references undeclared canonical target `"@ + t + "`"@)
        } else {
            Ok(())
        }
}

pub open spec fn check_gate_targets(field: Seq<char>, targets: Seq<Seq<char>>, canonical: Seq<Seq<char>>) -> Result<(), Seq<char>> {
    if targets.len() == 0 {
        Err(field + " must contain at least one target"@)
    } else {
        first_failure(targets, gate_target_step(field, canonical))
    }
}

pub fn validate_gate_targets(field_name: &str, targets: &Vec<String>, canonical_targets: &Vec<String>) -> (r: Result<(), AgentRegistryError>)
    ensures
        vres(r) == check_gate_targets(field_name@, views(targets@), views(canonical_targets@)),
{
    if targets.len() == 0 {
        return invalid(cat2(field_name, " must contain at least one target"));
    }
    let ghost vs = views(targets@);
    let ghost step = gate_target_step(field_name@, views(canonical_targets@));
    let mut i: usize = 0;
    assert(vs.subrange(0, 0) =~= Seq::<Seq<char>>::empty());
    while i < targets.len()
        invariant
            i <= targets.len(),
            vs == views(targets@),
            vs.len() == targets.len(),
            step == gate_target_step(field_name@, views(canonical_targets@)),
            first_failure(vs.subrange(0, i as int), step) == Ok::<(), Seq<char>>(()),
        decreases targets.len() - i,
    {
        proof {
            lemma_views_prefix(targets@, i as int);
            lemma_first_failure_step(vs, step, i as int);
        }
        let t = targets[i].as_str();
        if blank(t) {
            proof { lemma_first_failure_stops(vs, step, i as int); }
            return invalid(cat2(field_name, " must not be empty"));
        }
        if earlier_contains(targets, i, t) {
            proof { lemma_first_failure_stops(vs, step, i as int); }
            return invalid(cat4(field_name, " contains duplicate target `", t, "`"));
        }
        if !vec_contains(canonical_targets, t) {
            proof { lemma_first_failure_stops(vs, step, i as int); }
            return invalid(cat4(field_name, " references undeclared canonical target `", t, "`"));
        }
        i = i + 1;
    }
    proof { lemma_first_failure_whole(vs, step); }
    Ok(())
}

pub const WRAPPER_COVERAGE_BINDING_KIND_GENERATED_FROM_WRAPPER_CRATE: &'static str = "generated_from_wrapper_crate";
pub const BACKEND_MODULE_PREFIX: &'static str = "crates/agent_api/src/backends/";
pub const CRATE_PATH_PREFIX: &'static str = "crates/";
pub const MANIFEST_ROOT_PREFIX: &'static str = "cli_manifests/";

impl WrapperCoverageBinding {
    pub open spec fn check(self) -> Result<(), Seq<char>> {
        and_then(
            check_non_empty("wrapper_coverage.binding_kind"@, self.binding_kind@),
            if self.binding_kind@ != WRAPPER_COVERAGE_BINDING_KIND_GENERATED_FROM_WRAPPER_CRATE@ {
                Err(
                    "wrapper_coverage.binding_kind must be `generated_from_wrapper_crate` (got `"@
                        + self.binding_kind@ + "`)"@,
                )
            } else {
                check_repo_relative_path("wrapper_coverage.source_path"@, self.source_path@)
            },
        )
    }

    pub fn validate(&self) -> (r: Result<(), AgentRegistryError>)
        ensures
            vres(r) == self.check(),
    {
        validate_non_empty_scalar("wrapper_coverage.binding_kind", self.binding_kind.as_str())?;
        if !str_eq(self.binding_kind.as_str(), WRAPPER_COVERAGE_BINDING_KIND_GENERATED_FROM_WRAPPER_CRATE) {
            return invalid(
                cat3(
                    "wrapper_coverage.binding_kind must be `generated_from_wrapper_crate` (got `",
                    self.binding_kind.as_str(),
                    "`)",
                ),
            );
        }
        validate_repo_relative_path("wrapper_coverage.source_path", self.source_path.as_str())
    }
}

impl TargetGatedCapability {
    pub open spec fn check(self, canonical: Seq<Seq<char>>) -> Result<(), Seq<char>> {
        and_then(
            check_non_empty("capability_declaration.target_gated.capability_id"@, self.capability_id@),
            check_gate_targets("capability_declaration.target_gated.targets"@, views(self.targets@), canonical),
        )
    }

    pub fn validate(&self, canonical_targets: &Vec<String>) -> (r: Result<(), AgentRegistryError>)
        ensures
            vres(r) == self.check(views(canonical_targets@)),
    {
        validate_non_empty_scalar(
            "capability_declaration.target_gated.capability_id",
            self.capability_id.as_str(),
        )?;
        validate_gate_targets(
            "capability_declaration.target_gated.targets",
            &self.targets,
            canonical_targets,
        )
    }
}

impl ConfigGatedCapability {
    pub open spec fn check(self, canonical: Seq<Seq<char>>) -> Result<(), Seq<char>> {
        and_then(
            check_non_empty("capability_declaration.config_gated.capability_id"@, self.capability_id@),
            and_then(
                check_non_empty("capability_declaration.config_gated.config_key"@, self.config_key@),
                and_then(
                    config_key_check(self.config_key@, "capability_declaration.config_gated.config_key"@),
                    match self.targets {
                        Some(t) => check_gate_targets("capability_declaration.config_gated.targets"@, views(t@), canonical),
                        None => Ok(()),
                    },
                ),
            ),
        )
    }

    pub fn validate(&self, canonical_targets: &Vec<String>) -> (r: Result<(), AgentRegistryError>)
        ensures
            vres(r) == self.check(views(canonical_targets@)),
    {
        validate_non_empty_scalar(
            "capability_declaration.config_gated.capability_id",
            self.capability_id.as_str(),
        )?;
        validate_non_empty_scalar(
            "capability_declaration.config_gated.config_key",
            self.config_key.as_str(),
        )?;
        match validate_config_key_allowlist(
            self.config_key.as_str(),
            "capability_declaration.config_gated.config_key",
        ) {
            Ok(()) => {},
            Err(m) => {
                return invalid(m);
            },
        }
        match &self.targets {
            Some(targets) => validate_gate_targets(
                "capability_declaration.config_gated.targets",
                targets,
                canonical_targets,
            ),
            None => Ok(()),
        }
    }
}

pub open spec fn target_gate_step(canonical: Seq<Seq<char>>) -> spec_fn(Seq<TargetGatedCapability>, TargetGatedCapability) -> Result<(), Seq<char>> {
    |_e: Seq<TargetGatedCapability>, g: TargetGatedCapability| g.check(canonical)
}

pub open spec fn config_gate_step(canonical: Seq<Seq<char>>) -> spec_fn(Seq<ConfigGatedCapability>, ConfigGatedCapability) -> Result<(), Seq<char>> {
    |_e: Seq<ConfigGatedCapability>, g: ConfigGatedCapability| g.check(canonical)
}

impl CapabilityDeclaration {
    pub open spec fn check(self, canonical: Seq<Seq<char>>) -> Result<(), Seq<char>> {
        and_then(
            check_string_array("capability_declaration.always_on"@, views(self.always_on@)),
            and_then(
                check_string_array("capability_declaration.backend_extensions"@, views(self.backend_extensions@)),
                and_then(
                    first_failure(self.target_gated@, target_gate_step(canonical)),
                    first_failure(self.config_gated@, config_gate_step(canonical)),
                ),
            ),
        )
    }

    pub fn validate(&self, canonical_targets: &Vec<String>) -> (r: Result<(), AgentRegistryError>)
        ensures
            vres(r) == self.check(views(canonical_targets@)),
    {
        validate_string_array("capability_declaration.always_on", &self.always_on)?;
        validate_string_array("capability_declaration.backend_extensions", &self.backend_extensions)?;
        let ghost canonical = views(canonical_targets@);
        let ghost tstep = target_gate_step(canonical);
        let mut i: usize = 0;
        assert(self.target_gated@.subrange(0, 0) =~= Seq::<TargetGatedCapability>::empty());
        while i < self.target_gated.len()
            invariant
                i <= self.target_gated.len(),
                canonical == views(canonical_targets@),
                tstep == target_gate_step(canonical),
                check_string_array("capability_declaration.always_on"@, views(self.always_on@)) is Ok,
                check_string_array("capability_declaration.backend_extensions"@, views(self.backend_extensions@)) is Ok,
                first_failure(self.target_gated@.subrange(0, i as int), tstep) == Ok::<(), Seq<char>>(()),
            decreases self.target_gated.len() - i,
        {
            proof { lemma_first_failure_step(self.target_gated@, tstep, i as int); }
            let res = self.target_gated[i].validate(canonical_targets);
            if res.is_err() {
                proof {
                    lemma_first_failure_stops(self.target_gated@, tstep, i as int);
                }
                return res;
            }
            i = i + 1;
        }
        proof { lemma_first_failure_whole(self.target_gated@, tstep); }
        let ghost cstep = config_gate_step(canonical);
        let mut i: usize = 0;
        assert(self.config_gated@.subrange(0, 0) =~= Seq::<ConfigGatedCapability>::empty());
        while i < self.config_gated.len()
            invariant
                i <= self.config_gated.len(),
                canonical == views(canonical_targets@),
                cstep == config_gate_step(canonical),
                check_string_array("capability_declaration.always_on"@, views(self.always_on@)) is Ok,
                check_string_array("capability_declaration.backend_extensions"@, views(self.backend_extensions@)) is Ok,
                first_failure(self.target_gated@, target_gate_step(canonical)) is Ok,
                first_failure(self.config_gated@.subrange(0, i as int), cstep) == Ok::<(), Seq<char>>(()),
            decreases self.config_gated.len() - i,
        {
            proof { lemma_first_failure_step(self.config_gated@, cstep, i as int); }
            let res = self.config_gated[i].validate(canonical_targets);
            if res.is_err() {
                proof { lemma_first_failure_stops(self.config_gated@, cstep, i as int); }
                return res;
            }
            i = i + 1;
        }
        proof { lemma_first_failure_whole(self.config_gated@, cstep); }
        Ok(())
    }
}


impl PublicationFlags {
    pub open spec fn check(self, entry: AgentRegistryEntry) -> Result<(), Seq<char>> {
        and_then(
            match self.capability_matrix_target {
                Some(t) => check_non_empty("publication.capability_matrix_target"@, t@),
                None => Ok(()),
            },
            match resolve_target_spec(entry) {
                Ok(_) => Ok(()),
                Err(m) => Err(m),
            },
        )
    }

    pub fn validate(&self, entry: &AgentRegistryEntry) -> (r: Result<(), AgentRegistryError>)
        ensures
            vres(r) == self.check(*entry),
    {
        match &self.capability_matrix_target {
            Some(target) => validate_non_empty_scalar(
                "publication.capability_matrix_target",
                target.as_str(),
            )?,
            None => {},
        }
        match resolve_capability_publication_target(entry) {
            Ok(_) => Ok(()),
            Err(m) => invalid(m),
        }
    }
}

impl ReleaseMetadata {
    pub open spec fn check(self) -> Result<(), Seq<char>> {
        check_non_empty("release.docs_release_track"@, self.docs_release_track@)
    }

    pub fn validate(&self) -> (r: Result<(), AgentRegistryError>)
        ensures
            vres(r) == self.check(),
    {
        validate_non_empty_scalar("release.docs_release_track", self.docs_release_track.as_str())
    }
}

impl ScaffoldMetadata {
    pub open spec fn check(self) -> Result<(), Seq<char>> {
        and_then(
            check_non_empty("scaffold.onboarding_pack_prefix"@, self.onboarding_pack_prefix@),
            if self.onboarding_pack_prefix@.contains('/') {
                Err("scaffold.onboarding_pack_prefix must be a path prefix, not a path"@)
            } else {
                Ok(())
            },
        )
    }

    pub fn validate(&self) -> (r: Result<(), AgentRegistryError>)
        ensures
            vres(r) == self.check(),
    {
        validate_non_empty_scalar(
            "scaffold.onboarding_pack_prefix",
            self.onboarding_pack_prefix.as_str(),
        )?;
        if contains_char(self.onboarding_pack_prefix.as_str(), '/') {
            return invalid(
                to_owned("scaffold.onboarding_pack_prefix must be a path prefix, not a path"),
            );
        }
        Ok(())
    }
}

impl GovernanceComparisonKind {
    pub open spec fn text(self) -> Seq<char> {
        match self {
            GovernanceComparisonKind::ApprovedAgentDescriptor => "approved_agent_descriptor"@,
            GovernanceComparisonKind::MarkdownCapabilityClaim => "markdown_capability_claim"@,
            GovernanceComparisonKind::MarkdownSupportClaim => "markdown_support_claim"@,
        }
    }

    pub fn as_str(self) -> (r: &'static str)
        ensures
            r@ == self.text(),
    {
        match self {
            GovernanceComparisonKind::ApprovedAgentDescriptor => "approved_agent_descriptor",
            GovernanceComparisonKind::MarkdownCapabilityClaim => "markdown_capability_claim",
            GovernanceComparisonKind::MarkdownSupportClaim => "markdown_support_claim",
        }
    }
}

impl MarkdownExtractionMode {
    pub open spec fn text(self) -> Seq<char> {
        match self {
            MarkdownExtractionMode::InlineCodeIds => "inline_code_ids"@,
            MarkdownExtractionMode::SupportStateLines => "support_state_lines"@,
        }
    }

    pub fn as_str(self) -> (r: &'static str)
        ensures
            r@ == self.text(),
    {
        match self {
            MarkdownExtractionMode::InlineCodeIds => "inline_code_ids",
            MarkdownExtractionMode::SupportStateLines => "support_state_lines",
        }
    }

    pub open spec fn same(self, other: MarkdownExtractionMode) -> bool {
        self.text() == other.text()
    }
}

impl GovernanceCheck {
    pub open spec fn check_markdown_config(self, expected: MarkdownExtractionMode) -> Result<(), Seq<char>> {
        let kind = self.comparison_kind.text();
        if !has_suffix(self.path@, ".md"@) {
            Err("maintenance.governance_checks.path must end with `.md` for `"@ + kind + "` (got `"@
                + self.path@ + "`)"@)
        } else if self.start_marker is None {
            Err("maintenance.governance_checks `"@ + self.path@
                + "` is missing required `start_marker` for `"@ + kind + "`"@)
        } else if self.end_marker is None {
            Err("maintenance.governance_checks `"@ + self.path@
                + "` is missing required `end_marker` for `"@ + kind + "`"@)
        } else {
            let start = self.start_marker->0@;
            let end = self.end_marker->0@;
            and_then(
                check_non_empty("maintenance.governance_checks.start_marker"@, start),
                and_then(
                    check_non_empty("maintenance.governance_checks.end_marker"@, end),
                    if start == end {
                        Err("maintenance.governance_checks `"@ + self.path@
                            + "` must use distinct `start_marker` and `end_marker`"@)
                    } else {
                        match self.extraction_mode {
                            Some(mode) => if mode == expected {
                                Ok(())
                            } else {
                                Err("maintenance.governance_checks `"@ + self.path@
                                    + "` must use extraction_mode `"@ + expected.text() + "` for `"@
                                    + kind + "` (got `"@ + mode.text() + "`)"@)
                            },
                            None => Err("maintenance.governance_checks `"@ + self.path@
                                + "` is missing required `extraction_mode` for `"@ + kind + "`"@),
                        }
                    },
                ),
            )
        }
    }

    pub fn validate_markdown_config(&self, expected_mode: MarkdownExtractionMode) -> (r: Result<(), AgentRegistryError>)
        ensures
            vres(r) == self.check_markdown_config(expected_mode),
    {
        let kind = self.comparison_kind.as_str();
        let path = self.path.as_str();
        if !ends_with(path, ".md") {
            return invalid(cat5(
                "maintenance.governance_checks.path must end with `.md` for `",
                kind,
                "` (got `",
                path,
                "`)",
            ));
        }
        let start_marker = match &self.start_marker {
            Some(m) => m.as_str(),
            None => {
                return invalid(cat5(
                    "maintenance.governance_checks `",
                    path,
                    "` is missing required `start_marker` for `",
                    kind,
                    "`",
                ));
            },
        };
        let end_marker = match &self.end_marker {
            Some(m) => m.as_str(),
            None => {
                return invalid(cat5(
                    "maintenance.governance_checks `",
                    path,
                    "` is missing required `end_marker` for `",
                    kind,
                    "`",
                ));
            },
        };
        validate_non_empty_scalar("maintenance.governance_checks.start_marker", start_marker)?;
        validate_non_empty_scalar("maintenance.governance_checks.end_marker", end_marker)?;
        if str_eq(start_marker, end_marker) {
            return invalid(cat3(
                "maintenance.governance_checks `",
                path,
                "` must use distinct `start_marker` and `end_marker`",
            ));
        }
        match self.extraction_mode {
            Some(mode) => {
                let same = match (mode, expected_mode) {
                    (MarkdownExtractionMode::InlineCodeIds, MarkdownExtractionMode::InlineCodeIds) => true,
                    (MarkdownExtractionMode::SupportStateLines, MarkdownExtractionMode::SupportStateLines) => true,
                    _ => false,
                };
                if same {
                    Ok(())
                } else {
                    let mut m = cat5(
                        "maintenance.governance_checks `",
                        path,
                        "` must use extraction_mode `",
                        expected_mode.as_str(),
                        "` for `",
                    );
                    m.append(kind);
                    m.append("` (got `");
                    m.append(mode.as_str());
                    m.append("`)");
                    invalid(m)
                }
            },
            None => invalid(cat5(
                "maintenance.governance_checks `",
                path,
                "` is missing required `extraction_mode` for `",
                kind,
                "`",
            )),
        }
    }

    pub open spec fn check(self, entry: AgentRegistryEntry) -> Result<(), Seq<char>> {
        and_then(
            check_repo_relative_path("maintenance.governance_checks.path"@, self.path@),
            match self.comparison_kind {
                GovernanceComparisonKind::ApprovedAgentDescriptor => {
                    let prefix = entry.scaffold.onboarding_pack_prefix@;
                    if !has_suffix(self.path@, "/governance/approved-agent.toml"@) {
                        Err(
                            "maintenance.governance_checks.path must end with `/governance/approved-agent.toml` for `approved_agent_descriptor` (got `"@
                                + self.path@ + "`)"@,
                        )
                    } else if self.path@ != "docs/agents/lifecycle/"@ + prefix
                        + "/governance/approved-agent.toml"@ {
                        Err("maintenance.governance_checks.path `"@ + self.path@
                            + "` must match onboarding_pack_prefix `"@ + prefix
                            + "` for `approved_agent_descriptor`"@)
                    } else if self.start_marker is Some || self.end_marker is Some
                        || self.extraction_mode is Some {
                        Err(
                            "maintenance.governance_checks for `approved_agent_descriptor` must not declare markdown parser config"@,
                        )
                    } else {
                        Ok(())
                    }
                },
                GovernanceComparisonKind::MarkdownCapabilityClaim => self.check_markdown_config(
                    MarkdownExtractionMode::InlineCodeIds,
                ),
                GovernanceComparisonKind::MarkdownSupportClaim => self.check_markdown_config(
                    MarkdownExtractionMode::SupportStateLines,
                ),
            },
        )
    }

    pub fn validate(&self, entry: &AgentRegistryEntry) -> (r: Result<(), AgentRegistryError>)
        ensures
            vres(r) == self.check(*entry),
    {
        let path = self.path.as_str();
        validate_repo_relative_path("maintenance.governance_checks.path", path)?;
        match self.comparison_kind {
            GovernanceComparisonKind::ApprovedAgentDescriptor => {
                let prefix = entry.scaffold.onboarding_pack_prefix.as_str();
                if !ends_with(path, "/governance/approved-agent.toml") {
                    return invalid(cat3(
                        "maintenance.governance_checks.path must end with `/governance/approved-agent.toml` for `approved_agent_descriptor` (got `",
                        path,
                        "`)",
                    ));
                }
                let expected = cat3("docs/agents/lifecycle/", prefix, "/governance/approved-agent.toml");
                if !str_eq(path, expected.as_str()) {
                    return invalid(cat5(
                        "maintenance.governance_checks.path `",
                        path,
                        "` must match onboarding_pack_prefix `",
                        prefix,
                        "` for `approved_agent_descriptor`",
                    ));
                }
                if self.start_marker.is_some() || self.end_marker.is_some()
                    || self.extraction_mode.is_some() {
                    return invalid(to_owned(
                        "maintenance.governance_checks for `approved_agent_descriptor` must not declare markdown parser config",
                    ));
                }
                Ok(())
            },
            GovernanceComparisonKind::MarkdownCapabilityClaim => self.validate_markdown_config(
                MarkdownExtractionMode::InlineCodeIds,
            ),
            GovernanceComparisonKind::MarkdownSupportClaim => self.validate_markdown_config(
                MarkdownExtractionMode::SupportStateLines,
            ),
        }
    }
}

/// One governance check, given the checks before it.
pub open spec fn governance_step(entry: AgentRegistryEntry) -> spec_fn(Seq<GovernanceCheck>, GovernanceCheck) -> Result<(), Seq<char>> {
    |earlier: Seq<GovernanceCheck>, c: GovernanceCheck|
        and_then(
            c.check(entry),
            if earlier.map_values(|e: GovernanceCheck| e.path@).contains(c.path@) {
                Err("maintenance.governance_checks contains duplicate path `"@ + c.path@ + "`"@)
            } else {
                Ok(())
            },
        )
}

impl MaintenanceMetadata {
    pub open spec fn check(self, entry: AgentRegistryEntry) -> Result<(), Seq<char>> {
        first_failure(self.governance_checks@, governance_step(entry))
    }

    pub fn validate(&self, entry: &AgentRegistryEntry) -> (r: Result<(), AgentRegistryError>)
        ensures
            vres(r) == self.check(*entry),
    {
        let checks = &self.governance_checks;
        let ghost step = governance_step(*entry);
        let mut i: usize = 0;
        assert(checks@.subrange(0, 0) =~= Seq::<GovernanceCheck>::empty());
        while i < checks.len()
            invariant
                checks == &self.governance_checks,
                i <= checks.len(),
                step == governance_step(*entry),
                first_failure(checks@.subrange(0, i as int), step) == Ok::<(), Seq<char>>(()),
            decreases checks.len() - i,
        {
            proof { lemma_first_failure_step(checks@, step, i as int); }
            let res = checks[i].validate(entry);
            if res.is_err() {
                proof { lemma_first_failure_stops(checks@, step, i as int); }
                return res;
            }
            let ghost earlier_paths = checks@.subrange(0, i as int).map_values(|e: GovernanceCheck| e.path@);
            let mut j: usize = 0;
            while j < i
                invariant
                    checks == &self.governance_checks,
                    i < checks.len(),
                    j <= i,
                    earlier_paths == checks@.subrange(0, i as int).map_values(|e: GovernanceCheck| e.path@),
                    step == governance_step(*entry),
                    first_failure(checks@.subrange(0, i as int), step) == Ok::<(), Seq<char>>(()),
                    checks@[i as int].check(*entry) is Ok,
                    forall|k: int| 0 <= k < j ==> earlier_paths[k] != checks@[i as int].path@,
                decreases i - j,
            {
                if str_eq(checks[j].path.as_str(), checks[i].path.as_str()) {
                    assert(earlier_paths[j as int] == checks@[i as int].path@);
                    proof { lemma_first_failure_stops(checks@, step, i as int); }
                    return invalid(cat3(
                        "maintenance.governance_checks contains duplicate path `",
                        checks[i].path.as_str(),
                        "`",
                    ));
                }
                j = j + 1;
            }
            i = i + 1;
        }
        proof { lemma_first_failure_whole(checks@, step); }
        Ok(())
    }
}


impl AgentRegistryEntry {
    pub open spec fn check(self) -> Result<(), Seq<char>> {
        and_then(check_non_empty("agent_id"@, self.agent_id@),
        and_then(check_non_empty("display_name"@, self.display_name@),
        and_then(check_non_empty("package_name"@, self.package_name@),
        and_then(check_repo_relative_path("crate_path"@, self.crate_path@),
        and_then(check_repo_relative_path("backend_module"@, self.backend_module@),
        and_then(check_repo_relative_path("manifest_root"@, self.manifest_root@),
        and_then(check_prefix("crate_path"@, self.crate_path@, CRATE_PATH_PREFIX@),
        and_then(check_prefix("backend_module"@, self.backend_module@, BACKEND_MODULE_PREFIX@),
        and_then(check_prefix("manifest_root"@, self.manifest_root@, MANIFEST_ROOT_PREFIX@),
        and_then(check_non_empty_string_array("canonical_targets"@, views(self.canonical_targets@)),
        and_then(self.wrapper_coverage.check(),
        and_then(self.capability_declaration.check(views(self.canonical_targets@)),
        and_then(self.publication.check(self),
        and_then(self.release.check(),
        and_then(self.scaffold.check(),
        self.maintenance.check(self))))))))))))))))
    }

    pub fn validate(&self) -> (r: Result<(), AgentRegistryError>)
        ensures
            vres(r) == self.check(),
    {
        validate_non_empty_scalar("agent_id", self.agent_id.as_str())?;
        validate_non_empty_scalar("display_name", self.display_name.as_str())?;
        validate_non_empty_scalar("package_name", self.package_name.as_str())?;
        validate_repo_relative_path("crate_path", self.crate_path.as_str())?;
        validate_repo_relative_path("backend_module", self.backend_module.as_str())?;
        validate_repo_relative_path("manifest_root", self.manifest_root.as_str())?;
        ensure_has_prefix("crate_path", self.crate_path.as_str(), CRATE_PATH_PREFIX)?;
        ensure_has_prefix("backend_module", self.backend_module.as_str(), BACKEND_MODULE_PREFIX)?;
        ensure_has_prefix("manifest_root", self.manifest_root.as_str(), MANIFEST_ROOT_PREFIX)?;
        validate_non_empty_string_array("canonical_targets", &self.canonical_targets)?;
        self.wrapper_coverage.validate()?;
        self.capability_declaration.validate(&self.canonical_targets)?;
        self.publication.validate(self)?;
        self.release.validate()?;
        self.scaffold.validate()?;
        self.maintenance.validate(self)
    }
}

/// The registry fields that no two agents may share, by position: agent id, crate path, backend
/// module, manifest root, package name.
pub open spec fn unique_field(a: AgentRegistryEntry, k: int) -> Seq<char> {
    if k == 0 {
        a.agent_id@
    } else if k == 1 {
        a.crate_path@
    } else if k == 2 {
        a.backend_module@
    } else if k == 3 {
        a.manifest_root@
    } else {
        a.package_name@
    }
}

pub open spec fn unique_field_name(k: int) -> Seq<char> {
    if k == 0 {
        "agent_id"@
    } else if k == 1 {
        "crate_path"@
    } else if k == 2 {
        "backend_module"@
    } else if k == 3 {
        "manifest_root"@
    } else {
        "package_name"@
    }
}

/// The agent that already holds `value` in field `k`, looking back from the latest.
pub open spec fn prior_owner(earlier: Seq<AgentRegistryEntry>, k: int, value: Seq<char>) -> Option<Seq<char>>
    decreases earlier.len(),
{
    if earlier.len() == 0 {
        None
    } else if unique_field(earlier.last(), k) == value {
        Some(earlier.last().agent_id@)
    } else {
        prior_owner(earlier.drop_last(), k, value)
    }
}

pub open spec fn check_unique(earlier: Seq<AgentRegistryEntry>, a: AgentRegistryEntry, k: int) -> Result<(), Seq<char>> {
    match prior_owner(earlier, k, unique_field(a, k)) {
        Some(previous) => Err("duplicate "@ + unique_field_name(k) + " `"@ + unique_field(a, k)
            + "` for agents `"@ + previous + "` and `"@ + a.agent_id@ + "`"@),
        None => Ok(()),
    }
}

/// One agent of the registry, given the agents before it.
pub open spec fn registry_step() -> spec_fn(Seq<AgentRegistryEntry>, AgentRegistryEntry) -> Result<(), Seq<char>> {
    |earlier: Seq<AgentRegistryEntry>, a: AgentRegistryEntry|
        and_then(a.check(),
        and_then(check_unique(earlier, a, 0),
        and_then(check_unique(earlier, a, 1),
        and_then(check_unique(earlier, a, 2),
        and_then(check_unique(earlier, a, 3),
        check_unique(earlier, a, 4))))))
}

fn unique_field_str(a: &AgentRegistryEntry, k: u8) -> (r: &str)
    ensures
        r@ == unique_field(*a, k as int),
{
    if k == 0 {
        a.agent_id.as_str()
    } else if k == 1 {
        a.crate_path.as_str()
    } else if k == 2 {
        a.backend_module.as_str()
    } else if k == 3 {
        a.manifest_root.as_str()
    } else {
        a.package_name.as_str()
    }
}

fn unique_field_name_str(k: u8) -> (r: &'static str)
    ensures
        r@ == unique_field_name(k as int),
{
    if k == 0 {
        "agent_id"
    } else if k == 1 {
        "crate_path"
    } else if k == 2 {
        "backend_module"
    } else if k == 3 {
        "manifest_root"
    } else {
        "package_name"
    }
}

/// Agent `agents[i]` must not share field `k` with an agent before it.
fn record_unique(agents: &Vec<AgentRegistryEntry>, i: usize, k: u8) -> (r: Result<(), AgentRegistryError>)
    requires
        i < agents.len(),
    ensures
        vres(r) == check_unique(agents@.subrange(0, i as int), agents@[i as int], k as int),
{
    let value = unique_field_str(&agents[i], k);
    let mut j: usize = i;
    while j > 0
        invariant
            i < agents.len(),
            j <= i,
            value@ == unique_field(agents@[i as int], k as int),
            prior_owner(agents@.subrange(0, i as int), k as int, value@)
                == prior_owner(agents@.subrange(0, j as int), k as int, value@),
        decreases j,
    {
        let ghost pre = agents@.subrange(0, j as int);
        assert(pre.drop_last() =~= agents@.subrange(0, j - 1));
        if str_eq(unique_field_str(&agents[j - 1], k), value) {
            let mut m = cat5(
                "duplicate ",
                unique_field_name_str(k),
                " `",
                value,
                "` for agents `",
            );
            m.append(agents[j - 1].agent_id.as_str());
            m.append("` and `");
            m.append(agents[i].agent_id.as_str());
            m.append("`");
            return invalid(m);
        }
        j = j - 1;
    }
    Ok(())
}

impl AgentRegistry {
    pub open spec fn check(self) -> Result<(), Seq<char>> {
        if self.agents.len() == 0 {
            Err("registry must contain at least one [[agents]] entry"@)
        } else {
            first_failure(self.agents@, registry_step())
        }
    }

    /// Every registry rule, in the order the registry is read.
    pub fn validate(&self) -> (r: Result<(), AgentRegistryError>)
        ensures
            vres(r) == self.check(),
    {
        if self.agents.len() == 0 {
            return invalid(to_owned("registry must contain at least one [[agents]] entry"));
        }
        let agents = &self.agents;
        let ghost step = registry_step();
        let mut i: usize = 0;
        assert(agents@.subrange(0, 0) =~= Seq::<AgentRegistryEntry>::empty());
        while i < agents.len()
            invariant
                agents == &self.agents,
                agents.len() > 0,
                i <= agents.len(),
                step == registry_step(),
                first_failure(agents@.subrange(0, i as int), step) == Ok::<(), Seq<char>>(()),
            decreases agents.len() - i,
        {
            proof { lemma_first_failure_step(agents@, step, i as int); }
            let mut res = agents[i].validate();
            if res.is_ok() {
                res = record_unique(agents, i, 0);
            }
            if res.is_ok() {
                res = record_unique(agents, i, 1);
            }
            if res.is_ok() {
                res = record_unique(agents, i, 2);
            }
            if res.is_ok() {
                res = record_unique(agents, i, 3);
            }
            if res.is_ok() {
                res = record_unique(agents, i, 4);
            }
            if res.is_err() {
                proof { lemma_first_failure_stops(agents@, step, i as int); }
                return res;
            }
            i = i + 1;
        }
        proof { lemma_first_failure_whole(agents@, step); }
        Ok(())
    }

    /// The first agent with this id (`AgentRegistry::find`).
    pub fn find(&self, agent_id: &str) -> (r: Option<&AgentRegistryEntry>)
        ensures
            r is None <==> (forall|i: int| 0 <= i < self.agents.len() ==> #[trigger] self.agents@[i].agent_id@ != agent_id@),
            r matches Some(e) ==> exists|i: int|
                0 <= i < self.agents.len() && *e == self.agents@[i] && self.agents@[i].agent_id@ == agent_id@
                    && forall|j: int| 0 <= j < i ==> #[trigger] self.agents@[j].agent_id@ != agent_id@,
    {
        let mut i: usize = 0;
        while i < self.agents.len()
            invariant
                i <= self.agents.len(),
                forall|j: int| 0 <= j < i ==> #[trigger] self.agents@[j].agent_id@ != agent_id@,
            decreases self.agents.len() - i,
        {
            if str_eq(self.agents[i].agent_id.as_str(), agent_id) {
                return Some(&self.agents[i]);
            }
            i = i + 1;
        }
        None
    }

    /// Agents published in the support matrix, in registry order.
    pub fn support_matrix_entries(&self) -> (r: Vec<&AgentRegistryEntry>)
        ensures
            r@.map_values(|e: &AgentRegistryEntry| *e) == self.agents@.filter(support_matrix_enabled()),
    {
        let mut r: Vec<&AgentRegistryEntry> = Vec::new();
        let mut i: usize = 0;
        while i < self.agents.len()
            invariant
                i <= self.agents.len(),
                r@.map_values(|e: &AgentRegistryEntry| *e) == self.agents@.subrange(0, i as int).filter(support_matrix_enabled()),
            decreases self.agents.len() - i,
        {
            proof {
                reveal(Seq::filter);
                assert(self.agents@.subrange(0, i + 1).drop_last() =~= self.agents@.subrange(0, i as int));
            }
            let ghost before = r@;
            if self.agents[i].publication.support_matrix_enabled {
                r.push(&self.agents[i]);
                assert(r@.map_values(|e: &AgentRegistryEntry| *e) =~= before.map_values(|e: &AgentRegistryEntry| *e).push(self.agents@[i as int]));
            }
            i = i + 1;
        }
        assert(self.agents@.subrange(0, self.agents.len() as int) =~= self.agents@);
        r
    }

    /// Agents published in the capability matrix, in registry order.
    pub fn capability_matrix_entries(&self) -> (r: Vec<&AgentRegistryEntry>)
        ensures
            r@.map_values(|e: &AgentRegistryEntry| *e) == self.agents@.filter(capability_matrix_enabled()),
    {
        let mut r: Vec<&AgentRegistryEntry> = Vec::new();
        let mut i: usize = 0;
        while i < self.agents.len()
            invariant
                i <= self.agents.len(),
                r@.map_values(|e: &AgentRegistryEntry| *e) == self.agents@.subrange(0, i as int).filter(capability_matrix_enabled()),
            decreases self.agents.len() - i,
        {
            proof {
                reveal(Seq::filter);
                assert(self.agents@.subrange(0, i + 1).drop_last() =~= self.agents@.subrange(0, i as int));
            }
            let ghost before = r@;
            if self.agents[i].publication.capability_matrix_enabled {
                r.push(&self.agents[i]);
                assert(r@.map_values(|e: &AgentRegistryEntry| *e) =~= before.map_values(|e: &AgentRegistryEntry| *e).push(self.agents@[i as int]));
            }
            i = i + 1;
        }
        assert(self.agents@.subrange(0, self.agents.len() as int) =~= self.agents@);
        r
    }
}

pub open spec fn support_matrix_enabled() -> spec_fn(AgentRegistryEntry) -> bool {
    |a: AgentRegistryEntry| a.publication.support_matrix_enabled
}

pub open spec fn capability_matrix_enabled() -> spec_fn(AgentRegistryEntry) -> bool {
    |a: AgentRegistryEntry| a.publication.capability_matrix_enabled
}

} // verus!

//! The gates a Codex version's metadata must pass before it may claim a status: validated needs
//! the required target supported and passed, supported needs a complete union and support on
//! every expected target.
use vstd::prelude::*;

use crate::support_authorization::{semver_written, spec_semver};
use crate::text::{cat2, cat3, str_eq, to_owned, views};

verus! {

/// The status a version's metadata may be set to.
#[derive(Debug, Clone, Copy, PartialEq, Eq)]
pub enum Status {
    Snapshotted,
    Reported,
    Validated,
    Supported,
}

impl Status {
    pub open spec fn text(self) -> Seq<char> {
        match self {
            Status::Snapshotted => "snapshotted"@,
            Status::Reported => "reported"@,
            Status::Validated => "validated"@,
            Status::Supported => "supported"@,
        }
    }

    /// The status as it is written.
    pub fn as_str(self) -> (r: &'static str)
        ensures
            r@ == self.text(),
    {
        match self {
            Status::Snapshotted => "snapshotted",
            Status::Reported => "reported",
            Status::Validated => "validated",
            Status::Supported => "supported",
        }
    }
}

/// Why the metadata could not be written.
#[derive(Debug)]
pub enum VersionMetadataError {
    Io(String),
    Json(String),
    Rules(String),
    MissingInput { path: String },
    InvalidUnionKind { path: String },
    InvalidWrapperKind { path: String },
    Gate { status: String, reason: String },
}

impl VersionMetadataError {
    pub open spec fn text(&self) -> Seq<char> {
        match self {
            VersionMetadataError::Io(m) => "I/O error: "@ + m@,
            VersionMetadataError::Json(m) => "failed to parse JSON: "@ + m@,
            VersionMetadataError::Rules(m) => "invalid rules file: "@ + m@,
            VersionMetadataError::MissingInput { path } => "missing required input file: "@ + path@,
            VersionMetadataError::InvalidUnionKind { path } => "invalid union snapshot kind in "@ + path@
                + " (expected snapshot_schema_version=2, mode=union)"@,
            VersionMetadataError::InvalidWrapperKind { path } => "invalid wrapper coverage kind in "@ + path@
                + " (expected schema_version=1)"@,
            VersionMetadataError::Gate { status, reason } => "cannot set status to "@ + status@ + ": "@ + reason@,
        }
    }

    /// The text this error displays as.
    pub fn message(&self) -> (r: String)
        ensures
            r@ == self.text(),
    {
        match self {
            VersionMetadataError::Io(m) => cat2("I/O error: ", m.as_str()),
            VersionMetadataError::Json(m) => cat2("failed to parse JSON: ", m.as_str()),
            VersionMetadataError::Rules(m) => cat2("invalid rules file: ", m.as_str()),
            VersionMetadataError::MissingInput { path } => cat2("missing required input file: ", path.as_str()),
            VersionMetadataError::InvalidUnionKind { path } => cat3(
                "invalid union snapshot kind in ",
                path.as_str(),
                " (expected snapshot_schema_version=2, mode=union)",
            ),
            VersionMetadataError::InvalidWrapperKind { path } => cat3(
                "invalid wrapper coverage kind in ",
                path.as_str(),
                " (expected schema_version=1)",
            ),
            VersionMetadataError::Gate { status, reason } => {
                let mut r = cat3("cannot set status to ", status.as_str(), ": ");
                r.append(reason.as_str());
                r
            },
        }
    }
}

/// `r` refuses `status` for `reason`.
pub open spec fn gated<T>(r: Result<T, VersionMetadataError>, status: Status, reason: Seq<char>) -> bool {
    r matches Err(VersionMetadataError::Gate { status: s, reason: m }) && s@ == status.text() && m@ == reason
}

fn gate(status: Status, reason: &str) -> (e: VersionMetadataError)
    ensures
        gated::<()>(Err(e), status, reason@),
{
    VersionMetadataError::Gate { status: to_owned(status.as_str()), reason: to_owned(reason) }
}

/// What the coverage computation recorded.
#[derive(Debug, Clone)]
pub struct CoverageV1 {
    pub supported_targets: Option<Vec<String>>,
    pub supported_required_target: Option<bool>,
}

/// Which targets validation passed, failed and skipped.
#[derive(Debug, Clone)]
pub struct ValidationV1 {
    pub passed_targets: Option<Vec<String>>,
    pub failed_targets: Option<Vec<String>>,
    pub skipped_targets: Option<Vec<String>>,
}

pub open spec fn opt_views(o: Option<Vec<String>>) -> Option<Seq<Seq<char>>> {
    match o {
        Some(v) => Some(views(v@)),
        None => None,
    }
}

pub open spec fn validation_view(v: ValidationV1) -> (Option<Seq<Seq<char>>>, Option<Seq<Seq<char>>>, Option<Seq<Seq<char>>>) {
    (opt_views(v.passed_targets), opt_views(v.failed_targets), opt_views(v.skipped_targets))
}

pub open spec fn accepts_validation_flags(status: Status) -> bool {
    status is Validated || status is Supported || status is Reported
}

fn copy_texts(v: &Vec<String>) -> (r: Vec<String>)
    ensures
        views(r@) == views(v@),
{
    let mut out: Vec<String> = Vec::new();
    let mut i: usize = 0;
    while i < v.len()
        invariant
            i <= v.len(),
            views(out@) == views(v@).subrange(0, i as int),
        decreases v.len() - i,
    {
        let ghost before = views(out@);
        out.push(to_owned(v[i].as_str()));
        assert(views(out@) =~= before.push(v@[i as int]@));
        assert(views(v@).subrange(0, i + 1) =~= views(v@).subrange(0, i as int).push(v@[i as int]@));
        i = i + 1;
    }
    assert(views(v@).subrange(0, v.len() as int) =~= views(v@));
    out
}

fn copy_opt_texts(v: &Option<Vec<String>>) -> (r: Option<Vec<String>>)
    ensures
        opt_views(r) == opt_views(*v),
{
    match v {
        Some(x) => Some(copy_texts(x)),
        None => None,
    }
}

/// `build_validation`: with no validation flags, the validation already recorded; flags are
/// accepted only for reported, validated and supported metadata, and then replace it.
pub fn build_validation(
    status: Status,
    passed_targets: &Vec<String>,
    failed_targets: &Vec<String>,
    skipped_targets: &Vec<String>,
    existing: Option<&ValidationV1>,
) -> (r: Result<Option<ValidationV1>, VersionMetadataError>)
    ensures
        passed_targets.len() == 0 && failed_targets.len() == 0 && skipped_targets.len() == 0 ==> (match existing {
            Some(v) => r matches Ok(Some(w)) && validation_view(w) == validation_view(*v),
            None => r matches Ok(None),
        }),
        !(passed_targets.len() == 0 && failed_targets.len() == 0 && skipped_targets.len() == 0) ==> (if accepts_validation_flags(status) {
            r matches Ok(Some(w)) && validation_view(w) == (Some(views(passed_targets@)), Some(views(failed_targets@)), Some(views(skipped_targets@)))
        } else {
            gated(r, status, "validation target flags are only supported for reported/validated/supported metadata"@)
        }),
{
    let has_cli_validation = passed_targets.len() > 0 || failed_targets.len() > 0 || skipped_targets.len() > 0;
    if !has_cli_validation {
        return Ok(match existing {
            Some(v) => Some(ValidationV1 {
                passed_targets: copy_opt_texts(&v.passed_targets),
                failed_targets: copy_opt_texts(&v.failed_targets),
                skipped_targets: copy_opt_texts(&v.skipped_targets),
            }),
            None => None,
        });
    }
    match status {
        Status::Validated | Status::Supported | Status::Reported => {},
        _ => return Err(gate(status, "validation target flags are only supported for reported/validated/supported metadata")),
    }
    Ok(Some(ValidationV1 {
        passed_targets: Some(copy_texts(passed_targets)),
        failed_targets: Some(copy_texts(failed_targets)),
        skipped_targets: Some(copy_texts(skipped_targets)),
    }))
}

/// What the rules ask of the metadata before a status may be set.
#[derive(Debug, Clone)]
pub struct GateRules {
    pub required_target: String,
    pub expected_targets: Vec<String>,
    pub requires_union_complete: bool,
}

/// Why the status may not be set: `None` when it may.
pub open spec fn gate_reason(
    status: Status,
    rules: GateRules,
    union_complete: bool,
    coverage: Option<CoverageV1>,
    validation: Option<ValidationV1>,
) -> Option<Seq<char>> {
    match status {
        Status::Snapshotted => None,
        Status::Reported => None,
        Status::Validated => {
            let supported_required = match coverage {
                Some(c) => c.supported_required_target == Some(true),
                None => false,
            };
            let passed_required = match validation {
                Some(v) => match v.passed_targets {
                    Some(p) => views(p@).contains(rules.required_target@),
                    None => false,
                },
                None => false,
            };
            if !supported_required {
                Some("supported_on_required_target=false (required_target="@ + rules.required_target@ + ")"@)
            } else if !passed_required {
                Some("validation_passed_on_required_target=false (required_target="@ + rules.required_target@ + ")"@)
            } else {
                None
            }
        },
        Status::Supported => {
            let supported: Set<Seq<char>> = match coverage {
                Some(c) => match c.supported_targets {
                    Some(t) => views(t@).to_set(),
                    None => Set::empty(),
                },
                None => Set::empty(),
            };
            if rules.requires_union_complete && !union_complete {
                Some("requires union.complete=true"@)
            } else if supported != views(rules.expected_targets@).to_set() {
                Some("supported_on_all_expected_targets=false"@)
            } else {
                None
            }
        },
    }
}

fn listed(items: &Vec<String>, v: &str) -> (r: bool)
    ensures
        r == views(items@).contains(v@),
{
    let mut j: usize = 0;
    while j < items.len()
        invariant
            j <= items.len(),
            forall|m: int| 0 <= m < j ==> items@[m]@ != v@,
        decreases items.len() - j,
    {
        if str_eq(items[j].as_str(), v) {
            assert(views(items@)[j as int] == v@);
            return true;
        }
        j = j + 1;
    }
    proof {
        if views(items@).contains(v@) {
            let m = choose|m: int| 0 <= m < views(items@).len() && views(items@)[m] == v@;
            assert(items@[m]@ == v@);
        }
    }
    false
}

/// Whether every item of `a` is in `b`.
fn all_listed(a: &Vec<String>, b: &Vec<String>) -> (r: bool)
    ensures
        r == views(a@).to_set().subset_of(views(b@).to_set()),
{
    let mut i: usize = 0;
    while i < a.len()
        invariant
            i <= a.len(),
            forall|k: int| 0 <= k < i ==> views(b@).contains(#[trigger] views(a@)[k]),
        decreases a.len() - i,
    {
        if !listed(b, a[i].as_str()) {
            assert(views(a@).to_set().contains(views(a@)[i as int]));
            return false;
        }
        i = i + 1;
    }
    assert forall|x: Seq<char>| views(a@).to_set().contains(x) implies views(b@).to_set().contains(x) by {
        let k = choose|k: int| 0 <= k < views(a@).len() && views(a@)[k] == x;
    }
    true
}

fn same_set(a: &Vec<String>, b: &Vec<String>) -> (r: bool)
    ensures
        r == (views(a@).to_set() == views(b@).to_set()),
{
    let x = all_listed(a, b);
    let y = all_listed(b, a);
    proof {
        if x && y {
            assert(views(a@).to_set() =~= views(b@).to_set());
        }
    }
    x && y
}

/// `enforce_gates` on the rules, whether the union snapshot is complete, and the metadata's
/// coverage and validation.
pub fn enforce_gates(
    status: Status,
    rules: &GateRules,
    union_complete: bool,
    coverage: &Option<CoverageV1>,
    validation: &Option<ValidationV1>,
) -> (r: Result<(), VersionMetadataError>)
    ensures
        match gate_reason(status, *rules, union_complete, *coverage, *validation) {
            None => r is Ok,
            Some(reason) => gated(r, status, reason),
        },
{
    match status {
        Status::Snapshotted => Ok(()),
        Status::Reported => Ok(()),
        Status::Validated => {
            let supported_required = match coverage {
                Some(c) => match c.supported_required_target {
                    Some(b) => b,
                    None => false,
                },
                None => false,
            };
            if !supported_required {
                let mut reason = cat2("supported_on_required_target=false (required_target=", rules.required_target.as_str());
                reason.append(")");
                return Err(gate(status, reason.as_str()));
            }
            let passed_required = match validation {
                Some(v) => match &v.passed_targets {
                    Some(p) => listed(p, rules.required_target.as_str()),
                    None => false,
                },
                None => false,
            };
            if !passed_required {
                let mut reason = cat2("validation_passed_on_required_target=false (required_target=", rules.required_target.as_str());
                reason.append(")");
                return Err(gate(status, reason.as_str()));
            }
            Ok(())
        },
        Status::Supported => {
            if rules.requires_union_complete && !union_complete {
                return Err(gate(status, "requires union.complete=true"));
            }
            let empty: Vec<String> = Vec::new();
            let supported = match coverage {
                Some(c) => match &c.supported_targets {
                    Some(t) => t,
                    None => &empty,
                },
                None => &empty,
            };
            assert(views(empty@) =~= Seq::<Seq<char>>::empty());
            assert(views(empty@).to_set() =~= Set::<Seq<char>>::empty());
            if !same_set(supported, &rules.expected_targets) {
                return Err(gate(status, "supported_on_all_expected_targets=false"));
            }
            Ok(())
        },
    }
}

/// What the run checks before it reads the union: the rules must expect at least one target,
/// and where they require it the version must be strict semver.
pub fn check_rules_and_version(
    status: Status,
    expected_targets: &Vec<String>,
    requires_semantic_version: bool,
    version: &str,
) -> (r: Result<(), VersionMetadataError>)
    ensures
        expected_targets.len() == 0 ==> (r matches Err(VersionMetadataError::Rules(m)) && m@ == "union.expected_targets must not be empty"@),
        expected_targets.len() > 0 && !requires_semantic_version ==> r is Ok,
        expected_targets.len() > 0 && requires_semantic_version ==> (match spec_semver(version@) {
            Ok(_) => r is Ok,
            Err(e) => gated(r, status, "version is not a semantic version: "@ + e),
        }),
{
    if expected_targets.len() == 0 {
        return Err(VersionMetadataError::Rules(to_owned("union.expected_targets must not be empty")));
    }
    if requires_semantic_version {
        if let Err(e) = semver_written(version) {
            let reason = cat2("version is not a semantic version: ", e.as_str());
            return Err(gate(status, reason.as_str()));
        }
    }
    Ok(())
}

/// Whether the version's metadata is eligible to become the latest validated one.
pub fn eligible_for_latest_validated(status: Status) -> (r: bool)
    ensures
        r == (status is Validated),
{
    match status {
        Status::Validated => true,
        _ => false,
    }
}

/// A version may be marked validated only when its coverage says the required target is
/// supported and validation passed on it; it may be marked supported only when the union is
/// complete where the rules ask for that and it is supported on exactly the expected targets.
pub proof fn law_status_gates(
    rules: GateRules,
    union_complete: bool,
    coverage: Option<CoverageV1>,
    validation: Option<ValidationV1>,
)
    ensures
        gate_reason(Status::Validated, rules, union_complete, coverage, validation) is None ==> {
            &&& coverage matches Some(c) && c.supported_required_target == Some(true)
            &&& validation matches Some(v) && v.passed_targets matches Some(p) && views(p@).contains(rules.required_target@)
        },
        gate_reason(Status::Supported, rules, union_complete, coverage, validation) is None ==> {
            &&& (rules.requires_union_complete ==> union_complete)
            &&& views(rules.expected_targets@).to_set() == match coverage {
                Some(c) => match c.supported_targets {
                    Some(t) => views(t@).to_set(),
                    None => Set::<Seq<char>>::empty(),
                },
                None => Set::<Seq<char>>::empty(),
            }
        },
        gate_reason(Status::Snapshotted, rules, union_complete, coverage, validation) is None,
        gate_reason(Status::Reported, rules, union_complete, coverage, validation) is None,
{
}

} // verus!

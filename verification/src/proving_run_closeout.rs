//! The closeout record of a proving run: what the machine recorded and what a human attested.
use vstd::prelude::*;

use crate::text::{str_eq, trim, trimmed};

verus! {

pub const PREPARED_CLOSEOUT_DURATION_PLACEHOLDER: &'static str =
    "TODO(closeout): replace with duration_seconds or a truthful duration_missing_reason.";
pub const PREPARED_CLOSEOUT_RESIDUAL_FRICTION_PLACEHOLDER: &'static str =
    "TODO(closeout): replace with residual_friction items or a truthful explicit_none_reason.";

/// A proving run's closeout.
#[derive(Debug, Clone)]
pub struct ProvingRunCloseout {
    pub state: ProvingRunCloseoutState,
    pub approval_ref: String,
    pub approval_sha256: String,
    pub approval_source: String,
    pub maintenance_settlement: Option<MaintenanceSettlement>,
    pub manual_control_plane_edits: u64,
    pub partial_write_incidents: u64,
    pub ambiguous_ownership_incidents: u64,
    pub duration: DurationTruth,
    pub residual_friction: ResidualFrictionTruth,
    pub preflight_passed: bool,
    pub recorded_at: String,
    pub commit: String,
}

/// How long the run took, or why that is not known.
#[derive(Debug, Clone)]
pub enum DurationTruth {
    Seconds(u64),
    MissingReason(String),
}

/// The friction that remained, or why there was none.
#[derive(Debug, Clone)]
pub enum ResidualFrictionTruth {
    Items(Vec<String>),
    ExplicitNone(String),
}

#[derive(Debug, Clone, PartialEq, Eq)]
pub struct MaintenanceSettlement {
    pub mode: MaintenanceSettlementMode,
    pub approval_section_sha256: String,
    pub release_watch_sha256: Option<String>,
    pub deferral_sha256: Option<String>,
}

#[derive(Debug, Clone, Copy, PartialEq, Eq)]
pub enum MaintenanceSettlementMode {
    ReleaseWatchEnrolled,
    ExplicitlyDeferred,
}

impl MaintenanceSettlementMode {
    pub open spec fn text(self) -> Seq<char> {
        match self {
            MaintenanceSettlementMode::ReleaseWatchEnrolled => "release_watch_enrolled"@,
            MaintenanceSettlementMode::ExplicitlyDeferred => "explicitly_deferred"@,
        }
    }

    pub fn as_str(self) -> (r: &'static str)
        ensures
            r@ == self.text(),
    {
        match self {
            MaintenanceSettlementMode::ReleaseWatchEnrolled => "release_watch_enrolled",
            MaintenanceSettlementMode::ExplicitlyDeferred => "explicitly_deferred",
        }
    }
}

#[derive(Debug, Clone, Copy, PartialEq, Eq)]
pub enum ProvingRunCloseoutState {
    Prepared,
    Closed,
}

impl ProvingRunCloseoutState {
    pub open spec fn text(self) -> Seq<char> {
        match self {
            ProvingRunCloseoutState::Prepared => "prepared"@,
            ProvingRunCloseoutState::Closed => "closed"@,
        }
    }

    pub fn as_str(self) -> (r: &'static str)
        ensures
            r@ == self.text(),
    {
        match self {
            ProvingRunCloseoutState::Prepared => "prepared",
            ProvingRunCloseoutState::Closed => "closed",
        }
    }

    /// Every state, in declaration order.
    pub fn all() -> (r: [ProvingRunCloseoutState; 2])
        ensures
            r@ == seq![ProvingRunCloseoutState::Prepared, ProvingRunCloseoutState::Closed],
    {
        [ProvingRunCloseoutState::Prepared, ProvingRunCloseoutState::Closed]
    }
}

/// The fields the machine owns.
#[derive(Debug, Clone)]
pub struct ProvingRunCloseoutMachineFields {
    pub approval_ref: String,
    pub approval_sha256: String,
    pub approval_source: String,
    pub maintenance_settlement: Option<MaintenanceSettlement>,
    pub preflight_passed: bool,
    pub recorded_at: String,
    pub commit: String,
}

/// The fields a human attests.
#[derive(Debug, Clone)]
pub struct ProvingRunCloseoutHumanFields {
    pub manual_control_plane_edits: u64,
    pub partial_write_incidents: u64,
    pub ambiguous_ownership_incidents: u64,
    pub duration: DurationTruth,
    pub residual_friction: ResidualFrictionTruth,
}

/// What a loaded closeout must agree with.
#[derive(Debug, Clone, Copy)]
pub struct ProvingRunCloseoutExpected<'a> {
    pub approval_path: Option<&'a str>,
    pub onboarding_pack_prefix: &'a str,
}

#[derive(Debug)]
pub enum ProvingRunCloseoutError {
    Validation(String),
    Internal(String),
}

/// The text is the duration placeholder once trimmed.
pub open spec fn is_duration_placeholder(s: Seq<char>) -> bool {
    trim(s) == PREPARED_CLOSEOUT_DURATION_PLACEHOLDER@
}

pub open spec fn is_friction_placeholder(s: Seq<char>) -> bool {
    trim(s) == PREPARED_CLOSEOUT_RESIDUAL_FRICTION_PLACEHOLDER@
}

/// The fields of a closeout that still hold a prepared placeholder, in this order:
/// `duration_missing_reason`, `explicit_none_reason`, `residual_friction`.
pub open spec fn unresolved_fields(c: ProvingRunCloseout) -> Seq<Seq<char>> {
    let duration = match c.duration {
        DurationTruth::MissingReason(r) => if is_duration_placeholder(r@) {
            seq!["duration_missing_reason"@]
        } else {
            Seq::empty()
        },
        _ => Seq::empty(),
    };
    let friction = match c.residual_friction {
        ResidualFrictionTruth::ExplicitNone(r) => if is_friction_placeholder(r@) {
            seq!["explicit_none_reason"@]
        } else {
            Seq::empty()
        },
        ResidualFrictionTruth::Items(items) => if exists|i: int| 0 <= i < items.len() && is_friction_placeholder(#[trigger] items@[i]@) {
            seq!["residual_friction"@]
        } else {
            Seq::empty()
        },
    };
    duration + friction
}

pub open spec fn str_seq_views(v: Seq<&'static str>) -> Seq<Seq<char>> {
    v.map_values(|s: &'static str| s@)
}

/// The fields of a closeout that still hold a prepared placeholder.
pub fn unresolved_placeholder_fields(closeout: &ProvingRunCloseout) -> (r: Vec<&'static str>)
    ensures
        str_seq_views(r@) == unresolved_fields(*closeout),
{
    let mut unresolved: Vec<&'static str> = Vec::new();
    match &closeout.duration {
        DurationTruth::MissingReason(reason) => {
            let t = trimmed(reason.as_str());
            if str_eq(t.as_str(), PREPARED_CLOSEOUT_DURATION_PLACEHOLDER) {
                unresolved.push("duration_missing_reason");
            }
        },
        _ => {},
    }
    let ghost after_duration = str_seq_views(unresolved@);
    match &closeout.residual_friction {
        ResidualFrictionTruth::ExplicitNone(reason) => {
            let t = trimmed(reason.as_str());
            if str_eq(t.as_str(), PREPARED_CLOSEOUT_RESIDUAL_FRICTION_PLACEHOLDER) {
                unresolved.push("explicit_none_reason");
            }
        },
        ResidualFrictionTruth::Items(items) => {
            let mut found = false;
            let mut i: usize = 0;
            while i < items.len()
                invariant
                    i <= items.len(),
                    found == exists|k: int| 0 <= k < i && is_friction_placeholder(#[trigger] items@[k]@),
                decreases items.len() - i,
            {
                let t = trimmed(items[i].as_str());
                if str_eq(t.as_str(), PREPARED_CLOSEOUT_RESIDUAL_FRICTION_PLACEHOLDER) {
                    found = true;
                }
                i = i + 1;
            }
            if found {
                unresolved.push("residual_friction");
            }
        },
    }
    proof {
        assert(str_seq_views(unresolved@) =~= unresolved_fields(*closeout));
    }
    unresolved
}

/// Whether any field still holds a prepared placeholder.
pub fn has_unresolved_placeholders(closeout: &ProvingRunCloseout) -> (r: bool)
    ensures
        r == (unresolved_fields(*closeout).len() > 0),
{
    let fields = unresolved_placeholder_fields(closeout);
    fields.len() > 0
}

} // verus!

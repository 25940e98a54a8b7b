//! Release-watch enrollment metadata: its rules, its normalized form, and the digest of that form.
use vstd::prelude::*;

use crate::agent_registry::{
    check_non_empty, validate_non_empty_scalar, vres, AgentRegistryEntry, AgentRegistryError,
};
use crate::checks::and_then;
use crate::digest::{json_quote, json_string, sha256_hex, sha256_hex_of};
use crate::text::{cat2, cat3, ends_with, has_suffix, to_owned, trim, trimmed};

verus! {

#[derive(Debug, Clone, PartialEq, Eq)]
pub struct ReleaseWatchMetadata {
    pub enabled: bool,
    pub version_policy: ReleaseWatchVersionPolicy,
    pub dispatch_kind: ReleaseWatchDispatchKind,
    pub dispatch_workflow: Option<String>,
    pub upstream: ReleaseWatchUpstream,
}

#[derive(Debug, Clone, PartialEq, Eq)]
pub struct NormalizedReleaseWatchMetadata {
    pub enabled: bool,
    pub version_policy: &'static str,
    pub dispatch_kind: &'static str,
    pub dispatch_workflow: Option<String>,
    pub upstream: NormalizedReleaseWatchUpstream,
}

#[derive(Debug, Clone, PartialEq, Eq)]
pub struct NormalizedReleaseWatchUpstream {
    pub source_kind: &'static str,
    pub owner: Option<String>,
    pub repo: Option<String>,
    pub tag_prefix: Option<String>,
    pub bucket: Option<String>,
    pub prefix: Option<String>,
    pub version_marker: Option<String>,
}

#[derive(Debug, Clone, Copy, PartialEq, Eq)]
pub enum ReleaseWatchVersionPolicy {
    LatestStableMinusOne,
}

#[derive(Debug, Clone, Copy, PartialEq, Eq)]
pub enum ReleaseWatchDispatchKind {
    WorkflowDispatch,
    PacketPr,
}

#[derive(Debug, Clone, PartialEq, Eq)]
pub struct ReleaseWatchUpstream {
    pub source_kind: ReleaseWatchSourceKind,
    pub owner: Option<String>,
    pub repo: Option<String>,
    pub tag_prefix: Option<String>,
    pub bucket: Option<String>,
    pub prefix: Option<String>,
    pub version_marker: Option<String>,
}

#[derive(Debug, Clone, Copy, PartialEq, Eq)]
pub enum ReleaseWatchSourceKind {
    GithubReleases,
    GcsObjectListing,
}

impl ReleaseWatchVersionPolicy {
    pub open spec fn text(self) -> Seq<char> {
        "latest_stable_minus_one"@
    }

    pub fn as_str(self) -> (r: &'static str)
        ensures
            r@ == self.text(),
    {
        match self {
            ReleaseWatchVersionPolicy::LatestStableMinusOne => "latest_stable_minus_one",
        }
    }
}

impl ReleaseWatchDispatchKind {
    pub open spec fn text(self) -> Seq<char> {
        match self {
            ReleaseWatchDispatchKind::WorkflowDispatch => "workflow_dispatch"@,
            ReleaseWatchDispatchKind::PacketPr => "packet_pr"@,
        }
    }

    pub fn as_str(self) -> (r: &'static str)
        ensures
            r@ == self.text(),
    {
        match self {
            ReleaseWatchDispatchKind::WorkflowDispatch => "workflow_dispatch",
            ReleaseWatchDispatchKind::PacketPr => "packet_pr",
        }
    }
}

impl ReleaseWatchSourceKind {
    pub open spec fn text(self) -> Seq<char> {
        match self {
            ReleaseWatchSourceKind::GithubReleases => "github_releases"@,
            ReleaseWatchSourceKind::GcsObjectListing => "gcs_object_listing"@,
        }
    }

    pub fn as_str(self) -> (r: &'static str)
        ensures
            r@ == self.text(),
    {
        match self {
            ReleaseWatchSourceKind::GithubReleases => "github_releases",
            ReleaseWatchSourceKind::GcsObjectListing => "gcs_object_listing",
        }
    }
}

pub open spec fn disabled_message() -> Seq<char> {
    "maintenance.release_watch.enabled=false is not allowed; omit maintenance.release_watch entirely when an agent is not enrolled"@
}

fn disabled() -> (r: Result<(), AgentRegistryError>)
    ensures
        vres(r) == Err::<(), Seq<char>>(disabled_message()),
{
    Err(
        AgentRegistryError::Validation(
            to_owned(
                "maintenance.release_watch.enabled=false is not allowed; omit maintenance.release_watch entirely when an agent is not enrolled",
            ),
        ),
    )
}

pub open spec fn opt_view(o: Option<String>) -> Option<Seq<char>> {
    match o {
        Some(s) => Some(s@),
        None => None,
    }
}

pub open spec fn check_required(field: Seq<char>, value: Option<Seq<char>>) -> Result<(), Seq<char>> {
    match value {
        None => Err(field + " is required for this upstream source"@),
        Some(v) => check_non_empty(field, v),
    }
}

pub open spec fn check_absent(field: Seq<char>, value: Option<Seq<char>>, kind: ReleaseWatchSourceKind) -> Result<(), Seq<char>> {
    if value is Some {
        Err(field + " must not be set when maintenance.release_watch.upstream.source_kind = `"@
            + kind.text() + "`"@)
    } else {
        Ok(())
    }
}

pub fn validate_required_optional_scalar(field_name: &str, value: &Option<String>) -> (r: Result<(), AgentRegistryError>)
    ensures
        vres(r) == check_required(field_name@, opt_view(*value)),
{
    match value {
        None => Err(AgentRegistryError::Validation(cat2(field_name, " is required for this upstream source"))),
        Some(v) => validate_non_empty_scalar(field_name, v.as_str()),
    }
}

pub fn validate_absent_optional_scalar(
    field_name: &str,
    value: &Option<String>,
    source_kind: ReleaseWatchSourceKind,
) -> (r: Result<(), AgentRegistryError>)
    ensures
        vres(r) == check_absent(field_name@, opt_view(*value), source_kind),
{
    if value.is_some() {
        let mut m = cat2(field_name, " must not be set when maintenance.release_watch.upstream.source_kind = `");
        m.append(source_kind.as_str());
        m.append("`");
        return Err(AgentRegistryError::Validation(m));
    }
    Ok(())
}

impl ReleaseWatchUpstream {
    pub open spec fn check(self) -> Result<(), Seq<char>> {
        let k = self.source_kind;
        match k {
            ReleaseWatchSourceKind::GithubReleases =>
                and_then(check_required("maintenance.release_watch.upstream.owner"@, opt_view(self.owner)),
                and_then(check_required("maintenance.release_watch.upstream.repo"@, opt_view(self.repo)),
                and_then(check_required("maintenance.release_watch.upstream.tag_prefix"@, opt_view(self.tag_prefix)),
                and_then(check_absent("maintenance.release_watch.upstream.bucket"@, opt_view(self.bucket), k),
                and_then(check_absent("maintenance.release_watch.upstream.prefix"@, opt_view(self.prefix), k),
                check_absent("maintenance.release_watch.upstream.version_marker"@, opt_view(self.version_marker), k)))))),
            ReleaseWatchSourceKind::GcsObjectListing =>
                and_then(check_required("maintenance.release_watch.upstream.bucket"@, opt_view(self.bucket)),
                and_then(check_required("maintenance.release_watch.upstream.prefix"@, opt_view(self.prefix)),
                and_then(check_required("maintenance.release_watch.upstream.version_marker"@, opt_view(self.version_marker)),
                and_then(check_absent("maintenance.release_watch.upstream.owner"@, opt_view(self.owner), k),
                and_then(check_absent("maintenance.release_watch.upstream.repo"@, opt_view(self.repo), k),
                check_absent("maintenance.release_watch.upstream.tag_prefix"@, opt_view(self.tag_prefix), k)))))),
        }
    }

    pub fn validate(&self) -> (r: Result<(), AgentRegistryError>)
        ensures
            vres(r) == self.check(),
    {
        let k = self.source_kind;
        match k {
            ReleaseWatchSourceKind::GithubReleases => {
                validate_required_optional_scalar("maintenance.release_watch.upstream.owner", &self.owner)?;
                validate_required_optional_scalar("maintenance.release_watch.upstream.repo", &self.repo)?;
                validate_required_optional_scalar("maintenance.release_watch.upstream.tag_prefix", &self.tag_prefix)?;
                validate_absent_optional_scalar("maintenance.release_watch.upstream.bucket", &self.bucket, k)?;
                validate_absent_optional_scalar("maintenance.release_watch.upstream.prefix", &self.prefix, k)?;
                validate_absent_optional_scalar("maintenance.release_watch.upstream.version_marker", &self.version_marker, k)
            },
            ReleaseWatchSourceKind::GcsObjectListing => {
                validate_required_optional_scalar("maintenance.release_watch.upstream.bucket", &self.bucket)?;
                validate_required_optional_scalar("maintenance.release_watch.upstream.prefix", &self.prefix)?;
                validate_required_optional_scalar("maintenance.release_watch.upstream.version_marker", &self.version_marker)?;
                validate_absent_optional_scalar("maintenance.release_watch.upstream.owner", &self.owner, k)?;
                validate_absent_optional_scalar("maintenance.release_watch.upstream.repo", &self.repo, k)?;
                validate_absent_optional_scalar("maintenance.release_watch.upstream.tag_prefix", &self.tag_prefix, k)
            },
        }
    }
}

impl ReleaseWatchMetadata {
    pub open spec fn dispatch_check(self) -> Result<(), Seq<char>> {
        if !self.enabled {
            Err(disabled_message())
        } else {
            match self.dispatch_kind {
                ReleaseWatchDispatchKind::WorkflowDispatch => match self.dispatch_workflow {
                    None => Err(
                        "maintenance.release_watch.dispatch_workflow is required when dispatch_kind = `workflow_dispatch`"@,
                    ),
                    Some(w) => and_then(
                        check_non_empty("maintenance.release_watch.dispatch_workflow"@, w@),
                        if !has_suffix(w@, ".yml"@) {
                            Err(
                                "maintenance.release_watch.dispatch_workflow must reference a workflow file ending in `.yml` (got `"@
                                    + w@ + "`)"@,
                            )
                        } else {
                            Ok(())
                        },
                    ),
                },
                ReleaseWatchDispatchKind::PacketPr => if self.dispatch_workflow is Some {
                    Err(
                        "maintenance.release_watch.dispatch_workflow must be omitted when dispatch_kind = `packet_pr`"@,
                    )
                } else {
                    Ok(())
                },
            }
        }
    }

    /// Every release-watch rule: enrollment, then the upstream, then the dispatch contract.
    pub open spec fn check(self) -> Result<(), Seq<char>> {
        if !self.enabled {
            Err(disabled_message())
        } else {
            and_then(self.upstream.check(), self.dispatch_check())
        }
    }

    pub fn validate_dispatch_contract(&self) -> (r: Result<(), AgentRegistryError>)
        ensures
            vres(r) == self.dispatch_check(),
    {
        if !self.enabled {
            return disabled();
        }
        match self.dispatch_kind {
            ReleaseWatchDispatchKind::WorkflowDispatch => {
                let workflow = match &self.dispatch_workflow {
                    Some(w) => w.as_str(),
                    None => {
                        return Err(AgentRegistryError::Validation(to_owned(
                            "maintenance.release_watch.dispatch_workflow is required when dispatch_kind = `workflow_dispatch`",
                        )));
                    },
                };
                validate_non_empty_scalar("maintenance.release_watch.dispatch_workflow", workflow)?;
                if !ends_with(workflow, ".yml") {
                    return Err(AgentRegistryError::Validation(cat3(
                        "maintenance.release_watch.dispatch_workflow must reference a workflow file ending in `.yml` (got `",
                        workflow,
                        "`)",
                    )));
                }
            },
            ReleaseWatchDispatchKind::PacketPr => {
                if self.dispatch_workflow.is_some() {
                    return Err(AgentRegistryError::Validation(to_owned(
                        "maintenance.release_watch.dispatch_workflow must be omitted when dispatch_kind = `packet_pr`",
                    )));
                }
            },
        }
        Ok(())
    }

    pub fn validate(&self, _entry: &AgentRegistryEntry) -> (r: Result<(), AgentRegistryError>)
        ensures
            vres(r) == self.check(),
    {
        validate_release_watch_metadata(self)
    }
}

pub fn validate_release_watch_metadata(metadata: &ReleaseWatchMetadata) -> (r: Result<(), AgentRegistryError>)
    ensures
        vres(r) == metadata.check(),
{
    if !metadata.enabled {
        return disabled();
    }
    metadata.upstream.validate()?;
    metadata.validate_dispatch_contract()?;
    Ok(())
}

pub open spec fn opt_trim(o: Option<String>) -> Option<Seq<char>> {
    match o {
        Some(s) => Some(trim(s@)),
        None => None,
    }
}

fn trim_opt(o: &Option<String>) -> (r: Option<String>)
    ensures
        opt_view(r) == opt_trim(*o),
{
    match o {
        Some(s) => Some(trimmed(s.as_str())),
        None => None,
    }
}

/// The normalized form of valid metadata: enrolled, names as text, optional values trimmed.
pub open spec fn is_normalized_of(n: NormalizedReleaseWatchMetadata, m: ReleaseWatchMetadata) -> bool {
    &&& n.enabled
    &&& n.version_policy@ == m.version_policy.text()
    &&& n.dispatch_kind@ == m.dispatch_kind.text()
    &&& opt_view(n.dispatch_workflow) == opt_trim(m.dispatch_workflow)
    &&& n.upstream.source_kind@ == m.upstream.source_kind.text()
    &&& opt_view(n.upstream.owner) == opt_trim(m.upstream.owner)
    &&& opt_view(n.upstream.repo) == opt_trim(m.upstream.repo)
    &&& opt_view(n.upstream.tag_prefix) == opt_trim(m.upstream.tag_prefix)
    &&& opt_view(n.upstream.bucket) == opt_trim(m.upstream.bucket)
    &&& opt_view(n.upstream.prefix) == opt_trim(m.upstream.prefix)
    &&& opt_view(n.upstream.version_marker) == opt_trim(m.upstream.version_marker)
}

pub fn normalize_release_watch_metadata(metadata: &ReleaseWatchMetadata) -> (r: Result<
    NormalizedReleaseWatchMetadata,
    AgentRegistryError,
>)
    ensures
        match r {
            Ok(n) => metadata.check() is Ok && is_normalized_of(n, *metadata),
            Err(e) => metadata.check() == Err::<(), Seq<char>>(e.text()),
        },
{
    match validate_release_watch_metadata(metadata) {
        Ok(()) => {},
        Err(e) => {
            return Err(e);
        },
    }
    Ok(NormalizedReleaseWatchMetadata {
        enabled: true,
        version_policy: metadata.version_policy.as_str(),
        dispatch_kind: metadata.dispatch_kind.as_str(),
        dispatch_workflow: trim_opt(&metadata.dispatch_workflow),
        upstream: NormalizedReleaseWatchUpstream {
            source_kind: metadata.upstream.source_kind.as_str(),
            owner: trim_opt(&metadata.upstream.owner),
            repo: trim_opt(&metadata.upstream.repo),
            tag_prefix: trim_opt(&metadata.upstream.tag_prefix),
            bucket: trim_opt(&metadata.upstream.bucket),
            prefix: trim_opt(&metadata.upstream.prefix),
            version_marker: trim_opt(&metadata.upstream.version_marker),
        },
    })
}

/// A JSON value for an optional string: the quoted string or `null`.
pub open spec fn json_opt(o: Option<Seq<char>>) -> Seq<char> {
    match o {
        Some(s) => json_string(s),
        None => "null"@,
    }
}

fn json_opt_text(o: &Option<String>) -> (r: String)
    ensures
        r@ == json_opt(opt_view(*o)),
{
    match o {
        Some(s) => json_quote(s.as_str()),
        None => to_owned("null"),
    }
}

/// The compact JSON of a normalized payload, fields in declaration order, as `serde_json::to_vec`
/// writes a struct.
pub open spec fn normalized_json(n: NormalizedReleaseWatchMetadata) -> Seq<char> {
    "{\"enabled\":"@ + (if n.enabled { "true"@ } else { "false"@ }) + ",\"version_policy\":"@
        + json_string(n.version_policy@) + ",\"dispatch_kind\":"@ + json_string(n.dispatch_kind@)
        + ",\"dispatch_workflow\":"@ + json_opt(opt_view(n.dispatch_workflow)) + ",\"upstream\":{\"source_kind\":"@
        + json_string(n.upstream.source_kind@) + ",\"owner\":"@ + json_opt(opt_view(n.upstream.owner))
        + ",\"repo\":"@ + json_opt(opt_view(n.upstream.repo)) + ",\"tag_prefix\":"@ + json_opt(
        opt_view(n.upstream.tag_prefix),
    ) + ",\"bucket\":"@ + json_opt(opt_view(n.upstream.bucket)) + ",\"prefix\":"@ + json_opt(
        opt_view(n.upstream.prefix),
    ) + ",\"version_marker\":"@ + json_opt(opt_view(n.upstream.version_marker)) + "}}"@
}

pub fn render_normalized_json(n: &NormalizedReleaseWatchMetadata) -> (r: String)
    ensures
        r@ == normalized_json(*n),
{
    let mut r = to_owned("{\"enabled\":");
    r.append(if n.enabled { "true" } else { "false" });
    r.append(",\"version_policy\":");
    r.append(json_quote(n.version_policy).as_str());
    r.append(",\"dispatch_kind\":");
    r.append(json_quote(n.dispatch_kind).as_str());
    r.append(",\"dispatch_workflow\":");
    r.append(json_opt_text(&n.dispatch_workflow).as_str());
    r.append(",\"upstream\":{\"source_kind\":");
    r.append(json_quote(n.upstream.source_kind).as_str());
    r.append(",\"owner\":");
    r.append(json_opt_text(&n.upstream.owner).as_str());
    r.append(",\"repo\":");
    r.append(json_opt_text(&n.upstream.repo).as_str());
    r.append(",\"tag_prefix\":");
    r.append(json_opt_text(&n.upstream.tag_prefix).as_str());
    r.append(",\"bucket\":");
    r.append(json_opt_text(&n.upstream.bucket).as_str());
    r.append(",\"prefix\":");
    r.append(json_opt_text(&n.upstream.prefix).as_str());
    r.append(",\"version_marker\":");
    r.append(json_opt_text(&n.upstream.version_marker).as_str());
    r.append("}}");
    r
}

/// The digest that binds an approval to its release-watch enrollment: SHA-256 of the normalized
/// payload's JSON, in lowercase hex.
pub fn normalized_release_watch_sha256(metadata: &ReleaseWatchMetadata) -> (r: Result<String, AgentRegistryError>)
    ensures
        match r {
            Ok(d) => metadata.check() is Ok && exists|n: NormalizedReleaseWatchMetadata|
                is_normalized_of(n, *metadata) && d@ == sha256_hex_of(normalized_json(n)),
            Err(e) => metadata.check() == Err::<(), Seq<char>>(e.text()),
        },
{
    let normalized = normalize_release_watch_metadata(metadata)?;
    let json = render_normalized_json(&normalized);
    Ok(sha256_hex(json.as_str()))
}

} // verus!

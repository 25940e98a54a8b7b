//! Has automation lost authority over a packet generation?
//!
//! A packet is protected because a maintainer declared it protected: one marker file per frozen
//! generation, named for it, under the agent's maintenance root. Every marker in the directory is
//! validated, and a directory that cannot be read in full stands automation down, because an
//! unknown freeze set is not an authorization.
use vstd::prelude::*;

use crate::agent_registry::AgentRegistry;
use crate::checks::{
    first_failure, lemma_first_failure_step, lemma_first_failure_stops, lemma_first_failure_whole,
};
use crate::strset::{ascending, set_insert};
use crate::text::{
    is_ws, lemma_trim_end_of_nonempty, lemma_trim_start_blank, trim_start,
    blank, cat2, cat3, cat4, cat5, decimal, ends_with, has_suffix, is_blank, len, lemma_split_len,
    join, join_text, split, split_text, str_eq, to_owned, u64_text, utf8_lossy, spec_utf8_lossy, views,
};
use crate::digest::{hex_encode, hex_lower, sha256_digest, spec_sha256};
use crate::toml_tree::{entries_view, parse_toml_entries, parsed_view, spec_toml_entries, TomlLeaf, TomlValue};

verus! {

pub const EXIT_INTERNAL: i32 = 1;
pub const EXIT_VALIDATION: i32 = 2;

/// Exit code meaning automation has lost authority over the packet generation asked about: a
/// result, not a failure.
pub const EXIT_STOOD_DOWN: i32 = 3;

/// Marker directory, relative to the agent's maintenance root.
pub const STAND_DOWN_RELATIVE_DIR: &'static str = "governance/automation-stand-down";

/// The branch a marker has to be committed to.
pub const BASE_BRANCH: &'static str = "staging";

pub const REQUEST_RELATIVE_PATH: &'static str = "governance/maintenance-request.toml";

pub const SCHEMA_VERSION: u32 = 1;

/// Where a marker lives, given the packet's own maintenance root.
pub fn marker_relative_path(maintenance_root: &str, target_version: &str) -> (r: String)
    ensures
        r@ == maintenance_root@ + "/"@ + STAND_DOWN_RELATIVE_DIR@ + "/"@ + target_version@ + ".toml"@,
{
    let mut r = cat4(maintenance_root, "/", STAND_DOWN_RELATIVE_DIR, "/");
    r.append(target_version);
    r.append(".toml");
    r
}

/// A paste-ready marker for one packet generation.
pub open spec fn marker_toml(agent: Seq<char>, target_version: Seq<char>, request_recorded_at: Seq<char>) -> Seq<char> {
    "schema_version = 1\nagent_id = \""@ + agent + "\"\ntarget_version = \""@ + target_version
        + "\"\nreason = \"closeout in progress\"\nrequest_recorded_at = \""@ + request_recorded_at
        + "\"\n"@
}

pub fn render_marker_toml(agent: &str, target_version: &str, request_recorded_at: &str) -> (r: String)
    ensures
        r@ == marker_toml(agent@, target_version@, request_recorded_at@),
{
    let mut r = cat4("schema_version = 1\nagent_id = \"", agent, "\"\ntarget_version = \"", target_version);
    r.append("\"\nreason = \"closeout in progress\"\nrequest_recorded_at = \"");
    r.append(request_recorded_at);
    r.append("\"\n");
    r
}

#[derive(Debug, Clone, Copy, PartialEq, Eq)]
pub enum StandDownOutcome {
    /// No marker claims this packet generation; automation may mutate it.
    Authorized,
    /// A marker claims it; automation must not mutate it.
    StoodDown,
}

impl StandDownOutcome {
    pub fn exit_code(self) -> (r: i32)
        ensures
            r == match self {
                StandDownOutcome::Authorized => 0,
                StandDownOutcome::StoodDown => EXIT_STOOD_DOWN,
            },
    {
        match self {
            StandDownOutcome::Authorized => 0,
            StandDownOutcome::StoodDown => EXIT_STOOD_DOWN,
        }
    }
}

/// Why the guard could not answer.
#[derive(Debug)]
pub enum Error {
    Validation(String),
    Internal(String),
}

impl Error {
    pub fn exit_code(&self) -> (r: i32)
        ensures
            r == match self {
                Error::Validation(_) => EXIT_VALIDATION,
                Error::Internal(_) => EXIT_INTERNAL,
            },
    {
        match self {
            Error::Validation(_) => EXIT_VALIDATION,
            Error::Internal(_) => EXIT_INTERNAL,
        }
    }

    pub open spec fn text(&self) -> Seq<char> {
        match self {
            Error::Validation(m) => m@,
            Error::Internal(m) => m@,
        }
    }

    /// The text this error displays as.
    pub fn message(&self) -> (r: String)
        ensures
            r@ == self.text(),
    {
        match self {
            Error::Validation(m) => to_owned(m.as_str()),
            Error::Internal(m) => to_owned(m.as_str()),
        }
    }
}

/// A declared stand-down.
#[derive(Debug, Clone, PartialEq, Eq)]
pub struct StandDownMarker {
    pub schema_version: u32,
    pub agent_id: String,
    /// Must equal the file's own name.
    pub target_version: String,
    pub reason: String,
    pub request_recorded_at: Option<String>,
    pub request_sha256: Option<String>,
    pub declared_at: Option<String>,
    pub declared_by: Option<String>,
}

/// The plain content of a marker.
pub struct MarkerView {
    pub schema_version: int,
    pub agent_id: Seq<char>,
    pub target_version: Seq<char>,
    pub reason: Seq<char>,
    pub request_recorded_at: Option<Seq<char>>,
    pub request_sha256: Option<Seq<char>>,
    pub declared_at: Option<Seq<char>>,
    pub declared_by: Option<Seq<char>>,
}

pub open spec fn opt_view(o: Option<String>) -> Option<Seq<char>> {
    match o {
        Some(s) => Some(s@),
        None => None,
    }
}

impl StandDownMarker {
    pub open spec fn view(self) -> MarkerView {
        MarkerView {
            schema_version: self.schema_version as int,
            agent_id: self.agent_id@,
            target_version: self.target_version@,
            reason: self.reason@,
            request_recorded_at: opt_view(self.request_recorded_at),
            request_sha256: opt_view(self.request_sha256),
            declared_at: opt_view(self.declared_at),
            declared_by: opt_view(self.declared_by),
        }
    }
}

/// The example that every marker error teaches.
pub open spec fn expected_shape() -> Seq<char> {
    "Expected `<maintenance root>/governance/automation-stand-down/<MAJOR.MINOR.PATCH>.toml`, e.g.\n`docs/agents/lifecycle/codex-maintenance/governance/automation-stand-down/0.155.0.toml`:\n\n    schema_version = 1\n    agent_id = \"codex\"\n    target_version = \"0.155.0\"       # must equal the file name\n    reason = \"closeout in progress\"\n    request_recorded_at = \"2026-09-19T08:03:11Z\"  # or request_sha256; at least one\n    declared_by = \"@spenquatch\"                   # optional\n    declared_at = \"2026-09-21T14:02:00Z\"          # optional"@
}

pub fn expected_shape_text() -> (r: &'static str)
    ensures
        r@ == expected_shape(),
{
    "Expected `<maintenance root>/governance/automation-stand-down/<MAJOR.MINOR.PATCH>.toml`, e.g.\n`docs/agents/lifecycle/codex-maintenance/governance/automation-stand-down/0.155.0.toml`:\n\n    schema_version = 1\n    agent_id = \"codex\"\n    target_version = \"0.155.0\"       # must equal the file name\n    reason = \"closeout in progress\"\n    request_recorded_at = \"2026-09-19T08:03:11Z\"  # or request_sha256; at least one\n    declared_by = \"@spenquatch\"                   # optional\n    declared_at = \"2026-09-21T14:02:00Z\"          # optional"
}

/// `^[0-9]+\.[0-9]+\.[0-9]+$`: exactly three dot-separated parts, each a non-empty run of ASCII
/// digits.
pub open spec fn bare_semver(value: Seq<char>) -> bool {
    let parts = split(value, '.');
    parts.len() == 3 && forall|k: int, i: int|
        0 <= k < 3 ==> parts[k].len() > 0 && (0 <= i < parts[k].len() ==> '0' <= #[trigger] parts[k][i] <= '9')
}

fn all_digits(s: &str) -> (r: bool)
    ensures
        r == (s@.len() > 0 && forall|i: int| 0 <= i < s@.len() ==> '0' <= #[trigger] s@[i] <= '9'),
{
    let n = len(s);
    if n == 0 {
        return false;
    }
    let mut i: usize = 0;
    while i < n
        invariant
            n == s@.len(),
            i <= n,
            forall|k: int| 0 <= k < i ==> '0' <= #[trigger] s@[k] <= '9',
        decreases n - i,
    {
        let c = s.get_char(i);
        if !('0' <= c && c <= '9') {
            return false;
        }
        i = i + 1;
    }
    true
}

/// Mirror of the version pattern the packet workflow enforces; stricter than semver parsing,
/// which would accept prereleases and build metadata.
pub fn is_bare_semver(value: &str) -> (r: bool)
    ensures
        r == bare_semver(value@),
{
    let parts = split_text(value, '.');
    if parts.len() != 3 {
        return false;
    }
    let a = all_digits(parts[0].as_str());
    let b = all_digits(parts[1].as_str());
    let c = all_digits(parts[2].as_str());
    proof {
        let sp = split(value@, '.');
        assert(sp[0] == parts@[0]@ && sp[1] == parts@[1]@ && sp[2] == parts@[2]@);
        if !a {
            if parts@[0]@.len() > 0 {
                let i = choose|i: int| 0 <= i < parts@[0]@.len() && !('0' <= #[trigger] parts@[0]@[i] <= '9');
                assert(!('0' <= sp[0][i] <= '9'));
            }
        }
        if !b {
            if parts@[1]@.len() > 0 {
                let i = choose|i: int| 0 <= i < parts@[1]@.len() && !('0' <= #[trigger] parts@[1]@[i] <= '9');
                assert(!('0' <= sp[1][i] <= '9'));
            }
        }
        if !c {
            if parts@[2]@.len() > 0 {
                let i = choose|i: int| 0 <= i < parts@[2]@.len() && !('0' <= #[trigger] parts@[2]@[i] <= '9');
                assert(!('0' <= sp[2][i] <= '9'));
            }
        }
        if a && b && c {
            assert forall|k: int, i: int| 0 <= k < 3 implies sp[k].len() > 0 && (0 <= i < sp[k].len() ==> '0' <= #[trigger] sp[k][i] <= '9') by {
                if k == 0 {
                } else if k == 1 {
                } else {
                }
            }
        }
    }
    a && b && c
}

// ---------------------------------------------------------------------------------------------
// Decoding a marker's fields, with the strictness of `#[serde(deny_unknown_fields)]`

pub open spec fn known_text_key(k: Seq<char>) -> bool {
    k == "agent_id"@ || k == "target_version"@ || k == "reason"@ || k == "request_recorded_at"@
        || k == "request_sha256"@ || k == "declared_at"@ || k == "declared_by"@
}

pub open spec fn unknown_field_message(k: Seq<char>) -> Seq<char> {
    "unknown field `"@ + k
        + "`, expected one of `schema_version`, `agent_id`, `target_version`, `reason`, `request_recorded_at`, `request_sha256`, `declared_at`, `declared_by`"@
}

/// One key of a marker: it must be a known field holding a value of that field's type.
pub open spec fn marker_key_step() -> spec_fn(Seq<(Seq<char>, TomlLeaf)>, (Seq<char>, TomlLeaf)) -> Result<(), Seq<char>> {
    |_earlier: Seq<(Seq<char>, TomlLeaf)>, e: (Seq<char>, TomlLeaf)|
        if e.0 == "schema_version"@ {
            match e.1 {
                TomlLeaf::Int(v) => if 0 <= v <= u32::MAX {
                    Ok(())
                } else {
                    Err("invalid type for field `"@ + e.0 + "`"@)
                },
                _ => Err("invalid type for field `"@ + e.0 + "`"@),
            }
        } else if known_text_key(e.0) {
            match e.1 {
                TomlLeaf::Str(_) => Ok(()),
                _ => Err("invalid type for field `"@ + e.0 + "`"@),
            }
        } else {
            Err(unknown_field_message(e.0))
        }
}

/// The value of the last entry with key `k`.
pub open spec fn lookup(entries: Seq<(Seq<char>, TomlLeaf)>, k: Seq<char>) -> Option<TomlLeaf>
    decreases entries.len(),
{
    if entries.len() == 0 {
        None
    } else if entries.last().0 == k {
        Some(entries.last().1)
    } else {
        lookup(entries.drop_last(), k)
    }
}

pub open spec fn lookup_text(entries: Seq<(Seq<char>, TomlLeaf)>, k: Seq<char>) -> Option<Seq<char>> {
    match lookup(entries, k) {
        Some(TomlLeaf::Str(s)) => Some(s),
        _ => None,
    }
}

pub open spec fn lookup_int(entries: Seq<(Seq<char>, TomlLeaf)>, k: Seq<char>) -> int {
    match lookup(entries, k) {
        Some(TomlLeaf::Int(v)) => v,
        _ => 0,
    }
}

/// A marker's fields from its top-level keys, or why they are not a marker.
pub open spec fn decode_marker_spec(entries: Seq<(Seq<char>, TomlLeaf)>) -> Result<MarkerView, Seq<char>> {
    match first_failure(entries, marker_key_step()) {
        Err(e) => Err(e),
        Ok(()) => if lookup(entries, "schema_version"@) is None {
            Err("missing field `schema_version`"@)
        } else if lookup(entries, "agent_id"@) is None {
            Err("missing field `agent_id`"@)
        } else if lookup(entries, "target_version"@) is None {
            Err("missing field `target_version`"@)
        } else if lookup(entries, "reason"@) is None {
            Err("missing field `reason`"@)
        } else {
            Ok(
                MarkerView {
                    schema_version: lookup_int(entries, "schema_version"@),
                    agent_id: lookup_text(entries, "agent_id"@)->0,
                    target_version: lookup_text(entries, "target_version"@)->0,
                    reason: lookup_text(entries, "reason"@)->0,
                    request_recorded_at: lookup_text(entries, "request_recorded_at"@),
                    request_sha256: lookup_text(entries, "request_sha256"@),
                    declared_at: lookup_text(entries, "declared_at"@),
                    declared_by: lookup_text(entries, "declared_by"@),
                },
            )
        },
    }
}

proof fn lemma_lookup_push(entries: Seq<(Seq<char>, TomlLeaf)>, i: int, k: Seq<char>)
    requires
        0 <= i < entries.len(),
    ensures
        lookup(entries.subrange(0, i + 1), k) == if entries[i].0 == k {
            Some(entries[i].1)
        } else {
            lookup(entries.subrange(0, i), k)
        },
{
    assert(entries.subrange(0, i + 1).drop_last() =~= entries.subrange(0, i));
}

fn take_text(slot: &mut Option<String>, key: &str, k: &str, value: &TomlValue) -> (r: Result<(), String>)
    ensures
        r is Ok ==> (key@ == k@ ==> value.leaf() is Str),
        key@ == k@ && value.leaf() is Str ==> r is Ok && opt_view(*final(slot)) == Some(value.leaf()->Str_0),
        key@ != k@ ==> r is Ok && *final(slot) == *old(slot),
        r matches Err(m) ==> key@ == k@ && m@ == "invalid type for field `"@ + k@ + "`"@,
{
    if !str_eq(key, k) {
        return Ok(());
    }
    match value {
        TomlValue::Str(s) => {
            *slot = Some(to_owned(s.as_str()));
            Ok(())
        },
        _ => Err(cat3("invalid type for field `", k, "`")),
    }
}

/// Decode a marker's fields from its top-level keys.
pub fn decode_marker(entries: &Vec<(String, TomlValue)>) -> (r: Result<StandDownMarker, String>)
    ensures
        match r {
            Ok(m) => decode_marker_spec(entries_view(entries@)) == Ok::<MarkerView, Seq<char>>(m.view()),
            Err(e) => decode_marker_spec(entries_view(entries@)) == Err::<MarkerView, Seq<char>>(e@),
        },
{
    let ghost ev = entries_view(entries@);
    let ghost step = marker_key_step();
    let mut schema_version: Option<u32> = None;
    let mut agent_id: Option<String> = None;
    let mut target_version: Option<String> = None;
    let mut reason: Option<String> = None;
    let mut request_recorded_at: Option<String> = None;
    let mut request_sha256: Option<String> = None;
    let mut declared_at: Option<String> = None;
    let mut declared_by: Option<String> = None;
    let mut i: usize = 0;
    assert(ev.subrange(0, 0) =~= Seq::<(Seq<char>, TomlLeaf)>::empty());
    while i < entries.len()
        invariant
            i <= entries.len(),
            ev == entries_view(entries@),
            ev.len() == entries.len(),
            step == marker_key_step(),
            first_failure(ev.subrange(0, i as int), step) == Ok::<(), Seq<char>>(()),
            match lookup(ev.subrange(0, i as int), "schema_version"@) {
                Some(TomlLeaf::Int(v)) => schema_version == Some(v as u32) && 0 <= v <= u32::MAX,
                Some(_) => false,
                None => schema_version is None,
            },
            opt_view(agent_id) == lookup_text(ev.subrange(0, i as int), "agent_id"@),
            (lookup(ev.subrange(0, i as int), "agent_id"@) is Some) == (agent_id is Some),
            opt_view(target_version) == lookup_text(ev.subrange(0, i as int), "target_version"@),
            (lookup(ev.subrange(0, i as int), "target_version"@) is Some) == (target_version is Some),
            opt_view(reason) == lookup_text(ev.subrange(0, i as int), "reason"@),
            (lookup(ev.subrange(0, i as int), "reason"@) is Some) == (reason is Some),
            opt_view(request_recorded_at) == lookup_text(ev.subrange(0, i as int), "request_recorded_at"@),
            opt_view(request_sha256) == lookup_text(ev.subrange(0, i as int), "request_sha256"@),
            opt_view(declared_at) == lookup_text(ev.subrange(0, i as int), "declared_at"@),
            opt_view(declared_by) == lookup_text(ev.subrange(0, i as int), "declared_by"@),
        decreases entries.len() - i,
    {
        proof {
            lemma_first_failure_step(ev, step, i as int);
            assert(ev[i as int] == (entries@[i as int].0@, entries@[i as int].1.leaf()));
            lemma_lookup_push(ev, i as int, "schema_version"@);
            lemma_lookup_push(ev, i as int, "agent_id"@);
            lemma_lookup_push(ev, i as int, "target_version"@);
            lemma_lookup_push(ev, i as int, "reason"@);
            lemma_lookup_push(ev, i as int, "request_recorded_at"@);
            lemma_lookup_push(ev, i as int, "request_sha256"@);
            lemma_lookup_push(ev, i as int, "declared_at"@);
            lemma_lookup_push(ev, i as int, "declared_by"@);
        }
        let key = entries[i].0.as_str();
        let value = &entries[i].1;
        if str_eq(key, "schema_version") {
            proof {
                reveal_strlit("schema_version");
                reveal_strlit("agent_id");
                reveal_strlit("target_version");
                reveal_strlit("reason");
                reveal_strlit("request_recorded_at");
                reveal_strlit("request_sha256");
                reveal_strlit("declared_at");
                reveal_strlit("declared_by");
                assert("schema_version"@[0] == 's');
                assert("agent_id"@[0] != 's');
                assert("target_version"@[0] != 's');
                assert("reason"@[0] != 's');
                assert("request_recorded_at"@[0] != 's');
                assert("request_sha256"@[0] != 's');
                assert("declared_at"@[0] != 's');
                assert("declared_by"@[0] != 's');
            }
            match value {
                TomlValue::Int(v) => {
                    if *v >= 0 && *v <= 4294967295 {
                        schema_version = Some(*v as u32);
                    } else {
                        proof { lemma_first_failure_stops(ev, step, i as int); }
                        return Err(cat3("invalid type for field `", key, "`"));
                    }
                },
                _ => {
                    proof { lemma_first_failure_stops(ev, step, i as int); }
                    return Err(cat3("invalid type for field `", key, "`"));
                },
            }
        } else if str_eq(key, "agent_id") || str_eq(key, "target_version") || str_eq(key, "reason")
            || str_eq(key, "request_recorded_at") || str_eq(key, "request_sha256") || str_eq(key, "declared_at")
            || str_eq(key, "declared_by") {
            let r1 = take_text(&mut agent_id, key, "agent_id", value);
            let r2 = take_text(&mut target_version, key, "target_version", value);
            let r3 = take_text(&mut reason, key, "reason", value);
            let r4 = take_text(&mut request_recorded_at, key, "request_recorded_at", value);
            let r5 = take_text(&mut request_sha256, key, "request_sha256", value);
            let r6 = take_text(&mut declared_at, key, "declared_at", value);
            let r7 = take_text(&mut declared_by, key, "declared_by", value);
            match value {
                TomlValue::Str(_) => {},
                _ => {
                    proof { lemma_first_failure_stops(ev, step, i as int); }
                    return Err(cat3("invalid type for field `", key, "`"));
                },
            }
            assert(r1 is Ok && r2 is Ok && r3 is Ok && r4 is Ok && r5 is Ok && r6 is Ok && r7 is Ok);
            proof {
                let nxt = ev.subrange(0, i + 1);
                let cur = ev.subrange(0, i as int);
                if ev[i as int].0 == "target_version"@ {
                    assert(target_version is Some);
                    assert(lookup(nxt, "target_version"@) is Some);
                } else {
                    assert(lookup(nxt, "target_version"@) == lookup(cur, "target_version"@));
                }
                if ev[i as int].0 == "reason"@ {
                    assert(reason is Some);
                    assert(lookup(nxt, "reason"@) is Some);
                } else {
                    assert(lookup(nxt, "reason"@) == lookup(cur, "reason"@));
                }
                if ev[i as int].0 == "agent_id"@ {
                    assert(agent_id is Some);
                    assert(lookup(nxt, "agent_id"@) is Some);
                } else {
                    assert(lookup(nxt, "agent_id"@) == lookup(cur, "agent_id"@));
                }
            }

        } else {
            proof { lemma_first_failure_stops(ev, step, i as int); }
            let mut m = cat2("unknown field `", key);
            m.append(
                "`, expected one of `schema_version`, `agent_id`, `target_version`, `reason`, `request_recorded_at`, `request_sha256`, `declared_at`, `declared_by`",
            );
            return Err(m);
        }
        i = i + 1;
    }
    proof {
        lemma_first_failure_whole(ev, step);
        assert(ev.subrange(0, entries.len() as int) =~= ev);
    }
    let schema_version = match schema_version {
        Some(v) => v,
        None => {
            return Err(to_owned("missing field `schema_version`"));
        },
    };
    let agent_id = match agent_id {
        Some(v) => v,
        None => {
            return Err(to_owned("missing field `agent_id`"));
        },
    };
    let target_version = match target_version {
        Some(v) => v,
        None => {
            return Err(to_owned("missing field `target_version`"));
        },
    };
    let reason = match reason {
        Some(v) => v,
        None => {
            return Err(to_owned("missing field `reason`"));
        },
    };
    Ok(StandDownMarker {
        schema_version,
        agent_id,
        target_version,
        reason,
        request_recorded_at,
        request_sha256,
        declared_at,
        declared_by,
    })
}


// ---------------------------------------------------------------------------------------------
// One directory entry

/// How an entry is named in messages.
pub open spec fn rendered_path(marker_dir: Seq<char>, file_name: Seq<char>) -> Seq<char> {
    marker_dir + "/"@ + file_name
}

/// The file name without its `.toml`.
pub open spec fn file_stem(file_name: Seq<char>) -> Seq<char> {
    file_name.subrange(0, file_name.len() - 5)
}

/// The file name is `<MAJOR.MINOR.PATCH>.toml`.
pub open spec fn named_for_generation(file_name: Seq<char>) -> bool {
    has_suffix(file_name, ".toml"@) && bare_semver(file_stem(file_name))
}

pub open spec fn misnamed_message(rendered: Seq<char>) -> Seq<char> {
    rendered + " is not named for a packet generation: expected `<MAJOR.MINOR.PATCH>.toml`\n"@
        + expected_shape()
}

pub open spec fn unusable_message(rendered: Seq<char>, err: Seq<char>) -> Seq<char> {
    rendered + " is not a usable stand-down marker: "@ + err + "\n"@ + expected_shape()
}

pub open spec fn unbound_message(rendered: Seq<char>) -> Seq<char> {
    rendered
        + " must carry `request_recorded_at` or `request_sha256`: without one it names a packet but not the generation of it that was frozen\n"@
        + expected_shape()
}

/// The checks on a decoded marker, in order.
pub open spec fn marker_verdict(agent: Seq<char>, rendered: Seq<char>, version: Seq<char>, m: MarkerView) -> Result<MarkerView, Seq<char>> {
    if m.schema_version != 1 {
        Err(rendered + " declares schema_version "@ + decimal(m.schema_version as nat) + " but this build understands 1"@)
    } else if m.agent_id != agent {
        Err(rendered + " declares agent_id `"@ + m.agent_id + "` but sits in "@ + agent + "'s maintenance root"@)
    } else if m.target_version != version {
        Err(rendered + " declares target_version `"@ + m.target_version + "`, which is not the generation its file name claims"@)
    } else if is_blank(m.reason) {
        Err(rendered + " has an empty `reason`"@)
    } else if m.request_recorded_at is None && m.request_sha256 is None {
        Err(unbound_message(rendered))
    } else {
        Ok(m)
    }
}

/// The verdict on one entry, given what the TOML parser made of its text.
pub open spec fn entry_verdict_from(
    agent: Seq<char>,
    marker_dir: Seq<char>,
    file_name: Seq<char>,
    parsed: Result<Seq<(Seq<char>, TomlLeaf)>, Seq<char>>,
) -> Result<MarkerView, Seq<char>> {
    let rendered = rendered_path(marker_dir, file_name);
    if !named_for_generation(file_name) {
        Err(misnamed_message(rendered))
    } else {
        match parsed {
            Err(e) => Err(unusable_message(rendered, e)),
            Ok(entries) => match decode_marker_spec(entries) {
                Err(e) => Err(unusable_message(rendered, e)),
                Ok(m) => marker_verdict(agent, rendered, file_stem(file_name), m),
            },
        }
    }
}

/// The verdict on one entry of the marker directory.
pub open spec fn entry_verdict(agent: Seq<char>, marker_dir: Seq<char>, file_name: Seq<char>, text: Seq<char>) -> Result<MarkerView, Seq<char>> {
    entry_verdict_from(agent, marker_dir, file_name, spec_toml_entries(text))
}

/// A marker is accepted only as schema version 1, for the agent whose root it sits in, for the
/// generation its file name names, with a non-blank reason and at least one of
/// `request_recorded_at` and `request_sha256`; and the accepted marker is the one decoded from
/// the entry.
pub proof fn law_accepted_markers_are_schema_one(
    agent: Seq<char>,
    marker_dir: Seq<char>,
    file_name: Seq<char>,
    parsed: Result<Seq<(Seq<char>, TomlLeaf)>, Seq<char>>,
)
    ensures
        entry_verdict_from(agent, marker_dir, file_name, parsed) matches Ok(m) ==> {
            &&& m.schema_version == 1
            &&& m.agent_id == agent
            &&& m.target_version == file_stem(file_name)
            &&& !is_blank(m.reason)
            &&& (m.request_recorded_at is Some || m.request_sha256 is Some)
            &&& named_for_generation(file_name)
            &&& parsed matches Ok(e) && decode_marker_spec(e) == Ok::<MarkerView, Seq<char>>(m)
        },
{
}

/// A well-named entry whose marker decodes with any schema version but 1 is refused, with a
/// message naming the version it declares, whatever its other fields hold.
pub proof fn law_other_schema_versions_are_refused(
    agent: Seq<char>,
    marker_dir: Seq<char>,
    file_name: Seq<char>,
    entries: Seq<(Seq<char>, TomlLeaf)>,
    m: MarkerView,
)
    requires
        named_for_generation(file_name),
        decode_marker_spec(entries) == Ok::<MarkerView, Seq<char>>(m),
        m.schema_version != 1,
    ensures
        entry_verdict_from(agent, marker_dir, file_name, Ok(entries)) == Err::<MarkerView, Seq<char>>(
            rendered_path(marker_dir, file_name) + " declares schema_version "@ + decimal(m.schema_version as nat) + " but this build understands 1"@,
        ),
{
}

pub open spec fn marker_result_matches(r: Result<StandDownMarker, Error>, v: Result<MarkerView, Seq<char>>) -> bool {
    match r {
        Ok(m) => v == Ok::<MarkerView, Seq<char>>(m.view()),
        Err(Error::Validation(e)) => v == Err::<MarkerView, Seq<char>>(e@),
        Err(Error::Internal(_)) => false,
    }
}

fn name_check(file_name: &str) -> (r: bool)
    ensures
        r == named_for_generation(file_name@),
{
    if !ends_with(file_name, ".toml") {
        return false;
    }
    proof {
        reveal_strlit(".toml");
    }
    let n = len(file_name);
    let stem = file_name.substring_char(0, n - 5);
    is_bare_semver(stem)
}

/// Judge one entry, given what the TOML parser made of its text.
pub fn check_entry(
    agent: &str,
    marker_dir: &str,
    file_name: &str,
    parsed: Result<Vec<(String, TomlValue)>, String>,
) -> (r: Result<StandDownMarker, Error>)
    ensures
        marker_result_matches(r, entry_verdict_from(agent@, marker_dir@, file_name@, parsed_view(parsed))),
{
    let rendered = cat3(marker_dir, "/", file_name);
    let shape = expected_shape_text();
    if !name_check(file_name) {
        let mut m = rendered;
        m.append(" is not named for a packet generation: expected `<MAJOR.MINOR.PATCH>.toml`\n");
        m.append(shape);
        return Err(Error::Validation(m));
    }
    let entries = match parsed {
        Ok(entries) => entries,
        Err(e) => {
            let mut m = rendered;
            m.append(" is not a usable stand-down marker: ");
            m.append(e.as_str());
            m.append("\n");
            m.append(shape);
            return Err(Error::Validation(m));
        },
    };
    let marker = match decode_marker(&entries) {
        Ok(marker) => marker,
        Err(e) => {
            let mut m = rendered;
            m.append(" is not a usable stand-down marker: ");
            m.append(e.as_str());
            m.append("\n");
            m.append(shape);
            return Err(Error::Validation(m));
        },
    };
    if marker.schema_version != SCHEMA_VERSION {
        let mut m = rendered;
        m.append(" declares schema_version ");
        let n = u64_text(marker.schema_version as u64);
        m.append(n.as_str());
        m.append(" but this build understands 1");
        return Err(Error::Validation(m));
    }
    if !str_eq(marker.agent_id.as_str(), agent) {
        let mut m = rendered;
        m.append(" declares agent_id `");
        m.append(marker.agent_id.as_str());
        m.append("` but sits in ");
        m.append(agent);
        m.append("'s maintenance root");
        return Err(Error::Validation(m));
    }
    let n = len(file_name);
    proof {
        reveal_strlit(".toml");
    }
    let version = file_name.substring_char(0, n - 5);
    if !str_eq(marker.target_version.as_str(), version) {
        let mut m = rendered;
        m.append(" declares target_version `");
        m.append(marker.target_version.as_str());
        m.append("`, which is not the generation its file name claims");
        return Err(Error::Validation(m));
    }
    if blank(marker.reason.as_str()) {
        let mut m = rendered;
        m.append(" has an empty `reason`");
        return Err(Error::Validation(m));
    }
    if marker.request_recorded_at.is_none() && marker.request_sha256.is_none() {
        let mut m = rendered;
        m.append(
            " must carry `request_recorded_at` or `request_sha256`: without one it names a packet but not the generation of it that was frozen\n",
        );
        m.append(shape);
        return Err(Error::Validation(m));
    }
    Ok(marker)
}

/// Read one entry of the marker directory as a stand-down marker.
pub fn validate_entry(agent: &str, marker_dir: &str, file_name: &str, text: &str) -> (r: Result<StandDownMarker, Error>)
    ensures
        marker_result_matches(r, entry_verdict(agent@, marker_dir@, file_name@, text@)),
{
    if !name_check(file_name) {
        let mut m = cat3(marker_dir, "/", file_name);
        m.append(" is not named for a packet generation: expected `<MAJOR.MINOR.PATCH>.toml`\n");
        m.append(expected_shape_text());
        return Err(Error::Validation(m));
    }
    let parsed = parse_toml_entries(text);
    check_entry(agent, marker_dir, file_name, parsed)
}


// ---------------------------------------------------------------------------------------------
// The whole directory

/// An agent's maintenance root.
pub open spec fn maintenance_root(agent: Seq<char>) -> Seq<char> {
    "docs/agents/lifecycle/"@ + agent + "-maintenance"@
}

/// An agent's marker directory.
pub open spec fn marker_dir(agent: Seq<char>) -> Seq<char> {
    maintenance_root(agent) + "/"@ + STAND_DOWN_RELATIVE_DIR@
}

pub fn maintenance_root_for(agent: &str) -> (r: String)
    ensures
        r@ == maintenance_root(agent@),
{
    cat3("docs/agents/lifecycle/", agent, "-maintenance")
}

pub fn marker_dir_for(agent: &str) -> (r: String)
    ensures
        r@ == marker_dir(agent@),
{
    let mut r = maintenance_root_for(agent);
    r.append("/");
    r.append(STAND_DOWN_RELATIVE_DIR);
    r
}

pub open spec fn unknown_agent_message(agent: Seq<char>) -> Seq<char> {
    "unknown agent `"@ + agent + "`: it is not in the agent registry, so no packet of that name exists"@
}

/// The registry lists `agent`.
pub open spec fn registry_knows(registry: AgentRegistry, agent: Seq<char>) -> bool {
    exists|i: int| 0 <= i < registry.agents.len() && #[trigger] registry.agents@[i].agent_id@ == agent
}

/// The directory's entries as plain (file name, text) pairs.
pub open spec fn entry_views(entries: Seq<(String, String)>) -> Seq<(Seq<char>, Seq<char>)> {
    entries.map_values(|e: (String, String)| (e.0@, e.1@))
}

/// Every entry judged in order; the first that fails is the answer, else the markers in order.
pub open spec fn verdicts(agent: Seq<char>, dir: Seq<char>, entries: Seq<(Seq<char>, Seq<char>)>) -> Result<Seq<MarkerView>, Seq<char>>
    decreases entries.len(),
{
    if entries.len() == 0 {
        Ok(Seq::<MarkerView>::empty())
    } else {
        match verdicts(agent, dir, entries.drop_last()) {
            Err(e) => Err(e),
            Ok(ms) => match entry_verdict(agent, dir, entries.last().0, entries.last().1) {
                Err(e) => Err(e),
                Ok(m) => Ok(ms.push(m)),
            },
        }
    }
}

/// The generations a set of markers freezes.
pub open spec fn versions(ms: Seq<MarkerView>) -> Seq<Seq<char>> {
    ms.map_values(|m: MarkerView| m.target_version)
}

/// The marker that claims `target`: the last one naming it.
pub open spec fn claim(ms: Seq<MarkerView>, target: Seq<char>) -> Option<MarkerView>
    decreases ms.len(),
{
    if ms.len() == 0 {
        None
    } else if ms.last().target_version == target {
        Some(ms.last())
    } else {
        claim(ms.drop_last(), target)
    }
}

pub open spec fn marker_opt_view(m: Option<StandDownMarker>) -> Option<MarkerView> {
    match m {
        Some(m) => Some(m.view()),
        None => None,
    }
}

/// What the guard found in a marker directory that it could read in full.
#[derive(Debug)]
pub struct StandDownAssessment {
    pub outcome: StandDownOutcome,
    /// The generations the directory freezes, ascending.
    pub frozen: Vec<String>,
    /// The marker that claims the generation asked about, if one does.
    pub marker: Option<StandDownMarker>,
}

/// The guard's answer for `agent` at `target`, given its marker directory's entries.
pub open spec fn assessment_matches(
    r: Result<StandDownAssessment, Error>,
    knows: bool,
    agent: Seq<char>,
    target: Seq<char>,
    entries: Seq<(Seq<char>, Seq<char>)>,
) -> bool {
    if !knows {
        r matches Err(Error::Validation(m)) && m@ == unknown_agent_message(agent)
    } else {
        match verdicts(agent, marker_dir(agent), entries) {
            Err(e) => r matches Err(Error::Validation(m)) && m@ == e,
            Ok(ms) => r matches Ok(a) && {
                &&& a.outcome == if claim(ms, target) is Some {
                    StandDownOutcome::StoodDown
                } else {
                    StandDownOutcome::Authorized
                }
                &&& marker_opt_view(a.marker) == claim(ms, target)
                &&& ascending(views(a.frozen@))
                &&& views(a.frozen@).to_set() == versions(ms).to_set()
            },
        }
    }
}

proof fn lemma_verdicts_prefix_err(agent: Seq<char>, dir: Seq<char>, es: Seq<(Seq<char>, Seq<char>)>, i: int)
    requires
        0 <= i <= es.len(),
        verdicts(agent, dir, es.subrange(0, i)) is Err,
    ensures
        verdicts(agent, dir, es) == verdicts(agent, dir, es.subrange(0, i)),
    decreases es.len() - i,
{
    if i < es.len() {
        assert(es.subrange(0, i + 1).drop_last() =~= es.subrange(0, i));
        lemma_verdicts_prefix_err(agent, dir, es, i + 1);
    } else {
        assert(es.subrange(0, i) =~= es);
    }
}

/// Has automation lost authority over `agent` at `target_version`?
///
/// `entries` is the marker directory's (file name, text) pairs. Every entry is validated, not
/// just the one that might match: an entry that cannot be read means the freeze set is unknown,
/// and an unknown freeze set is not an authorization. An agent the registry does not list is a
/// validation failure, never "no marker, proceed".
pub fn assess(registry: &AgentRegistry, agent: &str, target_version: &str, entries: &Vec<(String, String)>) -> (r: Result<StandDownAssessment, Error>)
    ensures
        assessment_matches(r, registry_knows(*registry, agent@), agent@, target_version@, entry_views(entries@)),
{
    let found = registry.find(agent);
    if found.is_none() {
        return Err(Error::Validation(cat3("unknown agent `", agent, "`: it is not in the agent registry, so no packet of that name exists")));
    }
    assert(registry_knows(*registry, agent@));
    let dir = marker_dir_for(agent);
    let ghost ev = entry_views(entries@);
    let ghost mut ms: Seq<MarkerView> = Seq::empty();
    let mut frozen: Vec<String> = Vec::new();
    let mut claimed: Option<StandDownMarker> = None;
    let mut i: usize = 0;
    proof {
        assert(ev.subrange(0, 0) =~= Seq::<(Seq<char>, Seq<char>)>::empty());
        assert(views(frozen@) =~= Seq::<Seq<char>>::empty());
        assert(versions(ms) =~= Seq::<Seq<char>>::empty());
    }
    while i < entries.len()
        invariant
            i <= entries.len(),
            ev == entry_views(entries@),
            ev.len() == entries.len(),
            dir@ == marker_dir(agent@),
            registry_knows(*registry, agent@),
            verdicts(agent@, dir@, ev.subrange(0, i as int)) == Ok::<Seq<MarkerView>, Seq<char>>(ms),
            ascending(views(frozen@)),
            views(frozen@).to_set() == versions(ms).to_set(),
            marker_opt_view(claimed) == claim(ms, target_version@),
        decreases entries.len() - i,
    {
        let ghost pre = ev.subrange(0, i as int);
        let ghost post = ev.subrange(0, i + 1);
        proof {
            assert(post.drop_last() =~= pre);
            assert(post.last() == (entries@[i as int].0@, entries@[i as int].1@));
        }
        let checked = validate_entry(agent, dir.as_str(), entries[i].0.as_str(), entries[i].1.as_str());
        let marker = match checked {
            Ok(marker) => marker,
            Err(e) => {
                proof {
                    let v = entry_verdict(agent@, dir@, entries@[i as int].0@, entries@[i as int].1@);
                    assert(e matches Error::Validation(m) && v == Err::<MarkerView, Seq<char>>(m@));
                    assert(verdicts(agent@, dir@, post) is Err && verdicts(agent@, dir@, post)->Err_0 == v->Err_0);
                    lemma_verdicts_prefix_err(agent@, dir@, ev, i + 1);
                }
                return Err(e);
            },
        };
        let version = to_owned(marker.target_version.as_str());
        let ghost old_frozen = views(frozen@);
        set_insert(&mut frozen, version);
        proof {
            assert(versions(ms.push(marker.view())) =~= versions(ms).push(marker.view().target_version));
            versions(ms).lemma_push_to_set_commute(marker.view().target_version);
            assert(ms.push(marker.view()).drop_last() =~= ms);
            ms = ms.push(marker.view());
        }
        if str_eq(marker.target_version.as_str(), target_version) {
            claimed = Some(marker);
        }
        i = i + 1;
    }
    proof {
        assert(ev.subrange(0, entries.len() as int) =~= ev);
    }
    let outcome = if claimed.is_some() {
        StandDownOutcome::StoodDown
    } else {
        StandDownOutcome::Authorized
    };
    Ok(StandDownAssessment { outcome, frozen, marker: claimed })
}


// ---------------------------------------------------------------------------------------------
// What the guard says

/// Where the markers were read from: the directory, or the directory at a git ref.
pub open spec fn source_text(agent: Seq<char>, from_ref: Option<Seq<char>>) -> Seq<char> {
    match from_ref {
        Some(r) => marker_dir(agent) + " at "@ + r,
        None => marker_dir(agent),
    }
}

pub fn marker_source(agent: &str, from_ref: Option<&str>) -> (r: String)
    ensures
        r@ == source_text(agent@, match from_ref {
            Some(s) => Some(s@),
            None => None,
        }),
{
    let mut r = marker_dir_for(agent);
    match from_ref {
        Some(git_ref) => {
            r.append(" at ");
            r.append(git_ref);
        },
        None => {},
    }
    r
}

/// A line labelled `label` for a value that may be absent.
pub open spec fn opt_line(label: Seq<char>, v: Option<Seq<char>>) -> Seq<Seq<char>> {
    match v {
        Some(x) => seq![label + x],
        None => Seq::empty(),
    }
}

/// Whether the frozen generation is still the one on disk, in words.
pub open spec fn match_line(expected: Seq<char>, actual: Seq<char>, rendered: Seq<char>) -> Seq<char> {
    if expected == actual {
        "    the frozen request is still the one on this branch"@
    } else {
        "    note: "@ + rendered + " now reads "@ + actual + ", so the frozen generation is no longer the one on this branch"@
    }
}

pub fn report_match(expected: &str, actual: &str, rendered: &str) -> (r: String)
    ensures
        r@ == match_line(expected@, actual@, rendered@),
{
    if str_eq(expected, actual) {
        to_owned("    the frozen request is still the one on this branch")
    } else {
        let mut r = cat4("    note: ", rendered, " now reads ", actual);
        r.append(", so the frozen generation is no longer the one on this branch");
        r
    }
}

/// The `request_recorded_at` of a request, or why it could not be read; other keys are ignored.
pub open spec fn request_stamp(parsed: Result<Seq<(Seq<char>, TomlLeaf)>, Seq<char>>) -> Result<Seq<char>, Seq<char>> {
    match parsed {
        Err(e) => Err(e),
        Ok(entries) => match lookup(entries, "request_recorded_at"@) {
            Some(TomlLeaf::Str(s)) => Ok(s),
            Some(_) => Err("invalid type for field `request_recorded_at`"@),
            None => Err("missing field `request_recorded_at`"@),
        },
    }
}

fn find_stamp(entries: &Vec<(String, TomlValue)>) -> (r: Result<String, String>)
    ensures
        match r {
            Ok(s) => request_stamp(Ok(entries_view(entries@))) == Ok::<Seq<char>, Seq<char>>(s@),
            Err(e) => request_stamp(Ok(entries_view(entries@))) == Err::<Seq<char>, Seq<char>>(e@),
        },
{
    let ghost ev = entries_view(entries@);
    let mut i: usize = entries.len();
    assert(ev.subrange(0, entries.len() as int) =~= ev);
    while i > 0
        invariant
            i <= entries.len(),
            ev == entries_view(entries@),
            ev.len() == entries.len(),
            lookup(ev, "request_recorded_at"@) == lookup(ev.subrange(0, i as int), "request_recorded_at"@),
        decreases i,
    {
        let ghost sub = ev.subrange(0, i as int);
        assert(sub.drop_last() =~= ev.subrange(0, i - 1));
        assert(sub.last() == (entries@[i - 1].0@, entries@[i - 1].1.leaf()));
        if str_eq(entries[i - 1].0.as_str(), "request_recorded_at") {
            match &entries[i - 1].1 {
                TomlValue::Str(s) => {
                    return Ok(to_owned(s.as_str()));
                },
                _ => {
                    return Err(to_owned("invalid type for field `request_recorded_at`"));
                },
            }
        }
        i = i - 1;
    }
    assert(ev.subrange(0, 0) =~= Seq::<(Seq<char>, TomlLeaf)>::empty());
    Err(to_owned("missing field `request_recorded_at`"))
}

/// What the guard reports about the generation a marker froze, given the request file's bytes
/// or why they could not be read. Reported, never decided on.
pub open spec fn binding_lines(m: MarkerView, rendered: Seq<char>, request: Result<Seq<u8>, Seq<char>>) -> Seq<Seq<char>> {
    match request {
        Err(err) => opt_line("  frozen request_recorded_at: "@, m.request_recorded_at)
            + opt_line("  frozen request_sha256: "@, m.request_sha256)
            + seq!["  note: could not read "@ + rendered + " to compare ("@ + err + ")"@],
        Ok(bytes) => {
            let stamp_lines = match m.request_recorded_at {
                Some(expected) => seq!["  frozen request_recorded_at: "@ + expected]
                    + match request_stamp(spec_toml_entries(spec_utf8_lossy(bytes))) {
                    Ok(actual) => seq![match_line(expected, actual, rendered)],
                    Err(e) => seq!["  note: could not read "@ + rendered + "'s own timestamp ("@ + e + ")"@],
                },
                None => Seq::empty(),
            };
            let digest_lines = match m.request_sha256 {
                Some(expected) => seq![
                    "  frozen request_sha256: "@ + expected,
                    match_line(expected, hex_lower(spec_sha256(bytes)), rendered),
                ],
                None => Seq::empty(),
            };
            stamp_lines + digest_lines
        },
    }
}

pub open spec fn lines_view(v: Seq<String>) -> Seq<Seq<char>> {
    views(v)
}

fn push_line(lines: &mut Vec<String>, line: String)
    ensures
        views(final(lines)@) == views(old(lines)@).push(line@),
{
    lines.push(line);
    assert(views(lines@) =~= views(old(lines)@).push(line@));
}

/// Say whether the frozen generation is still the one on disk.
pub fn binding_report(marker: &StandDownMarker, rendered: &str, request: &Result<Vec<u8>, String>) -> (r: Vec<String>)
    ensures
        views(r@) == binding_lines(marker.view(), rendered@, match request {
            Ok(b) => Ok(b@),
            Err(e) => Err(e@),
        }),
{
    let mut lines: Vec<String> = Vec::new();
    match request {
        Err(err) => {
            match &marker.request_recorded_at {
                Some(at) => push_line(&mut lines, cat2("  frozen request_recorded_at: ", at.as_str())),
                None => {},
            }
            match &marker.request_sha256 {
                Some(sha) => push_line(&mut lines, cat2("  frozen request_sha256: ", sha.as_str())),
                None => {},
            }
            let mut note = cat3("  note: could not read ", rendered, " to compare (");
            note.append(err.as_str());
            note.append(")");
            push_line(&mut lines, note);
            proof {
                let m = marker.view();
                assert(views(lines@) =~= opt_line("  frozen request_recorded_at: "@, m.request_recorded_at)
                    + opt_line("  frozen request_sha256: "@, m.request_sha256)
                    + seq![note@]);
            }
        },
        Ok(bytes) => {
            match &marker.request_recorded_at {
                Some(expected) => {
                    push_line(&mut lines, cat2("  frozen request_recorded_at: ", expected.as_str()));
                    let text = utf8_lossy(bytes.as_slice());
                    let parsed = parse_toml_entries(text.as_str());
                    let stamp = match parsed {
                        Ok(entries) => find_stamp(&entries),
                        Err(e) => Err(e),
                    };
                    match stamp {
                        Ok(actual) => push_line(&mut lines, report_match(expected.as_str(), actual.as_str(), rendered)),
                        Err(e) => {
                            let mut note = cat3("  note: could not read ", rendered, "'s own timestamp (");
                            note.append(e.as_str());
                            note.append(")");
                            push_line(&mut lines, note);
                        },
                    }
                },
                None => {},
            }
            let ghost stamp_lines = views(lines@);
            match &marker.request_sha256 {
                Some(expected) => {
                    push_line(&mut lines, cat2("  frozen request_sha256: ", expected.as_str()));
                    let digest = sha256_digest(bytes.as_slice());
                    let actual = hex_encode(digest.as_slice());
                    push_line(&mut lines, report_match(expected.as_str(), actual.as_str(), rendered));
                },
                None => {},
            }
            proof {
                let m = marker.view();
                let digest_lines = match m.request_sha256 {
                    Some(expected) => seq![
                        "  frozen request_sha256: "@ + expected,
                        match_line(expected, hex_lower(spec_sha256(bytes@)), rendered@),
                    ],
                    None => Seq::<Seq<char>>::empty(),
                };
                assert(views(lines@) =~= stamp_lines + digest_lines);
            }
        },
    }
    lines
}

/// What the guard says about its answer.
pub open spec fn outcome_lines(agent: Seq<char>, target: Seq<char>, source: Seq<char>, frozen: Seq<Seq<char>>, marker: Option<MarkerView>) -> Seq<Seq<char>> {
    match marker {
        None => if frozen.len() == 0 {
            seq!["No stand-down marker in "@ + source + ". Automation retains authority over "@ + agent + " "@ + target + "."@]
        } else {
            seq![source + " freezes "@ + agent + " "@ + join(frozen, ", "@) + ", not "@ + target + ". Automation retains authority over "@ + target + "."@]
        },
        Some(m) => seq![
            "Automation has stood down from "@ + agent + " "@ + target + "."@,
            "  marker: "@ + (maintenance_root(agent) + "/"@ + STAND_DOWN_RELATIVE_DIR@ + "/"@ + target + ".toml"@),
            "  reason: "@ + m.reason,
        ] + opt_line("  declared by: "@, m.declared_by) + opt_line("  declared at: "@, m.declared_at),
    }
}

/// The lines the guard prints for an assessment, before any generation binding.
pub fn outcome_report(agent: &str, target_version: &str, source: &str, assessment: &StandDownAssessment) -> (r: Vec<String>)
    ensures
        views(r@) == outcome_lines(agent@, target_version@, source@, views(assessment.frozen@), marker_opt_view(assessment.marker)),
{
    let mut lines: Vec<String> = Vec::new();
    match &assessment.marker {
        None => {
            if assessment.frozen.len() == 0 {
                let mut l = cat5("No stand-down marker in ", source, ". Automation retains authority over ", agent, " ");
                l.append(target_version);
                l.append(".");
                push_line(&mut lines, l);
                assert(views(lines@) =~= seq![l@]);
            } else {
                let mut l = cat4(source, " freezes ", agent, " ");
                let joined = join_text(&assessment.frozen, ", ");
                l.append(joined.as_str());
                l.append(", not ");
                l.append(target_version);
                l.append(". Automation retains authority over ");
                l.append(target_version);
                l.append(".");
                push_line(&mut lines, l);
                assert(views(lines@) =~= seq![l@]);
            }
        },
        Some(m) => {
            let mut l = cat4("Automation has stood down from ", agent, " ", target_version);
            l.append(".");
            push_line(&mut lines, l);
            let root = maintenance_root_for(agent);
            let path = marker_relative_path(root.as_str(), target_version);
            push_line(&mut lines, cat2("  marker: ", path.as_str()));
            push_line(&mut lines, cat2("  reason: ", m.reason.as_str()));
            let ghost head = views(lines@);
            proof {
                let mv = m.view();
                assert(head =~= seq![
                    "Automation has stood down from "@ + agent@ + " "@ + target_version@ + "."@,
                    "  marker: "@ + (maintenance_root(agent@) + "/"@ + STAND_DOWN_RELATIVE_DIR@ + "/"@ + target_version@ + ".toml"@),
                    "  reason: "@ + mv.reason,
                ]);
            }
            match &m.declared_by {
                Some(by) => push_line(&mut lines, cat2("  declared by: ", by.as_str())),
                None => {},
            }
            let ghost mid = views(lines@);
            match &m.declared_at {
                Some(at) => push_line(&mut lines, cat2("  declared at: ", at.as_str())),
                None => {},
            }
            proof {
                let mv = m.view();
                assert(mid =~= head + opt_line("  declared by: "@, mv.declared_by));
                assert(views(lines@) =~= mid + opt_line("  declared at: "@, mv.declared_at));
            }
        },
    }
    lines
}


// ---------------------------------------------------------------------------------------------
// Laws

proof fn lemma_verdicts_ok(agent: Seq<char>, dir: Seq<char>, es: Seq<(Seq<char>, Seq<char>)>)
    requires
        verdicts(agent, dir, es) is Ok,
    ensures
        ({
            let ms = verdicts(agent, dir, es)->Ok_0;
            &&& ms.len() == es.len()
            &&& forall|i: int| 0 <= i < es.len() ==> {
                &&& entry_verdict(agent, dir, #[trigger] es[i].0, es[i].1) == Ok::<MarkerView, Seq<char>>(ms[i])
                &&& named_for_generation(es[i].0)
                &&& ms[i].target_version == file_stem(es[i].0)
                &&& ms[i].agent_id == agent
            }
        }),
    decreases es.len(),
{
    if es.len() > 0 {
        lemma_verdicts_ok(agent, dir, es.drop_last());
        let ms = verdicts(agent, dir, es)->Ok_0;
        assert forall|i: int| 0 <= i < es.len() implies {
            &&& entry_verdict(agent, dir, #[trigger] es[i].0, es[i].1) == Ok::<MarkerView, Seq<char>>(ms[i])
            &&& named_for_generation(es[i].0)
            &&& ms[i].target_version == file_stem(es[i].0)
            &&& ms[i].agent_id == agent
        } by {
            if i < es.len() - 1 {
                assert(es.drop_last()[i] == es[i]);
            }
        }
    }
}

proof fn lemma_claim(ms: Seq<MarkerView>, target: Seq<char>)
    ensures
        (claim(ms, target) is Some) <==> exists|i: int| 0 <= i < ms.len() && #[trigger] ms[i].target_version == target,
        claim(ms, target) matches Some(m) ==> m.target_version == target,
    decreases ms.len(),
{
    if ms.len() > 0 {
        lemma_claim(ms.drop_last(), target);
        if claim(ms.drop_last(), target) is Some {
            let i = choose|i: int| 0 <= i < ms.drop_last().len() && #[trigger] ms.drop_last()[i].target_version == target;
            assert(ms[i].target_version == target);
        }
        if ms.last().target_version != target {
            assert forall|i: int| 0 <= i < ms.len() && #[trigger] ms[i].target_version == target implies claim(ms.drop_last(), target) is Some by {
                assert(i < ms.len() - 1);
                assert(ms.drop_last()[i].target_version == target);
            }
        }
    }
}

proof fn lemma_stem_names(f: Seq<char>, target: Seq<char>)
    requires
        named_for_generation(f),
    ensures
        (file_stem(f) == target) <==> (f == target + ".toml"@),
{
    reveal_strlit(".toml");
    assert(f =~= file_stem(f) + ".toml"@);
    if f == target + ".toml"@ {
        assert(file_stem(f) =~= target);
    }
}

/// Read in full, a marker directory stands automation down from exactly the generations its
/// files are named for: the file name is the match key, so a marker for another generation
/// does not protect this one, and freezing a second generation leaves the first frozen.
pub proof fn lemma_file_name_is_the_match_key(agent: Seq<char>, target: Seq<char>, entries: Seq<(Seq<char>, Seq<char>)>)
    requires
        verdicts(agent, marker_dir(agent), entries) is Ok,
    ensures
        (claim(verdicts(agent, marker_dir(agent), entries)->Ok_0, target) is Some) <==> exists|i: int|
            0 <= i < entries.len() && #[trigger] entries[i].0 == target + ".toml"@,
{
    let dir = marker_dir(agent);
    let ms = verdicts(agent, dir, entries)->Ok_0;
    lemma_verdicts_ok(agent, dir, entries);
    lemma_claim(ms, target);
    if claim(ms, target) is Some {
        let i = choose|i: int| 0 <= i < ms.len() && #[trigger] ms[i].target_version == target;
        assert(entry_verdict(agent, dir, entries[i].0, entries[i].1) is Ok);
        lemma_stem_names(entries[i].0, target);
        assert(entries[i].0 == target + ".toml"@);
    }
    assert forall|i: int| 0 <= i < entries.len() && #[trigger] entries[i].0 == target + ".toml"@ implies claim(ms, target) is Some by {
        assert(entry_verdict(agent, dir, entries[i].0, entries[i].1) is Ok);
        lemma_stem_names(entries[i].0, target);
        assert(ms[i].target_version == target);
    }
}

/// One entry that cannot be read as a marker makes the whole directory unreadable, whatever
/// generation is asked about: an unknown freeze set is not an authorization.
pub proof fn lemma_one_bad_entry_spoils_the_directory(agent: Seq<char>, dir: Seq<char>, entries: Seq<(Seq<char>, Seq<char>)>, i: int)
    requires
        0 <= i < entries.len(),
        entry_verdict(agent, dir, entries[i].0, entries[i].1) is Err,
    ensures
        verdicts(agent, dir, entries) is Err,
{
    let pre = entries.subrange(0, i);
    let post = entries.subrange(0, i + 1);
    assert(post.drop_last() =~= pre);
    assert(post.last() == entries[i]);
    assert(verdicts(agent, dir, post) is Err);
    lemma_verdicts_prefix_err(agent, dir, entries, i + 1);
}

/// The keys and values a rendered marker holds, in order.
pub open spec fn rendered_marker_entries(agent: Seq<char>, target_version: Seq<char>, request_recorded_at: Seq<char>) -> Seq<(Seq<char>, TomlLeaf)> {
    seq![
        ("schema_version"@, TomlLeaf::Int(1)),
        ("agent_id"@, TomlLeaf::Str(agent)),
        ("target_version"@, TomlLeaf::Str(target_version)),
        ("reason"@, TomlLeaf::Str("closeout in progress"@)),
        ("request_recorded_at"@, TomlLeaf::Str(request_recorded_at)),
    ]
}

/// What the renderer writes is what the parser accepts: the fields of a rendered marker, filed
/// under the generation it names in the agent's own directory, read back as that marker.
pub proof fn lemma_rendered_marker_is_accepted(agent: Seq<char>, target_version: Seq<char>, request_recorded_at: Seq<char>)
    requires
        bare_semver(target_version),
    ensures
        entry_verdict_from(
            agent,
            marker_dir(agent),
            target_version + ".toml"@,
            Ok(rendered_marker_entries(agent, target_version, request_recorded_at)),
        ) == Ok::<MarkerView, Seq<char>>(
            MarkerView {
                schema_version: 1,
                agent_id: agent,
                target_version,
                reason: "closeout in progress"@,
                request_recorded_at: Some(request_recorded_at),
                request_sha256: None,
                declared_at: None,
                declared_by: None,
            },
        ),
{
    reveal_strlit(".toml");
    reveal_strlit("schema_version");
    reveal_strlit("agent_id");
    reveal_strlit("target_version");
    reveal_strlit("reason");
    reveal_strlit("request_recorded_at");
    reveal_strlit("request_sha256");
    reveal_strlit("declared_at");
    reveal_strlit("declared_by");
    reveal_strlit("closeout in progress");
    let f = target_version + ".toml"@;
    assert(f.subrange(f.len() - 5, f.len() as int) =~= ".toml"@);
    assert(file_stem(f) =~= target_version);
    let es = rendered_marker_entries(agent, target_version, request_recorded_at);
    let step = marker_key_step();
    assert(es.subrange(0, 0) =~= Seq::<(Seq<char>, TomlLeaf)>::empty());
    assert forall|k: int| 0 <= k < 5 implies #[trigger] es.subrange(0, k + 1).drop_last() =~= es.subrange(0, k) by {}
    assert(es.subrange(0, 5) =~= es);
    assert("schema_version"@[0] == 's' && "agent_id"@[0] == 'a' && "target_version"@[0] == 't');
    assert("reason"@[0] == 'r' && "request_recorded_at"@[0] == 'r' && "request_sha256"@[0] == 'r');
    assert("declared_at"@[0] == 'd' && "declared_by"@[0] == 'd');
    assert("reason"@.len() == 6 && "request_recorded_at"@.len() == 19 && "request_sha256"@.len() == 14);
    assert("declared_at"@.len() == 11 && "declared_by"@.len() == 11 && "declared_at"@[9] == 'a' && "declared_by"@[9] == 'b');
    lemma_first_failure_step(es, step, 0);
    lemma_first_failure_step(es, step, 1);
    lemma_first_failure_step(es, step, 2);
    lemma_first_failure_step(es, step, 3);
    lemma_first_failure_step(es, step, 4);
    assert(first_failure(es, step) is Ok);
    let sub4 = es.subrange(0, 4);
    let sub3 = es.subrange(0, 3);
    let sub2 = es.subrange(0, 2);
    let sub1 = es.subrange(0, 1);
    assert(es.drop_last() =~= sub4);
    assert(sub4.drop_last() =~= sub3);
    assert(sub3.drop_last() =~= sub2);
    assert(sub2.drop_last() =~= sub1);
    assert(sub1.drop_last() =~= Seq::<(Seq<char>, TomlLeaf)>::empty());
    reveal_with_fuel(lookup, 6);
    assert(lookup(es, "schema_version"@) == Some(TomlLeaf::Int(1)));
    assert(lookup(es, "agent_id"@) == Some(TomlLeaf::Str(agent)));
    assert(lookup(es, "target_version"@) == Some(TomlLeaf::Str(target_version)));
    assert(lookup(es, "reason"@) == Some(TomlLeaf::Str("closeout in progress"@)));
    assert(lookup(es, "request_recorded_at"@) == Some(TomlLeaf::Str(request_recorded_at)));
    assert(lookup(es, "request_sha256"@) is None);
    assert(lookup(es, "declared_at"@) is None);
    assert(lookup(es, "declared_by"@) is None);
    assert("closeout in progress"@[0] == 'c');
    lemma_trim_start_blank("closeout in progress"@);
    assert(!is_ws("closeout in progress"@[0]));
    lemma_trim_end_of_nonempty(trim_start("closeout in progress"@));
}

/// Whatever generation is asked about, a marker directory with one entry that cannot be read as
/// a marker never yields an authorization: the guard refuses.
pub proof fn law_unreadable_entry_refuses(
    r: Result<StandDownAssessment, Error>,
    agent: Seq<char>,
    target: Seq<char>,
    entries: Seq<(Seq<char>, Seq<char>)>,
    i: int,
)
    requires
        assessment_matches(r, true, agent, target, entries),
        0 <= i < entries.len(),
        entry_verdict(agent, marker_dir(agent), entries[i].0, entries[i].1) is Err,
    ensures
        r matches Err(Error::Validation(_)),
{
    lemma_one_bad_entry_spoils_the_directory(agent, marker_dir(agent), entries, i);
}

/// An agent the registry does not list is a validation failure, never an authorization.
pub proof fn law_unknown_agent_is_refused(
    r: Result<StandDownAssessment, Error>,
    agent: Seq<char>,
    target: Seq<char>,
    entries: Seq<(Seq<char>, Seq<char>)>,
)
    requires
        assessment_matches(r, false, agent, target, entries),
    ensures
        r matches Err(Error::Validation(m)) && m@ == unknown_agent_message(agent),
{
}

/// When the guard can answer, it stands automation down exactly when a marker file is named
/// for the generation asked about: a marker for another generation protects nothing here.
pub proof fn law_stood_down_exactly_when_named(
    r: Result<StandDownAssessment, Error>,
    agent: Seq<char>,
    target: Seq<char>,
    entries: Seq<(Seq<char>, Seq<char>)>,
)
    requires
        assessment_matches(r, true, agent, target, entries),
        r is Ok,
    ensures
        (r->Ok_0.outcome == StandDownOutcome::StoodDown) <==> exists|i: int|
            0 <= i < entries.len() && #[trigger] entries[i].0 == target + ".toml"@,
{
    lemma_file_name_is_the_match_key(agent, target, entries);
}

} // verus!

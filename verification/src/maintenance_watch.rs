//! The release watch's own rules: which upstream version an enrolled agent should be maintained
//! to, how the upstream release listings are read, and how a listing is fetched.
use vstd::prelude::*;

use crate::onboard_agent::{split_once, split_once_text};
use crate::release_watch::{ReleaseWatchUpstream, ReleaseWatchVersionPolicy};
use crate::support_authorization::{semver_written, spec_semver};
use crate::text::{cat2, cat3, decimal, ends_with, has_prefix, has_suffix, starts_with, str_eq, to_owned, trim, trimmed, u64_text, views};

verus! {

/// Why the release watch failed for an agent.
#[derive(Debug)]
pub enum Error {
    Validation(String),
    Internal(String),
}

impl Error {
    pub open spec fn text(&self) -> Seq<char> {
        match self {
            Error::Validation(m) => m@,
            Error::Internal(m) => m@,
        }
    }

    /// The process exit code: 2 for a validation failure, 1 for an internal one.
    pub fn exit_code(&self) -> (r: i32)
        ensures
            r == (if self is Validation { 2i32 } else { 1i32 }),
    {
        match self {
            Error::Validation(_) => 2,
            Error::Internal(_) => 1,
        }
    }

    /// The text this error displays as.
    pub fn message(&self) -> (r: String)
        ensures
            r@ == self.text(),
    {
        match self {
            Error::Validation(m) => to_owned(m.as_str()),
            Error::Internal(m) => to_owned(m.as_str()),
        }
    }
}

/// `r` is the validation failure with text `m`.
pub open spec fn refused<T>(r: Result<T, Error>, m: Seq<char>) -> bool {
    r matches Err(Error::Validation(x)) && x@ == m
}

// ---------------------------------------------------------------------------------------------
// Which version to maintain to

/// The version the policy selects from the upstream's stable versions, ascending and without
/// repeats: the latest but one.
pub open spec fn target_version(versions: Seq<Seq<char>>, policy: ReleaseWatchVersionPolicy) -> Option<Seq<char>> {
    match policy {
        ReleaseWatchVersionPolicy::LatestStableMinusOne => if versions.len() < 2 {
            None
        } else {
            Some(versions[versions.len() - 2])
        },
    }
}

/// `select_target_version` on the stable versions, ascending and without repeats.
pub fn select_target_version(versions: &Vec<String>, version_policy: ReleaseWatchVersionPolicy) -> (r: Option<String>)
    ensures
        match target_version(views(versions@), version_policy) {
            Some(v) => r matches Some(s) && s@ == v,
            None => r is None,
        },
{
    match version_policy {
        ReleaseWatchVersionPolicy::LatestStableMinusOne => {
            if versions.len() < 2 {
                None
            } else {
                Some(to_owned(versions[versions.len() - 2].as_str()))
            }
        },
    }
}

/// The version a text names, written back canonically, or why it is not strict semver.
pub open spec fn semver_verdict(raw: Seq<char>, context: Seq<char>) -> Result<Seq<char>, Seq<char>> {
    match spec_semver(raw) {
        Ok(v) => Ok(v),
        Err(e) => Err(context + " must be strict semver MAJOR.MINOR.PATCH (got `"@ + raw + "`): "@ + e),
    }
}

/// `parse_semver`: the version `raw` names, as `semver` writes it back, or a validation
/// failure that names the context.
pub fn parse_semver(raw: &str, context: &str) -> (r: Result<String, Error>)
    ensures
        match semver_verdict(raw@, context@) {
            Ok(v) => r matches Ok(s) && s@ == v,
            Err(m) => refused(r, m),
        },
{
    match semver_written(raw) {
        Ok(v) => Ok(v),
        Err(e) => {
            let mut m = cat3(context, " must be strict semver MAJOR.MINOR.PATCH (got `", raw);
            m.append("`): ");
            m.append(e.as_str());
            Err(Error::Validation(m))
        },
    }
}

// ---------------------------------------------------------------------------------------------
// Percent-encoding

/// Bytes left as they are in a query value (RFC 3986 unreserved characters).
pub open spec fn unreserved(b: int) -> bool {
    ||| (0x41 <= b <= 0x5A)
    ||| (0x61 <= b <= 0x7A)
    ||| (0x30 <= b <= 0x39)
    ||| b == 0x2D
    ||| b == 0x2E
    ||| b == 0x5F
    ||| b == 0x7E
}

/// One uppercase hexadecimal digit.
pub open spec fn hex_digit(d: int) -> Seq<char> {
    if d == 0 { "0"@ } else if d == 1 { "1"@ } else if d == 2 { "2"@ } else if d == 3 { "3"@ }
    else if d == 4 { "4"@ } else if d == 5 { "5"@ } else if d == 6 { "6"@ } else if d == 7 { "7"@ }
    else if d == 8 { "8"@ } else if d == 9 { "9"@ } else if d == 10 { "A"@ } else if d == 11 { "B"@ }
    else if d == 12 { "C"@ } else if d == 13 { "D"@ } else if d == 14 { "E"@ } else { "F"@ }
}

/// `%XX` for a byte.
pub open spec fn escaped_byte(b: int) -> Seq<char> {
    "%"@ + hex_digit(b / 16) + hex_digit(b % 16)
}

/// The UTF-8 encoding of a code point.
pub open spec fn utf8_bytes(u: int) -> Seq<int> {
    if u < 0x80 {
        seq![u]
    } else if u < 0x800 {
        seq![0xC0 + u / 64, 0x80 + u % 64]
    } else if u < 0x10000 {
        seq![0xE0 + u / 4096, 0x80 + (u / 64) % 64, 0x80 + u % 64]
    } else {
        seq![0xF0 + u / 262144, 0x80 + (u / 4096) % 64, 0x80 + (u / 64) % 64, 0x80 + u % 64]
    }
}

pub open spec fn escaped_bytes(bytes: Seq<int>) -> Seq<char>
    decreases bytes.len(),
{
    if bytes.len() == 0 {
        Seq::empty()
    } else {
        escaped_bytes(bytes.drop_last()) + escaped_byte(bytes.last())
    }
}

/// What one character of the value becomes: itself when its single byte is unreserved, else
/// each byte of its UTF-8 encoding as `%XX`.
pub open spec fn encoded_char(c: char) -> Seq<char> {
    let u = (c as u32) as int;
    if unreserved(u) {
        seq![c]
    } else {
        escaped_bytes(utf8_bytes(u))
    }
}

pub open spec fn percent_encoded(s: Seq<char>) -> Seq<char>
    decreases s.len(),
{
    if s.len() == 0 {
        Seq::empty()
    } else {
        percent_encoded(s.drop_last()) + encoded_char(s.last())
    }
}

fn hex_str(d: u32) -> (r: &'static str)
    requires
        d < 16,
    ensures
        r@ == hex_digit(d as int),
{
    if d == 0 { "0" } else if d == 1 { "1" } else if d == 2 { "2" } else if d == 3 { "3" }
    else if d == 4 { "4" } else if d == 5 { "5" } else if d == 6 { "6" } else if d == 7 { "7" }
    else if d == 8 { "8" } else if d == 9 { "9" } else if d == 10 { "A" } else if d == 11 { "B" }
    else if d == 12 { "C" } else if d == 13 { "D" } else if d == 14 { "E" } else { "F" }
}

fn push_escaped(out: &mut String, b: u32)
    requires
        b < 256,
    ensures
        final(out)@ == old(out)@ + escaped_byte(b as int),
{
    out.append("%");
    out.append(hex_str(b / 16));
    out.append(hex_str(b % 16));
}

proof fn lemma_escaped_one(a: int)
    ensures
        escaped_bytes(seq![a]) == escaped_byte(a),
{
    let s = seq![a];
    assert(s.drop_last() =~= Seq::<int>::empty());
    assert(s.last() == a);
    assert(escaped_bytes(s.drop_last()) == Seq::<char>::empty());
    assert(escaped_bytes(s) == escaped_bytes(s.drop_last()) + escaped_byte(a));
    assert(Seq::<char>::empty() + escaped_byte(a) =~= escaped_byte(a));
}

proof fn lemma_escaped_two(a: int, b: int)
    ensures
        escaped_bytes(seq![a, b]) == escaped_byte(a) + escaped_byte(b),
{
    assert(seq![a, b].drop_last() =~= seq![a]);
    lemma_escaped_one(a);
}

proof fn lemma_escaped_three(a: int, b: int, c: int)
    ensures
        escaped_bytes(seq![a, b, c]) == escaped_byte(a) + escaped_byte(b) + escaped_byte(c),
{
    assert(seq![a, b, c].drop_last() =~= seq![a, b]);
    lemma_escaped_two(a, b);
}

proof fn lemma_escaped_four(a: int, b: int, c: int, d: int)
    ensures
        escaped_bytes(seq![a, b, c, d]) == escaped_byte(a) + escaped_byte(b) + escaped_byte(c) + escaped_byte(d),
{
    assert(seq![a, b, c, d].drop_last() =~= seq![a, b, c]);
    lemma_escaped_three(a, b, c);
}

#[verifier::spinoff_prover]
#[verifier::rlimit(40)]
fn push_escaped_char(out: &mut String, u: u32)
    requires
        0x80 <= u <= 0x10FFFF,
    ensures
        final(out)@ == old(out)@ + escaped_bytes(utf8_bytes(u as int)),
{
    let ghost start = out@;
    let ghost x = u as int;
    if u < 0x800 {
        push_escaped(out, 0xC0 + u / 64);
        push_escaped(out, 0x80 + u % 64);
        proof {
            lemma_escaped_two(0xC0 + x / 64, 0x80 + x % 64);
            assert(out@ =~= start + (escaped_byte(0xC0 + x / 64) + escaped_byte(0x80 + x % 64)));
        }
    } else if u < 0x10000 {
        push_escaped(out, 0xE0 + u / 4096);
        push_escaped(out, 0x80 + (u / 64) % 64);
        push_escaped(out, 0x80 + u % 64);
        proof {
            lemma_escaped_three(0xE0 + x / 4096, 0x80 + (x / 64) % 64, 0x80 + x % 64);
            assert(out@ =~= start + (escaped_byte(0xE0 + x / 4096) + escaped_byte(0x80 + (x / 64) % 64) + escaped_byte(0x80 + x % 64)));
        }
    } else {
        push_escaped(out, 0xF0 + u / 262144);
        push_escaped(out, 0x80 + (u / 4096) % 64);
        push_escaped(out, 0x80 + (u / 64) % 64);
        push_escaped(out, 0x80 + u % 64);
        proof {
            lemma_escaped_four(0xF0 + x / 262144, 0x80 + (x / 4096) % 64, 0x80 + (x / 64) % 64, 0x80 + x % 64);
            assert(out@ =~= start + (escaped_byte(0xF0 + x / 262144) + escaped_byte(0x80 + (x / 4096) % 64)
                + escaped_byte(0x80 + (x / 64) % 64) + escaped_byte(0x80 + x % 64)));
        }
    }
}

/// `percent_encode_query_value`: every byte of the value's UTF-8 encoding that is not an
/// unreserved character, as `%` and two uppercase hexadecimal digits.
pub fn percent_encode_query_value(value: &str) -> (r: String)
    ensures
        r@ == percent_encoded(value@),
{
    let n = value.unicode_len();
    let mut encoded = String::new();
    let mut i: usize = 0;
    assert(value@.subrange(0, 0) =~= Seq::<char>::empty());
    while i < n
        invariant
            n == value@.len(),
            i <= n,
            encoded@ == percent_encoded(value@.subrange(0, i as int)),
        decreases n - i,
    {
        let c = value.get_char(i);
        let u = c as u32;
        let ghost before = encoded@;
        proof {
            let sub = value@.subrange(0, i + 1);
            assert(sub.drop_last() =~= value@.subrange(0, i as int));
            assert(sub.last() == c);
        }
        if (0x41 <= u && u <= 0x5A) || (0x61 <= u && u <= 0x7A) || (0x30 <= u && u <= 0x39) || u == 0x2D || u == 0x2E || u == 0x5F || u == 0x7E {
            let one = value.substring_char(i, i + 1);
            assert(one@ =~= seq![c]);
            encoded.append(one);
        } else if u < 0x80 {
            push_escaped(&mut encoded, u);
            proof {
                lemma_escaped_one(u as int);
            }
        } else {
            push_escaped_char(&mut encoded, u);
        }
        assert(encoded@ =~= before + encoded_char(c));
        i = i + 1;
    }
    assert(value@.subrange(0, n as int) =~= value@);
    encoded
}

// ---------------------------------------------------------------------------------------------
// Fetching a listing

pub open spec fn base_curl_args(response_path: Seq<char>) -> Seq<Seq<char>> {
    seq![
        "-fsSL"@, "--retry"@, "3"@, "--retry-all-errors"@, "--retry-max-time"@, "120"@,
        "--connect-timeout"@, "30"@, "--speed-limit"@, "1024"@, "--speed-time"@, "60"@,
        "-H"@, "User-Agent: unified-agent-api-maintenance-watch/1.0"@, "-o"@, response_path,
    ]
}

/// The arguments curl gets: retries that restart the body file rather than append to it, a
/// bounded connect and a stall guard, the GitHub token (trimmed, when there is a non-blank one)
/// only for the GitHub API, and the URL last.
pub open spec fn curl_args(url: Seq<char>, response_path: Seq<char>, token: Option<Seq<char>>) -> Seq<Seq<char>> {
    let base = base_curl_args(response_path);
    let with_token = match token {
        Some(t) => if has_prefix(url, "https://api.github.com/"@) && trim(t).len() > 0 {
            base.push("-H"@).push("Authorization: Bearer "@ + trim(t))
        } else {
            base
        },
        None => base,
    };
    with_token.push(url)
}

fn push_text(args: &mut Vec<String>, s: &str)
    ensures
        views(final(args)@) == views(old(args)@).push(s@),
{
    let ghost before = views(args@);
    args.push(to_owned(s));
    assert(views(args@) =~= before.push(s@));
}

/// `build_curl_args`, with the response path as text.
pub fn build_curl_args(url: &str, response_path: &str, token: Option<&str>) -> (r: Vec<String>)
    ensures
        views(r@) == curl_args(url@, response_path@, match token { Some(t) => Some(t@), None => None }),
{
    let mut args: Vec<String> = Vec::new();
    assert(views(args@) =~= Seq::<Seq<char>>::empty());
    push_text(&mut args, "-fsSL");
    push_text(&mut args, "--retry");
    push_text(&mut args, "3");
    push_text(&mut args, "--retry-all-errors");
    push_text(&mut args, "--retry-max-time");
    push_text(&mut args, "120");
    push_text(&mut args, "--connect-timeout");
    push_text(&mut args, "30");
    push_text(&mut args, "--speed-limit");
    push_text(&mut args, "1024");
    push_text(&mut args, "--speed-time");
    push_text(&mut args, "60");
    push_text(&mut args, "-H");
    push_text(&mut args, "User-Agent: unified-agent-api-maintenance-watch/1.0");
    push_text(&mut args, "-o");
    push_text(&mut args, response_path);
    assert(views(args@) =~= base_curl_args(response_path@));
    if starts_with(url, "https://api.github.com/") {
        if let Some(t) = token {
            let trimmed_token = trimmed(t);
            if trimmed_token.as_str().unicode_len() > 0 {
                push_text(&mut args, "-H");
                let header = cat2("Authorization: Bearer ", trimmed_token.as_str());
                push_text(&mut args, header.as_str());
            }
        }
    }
    push_text(&mut args, url);
    args
}

// ---------------------------------------------------------------------------------------------
// GitHub releases

/// One GitHub release as the listing gives it.
#[derive(Debug, Clone)]
pub struct GithubRelease {
    pub tag_name: Option<String>,
    pub draft: bool,
    pub prerelease: bool,
}

pub open spec fn missing_upstream_text(field: Seq<char>, kind: Seq<char>, agent_id: Seq<char>) -> Seq<char> {
    "release_watch "@ + field + " missing for "@ + kind + " agent `"@ + agent_id + "`"@
}

pub open spec fn opt_text(o: Option<String>) -> Option<Seq<char>> {
    match o {
        Some(s) => Some(s@),
        None => None,
    }
}

fn required_upstream(value: &Option<String>, field: &str, kind: &str, agent_id: &str) -> (r: Result<String, Error>)
    ensures
        match opt_text(*value) {
            Some(v) => r matches Ok(s) && s@ == v,
            None => refused(r, missing_upstream_text(field@, kind@, agent_id@)),
        },
{
    match value {
        Some(v) => Ok(to_owned(v.as_str())),
        None => {
            let mut m = cat3("release_watch ", field, " missing for ");
            m.append(kind);
            m.append(" agent `");
            m.append(agent_id);
            m.append("`");
            Err(Error::Validation(m))
        },
    }
}

/// The GitHub source an agent's release watch names: owner, repository and tag prefix, or the
/// first of them it leaves out.
pub open spec fn github_source_spec(agent_id: Seq<char>, u: ReleaseWatchUpstream) -> Result<(Seq<char>, Seq<char>, Seq<char>), Seq<char>> {
    match (opt_text(u.owner), opt_text(u.repo), opt_text(u.tag_prefix)) {
        (None, _, _) => Err(missing_upstream_text("owner"@, "github_releases"@, agent_id)),
        (Some(_), None, _) => Err(missing_upstream_text("repo"@, "github_releases"@, agent_id)),
        (Some(_), Some(_), None) => Err(missing_upstream_text("tag_prefix"@, "github_releases"@, agent_id)),
        (Some(o), Some(r), Some(t)) => Ok((o, r, t)),
    }
}

/// The owner, repository and tag prefix a GitHub release watch reads.
pub fn github_source(agent_id: &str, upstream: &ReleaseWatchUpstream) -> (r: Result<(String, String, String), Error>)
    ensures
        match github_source_spec(agent_id@, *upstream) {
            Ok((o, p, t)) => r matches Ok(v) && v.0@ == o && v.1@ == p && v.2@ == t,
            Err(m) => refused(r, m),
        },
{
    let owner = required_upstream(&upstream.owner, "owner", "github_releases", agent_id)?;
    let repo = required_upstream(&upstream.repo, "repo", "github_releases", agent_id)?;
    let tag_prefix = required_upstream(&upstream.tag_prefix, "tag_prefix", "github_releases", agent_id)?;
    Ok((owner, repo, tag_prefix))
}

pub open spec fn github_releases_url_text(owner: Seq<char>, repo: Seq<char>, page: nat) -> Seq<char> {
    "https://api.github.com/repos/"@ + owner + "/"@ + repo + "/releases?per_page=100&page="@ + decimal(page)
}

/// The URL of one page of a repository's releases, a hundred to a page.
pub fn github_releases_url(owner: &str, repo: &str, page: u64) -> (r: String)
    ensures
        r@ == github_releases_url_text(owner@, repo@, page as nat),
{
    let mut url = cat3("https://api.github.com/repos/", owner, "/");
    url.append(repo);
    url.append("/releases?per_page=100&page=");
    let p = u64_text(page);
    url.append(p.as_str());
    url
}

/// The versions one page of releases gives, in page order: published releases whose tag has
/// the prefix, each tag's remainder read as strict semver; the first unreadable one fails.
pub open spec fn github_page_spec(agent_id: Seq<char>, tag_prefix: Seq<char>, releases: Seq<GithubRelease>) -> Result<Seq<Seq<char>>, Seq<char>>
    decreases releases.len(),
{
    if releases.len() == 0 {
        Ok(Seq::empty())
    } else {
        match github_page_spec(agent_id, tag_prefix, releases.drop_last()) {
            Err(e) => Err(e),
            Ok(vs) => {
                let r = releases.last();
                if r.draft || r.prerelease {
                    Ok(vs)
                } else {
                    match r.tag_name {
                        None => Ok(vs),
                        Some(tag) => if !has_prefix(tag@, tag_prefix) {
                            Ok(vs)
                        } else {
                            match semver_verdict(tag@.subrange(tag_prefix.len() as int, tag@.len() as int),
                                "GitHub tag `"@ + tag@ + "` for agent `"@ + agent_id + "`"@) {
                                Ok(v) => Ok(vs.push(v)),
                                Err(e) => Err(e),
                            }
                        },
                    }
                }
            },
        }
    }
}

/// The versions of one page of GitHub releases (see `github_page_spec`), and whether it was
/// the last page: one with fewer than a hundred releases.
pub fn github_release_page(agent_id: &str, tag_prefix: &str, releases: &Vec<GithubRelease>) -> (r: Result<(Vec<String>, bool), Error>)
    ensures
        match github_page_spec(agent_id@, tag_prefix@, releases@) {
            Ok(vs) => r matches Ok(v) && views(v.0@) == vs && v.1 == (releases.len() < 100),
            Err(m) => refused(r, m),
        },
{
    let mut versions: Vec<String> = Vec::new();
    let mut i: usize = 0;
    assert(releases@.subrange(0, 0) =~= Seq::<GithubRelease>::empty());
    assert(views(versions@) =~= Seq::<Seq<char>>::empty());
    while i < releases.len()
        invariant
            i <= releases.len(),
            github_page_spec(agent_id@, tag_prefix@, releases@.subrange(0, i as int)) == Ok::<Seq<Seq<char>>, Seq<char>>(views(versions@)),
        decreases releases.len() - i,
    {
        let ghost sub = releases@.subrange(0, i + 1);
        proof {
            assert(sub.drop_last() =~= releases@.subrange(0, i as int));
            assert(sub.last() == releases@[i as int]);
        }
        let release = &releases[i];
        if !release.draft && !release.prerelease {
            if let Some(tag) = &release.tag_name {
                if starts_with(tag.as_str(), tag_prefix) {
                    let n = tag.as_str().unicode_len();
                    let m = tag_prefix.unicode_len();
                    let raw = tag.as_str().substring_char(m, n);
                    let mut context = cat3("GitHub tag `", tag.as_str(), "` for agent `");
                    context.append(agent_id);
                    context.append("`");
                    match parse_semver(raw, context.as_str()) {
                        Ok(v) => {
                            let ghost before = views(versions@);
                            versions.push(v);
                            assert(views(versions@) =~= before.push(versions@[versions.len() - 1]@));
                        },
                        Err(e) => {
                            proof {
                                lemma_github_prefix_err(agent_id@, tag_prefix@, releases@, i + 1);
                            }
                            return Err(e);
                        },
                    }
                }
            }
        }
        i = i + 1;
    }
    assert(releases@.subrange(0, releases.len() as int) =~= releases@);
    Ok((versions, releases.len() < 100))
}

proof fn lemma_github_prefix_err(agent_id: Seq<char>, tag_prefix: Seq<char>, releases: Seq<GithubRelease>, i: int)
    requires
        0 <= i <= releases.len(),
        github_page_spec(agent_id, tag_prefix, releases.subrange(0, i)) is Err,
    ensures
        github_page_spec(agent_id, tag_prefix, releases) == github_page_spec(agent_id, tag_prefix, releases.subrange(0, i)),
    decreases releases.len() - i,
{
    if i < releases.len() {
        assert(releases.subrange(0, i + 1).drop_last() =~= releases.subrange(0, i));
        lemma_github_prefix_err(agent_id, tag_prefix, releases, i + 1);
    } else {
        assert(releases.subrange(0, i) =~= releases);
    }
}

// ---------------------------------------------------------------------------------------------
// GCS object listings

/// The GCS source an agent's release watch names: bucket, prefix (ending in `/`) and version
/// marker, or the first of them it leaves out.
pub open spec fn gcs_source_spec(agent_id: Seq<char>, u: ReleaseWatchUpstream) -> Result<(Seq<char>, Seq<char>, Seq<char>), Seq<char>> {
    match (opt_text(u.bucket), opt_text(u.prefix), opt_text(u.version_marker)) {
        (None, _, _) => Err(missing_upstream_text("bucket"@, "gcs_object_listing"@, agent_id)),
        (Some(_), None, _) => Err(missing_upstream_text("prefix"@, "gcs_object_listing"@, agent_id)),
        (Some(_), Some(_), None) => Err(missing_upstream_text("version_marker"@, "gcs_object_listing"@, agent_id)),
        (Some(b), Some(p), Some(m)) => Ok((b, if has_suffix(p, "/"@) { p } else { p + "/"@ }, m)),
    }
}

/// The bucket, normalized prefix and version marker a GCS release watch reads.
pub fn gcs_source(agent_id: &str, upstream: &ReleaseWatchUpstream) -> (r: Result<(String, String, String), Error>)
    ensures
        match gcs_source_spec(agent_id@, *upstream) {
            Ok((b, p, m)) => r matches Ok(v) && v.0@ == b && v.1@ == p && v.2@ == m,
            Err(m) => refused(r, m),
        },
{
    let bucket = required_upstream(&upstream.bucket, "bucket", "gcs_object_listing", agent_id)?;
    let prefix = required_upstream(&upstream.prefix, "prefix", "gcs_object_listing", agent_id)?;
    let marker = required_upstream(&upstream.version_marker, "version_marker", "gcs_object_listing", agent_id)?;
    let normalized = if ends_with(prefix.as_str(), "/") { prefix } else { cat2(prefix.as_str(), "/") };
    Ok((bucket, normalized, marker))
}

pub open spec fn gcs_listing_url_text(bucket: Seq<char>, prefix: Seq<char>, page_token: Option<Seq<char>>) -> Seq<char> {
    let base = "https://storage.googleapis.com/storage/v1/b/"@ + bucket + "/o?prefix="@ + prefix;
    match page_token {
        Some(t) => base + "&pageToken="@ + percent_encoded(t),
        None => base,
    }
}

/// The URL of one page of a bucket's listing under the prefix; the page token is
/// percent-encoded.
pub fn gcs_listing_url(bucket: &str, normalized_prefix: &str, page_token: Option<&str>) -> (r: String)
    ensures
        r@ == gcs_listing_url_text(bucket@, normalized_prefix@, match page_token { Some(t) => Some(t@), None => None }),
{
    let mut url = cat3("https://storage.googleapis.com/storage/v1/b/", bucket, "/o?prefix=");
    url.append(normalized_prefix);
    if let Some(token) = page_token {
        url.append("&pageToken=");
        let e = percent_encode_query_value(token);
        url.append(e.as_str());
    }
    url
}

/// The versions one listing page gives, in listing order: objects named
/// `<prefix><version>/<marker>`, each version read as strict semver; the first unreadable one
/// fails.
pub open spec fn gcs_page_spec(agent_id: Seq<char>, prefix: Seq<char>, marker: Seq<char>, names: Seq<Seq<char>>) -> Result<Seq<Seq<char>>, Seq<char>>
    decreases names.len(),
{
    if names.len() == 0 {
        Ok(Seq::empty())
    } else {
        match gcs_page_spec(agent_id, prefix, marker, names.drop_last()) {
            Err(e) => Err(e),
            Ok(vs) => {
                let name = names.last();
                if !has_prefix(name, prefix) {
                    Ok(vs)
                } else {
                    match split_once(name.subrange(prefix.len() as int, name.len() as int), '/') {
                        None => Ok(vs),
                        Some((candidate, rest)) => if rest != marker {
                            Ok(vs)
                        } else {
                            match semver_verdict(candidate, "GCS object `"@ + name + "` for agent `"@ + agent_id + "`"@) {
                                Ok(v) => Ok(vs.push(v)),
                                Err(e) => Err(e),
                            }
                        },
                    }
                }
            },
        }
    }
}

proof fn lemma_gcs_prefix_err(agent_id: Seq<char>, prefix: Seq<char>, marker: Seq<char>, names: Seq<Seq<char>>, i: int)
    requires
        0 <= i <= names.len(),
        gcs_page_spec(agent_id, prefix, marker, names.subrange(0, i)) is Err,
    ensures
        gcs_page_spec(agent_id, prefix, marker, names) == gcs_page_spec(agent_id, prefix, marker, names.subrange(0, i)),
    decreases names.len() - i,
{
    if i < names.len() {
        assert(names.subrange(0, i + 1).drop_last() =~= names.subrange(0, i));
        lemma_gcs_prefix_err(agent_id, prefix, marker, names, i + 1);
    } else {
        assert(names.subrange(0, i) =~= names);
    }
}

/// The versions of one page of a GCS listing (see `gcs_page_spec`), from its object names.
pub fn gcs_page_versions(agent_id: &str, normalized_prefix: &str, version_marker: &str, names: &Vec<String>) -> (r: Result<Vec<String>, Error>)
    ensures
        match gcs_page_spec(agent_id@, normalized_prefix@, version_marker@, views(names@)) {
            Ok(vs) => r matches Ok(v) && views(v@) == vs,
            Err(m) => refused(r, m),
        },
{
    let ghost nv = views(names@);
    let mut versions: Vec<String> = Vec::new();
    let mut i: usize = 0;
    assert(nv.subrange(0, 0) =~= Seq::<Seq<char>>::empty());
    assert(views(versions@) =~= Seq::<Seq<char>>::empty());
    while i < names.len()
        invariant
            i <= names.len(),
            nv == views(names@),
            gcs_page_spec(agent_id@, normalized_prefix@, version_marker@, nv.subrange(0, i as int)) == Ok::<Seq<Seq<char>>, Seq<char>>(views(versions@)),
        decreases names.len() - i,
    {
        let name = names[i].as_str();
        let ghost sub = nv.subrange(0, i + 1);
        proof {
            assert(sub.drop_last() =~= nv.subrange(0, i as int));
            assert(sub.last() == name@);
        }
        if starts_with(name, normalized_prefix) {
            let n = name.unicode_len();
            let m = normalized_prefix.unicode_len();
            let remainder = name.substring_char(m, n);
            if let Some((candidate, rest)) = split_once_text(remainder, '/') {
                if str_eq(rest.as_str(), version_marker) {
                    let mut context = cat3("GCS object `", name, "` for agent `");
                    context.append(agent_id);
                    context.append("`");
                    match parse_semver(candidate.as_str(), context.as_str()) {
                        Ok(v) => {
                            let ghost before = views(versions@);
                            versions.push(v);
                            assert(views(versions@) =~= before.push(versions@[versions.len() - 1]@));
                        },
                        Err(e) => {
                            proof {
                                lemma_gcs_prefix_err(agent_id@, normalized_prefix@, version_marker@, nv, i + 1);
                            }
                            return Err(e);
                        },
                    }
                }
            }
        }
        i = i + 1;
    }
    assert(nv.subrange(0, nv.len() as int) =~= nv);
    Ok(versions)
}

// ---------------------------------------------------------------------------------------------
// What always holds

/// A character that may stand in an encoded query value: an unreserved one, `%`, or an
/// uppercase hexadecimal digit.
pub open spec fn query_safe(c: char) -> bool {
    unreserved((c as u32) as int) || c == '%' || ('0' <= c && c <= '9') || ('A' <= c && c <= 'F')
}

proof fn lemma_hex_digit_safe(d: int)
    requires
        0 <= d < 16,
    ensures
        hex_digit(d).len() == 1,
        query_safe(hex_digit(d)[0]),
{
    reveal_strlit("0");
    reveal_strlit("1");
    reveal_strlit("2");
    reveal_strlit("3");
    reveal_strlit("4");
    reveal_strlit("5");
    reveal_strlit("6");
    reveal_strlit("7");
    reveal_strlit("8");
    reveal_strlit("9");
    reveal_strlit("A");
    reveal_strlit("B");
    reveal_strlit("C");
    reveal_strlit("D");
    reveal_strlit("E");
    reveal_strlit("F");
}

proof fn lemma_escaped_byte_safe(b: int)
    requires
        0 <= b < 256,
    ensures
        forall|k: int| 0 <= k < escaped_byte(b).len() ==> query_safe(#[trigger] escaped_byte(b)[k]),
{
    reveal_strlit("%");
    lemma_hex_digit_safe(b / 16);
    lemma_hex_digit_safe(b % 16);
    let e = escaped_byte(b);
    assert forall|k: int| 0 <= k < e.len() implies query_safe(#[trigger] e[k]) by {
        if k == 0 {
        } else if k == 1 {
            assert(e[k] == hex_digit(b / 16)[0]);
        } else {
            assert(e[k] == hex_digit(b % 16)[0]);
        }
    }
}

proof fn lemma_escaped_bytes_safe(bytes: Seq<int>)
    requires
        forall|k: int| 0 <= k < bytes.len() ==> 0 <= #[trigger] bytes[k] < 256,
    ensures
        forall|k: int| 0 <= k < escaped_bytes(bytes).len() ==> query_safe(#[trigger] escaped_bytes(bytes)[k]),
    decreases bytes.len(),
{
    if bytes.len() > 0 {
        let init = bytes.drop_last();
        assert forall|k: int| 0 <= k < init.len() implies 0 <= #[trigger] init[k] < 256 by {
            assert(init[k] == bytes[k]);
        }
        lemma_escaped_bytes_safe(init);
        assert(0 <= bytes[bytes.len() - 1] < 256);
        lemma_escaped_byte_safe(bytes.last());
        let p = escaped_bytes(init);
        let q = escaped_byte(bytes.last());
        assert forall|k: int| 0 <= k < (p + q).len() implies query_safe(#[trigger] (p + q)[k]) by {
            if k < p.len() {
                assert((p + q)[k] == p[k]);
            } else {
                assert((p + q)[k] == q[k - p.len()]);
            }
        }
    }
}

proof fn lemma_utf8_bytes_in_range(u: int)
    requires
        0x80 <= u <= 0x10FFFF,
    ensures
        forall|k: int| 0 <= k < utf8_bytes(u).len() ==> 0 <= #[trigger] utf8_bytes(u)[k] < 256,
{
    let bs = utf8_bytes(u);
    assert forall|k: int| 0 <= k < bs.len() implies 0 <= #[trigger] bs[k] < 256 by {
        if u < 0x800 {
            assert(u / 64 < 32);
        } else if u < 0x10000 {
            assert(u / 4096 < 16);
        } else {
            assert(u / 262144 <= 4);
        }
    }
}

/// Every character of an encoded query value is unreserved, `%`, or an uppercase hexadecimal
/// digit, whatever the value was.
pub proof fn law_encoded_value_is_query_safe(s: Seq<char>)
    ensures
        forall|k: int| 0 <= k < percent_encoded(s).len() ==> query_safe(#[trigger] percent_encoded(s)[k]),
    decreases s.len(),
{
    if s.len() > 0 {
        law_encoded_value_is_query_safe(s.drop_last());
        let c = s.last();
        let p = percent_encoded(s.drop_last());
        let q = encoded_char(c);
        let u = (c as u32) as int;
        vstd::utf8::char_is_scalar(c);
        if unreserved(u) {
            assert(q[0] == c);
            assert(query_safe(c));
        } else if u < 0x80 {
            assert(utf8_bytes(u) =~= seq![u]);
            lemma_escaped_bytes_safe(utf8_bytes(u));
        } else {
            lemma_utf8_bytes_in_range(u);
            lemma_escaped_bytes_safe(utf8_bytes(u));
        }
        assert forall|k: int| 0 <= k < (p + q).len() implies query_safe(#[trigger] (p + q)[k]) by {
            if k < p.len() {
                assert((p + q)[k] == p[k]);
            } else {
                assert((p + q)[k] == q[k - p.len()]);
            }
        }
    }
}

/// curl always writes the body to the response file, and the token reaches no host but the
/// GitHub API: for any other URL the arguments are those of a fetch without a token.
pub proof fn law_token_only_reaches_github(url: Seq<char>, response_path: Seq<char>, token: Option<Seq<char>>)
    ensures
        curl_args(url, response_path, token)[14] == "-o"@,
        curl_args(url, response_path, token)[15] == response_path,
        !has_prefix(url, "https://api.github.com/"@) ==> curl_args(url, response_path, token) == curl_args(url, response_path, None),
{
}

// ---------------------------------------------------------------------------------------------
// The watch queue

pub const QUEUE_SCHEMA_VERSION: u32 = 1;

/// The agents the release watch found stale, and those it could not evaluate.
#[derive(Debug, Clone, PartialEq, Eq)]
pub struct MaintenanceWatchQueue {
    pub schema_version: u32,
    pub generated_at: String,
    pub stale_agents: Vec<MaintenanceWatchQueueEntry>,
    pub failed_agents: Vec<MaintenanceWatchQueueFailure>,
}

/// One stale agent and the maintenance request to open for it.
#[derive(Debug, Clone, PartialEq, Eq)]
pub struct MaintenanceWatchQueueEntry {
    pub agent_id: String,
    pub manifest_root: String,
    pub current_validated: String,
    pub latest_stable: String,
    pub target_version: String,
    pub version_policy: String,
    pub dispatch_kind: String,
    pub dispatch_workflow: String,
    pub maintenance_root: String,
    pub request_path: String,
    pub opened_from: String,
    pub detected_by: String,
    pub branch_name: String,
}

/// An agent the watch could not evaluate, and why.
#[derive(Debug, Clone, PartialEq, Eq)]
pub struct MaintenanceWatchQueueFailure {
    pub agent_id: String,
    pub error: String,
}

/// What evaluating one enrolled agent gave: the agent, and its queue entry when it is stale,
/// nothing when it is current, or the failure.
pub type WatchOutcome = (String, Result<Option<MaintenanceWatchQueueEntry>, Error>);

/// The stale agents' entries, in evaluation order.
pub open spec fn stale_of(outcomes: Seq<WatchOutcome>) -> Seq<MaintenanceWatchQueueEntry>
    decreases outcomes.len(),
{
    if outcomes.len() == 0 {
        Seq::empty()
    } else {
        let p = stale_of(outcomes.drop_last());
        match outcomes.last().1 {
            Ok(Some(e)) => p.push(e),
            _ => p,
        }
    }
}

/// The agents that failed, each with its error's text, in evaluation order.
pub open spec fn failures_of(outcomes: Seq<WatchOutcome>) -> Seq<(Seq<char>, Seq<char>)>
    decreases outcomes.len(),
{
    if outcomes.len() == 0 {
        Seq::empty()
    } else {
        let p = failures_of(outcomes.drop_last());
        match outcomes.last().1 {
            Err(e) => p.push((outcomes.last().0@, e.text())),
            _ => p,
        }
    }
}

pub open spec fn failure_views(v: Seq<MaintenanceWatchQueueFailure>) -> Seq<(Seq<char>, Seq<char>)> {
    v.map_values(|f: MaintenanceWatchQueueFailure| (f.agent_id@, f.error@))
}

/// `build_watch_queue`'s queue, given when it was generated and what evaluating each enrolled
/// agent gave, in registry order: every stale agent's entry, and every failure as the agent and
/// its error's text; a current agent adds nothing.
pub fn assemble_watch_queue(generated_at: String, outcomes: Vec<WatchOutcome>) -> (r: MaintenanceWatchQueue)
    ensures
        r.schema_version == QUEUE_SCHEMA_VERSION,
        r.generated_at == generated_at,
        r.stale_agents@ == stale_of(outcomes@),
        failure_views(r.failed_agents@) == failures_of(outcomes@),
{
    let ghost all = outcomes@;
    let mut rest = outcomes;
    let mut stale: Vec<MaintenanceWatchQueueEntry> = Vec::new();
    let mut failed: Vec<MaintenanceWatchQueueFailure> = Vec::new();
    assert(all.subrange(0, 0) =~= Seq::<WatchOutcome>::empty());
    assert(rest@ =~= all.subrange(0, all.len() as int));
    assert(failure_views(failed@) =~= Seq::<(Seq<char>, Seq<char>)>::empty());
    while rest.len() > 0
        invariant
            rest.len() <= all.len(),
            rest@ == all.subrange(all.len() - rest.len(), all.len() as int),
            stale@ == stale_of(all.subrange(0, all.len() - rest.len())),
            failure_views(failed@) == failures_of(all.subrange(0, all.len() - rest.len())),
        decreases rest.len(),
    {
        let ghost i = all.len() - rest.len();
        let (agent_id, outcome) = rest.remove(0);
        proof {
            assert((agent_id, outcome) == all[i]);
            assert(rest@ =~= all.subrange(i + 1, all.len() as int));
            assert(all.subrange(0, i + 1).drop_last() =~= all.subrange(0, i));
            assert(all.subrange(0, i + 1).last() == all[i]);
        }
        match outcome {
            Ok(Some(entry)) => {
                let ghost before = stale@;
                stale.push(entry);
                assert(stale@ =~= before.push(all[i].1->Ok_0->Some_0));
            },
            Ok(None) => {},
            Err(error) => {
                let ghost before = failure_views(failed@);
                let text = error.message();
                failed.push(MaintenanceWatchQueueFailure { agent_id, error: text });
                assert(failure_views(failed@) =~= before.push((all[i].0@, all[i].1->Err_0.text())));
            },
        }
    }
    assert(all.subrange(0, all.len() as int) =~= all);
    MaintenanceWatchQueue { schema_version: QUEUE_SCHEMA_VERSION, generated_at, stale_agents: stale, failed_agents: failed }
}

pub open spec fn stale_line(e: MaintenanceWatchQueueEntry) -> Seq<char> {
    e.agent_id@ + " -> "@ + e.target_version@ + " (current "@ + e.current_validated@ + " latest "@
        + e.latest_stable@ + " via "@ + e.dispatch_workflow@ + ")"@
}

/// The lines the watch prints for a queue: its header counts, then each stale agent, then each
/// failure.
pub open spec fn watch_summary(q: MaintenanceWatchQueue) -> Seq<Seq<char>> {
    seq![
        "schema_version: "@ + decimal(q.schema_version as nat),
        "generated_at: "@ + q.generated_at@,
        "stale_agents: "@ + decimal(q.stale_agents@.len()),
        "failed_agents: "@ + decimal(q.failed_agents@.len()),
    ] + q.stale_agents@.map_values(|e: MaintenanceWatchQueueEntry| stale_line(e))
        + q.failed_agents@.map_values(|f: MaintenanceWatchQueueFailure| f.agent_id@ + " failed: "@ + f.error@)
}

/// `run_in_workspace`'s report of a queue, line by line.
pub fn render_watch_summary(q: &MaintenanceWatchQueue) -> (r: Vec<String>)
    ensures
        views(r@) == watch_summary(*q),
{
    let mut out: Vec<String> = Vec::new();
    let n = u64_text(q.schema_version as u64);
    out.push(cat2("schema_version: ", n.as_str()));
    out.push(cat2("generated_at: ", q.generated_at.as_str()));
    let n = u64_text(q.stale_agents.len() as u64);
    out.push(cat2("stale_agents: ", n.as_str()));
    let n = u64_text(q.failed_agents.len() as u64);
    out.push(cat2("failed_agents: ", n.as_str()));
    let ghost head = views(out@);
    let ghost stale = q.stale_agents@.map_values(|e: MaintenanceWatchQueueEntry| stale_line(e));
    let ghost failed = q.failed_agents@.map_values(|f: MaintenanceWatchQueueFailure| f.agent_id@ + " failed: "@ + f.error@);
    let mut i: usize = 0;
    while i < q.stale_agents.len()
        invariant
            i <= q.stale_agents.len(),
            stale == q.stale_agents@.map_values(|e: MaintenanceWatchQueueEntry| stale_line(e)),
            views(out@) == head + stale.subrange(0, i as int),
        decreases q.stale_agents.len() - i,
    {
        let e = &q.stale_agents[i];
        let mut line = cat3(e.agent_id.as_str(), " -> ", e.target_version.as_str());
        line.append(" (current ");
        line.append(e.current_validated.as_str());
        line.append(" latest ");
        line.append(e.latest_stable.as_str());
        line.append(" via ");
        line.append(e.dispatch_workflow.as_str());
        line.append(")");
        let ghost before = views(out@);
        assert(line@ == stale_line(*e));
        assert(stale[i as int] == stale_line(q.stale_agents@[i as int]));
        out.push(line);
        assert(views(out@) =~= before.push(line@));
        assert(stale.subrange(0, i + 1) =~= stale.subrange(0, i as int).push(stale[i as int]));
        assert(views(out@) =~= head + stale.subrange(0, i + 1));
        i = i + 1;
    }
    let mut j: usize = 0;
    while j < q.failed_agents.len()
        invariant
            j <= q.failed_agents.len(),
            stale == q.stale_agents@.map_values(|e: MaintenanceWatchQueueEntry| stale_line(e)),
            failed == q.failed_agents@.map_values(|f: MaintenanceWatchQueueFailure| f.agent_id@ + " failed: "@ + f.error@),
            views(out@) == head + stale + failed.subrange(0, j as int),
        decreases q.failed_agents.len() - j,
    {
        let f = &q.failed_agents[j];
        let line = cat3(f.agent_id.as_str(), " failed: ", f.error.as_str());
        let ghost before = views(out@);
        assert(failed[j as int] == line@);
        out.push(line);
        assert(views(out@) =~= before.push(line@));
        assert(failed.subrange(0, j + 1) =~= failed.subrange(0, j as int).push(failed[j as int]));
        assert(views(out@) =~= head + stale + failed.subrange(0, j + 1));
        j = j + 1;
    }
    proof {
        assert(stale.subrange(0, stale.len() as int) =~= stale);
        assert(failed.subrange(0, failed.len() as int) =~= failed);
        assert(views(out@) =~= watch_summary(*q));
    }
    out
}

pub open spec fn stale_found_message(n: nat) -> Seq<char> {
    "maintenance-watch found "@ + decimal(n) + " stale enrolled agent(s); rerun with --emit-json to inspect the queue"@
}

/// Under `--check`, a queue with stale agents fails the run; otherwise it passes.
pub fn watch_check_verdict(check: bool, q: &MaintenanceWatchQueue) -> (r: Result<(), Error>)
    ensures
        (check && q.stale_agents@.len() > 0) ==> refused(r, stale_found_message(q.stale_agents@.len())),
        !(check && q.stale_agents@.len() > 0) ==> r is Ok,
{
    if check && q.stale_agents.len() > 0 {
        let n = u64_text(q.stale_agents.len() as u64);
        let mut m = cat2("maintenance-watch found ", n.as_str());
        m.append(" stale enrolled agent(s); rerun with --emit-json to inspect the queue");
        return Err(Error::Validation(m));
    }
    Ok(())
}

// ---------------------------------------------------------------------------------------------
// Judging one enrolled agent

/// Whether the version `a` names comes before the version `b` names in `semver`'s order
/// (false when either text is not a version).
pub uninterp spec fn spec_semver_lt(a: Seq<char>, b: Seq<char>) -> bool;

/// `Version::parse(a) < Version::parse(b)`, false when either text is not a version. The order is
/// named by `spec_semver_lt`.
#[verifier::external_body]
fn semver_lt(a: &str, b: &str) -> (r: bool)
    ensures
        r == spec_semver_lt(a@, b@),
{
    match (semver::Version::parse(a), semver::Version::parse(b)) {
        (Ok(x), Ok(y)) => x < y,
        _ => false,
    }
}

/// A version the search admits: any version, or, given a bound, one below it.
pub open spec fn admitted(v: Seq<char>, below: Option<Seq<char>>) -> bool {
    match below {
        None => true,
        Some(b) => spec_semver_lt(v, b),
    }
}

/// No admitted version of `vs` comes after `v`.
pub open spec fn dominates(vs: Seq<Seq<char>>, below: Option<Seq<char>>, v: Seq<char>) -> bool {
    forall|i: int| 0 <= i < vs.len() && admitted(#[trigger] vs[i], below) ==> !spec_semver_lt(v, vs[i])
}

/// The first admitted version of `vs`, from index `k` on, that no admitted version comes after:
/// the greatest admitted version, as sorting and deduplicating finds it.
pub open spec fn greatest_from(vs: Seq<Seq<char>>, below: Option<Seq<char>>, k: int) -> Option<Seq<char>>
    decreases vs.len() - k,
{
    if k < 0 || k >= vs.len() {
        None
    } else if admitted(vs[k], below) && dominates(vs, below, vs[k]) {
        Some(vs[k])
    } else {
        greatest_from(vs, below, k + 1)
    }
}

pub open spec fn greatest(vs: Seq<Seq<char>>, below: Option<Seq<char>>) -> Option<Seq<char>> {
    greatest_from(vs, below, 0)
}

/// The version a policy picks: for `latest_stable_minus_one`, the greatest version below the
/// latest.
pub open spec fn policy_target(vs: Seq<Seq<char>>, latest: Seq<char>, policy: ReleaseWatchVersionPolicy) -> Option<Seq<char>> {
    match policy {
        ReleaseWatchVersionPolicy::LatestStableMinusOne => greatest(vs, Some(latest)),
    }
}

fn admits(v: &str, below: Option<&str>) -> (r: bool)
    ensures
        r == admitted(v@, match below { Some(b) => Some(b@), None => None }),
{
    match below {
        None => true,
        Some(b) => semver_lt(v, b),
    }
}

/// `greatest`: the greatest admitted version of `versions`, the first in list order.
fn greatest_version(versions: &Vec<String>, below: Option<&str>) -> (r: Option<String>)
    ensures
        match greatest(views(versions@), match below { Some(b) => Some(b@), None => None }) {
            Some(v) => r matches Some(s) && s@ == v,
            None => r is None,
        },
{
    let ghost vs = views(versions@);
    let ghost bv = match below { Some(b) => Some(b@), None => None::<Seq<char>> };
    let mut k: usize = 0;
    while k < versions.len()
        invariant
            k <= versions.len(),
            vs == views(versions@),
            bv == match below { Some(b) => Some(b@), None => None::<Seq<char>> },
            greatest(vs, bv) == greatest_from(vs, bv, k as int),
        decreases versions.len() - k,
    {
        let v = versions[k].as_str();
        assert(vs[k as int] == v@);
        if admits(v, below) {
            let mut ok = true;
            let mut i: usize = 0;
            while i < versions.len()
                invariant
                    i <= versions.len(),
                    vs == views(versions@),
                    vs[k as int] == v@,
                    k < versions.len(),
                    bv == match below { Some(b) => Some(b@), None => None::<Seq<char>> },
                    ok == (forall|j: int| 0 <= j < i && admitted(#[trigger] vs[j], bv) ==> !spec_semver_lt(v@, vs[j])),
                decreases versions.len() - i,
            {
                assert(vs[i as int] == versions@[i as int]@);
                if admits(versions[i].as_str(), below) && semver_lt(v, versions[i].as_str()) {
                    ok = false;
                }
                i = i + 1;
            }
            if ok {
                return Some(to_owned(v));
            }
        }
        k = k + 1;
    }
    None
}

/// What the maintenance contract gives for an agent's release watch: the policy and dispatch
/// kind as the queue writes them, the workflow that dispatches maintenance (or why there is
/// none), the maintenance request's path, where the request is opened from, and the workflow
/// that detects staleness.
pub struct WatchContract {
    pub version_policy: String,
    pub dispatch_kind: String,
    pub dispatch_workflow: Result<String, String>,
    pub request_path: String,
    pub opened_from: String,
    pub detected_by: String,
}

pub open spec fn no_versions_message(agent_id: Seq<char>) -> Seq<char> {
    "maintenance-watch found no stable upstream versions for agent `"@ + agent_id + "`"@
}

/// The queue entry for a stale agent.
pub open spec fn entry_holds(e: MaintenanceWatchQueueEntry, agent: crate::agent_registry::AgentRegistryEntry, current: Seq<char>, latest: Seq<char>, target: Seq<char>, c: WatchContract, workflow: Seq<char>) -> bool {
    &&& e.agent_id@ == agent.agent_id@
    &&& e.manifest_root@ == agent.manifest_root@
    &&& e.current_validated@ == current
    &&& e.latest_stable@ == latest
    &&& e.target_version@ == target
    &&& e.version_policy@ == c.version_policy@
    &&& e.dispatch_kind@ == c.dispatch_kind@
    &&& e.dispatch_workflow@ == workflow
    &&& e.maintenance_root@ == "docs/agents/lifecycle/"@ + agent.agent_id@ + "-maintenance"@
    &&& e.request_path@ == c.request_path@
    &&& e.opened_from@ == c.opened_from@
    &&& e.detected_by@ == c.detected_by@
    &&& e.branch_name@ == "automation/"@ + agent.agent_id@ + "-maintenance-"@ + target
}

/// `evaluate_agent_watch_entry`, given the agent's current validated version, the stable
/// versions the upstream lists (in any order, repeats allowed), and what the maintenance
/// contract gives for its release watch. The versions are taken in `semver` order: with none,
/// the agent fails; the latest is the greatest, the policy picks the target among those below
/// it; the agent is stale, and gets a queue entry, only when that target comes after its
/// current version.
pub fn evaluate_watch_entry(
    entry: &crate::agent_registry::AgentRegistryEntry,
    version_policy: ReleaseWatchVersionPolicy,
    current_validated: &str,
    versions: &Vec<String>,
    contract: &WatchContract,
) -> (r: Result<Option<MaintenanceWatchQueueEntry>, Error>)
    ensures
        versions.len() == 0 ==> refused(r, no_versions_message(entry.agent_id@)),
        versions.len() > 0 ==> match greatest(views(versions@), None) {
            None => r matches Err(Error::Internal(m)) && m@ == "latest stable missing after sort"@,
            Some(latest) => match policy_target(views(versions@), latest, version_policy) {
                None => r matches Ok(None),
                Some(target) => if !spec_semver_lt(current_validated@, target) {
                    r matches Ok(None)
                } else {
                    match contract.dispatch_workflow {
                        Err(m) => refused(r, m@),
                        Ok(w) => r matches Ok(Some(e)) && entry_holds(e, *entry, current_validated@, latest, target, *contract, w@),
                    }
                },
            },
        },
{
    if versions.len() == 0 {
        let m = cat3("maintenance-watch found no stable upstream versions for agent `", entry.agent_id.as_str(), "`");
        return Err(Error::Validation(m));
    }
    let latest = match greatest_version(versions, None) {
        Some(v) => v,
        None => {
            return Err(Error::Internal(to_owned("latest stable missing after sort")));
        },
    };
    let target = match version_policy {
        ReleaseWatchVersionPolicy::LatestStableMinusOne => greatest_version(versions, Some(latest.as_str())),
    };
    let target = match target {
        Some(t) => t,
        None => {
            return Ok(None);
        },
    };
    if !semver_lt(current_validated, target.as_str()) {
        return Ok(None);
    }
    let workflow = match &contract.dispatch_workflow {
        Ok(w) => to_owned(w.as_str()),
        Err(m) => {
            return Err(Error::Validation(to_owned(m.as_str())));
        },
    };
    let maintenance_root = cat3("docs/agents/lifecycle/", entry.agent_id.as_str(), "-maintenance");
    let mut branch_name = cat3("automation/", entry.agent_id.as_str(), "-maintenance-");
    branch_name.append(target.as_str());
    Ok(Some(MaintenanceWatchQueueEntry {
        agent_id: to_owned(entry.agent_id.as_str()),
        manifest_root: to_owned(entry.manifest_root.as_str()),
        current_validated: to_owned(current_validated),
        latest_stable: latest,
        target_version: target,
        version_policy: to_owned(contract.version_policy.as_str()),
        dispatch_kind: to_owned(contract.dispatch_kind.as_str()),
        dispatch_workflow: workflow,
        maintenance_root,
        request_path: to_owned(contract.request_path.as_str()),
        opened_from: to_owned(contract.opened_from.as_str()),
        detected_by: to_owned(contract.detected_by.as_str()),
        branch_name,
    }))
}

} // verus!

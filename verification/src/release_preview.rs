//! The release touchpoints an onboarding run previews: which workspace packages the crates.io
//! release publishes, in publish order, and the release doc's section that lists them.
use vstd::prelude::*;

use crate::approval_artifact::{get_value, table_get};
use crate::onboard_agent::{Error, refused_with};
use crate::text::{cat2, cat3, decimal, has_prefix, join, join_text, starts_with, str_eq, to_owned, trim_end, trimmed_end, u64_text, views};
use crate::toml_tree::{parse_toml_document, spec_toml_document, table_of, tree_of, TomlTree, TomlValue};

verus! {

pub const WRAPPER_EVENTS_PACKAGE_NAME: &'static str = "unified-agent-api-wrapper-events";
pub const ROOT_AGENT_API_PACKAGE_NAME: &'static str = "unified-agent-api";

// ---------------------------------------------------------------------------------------------
// Finding text

/// Where `pat` first occurs in `s` at or after `k`.
pub open spec fn find_from(s: Seq<char>, pat: Seq<char>, k: int) -> Option<int>
    decreases s.len() + 1 - k,
{
    if k < 0 || k + pat.len() > s.len() {
        None
    } else if s.subrange(k, k + pat.len()) == pat {
        Some(k)
    } else {
        find_from(s, pat, k + 1)
    }
}

proof fn lemma_find_from_bounds(s: Seq<char>, pat: Seq<char>, k: int)
    ensures
        find_from(s, pat, k) matches Some(i) ==> k <= i && i + pat.len() <= s.len(),
    decreases s.len() + 1 - k,
{
    if !(k < 0 || k + pat.len() > s.len()) && s.subrange(k, k + pat.len()) != pat {
        lemma_find_from_bounds(s, pat, k + 1);
    }
}

fn occurs_at(s: &str, n: usize, pat: &str, m: usize, k: usize) -> (r: bool)
    requires
        n == s@.len(),
        m == pat@.len(),
        k + m <= n,
    ensures
        r == (s@.subrange(k as int, k + m) == pat@),
{
    let mut j: usize = 0;
    while j < m
        invariant
            n == s@.len(),
            m == pat@.len(),
            k + m <= n,
            j <= m,
            forall|t: int| 0 <= t < j ==> s@[k + t] == pat@[t],
        decreases m - j,
    {
        if s.get_char(k + j) != pat.get_char(j) {
            assert(s@.subrange(k as int, k + m)[j as int] != pat@[j as int]);
            return false;
        }
        j = j + 1;
    }
    assert(s@.subrange(k as int, k + m) =~= pat@);
    true
}

/// `s.find(pat)`, as a position in characters.
pub fn find_text(s: &str, pat: &str) -> (r: Option<usize>)
    ensures
        match find_from(s@, pat@, 0) {
            Some(i) => r == Some(i as usize),
            None => r is None,
        },
{
    let n = s.unicode_len();
    let m = pat.unicode_len();
    if m > n {
        return None;
    }
    if m == 0 {
        assert(s@.subrange(0, 0) =~= pat@);
        return Some(0);
    }
    let mut k: usize = 0;
    while k <= n - m
        invariant
            n == s@.len(),
            m == pat@.len(),
            1 <= m <= n,
            k <= n - m + 1,
            find_from(s@, pat@, 0) == find_from(s@, pat@, k as int),
        decreases n - k,
    {
        if occurs_at(s, n, pat, m, k) {
            return Some(k);
        }
        k = k + 1;
    }
    None
}

// ---------------------------------------------------------------------------------------------
// The release doc section

pub open spec fn bullet_line(p: Seq<char>) -> Seq<char> {
    "- `"@ + p + "`"@
}

pub open spec fn bullet_lines(ps: Seq<Seq<char>>) -> Seq<Seq<char>> {
    ps.map_values(|p: Seq<char>| bullet_line(p))
}

pub open spec fn order_lines(ps: Seq<Seq<char>>) -> Seq<Seq<char>> {
    Seq::new(ps.len(), |i: int| decimal((i + 1) as nat) + ". `"@ + ps[i] + "`"@)
}

/// The release doc's section between its markers: the packages the release publishes, then the
/// order to publish them in.
pub open spec fn release_doc_block(ps: Seq<Seq<char>>, start_marker: Seq<char>, end_marker: Seq<char>) -> Seq<char> {
    start_marker + "\n## Published crates\n\nThis repository publishes "@ + decimal(ps.len()) + " Rust packages for each root `VERSION` bump:\n\n"@
        + join(bullet_lines(ps), "\n"@) + "\n\n## Publish order\n\nAlways publish in this order:\n\n"@
        + join(order_lines(ps), "\n"@) + "\n"@ + end_marker
}

/// `render_release_doc_block`, given the section's start and end markers.
pub fn render_release_doc_block(packages: &Vec<String>, start_marker: &str, end_marker: &str) -> (r: String)
    ensures
        r@ == release_doc_block(views(packages@), start_marker@, end_marker@),
{
    let ghost pv = views(packages@);
    let mut bullets: Vec<String> = Vec::new();
    let mut order: Vec<String> = Vec::new();
    let mut i: usize = 0;
    while i < packages.len()
        invariant
            i <= packages.len(),
            pv == views(packages@),
            views(bullets@) == bullet_lines(pv).subrange(0, i as int),
            views(order@) == order_lines(pv).subrange(0, i as int),
        decreases packages.len() - i,
    {
        let p = packages[i].as_str();
        let ghost b0 = views(bullets@);
        let ghost o0 = views(order@);
        bullets.push(cat3("- `", p, "`"));
        let mut line = u64_text((i + 1) as u64);
        line.append(". `");
        line.append(p);
        line.append("`");
        order.push(line);
        proof {
            assert(views(bullets@) =~= b0.push(bullet_line(pv[i as int])));
            assert(bullet_lines(pv).subrange(0, i + 1) =~= bullet_lines(pv).subrange(0, i as int).push(bullet_line(pv[i as int])));
            assert(views(order@) =~= o0.push(decimal((i + 1) as nat) + ". `"@ + pv[i as int] + "`"@));
            assert(order_lines(pv).subrange(0, i + 1) =~= order_lines(pv).subrange(0, i as int).push(order_lines(pv)[i as int]));
        }
        i = i + 1;
    }
    assert(bullet_lines(pv).subrange(0, pv.len() as int) =~= bullet_lines(pv));
    assert(order_lines(pv).subrange(0, pv.len() as int) =~= order_lines(pv));
    let list = join_text(&bullets, "\n");
    let numbered = join_text(&order, "\n");
    let mut out = cat2(start_marker, "\n## Published crates\n\nThis repository publishes ");
    let count = u64_text(packages.len() as u64);
    out.append(count.as_str());
    out.append(" Rust packages for each root `VERSION` bump:\n\n");
    out.append(list.as_str());
    out.append("\n\n## Publish order\n\nAlways publish in this order:\n\n");
    out.append(numbered.as_str());
    out.append("\n");
    out.append(end_marker);
    out
}

/// The release doc with its section replaced by `block` when both markers occur in order, else
/// with the block appended after a blank line.
pub open spec fn spliced_doc(existing: Seq<char>, block: Seq<char>, start_marker: Seq<char>, end_marker: Seq<char>) -> Seq<char> {
    match (find_from(existing, start_marker, 0), find_from(existing, end_marker, 0)) {
        (Some(start), Some(end)) => if start <= end {
            existing.subrange(0, start) + block + existing.subrange(end + end_marker.len(), existing.len() as int)
        } else {
            trim_end(existing) + "\n\n"@ + block + "\n"@
        },
        _ => trim_end(existing) + "\n\n"@ + block + "\n"@,
    }
}

/// `splice_release_doc_block`, given the section's start and end markers.
pub fn splice_release_doc_block(existing: &str, block: &str, start_marker: &str, end_marker: &str) -> (r: String)
    ensures
        r@ == spliced_doc(existing@, block@, start_marker@, end_marker@),
{
    proof {
        lemma_find_from_bounds(existing@, start_marker@, 0);
        lemma_find_from_bounds(existing@, end_marker@, 0);
    }
    let n = existing.unicode_len();
    match (find_text(existing, start_marker), find_text(existing, end_marker)) {
        (Some(start), Some(end)) => {
            if start <= end {
                let m = end_marker.unicode_len();
                let before = existing.substring_char(0, start);
                let after = existing.substring_char(end + m, n);
                let mut out = String::from_str(before);
                out.append(block);
                out.append(after);
                return out;
            }
        },
        _ => {},
    }
    let mut out = trimmed_end(existing);
    out.append("\n\n");
    out.append(block);
    out.append("\n");
    out
}

// ---------------------------------------------------------------------------------------------
// Which packages the release publishes

/// What the run found for one workspace member: its manifest's path for messages, and its text,
/// or that it does not exist, or why it could not be read.
#[derive(Debug)]
pub enum MemberManifest {
    Missing,
    Unreadable(String),
    Text(String),
}

pub open spec fn internal_err<T>(r: Result<T, Error>, m: Seq<char>) -> bool {
    r matches Err(Error::Internal(x)) && x@ == m
}

/// `package.<key>` of a member manifest.
pub open spec fn package_field(doc: Seq<(Seq<char>, TomlTree)>, key: Seq<char>) -> Option<TomlTree> {
    match table_get(doc, "package"@) {
        Some(TomlTree::Table(p)) => table_get(p, key),
        _ => None,
    }
}

/// What one member contributes: `Err` with the failure, `Ok(None)` when it publishes nothing the
/// release lists, `Ok(Some(name))` for its package name.
pub open spec fn member_package(
    member: Option<Seq<char>>,
    manifest_path: Seq<char>,
    manifest: MemberManifest,
    draft_crate_path: Seq<char>,
    draft_package_name: Seq<char>,
) -> Result<Option<Seq<char>>, Seq<char>> {
    match member {
        None => Err("workspace.members entries must be strings"@),
        Some(path) => if path == draft_crate_path {
            Ok(Some(draft_package_name))
        } else {
            match manifest {
                MemberManifest::Missing => Ok(None),
                MemberManifest::Unreadable(e) => Err("read "@ + manifest_path + ": "@ + e@),
                MemberManifest::Text(text) => match spec_toml_document(text@) {
                    Err(e) => Err("parse "@ + manifest_path + ": "@ + e),
                    Ok(doc) => if package_field(doc, "publish"@) == Some(TomlTree::Bool(false)) {
                        Ok(None)
                    } else {
                        match package_field(doc, "name"@) {
                            Some(TomlTree::Str(name)) => if has_prefix(name, "unified-agent-api"@) {
                                Ok(Some(name))
                            } else {
                                Ok(None)
                            },
                            _ => Ok(None),
                        }
                    },
                },
            }
        },
    }
}

/// The walk over the members: the leaf packages in member order, and the wrapper-events and
/// root packages held back (the last of each seen), or the first failure.
pub open spec fn package_walk(
    members: Seq<(Option<Seq<char>>, Seq<char>, MemberManifest)>,
    draft_crate_path: Seq<char>,
    draft_package_name: Seq<char>,
) -> Result<(Seq<Seq<char>>, Option<Seq<char>>, Option<Seq<char>>), Seq<char>>
    decreases members.len(),
{
    if members.len() == 0 {
        Ok((Seq::empty(), None, None))
    } else {
        match package_walk(members.drop_last(), draft_crate_path, draft_package_name) {
            Err(e) => Err(e),
            Ok((leaves, events, root)) => {
                let m = members.last();
                match member_package(m.0, m.1, m.2, draft_crate_path, draft_package_name) {
                    Err(e) => Err(e),
                    Ok(None) => Ok((leaves, events, root)),
                    Ok(Some(name)) => if name == WRAPPER_EVENTS_PACKAGE_NAME@ {
                        Ok((leaves, Some(name), root))
                    } else if name == ROOT_AGENT_API_PACKAGE_NAME@ {
                        Ok((leaves, events, Some(name)))
                    } else {
                        Ok((leaves.push(name), events, root))
                    },
                }
            },
        }
    }
}

/// The packages the release publishes, in publish order: the leaf packages, then the
/// wrapper-events package, then the root package.
pub open spec fn release_packages(
    members: Seq<(Option<Seq<char>>, Seq<char>, MemberManifest)>,
    draft_crate_path: Seq<char>,
    draft_package_name: Seq<char>,
) -> Result<Seq<Seq<char>>, Seq<char>> {
    match package_walk(members, draft_crate_path, draft_package_name) {
        Err(e) => Err(e),
        Ok((leaves, events, root)) => {
            let with_events = match events {
                Some(e) => leaves.push(e),
                None => leaves,
            };
            Ok(match root {
                Some(r) => with_events.push(r),
                None => with_events,
            })
        },
    }
}

/// A member other than the drafted crate whose manifest sets `package.publish = false`
/// contributes no package to the release, whatever its name.
pub proof fn law_unpublished_member_contributes_nothing(
    path: Seq<char>,
    manifest_path: Seq<char>,
    text: String,
    draft_crate_path: Seq<char>,
    draft_package_name: Seq<char>,
)
    requires
        path != draft_crate_path,
        spec_toml_document(text@) matches Ok(doc) && package_field(doc, "publish"@) == Some(TomlTree::Bool(false)),
    ensures
        member_package(Some(path), manifest_path, MemberManifest::Text(text), draft_crate_path, draft_package_name) == Ok::<Option<Seq<char>>, Seq<char>>(None),
{
}

proof fn lemma_walk_without_silent_member(
    members: Seq<(Option<Seq<char>>, Seq<char>, MemberManifest)>,
    c: Seq<char>,
    p: Seq<char>,
    k: int,
    n: int,
)
    requires
        0 <= k < n <= members.len(),
        member_package(members[k].0, members[k].1, members[k].2, c, p) == Ok::<Option<Seq<char>>, Seq<char>>(None),
    ensures
        package_walk(members.subrange(0, n), c, p) == package_walk(members.remove(k).subrange(0, n - 1), c, p),
    decreases n,
{
    let rm = members.remove(k);
    if n == k + 1 {
        assert(members.subrange(0, n).drop_last() =~= members.subrange(0, k));
        assert(rm.subrange(0, n - 1) =~= members.subrange(0, k));
    } else {
        lemma_walk_without_silent_member(members, c, p, k, n - 1);
        assert(members.subrange(0, n).drop_last() =~= members.subrange(0, n - 1));
        assert(rm.subrange(0, n - 1).drop_last() =~= rm.subrange(0, n - 2));
        assert(members.subrange(0, n).last() == members[n - 1]);
        assert(rm.subrange(0, n - 1).last() == rm[n - 2]);
        assert(rm[n - 2] == members[n - 1]);
    }
}

/// Leaving out a member that contributes nothing (such as one whose manifest sets
/// `package.publish = false`) does not change the release's package list, nor whether it fails.
pub proof fn law_release_ignores_unpublished_members(
    members: Seq<(Option<Seq<char>>, Seq<char>, MemberManifest)>,
    draft_crate_path: Seq<char>,
    draft_package_name: Seq<char>,
    k: int,
)
    requires
        0 <= k < members.len(),
        member_package(members[k].0, members[k].1, members[k].2, draft_crate_path, draft_package_name) == Ok::<Option<Seq<char>>, Seq<char>>(None),
    ensures
        release_packages(members, draft_crate_path, draft_package_name) == release_packages(members.remove(k), draft_crate_path, draft_package_name),
{
    lemma_walk_without_silent_member(members, draft_crate_path, draft_package_name, k, members.len() as int);
    assert(members.subrange(0, members.len() as int) =~= members);
    assert(members.remove(k).subrange(0, members.len() - 1) =~= members.remove(k));
}

pub open spec fn members_view(m: Seq<(Option<String>, String, MemberManifest)>) -> Seq<(Option<Seq<char>>, Seq<char>, MemberManifest)> {
    m.map_values(|x: (Option<String>, String, MemberManifest)| (match x.0 { Some(s) => Some(s@), None => None }, x.1@, x.2))
}

fn package_of(
    member: &Option<String>,
    manifest_path: &str,
    manifest: &MemberManifest,
    draft_crate_path: &str,
    draft_package_name: &str,
) -> (r: Result<Option<String>, Error>)
    ensures
        match member_package(match member { Some(s) => Some(s@), None => None }, manifest_path@, *manifest, draft_crate_path@, draft_package_name@) {
            Err(e) => internal_err(r, e),
            Ok(Some(n)) => r matches Ok(Some(s)) && s@ == n,
            Ok(None) => r matches Ok(None),
        },
{
    let path = match member {
        None => return Err(Error::Internal(to_owned("workspace.members entries must be strings"))),
        Some(p) => p,
    };
    if str_eq(path.as_str(), draft_crate_path) {
        return Ok(Some(to_owned(draft_package_name)));
    }
    let text = match manifest {
        MemberManifest::Missing => return Ok(None),
        MemberManifest::Unreadable(e) => {
            let mut m = cat3("read ", manifest_path, ": ");
            m.append(e.as_str());
            return Err(Error::Internal(m));
        },
        MemberManifest::Text(t) => t,
    };
    let doc = match parse_toml_document(text.as_str()) {
        Ok(d) => d,
        Err(e) => {
            let mut m = cat3("parse ", manifest_path, ": ");
            m.append(e.as_str());
            return Err(Error::Internal(m));
        },
    };
    let package = match get_value(&doc, "package") {
        Some(TomlValue::Table(p)) => p,
        _ => return Ok(None),
    };
    match get_value(package, "publish") {
        Some(TomlValue::Bool(false)) => return Ok(None),
        _ => {},
    }
    match get_value(package, "name") {
        Some(TomlValue::Str(name)) => {
            if starts_with(name.as_str(), "unified-agent-api") {
                Ok(Some(to_owned(name.as_str())))
            } else {
                Ok(None)
            }
        },
        _ => Ok(None),
    }
}

proof fn lemma_walk_prefix_err(
    members: Seq<(Option<Seq<char>>, Seq<char>, MemberManifest)>,
    c: Seq<char>,
    p: Seq<char>,
    i: int,
)
    requires
        0 <= i <= members.len(),
        package_walk(members.subrange(0, i), c, p) is Err,
    ensures
        package_walk(members, c, p) == package_walk(members.subrange(0, i), c, p),
    decreases members.len() - i,
{
    if i < members.len() {
        assert(members.subrange(0, i + 1).drop_last() =~= members.subrange(0, i));
        lemma_walk_prefix_err(members, c, p, i + 1);
    } else {
        assert(members.subrange(0, i) =~= members);
    }
}

/// `publishable_release_packages`, given each member of the desired workspace (its entry when it
/// is a string, its manifest's path, and what reading that manifest found).
pub fn publishable_release_packages(
    draft_crate_path: &str,
    draft_package_name: &str,
    members: &Vec<(Option<String>, String, MemberManifest)>,
) -> (r: Result<Vec<String>, Error>)
    ensures
        match release_packages(members_view(members@), draft_crate_path@, draft_package_name@) {
            Err(e) => internal_err(r, e),
            Ok(ps) => r matches Ok(v) && views(v@) == ps,
        },
{
    let ghost mv = members_view(members@);
    let mut leaves: Vec<String> = Vec::new();
    let mut events: Option<String> = None;
    let mut root: Option<String> = None;
    let mut i: usize = 0;
    assert(mv.subrange(0, 0) =~= Seq::<(Option<Seq<char>>, Seq<char>, MemberManifest)>::empty());
    assert(views(leaves@) =~= Seq::<Seq<char>>::empty());
    while i < members.len()
        invariant
            i <= members.len(),
            mv == members_view(members@),
            mv.len() == members.len(),
            package_walk(mv.subrange(0, i as int), draft_crate_path@, draft_package_name@)
                == Ok::<(Seq<Seq<char>>, Option<Seq<char>>, Option<Seq<char>>), Seq<char>>((
                    views(leaves@),
                    match events { Some(e) => Some(e@), None => None },
                    match root { Some(r) => Some(r@), None => None },
                )),
        decreases members.len() - i,
    {
        let m = &members[i];
        proof {
            assert(mv.subrange(0, i + 1).drop_last() =~= mv.subrange(0, i as int));
            assert(mv.subrange(0, i + 1).last() == mv[i as int]);
        }
        match package_of(&m.0, m.1.as_str(), &m.2, draft_crate_path, draft_package_name) {
            Err(e) => {
                proof {
                    lemma_walk_prefix_err(mv, draft_crate_path@, draft_package_name@, i + 1);
                }
                return Err(e);
            },
            Ok(None) => {},
            Ok(Some(name)) => {
                if str_eq(name.as_str(), WRAPPER_EVENTS_PACKAGE_NAME) {
                    events = Some(name);
                } else if str_eq(name.as_str(), ROOT_AGENT_API_PACKAGE_NAME) {
                    root = Some(name);
                } else {
                    let ghost before = views(leaves@);
                    leaves.push(name);
                    assert(views(leaves@) =~= before.push(leaves@[leaves.len() - 1]@));
                }
            },
        }
        i = i + 1;
    }
    assert(mv.subrange(0, members.len() as int) =~= mv);
    if let Some(e) = events {
        let ghost before = views(leaves@);
        leaves.push(e);
        assert(views(leaves@) =~= before.push(leaves@[leaves.len() - 1]@));
    }
    if let Some(r) = root {
        let ghost before = views(leaves@);
        leaves.push(r);
        assert(views(leaves@) =~= before.push(leaves@[leaves.len() - 1]@));
    }
    Ok(leaves)
}

// ---------------------------------------------------------------------------------------------
// Enrolling the crate as a workspace member

/// The first member equal to `v`, if any.
pub open spec fn position_of(members: Seq<Option<Seq<char>>>, v: Seq<char>) -> Option<int>
    decreases members.len(),
{
    if members.len() == 0 {
        None
    } else {
        match position_of(members.drop_last(), v) {
            Some(i) => Some(i),
            None => if members.last() == Some(v) { Some(members.len() - 1) } else { None },
        }
    }
}

/// Where the crate joins `workspace.members`: nowhere when it is already a member, else before
/// `crates/wrapper_events`, else before `crates/xtask`, else at the end.
pub open spec fn member_insertion(members: Seq<Option<Seq<char>>>, crate_path: Seq<char>) -> Option<int> {
    if position_of(members, crate_path) is Some {
        None
    } else {
        match position_of(members, "crates/wrapper_events"@) {
            Some(i) => Some(i),
            None => match position_of(members, "crates/xtask"@) {
                Some(i) => Some(i),
                None => Some(members.len() as int),
            },
        }
    }
}

pub open spec fn opt_texts(m: Seq<Option<String>>) -> Seq<Option<Seq<char>>> {
    m.map_values(|x: Option<String>| match x { Some(s) => Some(s@), None => None })
}

fn find_member(members: &Vec<Option<String>>, v: &str) -> (r: Option<usize>)
    ensures
        match position_of(opt_texts(members@), v@) {
            Some(i) => r == Some(i as usize),
            None => r is None,
        },
{
    let ghost mv = opt_texts(members@);
    let mut i: usize = 0;
    assert(mv.subrange(0, 0) =~= Seq::<Option<Seq<char>>>::empty());
    while i < members.len()
        invariant
            i <= members.len(),
            mv == opt_texts(members@),
            position_of(mv.subrange(0, i as int), v@) is None,
        decreases members.len() - i,
    {
        let ghost sub = mv.subrange(0, i + 1);
        assert(sub.drop_last() =~= mv.subrange(0, i as int));
        let hit = match &members[i] {
            Some(m) => str_eq(m.as_str(), v),
            None => false,
        };
        if hit {
            assert(sub.last() == Some(v@));
            proof {
                lemma_position_prefix(mv, v@, i + 1);
            }
            return Some(i);
        }
        i = i + 1;
    }
    assert(mv.subrange(0, mv.len() as int) =~= mv);
    None
}

proof fn lemma_position_prefix(members: Seq<Option<Seq<char>>>, v: Seq<char>, i: int)
    requires
        0 <= i <= members.len(),
        position_of(members.subrange(0, i), v) is Some,
    ensures
        position_of(members, v) == position_of(members.subrange(0, i), v),
    decreases members.len() - i,
{
    if i < members.len() {
        assert(members.subrange(0, i + 1).drop_last() =~= members.subrange(0, i));
        lemma_position_prefix(members, v, i + 1);
    } else {
        assert(members.subrange(0, i) =~= members);
    }
}

/// The part of `build_workspace_manifest_mutation` that decides: where the drafted crate joins
/// `workspace.members` (each entry given when it is a string), or `None` when it is already one.
pub fn workspace_member_insertion(members: &Vec<Option<String>>, crate_path: &str) -> (r: Option<usize>)
    ensures
        match member_insertion(opt_texts(members@), crate_path@) {
            Some(i) => r == Some(i as usize),
            None => r is None,
        },
{
    if find_member(members, crate_path).is_some() {
        return None;
    }
    match find_member(members, "crates/wrapper_events") {
        Some(i) => Some(i),
        None => match find_member(members, "crates/xtask") {
            Some(i) => Some(i),
            None => Some(members.len()),
        },
    }
}

} // verus!

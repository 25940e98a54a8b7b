//! What the capability matrix may publish for each agent, and the checks that keep an approval,
//! the registry, and a manifest in agreement.
use vstd::prelude::*;

use crate::agent_registry::AgentRegistryEntry;
use crate::capability_projection::{
    advertised_spec, command_plain, insert_all, project_advertised_capabilities, resolve_capability_publication_target,
    resolve_target_spec, view_plain, CapabilityCommandView, CapabilityManifestView, CapabilityPublicationTarget,
    PlainManifest,
};
use crate::strset::{ascending, set_insert};
use crate::text::{str_views, cat2, cat3, cat4, has_prefix, join, join_text, starts_with, str_eq, to_owned, vec_contains, views};

verus! {

pub const CURRENT_MANIFEST_FILENAME: &'static str = "current.json";

/// A manifest's `current.json`: the targets it expects and the commands it lists.
#[derive(Debug, Clone, PartialEq, Eq)]
pub struct ManifestCurrent {
    pub expected_targets: Vec<String>,
    pub commands: Vec<ManifestCommand>,
}

#[derive(Debug, Clone, PartialEq, Eq)]
pub struct ManifestCommand {
    pub path: Vec<String>,
    pub available_on: Vec<String>,
}

pub open spec fn manifest_command_plain(c: ManifestCommand) -> (Seq<Seq<char>>, Seq<Seq<char>>) {
    (views(c.path@), views(c.available_on@))
}

/// A manifest as plain values.
pub open spec fn current_plain(m: ManifestCurrent) -> PlainManifest {
    PlainManifest {
        expected_targets: views(m.expected_targets@),
        commands: m.commands@.map_values(|c: ManifestCommand| manifest_command_plain(c)),
    }
}

/// The manifest lists the command at `path` as available on `target`.
pub open spec fn command_available(m: PlainManifest, path: Seq<Seq<char>>, target: Seq<char>) -> bool {
    exists|i: int| 0 <= i < m.commands.len() && #[trigger] m.commands[i].0 == path && m.commands[i].1.contains(target)
}

fn path_matches(path: &Vec<String>, expected: &[&str]) -> (r: bool)
    ensures
        r == (views(path@) == str_views(expected@)),
{
    let ghost want = str_views(expected@);
    if path.len() != expected.len() {
        assert(views(path@).len() != want.len());
        return false;
    }
    let mut i: usize = 0;
    while i < path.len()
        invariant
            i <= path.len(),
            path.len() == expected.len(),
            want == str_views(expected@),
            forall|k: int| 0 <= k < i ==> #[trigger] path@[k]@ == expected@[k]@,
        decreases path.len() - i,
    {
        if !str_eq(path[i].as_str(), expected[i]) {
            assert(views(path@)[i as int] != want[i as int]);
            return false;
        }
        i = i + 1;
    }
    assert(views(path@) =~= want);
    true
}

/// Whether the manifest lists the command at `path` as available on `target`.
pub fn manifest_command_available_on_target(manifest: &ManifestCurrent, path: &[&str], target: &str) -> (r: bool)
    ensures
        r == command_available(current_plain(*manifest), str_views(path@), target@),
{
    let ghost pm = current_plain(*manifest);
    let ghost want = str_views(path@);
    let mut i: usize = 0;
    while i < manifest.commands.len()
        invariant
            i <= manifest.commands.len(),
            pm == current_plain(*manifest),
            want == str_views(path@),
            forall|k: int| 0 <= k < i ==> !(#[trigger] pm.commands[k].0 == want && pm.commands[k].1.contains(target@)),
        decreases manifest.commands.len() - i,
    {
        let command = &manifest.commands[i];
        assert(pm.commands[i as int] == manifest_command_plain(*command));
        if path_matches(&command.path, path) && vec_contains(&command.available_on, target) {
            assert(pm.commands[i as int].0 == want && pm.commands[i as int].1.contains(target@));
            return true;
        }
        i = i + 1;
    }
    false
}

pub open spec fn projection_message(agent_id: Seq<char>, err: Seq<char>) -> Seq<char> {
    "capability publication registry entry `"@ + agent_id + "` has invalid publication projection: "@ + err
}

/// The capabilities an entry advertises against its manifest, ascending.
pub fn project_manifest_advertised_capabilities(entry: &AgentRegistryEntry, manifest: &ManifestCurrent) -> (r: Result<Vec<String>, String>)
    ensures
        match (r, advertised_spec(*entry, current_plain(*manifest))) {
            (Ok(v), Ok(s)) => ascending(views(v@)) && views(v@).to_set() == s,
            (Err(m), Err(e)) => m@ == projection_message(entry.agent_id@, e),
            _ => false,
        },
{
    let mut command_views: Vec<CapabilityCommandView> = Vec::new();
    let mut i: usize = 0;
    while i < manifest.commands.len()
        invariant
            i <= manifest.commands.len(),
            command_views.len() == i,
            forall|k: int| 0 <= k < i ==> #[trigger] command_plain(command_views@[k]) == manifest_command_plain(manifest.commands@[k]),
        decreases manifest.commands.len() - i,
    {
        let command = &manifest.commands[i];
        command_views.push(CapabilityCommandView { path: command.path.as_slice(), available_on: command.available_on.as_slice() });
        i = i + 1;
    }
    let view = CapabilityManifestView { expected_targets: manifest.expected_targets.as_slice(), commands: command_views.as_slice() };
    proof {
        assert(view_plain(view).commands =~= current_plain(*manifest).commands);
        assert(view_plain(view).expected_targets =~= current_plain(*manifest).expected_targets);
    }
    match project_advertised_capabilities(entry, view) {
        Ok(v) => Ok(v),
        Err(err) => {
            let mut m = cat3("capability publication registry entry `", entry.agent_id.as_str(), "` has invalid publication projection: ");
            m.append(err.as_str());
            Err(m)
        },
    }
}

pub open spec fn missing_target_message(manifest_root: Seq<char>, target: Seq<char>) -> Seq<char> {
    "capability publication manifest `"@ + manifest_root + "/current.json` is missing publication.capability_matrix_target `"@
        + target + "` in expected_targets"@
}

/// An entry's explicit publication target must be one of its manifest's expected targets.
pub fn validate_capability_publication_target(entry: &AgentRegistryEntry, manifest: &ManifestCurrent) -> (r: Result<(), String>)
    ensures
        match resolve_target_spec(*entry) {
            Err(e) => r matches Err(m) && m@ == e,
            Ok(None) => r is Ok,
            Ok(Some(t)) => if views(manifest.expected_targets@).contains(t) {
                r is Ok
            } else {
                r matches Err(m) && m@ == missing_target_message(entry.manifest_root@, t)
            },
        },
{
    match resolve_capability_publication_target(entry)? {
        CapabilityPublicationTarget::DefaultBuiltInConfig => Ok(()),
        CapabilityPublicationTarget::Explicit(target) => {
            if vec_contains(&manifest.expected_targets, target) {
                Ok(())
            } else {
                let mut m = cat3("capability publication manifest `", entry.manifest_root.as_str(), "/current.json` is missing publication.capability_matrix_target `");
                m.append(target);
                m.append("` in expected_targets");
                Err(m)
            }
        },
    }
}

pub open spec fn target_description(t: Option<Seq<char>>) -> Seq<char> {
    match t {
        None => "the default publication target profile"@,
        Some(t) => "publication.capability_matrix_target `"@ + t + "`"@,
    }
}

/// The publication target an entry is judged on, in words.
pub fn render_publication_target_description(entry: &AgentRegistryEntry) -> (r: Result<String, String>)
    ensures
        match resolve_target_spec(*entry) {
            Err(e) => r matches Err(m) && m@ == e,
            Ok(t) => r matches Ok(s) && s@ == target_description(t),
        },
{
    Ok(match resolve_capability_publication_target(entry)? {
        CapabilityPublicationTarget::DefaultBuiltInConfig => to_owned("the default publication target profile"),
        CapabilityPublicationTarget::Explicit(target) => cat3("publication.capability_matrix_target `", target, "`"),
    })
}


/// The explicit targets (`` `agent=target` ``) and the agents on the default profile
/// (`` `agent` ``), in order, or the first entry whose target cannot be resolved.
pub open spec fn header_parts(entries: Seq<AgentRegistryEntry>) -> Result<(Seq<Seq<char>>, Seq<Seq<char>>), Seq<char>>
    decreases entries.len(),
{
    if entries.len() == 0 {
        Ok((Seq::empty(), Seq::empty()))
    } else {
        match header_parts(entries.drop_last()) {
            Err(e) => Err(e),
            Ok((canonical, defaults)) => {
                let e = entries.last();
                match resolve_target_spec(e) {
                    Err(m) => Err(m),
                    Ok(Some(t)) => Ok((canonical.push("`"@ + e.agent_id@ + "="@ + t + "`"@), defaults)),
                    Ok(None) => Ok((canonical, defaults.push("`"@ + e.agent_id@ + "`"@))),
                }
            },
        }
    }
}

pub open spec fn header_text(canonical: Seq<Seq<char>>, defaults: Seq<Seq<char>>) -> Seq<char> {
    let head = "Canonical publication target profile: "@;
    let a = if canonical.len() > 0 { join(canonical, ", "@) } else { Seq::empty() };
    let b = if canonical.len() > 0 && defaults.len() > 0 { "; "@ } else { Seq::empty() };
    let c = if defaults.len() > 0 {
        join(defaults, ", "@) + " "@ + (if defaults.len() == 1 { "uses its"@ } else { "use their"@ })
            + " default lifecycle-backed target profile"@
    } else {
        Seq::empty()
    };
    head + a + b + c + ".\n"@
}

pub open spec fn entry_refs(entries: Seq<&AgentRegistryEntry>) -> Seq<AgentRegistryEntry> {
    entries.map_values(|e: &AgentRegistryEntry| *e)
}

/// The sentence that opens the capability matrix: which target each published agent is judged on.
pub fn render_canonical_target_header(entries: &[&AgentRegistryEntry]) -> (r: Result<String, String>)
    ensures
        entries@.len() == 0 ==> (r matches Ok(s)
            && s@ == "Canonical publication target profile: none; no lifecycle-eligible agents are currently enrolled.\n"@),
        entries@.len() > 0 ==> match header_parts(entry_refs(entries@)) {
            Err(e) => r matches Err(m) && m@ == e,
            Ok((canonical, defaults)) => r matches Ok(s) && s@ == header_text(canonical, defaults),
        },
{
    if entries.len() == 0 {
        return Ok(to_owned("Canonical publication target profile: none; no lifecycle-eligible agents are currently enrolled.\n"));
    }
    let ghost es = entry_refs(entries@);
    let mut canonical_targets: Vec<String> = Vec::new();
    let mut default_backends: Vec<String> = Vec::new();
    let mut i: usize = 0;
    proof {
        assert(es.subrange(0, 0) =~= Seq::<AgentRegistryEntry>::empty());
        assert(views(canonical_targets@) =~= Seq::<Seq<char>>::empty());
        assert(views(default_backends@) =~= Seq::<Seq<char>>::empty());
    }
    while i < entries.len()
        invariant
            i <= entries@.len(),
            es == entry_refs(entries@),
            es.len() == entries@.len(),
            header_parts(es.subrange(0, i as int)) == Ok::<(Seq<Seq<char>>, Seq<Seq<char>>), Seq<char>>((views(canonical_targets@), views(default_backends@))),
        decreases entries@.len() - i,
    {
        let entry = entries[i];
        proof {
            assert(es.subrange(0, i + 1).drop_last() =~= es.subrange(0, i as int));
            assert(es.subrange(0, i + 1).last() == *entry);
        }
        match resolve_capability_publication_target(entry) {
            Err(m) => {
                proof {
                    lemma_header_parts_prefix_err(es, i + 1);
                    assert(es.subrange(0, es.len() as int) =~= es);
                }
                return Err(m);
            },
            Ok(CapabilityPublicationTarget::Explicit(target)) => {
                let mut item = cat4("`", entry.agent_id.as_str(), "=", target);
                item.append("`");
                let ghost before = views(canonical_targets@);
                canonical_targets.push(item);
                assert(views(canonical_targets@) =~= before.push(item@));
            },
            Ok(CapabilityPublicationTarget::DefaultBuiltInConfig) => {
                let item = cat3("`", entry.agent_id.as_str(), "`");
                let ghost before = views(default_backends@);
                default_backends.push(item);
                assert(views(default_backends@) =~= before.push(item@));
            },
        }
        i = i + 1;
    }
    proof {
        assert(es.subrange(0, entries@.len() as int) =~= es);
    }
    let mut out = to_owned("Canonical publication target profile: ");
    let ghost s0 = out@;
    if canonical_targets.len() > 0 {
        let joined = join_text(&canonical_targets, ", ");
        out.append(joined.as_str());
    }
    let ghost s1 = out@;
    if canonical_targets.len() > 0 && default_backends.len() > 0 {
        out.append("; ");
    }
    let ghost s2 = out@;
    if default_backends.len() > 0 {
        let joined = join_text(&default_backends, ", ");
        out.append(joined.as_str());
        out.append(" ");
        if default_backends.len() == 1 {
            out.append("uses its");
        } else {
            out.append("use their");
        }
        out.append(" default lifecycle-backed target profile");
    }
    let ghost s3 = out@;
    out.append(".\n");
    proof {
        let canonical = views(canonical_targets@);
        let defaults = views(default_backends@);
        let a = if canonical.len() > 0 { join(canonical, ", "@) } else { Seq::<char>::empty() };
        let b = if canonical.len() > 0 && defaults.len() > 0 { "; "@ } else { Seq::<char>::empty() };
        let c = if defaults.len() > 0 {
            join(defaults, ", "@) + " "@ + (if defaults.len() == 1 { "uses its"@ } else { "use their"@ })
                + " default lifecycle-backed target profile"@
        } else {
            Seq::<char>::empty()
        };
        assert(s1 =~= s0 + a);
        assert(s2 =~= s0 + a + b);
        assert(s3 =~= s0 + a + b + c);
        assert(out@ =~= header_text(canonical, defaults));
    }
    Ok(out)
}

proof fn lemma_header_parts_prefix_err(es: Seq<AgentRegistryEntry>, i: int)
    requires
        0 <= i <= es.len(),
        header_parts(es.subrange(0, i)) is Err,
    ensures
        header_parts(es) == header_parts(es.subrange(0, i)),
    decreases es.len() - i,
{
    if i < es.len() {
        assert(es.subrange(0, i + 1).drop_last() =~= es.subrange(0, i));
        lemma_header_parts_prefix_err(es, i + 1);
    } else {
        assert(es.subrange(0, i) =~= es);
    }
}


// ---------------------------------------------------------------------------------------------
// The orthogonality audit

/// `agent_api.*` capabilities that one backend alone may support.
pub open spec fn allowlisted(c: Seq<char>) -> bool {
    c == "agent_api.run"@ || c == "agent_api.events"@ || c == "agent_api.events.live"@
        || c == "agent_api.exec.non_interactive"@ || c == "agent_api.tools.mcp.list.v1"@
        || c == "agent_api.tools.mcp.get.v1"@ || c == "agent_api.tools.mcp.add.v1"@
        || c == "agent_api.tools.mcp.remove.v1"@
}

pub(crate) fn is_allowlisted(c: &str) -> (r: bool)
    ensures
        r == allowlisted(c@),
{
    str_eq(c, "agent_api.run") || str_eq(c, "agent_api.events") || str_eq(c, "agent_api.events.live")
        || str_eq(c, "agent_api.exec.non_interactive") || str_eq(c, "agent_api.tools.mcp.list.v1")
        || str_eq(c, "agent_api.tools.mcp.get.v1") || str_eq(c, "agent_api.tools.mcp.add.v1")
        || str_eq(c, "agent_api.tools.mcp.remove.v1")
}

/// Published backends as plain values: each agent id with its capability ids.
pub open spec fn backends_plain(b: Seq<(String, Vec<String>)>) -> Seq<(Seq<char>, Seq<Seq<char>>)> {
    b.map_values(|e: (String, Vec<String>)| (e.0@, views(e.1@)))
}

pub open spec fn backend_keys(bp: Seq<(Seq<char>, Seq<Seq<char>>)>) -> Seq<Seq<char>> {
    bp.map_values(|e: (Seq<char>, Seq<Seq<char>>)| e.0)
}

/// Every capability any of the first `n` backends supports.
pub open spec fn ids_of(bp: Seq<(Seq<char>, Seq<Seq<char>>)>, n: int) -> Set<Seq<char>> {
    Set::new(|c: Seq<char>| exists|i: int| 0 <= i < n && #[trigger] bp[i].1.contains(c))
}

pub open spec fn all_ids(bp: Seq<(Seq<char>, Seq<Seq<char>>)>) -> Set<Seq<char>> {
    ids_of(bp, bp.len() as int)
}

/// The backends that support `c`, in order.
pub open spec fn supporters(bp: Seq<(Seq<char>, Seq<Seq<char>>)>, c: Seq<char>) -> Seq<Seq<char>>
    decreases bp.len(),
{
    if bp.len() == 0 {
        Seq::empty()
    } else if bp.last().1.contains(c) {
        supporters(bp.drop_last(), c).push(bp.last().0)
    } else {
        supporters(bp.drop_last(), c)
    }
}

/// An `agent_api.*` capability, not allowlisted, that fewer than two backends support.
pub open spec fn violates(bp: Seq<(Seq<char>, Seq<Seq<char>>)>, c: Seq<char>) -> bool {
    has_prefix(c, "agent_api."@) && !allowlisted(c) && supporters(bp, c).len() < 2
}

/// The capabilities of `cs` that violate, in order.
pub open spec fn violating(cs: Seq<Seq<char>>, bp: Seq<(Seq<char>, Seq<Seq<char>>)>) -> Seq<Seq<char>>
    decreases cs.len(),
{
    if cs.len() == 0 {
        Seq::empty()
    } else if violates(bp, cs.last()) {
        violating(cs.drop_last(), bp).push(cs.last())
    } else {
        violating(cs.drop_last(), bp)
    }
}

pub open spec fn violation_lines(vs: Seq<Seq<char>>, bp: Seq<(Seq<char>, Seq<Seq<char>>)>) -> Seq<char>
    decreases vs.len(),
{
    if vs.len() == 0 {
        Seq::empty()
    } else {
        let c = vs.last();
        let sup = supporters(bp, c);
        violation_lines(vs.drop_last(), bp) + "- "@ + c + ": supported by "@ + crate::text::decimal(sup.len())
            + " agent(s): ["@ + join(sup, ", "@) + "]\n"@
    }
}

pub open spec fn allowlist_text() -> Seq<char> {
    "allowlist: [agent_api.events, agent_api.events.live, agent_api.exec.non_interactive, agent_api.run, agent_api.tools.mcp.add.v1, agent_api.tools.mcp.get.v1, agent_api.tools.mcp.list.v1, agent_api.tools.mcp.remove.v1]\n"@
}

pub open spec fn audit_message(bp: Seq<(Seq<char>, Seq<Seq<char>>)>, vs: Seq<Seq<char>>) -> Seq<char> {
    "published agents: ["@ + join(backend_keys(bp), ", "@) + "]\n"@ + "capability-matrix-audit failed: "@
        + crate::text::decimal(vs.len()) + " violation(s)\n"@ + violation_lines(vs, bp) + allowlist_text()
}

pub(crate) fn supporters_of(backends: &Vec<(String, Vec<String>)>, c: &str) -> (r: Vec<String>)
    ensures
        views(r@) == supporters(backends_plain(backends@), c@),
{
    let ghost bp = backends_plain(backends@);
    let mut out: Vec<String> = Vec::new();
    let mut i: usize = 0;
    proof {
        assert(bp.subrange(0, 0) =~= Seq::<(Seq<char>, Seq<Seq<char>>)>::empty());
        assert(views(out@) =~= Seq::<Seq<char>>::empty());
    }
    while i < backends.len()
        invariant
            i <= backends.len(),
            bp == backends_plain(backends@),
            bp.len() == backends.len(),
            views(out@) == supporters(bp.subrange(0, i as int), c@),
        decreases backends.len() - i,
    {
        proof {
            assert(bp.subrange(0, i + 1).drop_last() =~= bp.subrange(0, i as int));
            assert(bp.subrange(0, i + 1).last() == (backends@[i as int].0@, views(backends@[i as int].1@)));
        }
        if vec_contains(&backends[i].1, c) {
            let ghost before = views(out@);
            out.push(to_owned(backends[i].0.as_str()));
            assert(views(out@) =~= before.push(backends@[i as int].0@));
        }
        i = i + 1;
    }
    assert(bp.subrange(0, backends.len() as int) =~= bp);
    out
}

pub proof fn lemma_violating_empty(cs: Seq<Seq<char>>, bp: Seq<(Seq<char>, Seq<Seq<char>>)>)
    ensures
        (violating(cs, bp).len() == 0) <==> (forall|i: int| 0 <= i < cs.len() ==> !violates(bp, #[trigger] cs[i])),
    decreases cs.len(),
{
    if cs.len() > 0 {
        lemma_violating_empty(cs.drop_last(), bp);
        if violating(cs, bp).len() == 0 {
            assert forall|i: int| 0 <= i < cs.len() implies !violates(bp, #[trigger] cs[i]) by {
                if i < cs.len() - 1 {
                    assert(cs.drop_last()[i] == cs[i]);
                }
            }
        } else if violates(bp, cs.last()) {
            assert(!violates(bp, cs[cs.len() - 1]) == false);
        } else {
            let i = choose|i: int| 0 <= i < cs.drop_last().len() && violates(bp, #[trigger] cs.drop_last()[i]);
            assert(cs[i] == cs.drop_last()[i]);
        }
    }
}

/// Every capability id the backends support, ascending (`BTreeSet` order).
pub fn all_capability_ids(backends: &Vec<(String, Vec<String>)>) -> (r: Vec<String>)
    ensures
        ascending(views(r@)),
        views(r@).to_set() == all_ids(backends_plain(backends@)),
{
    let ghost bp = backends_plain(backends@);
    let mut all: Vec<String> = Vec::new();
    let mut i: usize = 0;
    proof {
        assert(views(all@).to_set() =~= ids_of(bp, 0));
    }
    while i < backends.len()
        invariant
            i <= backends.len(),
            bp == backends_plain(backends@),
            bp.len() == backends.len(),
            ascending(views(all@)),
            views(all@).to_set() == ids_of(bp, i as int),
        decreases backends.len() - i,
    {
        insert_all(&mut all, &backends[i].1);
        proof {
            assert(bp[i as int] == (backends@[i as int].0@, views(backends@[i as int].1@)));
            assert(views(all@).to_set() =~= ids_of(bp, i + 1)) by {
                assert forall|c: Seq<char>| ids_of(bp, i + 1).contains(c) implies views(all@).to_set().contains(c) by {
                    let k = choose|k: int| 0 <= k < i + 1 && #[trigger] bp[k].1.contains(c);
                    if k < i {
                        assert(ids_of(bp, i as int).contains(c));
                    }
                }
                assert forall|c: Seq<char>| views(all@).to_set().contains(c) implies ids_of(bp, i + 1).contains(c) by {
                    if ids_of(bp, i as int).contains(c) {
                        let k = choose|k: int| 0 <= k < i && #[trigger] bp[k].1.contains(c);
                        assert(bp[k].1.contains(c));
                    } else {
                        assert(bp[i as int].1.contains(c));
                    }
                }
            }
        }
        i = i + 1;
    }
    all
}

/// The backend names, in the order given.
pub open spec fn backend_names(backends: Seq<(String, Vec<String>)>) -> Seq<Seq<char>> {
    backends.map_values(|b: (String, Vec<String>)| b.0@)
}

/// Every `agent_api.*` capability outside the allowlist must be supported by at least two
/// published backends; `backends` are the published agents by name, ascending and distinct as
/// a `BTreeMap` holds them, each with its capability ids.
pub fn audit_capability_publication(backends: &Vec<(String, Vec<String>)>) -> (r: Result<(), String>)
    requires
        ascending(backend_names(backends@)),
    ensures
        (r is Ok) <==> (forall|c: Seq<char>| #[trigger] all_ids(backends_plain(backends@)).contains(c) ==> !violates(backends_plain(backends@), c)),
        r matches Err(m) ==> exists|all: Seq<Seq<char>>|
            ascending(all) && all.to_set() == all_ids(backends_plain(backends@))
                && m@ == audit_message(backends_plain(backends@), violating(all, backends_plain(backends@))),
{
    let ghost bp = backends_plain(backends@);
    let all = all_capability_ids(backends);
    let ghost allv = views(all@);
    let mut violations: Vec<String> = Vec::new();
    let mut lines = String::new();
    let mut j: usize = 0;
    proof {
        assert(allv.subrange(0, 0) =~= Seq::<Seq<char>>::empty());
        assert(views(violations@) =~= Seq::<Seq<char>>::empty());
        assert(lines@ =~= Seq::<char>::empty());
    }
    while j < all.len()
        invariant
            j <= all.len(),
            bp == backends_plain(backends@),
            allv == views(all@),
            allv.len() == all.len(),
            views(violations@) == violating(allv.subrange(0, j as int), bp),
            lines@ == violation_lines(views(violations@), bp),
        decreases all.len() - j,
    {
        let c = all[j].as_str();
        proof {
            assert(allv.subrange(0, j + 1).drop_last() =~= allv.subrange(0, j as int));
            assert(allv.subrange(0, j + 1).last() == c@);
        }
        if starts_with(c, "agent_api.") && !is_allowlisted(c) {
            let sup = supporters_of(backends, c);
            if sup.len() < 2 {
                let ghost before = views(violations@);
                violations.push(to_owned(c));
                proof {
                    assert(views(violations@) =~= before.push(c@));
                    assert(views(violations@).drop_last() =~= before);
                }
                lines.append("- ");
                lines.append(c);
                lines.append(": supported by ");
                let n = crate::text::u64_text(sup.len() as u64);
                lines.append(n.as_str());
                lines.append(" agent(s): [");
                let joined = join_text(&sup, ", ");
                lines.append(joined.as_str());
                lines.append("]\n");
            }
        }
        j = j + 1;
    }
    proof {
        assert(allv.subrange(0, all.len() as int) =~= allv);
        lemma_violating_empty(allv, bp);
    }
    if violations.len() == 0 {
        proof {
            assert forall|c: Seq<char>| #[trigger] all_ids(bp).contains(c) implies !violates(bp, c) by {
                assert(allv.to_set().contains(c));
                let k = choose|k: int| 0 <= k < allv.len() && allv[k] == c;
                assert(!violates(bp, allv[k]));
            }
        }
        return Ok(());
    }
    proof {
        let i = choose|i: int| 0 <= i < allv.len() && violates(bp, #[trigger] allv[i]);
        assert(allv.to_set().contains(allv[i]));
        assert(all_ids(bp).contains(allv[i]));
    }
    let mut keys: Vec<String> = Vec::new();
    let mut k: usize = 0;
    while k < backends.len()
        invariant
            k <= backends.len(),
            bp == backends_plain(backends@),
            views(keys@) == backend_keys(bp.subrange(0, k as int)),
        decreases backends.len() - k,
    {
        let ghost before = views(keys@);
        keys.push(to_owned(backends[k].0.as_str()));
        proof {
            assert(views(keys@) =~= before.push(backends@[k as int].0@));
            assert(backend_keys(bp.subrange(0, k + 1)) =~= backend_keys(bp.subrange(0, k as int)).push(bp[k as int].0));
        }
        k = k + 1;
    }
    proof {
        assert(bp.subrange(0, backends.len() as int) =~= bp);
    }
    let mut out = to_owned("published agents: [");
    let joined = join_text(&keys, ", ");
    out.append(joined.as_str());
    out.append("]\n");
    out.append("capability-matrix-audit failed: ");
    let n = crate::text::u64_text(violations.len() as u64);
    out.append(n.as_str());
    out.append(" violation(s)\n");
    out.append(lines.as_str());
    out.append("allowlist: [agent_api.events, agent_api.events.live, agent_api.exec.non_interactive, agent_api.run, agent_api.tools.mcp.add.v1, agent_api.tools.mcp.get.v1, agent_api.tools.mcp.list.v1, agent_api.tools.mcp.remove.v1]\n");
    Err(out)
}


// ---------------------------------------------------------------------------------------------
// Approval against registry and manifest

/// The text before the first `:` of a gate declaration, or all of it.
pub open spec fn gate_id(v: Seq<char>) -> Seq<char> {
    if v.contains(':') {
        v.subrange(0, choose_first_colon(v))
    } else {
        v
    }
}

/// The index of the first `:` in `v`.
pub open spec fn choose_first_colon(v: Seq<char>) -> int {
    choose|i: int| 0 <= i < v.len() && v[i] == ':' && forall|k: int| 0 <= k < i ==> v[k] != ':'
}

/// `value.split_once(':')`'s first half, or the whole value when there is no `:`.
pub fn gate_capability_id(value: &str) -> (r: String)
    ensures
        r@ == gate_id(value@),
{
    let n = value.unicode_len();
    let mut i: usize = 0;
    while i < n
        invariant
            n == value@.len(),
            i <= n,
            forall|k: int| 0 <= k < i ==> value@[k] != ':',
        decreases n - i,
    {
        if value.get_char(i) == ':' {
            proof {
                let j = choose_first_colon(value@);
                assert(value@.contains(':'));
                assert(0 <= j < value@.len() && value@[j] == ':' && forall|k: int| 0 <= k < j ==> value@[k] != ':');
                if j < i {
                } else if j > i {
                    assert(value@[i as int] == ':');
                }
                assert(j == i);
            }
            return String::from_str(value.substring_char(0, i));
        }
        i = i + 1;
    }
    proof {
        assert(!value@.contains(':'));
    }
    to_owned(value)
}

/// The capability ids of a list of gate declarations.
pub open spec fn gate_ids(vs: Seq<Seq<char>>) -> Seq<Seq<char>> {
    vs.map_values(|v: Seq<char>| gate_id(v))
}

/// Every capability an approval allows: always-on, gated, and extension capabilities.
pub open spec fn approval_universe(d: crate::approval_artifact::DescriptorView) -> Set<Seq<char>> {
    d.always_on_capabilities.to_set() + gate_ids(d.target_gated_capabilities).to_set()
        + gate_ids(d.config_gated_capabilities).to_set() + d.backend_extensions.to_set()
}

fn insert_gate_ids(set: &mut Vec<String>, items: &Vec<String>)
    requires
        ascending(views(old(set)@)),
    ensures
        ascending(views(final(set)@)),
        views(final(set)@).to_set() == views(old(set)@).to_set() + gate_ids(views(items@)).to_set(),
{
    let ghost start = views(set@).to_set();
    let mut i: usize = 0;
    while i < items.len()
        invariant
            i <= items.len(),
            ascending(views(set@)),
            views(set@).to_set() == start + gate_ids(views(items@.subrange(0, i as int))).to_set(),
        decreases items.len() - i,
    {
        let id = gate_capability_id(items[i].as_str());
        set_insert(set, id);
        proof {
            let a = gate_ids(views(items@.subrange(0, i as int)));
            assert(gate_ids(views(items@.subrange(0, i + 1))) =~= a.push(gate_id(items@[i as int]@)));
            a.lemma_push_to_set_commute(gate_id(items@[i as int]@));
            assert(views(set@).to_set() =~= start + gate_ids(views(items@.subrange(0, i + 1))).to_set());
        }
        i = i + 1;
    }
    assert(items@.subrange(0, items.len() as int) =~= items@);
}

/// The capabilities an approval allows, ascending.
pub fn approval_capability_universe(approval: &crate::approval_artifact::ApprovalArtifact) -> (r: Vec<String>)
    ensures
        ascending(views(r@)),
        views(r@).to_set() == approval_universe(approval.descriptor.view()),
{
    let d = &approval.descriptor;
    let mut out: Vec<String> = Vec::new();
    assert(views(out@).to_set() =~= Set::<Seq<char>>::empty());
    insert_all(&mut out, &d.always_on_capabilities);
    insert_gate_ids(&mut out, &d.target_gated_capabilities);
    insert_gate_ids(&mut out, &d.config_gated_capabilities);
    insert_all(&mut out, &d.backend_extensions);
    proof {
        assert(views(out@).to_set() =~= approval_universe(d.view()));
    }
    out
}

/// The entries of `advertised` that the approval does not allow, in order.
pub open spec fn beyond(advertised: Seq<Seq<char>>, approved: Set<Seq<char>>) -> Seq<Seq<char>>
    decreases advertised.len(),
{
    if advertised.len() == 0 {
        Seq::empty()
    } else if approved.contains(advertised.last()) {
        beyond(advertised.drop_last(), approved)
    } else {
        beyond(advertised.drop_last(), approved).push(advertised.last())
    }
}

pub open spec fn beyond_message(agent_id: Seq<char>, description: Seq<char>, unexpected: Seq<Seq<char>>) -> Seq<char> {
    "capability publication registry entry `"@ + agent_id + "` advertises capabilities beyond approval truth on "@
        + description + ": "@ + join(unexpected, ", "@)
}

/// Nothing may be published beyond what the approval allows.
pub fn validate_projected_capabilities_against_approval(
    entry: &AgentRegistryEntry,
    approval: &crate::approval_artifact::ApprovalArtifact,
    advertised: &Vec<String>,
) -> (r: Result<(), String>)
    ensures
        ({
            let unexpected = beyond(views(advertised@), approval_universe(approval.descriptor.view()));
            if unexpected.len() == 0 {
                r is Ok
            } else {
                match resolve_target_spec(*entry) {
                    Err(e) => r matches Err(m) && m@ == e,
                    Ok(t) => r matches Err(m) && m@ == beyond_message(entry.agent_id@, target_description(t), unexpected),
                }
            }
        }),
{
    let approved = approval_capability_universe(approval);
    let ghost allowed = approval_universe(approval.descriptor.view());
    let ghost adv = views(advertised@);
    let mut unexpected: Vec<String> = Vec::new();
    let mut i: usize = 0;
    proof {
        assert(adv.subrange(0, 0) =~= Seq::<Seq<char>>::empty());
        assert(views(unexpected@) =~= Seq::<Seq<char>>::empty());
    }
    while i < advertised.len()
        invariant
            i <= advertised.len(),
            adv == views(advertised@),
            adv.len() == advertised.len(),
            views(approved@).to_set() == allowed,
            views(unexpected@) == beyond(adv.subrange(0, i as int), allowed),
        decreases advertised.len() - i,
    {
        proof {
            assert(adv.subrange(0, i + 1).drop_last() =~= adv.subrange(0, i as int));
            assert(adv.subrange(0, i + 1).last() == advertised@[i as int]@);
        }
        let found = vec_contains(&approved, advertised[i].as_str());
        proof {
            assert(found == allowed.contains(advertised@[i as int]@));
        }
        if !found {
            let ghost before = views(unexpected@);
            unexpected.push(to_owned(advertised[i].as_str()));
            assert(views(unexpected@) =~= before.push(advertised@[i as int]@));
        }
        i = i + 1;
    }
    proof {
        assert(adv.subrange(0, advertised.len() as int) =~= adv);
    }
    if unexpected.len() == 0 {
        return Ok(());
    }
    let description = render_publication_target_description(entry)?;
    let mut m = cat3("capability publication registry entry `", entry.agent_id.as_str(), "` advertises capabilities beyond approval truth on ");
    m.append(description.as_str());
    m.append(": ");
    let joined = join_text(&unexpected, ", ");
    m.append(joined.as_str());
    Err(m)
}


/// The entries of `wanted` missing from `have`, in order.
pub open spec fn missing_from(wanted: Seq<Seq<char>>, have: Seq<Seq<char>>) -> Seq<Seq<char>>
    decreases wanted.len(),
{
    if wanted.len() == 0 {
        Seq::empty()
    } else if have.contains(wanted.last()) {
        missing_from(wanted.drop_last(), have)
    } else {
        missing_from(wanted.drop_last(), have).push(wanted.last())
    }
}

/// A manifest must expect at least one target, every registry canonical target, and the entry's
/// publication target.
pub fn validate_manifest_targets(entry: &AgentRegistryEntry, manifest: &ManifestCurrent) -> (r: Result<(), String>)
    ensures
        manifest.expected_targets.len() == 0 ==> (r matches Err(m) && m@ == "capability publication manifest `"@
            + entry.manifest_root@ + "/current.json` must declare at least one expected target"@),
        manifest.expected_targets.len() > 0 && missing_from(views(entry.canonical_targets@), views(manifest.expected_targets@)).len() > 0
            ==> (r matches Err(m) && m@ == "capability publication manifest `"@ + entry.manifest_root@
            + "/current.json` is missing registry canonical target(s): "@
            + join(missing_from(views(entry.canonical_targets@), views(manifest.expected_targets@)), ", "@)),
        manifest.expected_targets.len() > 0 && missing_from(views(entry.canonical_targets@), views(manifest.expected_targets@)).len() == 0
            ==> match resolve_target_spec(*entry) {
            Err(e) => r matches Err(m) && m@ == e,
            Ok(None) => r is Ok,
            Ok(Some(t)) => if views(manifest.expected_targets@).contains(t) {
                r is Ok
            } else {
                r matches Err(m) && m@ == missing_target_message(entry.manifest_root@, t)
            },
        },
{
    if manifest.expected_targets.len() == 0 {
        return Err(cat3("capability publication manifest `", entry.manifest_root.as_str(), "/current.json` must declare at least one expected target"));
    }
    let ghost wanted = views(entry.canonical_targets@);
    let ghost have = views(manifest.expected_targets@);
    let mut missing: Vec<String> = Vec::new();
    let mut i: usize = 0;
    proof {
        assert(wanted.subrange(0, 0) =~= Seq::<Seq<char>>::empty());
        assert(views(missing@) =~= Seq::<Seq<char>>::empty());
    }
    while i < entry.canonical_targets.len()
        invariant
            i <= entry.canonical_targets.len(),
            wanted == views(entry.canonical_targets@),
            have == views(manifest.expected_targets@),
            wanted.len() == entry.canonical_targets.len(),
            views(missing@) == missing_from(wanted.subrange(0, i as int), have),
        decreases entry.canonical_targets.len() - i,
    {
        proof {
            assert(wanted.subrange(0, i + 1).drop_last() =~= wanted.subrange(0, i as int));
            assert(wanted.subrange(0, i + 1).last() == entry.canonical_targets@[i as int]@);
        }
        if !vec_contains(&manifest.expected_targets, entry.canonical_targets[i].as_str()) {
            let ghost before = views(missing@);
            missing.push(to_owned(entry.canonical_targets[i].as_str()));
            assert(views(missing@) =~= before.push(entry.canonical_targets@[i as int]@));
        }
        i = i + 1;
    }
    proof {
        assert(wanted.subrange(0, entry.canonical_targets.len() as int) =~= wanted);
    }
    if missing.len() > 0 {
        let mut m = cat3("capability publication manifest `", entry.manifest_root.as_str(), "/current.json` is missing registry canonical target(s): ");
        let joined = join_text(&missing, ", ");
        m.append(joined.as_str());
        return Err(m);
    }
    validate_capability_publication_target(entry, manifest)
}

/// A mismatch line when the approval and the registry disagree on a field.
pub open spec fn mismatch_line(field: Seq<char>, expected: Seq<char>, actual: Seq<char>) -> Seq<Seq<char>> {
    if expected != actual {
        seq![field + ": approval=`"@ + expected + "` registry=`"@ + actual + "`"@]
    } else {
        Seq::empty()
    }
}

pub open spec fn vec_mismatch_line(field: Seq<char>, expected: Seq<Seq<char>>, actual: Seq<Seq<char>>) -> Seq<Seq<char>> {
    if expected != actual {
        seq![field + ": approval=["@ + join(expected, ", "@) + "] registry=["@ + join(actual, ", "@) + "]"@]
    } else {
        Seq::empty()
    }
}

pub open spec fn option_text(v: Option<Seq<char>>) -> Seq<char> {
    match v {
        Some(s) => s,
        None => "<none>"@,
    }
}

pub open spec fn option_mismatch_line(field: Seq<char>, expected: Option<Seq<char>>, actual: Option<Seq<char>>) -> Seq<Seq<char>> {
    if expected != actual {
        seq![field + ": approval="@ + option_text(expected) + " registry="@ + option_text(actual)]
    } else {
        Seq::empty()
    }
}

pub fn push_mismatch(mismatches: &mut Vec<String>, field: &str, expected: &str, actual: &str)
    ensures
        views(final(mismatches)@) == views(old(mismatches)@) + mismatch_line(field@, expected@, actual@),
{
    if !str_eq(expected, actual) {
        let mut line = cat3(field, ": approval=`", expected);
        line.append("` registry=`");
        line.append(actual);
        line.append("`");
        mismatches.push(line);
    }
    assert(views(mismatches@) =~= views(old(mismatches)@) + mismatch_line(field@, expected@, actual@));
}

fn vec_equal(a: &Vec<String>, b: &Vec<String>) -> (r: bool)
    ensures
        r == (views(a@) == views(b@)),
{
    if a.len() != b.len() {
        assert(views(a@).len() != views(b@).len());
        return false;
    }
    let mut i: usize = 0;
    while i < a.len()
        invariant
            i <= a.len(),
            a.len() == b.len(),
            forall|k: int| 0 <= k < i ==> #[trigger] a@[k]@ == b@[k]@,
        decreases a.len() - i,
    {
        if !str_eq(a[i].as_str(), b[i].as_str()) {
            assert(views(a@)[i as int] != views(b@)[i as int]);
            return false;
        }
        i = i + 1;
    }
    assert(views(a@) =~= views(b@));
    true
}

pub fn push_vec_mismatch(mismatches: &mut Vec<String>, field: &str, expected: &Vec<String>, actual: &Vec<String>)
    ensures
        views(final(mismatches)@) == views(old(mismatches)@) + vec_mismatch_line(field@, views(expected@), views(actual@)),
{
    if !vec_equal(expected, actual) {
        let mut line = cat2(field, ": approval=[");
        let e = join_text(expected, ", ");
        line.append(e.as_str());
        line.append("] registry=[");
        let a = join_text(actual, ", ");
        line.append(a.as_str());
        line.append("]");
        mismatches.push(line);
    }
    assert(views(mismatches@) =~= views(old(mismatches)@) + vec_mismatch_line(field@, views(expected@), views(actual@)));
}

pub open spec fn opt_str_view(v: Option<&str>) -> Option<Seq<char>> {
    match v {
        Some(s) => Some(s@),
        None => None,
    }
}

pub fn push_option_mismatch(mismatches: &mut Vec<String>, field: &str, expected: Option<&str>, actual: Option<&str>)
    ensures
        views(final(mismatches)@) == views(old(mismatches)@) + option_mismatch_line(field@, opt_str_view(expected), opt_str_view(actual)),
{
    let same = match (expected, actual) {
        (Some(a), Some(b)) => str_eq(a, b),
        (None, None) => true,
        _ => false,
    };
    if !same {
        let mut line = cat2(field, ": approval=");
        line.append(match expected {
            Some(e) => e,
            None => "<none>",
        });
        line.append(" registry=");
        line.append(match actual {
            Some(a) => a,
            None => "<none>",
        });
        mismatches.push(line);
    }
    assert(views(mismatches@) =~= views(old(mismatches)@) + option_mismatch_line(field@, opt_str_view(expected), opt_str_view(actual)));
}


/// A registry target gate as the approval writes it: `<capability_id>:<targets joined by ,>`.
pub open spec fn target_gate_text(g: crate::agent_registry::TargetGatedCapability) -> Seq<char> {
    g.capability_id@ + ":"@ + join(views(g.targets@), ","@)
}

/// A registry config gate as the approval writes it: `<capability_id>:<config_key>`, then
/// `:<targets joined by ,>` when it names targets.
pub open spec fn config_gate_text(g: crate::agent_registry::ConfigGatedCapability) -> Seq<char> {
    match g.targets {
        Some(t) => if t.len() > 0 {
            g.capability_id@ + ":"@ + g.config_key@ + ":"@ + join(views(t@), ","@)
        } else {
            g.capability_id@ + ":"@ + g.config_key@
        },
        None => g.capability_id@ + ":"@ + g.config_key@,
    }
}

pub open spec fn entry_target_gates(entry: AgentRegistryEntry) -> Seq<Seq<char>> {
    entry.capability_declaration.target_gated@.map_values(|g: crate::agent_registry::TargetGatedCapability| target_gate_text(g))
}

pub open spec fn entry_config_gates(entry: AgentRegistryEntry) -> Seq<Seq<char>> {
    entry.capability_declaration.config_gated@.map_values(|g: crate::agent_registry::ConfigGatedCapability| config_gate_text(g))
}

/// Where the registry says an entry's approval artifact lives.
pub open spec fn approval_path_of(entry: AgentRegistryEntry) -> Seq<char> {
    "docs/agents/lifecycle/"@ + entry.scaffold.onboarding_pack_prefix@ + "/governance/approved-agent.toml"@
}

/// `approval_artifact_path_for_entry`: the approval artifact of the entry's onboarding pack.
pub fn approval_artifact_path_for_entry(entry: &AgentRegistryEntry) -> (r: String)
    ensures
        r@ == approval_path_of(*entry),
{
    cat3("docs/agents/lifecycle/", entry.scaffold.onboarding_pack_prefix.as_str(), "/governance/approved-agent.toml")
}

pub open spec fn opt_string_view(o: Option<String>) -> Option<Seq<char>> {
    match o {
        Some(s) => Some(s@),
        None => None,
    }
}

fn opt_as_str(o: &Option<String>) -> (r: Option<&str>)
    ensures
        opt_str_view(r) == opt_string_view(*o),
{
    match o {
        Some(s) => Some(s.as_str()),
        None => None,
    }
}

/// Every field on which an approval and a registry entry disagree, in the order they are
/// compared.
pub open spec fn alignment_mismatches(a: crate::approval_artifact::ApprovalArtifact, entry: AgentRegistryEntry) -> Seq<Seq<char>> {
    let d = a.descriptor.view();
    let approval_path = approval_path_of(entry);
    mismatch_line("crate_path"@, d.crate_path, entry.crate_path@)
        + mismatch_line("backend_module"@, d.backend_module, entry.backend_module@)
        + mismatch_line("manifest_root"@, d.manifest_root, entry.manifest_root@)
        + mismatch_line("package_name"@, d.package_name, entry.package_name@)
        + mismatch_line("wrapper_coverage_source_path"@, d.wrapper_coverage_source_path, entry.wrapper_coverage.source_path@)
        + mismatch_line("approved_agent_path"@, a.relative_path@, approval_path)
        + vec_mismatch_line("canonical_targets"@, d.canonical_targets, views(entry.canonical_targets@))
        + vec_mismatch_line("always_on_capabilities"@, d.always_on_capabilities, views(entry.capability_declaration.always_on@))
        + vec_mismatch_line("target_gated_capabilities"@, d.target_gated_capabilities, entry_target_gates(entry))
        + vec_mismatch_line("config_gated_capabilities"@, d.config_gated_capabilities, entry_config_gates(entry))
        + vec_mismatch_line("backend_extensions"@, d.backend_extensions, views(entry.capability_declaration.backend_extensions@))
        + mismatch_line("support_matrix_enabled"@, crate::text::bool_text(d.support_matrix_enabled), crate::text::bool_text(entry.publication.support_matrix_enabled))
        + mismatch_line("capability_matrix_enabled"@, crate::text::bool_text(d.capability_matrix_enabled), crate::text::bool_text(entry.publication.capability_matrix_enabled))
        + option_mismatch_line("capability_matrix_target"@, d.capability_matrix_target, opt_string_view(entry.publication.capability_matrix_target))
        + mismatch_line("onboarding_pack_prefix"@, d.onboarding_pack_prefix, entry.scaffold.onboarding_pack_prefix@)
}

fn entry_gate_texts(entry: &AgentRegistryEntry) -> (r: (Vec<String>, Vec<String>))
    ensures
        views(r.0@) == entry_target_gates(*entry),
        views(r.1@) == entry_config_gates(*entry),
{
    let gates = &entry.capability_declaration.target_gated;
    let mut targeted: Vec<String> = Vec::new();
    let mut i: usize = 0;
    while i < gates.len()
        invariant
            gates == &entry.capability_declaration.target_gated,
            i <= gates.len(),
            views(targeted@) == entry_target_gates(*entry).subrange(0, i as int),
        decreases gates.len() - i,
    {
        let mut line = cat2(gates[i].capability_id.as_str(), ":");
        let joined = join_text(&gates[i].targets, ",");
        line.append(joined.as_str());
        let ghost before = views(targeted@);
        assert(entry_target_gates(*entry)[i as int] == target_gate_text(gates@[i as int]));
        assert(line@ == target_gate_text(gates@[i as int]));
        targeted.push(line);
        assert(views(targeted@) =~= before.push(target_gate_text(gates@[i as int])));
        assert(entry_target_gates(*entry).subrange(0, i + 1) =~= entry_target_gates(*entry).subrange(0, i as int).push(entry_target_gates(*entry)[i as int]));
        assert(views(targeted@) =~= entry_target_gates(*entry).subrange(0, i + 1));
        i = i + 1;
    }
    assert(entry_target_gates(*entry).subrange(0, gates.len() as int) =~= entry_target_gates(*entry));
    let configs = &entry.capability_declaration.config_gated;
    let mut configured: Vec<String> = Vec::new();
    let mut j: usize = 0;
    while j < configs.len()
        invariant
            configs == &entry.capability_declaration.config_gated,
            j <= configs.len(),
            views(configured@) == entry_config_gates(*entry).subrange(0, j as int),
        decreases configs.len() - j,
    {
        let g = &configs[j];
        let mut line = cat3(g.capability_id.as_str(), ":", g.config_key.as_str());
        match &g.targets {
            Some(t) => {
                if t.len() > 0 {
                    line.append(":");
                    let joined = join_text(t, ",");
                    line.append(joined.as_str());
                }
            },
            None => {},
        }
        assert(entry_config_gates(*entry)[j as int] == config_gate_text(configs@[j as int]));
        assert(line@ == config_gate_text(configs@[j as int]));
        let ghost before = views(configured@);
        configured.push(line);
        assert(views(configured@) =~= before.push(config_gate_text(configs@[j as int])));
        assert(entry_config_gates(*entry).subrange(0, j + 1) =~= entry_config_gates(*entry).subrange(0, j as int).push(entry_config_gates(*entry)[j as int]));
        assert(views(configured@) =~= entry_config_gates(*entry).subrange(0, j + 1));
        j = j + 1;
    }
    assert(entry_config_gates(*entry).subrange(0, configs.len() as int) =~= entry_config_gates(*entry));
    (targeted, configured)
}

/// An approval and the registry entry it approved must agree field for field, and the approval
/// must live where the registry says the entry's approval artifact lives.
pub fn validate_registry_approval_alignment(
    approval: &crate::approval_artifact::ApprovalArtifact,
    entry: &AgentRegistryEntry,
) -> (r: Result<(), String>)
    ensures
        alignment_mismatches(*approval, *entry).len() == 0 ==> r is Ok,
        alignment_mismatches(*approval, *entry).len() > 0 ==> (r matches Err(m) && m@ == "approval/registry mismatch for `"@
            + entry.agent_id@ + "`: "@ + join(alignment_mismatches(*approval, *entry), "; "@)),
{
    let d = &approval.descriptor;
    let approval_path_text = approval_artifact_path_for_entry(entry);
    let approval_path = approval_path_text.as_str();
    let (targeted, configured) = entry_gate_texts(entry);
    let mut mismatches: Vec<String> = Vec::new();
    assert(views(mismatches@) =~= Seq::<Seq<char>>::empty());
    push_mismatch(&mut mismatches, "crate_path", d.crate_path.as_str(), entry.crate_path.as_str());
    push_mismatch(&mut mismatches, "backend_module", d.backend_module.as_str(), entry.backend_module.as_str());
    push_mismatch(&mut mismatches, "manifest_root", d.manifest_root.as_str(), entry.manifest_root.as_str());
    push_mismatch(&mut mismatches, "package_name", d.package_name.as_str(), entry.package_name.as_str());
    push_mismatch(&mut mismatches, "wrapper_coverage_source_path", d.wrapper_coverage_source_path.as_str(), entry.wrapper_coverage.source_path.as_str());
    push_mismatch(&mut mismatches, "approved_agent_path", approval.relative_path.as_str(), approval_path);
    push_vec_mismatch(&mut mismatches, "canonical_targets", &d.canonical_targets, &entry.canonical_targets);
    push_vec_mismatch(&mut mismatches, "always_on_capabilities", &d.always_on_capabilities, &entry.capability_declaration.always_on);
    push_vec_mismatch(&mut mismatches, "target_gated_capabilities", &d.target_gated_capabilities, &targeted);
    push_vec_mismatch(&mut mismatches, "config_gated_capabilities", &d.config_gated_capabilities, &configured);
    push_vec_mismatch(&mut mismatches, "backend_extensions", &d.backend_extensions, &entry.capability_declaration.backend_extensions);
    push_mismatch(&mut mismatches, "support_matrix_enabled", crate::text::bool_str(d.support_matrix_enabled), crate::text::bool_str(entry.publication.support_matrix_enabled));
    push_mismatch(&mut mismatches, "capability_matrix_enabled", crate::text::bool_str(d.capability_matrix_enabled), crate::text::bool_str(entry.publication.capability_matrix_enabled));
    push_option_mismatch(&mut mismatches, "capability_matrix_target", opt_as_str(&d.capability_matrix_target), opt_as_str(&entry.publication.capability_matrix_target));
    push_mismatch(&mut mismatches, "onboarding_pack_prefix", d.onboarding_pack_prefix.as_str(), entry.scaffold.onboarding_pack_prefix.as_str());
    proof {
        assert(views(mismatches@) =~= alignment_mismatches(*approval, *entry));
    }
    if mismatches.len() == 0 {
        return Ok(());
    }
    let mut m = cat3("approval/registry mismatch for `", entry.agent_id.as_str(), "`: ");
    let joined = join_text(&mismatches, "; ");
    m.append(joined.as_str());
    Err(m)
}

/// What a lifecycle state records about the approval it was built from.
#[derive(Debug, Clone)]
pub struct LifecycleStamp {
    pub agent_id: String,
    pub onboarding_pack_prefix: String,
    pub approval_artifact_path: String,
    pub approval_artifact_sha256: String,
}

/// A lifecycle state must name the registry entry's agent and pack, and the approval it was
/// built from, byte for byte.
pub fn validate_lifecycle_approval_alignment(
    entry: &AgentRegistryEntry,
    lifecycle_state_path: &str,
    state: &LifecycleStamp,
    approval: &crate::approval_artifact::ApprovalArtifact,
) -> (r: Result<(), String>)
    ensures
        state.agent_id@ != entry.agent_id@ ==> (r matches Err(m) && m@ == "`"@ + lifecycle_state_path@ + "` agent_id `"@
            + state.agent_id@ + "` does not match registry entry `"@ + entry.agent_id@ + "`"@),
        state.agent_id@ == entry.agent_id@ && state.onboarding_pack_prefix@ != entry.scaffold.onboarding_pack_prefix@ ==> (r matches Err(m)
            && m@ == "`"@ + lifecycle_state_path@ + "` onboarding_pack_prefix `"@ + state.onboarding_pack_prefix@
            + "` does not match registry entry `"@ + entry.scaffold.onboarding_pack_prefix@ + "`"@),
        state.agent_id@ == entry.agent_id@ && state.onboarding_pack_prefix@ == entry.scaffold.onboarding_pack_prefix@
            && state.approval_artifact_path@ != approval.relative_path@ ==> (r matches Err(m) && m@ == "`"@
            + lifecycle_state_path@ + "` approval_artifact_path `"@ + state.approval_artifact_path@ + "` does not match `"@
            + approval.relative_path@ + "`"@),
        state.agent_id@ == entry.agent_id@ && state.onboarding_pack_prefix@ == entry.scaffold.onboarding_pack_prefix@
            && state.approval_artifact_path@ == approval.relative_path@ && state.approval_artifact_sha256@ != approval.sha256@
            ==> (r matches Err(m) && m@ == "`"@ + lifecycle_state_path@ + "` approval_artifact_sha256 does not match `"@
            + approval.relative_path@ + "`"@),
        state.agent_id@ == entry.agent_id@ && state.onboarding_pack_prefix@ == entry.scaffold.onboarding_pack_prefix@
            && state.approval_artifact_path@ == approval.relative_path@ && state.approval_artifact_sha256@ == approval.sha256@
            ==> r is Ok,
{
    if !str_eq(state.agent_id.as_str(), entry.agent_id.as_str()) {
        let mut m = cat3("`", lifecycle_state_path, "` agent_id `");
        m.append(state.agent_id.as_str());
        m.append("` does not match registry entry `");
        m.append(entry.agent_id.as_str());
        m.append("`");
        return Err(m);
    }
    if !str_eq(state.onboarding_pack_prefix.as_str(), entry.scaffold.onboarding_pack_prefix.as_str()) {
        let mut m = cat3("`", lifecycle_state_path, "` onboarding_pack_prefix `");
        m.append(state.onboarding_pack_prefix.as_str());
        m.append("` does not match registry entry `");
        m.append(entry.scaffold.onboarding_pack_prefix.as_str());
        m.append("`");
        return Err(m);
    }
    if !str_eq(state.approval_artifact_path.as_str(), approval.relative_path.as_str()) {
        let mut m = cat3("`", lifecycle_state_path, "` approval_artifact_path `");
        m.append(state.approval_artifact_path.as_str());
        m.append("` does not match `");
        m.append(approval.relative_path.as_str());
        m.append("`");
        return Err(m);
    }
    if !str_eq(state.approval_artifact_sha256.as_str(), approval.sha256.as_str()) {
        let mut m = cat3("`", lifecycle_state_path, "` approval_artifact_sha256 does not match `");
        m.append(approval.relative_path.as_str());
        m.append("`");
        return Err(m);
    }
    Ok(())
}

/// The audit reports exactly the `agent_api.*` capabilities that are not allowlisted and that
/// fewer than two published backends support: an allowlisted capability, or one two backends
/// support, is never reported.
pub proof fn law_reported_capabilities_are_the_underserved(cs: Seq<Seq<char>>, bp: Seq<(Seq<char>, Seq<Seq<char>>)>, c: Seq<char>)
    ensures
        violating(cs, bp).contains(c) <==> (cs.contains(c) && has_prefix(c, "agent_api."@) && !allowlisted(c) && supporters(bp, c).len() < 2),
    decreases cs.len(),
{
    if cs.len() > 0 {
        let init = cs.drop_last();
        law_reported_capabilities_are_the_underserved(init, bp, c);
        let p = violating(init, bp);
        if cs.contains(c) && c != cs.last() {
            let k = choose|k: int| 0 <= k < cs.len() && cs[k] == c;
            assert(init[k] == c);
        }
        if init.contains(c) {
            let k = choose|k: int| 0 <= k < init.len() && init[k] == c;
            assert(cs[k] == c);
        }
        assert(cs[cs.len() - 1] == cs.last());
        if violates(bp, cs.last()) {
            let q = p.push(cs.last());
            assert(q[q.len() - 1] == cs.last());
            if q.contains(c) && c != cs.last() {
                let k = choose|k: int| 0 <= k < q.len() && q[k] == c;
                assert(p[k] == c);
            }
            if p.contains(c) {
                let k = choose|k: int| 0 <= k < p.len() && p[k] == c;
                assert(q[k] == c);
            }
        }
    }
}

// ---------------------------------------------------------------------------------------------
// Publication continuity

/// The registry/approval alignment as a verdict.
pub open spec fn registry_alignment_check(a: crate::approval_artifact::ApprovalArtifact, entry: AgentRegistryEntry) -> Result<(), Seq<char>> {
    if alignment_mismatches(a, entry).len() == 0 {
        Ok(())
    } else {
        Err("approval/registry mismatch for `"@ + entry.agent_id@ + "`: "@ + join(alignment_mismatches(a, entry), "; "@))
    }
}

/// Whether a lifecycle state names the entry's agent and onboarding pack and the approval's path
/// and SHA-256, as a verdict.
pub open spec fn lifecycle_alignment_check(entry: AgentRegistryEntry, path: Seq<char>, state: LifecycleStamp, a: crate::approval_artifact::ApprovalArtifact) -> Result<(), Seq<char>> {
    if state.agent_id@ != entry.agent_id@ {
        Err("`"@ + path + "` agent_id `"@ + state.agent_id@ + "` does not match registry entry `"@ + entry.agent_id@ + "`"@)
    } else if state.onboarding_pack_prefix@ != entry.scaffold.onboarding_pack_prefix@ {
        Err("`"@ + path + "` onboarding_pack_prefix `"@ + state.onboarding_pack_prefix@
            + "` does not match registry entry `"@ + entry.scaffold.onboarding_pack_prefix@ + "`"@)
    } else if state.approval_artifact_path@ != a.relative_path@ {
        Err("`"@ + path + "` approval_artifact_path `"@ + state.approval_artifact_path@ + "` does not match `"@ + a.relative_path@ + "`"@)
    } else if state.approval_artifact_sha256@ != a.sha256@ {
        Err("`"@ + path + "` approval_artifact_sha256 does not match `"@ + a.relative_path@ + "`"@)
    } else {
        Ok(())
    }
}

/// The manifest's expected targets as a verdict.
pub open spec fn manifest_targets_check(entry: AgentRegistryEntry, manifest: ManifestCurrent) -> Result<(), Seq<char>> {
    let missing = missing_from(views(entry.canonical_targets@), views(manifest.expected_targets@));
    if manifest.expected_targets.len() == 0 {
        Err("capability publication manifest `"@ + entry.manifest_root@ + "/current.json` must declare at least one expected target"@)
    } else if missing.len() > 0 {
        Err("capability publication manifest `"@ + entry.manifest_root@ + "/current.json` is missing registry canonical target(s): "@ + join(missing, ", "@))
    } else {
        match resolve_target_spec(entry) {
            Err(e) => Err(e),
            Ok(None) => Ok(()),
            Ok(Some(t)) => if views(manifest.expected_targets@).contains(t) {
                Ok(())
            } else {
                Err(missing_target_message(entry.manifest_root@, t))
            },
        }
    }
}

/// The projected capabilities against the approval, as a verdict.
pub open spec fn projected_check(entry: AgentRegistryEntry, a: crate::approval_artifact::ApprovalArtifact, adv: Seq<Seq<char>>) -> Result<(), Seq<char>> {
    let unexpected = beyond(adv, approval_universe(a.descriptor.view()));
    if unexpected.len() == 0 {
        Ok(())
    } else {
        match resolve_target_spec(entry) {
            Err(e) => Err(e),
            Ok(t) => Err(beyond_message(entry.agent_id@, target_description(t), unexpected)),
        }
    }
}

/// The lifecycle stages at which a capability matrix may publish an agent.
pub open spec fn publication_eligible(stage: Seq<char>) -> bool {
    stage == "runtime_integrated"@ || stage == "publication_ready"@ || stage == "published"@ || stage == "closed_baseline"@
}

pub open spec fn stage_message(agent_id: Seq<char>, path: Seq<char>, stage: Seq<char>) -> Seq<char> {
    "capability publication for `"@ + agent_id
        + "` requires lifecycle stage `runtime_integrated`, `publication_ready`, `published`, or `closed_baseline` at `"@
        + path + "` (found `"@ + stage + "`)"@
}

pub open spec fn err_is(r: Result<(), String>, m: Seq<char>) -> bool {
    r matches Err(x) && x@ == m
}

pub open spec fn verdict_is(r: Result<(), String>, v: Result<(), Seq<char>>) -> bool {
    match v {
        Ok(_) => r is Ok,
        Err(m) => err_is(r, m),
    }
}

/// What the continuity check answers for an enabled entry, given what loading its approval,
/// its lifecycle state (with its stage) and its manifest gave: the first check that fails, in
/// the order they are loaded and checked.
pub open spec fn continuity_holds(
    r: Result<(), String>,
    entry: AgentRegistryEntry,
    path: Seq<char>,
    approval: Result<crate::approval_artifact::ApprovalArtifact, String>,
    lifecycle: Result<(LifecycleStamp, String), String>,
    manifest: Result<ManifestCurrent, String>,
) -> bool {
    match approval {
        Err(e) => err_is(r, "load approval artifact `"@ + approval_path_of(entry) + "`: "@ + e@),
        Ok(a) => match registry_alignment_check(a, entry) {
            Err(m) => err_is(r, m),
            Ok(_) => match lifecycle {
                Err(e) => err_is(r, "load lifecycle state `"@ + path + "`: "@ + e@),
                Ok((state, stage)) => match lifecycle_alignment_check(entry, path, state, a) {
                    Err(m) => err_is(r, m),
                    Ok(_) => match manifest {
                        Err(e) => err_is(r, e@),
                        Ok(mf) => match manifest_targets_check(entry, mf) {
                            Err(m) => err_is(r, m),
                            Ok(_) => if !publication_eligible(stage@) {
                                err_is(r, stage_message(entry.agent_id@, path, stage@))
                            } else {
                                match advertised_spec(entry, current_plain(mf)) {
                                    Err(e) => err_is(r, projection_message(entry.agent_id@, e)),
                                    Ok(s) => exists|adv: Seq<Seq<char>>| #[trigger] ascending(adv) && adv.to_set() == s
                                        && verdict_is(r, projected_check(entry, a, adv)),
                                }
                            },
                        },
                    },
                },
            },
        },
    }
}

/// `validate_agent_publication_continuity`, given where the entry's lifecycle state lives and
/// what loading the approval artifact, the lifecycle state (and its stage) and the manifest
/// gave, each as its value or the loader's message. An entry whose capability matrix is off
/// passes untouched.
pub fn validate_agent_publication_continuity(
    entry: &AgentRegistryEntry,
    lifecycle_state_path: &str,
    approval: Result<crate::approval_artifact::ApprovalArtifact, String>,
    lifecycle: Result<(LifecycleStamp, String), String>,
    manifest: Result<ManifestCurrent, String>,
) -> (r: Result<(), String>)
    ensures
        !entry.publication.capability_matrix_enabled ==> r is Ok,
        entry.publication.capability_matrix_enabled ==> continuity_holds(r, *entry, lifecycle_state_path@, approval, lifecycle, manifest),
{
    if !entry.publication.capability_matrix_enabled {
        return Ok(());
    }
    let approval = match approval {
        Ok(a) => a,
        Err(e) => {
            let path = approval_artifact_path_for_entry(entry);
            let mut m = cat3("load approval artifact `", path.as_str(), "`: ");
            m.append(e.as_str());
            return Err(m);
        },
    };
    validate_registry_approval_alignment(&approval, entry)?;
    let (state, stage) = match lifecycle {
        Ok(l) => l,
        Err(e) => {
            let mut m = cat3("load lifecycle state `", lifecycle_state_path, "`: ");
            m.append(e.as_str());
            return Err(m);
        },
    };
    validate_lifecycle_approval_alignment(entry, lifecycle_state_path, &state, &approval)?;
    let manifest = match manifest {
        Ok(m) => m,
        Err(e) => {
            return Err(e);
        },
    };
    validate_manifest_targets(entry, &manifest)?;
    let s = stage.as_str();
    if !(str_eq(s, "runtime_integrated") || str_eq(s, "publication_ready") || str_eq(s, "published") || str_eq(s, "closed_baseline")) {
        let mut m = cat3("capability publication for `", entry.agent_id.as_str(), "` requires lifecycle stage `runtime_integrated`, `publication_ready`, `published`, or `closed_baseline` at `");
        m.append(lifecycle_state_path);
        m.append("` (found `");
        m.append(s);
        m.append("`)");
        return Err(m);
    }
    let advertised = project_manifest_advertised_capabilities(entry, &manifest)?;
    let r = validate_projected_capabilities_against_approval(entry, &approval, &advertised);
    proof {
        assert(ascending(views(advertised@)));
    }
    r
}

} // verus!

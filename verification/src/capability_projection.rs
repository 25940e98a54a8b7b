//! Which capabilities an agent's registry entry advertises, and on which publication target.
use vstd::prelude::*;

use crate::agent_registry::AgentRegistryEntry;
use crate::strset::{ascending, set_insert};
use crate::text::{cat2, cat3, cat5, str_eq, to_owned, views, vec_contains};

verus! {

pub const CAPABILITY_MCP_LIST_V1: &'static str = "agent_api.tools.mcp.list.v1";
pub const CAPABILITY_MCP_GET_V1: &'static str = "agent_api.tools.mcp.get.v1";
pub const CAPABILITY_MCP_ADD_V1: &'static str = "agent_api.tools.mcp.add.v1";
pub const CAPABILITY_MCP_REMOVE_V1: &'static str = "agent_api.tools.mcp.remove.v1";

#[derive(Debug, Clone, Copy)]
pub struct CapabilityManifestView<'a> {
    pub expected_targets: &'a [String],
    pub commands: &'a [CapabilityCommandView<'a>],
}

#[derive(Debug, Clone, Copy)]
pub struct CapabilityCommandView<'a> {
    pub path: &'a [String],
    pub available_on: &'a [String],
}

#[derive(Debug, Clone, Copy, PartialEq, Eq)]
pub enum CapabilityPublicationTarget<'a> {
    DefaultBuiltInConfig,
    Explicit(&'a str),
}

impl<'a> CapabilityPublicationTarget<'a> {
    /// The target as plain text: `None` for the built-in default.
    pub open spec fn target(self) -> Option<Seq<char>> {
        match self {
            CapabilityPublicationTarget::DefaultBuiltInConfig => None,
            CapabilityPublicationTarget::Explicit(t) => Some(t@),
        }
    }

    pub fn render_for_header(self, agent_id: &str) -> (r: Option<String>)
        ensures
            match self {
                CapabilityPublicationTarget::DefaultBuiltInConfig => r is None,
                CapabilityPublicationTarget::Explicit(t) => r is Some && r->0@ == "`"@ + agent_id@
                    + "="@ + t@ + "`"@,
            },
    {
        match self {
            CapabilityPublicationTarget::DefaultBuiltInConfig => None,
            CapabilityPublicationTarget::Explicit(target) => Some(
                cat5("`", agent_id, "=", target, "`"),
            ),
        }
    }
}

/// The config keys a config-gated capability may name.
pub open spec fn allowed_config_key(key: Seq<char>) -> bool {
    key == "allow_external_sandbox_exec"@ || key == "allow_mcp_write"@
}

pub open spec fn config_key_check(config_key: Seq<char>, field: Seq<char>) -> Result<(), Seq<char>> {
    if allowed_config_key(config_key) {
        Ok(())
    } else {
        Err(field + " must be one of `allow_external_sandbox_exec`, `allow_mcp_write` (got `"@
            + config_key + "`)"@)
    }
}

pub fn validate_config_key_allowlist(config_key: &str, field_name: &str) -> (r: Result<(), String>)
    ensures
        match r {
            Ok(()) => config_key_check(config_key@, field_name@) is Ok,
            Err(m) => config_key_check(config_key@, field_name@) == Err::<(), Seq<char>>(m@),
        },
{
    if str_eq(config_key, "allow_external_sandbox_exec") || str_eq(config_key, "allow_mcp_write") {
        return Ok(());
    }
    let mut m = cat2(field_name, " must be one of `allow_external_sandbox_exec`, `allow_mcp_write` (got `");
    m.append(config_key);
    m.append("`)");
    Err(m)
}

pub open spec fn explicit_target_required(a: bool, b: bool, c: bool) -> bool {
    a && (b || c)
}

pub fn requires_explicit_publication_target(
    capability_matrix_enabled: bool,
    has_target_gated_capabilities: bool,
    has_target_scoped_config_gated_capabilities: bool,
) -> (r: bool)
    ensures
        r == explicit_target_required(
            capability_matrix_enabled,
            has_target_gated_capabilities,
            has_target_scoped_config_gated_capabilities,
        ),
{
    capability_matrix_enabled && (has_target_gated_capabilities
        || has_target_scoped_config_gated_capabilities)
}

/// Whether some config-gated capability names a non-empty list of targets.
pub open spec fn has_target_scoped_config_gate(entry: AgentRegistryEntry) -> bool {
    exists|i: int|
        0 <= i < entry.capability_declaration.config_gated.len() && {
            let t = #[trigger] entry.capability_declaration.config_gated@[i].targets;
            t is Some && t->0.len() > 0
        }
}

/// Where an entry's capability matrix is published: `Ok(None)` for the built-in default,
/// `Ok(Some(target))` for an explicit target, or the reason there is none.
pub open spec fn resolve_target_spec(entry: AgentRegistryEntry) -> Result<Option<Seq<char>>, Seq<char>> {
    let explicit_required = explicit_target_required(
        entry.publication.capability_matrix_enabled,
        entry.capability_declaration.target_gated.len() > 0,
        has_target_scoped_config_gate(entry),
    );
    match entry.publication.capability_matrix_target {
        Some(t) => if views(entry.canonical_targets@).contains(t@) {
            Ok(Some(t@))
        } else {
            Err("publication.capability_matrix_target `"@ + t@
                + "` must be listed in canonical_targets"@)
        },
        None => if explicit_required {
            Err(
                "publication.capability_matrix_target must be set when capability-matrix projection uses target-scoped declarations"@,
            )
        } else {
            Ok(None)
        },
    }
}

fn any_target_scoped_config_gate(entry: &AgentRegistryEntry) -> (r: bool)
    ensures
        r == has_target_scoped_config_gate(*entry),
{
    let gates = &entry.capability_declaration.config_gated;
    let mut i: usize = 0;
    while i < gates.len()
        invariant
            gates == &entry.capability_declaration.config_gated,
            i <= gates.len(),
            forall|k: int| 0 <= k < i ==> {
                let t = #[trigger] gates@[k].targets;
                !(t is Some && t->0.len() > 0)
            },
        decreases gates.len() - i,
    {
        match &gates[i].targets {
            Some(targets) => {
                if targets.len() > 0 {
                    return true;
                }
            },
            None => {},
        }
        i = i + 1;
    }
    false
}

pub fn resolve_capability_publication_target(entry: &AgentRegistryEntry) -> (r: Result<
    CapabilityPublicationTarget<'_>,
    String,
>)
    ensures
        match r {
            Ok(t) => resolve_target_spec(*entry) == Ok::<Option<Seq<char>>, Seq<char>>(t.target()),
            Err(m) => resolve_target_spec(*entry) == Err::<Option<Seq<char>>, Seq<char>>(m@),
        },
{
    let explicit_required = requires_explicit_publication_target(
        entry.publication.capability_matrix_enabled,
        entry.capability_declaration.target_gated.len() > 0,
        any_target_scoped_config_gate(entry),
    );
    match &entry.publication.capability_matrix_target {
        Some(target) => {
            if !vec_contains(&entry.canonical_targets, target.as_str()) {
                return Err(
                    cat3(
                        "publication.capability_matrix_target `",
                        target.as_str(),
                        "` must be listed in canonical_targets",
                    ),
                );
            }
            Ok(CapabilityPublicationTarget::Explicit(target.as_str()))
        },
        None => {
            if explicit_required {
                Err(
                    String::from_str(
                        "publication.capability_matrix_target must be set when capability-matrix projection uses target-scoped declarations",
                    ),
                )
            } else {
                Ok(CapabilityPublicationTarget::DefaultBuiltInConfig)
            }
        },
    }
}

/// The manifest command a projected capability stands for, if it is one.
pub open spec fn projected_path_spec(capability_id: Seq<char>) -> Option<Seq<Seq<char>>> {
    if capability_id == CAPABILITY_MCP_LIST_V1@ {
        Some(seq!["mcp"@, "list"@])
    } else if capability_id == CAPABILITY_MCP_GET_V1@ {
        Some(seq!["mcp"@, "get"@])
    } else if capability_id == CAPABILITY_MCP_ADD_V1@ {
        Some(seq!["mcp"@, "add"@])
    } else if capability_id == CAPABILITY_MCP_REMOVE_V1@ {
        Some(seq!["mcp"@, "remove"@])
    } else {
        None
    }
}

pub fn manifest_projected_capability_path(capability_id: &str) -> (r: Option<[&'static str; 2]>)
    ensures
        match r {
            Some(p) => projected_path_spec(capability_id@) == Some(seq![p[0]@, p[1]@]),
            None => projected_path_spec(capability_id@) is None,
        },
{
    if str_eq(capability_id, CAPABILITY_MCP_LIST_V1) {
        Some(["mcp", "list"])
    } else if str_eq(capability_id, CAPABILITY_MCP_GET_V1) {
        Some(["mcp", "get"])
    } else if str_eq(capability_id, CAPABILITY_MCP_ADD_V1) {
        Some(["mcp", "add"])
    } else if str_eq(capability_id, CAPABILITY_MCP_REMOVE_V1) {
        Some(["mcp", "remove"])
    } else {
        None
    }
}


/// A manifest's content as plain values: its expected targets, and each command's path and
/// the targets it is available on.
pub struct PlainManifest {
    pub expected_targets: Seq<Seq<char>>,
    pub commands: Seq<(Seq<Seq<char>>, Seq<Seq<char>>)>,
}

pub open spec fn command_plain(c: CapabilityCommandView) -> (Seq<Seq<char>>, Seq<Seq<char>>) {
    (views(c.path@), views(c.available_on@))
}

pub open spec fn view_plain(m: CapabilityManifestView) -> PlainManifest {
    PlainManifest {
        expected_targets: views(m.expected_targets@),
        commands: m.commands@.map_values(|c: CapabilityCommandView| command_plain(c)),
    }
}

/// Whether a manifest lists a command for a projected capability on `target`; capabilities
/// that stand for no manifest command are always available.
pub open spec fn projected_available(manifest: PlainManifest, capability_id: Seq<char>, target: Seq<char>) -> bool {
    match projected_path_spec(capability_id) {
        None => true,
        Some(path) => exists|i: int|
            0 <= i < manifest.commands.len() && #[trigger] manifest.commands[i].0 == path
                && manifest.commands[i].1.contains(target),
    }
}

fn path_equals(path: &[String], expected: [&'static str; 2]) -> (r: bool)
    ensures
        r == (views(path@) == seq![expected[0]@, expected[1]@]),
{
    if path.len() != 2 {
        proof {
            assert(views(path@).len() != 2);
        }
        return false;
    }
    let r = str_eq(path[0].as_str(), expected[0]) && str_eq(path[1].as_str(), expected[1]);
    proof {
        if r {
            assert(views(path@) =~= seq![expected[0]@, expected[1]@]);
        } else if views(path@) == seq![expected[0]@, expected[1]@] {
            assert(views(path@)[0] == path@[0]@);
            assert(views(path@)[1] == path@[1]@);
        }
    }
    r
}

fn slice_contains(items: &[String], v: &str) -> (r: bool)
    ensures
        r == views(items@).contains(v@),
{
    let mut i: usize = 0;
    while i < items.len()
        invariant
            i <= items.len(),
            forall|k: int| 0 <= k < i ==> items@[k]@ != v@,
        decreases items.len() - i,
    {
        if str_eq(items[i].as_str(), v) {
            assert(views(items@)[i as int] == v@);
            return true;
        }
        i = i + 1;
    }
    assert forall|k: int| 0 <= k < views(items@).len() implies views(items@)[k] != v@ by {
        assert(views(items@)[k] == items@[k]@);
    }
    false
}

pub fn manifest_projected_capability_is_available(
    manifest: CapabilityManifestView<'_>,
    capability_id: &str,
    target: &str,
) -> (r: bool)
    ensures
        r == projected_available(view_plain(manifest), capability_id@, target@),
{
    let path = match manifest_projected_capability_path(capability_id) {
        Some(p) => p,
        None => {
            return true;
        },
    };
    let mut i: usize = 0;
    while i < manifest.commands.len()
        invariant
            i <= manifest.commands@.len(),
            projected_path_spec(capability_id@) == Some(seq![path[0]@, path[1]@]),
            forall|k: int| 0 <= k < i ==> !(#[trigger] view_plain(manifest).commands[k].0 == seq![path[0]@, path[1]@]
                && view_plain(manifest).commands[k].1.contains(target@)),
        decreases manifest.commands@.len() - i,
    {
        let command = manifest.commands[i];
        assert(view_plain(manifest).commands[i as int] == command_plain(command));
        if path_equals(command.path, path) && slice_contains(command.available_on, target) {
            assert(view_plain(manifest).commands[i as int].0 == seq![path[0]@, path[1]@]);
            assert(view_plain(manifest).commands[i as int].1.contains(target@));
            return true;
        }
        i = i + 1;
    }
    false
}

/// Whether the manifest lists the command at `path` on `target`.
pub open spec fn lists_command_on(manifest: PlainManifest, path: Seq<Seq<char>>, target: Seq<char>) -> bool {
    exists|i: int| 0 <= i < manifest.commands.len() && #[trigger] manifest.commands[i].0 == path && manifest.commands[i].1.contains(target)
}

/// Each MCP capability stands for its own manifest command: `mcp list`, `mcp get`, `mcp add`
/// and `mcp remove`. Such a capability is available on a target exactly when the manifest lists
/// that command there; any other capability is available everywhere.
pub proof fn law_mcp_capabilities_follow_their_commands(manifest: PlainManifest, capability_id: Seq<char>, target: Seq<char>)
    ensures
        capability_id == CAPABILITY_MCP_LIST_V1@ ==> (projected_available(manifest, capability_id, target) <==> lists_command_on(manifest, seq!["mcp"@, "list"@], target)),
        capability_id == CAPABILITY_MCP_GET_V1@ ==> (projected_available(manifest, capability_id, target) <==> lists_command_on(manifest, seq!["mcp"@, "get"@], target)),
        capability_id == CAPABILITY_MCP_ADD_V1@ ==> (projected_available(manifest, capability_id, target) <==> lists_command_on(manifest, seq!["mcp"@, "add"@], target)),
        capability_id == CAPABILITY_MCP_REMOVE_V1@ ==> (projected_available(manifest, capability_id, target) <==> lists_command_on(manifest, seq!["mcp"@, "remove"@], target)),
        capability_id != CAPABILITY_MCP_LIST_V1@ && capability_id != CAPABILITY_MCP_GET_V1@ && capability_id != CAPABILITY_MCP_ADD_V1@
            && capability_id != CAPABILITY_MCP_REMOVE_V1@ ==> projected_available(manifest, capability_id, target),
{
    reveal_strlit("agent_api.tools.mcp.list.v1");
    reveal_strlit("agent_api.tools.mcp.get.v1");
    reveal_strlit("agent_api.tools.mcp.add.v1");
    reveal_strlit("agent_api.tools.mcp.remove.v1");
    reveal_strlit("list");
    reveal_strlit("get");
    reveal_strlit("add");
    reveal_strlit("remove");
    let (l, g, a, r) = (CAPABILITY_MCP_LIST_V1@, CAPABILITY_MCP_GET_V1@, CAPABILITY_MCP_ADD_V1@, CAPABILITY_MCP_REMOVE_V1@);
    assert(l[20] == 'l' && g[20] == 'g' && a[20] == 'a' && r[20] == 'r');
    assert(l != g && l != a && l != r && g != a && g != r && a != r);
}

/// A gated MCP capability is advertised on the publication target only where the manifest
/// lists its command on that target: when the advertised set holds an MCP capability that the
/// entry does not declare always-on or as a backend extension, the manifest lists that
/// capability's `mcp` command on the publication target.
pub proof fn law_advertised_mcp_capability_has_its_command(entry: AgentRegistryEntry, manifest: PlainManifest, sub: Seq<char>, capability_id: Seq<char>)
    requires
        (capability_id == CAPABILITY_MCP_LIST_V1@ && sub == "list"@) || (capability_id == CAPABILITY_MCP_GET_V1@ && sub == "get"@)
            || (capability_id == CAPABILITY_MCP_ADD_V1@ && sub == "add"@) || (capability_id == CAPABILITY_MCP_REMOVE_V1@ && sub == "remove"@),
        advertised_spec(entry, manifest) matches Ok(set) && set.contains(capability_id),
        !views(entry.capability_declaration.always_on@).contains(capability_id),
        !views(entry.capability_declaration.backend_extensions@).contains(capability_id),
    ensures
        resolve_target_spec(entry) matches Ok(Some(t)) && lists_command_on(manifest, seq!["mcp"@, sub], t),
{
    law_mcp_capabilities_follow_their_commands(manifest, capability_id, resolve_target_spec(entry)->Ok_0->Some_0);
    let base = views(entry.capability_declaration.always_on@).to_set() + views(entry.capability_declaration.backend_extensions@).to_set();
    assert(!base.contains(capability_id));
    match resolve_target_spec(entry) {
        Ok(Some(t)) => {
            let g = gated_advertised(entry, manifest, t);
            assert(g.contains(capability_id));
            let i = choose|i: int| 0 <= i < entry.capability_declaration.target_gated.len() && {
                let g = #[trigger] entry.capability_declaration.target_gated@[i];
                &&& g.capability_id@ == capability_id
                &&& views(g.targets@).contains(t)
                &&& projected_available(manifest, capability_id, t)
            };
            assert(projected_available(manifest, capability_id, t));
        },
        _ => {},
    }
}

/// The capabilities the first `n` target-gated declarations add on `target`.
pub open spec fn gated_prefix(entry: AgentRegistryEntry, manifest: PlainManifest, target: Seq<char>, n: int) -> Set<Seq<char>> {
    Set::new(
        |id: Seq<char>|
            exists|i: int|
                0 <= i < n && {
                    let g = #[trigger] entry.capability_declaration.target_gated@[i];
                    &&& g.capability_id@ == id
                    &&& views(g.targets@).contains(target)
                    &&& projected_available(manifest, id, target)
                },
    )
}

/// The capabilities the target-gated declarations add on `target`.
pub open spec fn gated_advertised(entry: AgentRegistryEntry, manifest: PlainManifest, target: Seq<char>) -> Set<Seq<char>> {
    gated_prefix(entry, manifest, target, entry.capability_declaration.target_gated.len() as int)
}

/// The advertised capability set of an entry against a manifest.
pub open spec fn advertised_spec(entry: AgentRegistryEntry, manifest: PlainManifest) -> Result<Set<Seq<char>>, Seq<char>> {
    let base = views(entry.capability_declaration.always_on@).to_set() + views(
        entry.capability_declaration.backend_extensions@,
    ).to_set();
    match resolve_target_spec(entry) {
        Err(m) => Err(m),
        Ok(None) => Ok(base),
        Ok(Some(t)) => if !manifest.expected_targets.contains(t) {
            Err("manifest expected_targets is missing publication.capability_matrix_target `"@ + t
                + "`"@)
        } else {
            Ok(base + gated_advertised(entry, manifest, t))
        },
    }
}

/// Insert every entry of `items` into an ascending set.
pub fn insert_all(set: &mut Vec<String>, items: &Vec<String>)
    requires
        ascending(views(old(set)@)),
    ensures
        ascending(views(final(set)@)),
        views(final(set)@).to_set() == views(old(set)@).to_set() + views(items@).to_set(),
{
    let ghost start = views(set@).to_set();
    let mut i: usize = 0;
    while i < items.len()
        invariant
            i <= items.len(),
            ascending(views(set@)),
            views(set@).to_set() == start + views(items@.subrange(0, i as int)).to_set(),
        decreases items.len() - i,
    {
        let ghost before = views(set@).to_set();
        set_insert(set, to_owned(items[i].as_str()));
        proof {
            assert(views(items@.subrange(0, i + 1)) =~= views(items@.subrange(0, i as int)).push(items@[i as int]@));
            assert(views(items@.subrange(0, i + 1)).to_set() =~= views(items@.subrange(0, i as int)).to_set().insert(items@[i as int]@)) by {
                let a = views(items@.subrange(0, i as int));
                Seq::<Seq<char>>::lemma_to_set_insert_commutes(a, items@[i as int]@);
                assert(a.push(items@[i as int]@) =~= a + seq![items@[i as int]@]);
            }
            assert(views(set@).to_set() =~= start + views(items@.subrange(0, i + 1)).to_set());
        }
        i = i + 1;
    }
    assert(items@.subrange(0, items.len() as int) =~= items@);
}

/// The capabilities an entry advertises, ascending (`BTreeSet` order).
pub fn project_advertised_capabilities(
    entry: &AgentRegistryEntry,
    manifest: CapabilityManifestView<'_>,
) -> (r: Result<Vec<String>, String>)
    ensures
        match (r, advertised_spec(*entry, view_plain(manifest))) {
            (Ok(v), Ok(s)) => ascending(views(v@)) && views(v@).to_set() == s,
            (Err(m), Err(e)) => m@ == e,
            _ => false,
        },
{
    let publication_target = match resolve_capability_publication_target(entry) {
        Ok(t) => t,
        Err(m) => {
            return Err(m);
        },
    };
    let mut advertised: Vec<String> = Vec::new();
    assert(views(advertised@).to_set() =~= Set::<Seq<char>>::empty());
    insert_all(&mut advertised, &entry.capability_declaration.always_on);
    insert_all(&mut advertised, &entry.capability_declaration.backend_extensions);
    let target = match publication_target {
        CapabilityPublicationTarget::DefaultBuiltInConfig => {
            return Ok(advertised);
        },
        CapabilityPublicationTarget::Explicit(target) => target,
    };
    if !slice_contains(manifest.expected_targets, target) {
        return Err(cat3(
            "manifest expected_targets is missing publication.capability_matrix_target `",
            target,
            "`",
        ));
    }
    let ghost pm = view_plain(manifest);
    let ghost base = views(entry.capability_declaration.always_on@).to_set() + views(
        entry.capability_declaration.backend_extensions@,
    ).to_set();
    let gates = &entry.capability_declaration.target_gated;
    let mut i: usize = 0;
    assert(gated_prefix(*entry, pm, target@, 0) =~= Set::<Seq<char>>::empty());
    assert(views(advertised@).to_set() =~= base + gated_prefix(*entry, pm, target@, 0));
    while i < gates.len()
        invariant
            gates == &entry.capability_declaration.target_gated,
            pm == view_plain(manifest),
            i <= gates.len(),
            ascending(views(advertised@)),
            views(advertised@).to_set() == base + gated_prefix(*entry, pm, target@, i as int),
        decreases gates.len() - i,
    {
        let gate = &gates[i];
        if slice_contains(gate.targets.as_slice(), target)
            && manifest_projected_capability_is_available(manifest, gate.capability_id.as_str(), target) {
            set_insert(&mut advertised, to_owned(gate.capability_id.as_str()));
            assert forall|id: Seq<char>| gated_prefix(*entry, pm, target@, i + 1).contains(id) implies #[trigger] gated_prefix(*entry, pm, target@, i as int).insert(gate.capability_id@).contains(id) by {
                let k = choose|k: int| 0 <= k < i + 1 && {
                    let g = #[trigger] entry.capability_declaration.target_gated@[k];
                    &&& g.capability_id@ == id
                    &&& views(g.targets@).contains(target@)
                    &&& projected_available(pm, id, target@)
                };
                if k < i {
                    assert(gated_prefix(*entry, pm, target@, i as int).contains(id));
                }
            }
            assert forall|id: Seq<char>| gated_prefix(*entry, pm, target@, i as int).insert(gate.capability_id@).contains(id) implies #[trigger] gated_prefix(*entry, pm, target@, i + 1).contains(id) by {
                if id == gate.capability_id@ {
                    assert(entry.capability_declaration.target_gated@[i as int] == *gate);
                } else {
                    let k = choose|k: int| 0 <= k < i && {
                        let g = #[trigger] entry.capability_declaration.target_gated@[k];
                        &&& g.capability_id@ == id
                        &&& views(g.targets@).contains(target@)
                        &&& projected_available(pm, id, target@)
                    };
                }
            }
            assert(gated_prefix(*entry, pm, target@, i + 1) =~= gated_prefix(*entry, pm, target@, i as int).insert(gate.capability_id@));
        } else {
            assert forall|id: Seq<char>| gated_prefix(*entry, pm, target@, i + 1).contains(id) implies #[trigger] gated_prefix(*entry, pm, target@, i as int).contains(id) by {
                let k = choose|k: int| 0 <= k < i + 1 && {
                    let g = #[trigger] entry.capability_declaration.target_gated@[k];
                    &&& g.capability_id@ == id
                    &&& views(g.targets@).contains(target@)
                    &&& projected_available(pm, id, target@)
                };
                if k == i {
                    assert(entry.capability_declaration.target_gated@[i as int] == *gate);
                }
            }
            assert(gated_prefix(*entry, pm, target@, i + 1) =~= gated_prefix(*entry, pm, target@, i as int));
        }
        assert(views(advertised@).to_set() =~= base + gated_prefix(*entry, pm, target@, i + 1));
        i = i + 1;
    }
    Ok(advertised)
}

} // verus!

//! What `onboard-agent` refuses before it writes: a draft that collides with an enrolled agent,
//! a manifest root that already expects other targets or already holds target artifacts.
use vstd::prelude::*;

use crate::agent_registry::{AgentRegistry, AgentRegistryEntry, ConfigGatedCapability, TargetGatedCapability, REGISTRY_RELATIVE_PATH};
use crate::json_tree::{get_member, json_of, member, parse_json, spec_json, JsonTree, JsonValue};
use crate::onboard_agent::{config_gate_view, opt_views, refused_with, ConfigGateView, Error};
use crate::onboard_preview::{debug_quote, debug_string, string_array_text, quoted, ConfigGate, DraftEntry, TargetGate};
use crate::strset::{ascending, set_insert};
use crate::text::{cat2, cat3, join, join_text, str_eq, to_owned, trim_end, trimmed_end, views};

verus! {

// ---------------------------------------------------------------------------------------------
// An enrolled agent that is the draft itself

pub type TargetGateView = (Seq<char>, Seq<Seq<char>>);

pub open spec fn registry_target_gates(g: Seq<TargetGatedCapability>) -> Seq<TargetGateView> {
    g.map_values(|x: TargetGatedCapability| (x.capability_id@, views(x.targets@)))
}

pub open spec fn draft_target_gates(g: Seq<TargetGate>) -> Seq<TargetGateView> {
    g.map_values(|x: TargetGate| (x.capability_id@, views(x.targets@)))
}

pub open spec fn registry_config_gates(g: Seq<ConfigGatedCapability>) -> Seq<ConfigGateView> {
    g.map_values(|x: ConfigGatedCapability| (x.capability_id@, x.config_key@, opt_views(x.targets)))
}

pub open spec fn draft_config_gates(g: Seq<ConfigGate>) -> Seq<ConfigGateView> {
    g.map_values(|x: ConfigGate| config_gate_view(x))
}

pub open spec fn opt_text(o: Option<String>) -> Option<Seq<char>> {
    match o {
        Some(s) => Some(s@),
        None => None,
    }
}

/// The enrolled entry says exactly what the draft would enroll.
pub open spec fn entry_matches_draft(e: AgentRegistryEntry, d: DraftEntry) -> bool {
    &&& e.display_name@ == d.display_name@
    &&& e.crate_path@ == d.crate_path@
    &&& e.backend_module@ == d.backend_module@
    &&& e.manifest_root@ == d.manifest_root@
    &&& e.package_name@ == d.package_name@
    &&& views(e.canonical_targets@) == views(d.canonical_targets@)
    &&& e.wrapper_coverage.binding_kind@ == d.wrapper_coverage_binding_kind@
    &&& e.wrapper_coverage.source_path@ == d.wrapper_coverage_source_path@
    &&& views(e.capability_declaration.always_on@) == views(d.always_on_capabilities@)
    &&& views(e.capability_declaration.backend_extensions@) == views(d.backend_extensions@)
    &&& registry_target_gates(e.capability_declaration.target_gated@) == draft_target_gates(d.target_gated_capabilities@)
    &&& registry_config_gates(e.capability_declaration.config_gated@) == draft_config_gates(d.config_gated_capabilities@)
    &&& e.publication.support_matrix_enabled == d.support_matrix_enabled
    &&& e.publication.capability_matrix_enabled == d.capability_matrix_enabled
    &&& opt_text(e.publication.capability_matrix_target) == opt_text(d.capability_matrix_target)
    &&& e.release.docs_release_track@ == d.docs_release_track@
    &&& e.scaffold.onboarding_pack_prefix@ == d.onboarding_pack_prefix@
}

pub(crate) fn same_texts(a: &Vec<String>, b: &Vec<String>) -> (r: bool)
    ensures
        r == (views(a@) == views(b@)),
{
    if a.len() != b.len() {
        assert(views(a@).len() != views(b@).len());
        return false;
    }
    let mut i: usize = 0;
    while i < a.len()
        invariant
            a.len() == b.len(),
            i <= a.len(),
            forall|k: int| 0 <= k < i ==> #[trigger] a@[k]@ == b@[k]@,
        decreases a.len() - i,
    {
        if !str_eq(a[i].as_str(), b[i].as_str()) {
            assert(views(a@)[i as int] != views(b@)[i as int]);
            return false;
        }
        i = i + 1;
    }
    assert(views(a@) =~= views(b@));
    true
}

fn same_opt_text(a: &Option<String>, b: &Option<String>) -> (r: bool)
    ensures
        r == (opt_text(*a) == opt_text(*b)),
{
    match (a, b) {
        (Some(x), Some(y)) => str_eq(x.as_str(), y.as_str()),
        (None, None) => true,
        _ => false,
    }
}

fn same_opt_texts(a: &Option<Vec<String>>, b: &Option<Vec<String>>) -> (r: bool)
    ensures
        r == (opt_views(*a) == opt_views(*b)),
{
    match (a, b) {
        (Some(x), Some(y)) => same_texts(x, y),
        (None, None) => true,
        _ => false,
    }
}

fn same_target_gates(a: &Vec<TargetGatedCapability>, b: &Vec<TargetGate>) -> (r: bool)
    ensures
        r == (registry_target_gates(a@) == draft_target_gates(b@)),
{
    let ghost av = registry_target_gates(a@);
    let ghost bv = draft_target_gates(b@);
    if a.len() != b.len() {
        assert(av.len() != bv.len());
        return false;
    }
    let mut i: usize = 0;
    while i < a.len()
        invariant
            a.len() == b.len(),
            i <= a.len(),
            av == registry_target_gates(a@),
            bv == draft_target_gates(b@),
            forall|k: int| 0 <= k < i ==> #[trigger] av[k] == bv[k],
        decreases a.len() - i,
    {
        if !str_eq(a[i].capability_id.as_str(), b[i].capability_id.as_str()) || !same_texts(&a[i].targets, &b[i].targets) {
            assert(av[i as int] != bv[i as int]);
            return false;
        }
        i = i + 1;
    }
    assert(av =~= bv);
    true
}

fn same_config_gates(a: &Vec<ConfigGatedCapability>, b: &Vec<ConfigGate>) -> (r: bool)
    ensures
        r == (registry_config_gates(a@) == draft_config_gates(b@)),
{
    let ghost av = registry_config_gates(a@);
    let ghost bv = draft_config_gates(b@);
    if a.len() != b.len() {
        assert(av.len() != bv.len());
        return false;
    }
    let mut i: usize = 0;
    while i < a.len()
        invariant
            a.len() == b.len(),
            i <= a.len(),
            av == registry_config_gates(a@),
            bv == draft_config_gates(b@),
            forall|k: int| 0 <= k < i ==> #[trigger] av[k] == bv[k],
        decreases a.len() - i,
    {
        if !str_eq(a[i].capability_id.as_str(), b[i].capability_id.as_str())
            || !str_eq(a[i].config_key.as_str(), b[i].config_key.as_str())
            || !same_opt_texts(&a[i].targets, &b[i].targets) {
            assert(av[i as int] != bv[i as int]);
            return false;
        }
        i = i + 1;
    }
    assert(av =~= bv);
    true
}

/// `registry_entry_matches_draft`: the enrolled entry is the draft, field for field.
pub fn registry_entry_matches_draft(entry: &AgentRegistryEntry, draft: &DraftEntry) -> (r: bool)
    ensures
        r == entry_matches_draft(*entry, *draft),
{
    str_eq(entry.display_name.as_str(), draft.display_name.as_str())
        && str_eq(entry.crate_path.as_str(), draft.crate_path.as_str())
        && str_eq(entry.backend_module.as_str(), draft.backend_module.as_str())
        && str_eq(entry.manifest_root.as_str(), draft.manifest_root.as_str())
        && str_eq(entry.package_name.as_str(), draft.package_name.as_str())
        && same_texts(&entry.canonical_targets, &draft.canonical_targets)
        && str_eq(entry.wrapper_coverage.binding_kind.as_str(), draft.wrapper_coverage_binding_kind.as_str())
        && str_eq(entry.wrapper_coverage.source_path.as_str(), draft.wrapper_coverage_source_path.as_str())
        && same_texts(&entry.capability_declaration.always_on, &draft.always_on_capabilities)
        && same_texts(&entry.capability_declaration.backend_extensions, &draft.backend_extensions)
        && same_target_gates(&entry.capability_declaration.target_gated, &draft.target_gated_capabilities)
        && same_config_gates(&entry.capability_declaration.config_gated, &draft.config_gated_capabilities)
        && entry.publication.support_matrix_enabled == draft.support_matrix_enabled
        && entry.publication.capability_matrix_enabled == draft.capability_matrix_enabled
        && same_opt_text(&entry.publication.capability_matrix_target, &draft.capability_matrix_target)
        && str_eq(entry.release.docs_release_track.as_str(), draft.docs_release_track.as_str())
        && str_eq(entry.scaffold.onboarding_pack_prefix.as_str(), draft.onboarding_pack_prefix.as_str())
}

// ---------------------------------------------------------------------------------------------
// Collisions with enrolled agents

pub open spec fn owned_text(field: Seq<char>, value: Seq<char>, owner: Seq<char>) -> Seq<char> {
    field + " `"@ + value + "` is already owned by agent `"@ + owner + "`"@
}

/// What one enrolled entry holds against the draft, if anything: the same agent id unless it is
/// the draft itself, or one of the paths, the package name or the docs prefix the draft claims.
pub open spec fn entry_conflict(e: AgentRegistryEntry, d: DraftEntry) -> Option<Seq<char>> {
    if e.agent_id@ == d.agent_id@ {
        if entry_matches_draft(e, d) {
            None
        } else {
            Some("agent_id `"@ + d.agent_id@ + "` already exists in "@ + REGISTRY_RELATIVE_PATH@)
        }
    } else if e.crate_path@ == d.crate_path@ {
        Some(owned_text("crate_path"@, d.crate_path@, e.agent_id@))
    } else if e.backend_module@ == d.backend_module@ {
        Some(owned_text("backend_module"@, d.backend_module@, e.agent_id@))
    } else if e.manifest_root@ == d.manifest_root@ {
        Some(owned_text("manifest_root"@, d.manifest_root@, e.agent_id@))
    } else if e.package_name@ == d.package_name@ {
        Some(owned_text("package_name"@, d.package_name@, e.agent_id@))
    } else if e.scaffold.onboarding_pack_prefix@ == d.onboarding_pack_prefix@ {
        Some(owned_text("onboarding_pack_prefix"@, d.onboarding_pack_prefix@, e.agent_id@))
    } else {
        None
    }
}

/// The first conflict in registry order.
pub open spec fn registry_conflict(entries: Seq<AgentRegistryEntry>, d: DraftEntry) -> Option<Seq<char>>
    decreases entries.len(),
{
    if entries.len() == 0 {
        None
    } else {
        match entry_conflict(entries[0], d) {
            Some(m) => Some(m),
            None => registry_conflict(entries.drop_first(), d),
        }
    }
}

fn owned_error(field: &str, value: &str, owner: &str) -> (r: Error)
    ensures
        refused_with::<()>(Err(r), owned_text(field@, value@, owner@)),
{
    let mut m = cat3(field, " `", value);
    m.append("` is already owned by agent `");
    m.append(owner);
    m.append("`");
    Error::Validation(m)
}

fn check_entry(e: &AgentRegistryEntry, d: &DraftEntry) -> (r: Result<(), Error>)
    ensures
        match entry_conflict(*e, *d) {
            Some(m) => refused_with(r, m),
            None => r is Ok,
        },
{
    if str_eq(e.agent_id.as_str(), d.agent_id.as_str()) {
        if registry_entry_matches_draft(e, d) {
            return Ok(());
        }
        let mut m = cat3("agent_id `", d.agent_id.as_str(), "` already exists in ");
        m.append(REGISTRY_RELATIVE_PATH);
        return Err(Error::Validation(m));
    }
    if str_eq(e.crate_path.as_str(), d.crate_path.as_str()) {
        return Err(owned_error("crate_path", d.crate_path.as_str(), e.agent_id.as_str()));
    }
    if str_eq(e.backend_module.as_str(), d.backend_module.as_str()) {
        return Err(owned_error("backend_module", d.backend_module.as_str(), e.agent_id.as_str()));
    }
    if str_eq(e.manifest_root.as_str(), d.manifest_root.as_str()) {
        return Err(owned_error("manifest_root", d.manifest_root.as_str(), e.agent_id.as_str()));
    }
    if str_eq(e.package_name.as_str(), d.package_name.as_str()) {
        return Err(owned_error("package_name", d.package_name.as_str(), e.agent_id.as_str()));
    }
    if str_eq(e.scaffold.onboarding_pack_prefix.as_str(), d.onboarding_pack_prefix.as_str()) {
        return Err(owned_error("onboarding_pack_prefix", d.onboarding_pack_prefix.as_str(), e.agent_id.as_str()));
    }
    Ok(())
}

/// `validate_registry_conflicts`: the draft may re-enroll itself unchanged, but may claim no
/// other agent's id, crate path, backend module, manifest root, package name or docs prefix.
pub fn validate_registry_conflicts(registry: &AgentRegistry, draft: &DraftEntry) -> (r: Result<(), Error>)
    ensures
        match registry_conflict(registry.agents@, *draft) {
            Some(m) => refused_with(r, m),
            None => r is Ok,
        },
{
    let ghost all = registry.agents@;
    let mut i: usize = 0;
    assert(all.subrange(0, all.len() as int) =~= all);
    while i < registry.agents.len()
        invariant
            i <= registry.agents.len(),
            all == registry.agents@,
            registry_conflict(all, *draft) == registry_conflict(all.subrange(i as int, all.len() as int), *draft),
        decreases registry.agents.len() - i,
    {
        let ghost rest = all.subrange(i as int, all.len() as int);
        assert(rest[0] == all[i as int]);
        assert(rest.drop_first() =~= all.subrange(i + 1, all.len() as int));
        check_entry(&registry.agents[i], draft)?;
        i = i + 1;
    }
    Ok(())
}

// ---------------------------------------------------------------------------------------------
// The registry text to write

pub open spec fn appended_entry(text: Seq<char>, preview: Seq<char>) -> Seq<char> {
    trim_end(text) + "\n\n"@ + preview
}

/// `append_registry_entry`: the registry without trailing whitespace, a blank line, the entry.
pub fn append_registry_entry(registry_text: &str, registry_entry_preview: &str) -> (r: String)
    ensures
        r@ == appended_entry(registry_text@, registry_entry_preview@),
{
    let mut combined = trimmed_end(registry_text);
    combined.append("\n\n");
    combined.append(registry_entry_preview);
    combined
}

/// The first enrolled entry with the agent id, if any.
pub open spec fn first_with_id(entries: Seq<AgentRegistryEntry>, id: Seq<char>) -> Option<AgentRegistryEntry>
    decreases entries.len(),
{
    if entries.len() == 0 {
        None
    } else if entries[0].agent_id@ == id {
        Some(entries[0])
    } else {
        first_with_id(entries.drop_first(), id)
    }
}

proof fn lemma_first_with_id(entries: Seq<AgentRegistryEntry>, id: Seq<char>, i: int)
    requires
        0 <= i <= entries.len(),
        forall|j: int| 0 <= j < i ==> #[trigger] entries[j].agent_id@ != id,
        i < entries.len() ==> entries[i].agent_id@ == id,
    ensures
        first_with_id(entries, id) == (if i < entries.len() { Some(entries[i]) } else { None::<AgentRegistryEntry> }),
    decreases i,
{
    if i > 0 {
        let t = entries.drop_first();
        assert forall|j: int| 0 <= j < i - 1 implies #[trigger] t[j].agent_id@ != id by {
            assert(t[j] == entries[j + 1]);
        }
        lemma_first_with_id(t, id, i - 1);
    }
}

/// `desired_registry_text`: the registry unchanged when it already enrolls the draft as drafted,
/// else the registry with the entry appended.
pub fn desired_registry_text(registry: &AgentRegistry, draft: &DraftEntry, registry_text: &str, registry_entry_preview: &str) -> (r: String)
    ensures
        r@ == (match first_with_id(registry.agents@, draft.agent_id@) {
            Some(e) => if entry_matches_draft(e, *draft) { registry_text@ } else { appended_entry(registry_text@, registry_entry_preview@) },
            None => appended_entry(registry_text@, registry_entry_preview@),
        }),
{
    let found = registry.find(draft.agent_id.as_str());
    proof {
        match found {
            Some(e) => {
                let i = choose|i: int|
                    0 <= i < registry.agents.len() && *e == registry.agents@[i] && registry.agents@[i].agent_id@ == draft.agent_id@
                        && forall|j: int| 0 <= j < i ==> #[trigger] registry.agents@[j].agent_id@ != draft.agent_id@;
                lemma_first_with_id(registry.agents@, draft.agent_id@, i);
            },
            None => {
                lemma_first_with_id(registry.agents@, draft.agent_id@, registry.agents@.len() as int);
            },
        }
    }
    match found {
        Some(entry) => {
            if registry_entry_matches_draft(entry, draft) {
                return to_owned(registry_text);
            }
        },
        None => {},
    }
    append_registry_entry(registry_text, registry_entry_preview)
}

// ---------------------------------------------------------------------------------------------
// A manifest root that already exists

/// The strings of a JSON array, or the fact that one item is not a string.
pub open spec fn string_items(items: Seq<JsonTree>) -> Option<Seq<Seq<char>>>
    decreases items.len(),
{
    if items.len() == 0 {
        Some(Seq::empty())
    } else {
        match (string_items(items.drop_last()), items.last()) {
            (Some(p), JsonTree::Str(s)) => Some(p.push(s)),
            _ => None,
        }
    }
}

/// The message `validate_manifest_root_targets` refuses with, when it refuses.
pub open spec fn manifest_targets_problem(d: DraftEntry, path: Seq<char>, text: Seq<char>) -> Option<Seq<char>> {
    match spec_json(text) {
        Err(e) => Some("parse "@ + path + ": "@ + e),
        Ok(doc) => match doc {
            JsonTree::Object(m) => match member(m, "expected_targets"@) {
                Some(JsonTree::Array(items)) => match string_items(items) {
                    None => Some(path + " contains non-string expected_targets entries"@),
                    Some(existing) => if existing == views(d.canonical_targets@) {
                        None
                    } else {
                        Some("manifest_root `"@ + d.manifest_root@ + "` already contains expected_targets "@
                            + string_array_text(existing) + ", which conflicts with proposed canonical_targets "@
                            + string_array_text(views(d.canonical_targets@)))
                    },
                },
                _ => None,
            },
            _ => None,
        },
    }
}

fn json_strings_of(items: &Vec<JsonValue>) -> (r: Option<Vec<String>>)
    ensures
        match string_items(crate::json_tree::jsons_of(items@)) {
            Some(s) => r matches Some(v) && views(v@) == s,
            None => r is None,
        },
{
    let mut out: Vec<String> = Vec::new();
    let mut i: usize = 0;
    proof {
        crate::json_tree::lemma_jsons_of(items@);
        assert(items@.subrange(0, 0) =~= Seq::<JsonValue>::empty());
    }
    while i < items.len()
        invariant
            i <= items.len(),
            string_items(crate::json_tree::jsons_of(items@.subrange(0, i as int))) == Some(views(out@)),
        decreases items.len() - i,
    {
        let ghost sub = items@.subrange(0, i + 1);
        proof {
            assert(sub.drop_last() =~= items@.subrange(0, i as int));
            assert(sub.last() == items@[i as int]);
            assert(crate::json_tree::jsons_of(sub).drop_last() =~= crate::json_tree::jsons_of(sub.drop_last()));
        }
        match &items[i] {
            JsonValue::Str(s) => {
                let ghost before = views(out@);
                out.push(to_owned(s.as_str()));
                assert(views(out@) =~= before.push(s@));
            },
            _ => {
                proof {
                    crate::json_tree::lemma_jsons_of(items@);
                    lemma_string_items_none(items@, i as int);
                }
                return None;
            },
        }
        i = i + 1;
    }
    assert(items@.subrange(0, items.len() as int) =~= items@);
    Some(out)
}

proof fn lemma_string_items_none(items: Seq<JsonValue>, i: int)
    requires
        0 <= i < items.len(),
        !(json_of(items[i]) is Str),
    ensures
        string_items(crate::json_tree::jsons_of(items)) is None,
    decreases items.len(),
{
    crate::json_tree::lemma_jsons_of(items);
    assert(crate::json_tree::jsons_of(items).drop_last() =~= crate::json_tree::jsons_of(items.drop_last()));
    if i < items.len() - 1 {
        assert(items.drop_last()[i] == items[i]);
        lemma_string_items_none(items.drop_last(), i);
    }
}

fn string_array_debug(values: &Vec<String>) -> (r: String)
    ensures
        r@ == string_array_text(views(values@)),
{
    crate::onboard_preview::render_string_array(values)
}

/// `validate_manifest_root_targets` on `current.json` (its path for messages, and its text):
/// the targets it already expects must be the draft's canonical targets, in order.
pub fn validate_manifest_root_targets(draft: &DraftEntry, current_json_path: &str, text: &str) -> (r: Result<(), Error>)
    ensures
        match manifest_targets_problem(*draft, current_json_path@, text@) {
            Some(m) => refused_with(r, m),
            None => r is Ok,
        },
{
    let doc = match parse_json(text) {
        Ok(doc) => doc,
        Err(e) => {
            let mut m = cat3("parse ", current_json_path, ": ");
            m.append(e.as_str());
            return Err(Error::Validation(m));
        },
    };
    let members = match &doc {
        JsonValue::Object(m) => m,
        _ => return Ok(()),
    };
    let items = match get_member(members, "expected_targets") {
        Some(JsonValue::Array(items)) => items,
        _ => return Ok(()),
    };
    let existing = match json_strings_of(items) {
        Some(v) => v,
        None => return Err(Error::Validation(cat2(current_json_path, " contains non-string expected_targets entries"))),
    };
    if crate::onboard_validation::same_texts(&existing, &draft.canonical_targets) {
        return Ok(());
    }
    let mut m = cat3("manifest_root `", draft.manifest_root.as_str(), "` already contains expected_targets ");
    let a = string_array_debug(&existing);
    m.append(a.as_str());
    m.append(", which conflicts with proposed canonical_targets ");
    let b = string_array_debug(&draft.canonical_targets);
    m.append(b.as_str());
    Err(Error::Validation(m))
}

/// The artifacts of one canonical target already under the manifest root, as named in the
/// refusal: its latest-supported and latest-validated pointers and a coverage report anywhere
/// under `reports/` (`present` says which of the three exist).
pub open spec fn target_artifacts(root: Seq<char>, t: Seq<char>, present: (bool, bool, bool)) -> Set<Seq<char>> {
    (if present.0 { set![root + "/pointers/latest_supported/"@ + t + ".txt"@] } else { Set::empty() })
        .union(if present.1 { set![root + "/pointers/latest_validated/"@ + t + ".txt"@] } else { Set::empty() })
        .union(if present.2 { set![root + "/reports/**/coverage."@ + t + ".json"@] } else { Set::empty() })
}

pub open spec fn artifact_conflicts(root: Seq<char>, targets: Seq<Seq<char>>, present: Seq<(bool, bool, bool)>) -> Set<Seq<char>>
    decreases targets.len(),
{
    if targets.len() == 0 || present.len() == 0 {
        Set::empty()
    } else {
        artifact_conflicts(root, targets.drop_last(), present.drop_last()).union(target_artifacts(root, targets.last(), present.last()))
    }
}

fn add_conflict(out: &mut Vec<String>, a: &str, b: &str, c: &str)
    requires
        ascending(views(old(out)@)),
    ensures
        ascending(views(final(out)@)),
        views(final(out)@).to_set() == views(old(out)@).to_set().insert(a@ + b@ + c@),
{
    let v = cat3(a, b, c);
    set_insert(out, v);
}

/// `validate_manifest_root_artifact_conflicts`, given for each canonical target whether its
/// latest-supported pointer, its latest-validated pointer and a coverage report for it exist:
/// a manifest root without `current.json` may hold no such artifact. The refusal lists them
/// ascending, as a `BTreeSet` iterates.
pub fn validate_manifest_root_artifact_conflicts(draft: &DraftEntry, present: &Vec<(bool, bool, bool)>) -> (r: Result<(), Error>)
    requires
        present.len() == draft.canonical_targets.len(),
    ensures
        (r is Ok) <==> artifact_conflicts(draft.manifest_root@, views(draft.canonical_targets@), present@) =~= Set::empty(),
        r matches Err(e) ==> e is Validation && exists|s: Seq<Seq<char>>|
            ascending(s) && s.to_set() == artifact_conflicts(draft.manifest_root@, views(draft.canonical_targets@), present@)
                && e.text() == "pre-existing target artifacts conflict with proposed canonical_targets: "@ + join(s, ", "@),
{
    let ghost root = draft.manifest_root@;
    let ghost tv = views(draft.canonical_targets@);
    let mut out: Vec<String> = Vec::new();
    let mut i: usize = 0;
    assert(views(out@) =~= Seq::<Seq<char>>::empty());
    assert(views(out@).to_set() =~= Set::<Seq<char>>::empty());
    while i < draft.canonical_targets.len()
        invariant
            i <= draft.canonical_targets.len(),
            present.len() == draft.canonical_targets.len(),
            root == draft.manifest_root@,
            tv == views(draft.canonical_targets@),
            ascending(views(out@)),
            views(out@).to_set() == artifact_conflicts(root, tv.subrange(0, i as int), present@.subrange(0, i as int)),
        decreases draft.canonical_targets.len() - i,
    {
        let t = draft.canonical_targets[i].as_str();
        let p = present[i];
        let ghost before = views(out@).to_set();
        let ghost sub_t = tv.subrange(0, i + 1);
        let ghost sub_p = present@.subrange(0, i + 1);
        proof {
            assert(sub_t.drop_last() =~= tv.subrange(0, i as int));
            assert(sub_p.drop_last() =~= present@.subrange(0, i as int));
            assert(sub_t.last() == t@);
            assert(sub_p.last() == p);
        }
        if p.0 {
            let root_dir = cat2(draft.manifest_root.as_str(), "/pointers/latest_supported/");
            add_conflict(&mut out, root_dir.as_str(), t, ".txt");
        }
        let ghost s1 = views(out@).to_set();
        if p.1 {
            let root_dir = cat2(draft.manifest_root.as_str(), "/pointers/latest_validated/");
            add_conflict(&mut out, root_dir.as_str(), t, ".txt");
        }
        let ghost s2 = views(out@).to_set();
        if p.2 {
            let root_dir = cat2(draft.manifest_root.as_str(), "/reports/**/coverage.");
            add_conflict(&mut out, root_dir.as_str(), t, ".json");
        }
        proof {
            let want = target_artifacts(root, t@, p);
            assert(views(out@).to_set() =~= before.union(want));
        }
        i = i + 1;
    }
    assert(tv.subrange(0, tv.len() as int) =~= tv);
    assert(present@.subrange(0, present@.len() as int) =~= present@);
    if out.len() == 0 {
        assert(views(out@) =~= Seq::<Seq<char>>::empty());
        assert(views(out@).to_set() =~= Set::<Seq<char>>::empty());
        return Ok(());
    }
    assert(views(out@).to_set().contains(views(out@)[0]));
    let listed = join_text(&out, ", ");
    let m = cat2("pre-existing target artifacts conflict with proposed canonical_targets: ", listed.as_str());
    Err(Error::Validation(m))
}

/// A draft never collides with its own enrollment: an entry with the draft's agent id that says
/// what the draft says holds nothing against it, so re-running onboarding on an enrolled agent
/// leaves the registry text as it is.
pub proof fn law_a_draft_never_conflicts_with_its_own_enrollment(e: AgentRegistryEntry, d: DraftEntry)
    requires
        e.agent_id@ == d.agent_id@,
        entry_matches_draft(e, d),
    ensures
        entry_conflict(e, d) is None,
        registry_conflict(seq![e], d) is None,
        first_with_id(seq![e], d.agent_id@) == Some(e),
{
    let s = seq![e];
    assert(s[0] == e);
    assert(s.drop_first() =~= Seq::<AgentRegistryEntry>::empty());
    assert(registry_conflict(s.drop_first(), d) is None);
    assert(first_with_id(s.drop_first(), d.agent_id@) is None);
}

} // verus!

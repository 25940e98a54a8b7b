//! The draft an onboarding run previews, built from its descriptor: id lists normalized, gate
//! declarations parsed against the canonical targets and put in a stable order.
use vstd::prelude::*;

use crate::onboard_agent::{
    config_gate_view, config_gates_walk, normalize_ordered_unique, normalize_sorted_unique, opt_text_view, ordered_unique,
    parse_config_gates, parse_target_gates, refused_with, target_gate_view, target_gates_walk, ConfigGateView,
    DraftDescriptorInput, Error, GateView,
};
use crate::onboard_preview::{ConfigGate, DraftEntry, TargetGate};
use crate::strset::{ascending, lex_lt, text_lt};
use crate::text::{str_eq, views};

verus! {

// ---------------------------------------------------------------------------------------------
// The order gates are listed in

/// `Vec<String>` order: element by element, a shorter prefix first.
pub open spec fn texts_lt(a: Seq<Seq<char>>, b: Seq<Seq<char>>) -> bool
    decreases a.len(),
{
    if a.len() == 0 {
        b.len() > 0
    } else if b.len() == 0 {
        false
    } else if a[0] != b[0] {
        lex_lt(a[0], b[0])
    } else {
        texts_lt(a.drop_first(), b.drop_first())
    }
}

/// Target gates by capability id, then targets.
pub open spec fn target_gate_lt(a: GateView, b: GateView) -> bool {
    lex_lt(a.0, b.0) || (a.0 == b.0 && texts_lt(a.1, b.1))
}

/// The order target gates are listed in.
pub open spec fn target_gate_order() -> spec_fn(GateView, GateView) -> bool {
    |a: GateView, b: GateView| target_gate_lt(a, b)
}

/// `Option<Vec<String>>` order: `None` first.
pub open spec fn opt_texts_lt(a: Option<Seq<Seq<char>>>, b: Option<Seq<Seq<char>>>) -> bool {
    match (a, b) {
        (None, Some(_)) => true,
        (Some(x), Some(y)) => texts_lt(x, y),
        _ => false,
    }
}

/// Config gates by capability id, then config key, then targets.
pub open spec fn config_gate_lt(a: ConfigGateView, b: ConfigGateView) -> bool {
    lex_lt(a.0, b.0) || (a.0 == b.0 && (lex_lt(a.1, b.1) || (a.1 == b.1 && opt_texts_lt(a.2, b.2))))
}

/// The order config gates are listed in.
pub open spec fn config_gate_order() -> spec_fn(ConfigGateView, ConfigGateView) -> bool {
    |a: ConfigGateView, b: ConfigGateView| config_gate_lt(a, b)
}

/// `x` placed after every item not greater than it.
pub open spec fn insert_by<T>(s: Seq<T>, x: T, lt: spec_fn(T, T) -> bool) -> Seq<T>
    decreases s.len(),
{
    if s.len() == 0 {
        seq![x]
    } else if lt(x, s.last()) {
        insert_by(s.drop_last(), x, lt).push(s.last())
    } else {
        s.push(x)
    }
}

/// The items in the order `lt` gives, equal items keeping their order (`sort_by`).
pub open spec fn sorted_by<T>(s: Seq<T>, lt: spec_fn(T, T) -> bool) -> Seq<T>
    decreases s.len(),
{
    if s.len() == 0 {
        Seq::empty()
    } else {
        insert_by(sorted_by(s.drop_last(), lt), s.last(), lt)
    }
}

proof fn lemma_insert_at<T>(s: Seq<T>, x: T, lt: spec_fn(T, T) -> bool, j: int)
    requires
        0 <= j <= s.len(),
        forall|k: int| j <= k < s.len() ==> lt(x, #[trigger] s[k]),
        j == 0 || !lt(x, s[j - 1]),
    ensures
        insert_by(s, x, lt) == s.subrange(0, j).push(x) + s.subrange(j, s.len() as int),
    decreases s.len(),
{
    if s.len() == j {
        assert(s.subrange(0, j) =~= s);
        assert(s.subrange(0, j).push(x) + s.subrange(j, s.len() as int) =~= s.push(x));
    } else {
        let t = s.drop_last();
        assert(lt(x, s[s.len() - 1]));
        assert forall|k: int| j <= k < t.len() implies lt(x, #[trigger] t[k]) by {
            assert(t[k] == s[k]);
        }
        lemma_insert_at(t, x, lt, j);
        assert(t.subrange(0, j) =~= s.subrange(0, j));
        assert((t.subrange(0, j).push(x) + t.subrange(j, t.len() as int)).push(s.last())
            =~= s.subrange(0, j).push(x) + s.subrange(j, s.len() as int));
    }
}

fn texts_less(a: &Vec<String>, b: &Vec<String>) -> (r: bool)
    ensures
        r == texts_lt(views(a@), views(b@)),
{
    let ghost av = views(a@);
    let ghost bv = views(b@);
    let mut i: usize = 0;
    assert(av.subrange(0, av.len() as int) =~= av);
    assert(bv.subrange(0, bv.len() as int) =~= bv);
    while i < a.len() && i < b.len()
        invariant
            av == views(a@),
            bv == views(b@),
            i <= a.len(),
            i <= b.len(),
            texts_lt(av, bv) == texts_lt(av.subrange(i as int, av.len() as int), bv.subrange(i as int, bv.len() as int)),
        decreases a.len() - i,
    {
        let ghost sa = av.subrange(i as int, av.len() as int);
        let ghost sb = bv.subrange(i as int, bv.len() as int);
        assert(sa[0] == a@[i as int]@ && sb[0] == b@[i as int]@);
        if !str_eq(a[i].as_str(), b[i].as_str()) {
            return text_lt(a[i].as_str(), b[i].as_str());
        }
        assert(sa.drop_first() =~= av.subrange(i + 1, av.len() as int));
        assert(sb.drop_first() =~= bv.subrange(i + 1, bv.len() as int));
        i = i + 1;
    }
    i == a.len() && i < b.len()
}

fn target_gate_less(a: &TargetGate, b: &TargetGate) -> (r: bool)
    ensures
        r == target_gate_lt(target_gate_view(*a), target_gate_view(*b)),
{
    if !str_eq(a.capability_id.as_str(), b.capability_id.as_str()) {
        return text_lt(a.capability_id.as_str(), b.capability_id.as_str());
    }
    proof {
        crate::strset::lemma_lex_irreflexive(a.capability_id@);
    }
    texts_less(&a.targets, &b.targets)
}

fn config_gate_less(a: &ConfigGate, b: &ConfigGate) -> (r: bool)
    ensures
        r == config_gate_lt(config_gate_view(*a), config_gate_view(*b)),
{
    if !str_eq(a.capability_id.as_str(), b.capability_id.as_str()) {
        return text_lt(a.capability_id.as_str(), b.capability_id.as_str());
    }
    proof {
        crate::strset::lemma_lex_irreflexive(a.capability_id@);
    }
    if !str_eq(a.config_key.as_str(), b.config_key.as_str()) {
        return text_lt(a.config_key.as_str(), b.config_key.as_str());
    }
    proof {
        crate::strset::lemma_lex_irreflexive(a.config_key@);
    }
    match (&a.targets, &b.targets) {
        (None, Some(_)) => true,
        (Some(x), Some(y)) => texts_less(x, y),
        _ => false,
    }
}

pub open spec fn target_gate_views(v: Seq<TargetGate>) -> Seq<GateView> {
    v.map_values(|g: TargetGate| target_gate_view(g))
}

pub open spec fn config_gate_views(v: Seq<ConfigGate>) -> Seq<ConfigGateView> {
    v.map_values(|g: ConfigGate| config_gate_view(g))
}

fn insert_target_gate(sorted: &mut Vec<TargetGate>, x: TargetGate)
    ensures
        target_gate_views(final(sorted)@) == insert_by(target_gate_views(old(sorted)@), target_gate_view(x), target_gate_order()),
{
    let ghost lt = target_gate_order();
    let ghost s = target_gate_views(sorted@);
    let mut j: usize = sorted.len();
    while j > 0 && target_gate_less(&x, &sorted[j - 1])
        invariant
            j <= sorted.len(),
            s == target_gate_views(sorted@),
            s.len() == sorted.len(),
            forall|k: int| j <= k < s.len() ==> target_gate_lt(target_gate_view(x), #[trigger] s[k]),
        decreases j,
    {
        assert(s[j - 1] == target_gate_view(sorted@[j - 1]));
        j = j - 1;
    }
    proof {
        if j > 0 {
            assert(s[j - 1] == target_gate_view(sorted@[j - 1]));
        }
        assert forall|k: int| j <= k < s.len() implies lt(target_gate_view(x), #[trigger] s[k]) by {
            assert(target_gate_lt(target_gate_view(x), s[k]));
        }
        lemma_insert_at(s, target_gate_view(x), lt, j as int);
    }
    let ghost xv = target_gate_view(x);
    sorted.insert(j, x);
    assert(target_gate_views(sorted@) =~= s.subrange(0, j as int).push(xv) + s.subrange(j as int, s.len() as int));
}

fn insert_config_gate(sorted: &mut Vec<ConfigGate>, x: ConfigGate)
    ensures
        config_gate_views(final(sorted)@) == insert_by(config_gate_views(old(sorted)@), config_gate_view(x), config_gate_order()),
{
    let ghost lt = config_gate_order();
    let ghost s = config_gate_views(sorted@);
    let mut j: usize = sorted.len();
    while j > 0 && config_gate_less(&x, &sorted[j - 1])
        invariant
            j <= sorted.len(),
            s == config_gate_views(sorted@),
            s.len() == sorted.len(),
            forall|k: int| j <= k < s.len() ==> config_gate_lt(config_gate_view(x), #[trigger] s[k]),
        decreases j,
    {
        assert(s[j - 1] == config_gate_view(sorted@[j - 1]));
        j = j - 1;
    }
    proof {
        if j > 0 {
            assert(s[j - 1] == config_gate_view(sorted@[j - 1]));
        }
        assert forall|k: int| j <= k < s.len() implies lt(config_gate_view(x), #[trigger] s[k]) by {
            assert(config_gate_lt(config_gate_view(x), s[k]));
        }
        lemma_insert_at(s, config_gate_view(x), lt, j as int);
    }
    let ghost xv = config_gate_view(x);
    sorted.insert(j, x);
    assert(config_gate_views(sorted@) =~= s.subrange(0, j as int).push(xv) + s.subrange(j as int, s.len() as int));
}

/// Target gates sorted by capability id, then targets; equal gates keep their order.
pub fn sort_target_gates(gates: Vec<TargetGate>) -> (r: Vec<TargetGate>)
    ensures
        target_gate_views(r@) == sorted_by(target_gate_views(gates@), target_gate_order()),
{
    let ghost lt = target_gate_order();
    let ghost gv = target_gate_views(gates@);
    let mut rest = gates;
    let mut sorted: Vec<TargetGate> = Vec::new();
    let mut i: usize = 0;
    let ghost n = rest.len();
    assert(gv.subrange(0, 0) =~= Seq::<GateView>::empty());
    assert(target_gate_views(sorted@) =~= Seq::<GateView>::empty());
    assert(target_gate_views(rest@) =~= gv.subrange(0, gv.len() as int));
    while rest.len() > 0
        invariant
            gv.len() == n,
            n <= usize::MAX,
            gv.len() == i + rest.len(),
            target_gate_views(rest@) == gv.subrange(i as int, gv.len() as int),
            lt == target_gate_order(),
            target_gate_views(sorted@) == sorted_by(gv.subrange(0, i as int), lt),
        decreases rest.len(),
    {
        let ghost before = rest@;
        let x = rest.remove(0);
        proof {
            assert(target_gate_views(before)[0] == target_gate_view(before[0]));
            assert(target_gate_view(x) == gv[i as int]);
            assert(target_gate_views(rest@) =~= target_gate_views(before).subrange(1, before.len() as int));
            assert(target_gate_views(rest@) =~= gv.subrange(i + 1, gv.len() as int));
            let sub = gv.subrange(0, i + 1);
            assert(sub.drop_last() =~= gv.subrange(0, i as int));
            assert(sub.last() == gv[i as int]);
        }
        insert_target_gate(&mut sorted, x);
        i = i + 1;
    }
    assert(gv.subrange(0, gv.len() as int) =~= gv);
    sorted
}

/// Config gates sorted by capability id, then config key, then targets; equal gates keep their
/// order.
pub fn sort_config_gates(gates: Vec<ConfigGate>) -> (r: Vec<ConfigGate>)
    ensures
        config_gate_views(r@) == sorted_by(config_gate_views(gates@), config_gate_order()),
{
    let ghost lt = config_gate_order();
    let ghost gv = config_gate_views(gates@);
    let mut rest = gates;
    let mut sorted: Vec<ConfigGate> = Vec::new();
    let mut i: usize = 0;
    let ghost n = rest.len();
    assert(gv.subrange(0, 0) =~= Seq::<ConfigGateView>::empty());
    assert(config_gate_views(sorted@) =~= Seq::<ConfigGateView>::empty());
    assert(config_gate_views(rest@) =~= gv.subrange(0, gv.len() as int));
    while rest.len() > 0
        invariant
            gv.len() == n,
            n <= usize::MAX,
            gv.len() == i + rest.len(),
            config_gate_views(rest@) == gv.subrange(i as int, gv.len() as int),
            lt == config_gate_order(),
            config_gate_views(sorted@) == sorted_by(gv.subrange(0, i as int), lt),
        decreases rest.len(),
    {
        let ghost before = rest@;
        let x = rest.remove(0);
        proof {
            assert(config_gate_views(before)[0] == config_gate_view(before[0]));
            assert(config_gate_view(x) == gv[i as int]);
            assert(config_gate_views(rest@) =~= config_gate_views(before).subrange(1, before.len() as int));
            assert(config_gate_views(rest@) =~= gv.subrange(i + 1, gv.len() as int));
            let sub = gv.subrange(0, i + 1);
            assert(sub.drop_last() =~= gv.subrange(0, i as int));
            assert(sub.last() == gv[i as int]);
        }
        insert_config_gate(&mut sorted, x);
        i = i + 1;
    }
    assert(gv.subrange(0, gv.len() as int) =~= gv);
    sorted
}

// ---------------------------------------------------------------------------------------------
// The draft

/// What `from_args` answers for a descriptor: the first argument it refuses, or an entry with
/// the canonical targets in the order given, the capability and extension lists ascending, and
/// each kind of gate read against the canonical targets and put in order.
pub open spec fn draft_holds(r: Result<DraftEntry, Error>, input: DraftDescriptorInput) -> bool {
    match ordered_unique("--canonical-target"@, views(input.canonical_targets@), true) {
        Err(e) => refused_with(r, e),
        Ok(canonical) => match ordered_unique("--always-on-capability"@, views(input.always_on_capabilities@), false) {
            Err(e) => refused_with(r, e),
            Ok(always_on) => match ordered_unique("--backend-extension"@, views(input.backend_extensions@), false) {
                Err(e) => refused_with(r, e),
                Ok(extensions) => match target_gates_walk(views(input.target_gated_capabilities@), "--target-gated-capability"@, canonical) {
                    Err(e) => refused_with(r, e),
                    Ok((target_gates, _)) => match config_gates_walk(views(input.config_gated_capabilities@), "--config-gated-capability"@, canonical) {
                        Err(e) => refused_with(r, e),
                        Ok((config_gates, _)) => r matches Ok(d) && {
                            &&& d.agent_id@ == input.agent_id@
                            &&& d.display_name@ == input.display_name@
                            &&& d.crate_path@ == input.crate_path@
                            &&& d.backend_module@ == input.backend_module@
                            &&& d.manifest_root@ == input.manifest_root@
                            &&& d.package_name@ == input.package_name@
                            &&& views(d.canonical_targets@) == canonical
                            &&& d.wrapper_coverage_binding_kind@ == input.wrapper_coverage_binding_kind@
                            &&& d.wrapper_coverage_source_path@ == input.wrapper_coverage_source_path@
                            &&& ascending(views(d.always_on_capabilities@))
                            &&& views(d.always_on_capabilities@).to_set() == always_on.to_set()
                            &&& target_gate_views(d.target_gated_capabilities@) == sorted_by(target_gates, target_gate_order())
                            &&& config_gate_views(d.config_gated_capabilities@) == sorted_by(config_gates, config_gate_order())
                            &&& ascending(views(d.backend_extensions@))
                            &&& views(d.backend_extensions@).to_set() == extensions.to_set()
                            &&& d.support_matrix_enabled == input.support_matrix_enabled
                            &&& d.capability_matrix_enabled == input.capability_matrix_enabled
                            &&& opt_text_view(d.capability_matrix_target) == opt_text_view(input.capability_matrix_target)
                            &&& d.docs_release_track@ == input.docs_release_track@
                            &&& d.onboarding_pack_prefix@ == input.onboarding_pack_prefix@
                            &&& d.approval is None
                            &&& d.approval_maintenance is None
                        },
                    },
                },
            },
        },
    }
}

impl DraftEntry {
    /// `from_args`: the draft the descriptor spells out, its lists normalized and its gate
    /// declarations parsed and sorted.
    pub fn from_args(input: DraftDescriptorInput) -> (r: Result<DraftEntry, Error>)
        ensures
            draft_holds(r, input),
    {
        let canonical_targets = normalize_ordered_unique(input.canonical_targets, "--canonical-target", true)?;
        let always_on_capabilities = normalize_sorted_unique(input.always_on_capabilities, "--always-on-capability")?;
        let backend_extensions = normalize_sorted_unique(input.backend_extensions, "--backend-extension")?;
        let target_gated = parse_target_gates(input.target_gated_capabilities, "--target-gated-capability", &canonical_targets)?;
        let target_gated_capabilities = sort_target_gates(target_gated);
        let config_gated = parse_config_gates(input.config_gated_capabilities, "--config-gated-capability", &canonical_targets)?;
        let config_gated_capabilities = sort_config_gates(config_gated);
        Ok(DraftEntry {
            agent_id: input.agent_id,
            display_name: input.display_name,
            crate_path: input.crate_path,
            backend_module: input.backend_module,
            manifest_root: input.manifest_root,
            package_name: input.package_name,
            canonical_targets,
            wrapper_coverage_binding_kind: input.wrapper_coverage_binding_kind,
            wrapper_coverage_source_path: input.wrapper_coverage_source_path,
            always_on_capabilities,
            target_gated_capabilities,
            config_gated_capabilities,
            backend_extensions,
            support_matrix_enabled: input.support_matrix_enabled,
            capability_matrix_enabled: input.capability_matrix_enabled,
            capability_matrix_target: input.capability_matrix_target,
            docs_release_track: input.docs_release_track,
            onboarding_pack_prefix: input.onboarding_pack_prefix,
            approval: None,
            approval_maintenance: None,
        })
    }
}

} // verus!

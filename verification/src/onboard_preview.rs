//! What `onboard-agent` shows before it writes: the input summary, the registry entry, the
//! manifest root, and the follow-up a maintainer is left with.
use vstd::prelude::*;

use crate::text::{bool_str, bool_text, cat2, cat3, join, join_text, to_owned, views};

verus! {

/// The agent an onboarding run would add, as drafted from its arguments or approval.
#[derive(Debug, Clone)]
pub struct DraftEntry {
    pub agent_id: String,
    pub display_name: String,
    pub crate_path: String,
    pub backend_module: String,
    pub manifest_root: String,
    pub package_name: String,
    pub canonical_targets: Vec<String>,
    pub wrapper_coverage_binding_kind: String,
    pub wrapper_coverage_source_path: String,
    pub always_on_capabilities: Vec<String>,
    pub target_gated_capabilities: Vec<TargetGate>,
    pub config_gated_capabilities: Vec<ConfigGate>,
    pub backend_extensions: Vec<String>,
    pub support_matrix_enabled: bool,
    pub capability_matrix_enabled: bool,
    pub capability_matrix_target: Option<String>,
    pub docs_release_track: String,
    pub onboarding_pack_prefix: String,
    /// The approval artifact the draft came from: its path and SHA-256.
    pub approval: Option<(String, String)>,
    pub approval_maintenance: Option<ApprovalMaintenanceSummary>,
}

#[derive(Debug, Clone, PartialEq, Eq)]
pub struct TargetGate {
    pub capability_id: String,
    pub targets: Vec<String>,
}

#[derive(Debug, Clone, PartialEq, Eq)]
pub struct ConfigGate {
    pub capability_id: String,
    pub config_key: String,
    pub targets: Option<Vec<String>>,
}

/// What the approval says about maintaining the agent once onboarded.
#[derive(Debug, Clone)]
pub struct ApprovalMaintenanceSummary {
    pub mode: ApprovalMaintenanceModeSummary,
    pub section_sha256: String,
}

#[derive(Debug, Clone)]
pub enum ApprovalMaintenanceModeSummary {
    ReleaseWatchEnrolled {
        version_policy: String,
        dispatch_kind: String,
        dispatch_workflow: Option<String>,
        upstream: String,
        release_watch_sha256: String,
    },
    ExplicitlyDeferred {
        reason: String,
        follow_up: String,
        approved_scope: String,
        deferral_sha256: String,
    },
}

impl ApprovalMaintenanceSummary {
    pub open spec fn mode_text(self) -> Seq<char> {
        match self.mode {
            ApprovalMaintenanceModeSummary::ReleaseWatchEnrolled { .. } => "release_watch_enrolled"@,
            ApprovalMaintenanceModeSummary::ExplicitlyDeferred { .. } => "explicitly_deferred"@,
        }
    }

    /// The maintenance mode's name.
    pub fn mode_name(&self) -> (r: &'static str)
        ensures
            r@ == self.mode_text(),
    {
        match &self.mode {
            ApprovalMaintenanceModeSummary::ReleaseWatchEnrolled { .. } => "release_watch_enrolled",
            ApprovalMaintenanceModeSummary::ExplicitlyDeferred { .. } => "explicitly_deferred",
        }
    }
}

/// What `format!("{:?}", s)` makes of a string: quoted, with Rust's debug escapes.
pub uninterp spec fn debug_string(s: Seq<char>) -> Seq<char>;

/// `format!("{s:?}")` on a string slice: the text in double quotes with Rust's debug escapes.
/// The escaping is named by `debug_string`.
#[verifier::external_body]
pub(crate) fn debug_quote(s: &str) -> (r: String)
    ensures
        r@ == debug_string(s@),
{
    format!("{s:?}")
}

/// Each text debug-quoted.
pub open spec fn quoted(values: Seq<Seq<char>>) -> Seq<Seq<char>> {
    values.map_values(|v: Seq<char>| debug_string(v))
}

pub open spec fn string_array_text(values: Seq<Seq<char>>) -> Seq<char> {
    "["@ + join(quoted(values), ", "@) + "]"@
}

/// A TOML array of strings as the registry writes one: `["a", "b"]`.
pub fn render_string_array(values: &Vec<String>) -> (r: String)
    ensures
        r@ == string_array_text(views(values@)),
{
    let mut rendered: Vec<String> = Vec::new();
    let mut i: usize = 0;
    while i < values.len()
        invariant
            i <= values.len(),
            views(rendered@) == quoted(views(values@).subrange(0, i as int)),
        decreases values.len() - i,
    {
        let ghost before = views(rendered@);
        rendered.push(debug_quote(values[i].as_str()));
        proof {
            assert(views(rendered@) =~= before.push(debug_string(values@[i as int]@)));
            assert(views(values@)[i as int] == values@[i as int]@);
            assert(quoted(views(values@).subrange(0, i + 1)) =~= quoted(views(values@).subrange(0, i as int)).push(debug_string(views(values@)[i as int])));
        }
        i = i + 1;
    }
    assert(views(values@).subrange(0, values.len() as int) =~= views(values@));
    let joined = join_text(&rendered, ", ");
    let mut r = cat2("[", joined.as_str());
    r.append("]");
    r
}

/// `key = "value"` lines, each ending in a newline.
pub open spec fn kv_line(key: Seq<char>, value: Seq<char>) -> Seq<char> {
    key + " = "@ + value + "\n"@
}

pub open spec fn target_gate_block(g: TargetGate) -> Seq<char> {
    "[[agents.capability_declaration.target_gated]]\n"@ + kv_line("capability_id"@, debug_string(g.capability_id@))
        + kv_line("targets"@, string_array_text(views(g.targets@))) + "\n"@
}

pub open spec fn config_gate_block(g: ConfigGate) -> Seq<char> {
    "[[agents.capability_declaration.config_gated]]\n"@ + kv_line("capability_id"@, debug_string(g.capability_id@))
        + kv_line("config_key"@, debug_string(g.config_key@)) + (match g.targets {
        Some(t) => kv_line("targets"@, string_array_text(views(t@))),
        None => Seq::empty(),
    }) + "\n"@
}

pub open spec fn target_gate_blocks(gs: Seq<TargetGate>) -> Seq<char>
    decreases gs.len(),
{
    if gs.len() == 0 {
        Seq::empty()
    } else {
        target_gate_blocks(gs.drop_last()) + target_gate_block(gs.last())
    }
}

pub open spec fn config_gate_blocks(gs: Seq<ConfigGate>) -> Seq<char>
    decreases gs.len(),
{
    if gs.len() == 0 {
        Seq::empty()
    } else {
        config_gate_blocks(gs.drop_last()) + config_gate_block(gs.last())
    }
}

/// The `[[agents]]` entry a draft would add to the registry.
pub open spec fn registry_entry_text(d: DraftEntry) -> Seq<char> {
    "[[agents]]\n"@ + kv_line("agent_id"@, debug_string(d.agent_id@)) + kv_line("display_name"@, debug_string(d.display_name@))
        + kv_line("crate_path"@, debug_string(d.crate_path@)) + kv_line("backend_module"@, debug_string(d.backend_module@))
        + kv_line("manifest_root"@, debug_string(d.manifest_root@)) + kv_line("package_name"@, debug_string(d.package_name@))
        + kv_line("canonical_targets"@, string_array_text(views(d.canonical_targets@))) + "\n"@
        + "[agents.wrapper_coverage]\n"@ + kv_line("binding_kind"@, debug_string(d.wrapper_coverage_binding_kind@))
        + kv_line("source_path"@, debug_string(d.wrapper_coverage_source_path@)) + "\n"@
        + "[agents.capability_declaration]\n"@ + kv_line("always_on"@, string_array_text(views(d.always_on_capabilities@)))
        + kv_line("backend_extensions"@, string_array_text(views(d.backend_extensions@)))
        + (if d.target_gated_capabilities.len() > 0 { "\n"@ } else { Seq::empty() })
        + target_gate_blocks(d.target_gated_capabilities@) + config_gate_blocks(d.config_gated_capabilities@)
        + "[agents.publication]\n"@ + kv_line("support_matrix_enabled"@, bool_text(d.support_matrix_enabled))
        + kv_line("capability_matrix_enabled"@, bool_text(d.capability_matrix_enabled))
        + (match d.capability_matrix_target {
        Some(t) => kv_line("capability_matrix_target"@, debug_string(t@)),
        None => Seq::empty(),
    }) + "\n"@ + "[agents.release]\n"@ + kv_line("docs_release_track"@, debug_string(d.docs_release_track@)) + "\n"@
        + "[agents.scaffold]\n"@ + kv_line("onboarding_pack_prefix"@, debug_string(d.onboarding_pack_prefix@))
}

fn push_kv(out: &mut String, key: &str, value: &str)
    ensures
        final(out)@ == old(out)@ + kv_line(key@, value@),
{
    out.append(key);
    out.append(" = ");
    out.append(value);
    out.append("\n");
}

fn push_quoted(out: &mut String, key: &str, value: &str)
    ensures
        final(out)@ == old(out)@ + kv_line(key@, debug_string(value@)),
{
    let q = debug_quote(value);
    push_kv(out, key, q.as_str());
}

fn push_array(out: &mut String, key: &str, values: &Vec<String>)
    ensures
        final(out)@ == old(out)@ + kv_line(key@, string_array_text(views(values@))),
{
    let a = render_string_array(values);
    push_kv(out, key, a.as_str());
}

/// The registry entry a draft would add, as TOML.
#[verifier::rlimit(60)]
pub fn render_registry_entry_preview(draft: &DraftEntry) -> (r: String)
    ensures
        r@ == registry_entry_text(*draft),
{
    let mut out = to_owned("[[agents]]\n");
    push_quoted(&mut out, "agent_id", draft.agent_id.as_str());
    push_quoted(&mut out, "display_name", draft.display_name.as_str());
    push_quoted(&mut out, "crate_path", draft.crate_path.as_str());
    push_quoted(&mut out, "backend_module", draft.backend_module.as_str());
    push_quoted(&mut out, "manifest_root", draft.manifest_root.as_str());
    push_quoted(&mut out, "package_name", draft.package_name.as_str());
    push_array(&mut out, "canonical_targets", &draft.canonical_targets);
    out.append("\n");
    out.append("[agents.wrapper_coverage]\n");
    push_quoted(&mut out, "binding_kind", draft.wrapper_coverage_binding_kind.as_str());
    push_quoted(&mut out, "source_path", draft.wrapper_coverage_source_path.as_str());
    out.append("\n");
    out.append("[agents.capability_declaration]\n");
    push_array(&mut out, "always_on", &draft.always_on_capabilities);
    push_array(&mut out, "backend_extensions", &draft.backend_extensions);
    if draft.target_gated_capabilities.len() > 0 {
        out.append("\n");
    }
    let ghost head = out@;
    let gates = &draft.target_gated_capabilities;
    let mut i: usize = 0;
    assert(gates@.subrange(0, 0) =~= Seq::<TargetGate>::empty());
    assert(out@ =~= head + target_gate_blocks(gates@.subrange(0, 0)));
    while i < gates.len()
        invariant
            i <= gates.len(),
            out@ == head + target_gate_blocks(gates@.subrange(0, i as int)),
        decreases gates.len() - i,
    {
        let g = &gates[i];
        let ghost before = out@;
        out.append("[[agents.capability_declaration.target_gated]]\n");
        push_quoted(&mut out, "capability_id", g.capability_id.as_str());
        push_array(&mut out, "targets", &g.targets);
        out.append("\n");
        proof {
            assert(gates@.subrange(0, i + 1).drop_last() =~= gates@.subrange(0, i as int));
            assert(out@ =~= before + target_gate_block(*g));
        }
        i = i + 1;
    }
    assert(gates@.subrange(0, gates.len() as int) =~= gates@);
    let ghost mid = out@;
    let configs = &draft.config_gated_capabilities;
    let mut j: usize = 0;
    assert(configs@.subrange(0, 0) =~= Seq::<ConfigGate>::empty());
    assert(out@ =~= mid + config_gate_blocks(configs@.subrange(0, 0)));
    while j < configs.len()
        invariant
            j <= configs.len(),
            out@ == mid + config_gate_blocks(configs@.subrange(0, j as int)),
        decreases configs.len() - j,
    {
        let g = &configs[j];
        let ghost before = out@;
        out.append("[[agents.capability_declaration.config_gated]]\n");
        push_quoted(&mut out, "capability_id", g.capability_id.as_str());
        push_quoted(&mut out, "config_key", g.config_key.as_str());
        let ghost before_targets = out@;
        match &g.targets {
            Some(t) => push_array(&mut out, "targets", t),
            None => {},
        }
        out.append("\n");
        proof {
            assert(configs@.subrange(0, j + 1).drop_last() =~= configs@.subrange(0, j as int));
            assert(out@ =~= before + config_gate_block(*g));
        }
        j = j + 1;
    }
    assert(configs@.subrange(0, configs.len() as int) =~= configs@);
    out.append("[agents.publication]\n");
    push_kv(&mut out, "support_matrix_enabled", bool_str(draft.support_matrix_enabled));
    push_kv(&mut out, "capability_matrix_enabled", bool_str(draft.capability_matrix_enabled));
    match &draft.capability_matrix_target {
        Some(t) => push_quoted(&mut out, "capability_matrix_target", t.as_str()),
        None => {},
    }
    out.append("\n");
    out.append("[agents.release]\n");
    push_quoted(&mut out, "docs_release_track", draft.docs_release_track.as_str());
    out.append("\n");
    out.append("[agents.scaffold]\n");
    push_quoted(&mut out, "onboarding_pack_prefix", draft.onboarding_pack_prefix.as_str());
    proof {
        assert(out@ =~= registry_entry_text(*draft));
    }
    out
}


/// Lines, each with `prefix` before it and a newline after it.
pub open spec fn prefixed_lines(items: Seq<Seq<char>>, prefix: Seq<char>) -> Seq<char>
    decreases items.len(),
{
    if items.len() == 0 {
        Seq::empty()
    } else {
        prefixed_lines(items.drop_last(), prefix) + prefix + items.last() + "\n"@
    }
}

fn push_prefixed_lines(out: &mut String, items: &Vec<String>, prefix: &str)
    ensures
        final(out)@ == old(out)@ + prefixed_lines(views(items@), prefix@),
{
    let ghost start = out@;
    let mut i: usize = 0;
    assert(views(items@).subrange(0, 0) =~= Seq::<Seq<char>>::empty());
    assert(out@ =~= start + prefixed_lines(views(items@).subrange(0, 0), prefix@));
    while i < items.len()
        invariant
            i <= items.len(),
            out@ == start + prefixed_lines(views(items@).subrange(0, i as int), prefix@),
        decreases items.len() - i,
    {
        out.append(prefix);
        out.append(items[i].as_str());
        out.append("\n");
        proof {
            let sub = views(items@).subrange(0, i + 1);
            assert(sub.drop_last() =~= views(items@).subrange(0, i as int));
            assert(sub.last() == items@[i as int]@);
        }
        i = i + 1;
    }
    assert(views(items@).subrange(0, items.len() as int) =~= views(items@));
}

/// `<label>:` then one `- <value>` line each, or `- (none)`.
pub open spec fn list_text(label: Seq<char>, values: Seq<Seq<char>>) -> Seq<char> {
    label + ":\n"@ + if values.len() == 0 {
        "- (none)\n"@
    } else {
        prefixed_lines(values, "- "@)
    }
}

fn push_list(out: &mut String, label: &str, values: &Vec<String>)
    ensures
        final(out)@ == old(out)@ + list_text(label@, views(values@)),
{
    out.append(label);
    out.append(":\n");
    if values.len() == 0 {
        out.append("- (none)\n");
    } else {
        push_prefixed_lines(out, values, "- ");
    }
}

pub open spec fn target_gate_summary(g: TargetGate) -> Seq<char> {
    g.capability_id@ + " => "@ + join(views(g.targets@), ","@)
}

pub open spec fn config_gate_summary(g: ConfigGate) -> Seq<char> {
    g.capability_id@ + ":"@ + g.config_key@ + match g.targets {
        Some(t) => " => "@ + join(views(t@), ","@),
        None => Seq::empty(),
    }
}

pub open spec fn target_summaries(gs: Seq<TargetGate>) -> Seq<Seq<char>> {
    gs.map_values(|g: TargetGate| target_gate_summary(g))
}

pub open spec fn config_summaries(gs: Seq<ConfigGate>) -> Seq<Seq<char>> {
    gs.map_values(|g: ConfigGate| config_gate_summary(g))
}

pub open spec fn gate_summaries_text(targets: Seq<TargetGate>, configs: Seq<ConfigGate>) -> Seq<char> {
    "target_gated_capabilities:\n"@ + (if targets.len() == 0 {
        "- (none)\n"@
    } else {
        prefixed_lines(target_summaries(targets), "- "@)
    }) + "config_gated_capabilities:\n"@ + if configs.len() == 0 {
        "- (none)\n"@
    } else {
        prefixed_lines(config_summaries(configs), "- "@)
    }
}

fn push_gate_summaries(out: &mut String, targets: &Vec<TargetGate>, configs: &Vec<ConfigGate>)
    ensures
        final(out)@ == old(out)@ + gate_summaries_text(targets@, configs@),
{
    let ghost start = out@;
    out.append("target_gated_capabilities:\n");
    if targets.len() == 0 {
        out.append("- (none)\n");
    } else {
        let mut lines: Vec<String> = Vec::new();
        let mut i: usize = 0;
        while i < targets.len()
            invariant
                i <= targets.len(),
                views(lines@) == target_summaries(targets@.subrange(0, i as int)),
            decreases targets.len() - i,
        {
            let mut line = cat2(targets[i].capability_id.as_str(), " => ");
            let joined = join_text(&targets[i].targets, ",");
            line.append(joined.as_str());
            let ghost before = views(lines@);
            lines.push(line);
            assert(views(lines@) =~= before.push(target_gate_summary(targets@[i as int])));
            assert(target_summaries(targets@.subrange(0, i + 1)) =~= target_summaries(targets@.subrange(0, i as int)).push(target_gate_summary(targets@[i as int])));
            i = i + 1;
        }
        assert(targets@.subrange(0, targets.len() as int) =~= targets@);
        push_prefixed_lines(out, &lines, "- ");
    }
    let ghost mid = out@;
    out.append("config_gated_capabilities:\n");
    if configs.len() == 0 {
        out.append("- (none)\n");
    } else {
        let mut lines: Vec<String> = Vec::new();
        let mut i: usize = 0;
        while i < configs.len()
            invariant
                i <= configs.len(),
                views(lines@) == config_summaries(configs@.subrange(0, i as int)),
            decreases configs.len() - i,
        {
            let g = &configs[i];
            let mut line = cat3(g.capability_id.as_str(), ":", g.config_key.as_str());
            match &g.targets {
                Some(t) => {
                    line.append(" => ");
                    let joined = join_text(t, ",");
                    line.append(joined.as_str());
                },
                None => {},
            }
            assert(line@ =~= config_gate_summary(*g));
            let ghost before = views(lines@);
            lines.push(line);
            assert(views(lines@) =~= before.push(config_gate_summary(configs@[i as int])));
            assert(config_summaries(configs@.subrange(0, i + 1)) =~= config_summaries(configs@.subrange(0, i as int)).push(config_gate_summary(configs@[i as int])));
            i = i + 1;
        }
        assert(configs@.subrange(0, configs.len() as int) =~= configs@);
        push_prefixed_lines(out, &lines, "- ");
    }
    assert(out@ =~= start + gate_summaries_text(targets@, configs@));
}

pub open spec fn maintenance_lines(m: ApprovalMaintenanceSummary) -> Seq<char> {
    "approval_maintenance_mode: "@ + m.mode_text() + "\n"@ + "approval_maintenance_section_sha256: "@ + m.section_sha256@
        + "\n"@ + mode_lines(m.mode)
}

fn push_line(out: &mut String, label: &str, value: &str)
    ensures
        final(out)@ == old(out)@ + label@ + value@ + "\n"@,
{
    out.append(label);
    out.append(value);
    out.append("\n");
}

pub open spec fn mode_lines(mode: ApprovalMaintenanceModeSummary) -> Seq<char> {
    match mode {
        ApprovalMaintenanceModeSummary::ReleaseWatchEnrolled {
            version_policy,
            dispatch_kind,
            dispatch_workflow,
            upstream,
            release_watch_sha256,
        } => "approval_release_watch_version_policy: "@ + version_policy@ + "\n"@ + "approval_release_watch_dispatch_kind: "@
            + dispatch_kind@ + "\n"@ + (match dispatch_workflow {
            Some(w) => "approval_release_watch_dispatch_workflow: "@ + w@ + "\n"@,
            None => Seq::empty(),
        }) + "approval_release_watch_upstream: "@ + upstream@ + "\n"@ + "approval_release_watch_sha256: "@
            + release_watch_sha256@ + "\n"@,
        ApprovalMaintenanceModeSummary::ExplicitlyDeferred { reason, follow_up, approved_scope, deferral_sha256 } =>
            "approval_maintenance_deferral_reason: "@ + reason@ + "\n"@ + "approval_maintenance_deferral_follow_up: "@
            + follow_up@ + "\n"@ + "approval_maintenance_deferral_scope: "@ + approved_scope@ + "\n"@
            + "approval_maintenance_deferral_sha256: "@ + deferral_sha256@ + "\n"@,
    }
}

fn push_mode(out: &mut String, mode: &ApprovalMaintenanceModeSummary)
    ensures
        final(out)@ == old(out)@ + mode_lines(*mode),
{
    let ghost start = out@;
    match mode {
        ApprovalMaintenanceModeSummary::ReleaseWatchEnrolled {
            version_policy,
            dispatch_kind,
            dispatch_workflow,
            upstream,
            release_watch_sha256,
        } => {
            push_line(out, "approval_release_watch_version_policy: ", version_policy.as_str());
            push_line(out, "approval_release_watch_dispatch_kind: ", dispatch_kind.as_str());
            match dispatch_workflow {
                Some(w) => push_line(out, "approval_release_watch_dispatch_workflow: ", w.as_str()),
                None => {},
            }
            push_line(out, "approval_release_watch_upstream: ", upstream.as_str());
            push_line(out, "approval_release_watch_sha256: ", release_watch_sha256.as_str());
            assert(out@ =~= start + mode_lines(*mode));
        },
        ApprovalMaintenanceModeSummary::ExplicitlyDeferred { reason, follow_up, approved_scope, deferral_sha256 } => {
            push_line(out, "approval_maintenance_deferral_reason: ", reason.as_str());
            push_line(out, "approval_maintenance_deferral_follow_up: ", follow_up.as_str());
            push_line(out, "approval_maintenance_deferral_scope: ", approved_scope.as_str());
            push_line(out, "approval_maintenance_deferral_sha256: ", deferral_sha256.as_str());
            assert(out@ =~= start + mode_lines(*mode));
        },
    }
}

fn push_maintenance(out: &mut String, m: &ApprovalMaintenanceSummary)
    ensures
        final(out)@ == old(out)@ + maintenance_lines(*m),
{
    let ghost start = out@;
    push_line(out, "approval_maintenance_mode: ", m.mode_name());
    push_line(out, "approval_maintenance_section_sha256: ", m.section_sha256.as_str());
    push_mode(out, &m.mode);
    assert(out@ =~= start + maintenance_lines(*m));
}

/// The `== INPUT SUMMARY ==` block a dry run prints for a draft.
pub open spec fn input_summary_text(d: DraftEntry) -> Seq<char> {
    "== INPUT SUMMARY ==\n"@ + "agent_id: "@ + d.agent_id@ + "\n"@ + "display_name: "@ + d.display_name@ + "\n"@
        + "crate_path: "@ + d.crate_path@ + "\n"@ + "backend_module: "@ + d.backend_module@ + "\n"@ + "manifest_root: "@
        + d.manifest_root@ + "\n"@ + "package_name: "@ + d.package_name@ + "\n"@
        + list_text("canonical_targets"@, views(d.canonical_targets@)) + "wrapper_coverage_binding_kind: "@
        + d.wrapper_coverage_binding_kind@ + "\n"@ + "wrapper_coverage_source_path: "@ + d.wrapper_coverage_source_path@
        + "\n"@ + list_text("always_on_capabilities"@, views(d.always_on_capabilities@))
        + gate_summaries_text(d.target_gated_capabilities@, d.config_gated_capabilities@)
        + list_text("backend_extensions"@, views(d.backend_extensions@)) + "support_matrix_enabled: "@
        + bool_text(d.support_matrix_enabled) + "\n"@ + "capability_matrix_enabled: "@ + bool_text(d.capability_matrix_enabled)
        + "\n"@ + (match d.capability_matrix_target {
        Some(t) => "capability_matrix_target: "@ + t@ + "\n"@,
        None => Seq::empty(),
    }) + "docs_release_track: "@ + d.docs_release_track@ + "\n"@ + "onboarding_pack_prefix: "@ + d.onboarding_pack_prefix@
        + "\n"@ + (match d.approval {
        Some((path, sha)) => "approval_artifact_path: "@ + path@ + "\n"@ + "approval_artifact_sha256: "@ + sha@ + "\n"@,
        None => Seq::empty(),
    }) + (match d.approval_maintenance {
        Some(m) => maintenance_lines(m),
        None => Seq::empty(),
    }) + "\n"@
}

/// The text `onboard-agent` prints to summarize a draft's input.
#[verifier::rlimit(60)]
pub fn write_input_summary(draft: &DraftEntry) -> (r: String)
    ensures
        r@ == input_summary_text(*draft),
{
    let mut out = to_owned("== INPUT SUMMARY ==\n");
    push_line(&mut out, "agent_id: ", draft.agent_id.as_str());
    push_line(&mut out, "display_name: ", draft.display_name.as_str());
    push_line(&mut out, "crate_path: ", draft.crate_path.as_str());
    push_line(&mut out, "backend_module: ", draft.backend_module.as_str());
    push_line(&mut out, "manifest_root: ", draft.manifest_root.as_str());
    push_line(&mut out, "package_name: ", draft.package_name.as_str());
    push_list(&mut out, "canonical_targets", &draft.canonical_targets);
    push_line(&mut out, "wrapper_coverage_binding_kind: ", draft.wrapper_coverage_binding_kind.as_str());
    push_line(&mut out, "wrapper_coverage_source_path: ", draft.wrapper_coverage_source_path.as_str());
    push_list(&mut out, "always_on_capabilities", &draft.always_on_capabilities);
    push_gate_summaries(&mut out, &draft.target_gated_capabilities, &draft.config_gated_capabilities);
    push_list(&mut out, "backend_extensions", &draft.backend_extensions);
    push_line(&mut out, "support_matrix_enabled: ", bool_str(draft.support_matrix_enabled));
    push_line(&mut out, "capability_matrix_enabled: ", bool_str(draft.capability_matrix_enabled));
    match &draft.capability_matrix_target {
        Some(t) => push_line(&mut out, "capability_matrix_target: ", t.as_str()),
        None => {},
    }
    push_line(&mut out, "docs_release_track: ", draft.docs_release_track.as_str());
    push_line(&mut out, "onboarding_pack_prefix: ", draft.onboarding_pack_prefix.as_str());
    match &draft.approval {
        Some((path, sha)) => {
            push_line(&mut out, "approval_artifact_path: ", path.as_str());
            push_line(&mut out, "approval_artifact_sha256: ", sha.as_str());
        },
        None => {},
    }
    match &draft.approval_maintenance {
        Some(m) => push_maintenance(&mut out, m),
        None => {},
    }
    out.append("\n");
    proof {
        assert(out@ =~= input_summary_text(*draft));
    }
    out
}


/// A fenced code block; a newline is added when the contents do not end in one.
pub open spec fn code_block_text(language: Seq<char>, contents: Seq<char>) -> Seq<char> {
    "```"@ + language + "\n"@ + contents + (if contents.len() > 0 && contents.last() == '\n' {
        Seq::empty()
    } else {
        "\n"@
    }) + "```\n"@
}

fn push_code_block(out: &mut String, language: &str, contents: &str)
    ensures
        final(out)@ == old(out)@ + code_block_text(language@, contents@),
{
    let ghost start = out@;
    out.append("```");
    out.append(language);
    out.append("\n");
    out.append(contents);
    let n = contents.unicode_len();
    let ends_in_newline = n > 0 && contents.get_char(n - 1) == '\n';
    if !ends_in_newline {
        out.append("\n");
    }
    out.append("```\n");
    assert(out@ =~= start + code_block_text(language@, contents@));
}

/// The registry entry preview block.
pub open spec fn registry_preview_text(preview: Seq<char>) -> Seq<char> {
    "== REGISTRY ENTRY PREVIEW ==\n"@ + "Path: crates/xtask/data/agent_registry.toml\n"@ + code_block_text("toml"@, preview) + "\n"@
}

pub fn write_registry_preview(preview: &str) -> (r: String)
    ensures
        r@ == registry_preview_text(preview@),
{
    let mut out = to_owned("== REGISTRY ENTRY PREVIEW ==\n");
    out.append("Path: crates/xtask/data/agent_registry.toml\n");
    push_code_block(&mut out, "toml", preview);
    out.append("\n");
    out
}

pub open spec fn preview_views(v: Seq<(String, Option<String>)>) -> Seq<(Seq<char>, Option<Seq<char>>)> {
    v.map_values(|e: (String, Option<String>)| (e.0@, match e.1 {
        Some(c) => Some(c@),
        None => None,
    }))
}

/// One file of a scaffold preview: its path, then its contents or `(empty file)`.
pub open spec fn scaffold_entry_text(language: Seq<char>, e: (Seq<char>, Option<Seq<char>>)) -> Seq<char> {
    "Path: "@ + e.0 + "\n"@ + match e.1 {
        Some(c) => code_block_text(language, c),
        None => "(empty file)\n"@,
    }
}

pub open spec fn scaffold_entries_text(language: Seq<char>, es: Seq<(Seq<char>, Option<Seq<char>>)>) -> Seq<char>
    decreases es.len(),
{
    if es.len() == 0 {
        Seq::empty()
    } else {
        scaffold_entries_text(language, es.drop_last()) + scaffold_entry_text(language, es.last())
    }
}

pub open spec fn scaffold_preview_text(header: Seq<char>, language: Seq<char>, es: Seq<(Seq<char>, Option<Seq<char>>)>) -> Seq<char> {
    header + "\n"@ + scaffold_entries_text(language, es) + "\n"@
}

fn scaffold_preview(header: &str, language: &str, previews: &Vec<(String, Option<String>)>) -> (r: String)
    ensures
        r@ == scaffold_preview_text(header@, language@, preview_views(previews@)),
{
    let ghost pv = preview_views(previews@);
    let mut out = cat2(header, "\n");
    let ghost head = out@;
    let mut i: usize = 0;
    assert(pv.subrange(0, 0) =~= Seq::<(Seq<char>, Option<Seq<char>>)>::empty());
    assert(out@ =~= head + scaffold_entries_text(language@, pv.subrange(0, 0)));
    while i < previews.len()
        invariant
            i <= previews.len(),
            pv == preview_views(previews@),
            pv.len() == previews.len(),
            out@ == head + scaffold_entries_text(language@, pv.subrange(0, i as int)),
        decreases previews.len() - i,
    {
        let ghost before = out@;
        out.append("Path: ");
        out.append(previews[i].0.as_str());
        out.append("\n");
        match &previews[i].1 {
            Some(contents) => push_code_block(&mut out, language, contents.as_str()),
            None => out.append("(empty file)\n"),
        }
        proof {
            assert(pv.subrange(0, i + 1).drop_last() =~= pv.subrange(0, i as int));
            assert(pv.subrange(0, i + 1).last() == pv[i as int]);
            assert(out@ =~= before + scaffold_entry_text(language@, pv[i as int]));
        }
        i = i + 1;
    }
    assert(pv.subrange(0, previews.len() as int) =~= pv);
    out.append("\n");
    out
}

/// The docs scaffold preview block.
pub fn write_docs_preview(previews: &Vec<(String, Option<String>)>) -> (r: String)
    ensures
        r@ == scaffold_preview_text("== DOCS SCAFFOLD PREVIEW =="@, "md"@, preview_views(previews@)),
{
    scaffold_preview("== DOCS SCAFFOLD PREVIEW ==", "md", previews)
}

/// The manifest root preview block.
pub fn write_manifest_preview(previews: &Vec<(String, Option<String>)>) -> (r: String)
    ensures
        r@ == scaffold_preview_text("== MANIFEST ROOT PREVIEW =="@, "json"@, preview_views(previews@)),
{
    scaffold_preview("== MANIFEST ROOT PREVIEW ==", "json", previews)
}

/// The lifecycle state preview block, given the state file's path and contents.
pub fn write_lifecycle_state_preview(path: &str, contents: &str) -> (r: String)
    ensures
        r@ == "== LIFECYCLE STATE PREVIEW ==\n"@ + "Path: "@ + path@ + "\n"@ + code_block_text("json"@, contents@) + "\n"@,
{
    let mut out = to_owned("== LIFECYCLE STATE PREVIEW ==\n");
    out.append("Path: ");
    out.append(path);
    out.append("\n");
    push_code_block(&mut out, "json", contents);
    out.append("\n");
    out
}

/// The release touchpoints block.
pub fn write_release_preview(lines: &Vec<String>) -> (r: String)
    ensures
        r@ == "== RELEASE/PUBLICATION TOUCHPOINTS ==\n"@ + prefixed_lines(views(lines@), ""@) + "\n"@,
{
    let mut out = to_owned("== RELEASE/PUBLICATION TOUCHPOINTS ==\n");
    push_prefixed_lines(&mut out, lines, "");
    out.append("\n");
    out
}

/// The manual follow-up block.
pub fn write_manual_follow_up(lines: &Vec<String>) -> (r: String)
    ensures
        r@ == "== MANUAL FOLLOW-UP ==\n"@ + prefixed_lines(views(lines@), "- "@) + "\n"@,
{
    let mut out = to_owned("== MANUAL FOLLOW-UP ==\n");
    push_prefixed_lines(&mut out, lines, "- ");
    out.append("\n");
    out
}

/// A new manifest root's `current.json`: its expected targets and no inputs.
pub open spec fn current_json_text(targets: Seq<Seq<char>>) -> Seq<char> {
    "{\n  \"expected_targets\": [\n"@ + join(targets.map_values(|t: Seq<char>| "    \""@ + t + "\""@), ",\n"@)
        + "\n  ],\n  \"inputs\": []\n}\n"@
}

pub open spec fn indented_targets(targets: Seq<Seq<char>>) -> Seq<Seq<char>> {
    targets.map_values(|t: Seq<char>| "    \""@ + t + "\""@)
}

pub fn render_current_json(draft: &DraftEntry) -> (r: String)
    ensures
        r@ == "{\n  \"expected_targets\": [\n"@ + join(indented_targets(views(draft.canonical_targets@)), ",\n"@)
            + "\n  ],\n  \"inputs\": []\n}\n"@,
{
    let targets = &draft.canonical_targets;
    let mut items: Vec<String> = Vec::new();
    let mut i: usize = 0;
    while i < targets.len()
        invariant
            i <= targets.len(),
            views(items@) == indented_targets(views(targets@).subrange(0, i as int)),
        decreases targets.len() - i,
    {
        let item = cat3("    \"", targets[i].as_str(), "\"");
        let ghost before = views(items@);
        items.push(item);
        proof {
            assert(views(items@) =~= before.push("    \""@ + targets@[i as int]@ + "\""@));
            assert(views(targets@)[i as int] == targets@[i as int]@);
            assert(indented_targets(views(targets@).subrange(0, i + 1)) =~= indented_targets(views(targets@).subrange(0, i as int)).push("    \""@ + views(targets@)[i as int] + "\""@));
        }
        i = i + 1;
    }
    assert(views(targets@).subrange(0, targets.len() as int) =~= views(targets@));
    let joined = join_text(&items, ",\n");
    let mut r = cat2("{\n  \"expected_targets\": [\n", joined.as_str());
    r.append("\n  ],\n  \"inputs\": []\n}\n");
    r
}

/// The files a new manifest root starts with.
pub fn build_manifest_preview(draft: &DraftEntry) -> (r: Vec<(String, Option<String>)>)
    ensures
        preview_views(r@) == seq![
            (draft.manifest_root@ + "/current.json"@, Some("{\n  \"expected_targets\": [\n"@ + join(indented_targets(views(draft.canonical_targets@)), ",\n"@)
                + "\n  ],\n  \"inputs\": []\n}\n"@)),
            (draft.manifest_root@ + "/versions/.gitkeep"@, None),
            (draft.manifest_root@ + "/pointers/latest_supported/.gitkeep"@, None),
            (draft.manifest_root@ + "/pointers/latest_validated/.gitkeep"@, None),
            (draft.manifest_root@ + "/reports/.gitkeep"@, None),
        ],
{
    let root = draft.manifest_root.as_str();
    let v = vec![
        (cat2(root, "/current.json"), Some(render_current_json(draft))),
        (cat2(root, "/versions/.gitkeep"), None),
        (cat2(root, "/pointers/latest_supported/.gitkeep"), None),
        (cat2(root, "/pointers/latest_validated/.gitkeep"), None),
        (cat2(root, "/reports/.gitkeep"), None),
    ];
    assert(preview_views(v@) =~= seq![
        (draft.manifest_root@ + "/current.json"@, Some("{\n  \"expected_targets\": [\n"@ + join(indented_targets(views(draft.canonical_targets@)), ",\n"@)
            + "\n  ],\n  \"inputs\": []\n}\n"@)),
        (draft.manifest_root@ + "/versions/.gitkeep"@, None),
        (draft.manifest_root@ + "/pointers/latest_supported/.gitkeep"@, None),
        (draft.manifest_root@ + "/pointers/latest_validated/.gitkeep"@, None),
        (draft.manifest_root@ + "/reports/.gitkeep"@, None),
    ]);
    v
}

/// The follow-up lines the approval's maintenance mode adds.
pub open spec fn maintenance_follow_up(m: Option<ApprovalMaintenanceSummary>) -> Seq<Seq<char>> {
    match m {
        None => Seq::empty(),
        Some(s) => match s.mode {
            ApprovalMaintenanceModeSummary::ReleaseWatchEnrolled { dispatch_kind, dispatch_workflow, .. } => seq![
                "Approval maintenance is already enrolled for release-watch handling ("@ + (match dispatch_workflow {
                    Some(w) => dispatch_kind@ + " via `"@ + w@ + "`"@,
                    None => dispatch_kind@,
                }) + "); keep that truth intact in downstream lanes."@,
            ],
            ApprovalMaintenanceModeSummary::ExplicitlyDeferred { reason, follow_up, .. } => seq![
                "Approval maintenance is explicitly deferred for this onboarding packet; do not write release-watch enrollment from this lane. Reason: "@
                    + reason@,
                "Deferred maintenance follow-up remains manual until closeout: "@ + follow_up@,
            ],
        },
    }
}

/// What a maintainer is left to do after onboarding: nothing once the proving run is closed,
/// else the maintenance notes and the runtime steps in order.
pub open spec fn manual_follow_up(d: DraftEntry, closed: bool) -> Seq<Seq<char>> {
    if closed {
        seq!["No open runtime follow-up remains; the proving run is closed."@]
    } else {
        maintenance_follow_up(d.approval_maintenance) + seq![
            "Next executable runtime step: run `cargo run -p xtask -- scaffold-wrapper-crate --agent "@ + d.agent_id@
                + " --write` to create the runtime-owned wrapper crate shell at `"@ + d.crate_path@
                + "`; `onboard-agent` does not create the wrapper crate."@,
            "Then materialize the bounded runtime packet with `runtime-follow-on --dry-run`."@,
            "Implement backend/runtime details in `"@ + d.crate_path@ + "` and `"@ + d.backend_module@ + "`."@,
            "Author wrapper coverage input at `"@ + d.wrapper_coverage_source_path@ + "` for binding kind `"@
                + d.wrapper_coverage_binding_kind@ + "`."@,
            "Populate committed runtime evidence only under `"@ + d.manifest_root@ + "/snapshots/**` and `"@
                + d.manifest_root@ + "/supplement/**`."@,
            "Complete `runtime-follow-on --write`; publication refresh and `make preflight` stay in the next lane."@,
        ]
    }
}

/// The manual follow-up lines; `closed` says whether a proving-run closeout exists.
pub fn build_manual_follow_up(draft: &DraftEntry, closed: bool) -> (r: Vec<String>)
    ensures
        views(r@) == manual_follow_up(*draft, closed),
{
    if closed {
        let v = vec![to_owned("No open runtime follow-up remains; the proving run is closed.")];
        assert(views(v@) =~= manual_follow_up(*draft, closed));
        return v;
    }
    let mut lines: Vec<String> = Vec::new();
    match &draft.approval_maintenance {
        Some(m) => match &m.mode {
            ApprovalMaintenanceModeSummary::ReleaseWatchEnrolled { dispatch_kind, dispatch_workflow, .. } => {
                let dispatch = match dispatch_workflow {
                    Some(w) => {
                        let mut d = cat3(dispatch_kind.as_str(), " via `", w.as_str());
                        d.append("`");
                        d
                    },
                    None => to_owned(dispatch_kind.as_str()),
                };
                let mut l = cat2("Approval maintenance is already enrolled for release-watch handling (", dispatch.as_str());
                l.append("); keep that truth intact in downstream lanes.");
                lines.push(l);
            },
            ApprovalMaintenanceModeSummary::ExplicitlyDeferred { reason, follow_up, .. } => {
                lines.push(cat2("Approval maintenance is explicitly deferred for this onboarding packet; do not write release-watch enrollment from this lane. Reason: ", reason.as_str()));
                lines.push(cat2("Deferred maintenance follow-up remains manual until closeout: ", follow_up.as_str()));
            },
        },
        None => {},
    }
    assert(views(lines@) =~= maintenance_follow_up(draft.approval_maintenance));
    let ghost head = views(lines@);
    let mut a = cat3("Next executable runtime step: run `cargo run -p xtask -- scaffold-wrapper-crate --agent ", draft.agent_id.as_str(), " --write` to create the runtime-owned wrapper crate shell at `");
    a.append(draft.crate_path.as_str());
    a.append("`; `onboard-agent` does not create the wrapper crate.");
    lines.push(a);
    lines.push(to_owned("Then materialize the bounded runtime packet with `runtime-follow-on --dry-run`."));
    let mut c = cat3("Implement backend/runtime details in `", draft.crate_path.as_str(), "` and `");
    c.append(draft.backend_module.as_str());
    c.append("`.");
    lines.push(c);
    let mut d = cat3("Author wrapper coverage input at `", draft.wrapper_coverage_source_path.as_str(), "` for binding kind `");
    d.append(draft.wrapper_coverage_binding_kind.as_str());
    d.append("`.");
    lines.push(d);
    let mut e = cat3("Populate committed runtime evidence only under `", draft.manifest_root.as_str(), "/snapshots/**` and `");
    e.append(draft.manifest_root.as_str());
    e.append("/supplement/**`.");
    lines.push(e);
    lines.push(to_owned("Complete `runtime-follow-on --write`; publication refresh and `make preflight` stay in the next lane."));
    assert(views(lines@) =~= manual_follow_up(*draft, closed));
    lines
}

} // verus!

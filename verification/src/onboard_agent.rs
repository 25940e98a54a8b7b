//! Reading `onboard-agent`'s repeated arguments: lists of ids, and the target-gated and
//! config-gated capability declarations.
use vstd::prelude::*;

use crate::checks::{first_failure, lemma_first_failure_step, lemma_first_failure_stops, lemma_first_failure_whole};
use crate::onboard_preview::{ConfigGate, TargetGate};
use crate::strset::{ascending, set_insert};
use crate::text::{cat2, cat3, is_blank, join, join_text, lemma_split_len, split, split_text, str_eq, to_owned, trim, trimmed, views};

verus! {

/// Why an onboarding run stopped.
#[derive(Debug)]
pub enum Error {
    Validation(String),
    Internal(String),
}

impl Error {
    pub open spec fn text(&self) -> Seq<char> {
        match self {
            Error::Validation(m) => m@,
            Error::Internal(m) => m@,
        }
    }

    /// The process exit code: 2 for a validation failure, 1 for an internal one.
    pub fn exit_code(&self) -> (r: i32)
        ensures
            r == (if self is Validation { 2i32 } else { 1i32 }),
    {
        match self {
            Error::Validation(_) => 2,
            Error::Internal(_) => 1,
        }
    }

    /// The text this error displays as.
    pub fn message(&self) -> (r: String)
        ensures
            r@ == self.text(),
    {
        match self {
            Error::Validation(m) => to_owned(m.as_str()),
            Error::Internal(m) => to_owned(m.as_str()),
        }
    }
}

/// `r` is the validation failure with text `m`.
pub open spec fn refused_with<T>(r: Result<T, Error>, m: Seq<char>) -> bool {
    r matches Err(Error::Validation(x)) && x@ == m
}

// ---------------------------------------------------------------------------------------------
// Id lists

pub open spec fn trims(values: Seq<Seq<char>>) -> Seq<Seq<char>> {
    values.map_values(|v: Seq<char>| trim(v))
}

/// One value of an id list, given the values before it.
pub open spec fn unique_value_step(flag: Seq<char>) -> spec_fn(Seq<Seq<char>>, Seq<char>) -> Result<(), Seq<char>> {
    |earlier: Seq<Seq<char>>, v: Seq<char>|
        if is_blank(v) {
            Err(flag + " must not contain empty values"@)
        } else if trims(earlier).contains(trim(v)) {
            Err(flag + " contains duplicate value `"@ + trim(v) + "`"@)
        } else {
            Ok(())
        }
}

/// An id list, trimmed, in the order given: each value must be non-blank and not repeat an
/// earlier one; a required list must not be empty.
pub open spec fn ordered_unique(flag: Seq<char>, values: Seq<Seq<char>>, require_non_empty: bool) -> Result<Seq<Seq<char>>, Seq<char>> {
    if require_non_empty && values.len() == 0 {
        Err(flag + " must be provided at least once"@)
    } else {
        match first_failure(values, unique_value_step(flag)) {
            Err(e) => Err(e),
            Ok(()) => Ok(trims(values)),
        }
    }
}

fn trimmed_contains(out: &Vec<String>, v: &str) -> (r: bool)
    ensures
        r == views(out@).contains(v@),
{
    let mut j: usize = 0;
    while j < out.len()
        invariant
            j <= out.len(),
            forall|k: int| 0 <= k < j ==> out@[k]@ != v@,
        decreases out.len() - j,
    {
        if str_eq(out[j].as_str(), v) {
            assert(views(out@)[j as int] == v@);
            return true;
        }
        j = j + 1;
    }
    proof {
        if views(out@).contains(v@) {
            let k = choose|k: int| 0 <= k < views(out@).len() && views(out@)[k] == v@;
            assert(out@[k]@ == v@);
        }
    }
    false
}

/// `normalize_ordered_unique`: an id list, trimmed, in the order given.
pub fn normalize_ordered_unique(values: Vec<String>, flag_name: &str, require_non_empty: bool) -> (r: Result<Vec<String>, Error>)
    ensures
        match ordered_unique(flag_name@, views(values@), require_non_empty) {
            Ok(v) => r matches Ok(out) && views(out@) == v,
            Err(e) => refused_with(r, e),
        },
{
    if require_non_empty && values.len() == 0 {
        return Err(Error::Validation(cat2(flag_name, " must be provided at least once")));
    }
    let ghost vs = views(values@);
    let ghost step = unique_value_step(flag_name@);
    let mut out: Vec<String> = Vec::new();
    let mut i: usize = 0;
    assert(vs.subrange(0, 0) =~= Seq::<Seq<char>>::empty());
    while i < values.len()
        invariant
            i <= values.len(),
            vs == views(values@),
            vs.len() == values.len(),
            step == unique_value_step(flag_name@),
            first_failure(vs.subrange(0, i as int), step) == Ok::<(), Seq<char>>(()),
            views(out@) == trims(vs.subrange(0, i as int)),
        decreases values.len() - i,
    {
        proof {
            lemma_first_failure_step(vs, step, i as int);
            assert(vs[i as int] == values@[i as int]@);
        }
        let t = trimmed(values[i].as_str());
        if t.as_str().unicode_len() == 0 {
            proof {
                lemma_first_failure_stops(vs, step, i as int);
            }
            return Err(Error::Validation(cat2(flag_name, " must not contain empty values")));
        }
        if trimmed_contains(&out, t.as_str()) {
            proof {
                lemma_first_failure_stops(vs, step, i as int);
            }
            let mut m = cat2(flag_name, " contains duplicate value `");
            m.append(t.as_str());
            m.append("`");
            return Err(Error::Validation(m));
        }
        let ghost before = views(out@);
        out.push(t);
        proof {
            assert(views(out@) =~= before.push(trim(vs[i as int])));
            assert(trims(vs.subrange(0, i + 1)) =~= trims(vs.subrange(0, i as int)).push(trim(vs[i as int])));
        }
        i = i + 1;
    }
    proof {
        lemma_first_failure_whole(vs, step);
        assert(vs.subrange(0, values.len() as int) =~= vs);
    }
    Ok(out)
}

/// `normalize_sorted_unique`: an id list, trimmed, then sorted (ascending; its values are
/// already distinct).
pub fn normalize_sorted_unique(values: Vec<String>, flag_name: &str) -> (r: Result<Vec<String>, Error>)
    ensures
        match ordered_unique(flag_name@, views(values@), false) {
            Ok(v) => r matches Ok(out) && ascending(views(out@)) && views(out@).to_set() == v.to_set(),
            Err(e) => refused_with(r, e),
        },
{
    let ordered = normalize_ordered_unique(values, flag_name, false)?;
    let mut out: Vec<String> = Vec::new();
    let mut i: usize = 0;
    let ghost ov = views(ordered@);
    assert(views(out@).to_set() =~= ov.subrange(0, 0).to_set());
    while i < ordered.len()
        invariant
            i <= ordered.len(),
            ov == views(ordered@),
            ascending(views(out@)),
            views(out@).to_set() == ov.subrange(0, i as int).to_set(),
        decreases ordered.len() - i,
    {
        proof {
            assert(ov.subrange(0, i + 1) =~= ov.subrange(0, i as int).push(ov[i as int]));
            ov.subrange(0, i as int).lemma_push_to_set_commute(ov[i as int]);
        }
        set_insert(&mut out, to_owned(ordered[i].as_str()));
        i = i + 1;
    }
    assert(ov.subrange(0, ordered.len() as int) =~= ov);
    Ok(out)
}

// ---------------------------------------------------------------------------------------------
// Gate declarations

/// The first index at or after `k` where `s` holds `c`.
pub open spec fn index_from(s: Seq<char>, c: char, k: int) -> Option<int>
    decreases s.len() - k,
{
    if k < 0 || k >= s.len() {
        None
    } else if s[k] == c {
        Some(k)
    } else {
        index_from(s, c, k + 1)
    }
}

/// `s.split_once(c)`.
pub open spec fn split_once(s: Seq<char>, c: char) -> Option<(Seq<char>, Seq<char>)> {
    match index_from(s, c, 0) {
        Some(i) => Some((s.subrange(0, i), s.subrange(i + 1, s.len() as int))),
        None => None,
    }
}

proof fn lemma_index_from_bounds(s: Seq<char>, c: char, k: int)
    ensures
        index_from(s, c, k) matches Some(i) ==> k <= i < s.len() && s[i] == c,
    decreases s.len() - k,
{
    if 0 <= k < s.len() && s[k] != c {
        lemma_index_from_bounds(s, c, k + 1);
    }
}

/// `s.split_once(c)` on text.
pub(crate) fn split_once_text(s: &str, c: char) -> (r: Option<(String, String)>)
    ensures
        match split_once(s@, c) {
            Some((a, b)) => r matches Some(p) && p.0@ == a && p.1@ == b,
            None => r is None,
        },
{
    let n = s.unicode_len();
    let mut i: usize = 0;
    while i < n
        invariant
            n == s@.len(),
            i <= n,
            index_from(s@, c, 0) == index_from(s@, c, i as int),
        decreases n - i,
    {
        if s.get_char(i) == c {
            let a = String::from_str(s.substring_char(0, i));
            let b = String::from_str(s.substring_char(i + 1, n));
            return Some((a, b));
        }
        i = i + 1;
    }
    None
}

/// A gate's capability id or config key, trimmed; it must not be blank.
pub open spec fn gate_scalar(value: Seq<char>, flag: Seq<char>, original: Seq<char>) -> Result<Seq<char>, Seq<char>> {
    if is_blank(value) {
        Err(flag + " contains an empty field in `"@ + original + "`"@)
    } else {
        Ok(trim(value))
    }
}

pub fn validate_gate_scalar(value: &str, flag_name: &str, original: &str) -> (r: Result<String, Error>)
    ensures
        match gate_scalar(value@, flag_name@, original@) {
            Ok(v) => r matches Ok(s) && s@ == v,
            Err(e) => refused_with(r, e),
        },
{
    let t = trimmed(value);
    if t.as_str().unicode_len() == 0 {
        let mut m = cat3(flag_name, " contains an empty field in `", original);
        m.append("`");
        return Err(Error::Validation(m));
    }
    Ok(t)
}

/// The non-blank pieces, trimmed.
pub open spec fn nonempty_trimmed(parts: Seq<Seq<char>>) -> Seq<Seq<char>>
    decreases parts.len(),
{
    if parts.len() == 0 {
        Seq::empty()
    } else if trim(parts.last()).len() == 0 {
        nonempty_trimmed(parts.drop_last())
    } else {
        nonempty_trimmed(parts.drop_last()).push(trim(parts.last()))
    }
}

pub open spec fn gate_target_step(flag: Seq<char>, original: Seq<char>, canonical: Seq<Seq<char>>) -> spec_fn(Seq<Seq<char>>, Seq<char>) -> Result<(), Seq<char>> {
    |earlier: Seq<Seq<char>>, t: Seq<char>|
        if earlier.contains(t) {
            Err(flag + " contains duplicate target `"@ + t + "` in `"@ + original + "`"@)
        } else if !canonical.contains(t) {
            Err(flag + " target `"@ + t + "` is not present in --canonical-target"@)
        } else {
            Ok(())
        }
}

/// A gate's comma-separated targets: the non-blank ones, trimmed, in the order written; there
/// must be one, none may repeat, and each must be a canonical target.
pub open spec fn gate_targets(raw: Seq<char>, flag: Seq<char>, original: Seq<char>, canonical: Seq<Seq<char>>) -> Result<Seq<Seq<char>>, Seq<char>> {
    let ts = nonempty_trimmed(split(raw, ','));
    if ts.len() == 0 {
        Err(flag + " must declare at least one target in `"@ + original + "`"@)
    } else {
        match first_failure(ts, gate_target_step(flag, original, canonical)) {
            Err(e) => Err(e),
            Ok(()) => Ok(ts),
        }
    }
}

fn nonempty_trimmed_pieces(raw: &str) -> (r: Vec<String>)
    ensures
        views(r@) == nonempty_trimmed(split(raw@, ',')),
{
    let parts = split_text(raw, ',');
    let ghost sp = split(raw@, ',');
    let mut out: Vec<String> = Vec::new();
    let mut i: usize = 0;
    assert(sp.subrange(0, 0) =~= Seq::<Seq<char>>::empty());
    while i < parts.len()
        invariant
            i <= parts.len(),
            sp == split(raw@, ','),
            parts.len() == sp.len(),
            forall|k: int| 0 <= k < parts.len() ==> #[trigger] parts[k]@ == sp[k],
            views(out@) == nonempty_trimmed(sp.subrange(0, i as int)),
        decreases parts.len() - i,
    {
        proof {
            assert(sp.subrange(0, i + 1).drop_last() =~= sp.subrange(0, i as int));
            assert(sp.subrange(0, i + 1).last() == parts[i as int]@);
        }
        let t = trimmed(parts[i].as_str());
        if t.as_str().unicode_len() > 0 {
            let ghost before = views(out@);
            out.push(t);
            assert(views(out@) =~= before.push(trim(sp[i as int])));
        }
        i = i + 1;
    }
    assert(sp.subrange(0, parts.len() as int) =~= sp);
    out
}

fn seq_contains(items: &Vec<String>, end: usize, v: &str) -> (r: bool)
    requires
        end <= items.len(),
    ensures
        r == views(items@).subrange(0, end as int).contains(v@),
{
    let ghost earlier = views(items@).subrange(0, end as int);
    let mut j: usize = 0;
    while j < end
        invariant
            end <= items.len(),
            j <= end,
            earlier == views(items@).subrange(0, end as int),
            forall|k: int| 0 <= k < j ==> earlier[k] != v@,
        decreases end - j,
    {
        if str_eq(items[j].as_str(), v) {
            assert(earlier[j as int] == v@);
            return true;
        }
        j = j + 1;
    }
    false
}

fn all_contains(items: &Vec<String>, v: &str) -> (r: bool)
    ensures
        r == views(items@).contains(v@),
{
    let r = seq_contains(items, items.len(), v);
    assert(views(items@).subrange(0, items.len() as int) =~= views(items@));
    r
}

/// `parse_gate_targets`: a gate's targets in the order written.
pub fn parse_gate_targets(raw_targets: &str, flag_name: &str, original: &str, canonical_targets: &Vec<String>) -> (r: Result<Vec<String>, Error>)
    ensures
        match gate_targets(raw_targets@, flag_name@, original@, views(canonical_targets@)) {
            Ok(v) => r matches Ok(out) && views(out@) == v,
            Err(e) => refused_with(r, e),
        },
{
    let targets = nonempty_trimmed_pieces(raw_targets);
    if targets.len() == 0 {
        let mut m = cat3(flag_name, " must declare at least one target in `", original);
        m.append("`");
        return Err(Error::Validation(m));
    }
    let ghost ts = views(targets@);
    let ghost step = gate_target_step(flag_name@, original@, views(canonical_targets@));
    let mut i: usize = 0;
    assert(ts.subrange(0, 0) =~= Seq::<Seq<char>>::empty());
    while i < targets.len()
        invariant
            i <= targets.len(),
            ts == views(targets@),
            ts == nonempty_trimmed(split(raw_targets@, ',')),
            ts.len() == targets.len(),
            step == gate_target_step(flag_name@, original@, views(canonical_targets@)),
            first_failure(ts.subrange(0, i as int), step) == Ok::<(), Seq<char>>(()),
        decreases targets.len() - i,
    {
        proof {
            lemma_first_failure_step(ts, step, i as int);
            assert(ts[i as int] == targets@[i as int]@);
        }
        let t = targets[i].as_str();
        if seq_contains(&targets, i, t) {
            proof {
                lemma_first_failure_stops(ts, step, i as int);
            }
            let mut m = cat3(flag_name, " contains duplicate target `", t);
            m.append("` in `");
            m.append(original);
            m.append("`");
            assert(step(ts.subrange(0, i as int), ts[i as int]) == Err::<(), Seq<char>>(m@));
            return Err(Error::Validation(m));
        }
        if !all_contains(canonical_targets, t) {
            proof {
                lemma_first_failure_stops(ts, step, i as int);
            }
            let mut m = cat3(flag_name, " target `", t);
            m.append("` is not present in --canonical-target");
            assert(step(ts.subrange(0, i as int), ts[i as int]) == Err::<(), Seq<char>>(m@));
            return Err(Error::Validation(m));
        }
        i = i + 1;
    }
    proof {
        lemma_first_failure_whole(ts, step);
    }
    Ok(targets)
}

/// Whether canonical position `k` is where `ts` places a target: the target is one of `ts`
/// and `k` is its last position among the canonical targets (`canonical_index` keeps the last).
pub open spec fn placed_at(canonical: Seq<Seq<char>>, ts: Seq<Seq<char>>, k: int) -> bool {
    ts.contains(canonical[k]) && forall|j: int| k < j < canonical.len() ==> canonical[j] != canonical[k]
}

/// `ts` sorted by canonical position (`sort_by_key(|t| canonical_index[t])`): the canonical
/// targets of the first `n` positions that `ts` places there, in canonical order.
pub open spec fn canonical_order(canonical: Seq<Seq<char>>, ts: Seq<Seq<char>>, n: int) -> Seq<Seq<char>>
    decreases n,
{
    if n <= 0 {
        Seq::empty()
    } else if placed_at(canonical, ts, n - 1) {
        canonical_order(canonical, ts, n - 1).push(canonical[n - 1])
    } else {
        canonical_order(canonical, ts, n - 1)
    }
}

pub open spec fn in_canonical_order(canonical: Seq<Seq<char>>, ts: Seq<Seq<char>>) -> Seq<Seq<char>> {
    canonical_order(canonical, ts, canonical.len() as int)
}

fn later_occurrence(canonical: &Vec<String>, k: usize) -> (r: bool)
    requires
        k < canonical.len(),
    ensures
        r == exists|j: int| k < j < canonical.len() && #[trigger] canonical@[j]@ == canonical@[k as int]@,
{
    let mut j: usize = k + 1;
    while j < canonical.len()
        invariant
            k < j <= canonical.len(),
            forall|m: int| k < m < j ==> #[trigger] canonical@[m]@ != canonical@[k as int]@,
        decreases canonical.len() - j,
    {
        if str_eq(canonical[j].as_str(), canonical[k].as_str()) {
            return true;
        }
        j = j + 1;
    }
    false
}

/// `ts` in canonical order.
fn sort_by_canonical(ts: &Vec<String>, canonical: &Vec<String>) -> (r: Vec<String>)
    ensures
        views(r@) == in_canonical_order(views(canonical@), views(ts@)),
{
    let ghost cv = views(canonical@);
    let mut out: Vec<String> = Vec::new();
    let mut k: usize = 0;
    while k < canonical.len()
        invariant
            k <= canonical.len(),
            cv == views(canonical@),
            cv.len() == canonical.len(),
            views(out@) == canonical_order(cv, views(ts@), k as int),
        decreases canonical.len() - k,
    {
        let t = canonical[k].as_str();
        let keep = all_contains(ts, t) && !later_occurrence(canonical, k);
        proof {
            assert(cv[k as int] == t@);
            if keep != placed_at(cv, views(ts@), k as int) {
                if keep {
                    assert forall|j: int| k < j < cv.len() implies cv[j] != cv[k as int] by {
                        assert(cv[j] == canonical@[j]@);
                    }
                } else if views(ts@).contains(t@) {
                    let j = choose|j: int| k < j < canonical.len() && #[trigger] canonical@[j]@ == canonical@[k as int]@;
                    assert(cv[j] == canonical@[j]@);
                }
            }
        }
        if keep {
            let ghost before = views(out@);
            out.push(to_owned(t));
            assert(views(out@) =~= before.push(cv[k as int]));
        }
        k = k + 1;
    }
    out
}

pub type GateView = (Seq<char>, Seq<Seq<char>>);

pub open spec fn target_gate_view(g: TargetGate) -> GateView {
    (g.capability_id@, views(g.targets@))
}

/// One `--target-gated-capability` value: its capability id and targets as written, or why it
/// is refused.
pub open spec fn target_gate_parts(v: Seq<char>, flag: Seq<char>, canonical: Seq<Seq<char>>) -> Result<GateView, Seq<char>> {
    match split_once(v, ':') {
        None => Err(flag + " must be formatted as <capability-id>:<target>[,<target>...] (got `"@ + v + "`)"@),
        Some((cap, raw)) => match gate_scalar(cap, flag, v) {
            Err(e) => Err(e),
            Ok(c) => match gate_targets(raw, flag, v, canonical) {
                Err(e) => Err(e),
                Ok(ts) => Ok((c, ts)),
            },
        },
    }
}

/// The target gates in the order given, each with its targets in canonical order, and the gates
/// as written (for the duplicate check), or the first value that is refused.
pub open spec fn target_gates_walk(values: Seq<Seq<char>>, flag: Seq<char>, canonical: Seq<Seq<char>>) -> Result<(Seq<GateView>, Seq<GateView>), Seq<char>>
    decreases values.len(),
{
    if values.len() == 0 {
        Ok((Seq::empty(), Seq::empty()))
    } else {
        match target_gates_walk(values.drop_last(), flag, canonical) {
            Err(e) => Err(e),
            Ok((out, seen)) => {
                let v = values.last();
                match target_gate_parts(v, flag, canonical) {
                    Err(e) => Err(e),
                    Ok(g) => if seen.contains(g) {
                        Err(flag + " contains duplicate entry `"@ + v + "`"@)
                    } else {
                        Ok((out.push((g.0, in_canonical_order(canonical, g.1))), seen.push(g)))
                    },
                }
            },
        }
    }
}

proof fn lemma_target_walk_prefix_err(values: Seq<Seq<char>>, flag: Seq<char>, canonical: Seq<Seq<char>>, i: int)
    requires
        0 <= i <= values.len(),
        target_gates_walk(values.subrange(0, i), flag, canonical) is Err,
    ensures
        target_gates_walk(values, flag, canonical) == target_gates_walk(values.subrange(0, i), flag, canonical),
    decreases values.len() - i,
{
    if i < values.len() {
        assert(values.subrange(0, i + 1).drop_last() =~= values.subrange(0, i));
        lemma_target_walk_prefix_err(values, flag, canonical, i + 1);
    } else {
        assert(values.subrange(0, i) =~= values);
    }
}

fn gate_seen(seen: &Vec<(String, Vec<String>)>, cap: &str, targets: &Vec<String>) -> (r: bool)
    ensures
        r == seen@.map_values(|g: (String, Vec<String>)| (g.0@, views(g.1@))).contains((cap@, views(targets@))),
{
    let ghost sv = seen@.map_values(|g: (String, Vec<String>)| (g.0@, views(g.1@)));
    let mut j: usize = 0;
    while j < seen.len()
        invariant
            j <= seen.len(),
            sv == seen@.map_values(|g: (String, Vec<String>)| (g.0@, views(g.1@))),
            forall|k: int| 0 <= k < j ==> sv[k] != (cap@, views(targets@)),
        decreases seen.len() - j,
    {
        assert(sv[j as int] == (seen@[j as int].0@, views(seen@[j as int].1@)));
        if str_eq(seen[j].0.as_str(), cap) && same_list(&seen[j].1, targets) {
            return true;
        }
        j = j + 1;
    }
    false
}

fn same_list(a: &Vec<String>, b: &Vec<String>) -> (r: bool)
    ensures
        r == (views(a@) == views(b@)),
{
    if a.len() != b.len() {
        assert(views(a@).len() != views(b@).len());
        return false;
    }
    let mut i: usize = 0;
    while i < a.len()
        invariant
            a.len() == b.len(),
            i <= a.len(),
            forall|k: int| 0 <= k < i ==> #[trigger] a@[k]@ == b@[k]@,
        decreases a.len() - i,
    {
        if !str_eq(a[i].as_str(), b[i].as_str()) {
            assert(views(a@)[i as int] != views(b@)[i as int]);
            return false;
        }
        i = i + 1;
    }
    assert(views(a@) =~= views(b@));
    true
}

fn copy_list(v: &Vec<String>) -> (r: Vec<String>)
    ensures
        views(r@) == views(v@),
{
    let mut out: Vec<String> = Vec::new();
    let mut i: usize = 0;
    while i < v.len()
        invariant
            i <= v.len(),
            views(out@) == views(v@).subrange(0, i as int),
        decreases v.len() - i,
    {
        let ghost before = views(out@);
        out.push(to_owned(v[i].as_str()));
        assert(views(v@)[i as int] == v@[i as int]@);
        assert(views(out@) =~= before.push(v@[i as int]@));
        assert(views(out@) =~= views(v@).subrange(0, i + 1));
        i = i + 1;
    }
    assert(views(v@).subrange(0, v.len() as int) =~= views(v@));
    out
}

/// `parse_target_gates`: each `<capability-id>:<target>[,<target>...]` value, in the order
/// given, with its targets in canonical order; no value may repeat another's id and targets.
pub fn parse_target_gates(values: Vec<String>, flag_name: &str, canonical_targets: &Vec<String>) -> (r: Result<Vec<TargetGate>, Error>)
    ensures
        match target_gates_walk(views(values@), flag_name@, views(canonical_targets@)) {
            Ok((gates, _)) => r matches Ok(out) && out@.map_values(|g: TargetGate| target_gate_view(g)) == gates,
            Err(e) => refused_with(r, e),
        },
{
    let ghost vs = views(values@);
    let ghost cv = views(canonical_targets@);
    let mut out: Vec<TargetGate> = Vec::new();
    let mut seen: Vec<(String, Vec<String>)> = Vec::new();
    let mut i: usize = 0;
    assert(vs.subrange(0, 0) =~= Seq::<Seq<char>>::empty());
    assert(out@.map_values(|g: TargetGate| target_gate_view(g)) =~= Seq::<GateView>::empty());
    assert(seen@.map_values(|g: (String, Vec<String>)| (g.0@, views(g.1@))) =~= Seq::<GateView>::empty());
    while i < values.len()
        invariant
            i <= values.len(),
            vs == views(values@),
            vs.len() == values.len(),
            cv == views(canonical_targets@),
            target_gates_walk(vs.subrange(0, i as int), flag_name@, cv) == Ok::<(Seq<GateView>, Seq<GateView>), Seq<char>>((
                out@.map_values(|g: TargetGate| target_gate_view(g)),
                seen@.map_values(|g: (String, Vec<String>)| (g.0@, views(g.1@))),
            )),
        decreases values.len() - i,
    {
        let ghost pre = vs.subrange(0, i as int);
        proof {
            assert(vs.subrange(0, i + 1).drop_last() =~= pre);
            assert(vs.subrange(0, i + 1).last() == values@[i as int]@);
        }
        let value = values[i].as_str();
        let (cap_raw, raw_targets) = match split_once_text(value, ':') {
            Some(p) => p,
            None => {
                proof {
                    lemma_target_walk_prefix_err(vs, flag_name@, cv, i + 1);
                }
                let mut m = cat2(flag_name, " must be formatted as <capability-id>:<target>[,<target>...] (got `");
                m.append(value);
                m.append("`)");
                return Err(Error::Validation(m));
            },
        };
        let capability_id = match validate_gate_scalar(cap_raw.as_str(), flag_name, value) {
            Ok(c) => c,
            Err(e) => {
                proof {
                    lemma_target_walk_prefix_err(vs, flag_name@, cv, i + 1);
                }
                return Err(e);
            },
        };
        let targets = match parse_gate_targets(raw_targets.as_str(), flag_name, value, canonical_targets) {
            Ok(t) => t,
            Err(e) => {
                proof {
                    lemma_target_walk_prefix_err(vs, flag_name@, cv, i + 1);
                }
                return Err(e);
            },
        };
        if gate_seen(&seen, capability_id.as_str(), &targets) {
            proof {
                lemma_target_walk_prefix_err(vs, flag_name@, cv, i + 1);
            }
            let mut m = cat2(flag_name, " contains duplicate entry `");
            m.append(value);
            m.append("`");
            return Err(Error::Validation(m));
        }
        let sorted = sort_by_canonical(&targets, canonical_targets);
        let ghost seen_before = seen@;
        let ghost out_before = out@;
        seen.push((to_owned(capability_id.as_str()), copy_list(&targets)));
        out.push(TargetGate { capability_id, targets: sorted });
        proof {
            assert(seen@.map_values(|g: (String, Vec<String>)| (g.0@, views(g.1@))) =~= seen_before.map_values(|g: (String, Vec<String>)| (g.0@, views(g.1@))).push((capability_id@, views(targets@))));
            assert(out@.map_values(|g: TargetGate| target_gate_view(g)) =~= out_before.map_values(|g: TargetGate| target_gate_view(g)).push(target_gate_view(out@[out@.len() - 1])));
        }
        i = i + 1;
    }
    assert(vs.subrange(0, values.len() as int) =~= vs);
    Ok(out)
}

pub type ConfigGateView = (Seq<char>, Seq<char>, Option<Seq<Seq<char>>>);

pub open spec fn opt_views(t: Option<Vec<String>>) -> Option<Seq<Seq<char>>> {
    match t {
        Some(t) => Some(views(t@)),
        None => None,
    }
}

pub open spec fn config_gate_view(g: ConfigGate) -> ConfigGateView {
    (g.capability_id@, g.config_key@, opt_views(g.targets))
}

/// `value.splitn(3, ':')`: the first piece, and the second and third when there are more.
pub open spec fn splitn3(v: Seq<char>) -> (Seq<char>, Option<Seq<char>>, Option<Seq<char>>) {
    match split_once(v, ':') {
        None => (v, None, None),
        Some((a, rest)) => match split_once(rest, ':') {
            None => (a, Some(rest), None),
            Some((b, c)) => (a, Some(b), Some(c)),
        },
    }
}

/// One `--config-gated-capability` value: capability id, config key, and the targets as written
/// when a third part is given, or why it is refused.
pub open spec fn config_gate_parts(v: Seq<char>, flag: Seq<char>, canonical: Seq<Seq<char>>) -> Result<(Seq<char>, Seq<char>, Option<Seq<Seq<char>>>), Seq<char>> {
    let (p0, p1, p2) = splitn3(v);
    match gate_scalar(p0, flag, v) {
        Err(e) => Err(e),
        Ok(cap) => match gate_scalar(match p1 { Some(x) => x, None => Seq::empty() }, flag, v) {
            Err(e) => Err(e),
            Ok(key) => match p2 {
                None => Ok((cap, key, None)),
                Some(raw) => match gate_targets(raw, flag, v, canonical) {
                    Err(e) => Err(e),
                    Ok(ts) => Ok((cap, key, Some(ts))),
                },
            },
        },
    }
}

/// The text a config gate is deduplicated by: id, key, and its canonical-order targets.
pub open spec fn config_signature(g: ConfigGateView) -> Seq<char> {
    g.0 + ":"@ + g.1 + ":"@ + match g.2 {
        Some(ts) => join(ts, ","@),
        None => Seq::empty(),
    }
}

/// The config gates in the order given, with targets in canonical order, and the signatures
/// seen, or the first value that is refused.
pub open spec fn config_gates_walk(values: Seq<Seq<char>>, flag: Seq<char>, canonical: Seq<Seq<char>>) -> Result<(Seq<ConfigGateView>, Seq<Seq<char>>), Seq<char>>
    decreases values.len(),
{
    if values.len() == 0 {
        Ok((Seq::empty(), Seq::empty()))
    } else {
        match config_gates_walk(values.drop_last(), flag, canonical) {
            Err(e) => Err(e),
            Ok((out, seen)) => {
                let v = values.last();
                match config_gate_parts(v, flag, canonical) {
                    Err(e) => Err(e),
                    Ok(p) => {
                        let g = (p.0, p.1, match p.2 { Some(ts) => Some(in_canonical_order(canonical, ts)), None => None });
                        if seen.contains(config_signature(g)) {
                            Err(flag + " contains duplicate entry `"@ + v + "`"@)
                        } else {
                            Ok((out.push(g), seen.push(config_signature(g))))
                        }
                    },
                }
            },
        }
    }
}

proof fn lemma_config_walk_prefix_err(values: Seq<Seq<char>>, flag: Seq<char>, canonical: Seq<Seq<char>>, i: int)
    requires
        0 <= i <= values.len(),
        config_gates_walk(values.subrange(0, i), flag, canonical) is Err,
    ensures
        config_gates_walk(values, flag, canonical) == config_gates_walk(values.subrange(0, i), flag, canonical),
    decreases values.len() - i,
{
    if i < values.len() {
        assert(values.subrange(0, i + 1).drop_last() =~= values.subrange(0, i));
        lemma_config_walk_prefix_err(values, flag, canonical, i + 1);
    } else {
        assert(values.subrange(0, i) =~= values);
    }
}

fn splitn3_text(v: &str) -> (r: (String, Option<String>, Option<String>))
    ensures
        (r.0@, match r.1 { Some(x) => Some(x@), None => None }, match r.2 { Some(x) => Some(x@), None => None }) == splitn3(v@),
{
    match split_once_text(v, ':') {
        None => (to_owned(v), None, None),
        Some((a, rest)) => match split_once_text(rest.as_str(), ':') {
            None => (a, Some(rest), None),
            Some((b, c)) => (a, Some(b), Some(c)),
        },
    }
}

/// `parse_config_gates`: each `<capability-id>:<config-key>[:<target>[,<target>...]]` value,
/// in the order given, with its targets in canonical order; no two may share a signature.
pub fn parse_config_gates(values: Vec<String>, flag_name: &str, canonical_targets: &Vec<String>) -> (r: Result<Vec<ConfigGate>, Error>)
    ensures
        match config_gates_walk(views(values@), flag_name@, views(canonical_targets@)) {
            Ok((gates, _)) => r matches Ok(out) && out@.map_values(|g: ConfigGate| config_gate_view(g)) == gates,
            Err(e) => refused_with(r, e),
        },
{
    let ghost vs = views(values@);
    let ghost cv = views(canonical_targets@);
    let mut out: Vec<ConfigGate> = Vec::new();
    let mut seen: Vec<String> = Vec::new();
    let mut i: usize = 0;
    assert(vs.subrange(0, 0) =~= Seq::<Seq<char>>::empty());
    assert(out@.map_values(|g: ConfigGate| config_gate_view(g)) =~= Seq::<ConfigGateView>::empty());
    assert(views(seen@) =~= Seq::<Seq<char>>::empty());
    while i < values.len()
        invariant
            i <= values.len(),
            vs == views(values@),
            vs.len() == values.len(),
            cv == views(canonical_targets@),
            config_gates_walk(vs.subrange(0, i as int), flag_name@, cv) == Ok::<(Seq<ConfigGateView>, Seq<Seq<char>>), Seq<char>>((
                out@.map_values(|g: ConfigGate| config_gate_view(g)),
                views(seen@),
            )),
        decreases values.len() - i,
    {
        let ghost pre = vs.subrange(0, i as int);
        proof {
            assert(vs.subrange(0, i + 1).drop_last() =~= pre);
            assert(vs.subrange(0, i + 1).last() == values@[i as int]@);
        }
        let value = values[i].as_str();
        let (p0, p1, p2) = splitn3_text(value);
        let capability_id = match validate_gate_scalar(p0.as_str(), flag_name, value) {
            Ok(c) => c,
            Err(e) => {
                proof { lemma_config_walk_prefix_err(vs, flag_name@, cv, i + 1); }
                return Err(e);
            },
        };
        let second = match p1 {
            Some(x) => x,
            None => String::new(),
        };
        proof {
            reveal_strlit("");
        }
        let config_key = match validate_gate_scalar(second.as_str(), flag_name, value) {
            Ok(c) => c,
            Err(e) => {
                proof { lemma_config_walk_prefix_err(vs, flag_name@, cv, i + 1); }
                return Err(e);
            },
        };
        let targets: Option<Vec<String>> = match p2 {
            None => None,
            Some(raw) => match parse_gate_targets(raw.as_str(), flag_name, value, canonical_targets) {
                Ok(t) => Some(sort_by_canonical(&t, canonical_targets)),
                Err(e) => {
                    proof { lemma_config_walk_prefix_err(vs, flag_name@, cv, i + 1); }
                    return Err(e);
                },
            },
        };
        let mut signature = cat3(capability_id.as_str(), ":", config_key.as_str());
        signature.append(":");
        match &targets {
            Some(t) => {
                let joined = join_text(t, ",");
                signature.append(joined.as_str());
            },
            None => {},
        }
        let ghost g = (capability_id@, config_key@, opt_views(targets));
        assert(signature@ =~= config_signature(g));
        if all_contains(&seen, signature.as_str()) {
            proof { lemma_config_walk_prefix_err(vs, flag_name@, cv, i + 1); }
            let mut m = cat2(flag_name, " contains duplicate entry `");
            m.append(value);
            m.append("`");
            return Err(Error::Validation(m));
        }
        let ghost seen_before = views(seen@);
        let ghost out_before = out@;
        seen.push(signature);
        out.push(ConfigGate { capability_id, config_key, targets });
        proof {
            assert(views(seen@) =~= seen_before.push(config_signature(g)));
            assert(out@.map_values(|g: ConfigGate| config_gate_view(g)) =~= out_before.map_values(|g: ConfigGate| config_gate_view(g)).push(g));
        }
        i = i + 1;
    }
    assert(vs.subrange(0, values.len() as int) =~= vs);
    Ok(out)
}

// ---------------------------------------------------------------------------------------------
// Descriptor arguments

pub open spec fn flag_missing_message(flag: Seq<char>) -> Seq<char> {
    flag + " must be provided when --approval is not used"@
}

/// A required text argument when no approval supplies it: present and not blank, trimmed.
pub fn required_arg(value: Option<String>, flag_name: &str) -> (r: Result<String, Error>)
    ensures
        match value {
            None => refused_with(r, flag_missing_message(flag_name@)),
            Some(v) => if is_blank(v@) {
                refused_with(r, flag_name@ + " must not be empty when --approval is not used"@)
            } else {
                r matches Ok(s) && s@ == trim(v@)
            },
        },
{
    let value = match value {
        Some(v) => v,
        None => return Err(Error::Validation(cat2(flag_name, " must be provided when --approval is not used"))),
    };
    let t = trimmed(value.as_str());
    if t.as_str().unicode_len() == 0 {
        return Err(Error::Validation(cat2(flag_name, " must not be empty when --approval is not used")));
    }
    Ok(t)
}

/// A required flag when no approval supplies it.
pub fn required_bool(value: Option<bool>, flag_name: &str) -> (r: Result<bool, Error>)
    ensures
        match value {
            None => refused_with(r, flag_missing_message(flag_name@)),
            Some(b) => r == Ok::<bool, Error>(b),
        },
{
    match value {
        Some(b) => Ok(b),
        None => Err(Error::Validation(cat2(flag_name, " must be provided when --approval is not used"))),
    }
}


/// `onboard-agent`'s descriptor arguments as given, before any approval supplies them.
#[derive(Debug, Clone)]
pub struct OnboardArgs {
    pub agent_id: Option<String>,
    pub display_name: Option<String>,
    pub crate_path: Option<String>,
    pub backend_module: Option<String>,
    pub manifest_root: Option<String>,
    pub package_name: Option<String>,
    pub canonical_targets: Vec<String>,
    pub wrapper_coverage_binding_kind: Option<String>,
    pub wrapper_coverage_source_path: Option<String>,
    pub always_on_capabilities: Vec<String>,
    pub target_gated_capabilities: Vec<String>,
    pub config_gated_capabilities: Vec<String>,
    pub backend_extensions: Vec<String>,
    pub support_matrix_enabled: Option<bool>,
    pub capability_matrix_enabled: Option<bool>,
    pub capability_matrix_target: Option<String>,
    pub docs_release_track: Option<String>,
    pub onboarding_pack_prefix: Option<String>,
}

/// Where a descriptor came from when an approval artifact supplied it.
#[derive(Debug, Clone)]
pub struct ApprovalProvenance {
    pub artifact_path: String,
    pub artifact_sha256: String,
    pub approval_recorded_at: String,
}

/// The descriptor an onboarding run drafts from, before its lists are normalized.
#[derive(Debug, Clone)]
pub struct DraftDescriptorInput {
    pub agent_id: String,
    pub display_name: String,
    pub crate_path: String,
    pub backend_module: String,
    pub manifest_root: String,
    pub package_name: String,
    pub canonical_targets: Vec<String>,
    pub wrapper_coverage_binding_kind: String,
    pub wrapper_coverage_source_path: String,
    pub always_on_capabilities: Vec<String>,
    pub target_gated_capabilities: Vec<String>,
    pub config_gated_capabilities: Vec<String>,
    pub backend_extensions: Vec<String>,
    pub support_matrix_enabled: bool,
    pub capability_matrix_enabled: bool,
    pub capability_matrix_target: Option<String>,
    pub docs_release_track: String,
    pub onboarding_pack_prefix: String,
    pub approval_provenance: Option<ApprovalProvenance>,
}

/// What `required_arg` makes of a text argument.
pub open spec fn text_arg(value: Option<String>, flag: Seq<char>) -> Result<Seq<char>, Seq<char>> {
    match value {
        None => Err(flag_missing_message(flag)),
        Some(v) => if is_blank(v@) {
            Err(flag + " must not be empty when --approval is not used"@)
        } else {
            Ok(trim(v@))
        },
    }
}

pub open spec fn bool_arg_problem(value: Option<bool>, flag: Seq<char>) -> Option<Seq<char>> {
    match value {
        None => Some(flag_missing_message(flag)),
        Some(_) => None,
    }
}

pub open spec fn text_problem(value: Option<String>, flag: Seq<char>) -> Option<Seq<char>> {
    crate::approval_artifact::err_of(text_arg(value, flag))
}

/// The first argument missing or blank, in the order the descriptor lists them.
pub open spec fn raw_args_problem(a: OnboardArgs) -> Option<Seq<char>> {
    crate::approval_artifact::first_err(seq![
        text_problem(a.agent_id, "--agent-id"@),
        text_problem(a.display_name, "--display-name"@),
        text_problem(a.crate_path, "--crate-path"@),
        text_problem(a.backend_module, "--backend-module"@),
        text_problem(a.manifest_root, "--manifest-root"@),
        text_problem(a.package_name, "--package-name"@),
        text_problem(a.wrapper_coverage_binding_kind, "--wrapper-coverage-binding-kind"@),
        text_problem(a.wrapper_coverage_source_path, "--wrapper-coverage-source-path"@),
        bool_arg_problem(a.support_matrix_enabled, "--support-matrix-enabled"@),
        bool_arg_problem(a.capability_matrix_enabled, "--capability-matrix-enabled"@),
        text_problem(a.docs_release_track, "--docs-release-track"@),
        text_problem(a.onboarding_pack_prefix, "--onboarding-pack-prefix"@),
    ])
}

pub open spec fn trimmed_arg(value: Option<String>) -> Seq<char> {
    match value {
        Some(v) => trim(v@),
        None => Seq::empty(),
    }
}

pub open spec fn opt_text_view(o: Option<String>) -> Option<Seq<char>> {
    match o {
        Some(s) => Some(s@),
        None => None,
    }
}

/// The descriptor holds each text argument trimmed, the lists and the publication target as
/// given, and no approval provenance.
pub open spec fn drafted_from(d: DraftDescriptorInput, a: OnboardArgs) -> bool {
    &&& d.agent_id@ == trimmed_arg(a.agent_id)
    &&& d.display_name@ == trimmed_arg(a.display_name)
    &&& d.crate_path@ == trimmed_arg(a.crate_path)
    &&& d.backend_module@ == trimmed_arg(a.backend_module)
    &&& d.manifest_root@ == trimmed_arg(a.manifest_root)
    &&& d.package_name@ == trimmed_arg(a.package_name)
    &&& views(d.canonical_targets@) == views(a.canonical_targets@)
    &&& d.wrapper_coverage_binding_kind@ == trimmed_arg(a.wrapper_coverage_binding_kind)
    &&& d.wrapper_coverage_source_path@ == trimmed_arg(a.wrapper_coverage_source_path)
    &&& views(d.always_on_capabilities@) == views(a.always_on_capabilities@)
    &&& views(d.target_gated_capabilities@) == views(a.target_gated_capabilities@)
    &&& views(d.config_gated_capabilities@) == views(a.config_gated_capabilities@)
    &&& views(d.backend_extensions@) == views(a.backend_extensions@)
    &&& Some(d.support_matrix_enabled) == a.support_matrix_enabled
    &&& Some(d.capability_matrix_enabled) == a.capability_matrix_enabled
    &&& opt_text_view(d.capability_matrix_target) == opt_text_view(a.capability_matrix_target)
    &&& d.docs_release_track@ == trimmed_arg(a.docs_release_track)
    &&& d.onboarding_pack_prefix@ == trimmed_arg(a.onboarding_pack_prefix)
    &&& d.approval_provenance is None
}

impl DraftDescriptorInput {
    /// `from_raw_args`: the descriptor the arguments spell out when no approval is used; each
    /// required argument must be present and, for text, not blank.
    #[verifier::rlimit(40)]
    pub fn from_raw_args(args: OnboardArgs) -> (r: Result<DraftDescriptorInput, Error>)
        ensures
            match raw_args_problem(args) {
                Some(m) => refused_with(r, m),
                None => r matches Ok(d) && drafted_from(d, args),
            },
    {
        let ghost a = args;
        proof {
            reveal_with_fuel(crate::approval_artifact::first_err, 13);
        }
        let agent_id = required_arg(args.agent_id, "--agent-id")?;
        let display_name = required_arg(args.display_name, "--display-name")?;
        let crate_path = required_arg(args.crate_path, "--crate-path")?;
        let backend_module = required_arg(args.backend_module, "--backend-module")?;
        let manifest_root = required_arg(args.manifest_root, "--manifest-root")?;
        let package_name = required_arg(args.package_name, "--package-name")?;
        let wrapper_coverage_binding_kind = required_arg(args.wrapper_coverage_binding_kind, "--wrapper-coverage-binding-kind")?;
        let wrapper_coverage_source_path = required_arg(args.wrapper_coverage_source_path, "--wrapper-coverage-source-path")?;
        let support_matrix_enabled = required_bool(args.support_matrix_enabled, "--support-matrix-enabled")?;
        let capability_matrix_enabled = required_bool(args.capability_matrix_enabled, "--capability-matrix-enabled")?;
        let docs_release_track = required_arg(args.docs_release_track, "--docs-release-track")?;
        let onboarding_pack_prefix = required_arg(args.onboarding_pack_prefix, "--onboarding-pack-prefix")?;
        Ok(DraftDescriptorInput {
            agent_id,
            display_name,
            crate_path,
            backend_module,
            manifest_root,
            package_name,
            canonical_targets: args.canonical_targets,
            wrapper_coverage_binding_kind,
            wrapper_coverage_source_path,
            always_on_capabilities: args.always_on_capabilities,
            target_gated_capabilities: args.target_gated_capabilities,
            config_gated_capabilities: args.config_gated_capabilities,
            backend_extensions: args.backend_extensions,
            support_matrix_enabled,
            capability_matrix_enabled,
            capability_matrix_target: args.capability_matrix_target,
            docs_release_track,
            onboarding_pack_prefix,
            approval_provenance: None,
        })
    }
}

/// Some config gate is scoped to at least one target.
pub open spec fn scoped_config_gate(gates: Seq<ConfigGate>) -> bool {
    exists|k: int| 0 <= k < gates.len() && scoped(#[trigger] gates[k])
}

pub open spec fn scoped(g: ConfigGate) -> bool {
    match g.targets {
        Some(t) => t.len() > 0,
        None => false,
    }
}

/// The capability-matrix target a draft publishes on: the one given (trimmed, and a canonical
/// target), else the only canonical target where the legacy fallback allows it, when target-
/// scoped declarations need one.
pub open spec fn matrix_target(
    value: Option<Seq<char>>,
    canonical: Seq<Seq<char>>,
    enabled: bool,
    target_gated: bool,
    scoped_config: bool,
    allow_legacy: bool,
) -> Result<Option<Seq<char>>, Seq<char>> {
    let flag = "--capability-matrix-target"@;
    let checked = match value {
        None => Ok(None),
        Some(t) => match gate_scalar(t, flag, t) {
            Err(e) => Err(e),
            Ok(x) => if !canonical.contains(x) {
                Err("--capability-matrix-target `"@ + x + "` is not present in --canonical-target"@)
            } else {
                Ok(Some(x))
            },
        },
    };
    match checked {
        Err(e) => Err(e),
        Ok(v) => if crate::capability_projection::explicit_target_required(enabled, target_gated, scoped_config) && v is None {
            if allow_legacy && canonical.len() == 1 {
                Ok(Some(canonical[0]))
            } else {
                Err("--capability-matrix-target is required when capability-matrix publication uses target-scoped declarations"@)
            }
        } else {
            Ok(v)
        },
    }
}

fn any_scoped_config_gate(gates: &Vec<ConfigGate>) -> (r: bool)
    ensures
        r == scoped_config_gate(gates@),
{
    let mut i: usize = 0;
    while i < gates.len()
        invariant
            i <= gates.len(),
            forall|k: int| 0 <= k < i ==> !scoped(#[trigger] gates@[k]),
        decreases gates.len() - i,
    {
        match &gates[i].targets {
            Some(t) => {
                if t.len() > 0 {
                    return true;
                }
            },
            None => {},
        }
        i = i + 1;
    }
    false
}

/// `normalize_capability_matrix_target`.
pub fn normalize_capability_matrix_target(
    value: Option<String>,
    canonical_targets: &Vec<String>,
    capability_matrix_enabled: bool,
    target_gated_capabilities: &Vec<TargetGate>,
    config_gated_capabilities: &Vec<ConfigGate>,
    allow_legacy_single_target_fallback: bool,
) -> (r: Result<Option<String>, Error>)
    ensures
        match matrix_target(
            match value { Some(v) => Some(v@), None => None },
            views(canonical_targets@),
            capability_matrix_enabled,
            target_gated_capabilities.len() > 0,
            scoped_config_gate(config_gated_capabilities@),
            allow_legacy_single_target_fallback,
        ) {
            Ok(t) => r matches Ok(o) && match o { Some(s) => t == Some(s@), None => t is None },
            Err(e) => refused_with(r, e),
        },
{
    let value = match value {
        None => None,
        Some(t) => {
            let x = validate_gate_scalar(t.as_str(), "--capability-matrix-target", t.as_str())?;
            if !all_contains(canonical_targets, x.as_str()) {
                let m = cat3("--capability-matrix-target `", x.as_str(), "` is not present in --canonical-target");
                return Err(Error::Validation(m));
            }
            Some(x)
        },
    };
    let explicit_required = crate::capability_projection::requires_explicit_publication_target(
        capability_matrix_enabled,
        target_gated_capabilities.len() > 0,
        any_scoped_config_gate(config_gated_capabilities),
    );
    if explicit_required && value.is_none() {
        if allow_legacy_single_target_fallback && canonical_targets.len() == 1 {
            return Ok(Some(to_owned(canonical_targets[0].as_str())));
        }
        return Err(Error::Validation(to_owned(
            "--capability-matrix-target is required when capability-matrix publication uses target-scoped declarations",
        )));
    }
    Ok(value)
}

proof fn lemma_unique_trims(flag: Seq<char>, values: Seq<Seq<char>>)
    requires
        first_failure(values, unique_value_step(flag)) is Ok,
    ensures
        trims(values).no_duplicates(),
        forall|k: int| 0 <= k < trims(values).len() ==> (#[trigger] trims(values)[k]).len() > 0,
    decreases values.len(),
{
    if values.len() > 0 {
        let init = values.drop_last();
        lemma_unique_trims(flag, init);
        let step = unique_value_step(flag);
        assert(step(init, values.last()) is Ok);
        let t = trim(values.last());
        assert(trims(values) =~= trims(init).push(t));
        let q = trims(values);
        assert forall|i: int, j: int| 0 <= i < q.len() && 0 <= j < q.len() && i != j implies q[i] != q[j] by {
            if i < q.len() - 1 && j < q.len() - 1 {
                assert(q[i] == trims(init)[i] && q[j] == trims(init)[j]);
            } else if i == q.len() - 1 {
                assert(q[j] == trims(init)[j]);
                assert(trims(init).contains(q[j]));
            } else {
                assert(q[i] == trims(init)[i]);
                assert(trims(init).contains(q[i]));
            }
        }
        assert forall|k: int| 0 <= k < q.len() implies (#[trigger] q[k]).len() > 0 by {
            if k < q.len() - 1 {
                assert(q[k] == trims(init)[k]);
            }
        }
    }
}

/// An id list the onboarding flags accept holds no repeats and no blank value, after trimming.
pub proof fn law_accepted_id_lists_have_no_repeats(flag: Seq<char>, values: Seq<Seq<char>>, require_non_empty: bool)
    requires
        ordered_unique(flag, values, require_non_empty) is Ok,
    ensures
        ordered_unique(flag, values, require_non_empty)->Ok_0.no_duplicates(),
        forall|k: int| 0 <= k < ordered_unique(flag, values, require_non_empty)->Ok_0.len()
            ==> (#[trigger] ordered_unique(flag, values, require_non_empty)->Ok_0[k]).len() > 0,
{
    lemma_unique_trims(flag, values);
}

} // verus!

//! The index resolver: turns raw filter tokens into a concrete,
//! validated list of bin indices for one dimension of the mesh, with
//! a deterministic full-range fallback whenever a request cannot be
//! honored. No path here fails hard: a malformed filter only widens
//! the selection, and the outcome records whether that happened so
//! the caller can surface a warning.

use vstd::prelude::*;

use crate::model::{ConvertOptions, Group, MeshInfo, group_le};
use crate::parse::{
    has_total, index_token_value, is_index_token, parse_index_token, targets_have_total,
};

verus! {

/// The sequence `0, 1, ..., count - 1`.
pub open spec fn full_range_seq(count: nat) -> Seq<usize> {
    Seq::new(count, |i: int| i as usize)
}

/// Strictly ascending: sorted with no duplicate values.
pub open spec fn sorted_strict(s: Seq<usize>) -> bool {
    forall|i: int, j: int| 0 <= i < j < s.len() ==> s[i] < s[j]
}

/// The indices parsed from the tokens that are integer tokens, kept
/// in token order; tokens of any other shape contribute nothing.
pub open spec fn parsed_indices(ts: Seq<Seq<char>>) -> Seq<usize>
    decreases ts.len(),
{
    if ts.len() == 0 {
        Seq::empty()
    } else {
        let rest = parsed_indices(ts.drop_last());
        if is_index_token(ts.last()) {
            rest.push(index_token_value(ts.last()) as usize)
        } else {
            rest
        }
    }
}

/// Everything the tokens select before ordering: the parsed indices,
/// then the aggregate index once if the "total" keyword occurs.
pub open spec fn raw_indices(ts: Seq<Seq<char>>, total_idx: usize) -> Seq<usize> {
    if has_total(ts) {
        parsed_indices(ts).push(total_idx)
    } else {
        parsed_indices(ts)
    }
}

/// A non-empty token list that selects nothing falls back to the
/// full range (an empty token list is the ordinary no-filter default,
/// not a fallback).
pub open spec fn index_set_falls_back(ts: Seq<Seq<char>>, total_idx: usize) -> bool {
    ts.len() > 0 && raw_indices(ts, total_idx).len() == 0
}

/// The resolved index set for one dimension, together with whether
/// the full-range fallback was taken; the caller decides how to
/// surface that as a warning.
pub struct Resolution {
    pub indices: Vec<usize>,
    pub fell_back: bool,
}

/// The vector `0, 1, ..., count - 1`.
pub fn full_range(count: usize) -> (r: Vec<usize>)
    ensures
        r@ == full_range_seq(count as nat),
{
    let mut r: Vec<usize> = Vec::new();
    let mut i: usize = 0;
    while i < count
        invariant
            0 <= i <= count,
            r@ == full_range_seq(i as nat),
        decreases count - i,
    {
        r.push(i);
        proof {
            assert(r@ =~= full_range_seq(i as nat + 1));
        }
        i = i + 1;
    }
    r
}

/// Parses each token as a non-negative integer, keeping the values
/// in token order and dropping every token that does not parse.
pub fn targets_to_usize(targets: &[String]) -> (r: Vec<usize>)
    ensures
        r@ == parsed_indices(targets.deep_view()),
{
    let ghost dv = targets.deep_view();
    let n = targets.len();
    let mut r: Vec<usize> = Vec::new();
    let mut i: usize = 0;
    while i < n
        invariant
            0 <= i <= n,
            n == dv.len(),
            dv == targets.deep_view(),
            r@ == parsed_indices(dv.take(i as int)),
        decreases n - i,
    {
        proof {
            assert(dv[i as int] == targets@[i as int]@);
            assert(dv.take(i as int + 1).drop_last() =~= dv.take(i as int));
            assert(dv.take(i as int + 1).last() == dv[i as int]);
        }
        match parse_index_token(targets[i].as_str()) {
            Some(v) => {
                r.push(v);
            },
            None => {},
        }
        i = i + 1;
    }
    proof {
        assert(dv.take(n as int) =~= dv);
    }
    r
}

/// Inserts a value into a strictly ascending vector, keeping it
/// strictly ascending; a value already present is left alone.
fn insert_unique_sorted(v: &mut Vec<usize>, x: usize)
    requires
        sorted_strict(old(v)@),
    ensures
        sorted_strict(final(v)@),
        forall|y: usize| final(v)@.contains(y) <==> old(v)@.contains(y) || y == x,
{
    let n = v.len();
    let mut p: usize = 0;
    while p < n && v[p] < x
        invariant
            0 <= p <= n,
            n == v@.len(),
            v@ == old(v)@,
            sorted_strict(v@),
            forall|j: int| 0 <= j < p ==> v@[j] < x,
        decreases n - p,
    {
        p = p + 1;
    }
    if p < n && v[p] == x {
        proof {
            broadcast use vstd::prelude::Seq::lemma_index_contains;

            assert(v@.contains(x));
        }
        return ;
    }
    proof {
        assert(p < v@.len() ==> v@[p as int] > x);
    }
    v.insert(p, x);
    proof {
        let s = old(v)@;
        let t = v@;
        assert(t == s.insert(p as int, x));
        assert forall|i: int, j: int| 0 <= i < j < t.len() implies t[i] < t[j] by {
            if j < p {
                assert(t[i] == s[i] && t[j] == s[j]);
            } else if i > p {
                assert(t[i] == s[i - 1] && t[j] == s[j - 1]);
            } else if i < p && j == p {
                assert(t[i] == s[i] && t[j] == x);
            } else if i == p && j > p {
                assert(t[i] == x && t[j] == s[j - 1]);
            } else if i < p && j > p {
                assert(t[i] == s[i] && t[j] == s[j - 1]);
            }
        }
        assert forall|y: usize| t.contains(y) implies s.contains(y) || y == x by {
            let k = choose|k: int| 0 <= k < t.len() && t[k] == y;
            if k < p {
                assert(s[k] == y);
                assert(s.contains(y));
            } else if k > p {
                assert(s[k - 1] == y);
                assert(s.contains(y));
            }
        }
        assert forall|y: usize| s.contains(y) || y == x implies t.contains(y) by {
            broadcast use vstd::prelude::Seq::lemma_index_contains;

            if s.contains(y) {
                let k = choose|k: int| 0 <= k < s.len() && s[k] == y;
                if k < p {
                    assert(t[k] == y);
                } else {
                    assert(t[k + 1] == y);
                }
            } else {
                assert(t[p as int] == x);
            }
        }
    }
}

/// Sorts the values ascending and removes duplicates.
fn sorted_dedup(xs: &Vec<usize>) -> (r: Vec<usize>)
    ensures
        sorted_strict(r@),
        forall|y: usize| r@.contains(y) <==> xs@.contains(y),
{
    let n = xs.len();
    let mut r: Vec<usize> = Vec::new();
    let mut i: usize = 0;
    while i < n
        invariant
            0 <= i <= n,
            n == xs@.len(),
            sorted_strict(r@),
            forall|y: usize| r@.contains(y) <==> xs@.take(i as int).contains(y),
        decreases n - i,
    {
        proof {
            broadcast use vstd::prelude::Seq::lemma_take_succ_push;

            assert forall|y: usize|
                xs@.take(i as int + 1).contains(y) <==> (xs@.take(i as int).contains(y) || y
                    == xs@[i as int]) by {
                let s = xs@.take(i as int);
                let t = xs@.take(i as int + 1);
                assert(t =~= s.push(xs@[i as int]));
                if t.contains(y) {
                    let k = choose|k: int| 0 <= k < t.len() && t[k] == y;
                    if k < s.len() {
                        assert(s[k] == y);
                        assert(s.contains(y));
                    }
                }
                if s.contains(y) {
                    let k = choose|k: int| 0 <= k < s.len() && s[k] == y;
                    assert(t[k] == y);
                    assert(t.contains(y));
                }
                if y == xs@[i as int] {
                    assert(t[s.len() as int] == y);
                    assert(t.contains(y));
                }
            }
        }
        insert_unique_sorted(&mut r, xs[i]);
        proof {
            assert(forall|y: usize|
                r@.contains(y) <==> xs@.take(i as int + 1).contains(y));
        }
        i = i + 1;
    }
    proof {
        assert(xs@.take(n as int) =~= xs@);
    }
    r
}

/// Everything the resolver promises of an index-mode resolution:
/// the fallback is taken exactly when a non-empty token list selects
/// nothing; an empty token list and the fallback both yield the full
/// range; any other selection is strictly ascending and holds exactly
/// the values the tokens selected; the "total" keyword always brings
/// the aggregate index in; and the result is never empty.
pub open spec fn resolution_ok(ts: Seq<Seq<char>>, total_idx: usize, r: Resolution) -> bool {
    &&& r.fell_back == index_set_falls_back(ts, total_idx)
    &&& ((ts.len() == 0 || r.fell_back) ==> r.indices@ == full_range_seq(total_idx as nat + 1))
    &&& ((ts.len() > 0 && !r.fell_back) ==> (sorted_strict(r.indices@) && (forall|y: usize|
        r.indices@.contains(y) <==> raw_indices(ts, total_idx).contains(y))))
    &&& (has_total(ts) ==> r.indices@.contains(total_idx))
    &&& r.indices@.len() > 0
}

/// Resolves one dimension's tokens against a bin layout whose last
/// index is `total_idx`, in index mode.
///
/// An empty token list selects the full range `0 ..= total_idx`.
/// Otherwise the integer tokens are kept, the "total" keyword adds
/// `total_idx`, and the selection is sorted ascending with duplicates
/// removed; a selection that ends up empty falls back to the full
/// range. The result is never empty.
pub fn index_set_resolution(targets: &[String], total_idx: usize) -> (r: Resolution)
    requires
        total_idx < usize::MAX,
    ensures
        resolution_ok(targets.deep_view(), total_idx, r),
{
    let ghost dv = targets.deep_view();
    if targets.len() == 0 {
        let all = full_range(total_idx + 1);
        proof {
            assert(all@[0] == 0usize);
        }
        return Resolution { indices: all, fell_back: false };
    }
    let mut raw = targets_to_usize(targets);
    if targets_have_total(targets) {
        raw.push(total_idx);
    }
    proof {
        assert(raw@ == raw_indices(dv, total_idx));
    }
    if raw.len() == 0 {
        let all = full_range(total_idx + 1);
        proof {
            assert(all@[0] == 0usize);
        }
        Resolution { indices: all, fell_back: true }
    } else {
        let indices = sorted_dedup(&raw);
        proof {
            broadcast use vstd::prelude::Seq::lemma_index_contains;

            assert(raw@.contains(raw@[0]));
            if has_total(dv) {
                assert(raw@.last() == total_idx);
                assert(raw@.contains(total_idx));
            }
            assert(indices@.contains(raw@[0]));
        }
        Resolution { indices, fell_back: false }
    }
}

/// Resolves one dimension's tokens in index mode, as
/// [`index_set_resolution`] does, returning the indices alone.
pub fn index_set(targets: &[String], total_idx: usize) -> (r: Vec<usize>)
    requires
        total_idx < usize::MAX,
    ensures
        resolution_ok(
            targets.deep_view(),
            total_idx,
            (Resolution {
                indices: r,
                fell_back: index_set_falls_back(targets.deep_view(), total_idx),
            }),
        ),
{
    let res = index_set_resolution(targets, total_idx);
    res.indices
}

/// Strictly ascending group keys.
pub open spec fn sorted_strict_u64(s: Seq<u64>) -> bool {
    forall|i: int, j: int| 0 <= i < j < s.len() ==> s[i] < s[j]
}

/// Strict group order: ordered with no duplicate groups.
pub open spec fn group_lt(a: Group, b: Group) -> bool {
    group_le(a, b) && a != b
}

/// Strictly ascending in group order: value groups by their key,
/// with the aggregate Total group last.
pub open spec fn sorted_groups(s: Seq<Group>) -> bool {
    forall|i: int, j: int| 0 <= i < j < s.len() ==> group_lt(s[i], s[j])
}

/// Inserts a key into a strictly ascending vector, keeping it
/// strictly ascending; a key already present is left alone.
fn insert_unique_sorted_u64(v: &mut Vec<u64>, x: u64)
    requires
        sorted_strict_u64(old(v)@),
    ensures
        sorted_strict_u64(final(v)@),
        forall|y: u64| final(v)@.contains(y) <==> old(v)@.contains(y) || y == x,
{
    let n = v.len();
    let mut p: usize = 0;
    while p < n && v[p] < x
        invariant
            0 <= p <= n,
            n == v@.len(),
            v@ == old(v)@,
            sorted_strict_u64(v@),
            forall|j: int| 0 <= j < p ==> v@[j] < x,
        decreases n - p,
    {
        p = p + 1;
    }
    if p < n && v[p] == x {
        proof {
            broadcast use vstd::prelude::Seq::lemma_index_contains;

            assert(v@.contains(x));
        }
        return ;
    }
    v.insert(p, x);
    proof {
        let s = old(v)@;
        let t = v@;
        assert forall|i: int, j: int| 0 <= i < j < t.len() implies t[i] < t[j] by {
            if j < p {
                assert(t[i] == s[i] && t[j] == s[j]);
            } else if i > p {
                assert(t[i] == s[i - 1] && t[j] == s[j - 1]);
            } else if i < p && j == p {
                assert(t[i] == s[i] && t[j] == x);
            } else if i == p && j > p {
                assert(t[i] == x && t[j] == s[j - 1]);
            } else if i < p && j > p {
                assert(t[i] == s[i] && t[j] == s[j - 1]);
            }
        }
        assert forall|y: u64| t.contains(y) implies s.contains(y) || y == x by {
            let k = choose|k: int| 0 <= k < t.len() && t[k] == y;
            if k < p {
                assert(s[k] == y);
                assert(s.contains(y));
            } else if k > p {
                assert(s[k - 1] == y);
                assert(s.contains(y));
            }
        }
        assert forall|y: u64| s.contains(y) || y == x implies t.contains(y) by {
            broadcast use vstd::prelude::Seq::lemma_index_contains;

            if s.contains(y) {
                let k = choose|k: int| 0 <= k < s.len() && s[k] == y;
                if k < p {
                    assert(t[k] == y);
                } else {
                    assert(t[k + 1] == y);
                }
            } else {
                assert(t[p as int] == x);
            }
        }
    }
}

/// Sorts the keys ascending and removes duplicates.
fn sorted_dedup_u64(xs: &[u64]) -> (r: Vec<u64>)
    ensures
        sorted_strict_u64(r@),
        forall|y: u64| r@.contains(y) <==> xs@.contains(y),
{
    let n = xs.len();
    let mut r: Vec<u64> = Vec::new();
    let mut i: usize = 0;
    while i < n
        invariant
            0 <= i <= n,
            n == xs@.len(),
            sorted_strict_u64(r@),
            forall|y: u64| r@.contains(y) <==> xs@.take(i as int).contains(y),
        decreases n - i,
    {
        proof {
            broadcast use vstd::prelude::Seq::lemma_take_succ_push;

            assert forall|y: u64|
                xs@.take(i as int + 1).contains(y) <==> (xs@.take(i as int).contains(y) || y
                    == xs@[i as int]) by {
                let s = xs@.take(i as int);
                let t = xs@.take(i as int + 1);
                assert(t =~= s.push(xs@[i as int]));
                if t.contains(y) {
                    let k = choose|k: int| 0 <= k < t.len() && t[k] == y;
                    if k < s.len() {
                        assert(s[k] == y);
                        assert(s.contains(y));
                    }
                }
                if s.contains(y) {
                    let k = choose|k: int| 0 <= k < s.len() && s[k] == y;
                    assert(t[k] == y);
                    assert(t.contains(y));
                }
                if y == xs@[i as int] {
                    assert(t[s.len() as int] == y);
                    assert(t.contains(y));
                }
            }
        }
        insert_unique_sorted_u64(&mut r, xs[i]);
        proof {
            assert(forall|y: u64| r@.contains(y) <==> xs@.take(i as int + 1).contains(y));
        }
        i = i + 1;
    }
    proof {
        assert(xs@.take(n as int) =~= xs@);
    }
    r
}

/// Builds the set of groups a token list selects in absolute mode,
/// from the keys of the values that parsed: the value groups sorted
/// ascending with duplicates removed, then the aggregate Total group
/// last when the "total" keyword occurred.
pub fn group_set(values: &[u64], include_total: bool) -> (r: Vec<Group>)
    ensures
        sorted_groups(r@),
        forall|k: u64| #[trigger] r@.contains(Group::Value(k)) <==> values@.contains(k),
        r@.contains(Group::Total) <==> include_total,
{
    let keys = sorted_dedup_u64(values);
    let n = keys.len();
    let mut r: Vec<Group> = Vec::new();
    let mut i: usize = 0;
    while i < n
        invariant
            0 <= i <= n,
            n == keys@.len(),
            sorted_strict_u64(keys@),
            r@.len() == i,
            forall|j: int| 0 <= j < i ==> r@[j] == Group::Value(keys@[j]),
        decreases n - i,
    {
        r.push(Group::Value(keys[i]));
        i = i + 1;
    }
    if include_total {
        r.push(Group::Total);
    }
    proof {
        broadcast use vstd::prelude::Seq::lemma_index_contains;

        assert forall|k: u64| #[trigger] r@.contains(Group::Value(k)) implies keys@.contains(
            k,
        ) by {
            let j = choose|j: int| 0 <= j < r@.len() && r@[j] == Group::Value(k);
            assert(j < n);
            assert(keys@[j] == k);
        }
        assert forall|k: u64| keys@.contains(k) implies r@.contains(Group::Value(k)) by {
            let j = choose|j: int| 0 <= j < keys@.len() && keys@[j] == k;
            assert(r@[j] == Group::Value(k));
        }
        if include_total {
            assert(r@[n as int] == Group::Total);
        } else {
            assert forall|j: int| 0 <= j < r@.len() implies r@[j] != Group::Total by {
                assert(r@[j] == Group::Value(keys@[j]));
            }
        }
        assert forall|i: int, j: int| 0 <= i < j < r@.len() implies group_lt(r@[i], r@[j]) by {
            if j < n {
                assert(r@[i] == Group::Value(keys@[i]) && r@[j] == Group::Value(keys@[j]));
                assert(keys@[i] < keys@[j]);
            } else {
                assert(r@[i] == Group::Value(keys@[i]) && r@[j] == Group::Total);
            }
        }
    }
    r
}

/// The indices of the lookups that succeeded, in lookup order.
pub open spec fn found_indices(lookups: Seq<Option<usize>>) -> Seq<usize>
    decreases lookups.len(),
{
    if lookups.len() == 0 {
        Seq::empty()
    } else {
        let rest = found_indices(lookups.drop_last());
        match lookups.last() {
            Some(i) => rest.push(i),
            None => rest,
        }
    }
}

/// Turns the outcomes of the per-group bin lookups into the final
/// index set for one dimension in absolute mode: the indices of the
/// lookups that succeeded, in order; when every lookup failed, the
/// full range `0 .. bin_count` with the fallback noted. The result is
/// never empty.
pub fn groups_to_index_set(lookups: &[Option<usize>], bin_count: usize) -> (r: Resolution)
    requires
        bin_count >= 1,
    ensures
        r.fell_back == (found_indices(lookups@).len() == 0),
        !r.fell_back ==> r.indices@ == found_indices(lookups@),
        r.fell_back ==> r.indices@ == full_range_seq(bin_count as nat),
        r.indices@.len() > 0,
{
    let n = lookups.len();
    let mut found: Vec<usize> = Vec::new();
    let mut i: usize = 0;
    while i < n
        invariant
            0 <= i <= n,
            n == lookups@.len(),
            found@ == found_indices(lookups@.take(i as int)),
        decreases n - i,
    {
        proof {
            assert(lookups@.take(i as int + 1).drop_last() =~= lookups@.take(i as int));
            assert(lookups@.take(i as int + 1).last() == lookups@[i as int]);
        }
        match lookups[i] {
            Some(idx) => {
                found.push(idx);
            },
            None => {},
        }
        i = i + 1;
    }
    proof {
        assert(lookups@.take(n as int) =~= lookups@);
    }
    if found.len() == 0 {
        Resolution { indices: full_range(bin_count), fell_back: true }
    } else {
        Resolution { indices: found, fell_back: false }
    }
}

/// What target resolution decides before any external lookup: either
/// both dimensions are fully resolved here, or the tokens must be
/// read as physical values, which takes the mesh's value-to-index
/// lookup (an external capability) between [`plan_absolute_targets`]
/// and [`finish_absolute_targets`].
pub enum TargetOutcome {
    Resolved { energy: Resolution, time: Resolution },
    NeedsAbsolute,
}

/// Resolves the energy and time targets as far as the mesh's bin
/// counts allow: the totals-only shortcut selects exactly the
/// aggregate bin of each dimension, overriding every other filter;
/// index mode resolves both dimensions in full; absolute mode is
/// handed back to the caller for the value lookups.
pub fn get_targets(mesh: &MeshInfo, opts: &ConvertOptions) -> (r: TargetOutcome)
    requires
        mesh.wf(),
    ensures
        opts.total ==> (r matches TargetOutcome::Resolved { energy, time } && energy.indices@
            == seq![(mesh.energy_bin_count - 1) as usize] && time.indices@ == seq![(
        mesh.time_bin_count - 1) as usize] && !energy.fell_back && !time.fell_back),
        (!opts.total && !opts.absolute) ==> (r matches TargetOutcome::Resolved { energy, time }
            && resolution_ok(
            opts.energy.deep_view(),
            (mesh.energy_bin_count - 1) as usize,
            energy,
        ) && resolution_ok(opts.time.deep_view(), (mesh.time_bin_count - 1) as usize, time)),
        (!opts.total && opts.absolute) ==> r is NeedsAbsolute,
{
    if opts.total {
        let mut e: Vec<usize> = Vec::new();
        e.push(mesh.energy_bin_count - 1);
        let mut t: Vec<usize> = Vec::new();
        t.push(mesh.time_bin_count - 1);
        proof {
            assert(e@ =~= seq![(mesh.energy_bin_count - 1) as usize]);
            assert(t@ =~= seq![(mesh.time_bin_count - 1) as usize]);
        }
        return TargetOutcome::Resolved {
            energy: Resolution { indices: e, fell_back: false },
            time: Resolution { indices: t, fell_back: false },
        };
    }
    if !opts.absolute {
        let es = opts.energy.as_slice();
        let ts = opts.time.as_slice();
        proof {
            assert(es.deep_view() =~= opts.energy.deep_view());
            assert(ts.deep_view() =~= opts.time.deep_view());
        }
        let energy = index_set_resolution(es, mesh.energy_bin_count - 1);
        let time = index_set_resolution(ts, mesh.time_bin_count - 1);
        return TargetOutcome::Resolved { energy, time };
    }
    TargetOutcome::NeedsAbsolute
}

/// One dimension's absolute-mode plan: a dimension without filter
/// tokens selects its full bin range outright; one with tokens has
/// its ordered group set built, and waits for the mesh's per-group
/// value-to-index lookups.
pub enum AbsoluteDim {
    AllBins(Resolution),
    Lookup(Vec<Group>),
}

/// Everything the planner promises of one dimension's absolute-mode
/// plan: no tokens give the full range at once, with no fallback;
/// otherwise the plan holds exactly the groups the tokens selected,
/// in ascending group order without duplicates, Total present exactly
/// when the "total" keyword occurred.
pub open spec fn absolute_dim_ok(
    ts: Seq<Seq<char>>,
    values: Seq<u64>,
    bin_count: usize,
    r: AbsoluteDim,
) -> bool {
    if ts.len() == 0 {
        r matches AbsoluteDim::AllBins(res) && res.indices@ == full_range_seq(bin_count as nat)
            && !res.fell_back
    } else {
        r matches AbsoluteDim::Lookup(groups) && sorted_groups(groups@) && (forall|k: u64|
            #[trigger] groups@.contains(Group::Value(k)) <==> values.contains(k)) && (
        groups@.contains(Group::Total) <==> has_total(ts))
    }
}

/// Everything finishing promises of one dimension: a full-range plan
/// passes through unchanged; a group-set plan keeps the indices of
/// the lookups that succeeded, in order, or falls back to the full
/// range when every lookup failed, and is never empty.
pub open spec fn absolute_finish_ok(
    plan: AbsoluteDim,
    lookups: Seq<Option<usize>>,
    bin_count: usize,
    r: Resolution,
) -> bool {
    match plan {
        AbsoluteDim::AllBins(res) => r.indices@ == res.indices@ && r.fell_back == res.fell_back,
        AbsoluteDim::Lookup(_) => {
            &&& r.fell_back == (found_indices(lookups).len() == 0)
            &&& (!r.fell_back ==> r.indices@ == found_indices(lookups))
            &&& (r.fell_back ==> r.indices@ == full_range_seq(bin_count as nat))
            &&& r.indices@.len() > 0
        },
    }
}

/// Plans one dimension of absolute mode from its tokens and the keys
/// of the values among them that parsed as reals.
fn plan_absolute_dim(targets: &[String], values: &[u64], bin_count: usize) -> (r: AbsoluteDim)
    ensures
        absolute_dim_ok(targets.deep_view(), values@, bin_count, r),
{
    if targets.len() == 0 {
        AbsoluteDim::AllBins(Resolution { indices: full_range(bin_count), fell_back: false })
    } else {
        AbsoluteDim::Lookup(group_set(values, targets_have_total(targets)))
    }
}

/// Finishes one dimension of absolute mode from its plan and, for a
/// group-set plan, the outcomes of its per-group lookups.
fn finish_absolute_dim(plan: AbsoluteDim, lookups: &[Option<usize>], bin_count: usize) -> (r:
    Resolution)
    requires
        bin_count >= 1,
    ensures
        absolute_finish_ok(plan, lookups@, bin_count, r),
{
    match plan {
        AbsoluteDim::AllBins(res) => res,
        AbsoluteDim::Lookup(_) => groups_to_index_set(lookups, bin_count),
    }
}

/// Plans absolute-mode resolution for both dimensions at once, from
/// the raw tokens and the keys of the token values that parsed as
/// reals (parsing reals is the caller's job: the library holds a
/// value only as its order-preserving key). The caller runs the
/// mesh's per-group lookups on each group-set plan and hands the
/// outcomes to [`finish_absolute_targets`].
pub fn plan_absolute_targets(
    mesh: &MeshInfo,
    opts: &ConvertOptions,
    energy_values: &[u64],
    time_values: &[u64],
) -> (r: (AbsoluteDim, AbsoluteDim))
    requires
        mesh.wf(),
    ensures
        absolute_dim_ok(opts.energy.deep_view(), energy_values@, mesh.energy_bin_count, r.0),
        absolute_dim_ok(opts.time.deep_view(), time_values@, mesh.time_bin_count, r.1),
{
    let es = opts.energy.as_slice();
    let ts = opts.time.as_slice();
    proof {
        assert(es.deep_view() =~= opts.energy.deep_view());
        assert(ts.deep_view() =~= opts.time.deep_view());
    }
    let energy = plan_absolute_dim(es, energy_values, mesh.energy_bin_count);
    let time = plan_absolute_dim(ts, time_values, mesh.time_bin_count);
    (energy, time)
}

/// Completes absolute-mode resolution for both dimensions and pairs
/// the outcomes, energy first, time second: each full-range plan
/// passes through, each group-set plan is finished from its own
/// lookups' outcomes.
pub fn finish_absolute_targets(
    plans: (AbsoluteDim, AbsoluteDim),
    energy_lookups: &[Option<usize>],
    time_lookups: &[Option<usize>],
    mesh: &MeshInfo,
) -> (r: (Resolution, Resolution))
    requires
        mesh.wf(),
    ensures
        absolute_finish_ok(plans.0, energy_lookups@, mesh.energy_bin_count, r.0),
        absolute_finish_ok(plans.1, time_lookups@, mesh.time_bin_count, r.1),
{
    let (energy_plan, time_plan) = plans;
    let energy = finish_absolute_dim(energy_plan, energy_lookups, mesh.energy_bin_count);
    let time = finish_absolute_dim(time_plan, time_lookups, mesh.time_bin_count);
    (energy, time)
}

/// The "total" keyword always selects the aggregate bin: whenever it
/// occurs among the tokens, whatever else they hold, the raw
/// selection carries the aggregate index and resolution cannot fall
/// back, so the resolved set contains that index.
pub proof fn lemma_total_always_selected(ts: Seq<Seq<char>>, total_idx: usize)
    requires
        has_total(ts),
    ensures
        raw_indices(ts, total_idx).contains(total_idx),
        !index_set_falls_back(ts, total_idx),
{
    let raw = raw_indices(ts, total_idx);
    assert(raw.last() == total_idx);
    assert(raw.contains(total_idx));
}

/// A strictly ascending sequence is determined by its members alone.
pub proof fn lemma_sorted_strict_unique(a: Seq<usize>, b: Seq<usize>)
    requires
        sorted_strict(a),
        sorted_strict(b),
        forall|y: usize| #[trigger] a.contains(y) <==> #[trigger] b.contains(y),
    ensures
        a == b,
    decreases a.len(),
{
    broadcast use vstd::prelude::Seq::lemma_index_contains;

    if a.len() == 0 {
        if b.len() > 0 {
            assert(b.contains(b[0]));
            assert(a.contains(b[0]));
        }
        assert(a =~= b);
    } else {
        assert(a.contains(a[0]));
        assert(b.contains(a[0]));
        let i = choose|i: int| 0 <= i < b.len() && b[i] == a[0];
        assert(b[0] <= b[i]);
        assert(b.contains(b[0]));
        assert(a.contains(b[0]));
        let j = choose|j: int| 0 <= j < a.len() && a[j] == b[0];
        assert(a[0] <= a[j]);
        assert(a[0] == b[0]);
        let at = a.subrange(1, a.len() as int);
        let bt = b.subrange(1, b.len() as int);
        assert forall|y: usize| #[trigger] at.contains(y) implies bt.contains(y) by {
            let k = choose|k: int| 0 <= k < at.len() && at[k] == y;
            assert(a[k + 1] == y);
            assert(a.contains(y));
            assert(y > a[0]);
            assert(b.contains(y));
            let m = choose|m: int| 0 <= m < b.len() && b[m] == y;
            assert(m >= 1);
            assert(bt[m - 1] == y);
        }
        assert forall|y: usize| #[trigger] bt.contains(y) implies at.contains(y) by {
            let k = choose|k: int| 0 <= k < bt.len() && bt[k] == y;
            assert(b[k + 1] == y);
            assert(b.contains(y));
            assert(y > b[0]);
            assert(a.contains(y));
            let m = choose|m: int| 0 <= m < a.len() && a[m] == y;
            assert(m >= 1);
            assert(at[m - 1] == y);
        }
        assert(sorted_strict(at));
        assert(sorted_strict(bt));
        lemma_sorted_strict_unique(at, bt);
        assert(a.len() == b.len());
        assert forall|k: int| 0 <= k < a.len() implies a[k] == b[k] by {
            if k > 0 {
                assert(at[k - 1] == a[k]);
                assert(bt[k - 1] == b[k]);
                assert(at[k - 1] == bt[k - 1]);
            }
        }
        assert(a =~= b);
    }
}

/// A sequence that ascends strictly in group order is determined by
/// its members alone, so building the group set from the same keys
/// twice yields the same sequence.
pub proof fn lemma_sorted_groups_unique(a: Seq<Group>, b: Seq<Group>)
    requires
        sorted_groups(a),
        sorted_groups(b),
        forall|g: Group| #[trigger] a.contains(g) <==> #[trigger] b.contains(g),
    ensures
        a == b,
    decreases a.len(),
{
    broadcast use vstd::prelude::Seq::lemma_index_contains;

    if a.len() == 0 {
        if b.len() > 0 {
            assert(b.contains(b[0]));
            assert(a.contains(b[0]));
        }
        assert(a =~= b);
    } else {
        assert(a.contains(a[0]));
        assert(b.contains(a[0]));
        let i = choose|i: int| 0 <= i < b.len() && b[i] == a[0];
        assert(i > 0 ==> group_lt(b[0], a[0]));
        assert(b.contains(b[0]));
        assert(a.contains(b[0]));
        let j = choose|j: int| 0 <= j < a.len() && a[j] == b[0];
        assert(j > 0 ==> group_lt(a[0], b[0]));
        assert(a[0] == b[0]);
        let at = a.subrange(1, a.len() as int);
        let bt = b.subrange(1, b.len() as int);
        assert forall|g: Group| #[trigger] at.contains(g) implies bt.contains(g) by {
            let k = choose|k: int| 0 <= k < at.len() && at[k] == g;
            assert(a[k + 1] == g);
            assert(a.contains(g));
            assert(group_lt(a[0], g));
            assert(b.contains(g));
            let m = choose|m: int| 0 <= m < b.len() && b[m] == g;
            assert(m >= 1);
            assert(bt[m - 1] == g);
        }
        assert forall|g: Group| #[trigger] bt.contains(g) implies at.contains(g) by {
            let k = choose|k: int| 0 <= k < bt.len() && bt[k] == g;
            assert(b[k + 1] == g);
            assert(b.contains(g));
            assert(group_lt(b[0], g));
            assert(a.contains(g));
            let m = choose|m: int| 0 <= m < a.len() && a[m] == g;
            assert(m >= 1);
            assert(at[m - 1] == g);
        }
        assert(sorted_groups(at));
        assert(sorted_groups(bt));
        lemma_sorted_groups_unique(at, bt);
        assert(a.len() == b.len());
        assert forall|k: int| 0 <= k < a.len() implies a[k] == b[k] by {
            if k > 0 {
                assert(at[k - 1] == a[k]);
                assert(bt[k - 1] == b[k]);
                assert(at[k - 1] == bt[k - 1]);
            }
        }
        assert(a =~= b);
    }
}

/// Resolution is idempotent: it keeps no hidden state, so resolving
/// the same token list against the same bin layout twice yields the
/// same outcome — any two outcomes the resolver's contract admits
/// for the same input are equal.
pub proof fn lemma_resolution_deterministic(
    ts: Seq<Seq<char>>,
    total_idx: usize,
    r1: Resolution,
    r2: Resolution,
)
    requires
        resolution_ok(ts, total_idx, r1),
        resolution_ok(ts, total_idx, r2),
    ensures
        r1.indices@ == r2.indices@,
        r1.fell_back == r2.fell_back,
{
    if ts.len() > 0 && !r1.fell_back {
        assert forall|y: usize| #[trigger] r1.indices@.contains(y) <==> #[trigger]
            r2.indices@.contains(y) by {
            assert(r1.indices@.contains(y) <==> raw_indices(ts, total_idx).contains(y));
            assert(r2.indices@.contains(y) <==> raw_indices(ts, total_idx).contains(y));
        }
        lemma_sorted_strict_unique(r1.indices@, r2.indices@);
    }
}

} // verus!

//! The pairwise range-merge reduction applied to a parsed set of ranges and
//! scalars over `u64`: for every ordered pair of distinct elements, a fully
//! contained element is marked for eviction, a partial overlap queues a
//! start-update for the surviving element and evicts the other, and a scalar
//! lying inside a range is evicted. Updates are applied before evictions.
//!
//! The executable merge is specified exactly by [`merged_range_set`], a
//! functional model of the same reduction.

use vstd::prelude::*;

use crate::rangeset::Range;

verus! {

/// Bookkeeping of the reduction: which indices are marked for eviction, and
/// the queued start-updates `(index, new_start)` in the order they were
/// decided.
pub struct MergeState {
    pub evict: Seq<bool>,
    pub upd: Seq<(usize, u64)>,
}

/// The decision the reduction takes for the ordered pair `(a[i], a[j])`,
/// `i < j`, applied to the running state `st`.
pub open spec fn do_pair(st: MergeState, a: Seq<Range<u64>>, i: usize, j: usize) -> MergeState
    recommends
        i < j < a.len(),
{
    let r1 = a[i as int];
    let r2 = a[j as int];
    if r1 == r2 {
        st
    } else if r1.end is Some && r2.end is Some {
        let e1 = r1.end->0;
        let e2 = r2.end->0;
        if r1.start >= r2.start && e1 <= e2 {
            // r2 contains r1
            MergeState { evict: st.evict.update(i as int, true), upd: st.upd }
        } else if r1.start < r2.start && e1 >= r2.start && e1 <= e2 {
            // partial overlap, r1 reaches into r2: widen r2 downward
            MergeState {
                evict: st.evict.update(i as int, true),
                upd: st.upd.push((j, r1.start)),
            }
        } else if r1.start < r2.start && e1 > e2 {
            // r1 contains r2
            MergeState { evict: st.evict.update(j as int, true), upd: st.upd }
        } else if r1.start >= r2.start && r1.start <= e2 && e1 > e2 {
            // partial overlap, r2 reaches into r1: widen r1 downward
            MergeState {
                evict: st.evict.update(j as int, true),
                upd: st.upd.push((i, r2.start)),
            }
        } else {
            // disjoint ranges: no merge
            st
        }
    } else if r1.end is Some && r2.end is None && r2.start >= r1.start && r2.start <= r1.end->0 {
        // scalar r2 lies inside range r1
        MergeState { evict: st.evict.update(j as int, true), upd: st.upd }
    } else if r1.end is None && r2.end is Some && r1.start >= r2.start && r1.start <= r2.end->0 {
        // scalar r1 lies inside range r2
        MergeState { evict: st.evict.update(i as int, true), upd: st.upd }
    } else {
        st
    }
}

/// State with no eviction marks and no queued updates.
pub open spec fn init_state(n: nat) -> MergeState {
    MergeState { evict: Seq::new(n, |k: int| false), upd: Seq::empty() }
}

/// Process the pairs `(i, i+1) .. (i, j-1)` in order.
pub open spec fn inner_pairs(st: MergeState, a: Seq<Range<u64>>, i: usize, j: usize) -> MergeState
    decreases j,
{
    if j <= i + 1 {
        st
    } else {
        do_pair(inner_pairs(st, a, i, (j - 1) as usize), a, i, (j - 1) as usize)
    }
}

/// Process all pairs whose first index is below `i`, each row completely.
pub open spec fn outer_rows(a: Seq<Range<u64>>, i: usize) -> MergeState
    decreases i,
{
    if i == 0 {
        init_state(a.len())
    } else if a.len() <= usize::MAX {
        inner_pairs(outer_rows(a, (i - 1) as usize), a, (i - 1) as usize, a.len() as usize)
    } else {
        init_state(a.len())
    }
}

/// The eviction marks and updates after every pair has been visited once.
pub open spec fn merge_decisions(a: Seq<Range<u64>>) -> MergeState
    recommends
        a.len() <= usize::MAX,
{
    outer_rows(a, a.len() as usize)
}

/// Apply the queued start-updates, in order.
pub open spec fn apply_updates(a: Seq<Range<u64>>, upd: Seq<(usize, u64)>) -> Seq<Range<u64>>
    decreases upd.len(),
{
    if upd.len() == 0 {
        a
    } else {
        let b = apply_updates(a, upd.drop_last());
        let iu = upd.last().0;
        let v = upd.last().1;
        if iu < b.len() {
            b.update(iu as int, Range { start: v, end: b[iu as int].end })
        } else {
            b
        }
    }
}

/// The elements of `a` from index `k` on whose index is not marked.
pub open spec fn keep_unevicted(a: Seq<Range<u64>>, ev: Seq<bool>, k: int) -> Seq<Range<u64>>
    decreases a.len() - k,
{
    if k < 0 || k >= a.len() {
        Seq::empty()
    } else if k < ev.len() && ev[k] {
        keep_unevicted(a, ev, k + 1)
    } else {
        seq![a[k]] + keep_unevicted(a, ev, k + 1)
    }
}

/// The surviving elements of the reduction, in their original order.
pub open spec fn merge_seq(a: Seq<Range<u64>>) -> Seq<Range<u64>> {
    let st = merge_decisions(a);
    keep_unevicted(apply_updates(a, st.upd), st.evict, 0)
}

/// The merged collection, as a set: the exact outcome of visiting every
/// pair once, applying the queued updates, then the evictions.
pub open spec fn merged_range_set(a: Seq<Range<u64>>) -> Set<Range<u64>> {
    merge_seq(a).to_set()
}

/// Field-wise equality of two ranges.
pub fn range_eq(a: &Range<u64>, b: &Range<u64>) -> (r: bool)
    ensures
        r == (a == b),
{
    a.start == b.start && match (a.end, b.end) {
        (Option::Some(x), Option::Some(y)) => x == y,
        (Option::None, Option::None) => true,
        _ => false,
    }
}

/// Whether `v` holds a range equal to `x`.
pub fn vec_contains_range(v: &Vec<Range<u64>>, x: &Range<u64>) -> (r: bool)
    ensures
        r == v@.contains(*x),
{
    let mut k: usize = 0;
    while k < v.len()
        invariant
            0 <= k <= v@.len(),
            forall|m: int| 0 <= m < k ==> v@[m] != *x,
        decreases v@.len() - k,
    {
        if range_eq(&v[k], x) {
            return true;
        }
        k = k + 1;
    }
    false
}

proof fn lemma_push_to_set(s: Seq<Range<u64>>, x: Range<u64>)
    ensures
        s.push(x).to_set() == s.to_set().insert(x),
{
    assert forall|y: Range<u64>| #[trigger] s.push(x).to_set().contains(y)
        implies s.to_set().insert(x).contains(y) by {
        let idx = choose|idx: int| 0 <= idx < s.push(x).len() && s.push(x)[idx] == y;
        if idx < s.len() {
            assert(s[idx] == y);
        }
    }
    assert forall|y: Range<u64>| #[trigger] s.to_set().insert(x).contains(y)
        implies s.push(x).to_set().contains(y) by {
        if s.to_set().contains(y) {
            let idx = choose|idx: int| 0 <= idx < s.len() && s[idx] == y;
            assert(s.push(x)[idx] == y);
        } else {
            assert(s.push(x)[s.len() as int] == y);
        }
    }
    assert(s.push(x).to_set() =~= s.to_set().insert(x));
}

proof fn lemma_push_nodup(s: Seq<Range<u64>>, x: Range<u64>)
    requires
        s.no_duplicates(),
        !s.contains(x),
    ensures
        s.push(x).no_duplicates(),
{
    let p = s.push(x);
    assert forall|i: int, j: int| 0 <= i < p.len() && 0 <= j < p.len() && i != j
        implies p[i] != p[j] by {
        if i < s.len() && j < s.len() {
            assert(p[i] == s[i] && p[j] == s[j]);
        } else if i == s.len() {
            assert(p[i] == x);
            if p[j] == x {
                assert(s[j] == x);
                assert(s.contains(x));
            }
        } else {
            assert(p[j] == x);
            if p[i] == x {
                assert(s[i] == x);
                assert(s.contains(x));
            }
        }
    }
}

/// Merge overlapping, contained and duplicated elements of `list`: the
/// result holds exactly the elements of [`merged_range_set`] of the input,
/// each once.
pub fn merge_ranges(list: &Vec<Range<u64>>) -> (out: Vec<Range<u64>>)
    ensures
        out@.to_set() == merged_range_set(list@),
        out@.no_duplicates(),
{
    let n = list.len();
    let ghost a = list@;

    // Phase 1: visit every pair once, recording evictions and updates.
    let mut evict: Vec<bool> = Vec::new();
    let mut t: usize = 0;
    while t < n
        invariant
            0 <= t <= n,
            evict@ =~= Seq::new(t as nat, |k: int| false),
        decreases n - t,
    {
        evict.push(false);
        t = t + 1;
    }
    let mut upd: Vec<(usize, u64)> = Vec::new();
    proof {
        assert(MergeState { evict: evict@, upd: upd@ } =~= outer_rows(a, 0)) by {
            assert(evict@ =~= Seq::new(a.len(), |k: int| false));
            assert(upd@ =~= Seq::<(usize, u64)>::empty());
        }
    }
    let mut i: usize = 0;
    while i < n
        invariant
            0 <= i <= n,
            n == a.len(),
            a == list@,
            evict@.len() == n,
            (MergeState { evict: evict@, upd: upd@ }) == outer_rows(a, i),
        decreases n - i,
    {
        let mut j: usize = i + 1;
        proof {
            assert(inner_pairs(outer_rows(a, i), a, i, (i + 1) as usize) == outer_rows(a, i));
        }
        while j < n
            invariant
                i < j <= n,
                i < n,
                n == a.len(),
                a == list@,
                evict@.len() == n,
                (MergeState { evict: evict@, upd: upd@ }) == inner_pairs(outer_rows(a, i), a, i, j),
            decreases n - j,
        {
            let ghost pre = MergeState { evict: evict@, upd: upd@ };
            let r1 = list[i];
            let r2 = list[j];
            if !range_eq(&r1, &r2) {
                match (r1.end, r2.end) {
                    (Option::Some(e1), Option::Some(e2)) => {
                        if r1.start >= r2.start && e1 <= e2 {
                            evict.set(i, true);
                        } else if r1.start < r2.start && e1 >= r2.start && e1 <= e2 {
                            evict.set(i, true);
                            upd.push((j, r1.start));
                        } else if r1.start < r2.start && e1 > e2 {
                            evict.set(j, true);
                        } else if r1.start >= r2.start && r1.start <= e2 && e1 > e2 {
                            evict.set(j, true);
                            upd.push((i, r2.start));
                        }
                    },
                    (Option::Some(e1), Option::None) => {
                        if r2.start >= r1.start && r2.start <= e1 {
                            evict.set(j, true);
                        }
                    },
                    (Option::None, Option::Some(e2)) => {
                        if r1.start >= r2.start && r1.start <= e2 {
                            evict.set(i, true);
                        }
                    },
                    (Option::None, Option::None) => {},
                }
            }
            proof {
                assert(MergeState { evict: evict@, upd: upd@ } =~~= do_pair(pre, a, i, j));
                assert(inner_pairs(outer_rows(a, i), a, i, (j + 1) as usize)
                    == do_pair(inner_pairs(outer_rows(a, i), a, i, j), a, i, j));
            }
            j = j + 1;
        }
        proof {
            assert(outer_rows(a, (i + 1) as usize)
                == inner_pairs(outer_rows(a, i), a, i, n as usize));
        }
        i = i + 1;
    }
    let ghost decisions = merge_decisions(a);
    proof {
        assert(decisions == MergeState { evict: evict@, upd: upd@ });
    }

    // Phase 2: apply the start-updates, in order.
    let mut nums: Vec<Range<u64>> = Vec::new();
    let mut t2: usize = 0;
    while t2 < n
        invariant
            0 <= t2 <= n,
            n == a.len(),
            a == list@,
            nums@ =~= a.subrange(0, t2 as int),
        decreases n - t2,
    {
        nums.push(list[t2]);
        t2 = t2 + 1;
    }
    proof {
        assert(nums@ =~= a);
    }
    let mut k: usize = 0;
    while k < upd.len()
        invariant
            0 <= k <= upd@.len(),
            nums@ == apply_updates(a, upd@.subrange(0, k as int)),
            nums@.len() == a.len(),
        decreases upd@.len() - k,
    {
        let (iu, v) = upd[k];
        let ghost before = nums@;
        if iu < nums.len() {
            let mut r = nums[iu];
            r.start = v;
            nums.set(iu, r);
        }
        proof {
            let pk1 = upd@.subrange(0, k + 1);
            assert(pk1.drop_last() =~= upd@.subrange(0, k as int));
            assert(pk1.last() == upd@[k as int]);
            assert(nums@ =~= apply_updates(a, pk1));
        }
        k = k + 1;
    }
    proof {
        assert(upd@.subrange(0, upd@.len() as int) =~= upd@);
    }

    // Phase 3: drop the evicted indices.
    let mut kept: Vec<Range<u64>> = Vec::new();
    let ghost b = nums@;
    let mut k3: usize = 0;
    while k3 < n
        invariant
            0 <= k3 <= n,
            b.len() == n,
            b == nums@,
            evict@.len() == n,
            kept@ + keep_unevicted(b, evict@, k3 as int) == keep_unevicted(b, evict@, 0),
        decreases n - k3,
    {
        let ghost before = kept@;
        if !evict[k3] {
            kept.push(nums[k3]);
        }
        proof {
            if evict@[k3 as int] {
                assert(keep_unevicted(b, evict@, k3 as int)
                    == keep_unevicted(b, evict@, k3 + 1));
            } else {
                assert(keep_unevicted(b, evict@, k3 as int)
                    =~= seq![b[k3 as int]] + keep_unevicted(b, evict@, k3 + 1));
                assert(kept@ + keep_unevicted(b, evict@, k3 + 1)
                    =~= before + keep_unevicted(b, evict@, k3 as int));
            }
        }
        k3 = k3 + 1;
    }
    proof {
        assert(keep_unevicted(b, evict@, n as int) =~= Seq::<Range<u64>>::empty());
        assert(kept@ =~= kept@ + keep_unevicted(b, evict@, n as int));
        assert(kept@ == merge_seq(a));
    }

    // Phase 4: deduplicate, preserving the set of elements.
    let mut out: Vec<Range<u64>> = Vec::new();
    let mut k4: usize = 0;
    while k4 < kept.len()
        invariant
            0 <= k4 <= kept@.len(),
            out@.no_duplicates(),
            out@.to_set() == kept@.subrange(0, k4 as int).to_set(),
        decreases kept@.len() - k4,
    {
        let x = kept[k4];
        let ghost before = out@;
        if !vec_contains_range(&out, &x) {
            out.push(x);
            proof {
                lemma_push_nodup(before, x);
                lemma_push_to_set(before, x);
            }
        }
        proof {
            let p0 = kept@.subrange(0, k4 as int);
            let p1 = kept@.subrange(0, k4 + 1);
            assert(p1.drop_last() =~= p0);
            lemma_push_to_set(p0, x);
            assert(p0.push(x) =~= p1);
            if before.contains(x) {
                assert(before.to_set().insert(x) =~= before.to_set());
                assert(out@.to_set() =~= p1.to_set());
            } else {
                assert(out@.to_set() =~= p1.to_set());
            }
        }
        k4 = k4 + 1;
    }
    proof {
        assert(kept@.subrange(0, kept@.len() as int) =~= kept@);
        assert(out@.to_set() == merged_range_set(a));
    }
    out
}


/// A well-formed proper range: two bounds, strictly ordered.
pub open spec fn proper_range(r: Range<u64>) -> bool {
    r.end is Some && r.start < r.end->0
}

/// Bookkeeping well-formedness through the reduction: the eviction marks
/// cover every index, and every queued update targets a proper-range index.
pub open spec fn st_wf(st: MergeState, a: Seq<Range<u64>>) -> bool {
    &&& st.evict.len() == a.len()
    &&& forall|t: int|
        0 <= t < st.upd.len() ==> (#[trigger] st.upd[t]).0 < a.len() && a[st.upd[t].0 as int].end is Some
}

proof fn lemma_do_pair_wf(st: MergeState, a: Seq<Range<u64>>, i: usize, j: usize)
    requires
        st_wf(st, a),
        i < j < a.len(),
    ensures
        st_wf(do_pair(st, a, i, j), a),
        forall|m: int| 0 <= m < a.len() && st.evict[m] ==> do_pair(st, a, i, j).evict[m],
{
    let r = do_pair(st, a, i, j);
    assert forall|t: int| 0 <= t < r.upd.len()
        implies (#[trigger] r.upd[t]).0 < a.len() && a[r.upd[t].0 as int].end is Some by {
        if t < st.upd.len() {
            assert(r.upd[t] == st.upd[t]);
        }
    }
}

proof fn lemma_inner_wf(st: MergeState, a: Seq<Range<u64>>, i: usize, j: usize)
    requires
        st_wf(st, a),
        (i as int) < a.len(),
        i + 1 <= j <= a.len(),
    ensures
        st_wf(inner_pairs(st, a, i, j), a),
        forall|m: int| 0 <= m < a.len() && st.evict[m] ==> inner_pairs(st, a, i, j).evict[m],
    decreases j,
{
    if j <= i + 1 {
    } else {
        lemma_inner_wf(st, a, i, (j - 1) as usize);
        lemma_do_pair_wf(inner_pairs(st, a, i, (j - 1) as usize), a, i, (j - 1) as usize);
    }
}

proof fn lemma_outer_wf(a: Seq<Range<u64>>, i: usize)
    requires
        i <= a.len(),
        a.len() <= usize::MAX,
    ensures
        st_wf(outer_rows(a, i), a),
    decreases i,
{
    if i == 0 {
    } else {
        lemma_outer_wf(a, (i - 1) as usize);
        if ((i - 1) as int) < a.len() {
            lemma_inner_wf(outer_rows(a, (i - 1) as usize), a, (i - 1) as usize, a.len() as usize);
        } else {
            assert(inner_pairs(outer_rows(a, (i - 1) as usize), a, (i - 1) as usize, a.len() as usize)
                == outer_rows(a, (i - 1) as usize));
        }
    }
}

/// The scalar-inside-range shape at the pair `(i, j)`: whichever side the
/// scalar stands on, its index `k` is marked for eviction.
proof fn lemma_do_pair_scalar(st: MergeState, a: Seq<Range<u64>>, i: usize, j: usize, k: int, l: int)
    requires
        st_wf(st, a),
        i < j < a.len(),
        (i as int == k && j as int == l) || (i as int == l && j as int == k),
        a[k].end is None,
        a[l].end is Some,
        a[l].start <= a[k].start <= a[l].end->0,
    ensures
        do_pair(st, a, i, j).evict[k],
{
    assert(a[k] != a[l]);
}

proof fn lemma_inner_scalar(st: MergeState, a: Seq<Range<u64>>, i: usize, j: usize, j0: usize, k: int, l: int)
    requires
        st_wf(st, a),
        (i as int) < a.len(),
        i < j0 < j <= a.len(),
        (i as int == k && j0 as int == l) || (i as int == l && j0 as int == k),
        a[k].end is None,
        a[l].end is Some,
        a[l].start <= a[k].start <= a[l].end->0,
    ensures
        inner_pairs(st, a, i, j).evict[k],
    decreases j,
{
    let prev = inner_pairs(st, a, i, (j - 1) as usize);
    lemma_inner_wf(st, a, i, (j - 1) as usize);
    if j - 1 == j0 {
        lemma_do_pair_scalar(prev, a, i, (j - 1) as usize, k, l);
    } else {
        lemma_inner_scalar(st, a, i, (j - 1) as usize, j0, k, l);
        lemma_do_pair_wf(prev, a, i, (j - 1) as usize);
        assert(0 <= k < a.len());
    }
}

proof fn lemma_outer_scalar(a: Seq<Range<u64>>, i: usize, k: int, l: int)
    requires
        a.len() <= usize::MAX,
        i <= a.len(),
        0 <= k < a.len(),
        0 <= l < a.len(),
        k != l,
        (if k < l { k } else { l }) < i as int,
        a[k].end is None,
        a[l].end is Some,
        a[l].start <= a[k].start <= a[l].end->0,
    ensures
        outer_rows(a, i).evict[k],
    decreases i,
{
    let i0: int = if k < l { k } else { l };
    let j0: int = if k < l { l } else { k };
    let prev = outer_rows(a, (i - 1) as usize);
    lemma_outer_wf(a, (i - 1) as usize);
    if i - 1 == i0 {
        lemma_inner_scalar(prev, a, (i - 1) as usize, a.len() as usize, j0 as usize, k, l);
    } else {
        lemma_outer_scalar(a, (i - 1) as usize, k, l);
        lemma_inner_wf(prev, a, (i - 1) as usize, a.len() as usize);
    }
}

proof fn lemma_apply_updates_ends(a: Seq<Range<u64>>, upd: Seq<(usize, u64)>)
    ensures
        apply_updates(a, upd).len() == a.len(),
        forall|m: int| 0 <= m < a.len() ==> (#[trigger] apply_updates(a, upd)[m]).end == a[m].end,
        (forall|t: int| 0 <= t < upd.len() ==> a[(#[trigger] upd[t]).0 as int].end is Some)
            ==> forall|m: int| 0 <= m < a.len() && a[m].end is None
                ==> #[trigger] apply_updates(a, upd)[m] == a[m],
    decreases upd.len(),
{
    if upd.len() == 0 {
    } else {
        lemma_apply_updates_ends(a, upd.drop_last());
        assert(forall|t: int| 0 <= t < upd.len() - 1 ==> upd.drop_last()[t] == upd[t]);
    }
}

proof fn lemma_keep_member(b: Seq<Range<u64>>, ev: Seq<bool>, t: int, x: Range<u64>)
    requires
        keep_unevicted(b, ev, t).contains(x),
    ensures
        exists|m: int|
            t <= m < b.len() && b[m] == x && !(m < ev.len() && ev[m]),
    decreases b.len() - t,
{
    if t < 0 || t >= b.len() {
        assert(false);
    } else if t < ev.len() && ev[t] {
        lemma_keep_member(b, ev, t + 1, x);
    } else {
        let rest = keep_unevicted(b, ev, t + 1);
        let whole = seq![b[t]] + rest;
        if x == b[t] {
            assert(t <= t < b.len() && b[t] == x && !(t < ev.len() && ev[t]));
        } else {
            let idx = choose|idx: int| 0 <= idx < whole.len() && whole[idx] == x;
            assert(idx >= 1);
            assert(rest[idx - 1] == x);
            assert(rest.contains(x));
            lemma_keep_member(b, ev, t + 1, x);
        }
    }
}

/// Merging drops a scalar that lies inside some range of the input: the
/// merged set never holds the scalar's value. `k` is the scalar's index and
/// `l` the index of a range that covers it.
pub proof fn lemma_merge_drops_inner_scalar(s: Seq<Range<u64>>, k: int, l: int)
    requires
        s.len() <= usize::MAX,
        0 <= k < s.len(),
        0 <= l < s.len(),
        k != l,
        s[k].end is None,
        s[l].end is Some,
        s[l].start <= s[k].start <= s[l].end->0,
    ensures
        !merged_range_set(s).contains(s[k]),
{
    let st = merge_decisions(s);
    lemma_outer_wf(s, s.len() as usize);
    lemma_outer_scalar(s, s.len() as usize, k, l);
    let b = apply_updates(s, st.upd);
    lemma_apply_updates_ends(s, st.upd);
    if merged_range_set(s).contains(s[k]) {
        assert(merge_seq(s).contains(s[k]));
        lemma_keep_member(b, st.evict, 0, s[k]);
        let m = choose|m: int|
            0 <= m < b.len() && b[m] == s[k] && !(m < st.evict.len() && st.evict[m]);
        assert(b[m].end == s[m].end);
        assert(s[m].end is None);
        assert(b[m] == s[m]);
        assert(s[m] == s[k]);
        assert(m != l);
        lemma_outer_scalar(s, s.len() as usize, m, l);
        assert(false);
    }
}

proof fn lemma_two_decisions(x: Range<u64>, y: Range<u64>)
    ensures
        merge_decisions(seq![x, y]) == do_pair(init_state(2), seq![x, y], 0, 1),
{
    let s = seq![x, y];
    assert(s.len() == 2);
    reveal_with_fuel(outer_rows, 4);
    reveal_with_fuel(inner_pairs, 4);
    assert(outer_rows(s, 2) == inner_pairs(outer_rows(s, 1), s, 1, 2));
    assert(inner_pairs(outer_rows(s, 1), s, 1, 2) == outer_rows(s, 1));
    assert(outer_rows(s, 1) == inner_pairs(outer_rows(s, 0), s, 0, 2));
    assert(outer_rows(s, 0) == init_state(2));
    assert(inner_pairs(init_state(2), s, 0, 2) == do_pair(inner_pairs(init_state(2), s, 0, 1), s, 0, 1));
    assert(inner_pairs(init_state(2), s, 0, 1) == init_state(2));
}

proof fn lemma_two_result(x: Range<u64>, y: Range<u64>)
    ensures
        merge_seq(seq![x, y]) == ({
            let st = do_pair(init_state(2), seq![x, y], 0, 1);
            keep_unevicted(apply_updates(seq![x, y], st.upd), st.evict, 0)
        }),
{
    lemma_two_decisions(x, y);
}

/// Merging a two-element set where one range contains the other (and they
/// differ) yields exactly the containing range, in either element order.
pub proof fn lemma_merge_contained(a: Range<u64>, b: Range<u64>)
    requires
        proper_range(a),
        proper_range(b),
        a.start <= b.start,
        b.end->0 <= a.end->0,
        a != b,
    ensures
        merged_range_set(seq![a, b]) == set![a],
        merged_range_set(seq![b, a]) == set![a],
{
    reveal_with_fuel(apply_updates, 3);
    reveal_with_fuel(keep_unevicted, 4);
    let ea = a.end->0;
    let eb = b.end->0;
    // order [a, b]: a first, the contained b second
    {
        let s = seq![a, b];
        lemma_two_result(a, b);
        let st = do_pair(init_state(2), s, 0, 1);
        if a.start < b.start && ea >= b.start && ea <= eb {
            // shared upper bound: b is widened down to a.start, a evicted
            assert(ea == eb);
            let upd1 = st.upd;
            assert(upd1 == Seq::<(usize, u64)>::empty().push((1usize, a.start)));
            let bp = apply_updates(s, upd1);
            assert(upd1.drop_last() =~= Seq::<(usize, u64)>::empty());
            assert(bp =~= seq![a, Range { start: a.start, end: b.end }]);
            assert(Range { start: a.start, end: b.end } == a);
            assert(merge_seq(s) =~= seq![a]);
        } else {
            assert(ea > eb || (a.start >= b.start));
            if a.start >= b.start {
                assert(a.start == b.start);
                if ea <= eb {
                    assert(a == b);
                    assert(false);
                }
                // branch: a keeps, b evicted, a.start updated to b.start (no-op)
                let upd1 = st.upd;
                assert(upd1 == Seq::<(usize, u64)>::empty().push((0usize, b.start)));
                let bp = apply_updates(s, upd1);
                assert(upd1.drop_last() =~= Seq::<(usize, u64)>::empty());
                assert(bp =~= seq![Range { start: b.start, end: a.end }, b]);
                assert(Range { start: b.start, end: a.end } == a);
                assert(merge_seq(s) =~= seq![a]);
            } else {
                // strict containment: b evicted, no update
                assert(st.upd =~= Seq::<(usize, u64)>::empty());
                assert(apply_updates(s, st.upd) == s);
                assert(merge_seq(s) =~= seq![a]);
            }
        }
        assert(merged_range_set(s) =~= set![a]) by {
            assert(merge_seq(s) =~= seq![a]);
            assert(seq![a].contains(a)) by {
                assert(seq![a][0] == a);
            }
            assert forall|z: Range<u64>| seq![a].contains(z) implies z == a by {
                let idx = choose|idx: int| 0 <= idx < 1 && seq![a][idx] == z;
            }
        }
    }
    // order [b, a]: the contained b first
    {
        let s = seq![b, a];
        lemma_two_result(b, a);
        let st = do_pair(init_state(2), s, 0, 1);
        // r1 = b, r2 = a: b.start >= a.start and eb <= ea, so b is evicted
        assert(st.upd =~= Seq::<(usize, u64)>::empty());
        assert(apply_updates(s, st.upd) == s);
        assert(merge_seq(s) =~= seq![a]);
        assert(merged_range_set(s) =~= set![a]) by {
            assert(seq![a].contains(a)) by {
                assert(seq![a][0] == a);
            }
            assert forall|z: Range<u64>| seq![a].contains(z) implies z == a by {
                let idx = choose|idx: int| 0 <= idx < 1 && seq![a][idx] == z;
            }
        }
    }
}

/// Merging a two-element set of genuinely overlapping ranges (`a` begins
/// first, `b` ends last, and they meet) yields exactly their union, in
/// either element order.
pub proof fn lemma_merge_overlapping(a: Range<u64>, b: Range<u64>)
    requires
        proper_range(a),
        proper_range(b),
        a.start < b.start,
        b.start <= a.end->0,
        a.end->0 < b.end->0,
    ensures
        merged_range_set(seq![a, b]) == set![Range { start: a.start, end: b.end }],
        merged_range_set(seq![b, a]) == set![Range { start: a.start, end: b.end }],
{
    reveal_with_fuel(apply_updates, 3);
    reveal_with_fuel(keep_unevicted, 4);
    let u = Range { start: a.start, end: b.end };
    // order [a, b]: a reaches into b, so a is evicted and b widened
    {
        let s = seq![a, b];
        lemma_two_result(a, b);
        let st = do_pair(init_state(2), s, 0, 1);
        assert(st.upd == Seq::<(usize, u64)>::empty().push((1usize, a.start)));
        let bp = apply_updates(s, st.upd);
        assert(st.upd.drop_last() =~= Seq::<(usize, u64)>::empty());
        assert(bp =~= seq![a, u]);
        assert(merge_seq(s) =~= seq![u]);
        assert(merged_range_set(s) =~= set![u]) by {
            assert(seq![u].contains(u)) by {
                assert(seq![u][0] == u);
            }
            assert forall|z: Range<u64>| seq![u].contains(z) implies z == u by {
                let idx = choose|idx: int| 0 <= idx < 1 && seq![u][idx] == z;
            }
        }
    }
    // order [b, a]: a reaches into b from below, so a is evicted and b widened
    {
        let s = seq![b, a];
        lemma_two_result(b, a);
        let st = do_pair(init_state(2), s, 0, 1);
        assert(st.upd == Seq::<(usize, u64)>::empty().push((0usize, a.start)));
        let bp = apply_updates(s, st.upd);
        assert(st.upd.drop_last() =~= Seq::<(usize, u64)>::empty());
        assert(bp =~= seq![u, a]);
        assert(merge_seq(s) =~= seq![u]);
        assert(merged_range_set(s) =~= set![u]) by {
            assert(seq![u].contains(u)) by {
                assert(seq![u][0] == u);
            }
            assert forall|z: Range<u64>| seq![u].contains(z) implies z == u by {
                let idx = choose|idx: int| 0 <= idx < 1 && seq![u][idx] == z;
            }
        }
    }
}


/// Every queued update value is the start of some input element.
pub open spec fn upd_vals_ok(st: MergeState, a: Seq<Range<u64>>) -> bool {
    forall|t: int| 0 <= t < st.upd.len() ==> exists|i0: int|
        0 <= i0 < a.len() && (#[trigger] st.upd[t]).1 == a[i0].start
}

proof fn lemma_do_pair_vals(st: MergeState, a: Seq<Range<u64>>, i: usize, j: usize)
    requires
        upd_vals_ok(st, a),
        i < j < a.len(),
    ensures
        upd_vals_ok(do_pair(st, a, i, j), a),
{
    let r = do_pair(st, a, i, j);
    assert forall|t: int| 0 <= t < r.upd.len()
        implies exists|i0: int| 0 <= i0 < a.len() && (#[trigger] r.upd[t]).1 == a[i0].start by {
        if t < st.upd.len() {
            assert(r.upd[t] == st.upd[t]);
        } else {
            assert(r.upd[t].1 == a[i as int].start || r.upd[t].1 == a[j as int].start);
        }
    }
}

proof fn lemma_inner_vals(st: MergeState, a: Seq<Range<u64>>, i: usize, j: usize)
    requires
        upd_vals_ok(st, a),
        (i as int) < a.len(),
        i + 1 <= j <= a.len(),
    ensures
        upd_vals_ok(inner_pairs(st, a, i, j), a),
    decreases j,
{
    if j <= i + 1 {
    } else {
        lemma_inner_vals(st, a, i, (j - 1) as usize);
        lemma_do_pair_vals(inner_pairs(st, a, i, (j - 1) as usize), a, i, (j - 1) as usize);
    }
}

proof fn lemma_outer_vals(a: Seq<Range<u64>>, i: usize)
    requires
        i <= a.len(),
        a.len() <= usize::MAX,
    ensures
        upd_vals_ok(outer_rows(a, i), a),
    decreases i,
{
    if i == 0 {
    } else {
        lemma_outer_vals(a, (i - 1) as usize);
        if ((i - 1) as int) < a.len() {
            lemma_inner_vals(outer_rows(a, (i - 1) as usize), a, (i - 1) as usize, a.len() as usize);
        } else {
            assert(inner_pairs(outer_rows(a, (i - 1) as usize), a, (i - 1) as usize, a.len() as usize)
                == outer_rows(a, (i - 1) as usize));
        }
    }
}

proof fn lemma_apply_updates_starts(a: Seq<Range<u64>>, upd: Seq<(usize, u64)>)
    ensures
        forall|m: int| 0 <= m < a.len() ==> ((#[trigger] apply_updates(a, upd)[m]).start
            == a[m].start || exists|t: int| 0 <= t < upd.len() && (#[trigger] upd[t]).1
            == apply_updates(a, upd)[m].start),
    decreases upd.len(),
{
    lemma_apply_updates_ends(a, upd);
    if upd.len() == 0 {
    } else {
        lemma_apply_updates_starts(a, upd.drop_last());
        assert(forall|t: int| 0 <= t < upd.len() - 1 ==> upd.drop_last()[t] == upd[t]);
        let b = apply_updates(a, upd.drop_last());
        let r = apply_updates(a, upd);
        assert forall|m: int| 0 <= m < a.len()
            implies ((#[trigger] r[m]).start == a[m].start || exists|t: int|
                0 <= t < upd.len() && (#[trigger] upd[t]).1 == r[m].start) by {
            if m == upd.last().0 as int && (upd.last().0 as int) < b.len() {
                assert(upd[upd.len() - 1].1 == r[m].start);
            } else {
                assert(r[m] == b[m]);
                if b[m].start != a[m].start {
                    let t0 = choose|t: int| 0 <= t < upd.drop_last().len()
                        && (#[trigger] upd.drop_last()[t]).1 == b[m].start;
                    assert(upd[t0].1 == r[m].start);
                }
            }
        }
    }
}

/// Every merged element takes its start from some input element's start and
/// its end from some input element's end.
pub proof fn lemma_merge_values_from_input(a: Seq<Range<u64>>)
    requires
        a.len() <= usize::MAX,
    ensures
        forall|x: Range<u64>| #[trigger] merged_range_set(a).contains(x) ==> (exists|i: int|
            0 <= i < a.len() && x.start == (#[trigger] a[i]).start) && (exists|j: int|
            0 <= j < a.len() && x.end == (#[trigger] a[j]).end),
{
    let st = merge_decisions(a);
    lemma_outer_vals(a, a.len() as usize);
    lemma_apply_updates_ends(a, st.upd);
    lemma_apply_updates_starts(a, st.upd);
    let b = apply_updates(a, st.upd);
    assert forall|x: Range<u64>| #[trigger] merged_range_set(a).contains(x)
        implies (exists|i: int| 0 <= i < a.len() && x.start == (#[trigger] a[i]).start)
            && (exists|j: int| 0 <= j < a.len() && x.end == (#[trigger] a[j]).end) by {
        assert(merge_seq(a).contains(x));
        lemma_keep_member(b, st.evict, 0, x);
        let m = choose|m: int| 0 <= m < b.len() && b[m] == x && !(m < st.evict.len()
            && st.evict[m]);
        assert(b[m].end == a[m].end);
        if b[m].start == a[m].start {
            assert(x.start == a[m].start);
        } else {
            let t0 = choose|t: int| 0 <= t < st.upd.len() && (#[trigger] st.upd[t]).1
                == b[m].start;
            let i0 = choose|i0: int| 0 <= i0 < a.len() && st.upd[t0].1 == (#[trigger] a[i0]).start;
            assert(x.start == a[i0].start);
        }
    }
}


/// Every pair of two-bound ranges falls into a handled shape: containment
/// one way or the other, partial overlap one way or the other, or
/// disjointness. No other overlap shape exists, so the reduction's case
/// split is exhaustive.
pub proof fn lemma_pair_shapes_exhaustive(r1: Range<u64>, r2: Range<u64>)
    requires
        r1.end is Some,
        r2.end is Some,
    ensures
        ({
            let e1 = r1.end->0;
            let e2 = r2.end->0;
            ||| (r1.start >= r2.start && e1 <= e2)
            ||| (r1.start < r2.start && e1 >= r2.start && e1 <= e2)
            ||| (r1.start < r2.start && e1 > e2)
            ||| (r1.start >= r2.start && r1.start <= e2 && e1 > e2)
            ||| (e1 < r2.start || e2 < r1.start)
        }),
{
}

} // verus!

//! Tracks: validated, time-ordered, non-overlapping collections of cuts.
//!
//! A [`Track`] is built once from an unordered collection of cuts. The
//! constructor sorts the cuts by interval and rejects the whole collection
//! if any two adjacent cuts of the sorted arrangement overlap; no partial
//! track escapes. Once built, the track is immutable and answers the
//! "which cut is active at time `t`" query by binary search, in logarithmic
//! time, with the same result as a naive linear scan.
//!
//! The time domain is totally ordered, so sorting needs no policy for
//! incomparable time values; cuts with equal intervals keep their given
//! order (the sort is stable).

use vstd::prelude::*;
use vstd::seq_lib::group_to_multiset_ensures;

use crate::cut::cut_contains;
use crate::cut::cut_wf;
use crate::cut::cuts_disjoint;
use crate::cut::Cut;

verus! {

/// Ordering of cuts by interval: first by start, then by stop.
pub open spec fn cut_le(a: Cut, b: Cut) -> bool {
    a.start_t < b.start_t || (a.start_t == b.start_t && a.stop_t <= b.stop_t)
}

/// Every pair of positions of `s` is ordered by [`cut_le`].
pub open spec fn cuts_ordered(s: Seq<Cut>) -> bool {
    forall|i: int, j: int| 0 <= i <= j < s.len() ==> cut_le(s[i], s[j])
}

/// Adjacent cuts of `s` do not overlap: each stops no later than the next
/// starts.
pub open spec fn cuts_separated(s: Seq<Cut>) -> bool {
    forall|i: int| 0 <= i < s.len() - 1 ==> s[i].stop_t <= s[i + 1].start_t
}

/// Every cut of `s` has ordered bounds.
pub open spec fn cuts_wf(s: Seq<Cut>) -> bool {
    forall|i: int| 0 <= i < s.len() ==> cut_wf(s[i])
}

/// No two cuts of `s` cover a common instant.
pub open spec fn pairwise_disjoint(s: Seq<Cut>) -> bool {
    forall|i: int, j: int| 0 <= i < j < s.len() ==> cuts_disjoint(s[i], s[j])
}

/// `c` placed into `s` after every cut that compares [`cut_le`] to it; on a
/// sequence sorted by `cut_le` this keeps the order and is stable.
pub open spec fn insert_cut(s: Seq<Cut>, c: Cut) -> Seq<Cut>
    decreases s.len(),
{
    if s.len() == 0 {
        seq![c]
    } else if cut_le(s.last(), c) {
        s.push(c)
    } else {
        insert_cut(s.drop_last(), c).push(s.last())
    }
}

/// Stable insertion sort of `s` by [`cut_le`]: the canonical arrangement a
/// track stores.
pub open spec fn sort_cuts(s: Seq<Cut>) -> Seq<Cut>
    decreases s.len(),
{
    if s.len() == 0 {
        Seq::empty()
    } else {
        insert_cut(sort_cuts(s.drop_last()), s.last())
    }
}

/// The first cut of `s`, in order, whose interval contains `t`: the naive
/// linear scan that the track's binary search agrees with.
pub open spec fn scan_active(s: Seq<Cut>, t: i64) -> Option<Cut>
    decreases s.len(),
{
    if s.len() == 0 {
        None
    } else if cut_contains(s[0], t) {
        Some(s[0])
    } else {
        scan_active(s.drop_first(), t)
    }
}

proof fn lemma_insert_cut_multiset(s: Seq<Cut>, c: Cut)
    ensures
        insert_cut(s, c).to_multiset() == s.to_multiset().insert(c),
    decreases s.len(),
{
    broadcast use group_to_multiset_ensures;

    if s.len() == 0 {
        assert(seq![c] =~= Seq::<Cut>::empty().push(c));
        assert(insert_cut(s, c).to_multiset() =~= s.to_multiset().insert(c));
    } else if cut_le(s.last(), c) {
        assert(s.push(c).to_multiset() =~= s.to_multiset().insert(c));
    } else {
        let dl = s.drop_last();
        lemma_insert_cut_multiset(dl, c);
        assert(s =~= dl.push(s.last()));
        assert(insert_cut(dl, c).push(s.last()).to_multiset() =~= insert_cut(
            dl,
            c,
        ).to_multiset().insert(s.last()));
        assert(dl.to_multiset().insert(c).insert(s.last()) =~= dl.to_multiset().insert(
            s.last(),
        ).insert(c));
        assert(s.to_multiset() =~= dl.to_multiset().insert(s.last()));
    }
}

proof fn lemma_sort_cuts_multiset(s: Seq<Cut>)
    ensures
        sort_cuts(s).to_multiset() == s.to_multiset(),
    decreases s.len(),
{
    broadcast use group_to_multiset_ensures;

    if s.len() == 0 {
        assert(sort_cuts(s).to_multiset() =~= s.to_multiset());
    } else {
        let dl = s.drop_last();
        lemma_sort_cuts_multiset(dl);
        lemma_insert_cut_multiset(sort_cuts(dl), s.last());
        assert(s =~= dl.push(s.last()));
        assert(s.to_multiset() =~= dl.to_multiset().insert(s.last()));
    }
}

/// Sorting keeps exactly the given cuts: each one present in the result came
/// from the input and the other way round.
pub proof fn lemma_sort_cuts_contains(s: Seq<Cut>, x: Cut)
    ensures
        sort_cuts(s).contains(x) <==> s.contains(x),
{
    broadcast use group_to_multiset_ensures;

    lemma_sort_cuts_multiset(s);
    assert(sort_cuts(s).contains(x) <==> sort_cuts(s).to_multiset().count(x) > 0);
    assert(s.contains(x) <==> s.to_multiset().count(x) > 0);
}

/// Sorting keeps the number of cuts.
pub proof fn lemma_sort_cuts_len(s: Seq<Cut>)
    ensures
        sort_cuts(s).len() == s.len(),
{
    broadcast use group_to_multiset_ensures;

    lemma_sort_cuts_multiset(s);
    assert(sort_cuts(s).len() == sort_cuts(s).to_multiset().len());
    assert(s.len() == s.to_multiset().len());
}

proof fn lemma_insert_cut_ordered(s: Seq<Cut>, c: Cut)
    requires
        cuts_ordered(s),
    ensures
        cuts_ordered(insert_cut(s, c)),
    decreases s.len(),
{
    broadcast use group_to_multiset_ensures;

    if s.len() == 0 {
        let r = insert_cut(s, c);
        assert forall|i: int, j: int| 0 <= i <= j < r.len() implies cut_le(r[i], r[j]) by {
            assert(r[i] == c && r[j] == c);
        }
    } else if cut_le(s.last(), c) {
        let r = s.push(c);
        assert forall|i: int, j: int| 0 <= i <= j < r.len() implies cut_le(r[i], r[j]) by {
            if j < s.len() {
                assert(cut_le(s[i], s[j]));
            } else if i < s.len() {
                assert(cut_le(s[i], s.last()));
            }
        }
    } else {
        let dl = s.drop_last();
        lemma_insert_cut_ordered(dl, c);
        lemma_insert_cut_multiset(dl, c);
        let q = insert_cut(dl, c);
        assert forall|i: int| 0 <= i < q.len() implies cut_le(q[i], s.last()) by {
            assert(q.contains(q[i]));
            assert(q.to_multiset().count(q[i]) > 0);
            if q[i] == c {
                assert(cut_le(c, s.last()));
            } else {
                assert(dl.to_multiset().count(q[i]) > 0);
                assert(dl.contains(q[i]));
                let k = choose|k: int| 0 <= k < dl.len() && dl[k] == q[i];
                assert(cut_le(s[k], s.last()));
            }
        }
        let r = q.push(s.last());
        assert forall|i: int, j: int| 0 <= i <= j < r.len() implies cut_le(r[i], r[j]) by {
            if j < q.len() {
                assert(cut_le(q[i], q[j]));
            } else if i < q.len() {
                assert(cut_le(q[i], s.last()));
            }
        }
    }
}

/// The canonical arrangement is ordered by interval.
pub proof fn lemma_sort_cuts_ordered(s: Seq<Cut>)
    ensures
        cuts_ordered(sort_cuts(s)),
    decreases s.len(),
{
    if s.len() == 0 {
    } else {
        lemma_sort_cuts_ordered(s.drop_last());
        lemma_insert_cut_ordered(sort_cuts(s.drop_last()), s.last());
    }
}

proof fn lemma_insert_cut_position(s: Seq<Cut>, c: Cut, p: int)
    requires
        cuts_ordered(s),
        0 <= p <= s.len(),
        forall|j: int| 0 <= j < p ==> cut_le(s[j], c),
        p < s.len() ==> !cut_le(s[p], c),
    ensures
        insert_cut(s, c) == s.take(p) + seq![c] + s.skip(p),
    decreases s.len(),
{
    if s.len() == 0 {
        assert(insert_cut(s, c) =~= s.take(p) + seq![c] + s.skip(p));
    } else if cut_le(s.last(), c) {
        assert(p == s.len()) by {
            if p < s.len() {
                assert(cut_le(s[p], s[s.len() - 1]));
            }
        }
        assert(insert_cut(s, c) =~= s.take(p) + seq![c] + s.skip(p));
    } else {
        let dl = s.drop_last();
        assert(p < s.len()) by {
            if p == s.len() {
                assert(cut_le(s[s.len() - 1], c));
            }
        }
        assert(cuts_ordered(dl)) by {
            assert forall|i: int, j: int| 0 <= i <= j < dl.len() implies cut_le(dl[i], dl[j]) by {
                assert(cut_le(s[i], s[j]));
            }
        }
        lemma_insert_cut_position(dl, c, p);
        assert(dl.take(p) =~= s.take(p));
        assert(insert_cut(s, c) =~= s.take(p) + seq![c] + s.skip(p));
    }
}

/// Exec comparison mirroring [`cut_le`].
fn cut_le_exec(a: &Cut, b: &Cut) -> (r: bool)
    ensures
        r == cut_le(*a, *b),
{
    a.start_t < b.start_t || (a.start_t == b.start_t && a.stop_t <= b.stop_t)
}

/// Stable insertion sort by interval, mirroring [`sort_cuts`].
fn sort_cut_vec(cuts: Vec<Cut>) -> (r: Vec<Cut>)
    ensures
        r@ == sort_cuts(cuts@),
{
    let mut out: Vec<Cut> = Vec::new();
    let mut idx: usize = 0;
    while idx < cuts.len()
        invariant
            idx <= cuts@.len(),
            out@ == sort_cuts(cuts@.take(idx as int)),
            cuts_ordered(out@),
        decreases cuts@.len() - idx,
    {
        let c = cuts[idx];
        let ghost prefix = out@;
        let mut p: usize = 0;
        while p < out.len() && cut_le_exec(&out[p], &c)
            invariant
                p <= out.len(),
                out@ == prefix,
                forall|j: int| 0 <= j < p ==> cut_le(out@[j], c),
            decreases out@.len() - p,
        {
            p += 1;
        }
        proof {
            lemma_insert_cut_position(prefix, c, p as int);
        }
        out.insert(p, c);
        proof {
            assert(out@ =~= prefix.take(p as int) + seq![c] + prefix.skip(p as int));
            assert(cuts@.take(idx + 1).drop_last() =~= cuts@.take(idx as int));
            assert(cuts@.take(idx + 1).last() == c);
            assert(out@ == sort_cuts(cuts@.take(idx + 1)));
            lemma_insert_cut_ordered(prefix, c);
        }
        idx += 1;
    }
    proof {
        assert(cuts@.take(idx as int) =~= cuts@);
    }
    out
}

/// Whether adjacent cuts of `cuts` are separated.
fn check_separated(cuts: &Vec<Cut>) -> (r: bool)
    ensures
        r == cuts_separated(cuts@),
{
    let n = cuts.len();
    if n == 0 {
        return true;
    }
    let mut i: usize = 0;
    while i + 1 < n
        invariant
            i < n,
            n == cuts@.len(),
            forall|j: int| 0 <= j < i ==> cuts@[j].stop_t <= cuts@[j + 1].start_t,
        decreases n - i,
    {
        if cuts[i].stop_t > cuts[i + 1].start_t {
            return false;
        }
        i += 1;
    }
    true
}

/// In a well-formed track every cut that starts earlier also stops before a
/// later one starts: separation of adjacent cuts extends to every pair.
pub proof fn lemma_separated_chain(s: Seq<Cut>, i: int, j: int)
    requires
        cuts_wf(s),
        cuts_separated(s),
        0 <= i < j < s.len(),
    ensures
        s[i].stop_t <= s[j].start_t,
    decreases j - i,
{
    if j == i + 1 {
    } else {
        lemma_separated_chain(s, i, j - 1);
        assert(cut_wf(s[j - 1]));
        assert(s[j - 1].stop_t <= s[j].start_t);
    }
}

/// At most one cut of a well-formed track covers a given instant.
pub proof fn lemma_active_cut_unique(s: Seq<Cut>, t: i64, i: int, j: int)
    requires
        cuts_wf(s),
        cuts_separated(s),
        0 <= i < j < s.len(),
        cut_contains(s[i], t),
    ensures
        !cut_contains(s[j], t),
{
    lemma_separated_chain(s, i, j);
}

proof fn lemma_scan_all_miss(s: Seq<Cut>, t: i64)
    requires
        forall|i: int| 0 <= i < s.len() ==> !cut_contains(s[i], t),
    ensures
        scan_active(s, t) is None,
    decreases s.len(),
{
    if s.len() == 0 {
    } else {
        assert(!cut_contains(s[0], t));
        assert forall|i: int| 0 <= i < s.drop_first().len() implies !cut_contains(
            s.drop_first()[i],
            t,
        ) by {
            assert(s.drop_first()[i] == s[i + 1]);
        }
        lemma_scan_all_miss(s.drop_first(), t);
    }
}

proof fn lemma_scan_first_hit(s: Seq<Cut>, t: i64, i: int)
    requires
        0 <= i < s.len(),
        cut_contains(s[i], t),
        forall|j: int| 0 <= j < i ==> !cut_contains(s[j], t),
    ensures
        scan_active(s, t) == Some(s[i]),
    decreases s.len(),
{
    if i == 0 {
    } else {
        assert(!cut_contains(s[0], t));
        assert forall|j: int| 0 <= j < i - 1 implies !cut_contains(s.drop_first()[j], t) by {
            assert(s.drop_first()[j] == s[j + 1]);
        }
        assert(s.drop_first()[i - 1] == s[i]);
        lemma_scan_first_hit(s.drop_first(), t, i - 1);
    }
}

/// In a well-formed track the scan returns exactly the cut that covers `t`:
/// `active` answers every in-range instant with its covering cut.
pub proof fn lemma_scan_finds_covering(s: Seq<Cut>, t: i64, i: int)
    requires
        cuts_wf(s),
        cuts_separated(s),
        0 <= i < s.len(),
        cut_contains(s[i], t),
    ensures
        scan_active(s, t) == Some(s[i]),
{
    assert forall|j: int| 0 <= j < i implies !cut_contains(s[j], t) by {
        lemma_separated_chain(s, j, i);
    }
    lemma_scan_first_hit(s, t, i);
}

/// An ordered, non-overlapping collection of cuts, immutable after
/// construction.
pub struct Track {
    cuts: Vec<Cut>,
}

impl View for Track {
    type V = Seq<Cut>;

    closed spec fn view(&self) -> Seq<Cut> {
        self.cuts@
    }
}

impl Track {
    /// The track's internal invariant: every cut has ordered bounds, the
    /// cuts are sorted by interval, and adjacent cuts do not overlap.
    pub open spec fn wf(self) -> bool {
        cuts_wf(self@) && cuts_ordered(self@) && cuts_separated(self@)
    }

    /// Sort `cuts` by interval and validate that no two of them overlap.
    ///
    /// Returns the track holding the sorted arrangement, or fails — as a
    /// whole, returning no partial track — exactly when the sorted
    /// arrangement has a pair of adjacent overlapping cuts.
    pub fn new(cuts: Vec<Cut>) -> (r: Option<Track>)
        requires
            cuts_wf(cuts@),
        ensures
            (r is Some) <==> cuts_separated(sort_cuts(cuts@)),
            r matches Some(track) ==> track@ == sort_cuts(cuts@) && track.wf(),
    {
        let sorted = sort_cut_vec(cuts);
        proof {
            lemma_sort_cuts_ordered(cuts@);
            broadcast use group_to_multiset_ensures;

            lemma_sort_cuts_multiset(cuts@);
            assert forall|i: int| 0 <= i < sorted@.len() implies cut_wf(sorted@[i]) by {
                assert(sorted@.contains(sorted@[i]));
                assert(sorted@.to_multiset().count(sorted@[i]) > 0);
                assert(cuts@.to_multiset().count(sorted@[i]) > 0);
                assert(cuts@.contains(sorted@[i]));
                let k = choose|k: int| 0 <= k < cuts@.len() && cuts@[k] == sorted@[i];
                assert(cut_wf(cuts@[k]));
            }
        }
        if check_separated(&sorted) {
            Some(Track { cuts: sorted })
        } else {
            None
        }
    }

    /// The cuts, sorted by interval.
    pub fn cuts(&self) -> (r: &Vec<Cut>)
        ensures
            r@ == self@,
    {
        &self.cuts
    }

    /// The index of the cut whose interval contains `t`, or nothing.
    ///
    /// Binary search over the sorted cuts; the result agrees with the naive
    /// linear scan [`scan_active`] at every instant.
    pub fn active_index(&self, t: i64) -> (r: Option<usize>)
        requires
            self.wf(),
        ensures
            r matches Some(i) ==> i < self@.len() && cut_contains(self@[i as int], t)
                && scan_active(self@, t) == Some(self@[i as int]),
            r is None ==> scan_active(self@, t) is None,
    {
        let n = self.cuts.len();
        let mut lo: usize = 0;
        let mut hi: usize = n;
        while lo < hi
            invariant
                lo <= hi <= n,
                n == self@.len(),
                self.wf(),
                forall|j: int| 0 <= j < lo ==> self@[j].start_t <= t,
                forall|j: int| hi <= j < n ==> self@[j].start_t > t,
            decreases hi - lo,
        {
            let mid = lo + (hi - lo) / 2;
            if self.cuts[mid].start_t <= t {
                proof {
                    assert forall|j: int| 0 <= j < mid + 1 implies self@[j].start_t <= t by {
                        assert(cut_le(self@[j], self@[mid as int]));
                    }
                }
                lo = mid + 1;
            } else {
                proof {
                    assert forall|j: int| mid <= j < n implies self@[j].start_t > t by {
                        assert(cut_le(self@[mid as int], self@[j]));
                    }
                }
                hi = mid;
            }
        }
        if lo == 0 {
            proof {
                assert forall|i: int| 0 <= i < self@.len() implies !cut_contains(self@[i], t) by {
                    assert(self@[i].start_t > t);
                }
                lemma_scan_all_miss(self@, t);
            }
            None
        } else {
            let i = lo - 1;
            if self.cuts[i].stop_t > t {
                proof {
                    lemma_scan_finds_covering(self@, t, i as int);
                }
                Some(i)
            } else {
                proof {
                    assert forall|j: int| 0 <= j < self@.len() implies !cut_contains(
                        self@[j],
                        t,
                    ) by {
                        if j < i as int {
                            lemma_separated_chain(self@, j, i as int);
                        } else if j > i as int {
                            assert(self@[j].start_t > t);
                        }
                    }
                    lemma_scan_all_miss(self@, t);
                }
                None
            }
        }
    }

    /// The cut whose interval contains `t`, or nothing.
    ///
    /// Start inclusive, stop exclusive: a cut is active at `t` exactly when
    /// `start_t <= t < stop_t`. Gaps between cuts are a normal steady state,
    /// answered with `None`.
    pub fn active(&self, t: i64) -> (r: Option<&Cut>)
        requires
            self.wf(),
        ensures
            (r is Some) <==> (scan_active(self@, t) is Some),
            r matches Some(c) ==> scan_active(self@, t) == Some(*c) && cut_contains(*c, t),
    {
        match self.active_index(t) {
            Some(i) => Some(&self.cuts[i]),
            None => None,
        }
    }
}

/// Any family of pairwise disjoint, well-formed cuts forms a track: sorting
/// it by interval leaves no adjacent overlap, so construction succeeds.
pub proof fn lemma_disjoint_cuts_form_track(s: Seq<Cut>)
    requires
        cuts_wf(s),
        pairwise_disjoint(s),
    ensures
        cuts_separated(sort_cuts(s)),
{
    broadcast use group_to_multiset_ensures;

    let r = sort_cuts(s);
    lemma_sort_cuts_ordered(s);
    lemma_sort_cuts_pairwise(s);
    lemma_sort_cuts_multiset(s);
    assert forall|i: int| 0 <= i < r.len() - 1 implies r[i].stop_t <= r[i + 1].start_t by {
        assert(cuts_disjoint(r[i], r[i + 1]));
        assert(cut_le(r[i], r[i + 1]));
        assert(r.contains(r[i + 1]));
        assert(r.to_multiset().count(r[i + 1]) > 0);
        assert(s.to_multiset().count(r[i + 1]) > 0);
        assert(s.contains(r[i + 1]));
        let k = choose|k: int| 0 <= k < s.len() && s[k] == r[i + 1];
        assert(cut_wf(s[k]));
    }
}

proof fn lemma_insert_cut_pairwise(s: Seq<Cut>, c: Cut)
    requires
        pairwise_disjoint(s),
        forall|i: int| 0 <= i < s.len() ==> cuts_disjoint(s[i], c),
    ensures
        pairwise_disjoint(insert_cut(s, c)),
    decreases s.len(),
{
    broadcast use group_to_multiset_ensures;

    if s.len() == 0 {
        let r = insert_cut(s, c);
        assert(r.len() == 1);
        assert(pairwise_disjoint(r));
    } else if cut_le(s.last(), c) {
        let r = s.push(c);
        assert forall|i: int, j: int| 0 <= i < j < r.len() implies cuts_disjoint(r[i], r[j]) by {
            if j < s.len() {
                assert(cuts_disjoint(s[i], s[j]));
            } else {
                assert(cuts_disjoint(s[i], c));
            }
        }
    } else {
        let dl = s.drop_last();
        assert(pairwise_disjoint(dl)) by {
            assert forall|i: int, j: int| 0 <= i < j < dl.len() implies cuts_disjoint(
                dl[i],
                dl[j],
            ) by {
                assert(cuts_disjoint(s[i], s[j]));
            }
        }
        assert forall|i: int| 0 <= i < dl.len() implies cuts_disjoint(dl[i], c) by {
            assert(cuts_disjoint(s[i], c));
        }
        lemma_insert_cut_pairwise(dl, c);
        lemma_insert_cut_multiset(dl, c);
        let q = insert_cut(dl, c);
        assert forall|i: int| 0 <= i < q.len() implies cuts_disjoint(q[i], s.last()) by {
            assert(q.contains(q[i]));
            assert(q.to_multiset().count(q[i]) > 0);
            if q[i] == c {
                assert(cuts_disjoint(s[s.len() - 1], c));
            } else {
                assert(dl.to_multiset().count(q[i]) > 0);
                assert(dl.contains(q[i]));
                let k = choose|k: int| 0 <= k < dl.len() && dl[k] == q[i];
                assert(cuts_disjoint(s[k], s[s.len() - 1]));
            }
        }
        let r = q.push(s.last());
        assert forall|i: int, j: int| 0 <= i < j < r.len() implies cuts_disjoint(r[i], r[j]) by {
            if j < q.len() {
                assert(cuts_disjoint(q[i], q[j]));
            } else {
                assert(cuts_disjoint(q[i], s.last()));
            }
        }
    }
}

proof fn lemma_sort_cuts_pairwise(s: Seq<Cut>)
    requires
        pairwise_disjoint(s),
    ensures
        pairwise_disjoint(sort_cuts(s)),
    decreases s.len(),
{
    broadcast use group_to_multiset_ensures;

    if s.len() == 0 {
    } else {
        let dl = s.drop_last();
        assert(pairwise_disjoint(dl)) by {
            assert forall|i: int, j: int| 0 <= i < j < dl.len() implies cuts_disjoint(
                dl[i],
                dl[j],
            ) by {
                assert(cuts_disjoint(s[i], s[j]));
            }
        }
        lemma_sort_cuts_pairwise(dl);
        lemma_sort_cuts_multiset(dl);
        assert forall|i: int| 0 <= i < sort_cuts(dl).len() implies cuts_disjoint(
            sort_cuts(dl)[i],
            s.last(),
        ) by {
            assert(sort_cuts(dl).contains(sort_cuts(dl)[i]));
            assert(sort_cuts(dl).to_multiset().count(sort_cuts(dl)[i]) > 0);
            assert(dl.to_multiset().count(sort_cuts(dl)[i]) > 0);
            assert(dl.contains(sort_cuts(dl)[i]));
            let k = choose|k: int| 0 <= k < dl.len() && dl[k] == sort_cuts(dl)[i];
            assert(cuts_disjoint(s[k], s[s.len() - 1]));
        }
        lemma_insert_cut_pairwise(sort_cuts(dl), s.last());
    }
}

/// Two overlapping cuts can never form a track, whatever their input order:
/// the sorted arrangement of the pair always keeps the overlap adjacent.
pub proof fn lemma_overlapping_cuts_refused(a: Cut, b: Cut)
    requires
        !cuts_disjoint(a, b),
    ensures
        !cuts_separated(sort_cuts(seq![a, b])),
        !cuts_separated(sort_cuts(seq![b, a])),
{
    lemma_sort_pair(a, b);
    lemma_sort_pair(b, a);
    if cut_le(a, b) {
        assert(!cuts_separated(seq![a, b]));
    } else {
        assert(!cuts_separated(seq![b, a]));
    }
    if cut_le(b, a) {
        assert(!cuts_separated(seq![b, a]));
    } else {
        assert(!cuts_separated(seq![a, b]));
    }
}

proof fn lemma_sort_pair(a: Cut, b: Cut)
    ensures
        sort_cuts(seq![a, b]) == if cut_le(a, b) {
            seq![a, b]
        } else {
            seq![b, a]
        },
{
    let s = seq![a, b];
    assert(s.drop_last() =~= seq![a]);
    assert(s.last() == b);
    assert(seq![a].drop_last() =~= Seq::<Cut>::empty());
    assert(seq![a].last() == a);
    assert(sort_cuts(Seq::<Cut>::empty()) =~= Seq::<Cut>::empty());
    assert(insert_cut(Seq::<Cut>::empty(), a) =~= seq![a]);
    assert(sort_cuts(seq![a]) =~= seq![a]);
    if cut_le(a, b) {
        assert(insert_cut(seq![a], b) =~= seq![a].push(b));
        assert(sort_cuts(s) =~= seq![a, b]);
    } else {
        assert(insert_cut(seq![a], b) =~= insert_cut(Seq::<Cut>::empty(), b).push(a));
        assert(sort_cuts(s) =~= seq![b, a]);
    }
}

} // verus!

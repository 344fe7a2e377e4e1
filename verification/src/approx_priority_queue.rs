//! A weighted approximate max-priority queue.
//!
//! The queue keeps one fast-path bucket per possible leading-zero count of
//! the 8-bit weight: bucket 0 (weight 255..128) down to bucket 7 (weight 1).
//! A companion occupancy bitmap records which buckets hold an entry. Entries
//! whose bucket (and every bucket to its right) is taken, and entries whose
//! weight is 0, go to an unordered overflow tail in insertion order. Priority
//! is exact for the fast-path buckets and degrades to recency for the tail.

use crate::internal_err::InternalErr;
use vstd::prelude::*;
use vstd::std_specs::bits::u8_leading_zeros;
use vstd::std_specs::cmp::PartialEqSpec;

verus! {

/// Number of fast-path buckets: the bit width of the weight type.
pub const SIZE: usize = 8;

/// The weight of an entry; a larger value means a higher priority.
pub type WeightTy = u8;

/// The queue's abstract state: the fast-path buckets, the occupancy
/// bitmap over them, and the overflow tail in insertion order.
pub struct QueueView<T> {
    pub buckets: Seq<Option<T>>,
    pub mask: u64,
    pub overflow: Seq<T>,
}

impl<T> QueueView<T> {
    /// Occupancy bit `i` of the bitmap is set.
    pub open spec fn occupied(self, i: int) -> bool {
        self.mask & (1u64 << (i as u64)) != 0
    }

    /// The occupancy invariant: exactly `SIZE` buckets, no bitmap bit
    /// beyond them, and bit `i` set exactly when bucket `i` holds an entry.
    pub open spec fn wf(self) -> bool {
        &&& self.buckets.len() == SIZE
        &&& self.mask < 256
        &&& forall|i: int| 0 <= i < SIZE ==> (#[trigger] self.occupied(i) <==> self.buckets[i] is Some)
    }

    /// The queue with nothing in it.
    pub open spec fn empty() -> QueueView<T> {
        QueueView { buckets: Seq::new(SIZE as nat, |i: int| None), mask: 0, overflow: Seq::empty() }
    }

    /// The smallest free bucket index at or after `i`, or `SIZE` when every
    /// bucket from `i` on is taken.
    pub open spec fn first_free_from(self, i: int) -> int
        decreases SIZE - i,
    {
        if i < 0 || i >= SIZE {
            SIZE as int
        } else if !self.occupied(i) {
            i
        } else {
            self.first_free_from(i + 1)
        }
    }

    /// The smallest occupied bucket index at or after `i`, or `SIZE` when
    /// every bucket from `i` on is free.
    pub open spec fn first_occupied_from(self, i: int) -> int
        decreases SIZE - i,
    {
        if i < 0 || i >= SIZE {
            SIZE as int
        } else if self.occupied(i) {
            i
        } else {
            self.first_occupied_from(i + 1)
        }
    }

    /// The state after claiming bucket `d` for `entry`.
    pub open spec fn place(self, entry: T, d: int) -> QueueView<T> {
        QueueView {
            buckets: self.buckets.update(d, Some(entry)),
            mask: self.mask | (1u64 << (d as u64)),
            overflow: self.overflow,
        }
    }

    /// The state after clearing bucket `d` and handing its entry out.
    pub open spec fn clear_bucket(self, d: int) -> QueueView<T> {
        QueueView {
            buckets: self.buckets.update(d, None),
            mask: self.mask & !(1u64 << (d as u64)),
            overflow: self.overflow,
        }
    }

    /// The state after appending `entry` to the overflow tail.
    pub open spec fn push_overflow(self, entry: T) -> QueueView<T> {
        QueueView { buckets: self.buckets, mask: self.mask, overflow: self.overflow.push(entry) }
    }

    /// The state after removing overflow entry `k`; later entries shift down.
    pub open spec fn remove_overflow(self, k: int) -> QueueView<T> {
        QueueView { buckets: self.buckets, mask: self.mask, overflow: self.overflow.remove(k) }
    }

    /// What `add` does: the entry goes to the nearest free bucket at or to
    /// the right of the one its weight selects, or to the overflow tail when
    /// no such bucket is free (weight 0 selects no bucket at all).
    pub open spec fn add(self, entry: T, weight: u8) -> QueueView<T> {
        let e = u8_leading_zeros(weight) as int;
        if e < SIZE {
            let d = self.first_free_from(e);
            if d < SIZE {
                self.place(entry, d)
            } else {
                self.push_overflow(entry)
            }
        } else {
            self.push_overflow(entry)
        }
    }

    /// Every occupied bucket strictly left of `k` held an entry that the
    /// predicate returned false for: buckets are drained in increasing
    /// index order regardless of the predicate.
    pub open spec fn fast_rejected_below<P: Fn(&T) -> bool>(self, p: P, k: int) -> bool {
        forall|j: int|
            0 <= j < k && #[trigger] self.occupied(j) ==> call_ensures(
                p,
                (&self.buckets[j]->0,),
                false,
            )
    }

    /// Every overflow entry strictly after `k` (more recently inserted) got
    /// false from the predicate: the tail is scanned most recent first.
    pub open spec fn overflow_rejected_above<P: Fn(&T) -> bool>(self, p: P, k: int) -> bool {
        forall|m: int|
            k < m < self.overflow.len() ==> call_ensures(p, (&(#[trigger] self.overflow[m]),), false)
    }

    /// The fast-path bucket is empty, as the occupancy bitmap reports it.
    /// The overflow tail is deliberately not consulted: see
    /// [`ApproximatePriorityQueue::is_empty`].
    pub open spec fn is_empty(self) -> bool {
        self.mask == 0
    }

    /// What a poll whose predicate accepts every entry does: hand out the
    /// entry of the smallest occupied bucket; with no bucket occupied, the
    /// most recently appended overflow entry; with nothing held, nothing.
    pub open spec fn poll_any(self) -> (QueueView<T>, Option<T>) {
        let k = self.first_occupied_from(0);
        if k < SIZE {
            (self.clear_bucket(k), Some(self.buckets[k]->0))
        } else if self.overflow.len() > 0 {
            (self.remove_overflow(self.overflow.len() - 1), Some(self.overflow.last()))
        } else {
            (self, None)
        }
    }
}

impl<T: PartialEq + PartialEqSpec> QueueView<T> {
    /// The first bucket at or after `i` whose entry equals `x` (by the
    /// entry type's equality), or `SIZE` when there is none.
    pub open spec fn bucket_match_from(self, x: T, i: int) -> int
        decreases SIZE - i,
    {
        if i < 0 || i >= SIZE {
            SIZE as int
        } else if self.buckets[i] is Some && self.buckets[i]->0.eq_spec(&x) {
            i
        } else {
            self.bucket_match_from(x, i + 1)
        }
    }

    /// The first overflow position at or after `k` whose entry equals `x`,
    /// or the overflow length when there is none.
    pub open spec fn overflow_match_from(self, x: T, k: int) -> int
        decreases self.overflow.len() - k,
    {
        if k < 0 || k >= self.overflow.len() {
            self.overflow.len() as int
        } else if self.overflow[k].eq_spec(&x) {
            k
        } else {
            self.overflow_match_from(x, k + 1)
        }
    }

    /// Some held entry equals `x`.
    pub open spec fn holds_match(self, x: T) -> bool {
        self.bucket_match_from(x, 0) < SIZE || self.overflow_match_from(x, 0)
            < self.overflow.len()
    }

    /// What `remove` does: clear the first matching bucket, in increasing
    /// index order; failing that, drop the first matching overflow entry,
    /// in insertion order; report whether anything matched.
    pub open spec fn remove(self, x: T) -> (QueueView<T>, bool) {
        let b = self.bucket_match_from(x, 0);
        if b < SIZE {
            (self.clear_bucket(b), true)
        } else {
            let k = self.overflow_match_from(x, 0);
            if k < self.overflow.len() {
                (self.remove_overflow(k), true)
            } else {
                (self, false)
            }
        }
    }
}

/// The approximate priority queue. `pages` holds the `SIZE` fast-path
/// buckets followed by the overflow tail; `used_slots` is the occupancy
/// bitmap of the buckets.
#[derive(Debug)]
pub struct ApproximatePriorityQueue<T> {
    pub pages: Vec<Option<T>>,
    pub used_slots: u64,
}

impl<T> View for ApproximatePriorityQueue<T> {
    type V = QueueView<T>;

    open spec fn view(&self) -> QueueView<T> {
        QueueView {
            buckets: self.pages@.take(SIZE as int),
            mask: self.used_slots,
            overflow: self.pages@.skip(SIZE as int).map_values(|x: Option<T>| x->0),
        }
    }
}

impl<T> ApproximatePriorityQueue<T> {
    /// Well-formed: the vector holds the `SIZE` buckets first, every
    /// overflow position actually holds an entry, and the occupancy
    /// invariant of the view holds.
    pub open spec fn wf(self) -> bool {
        &&& self.pages@.len() >= SIZE
        &&& forall|i: int| SIZE <= i < self.pages@.len() ==> self.pages@[i] is Some
        &&& self@.wf()
    }

    /// An empty queue: all buckets free, no overflow.
    pub fn new() -> (r: Self)
        ensures
            r.wf(),
            r@ == QueueView::<T>::empty(),
    {
        let mut pages: Vec<Option<T>> = Vec::new();
        let mut i: usize = 0;
        while i < SIZE
            invariant
                i <= SIZE,
                pages@.len() == i,
                forall|j: int| 0 <= j < i ==> pages@[j] is None,
            decreases SIZE - i,
        {
            pages.push(None);
            i += 1;
        }
        let r = Self { pages, used_slots: 0 };
        proof {
            assert(forall|j: u64| j < 64 ==> 0u64 & (1u64 << j) == 0) by (bit_vector);
            assert(r@.buckets =~= QueueView::<T>::empty().buckets);
            assert(r@.overflow =~= QueueView::<T>::empty().overflow);
            assert(r@ == QueueView::<T>::empty());
        }
        r
    }

    /// Adds `entry` under `weight`. The number of leading zero bits of the
    /// weight selects the target bucket (weight 255 maps to bucket 0, weight
    /// 1 to bucket 7); when that bucket is taken, the nearest free bucket to
    /// the right is claimed instead, and when none is free — or the weight
    /// is 0, which selects no bucket — the entry is appended to the overflow
    /// tail. Never fails: the error channel exists only for defensive
    /// invariant checks, and this proof shows none can fire.
    pub fn add(&mut self, entry: T, weight: WeightTy) -> (r: Result<(), InternalErr>)
        requires
            old(self).wf(),
        ensures
            final(self).wf(),
            r is Ok,
            final(self)@ == old(self)@.add(entry, weight),
    {
        proof {
            vstd::std_specs::bits::axiom_u8_leading_zeros(weight);
        }
        let expected_slot: usize = weight.leading_zeros() as usize;
        if expected_slot < SIZE {
            let mut d: usize = expected_slot;
            while d < SIZE && (self.used_slots & (1u64 << (d as u64))) != 0
                invariant
                    old(self).wf(),
                    *self == *old(self),
                    expected_slot <= d <= SIZE,
                    forall|j: int| expected_slot <= j < d ==> old(self)@.occupied(j),
                decreases SIZE - d,
            {
                d += 1;
            }
            proof {
                lemma_first_free_from_range(old(self)@, expected_slot as int, d as int);
            }
            if d < SIZE {
                self.used_slots = self.used_slots | (1u64 << (d as u64));
                self.pages[d] = Some(entry);
                proof {
                    lemma_place_view(*old(self), *self, entry, d as int);
                }
            } else {
                self.pages.push(Some(entry));
                proof {
                    lemma_push_overflow_view(*old(self), *self, entry);
                }
            }
        } else {
            self.pages.push(Some(entry));
            proof {
                lemma_push_overflow_view(*old(self), *self, entry);
            }
        }
        Ok(())
    }

    /// Hands out an entry that matches the predicate `p`, preferring the
    /// weightiest entries: the fast-path buckets are scanned in increasing
    /// index order (priority order, highest first); when no occupied bucket
    /// matches, the overflow tail is scanned most recently inserted first.
    /// The winning entry leaves the queue: its bucket's occupancy bit is
    /// cleared, or the overflow tail shifts down by one. Never fails: the
    /// error channel exists only for defensive invariant checks, and this
    /// proof shows none can fire.
    pub fn poll<P: Fn(&T) -> bool>(&mut self, p: P) -> (r: Result<Option<T>, InternalErr>)
        requires
            old(self).wf(),
            forall|t: T| #[trigger] call_requires(p, (&t,)),
        ensures
            final(self).wf(),
            r is Ok,
            ({
                let v = old(self)@;
                let w = final(self)@;
                match r {
                    Ok(Some(e)) => {
                        ||| (exists|k: int|
                            #![auto]
                            0 <= k < SIZE && v.occupied(k) && v.buckets[k] == Some(e)
                                && call_ensures(p, (&e,), true) && v.fast_rejected_below(p, k)
                                && w == v.clear_bucket(k))
                        ||| (v.fast_rejected_below(p, SIZE as int) && exists|k: int|
                            #![auto]
                            0 <= k < v.overflow.len() && v.overflow[k] == e && call_ensures(
                                p,
                                (&e,),
                                true,
                            ) && v.overflow_rejected_above(p, k) && w == v.remove_overflow(k))
                    },
                    Ok(None) => v.fast_rejected_below(p, SIZE as int) && v.overflow_rejected_above(
                        p,
                        -1,
                    ) && w == v,
                    Err(_) => false,
                }
            }),
    {
        let mut i: usize = 0;
        let mut hit: bool = false;
        while i < SIZE && !hit
            invariant
                old(self).wf(),
                *self == *old(self),
                i <= SIZE,
                forall|t: T| #[trigger] call_requires(p, (&t,)),
                old(self)@.fast_rejected_below(p, i as int),
                hit ==> i < SIZE && old(self)@.occupied(i as int) && call_ensures(
                    p,
                    (&old(self)@.buckets[i as int]->0,),
                    true,
                ),
            decreases SIZE - i, (if hit { 0int } else { 1int }),
        {
            let occ = (self.used_slots & (1u64 << (i as u64))) != 0;
            if occ {
                let matched = match &self.pages[i] {
                    Some(x) => p(x),
                    None => {
                        proof {
                            assert(old(self)@.occupied(i as int));
                            assert(false);
                        }
                        false
                    },
                };
                if matched {
                    hit = true;
                } else {
                    i += 1;
                }
            } else {
                i += 1;
            }
        }
        if hit {
            self.used_slots = self.used_slots & !(1u64 << (i as u64));
            let taken = self.pages.remove(i);
            self.pages.insert(i, None);
            proof {
                assert(self.pages@ =~= old(self).pages@.update(i as int, None));
                lemma_clear_view(*old(self), *self, i as int);
                let v = old(self)@;
                let e = v.buckets[i as int]->0;
                assert(taken == Some(e));
                assert(v.occupied(i as int) && v.buckets[i as int] == Some(e) && call_ensures(
                    p,
                    (&e,),
                    true,
                ) && v.fast_rejected_below(p, i as int) && self@ == v.clear_bucket(i as int));
            }
            Ok(taken)
        } else {
            let mut j: usize = self.pages.len();
            let mut ohit: bool = false;
            while j > SIZE && !ohit
                invariant
                    old(self).wf(),
                    *self == *old(self),
                    SIZE <= j <= self.pages@.len(),
                    forall|t: T| #[trigger] call_requires(p, (&t,)),
                    !ohit ==> old(self)@.overflow_rejected_above(p, j as int - SIZE - 1),
                    ohit ==> j < self.pages@.len() && old(self)@.overflow_rejected_above(
                        p,
                        j as int - SIZE,
                    ) && call_ensures(p, (&old(self)@.overflow[j as int - SIZE],), true),
                decreases j,
            {
                let matched = match &self.pages[j - 1] {
                    Some(x) => p(x),
                    None => {
                        proof {
                            assert(old(self).pages@[j as int - 1] is Some);
                            assert(false);
                        }
                        false
                    },
                };
                j = j - 1;
                if matched {
                    ohit = true;
                } else {
                    proof {
                        assert(old(self)@.overflow[j as int - SIZE] == old(self).pages@[j as int]->0);
                    }
                }
            }
            if ohit {
                let taken = self.pages.remove(j);
                proof {
                    lemma_remove_overflow_view(*old(self), *self, j as int);
                    let v = old(self)@;
                    let k = j as int - SIZE;
                    let e = v.overflow[k];
                    assert(taken == Some(e));
                    assert(v.fast_rejected_below(p, SIZE as int));
                    assert(0 <= k < v.overflow.len() && v.overflow[k] == e && call_ensures(
                        p,
                        (&e,),
                        true,
                    ) && v.overflow_rejected_above(p, k) && self@ == v.remove_overflow(k));
                }
                Ok(taken)
            } else {
                proof {
                    assert(old(self)@.fast_rejected_below(p, SIZE as int));
                    assert(old(self)@.overflow_rejected_above(p, -1));
                }
                Ok(None)
            }
        }
    }

    /// True exactly when the occupancy bitmap is all zero, i.e. no
    /// fast-path bucket holds an entry.
    ///
    /// Known semantic trap, preserved from the reference design on purpose:
    /// the overflow tail is **not** consulted. A queue holding only overflow
    /// entries reports `true` here even though `poll` and `remove` can still
    /// hand entries out. Do not "fix" this without product sign-off.
    pub fn is_empty(&self) -> (r: bool)
        requires
            self.wf(),
        ensures
            r == self@.is_empty(),
            r <==> (forall|i: int| 0 <= i < SIZE ==> !self@.occupied(i)),
    {
        proof {
            let m = self@.mask;
            if m != 0 {
                assert(m < 256 && m != 0 ==> (m & (1u64 << 0u64) != 0 || m & (1u64 << 1u64) != 0
                    || m & (1u64 << 2u64) != 0 || m & (1u64 << 3u64) != 0 || m & (1u64 << 4u64)
                    != 0 || m & (1u64 << 5u64) != 0 || m & (1u64 << 6u64) != 0 || m & (1u64
                    << 7u64) != 0)) by (bit_vector);
                if m & (1u64 << 0u64) != 0 {
                    assert(self@.occupied(0));
                } else if m & (1u64 << 1u64) != 0 {
                    assert(self@.occupied(1));
                } else if m & (1u64 << 2u64) != 0 {
                    assert(self@.occupied(2));
                } else if m & (1u64 << 3u64) != 0 {
                    assert(self@.occupied(3));
                } else if m & (1u64 << 4u64) != 0 {
                    assert(self@.occupied(4));
                } else if m & (1u64 << 5u64) != 0 {
                    assert(self@.occupied(5));
                } else if m & (1u64 << 6u64) != 0 {
                    assert(self@.occupied(6));
                } else {
                    assert(self@.occupied(7));
                }
            } else {
                assert(forall|j: u64| j < 64 ==> 0u64 & (1u64 << j) == 0) by (bit_vector);
                assert forall|i: int| 0 <= i < SIZE implies !self@.occupied(i) by {
                    assert(0u64 & (1u64 << (i as u64)) == 0);
                }
            }
        }
        self.used_slots == 0
    }
}

impl<T: PartialEq + PartialEqSpec> ApproximatePriorityQueue<T> {
    /// Removes the first entry structurally equal to `entry`, scanning the
    /// fast-path buckets in increasing index order and then the overflow
    /// tail in insertion order. Clears the bucket's occupancy bit, or
    /// shrinks the overflow tail by one. Returns whether a match was found.
    pub fn remove(&mut self, entry: T) -> (r: bool)
        requires
            old(self).wf(),
        ensures
            final(self).wf(),
            T::obeys_eq_spec() ==> ({
                let (w, rr) = old(self)@.remove(entry);
                final(self)@ == w && r == rr
            }),
    {
        let n: usize = self.pages.len();
        let mut i: usize = 0;
        let mut hit: bool = false;
        while i < n && !hit
            invariant
                old(self).wf(),
                *self == *old(self),
                n == self.pages@.len(),
                i <= n,
                T::obeys_eq_spec() ==> forall|j: int|
                    0 <= j < i ==> !(self.pages@[j] is Some && (#[trigger] self.pages@[j])->0.eq_spec(&entry)),
                T::obeys_eq_spec() && hit ==> i < n && self.pages@[i as int] is Some
                    && self.pages@[i as int]->0.eq_spec(&entry),
                hit ==> i < n && self.pages@[i as int] is Some,
            decreases n - i, (if hit { 0int } else { 1int }),
        {
            let is_match = match &self.pages[i] {
                Some(x) => *x == entry,
                None => false,
            };
            if is_match {
                hit = true;
            } else {
                i += 1;
            }
        }
        if hit {
            if i < SIZE {
                self.used_slots = self.used_slots & !(1u64 << (i as u64));
                self.pages[i] = None;
                proof {
                    lemma_clear_view(*old(self), *self, i as int);
                    if T::obeys_eq_spec() {
                        lemma_bucket_match_from_range(old(self)@, entry, 0, i as int);
                    }
                }
            } else {
                let _removed = self.pages.remove(i);
                proof {
                    lemma_remove_overflow_view(*old(self), *self, i as int);
                    if T::obeys_eq_spec() {
                        lemma_bucket_match_from_range(old(self)@, entry, 0, SIZE as int);
                        lemma_overflow_match_from_range(old(self)@, entry, 0, i - SIZE);
                    }
                }
            }
            true
        } else {
            proof {
                if T::obeys_eq_spec() {
                    lemma_bucket_match_from_range(old(self)@, entry, 0, SIZE as int);
                    lemma_overflow_match_from_range(
                        old(self)@,
                        entry,
                        0,
                        old(self)@.overflow.len() as int,
                    );
                }
            }
            false
        }
    }
}

/// Occupancy invariant: in every well-formed queue state — and every
/// operation of [`ApproximatePriorityQueue`] proves that it preserves
/// well-formedness — occupancy bit `i` is set exactly when bucket `i`
/// holds an entry.
pub proof fn lemma_occupancy_invariant<T>(v: QueueView<T>, i: int)
    requires
        v.wf(),
        0 <= i < SIZE,
    ensures
        v.occupied(i) <==> v.buckets[i] is Some,
{
}

/// Claiming a free bucket keeps the state well formed and sets exactly
/// that occupancy bit.
proof fn lemma_place_wf<T>(v: QueueView<T>, entry: T, d: int)
    requires
        v.wf(),
        0 <= d < SIZE,
    ensures
        v.place(entry, d).wf(),
        forall|i: int|
            0 <= i < SIZE ==> (#[trigger] v.place(entry, d).occupied(i) == (i == d
                || v.occupied(i))),
{
    assert forall|i: int|
        0 <= i < SIZE implies (#[trigger] v.place(entry, d).occupied(i) == (i == d || v.occupied(
        i,
    ))) by {
        lemma_mask_or_bit(v.mask, d as u64, i as u64);
    }
    lemma_mask_or_bit(v.mask, d as u64, 0);
}

/// Clearing a bucket keeps the state well formed and clears exactly that
/// occupancy bit.
proof fn lemma_clear_bucket_wf<T>(v: QueueView<T>, d: int)
    requires
        v.wf(),
        0 <= d < SIZE,
    ensures
        v.clear_bucket(d).wf(),
        forall|i: int|
            0 <= i < SIZE ==> (#[trigger] v.clear_bucket(d).occupied(i) == (i != d && v.occupied(
                i,
            ))),
{
    assert forall|i: int|
        0 <= i < SIZE implies (#[trigger] v.clear_bucket(d).occupied(i) == (i != d && v.occupied(
        i,
    ))) by {
        lemma_mask_clear_bit(v.mask, d as u64, i as u64);
    }
    lemma_mask_clear_bit(v.mask, d as u64, 0);
}

/// The empty queue state is well formed and has every bucket free.
proof fn lemma_empty_wf<T>()
    ensures
        QueueView::<T>::empty().wf(),
        forall|i: int| 0 <= i < SIZE ==> !#[trigger] QueueView::<T>::empty().occupied(i),
{
    let q0 = QueueView::<T>::empty();
    assert(forall|j: u64| j < 64 ==> 0u64 & (1u64 << j) == 0) by (bit_vector);
    assert forall|i: int| 0 <= i < SIZE implies !#[trigger] q0.occupied(i) by {
        assert(0u64 & (1u64 << (i as u64)) == 0);
    }
}

/// Priority ordering: adding two entries with strictly decreasing leading-
/// zero counts (that is, increasing weight) to an empty queue and then
/// polling with a predicate that accepts everything hands them back in
/// weight-descending order — the entry added under the higher weight comes
/// out first — after which the queue has nothing left to hand out.
pub proof fn lemma_priority_ordering<T>(e_first: T, w_first: u8, e_second: T, w_second: u8)
    requires
        u8_leading_zeros(w_second) < u8_leading_zeros(w_first),
        u8_leading_zeros(w_first) < 8,
    ensures
        ({
            let q2 = QueueView::<T>::empty().add(e_first, w_first).add(e_second, w_second);
            let first_poll = q2.poll_any();
            let second_poll = first_poll.0.poll_any();
            &&& first_poll.1 == Some(e_second)
            &&& second_poll.1 == Some(e_first)
            &&& second_poll.0.poll_any().1 is None
        }),
{
    let l1 = u8_leading_zeros(w_first) as int;
    let l2 = u8_leading_zeros(w_second) as int;
    let q0 = QueueView::<T>::empty();
    lemma_empty_wf::<T>();
    lemma_first_free_from_range(q0, l1, l1);
    let q1 = q0.add(e_first, w_first);
    assert(q1 == q0.place(e_first, l1));
    lemma_place_wf(q0, e_first, l1);
    assert(!q1.occupied(l2));
    lemma_first_free_from_range(q1, l2, l2);
    let q2 = q1.add(e_second, w_second);
    assert(q2 == q1.place(e_second, l2));
    lemma_place_wf(q1, e_second, l2);
    assert(q2.occupied(l2));
    lemma_first_occupied_from_range(q2, 0, l2);
    let q3 = q2.poll_any().0;
    assert(q2.buckets[l2] == Some(e_second));
    assert(q2.poll_any().1 == Some(e_second));
    assert(q3 == q2.clear_bucket(l2));
    lemma_clear_bucket_wf(q2, l2);
    assert(q3.occupied(l1));
    lemma_first_occupied_from_range(q3, 0, l1);
    let q4 = q3.poll_any().0;
    assert(q3.buckets[l1] == Some(e_first));
    assert(q3.poll_any().1 == Some(e_first));
    assert(q4 == q3.clear_bucket(l1));
    lemma_clear_bucket_wf(q3, l1);
    lemma_first_occupied_from_range(q4, 0, SIZE as int);
    assert(q4.overflow.len() == 0);
}

/// A poll that accepts everything always hands out the entry of the
/// smallest occupied bucket — the highest-priority entry the fast path
/// holds — whatever else the queue contains.
pub proof fn lemma_poll_any_highest_priority<T>(v: QueueView<T>, i: int)
    requires
        v.wf(),
        0 <= i < SIZE,
        v.occupied(i),
        forall|j: int| 0 <= j < i ==> !#[trigger] v.occupied(j),
    ensures
        v.poll_any().1 == Some(v.buckets[i]->0),
        v.poll_any().0 == v.clear_bucket(i),
{
    lemma_first_occupied_from_range(v, 0, i);
}

/// Collision overflow: when the bucket an entry's weight selects and every
/// bucket to its right are already taken, `add` appends the entry to the
/// overflow tail, and the queue's total contents grow by exactly that one
/// entry beyond the fast-path capacity.
pub proof fn lemma_collision_overflow<T>(v: QueueView<T>, entry: T, weight: u8)
    requires
        v.wf(),
        u8_leading_zeros(weight) < 8,
        forall|j: int| u8_leading_zeros(weight) <= j < SIZE ==> #[trigger] v.occupied(j),
    ensures
        v.add(entry, weight) == v.push_overflow(entry),
        v.add(entry, weight).overflow.len() == v.overflow.len() + 1,
        v.add(entry, weight).buckets == v.buckets,
{
    lemma_first_free_from_range(v, u8_leading_zeros(weight) as int, SIZE as int);
}

/// The `is_empty` quirk: a well-formed queue whose fast-path buckets are
/// all free still reports empty even while its overflow tail holds
/// entries, and a poll that accepts everything can still hand one out —
/// the most recently inserted overflow entry.
pub proof fn lemma_is_empty_quirk<T>(v: QueueView<T>)
    requires
        v.wf(),
        v.mask == 0,
        v.overflow.len() > 0,
    ensures
        v.is_empty(),
        v.poll_any().1 == Some(v.overflow.last()),
{
    assert(forall|j: u64| j < 64 ==> 0u64 & (1u64 << j) == 0) by (bit_vector);
    assert forall|i: int| 0 <= i < SIZE implies !v.occupied(i) by {
        assert(0u64 & (1u64 << (i as u64)) == 0);
    }
    lemma_first_occupied_from_range(v, 0, SIZE as int);
}

/// A strictly increasing scan that saw no equal entry in buckets `[e, d)`
/// and stopped at `d` (an equal entry, or the end) found exactly the first
/// matching bucket at or after `e`.
proof fn lemma_bucket_match_from_range<T: PartialEq + PartialEqSpec>(
    v: QueueView<T>,
    x: T,
    e: int,
    d: int,
)
    requires
        v.wf(),
        0 <= e <= d <= SIZE,
        forall|j: int|
            e <= j < d ==> !(v.buckets[j] is Some && (#[trigger] v.buckets[j])->0.eq_spec(&x)),
        d == SIZE || (v.buckets[d] is Some && v.buckets[d]->0.eq_spec(&x)),
    ensures
        v.bucket_match_from(x, e) == d,
    decreases d - e,
{
    if e < d {
        lemma_bucket_match_from_range(v, x, e + 1, d);
    }
}

/// The same scan over the overflow tail: no equal entry in `[e, d)` and a
/// stop at `d` (an equal entry, or the end) finds exactly the first match.
proof fn lemma_overflow_match_from_range<T: PartialEq + PartialEqSpec>(
    v: QueueView<T>,
    x: T,
    e: int,
    d: int,
)
    requires
        v.wf(),
        0 <= e <= d <= v.overflow.len(),
        forall|j: int| e <= j < d ==> !(#[trigger] v.overflow[j]).eq_spec(&x),
        d == v.overflow.len() || v.overflow[d].eq_spec(&x),
    ensures
        v.overflow_match_from(x, e) == d,
    decreases d - e,
{
    if e < d {
        lemma_overflow_match_from_range(v, x, e + 1, d);
    }
}

/// Where the bucket scan stops: everything before the first match is a
/// non-match, and a stop short of the end is a match.
proof fn lemma_bucket_match_from_props<T: PartialEq + PartialEqSpec>(v: QueueView<T>, x: T, e: int)
    requires
        0 <= e <= SIZE,
    ensures
        e <= v.bucket_match_from(x, e) <= SIZE,
        forall|j: int|
            e <= j < v.bucket_match_from(x, e) ==> !(v.buckets[j] is Some
                && (#[trigger] v.buckets[j])->0.eq_spec(&x)),
        v.bucket_match_from(x, e) < SIZE ==> (v.buckets[v.bucket_match_from(x, e)] is Some
            && v.buckets[v.bucket_match_from(x, e)]->0.eq_spec(&x)),
    decreases SIZE - e,
{
    if e < SIZE {
        lemma_bucket_match_from_props(v, x, e + 1);
    }
}

/// Where the overflow scan stops: everything before the first match is a
/// non-match, and a stop short of the end is a match.
proof fn lemma_overflow_match_from_props<T: PartialEq + PartialEqSpec>(
    v: QueueView<T>,
    x: T,
    e: int,
)
    requires
        0 <= e <= v.overflow.len(),
    ensures
        e <= v.overflow_match_from(x, e) <= v.overflow.len(),
        forall|j: int|
            e <= j < v.overflow_match_from(x, e) ==> !(#[trigger] v.overflow[j]).eq_spec(&x),
        v.overflow_match_from(x, e) < v.overflow.len() ==> v.overflow[v.overflow_match_from(
            x,
            e,
        )].eq_spec(&x),
    decreases v.overflow.len() - e,
{
    if e < v.overflow.len() {
        lemma_overflow_match_from_props(v, x, e + 1);
    }
}

/// Remove correctness: on a well-formed queue holding exactly one entry
/// equal to `x`, `remove` reports true, leaves a well-formed queue with no
/// equal entry, and a second `remove` of the same value reports false and
/// changes nothing.
pub proof fn lemma_remove_exactly_once<T: PartialEq + PartialEqSpec>(v: QueueView<T>, x: T)
    requires
        v.wf(),
        v.holds_match(x),
        v.bucket_match_from(x, 0) < SIZE ==> (v.bucket_match_from(x, v.bucket_match_from(x, 0) + 1)
            == SIZE && v.overflow_match_from(x, 0) == v.overflow.len()),
        v.bucket_match_from(x, 0) == SIZE ==> v.overflow_match_from(
            x,
            v.overflow_match_from(x, 0) + 1,
        ) == v.overflow.len(),
    ensures
        v.remove(x).1 == true,
        v.remove(x).0.wf(),
        !v.remove(x).0.holds_match(x),
        v.remove(x).0.remove(x).1 == false,
        v.remove(x).0.remove(x).0 == v.remove(x).0,
{
    let b = v.bucket_match_from(x, 0);
    let k0 = v.overflow_match_from(x, 0);
    lemma_bucket_match_from_props(v, x, 0);
    lemma_overflow_match_from_props(v, x, 0);
    if b < SIZE {
        lemma_bucket_match_from_props(v, x, b + 1);
        let v2 = v.clear_bucket(b);
        lemma_clear_bucket_wf(v, b);
        assert forall|j: int|
            0 <= j < SIZE implies !(v2.buckets[j] is Some && (#[trigger] v2.buckets[j])->0.eq_spec(
            &x,
        )) by {
            if j != b {
                assert(v2.buckets[j] == v.buckets[j]);
            }
        }
        lemma_bucket_match_from_range(v2, x, 0, SIZE as int);
        assert forall|j: int|
            0 <= j < v2.overflow.len() implies !(#[trigger] v2.overflow[j]).eq_spec(&x) by {
            assert(v2.overflow[j] == v.overflow[j]);
        }
        lemma_overflow_match_from_range(v2, x, 0, v2.overflow.len() as int);
    } else {
        lemma_overflow_match_from_props(v, x, k0 + 1);
        let v2 = v.remove_overflow(k0);
        assert forall|i: int|
            0 <= i < SIZE implies (#[trigger] v2.occupied(i) <==> v2.buckets[i] is Some) by {
            assert(v.occupied(i) <==> v.buckets[i] is Some);
        }
        assert(v2.wf());
        assert forall|j: int|
            0 <= j < SIZE implies !(v2.buckets[j] is Some && (#[trigger] v2.buckets[j])->0.eq_spec(
            &x,
        )) by {
            assert(v2.buckets[j] == v.buckets[j]);
        }
        lemma_bucket_match_from_range(v2, x, 0, SIZE as int);
        assert forall|j: int|
            0 <= j < v2.overflow.len() implies !(#[trigger] v2.overflow[j]).eq_spec(&x) by {
            if j < k0 {
                assert(v2.overflow[j] == v.overflow[j]);
            } else {
                assert(v2.overflow[j] == v.overflow[j + 1]);
            }
        }
        lemma_overflow_match_from_range(v2, x, 0, v2.overflow.len() as int);
    }
}

/// Clearing bucket `d` of the backing vector and its occupancy bit updates
/// exactly that bucket of the view.
proof fn lemma_clear_view<T>(
    pre: ApproximatePriorityQueue<T>,
    post: ApproximatePriorityQueue<T>,
    d: int,
)
    requires
        pre.wf(),
        0 <= d < SIZE,
        post.pages@ == pre.pages@.update(d, None),
        post.used_slots == pre.used_slots & !(1u64 << (d as u64)),
    ensures
        post.wf(),
        post@ == pre@.clear_bucket(d),
{
    assert(post@.buckets =~= pre@.clear_bucket(d).buckets);
    assert(post@.overflow =~= pre@.clear_bucket(d).overflow);
    assert(post@ == pre@.clear_bucket(d));
    lemma_mask_clear_bit(pre@.mask, d as u64, 0);
    assert(post@.mask < 256);
    assert forall|i: int| 0 <= i < SIZE implies (#[trigger] post@.occupied(i) <==> post@.buckets[i] is Some) by {
        lemma_mask_clear_bit(pre@.mask, d as u64, i as u64);
        assert(pre@.occupied(i) <==> pre@.buckets[i] is Some);
        assert(post@.occupied(i) == (i != d && pre@.occupied(i)));
    }
    assert forall|i: int| SIZE <= i < post.pages@.len() implies post.pages@[i] is Some by {
        assert(pre.pages@[i] is Some);
    }
}

/// Removing position `j` of the backing vector beyond the buckets leaves
/// the buckets alone and removes entry `j - SIZE` of the overflow tail.
proof fn lemma_remove_overflow_view<T>(
    pre: ApproximatePriorityQueue<T>,
    post: ApproximatePriorityQueue<T>,
    j: int,
)
    requires
        pre.wf(),
        SIZE <= j < pre.pages@.len(),
        post.pages@ == pre.pages@.remove(j),
        post.used_slots == pre.used_slots,
    ensures
        post.wf(),
        post@ == pre@.remove_overflow(j - SIZE),
{
    assert(post@.buckets =~= pre@.remove_overflow(j - SIZE).buckets);
    assert(post@.overflow =~= pre@.remove_overflow(j - SIZE).overflow);
    assert(post@ == pre@.remove_overflow(j - SIZE));
    assert forall|i: int| 0 <= i < SIZE implies (#[trigger] post@.occupied(i) <==> post@.buckets[i] is Some) by {
        assert(pre@.occupied(i) <==> pre@.buckets[i] is Some);
    }
    assert forall|i: int| SIZE <= i < post.pages@.len() implies post.pages@[i] is Some by {
        if i < j {
            assert(post.pages@[i] == pre.pages@[i]);
        } else {
            assert(post.pages@[i] == pre.pages@[i + 1]);
        }
    }
}

/// A strictly increasing scan that saw every bucket in `[e, d)` taken and
/// stopped at `d` (a free bucket, or the end) found exactly the first free
/// bucket at or after `e`.
proof fn lemma_first_free_from_range<T>(v: QueueView<T>, e: int, d: int)
    requires
        0 <= e <= d <= SIZE,
        forall|j: int| e <= j < d ==> v.occupied(j),
        d == SIZE || !v.occupied(d),
    ensures
        v.first_free_from(e) == d,
    decreases d - e,
{
    if e < d {
        assert(v.occupied(e));
        lemma_first_free_from_range(v, e + 1, d);
    }
}

/// A strictly increasing scan that saw every bucket in `[e, d)` free and
/// stopped at `d` (a taken bucket, or the end) found exactly the first
/// occupied bucket at or after `e`.
proof fn lemma_first_occupied_from_range<T>(v: QueueView<T>, e: int, d: int)
    requires
        0 <= e <= d <= SIZE,
        forall|j: int| e <= j < d ==> !v.occupied(j),
        d == SIZE || v.occupied(d),
    ensures
        v.first_occupied_from(e) == d,
    decreases d - e,
{
    if e < d {
        lemma_first_occupied_from_range(v, e + 1, d);
    }
}

/// Setting bit `d` of an 8-bit occupancy mask sets exactly that bit and
/// keeps the mask within 8 bits.
proof fn lemma_mask_or_bit(m: u64, d: u64, i: u64)
    requires
        m < 256,
        d < 8,
        i < 8,
    ensures
        ((m | (1u64 << d)) & (1u64 << i) != 0) == (i == d || (m & (1u64 << i) != 0)),
        (m | (1u64 << d)) < 256,
{
    assert(m < 256 && d < 8 && i < 8 ==> ((m | (1u64 << d)) & (1u64 << i) != 0) == (i == d || (m
        & (1u64 << i) != 0))) by (bit_vector);
    assert(m < 256 && d < 8 ==> (m | (1u64 << d)) < 256) by (bit_vector);
}

/// Clearing bit `d` of an 8-bit occupancy mask clears exactly that bit and
/// keeps the mask within 8 bits.
proof fn lemma_mask_clear_bit(m: u64, d: u64, i: u64)
    requires
        m < 256,
        d < 8,
        i < 8,
    ensures
        ((m & !(1u64 << d)) & (1u64 << i) != 0) == (i != d && (m & (1u64 << i) != 0)),
        (m & !(1u64 << d)) < 256,
{
    assert(m < 256 && d < 8 && i < 8 ==> ((m & !(1u64 << d)) & (1u64 << i) != 0) == (i != d && (m
        & (1u64 << i) != 0))) by (bit_vector);
    assert(m < 256 && d < 8 ==> (m & !(1u64 << d)) < 256) by (bit_vector);
}

/// Appending an entry to the backing vector beyond the buckets leaves the
/// buckets alone and appends to the overflow tail of the view.
proof fn lemma_push_overflow_view<T>(
    pre: ApproximatePriorityQueue<T>,
    post: ApproximatePriorityQueue<T>,
    entry: T,
)
    requires
        pre.wf(),
        post.pages@ == pre.pages@.push(Some(entry)),
        post.used_slots == pre.used_slots,
    ensures
        post.wf(),
        post@ == pre@.push_overflow(entry),
{
    assert(post@.buckets =~= pre@.buckets);
    assert(post@.overflow =~= pre@.overflow.push(entry));
    assert(post@ == pre@.push_overflow(entry));
    assert forall|i: int| 0 <= i < SIZE implies (#[trigger] post@.occupied(i) <==> post@.buckets[i] is Some) by {
        assert(pre@.occupied(i) <==> pre@.buckets[i] is Some);
    }
}

/// Claiming a free bucket `d` of the backing vector and setting its
/// occupancy bit updates exactly that bucket of the view.
proof fn lemma_place_view<T>(
    pre: ApproximatePriorityQueue<T>,
    post: ApproximatePriorityQueue<T>,
    entry: T,
    d: int,
)
    requires
        pre.wf(),
        0 <= d < SIZE,
        post.pages@ == pre.pages@.update(d, Some(entry)),
        post.used_slots == pre.used_slots | (1u64 << (d as u64)),
    ensures
        post.wf(),
        post@ == pre@.place(entry, d),
{
    assert(post@.buckets =~= pre@.place(entry, d).buckets);
    assert(post@.overflow =~= pre@.place(entry, d).overflow);
    assert(post@ == pre@.place(entry, d));
    lemma_mask_or_bit(pre@.mask, d as u64, 0);
    assert(post@.mask < 256);
    assert forall|i: int| 0 <= i < SIZE implies (#[trigger] post@.occupied(i) <==> post@.buckets[i] is Some) by {
        lemma_mask_or_bit(pre@.mask, d as u64, i as u64);
        assert(pre@.occupied(i) <==> pre@.buckets[i] is Some);
        assert(post@.occupied(i) == (i == d || pre@.occupied(i)));
    }
    assert forall|i: int| SIZE <= i < post.pages@.len() implies post.pages@[i] is Some by {
        assert(pre.pages@[i] is Some);
    }
}

} // verus!

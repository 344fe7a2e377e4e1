//! A bounded slot bitmap: claim/release of up to 64 numbered resource
//! slots (per-thread document-writer buffers), packed into one 64-bit word.

use vstd::prelude::*;

verus! {

/// Tracks which of 64 per-thread writer slots are currently claimed.
/// Bit `i` of `pages` is set exactly when slot `i` is held.
///
/// The pool is an explicitly owned value: a caller that shares it across
/// threads must wrap it in its own synchronization. Each operation is a
/// total function over the claim/release outcome and never fails.
pub struct DocumentsWriterPerThreadPool {
    pub pages: u64,
}

/// True when bit `i` of `word` is set, i.e. slot `i` is claimed.
pub open spec fn slot_claimed(word: u64, i: u8) -> bool {
    word & (1u64 << i) != 0
}

impl DocumentsWriterPerThreadPool {
    /// A pool with every slot free.
    pub fn new() -> (r: Self)
        ensures
            r.pages == 0u64,
            forall|i: u8| i < 64 ==> !slot_claimed(r.pages, i),
    {
        proof {
            assert(forall|i: u8| i < 64 ==> 0u64 & (1u64 << i) == 0) by (bit_vector);
        }
        Self { pages: 0 }
    }

    /// Claims slot `i`. Returns true exactly when this call made the
    /// transition from free to claimed; false when the slot was already
    /// held (by anyone, this caller included).
    pub fn set_bit(&mut self, i: u8) -> (r: bool)
        requires
            i < 64,
        ensures
            r == !slot_claimed(old(self).pages, i),
            final(self).pages == old(self).pages | (1u64 << i),
            slot_claimed(final(self).pages, i),
            forall|j: u8|
                j < 64 && j != i ==> slot_claimed(final(self).pages, j) == slot_claimed(
                    old(self).pages,
                    j,
                ),
    {
        let bit_i: u64 = 1u64 << i;
        let prev: u64 = self.pages;
        self.pages = prev | bit_i;
        proof {
            let w = prev;
            let k = i;
            assert(k < 64 ==> (w | (1u64 << k)) & (1u64 << k) != 0) by (bit_vector);
            assert(forall|j: u8|
                j < 64 && j != k && k < 64 ==> ((w | (1u64 << k)) & (1u64 << j)) == (w & (1u64
                    << j))) by (bit_vector);
        }
        (prev & bit_i) == 0
    }

    /// Releases slot `i`. Returns true exactly when this call made the
    /// transition from claimed to free; false when the slot was already
    /// free.
    pub fn unset_bit(&mut self, i: u8) -> (r: bool)
        requires
            i < 64,
        ensures
            r == slot_claimed(old(self).pages, i),
            final(self).pages == old(self).pages & !(1u64 << i),
            !slot_claimed(final(self).pages, i),
            forall|j: u8|
                j < 64 && j != i ==> slot_claimed(final(self).pages, j) == slot_claimed(
                    old(self).pages,
                    j,
                ),
    {
        let bit_i: u64 = 1u64 << i;
        let prev: u64 = self.pages;
        self.pages = prev & !bit_i;
        proof {
            let w = prev;
            let k = i;
            assert(k < 64 ==> (w & !(1u64 << k)) & (1u64 << k) == 0) by (bit_vector);
            assert(forall|j: u8|
                j < 64 && j != k && k < 64 ==> ((w & !(1u64 << k)) & (1u64 << j)) == (w & (1u64
                    << j))) by (bit_vector);
        }
        (prev & bit_i) != 0
    }
}

/// Claim/release law for the slot bitmap: starting from any word, claiming a
/// free slot succeeds; a second claim of the same slot without an intervening
/// release fails; releasing a held slot succeeds and frees it again, after
/// which a fresh claim succeeds. Other slots are never disturbed.
pub proof fn lemma_slot_claim_release(w: u64, i: u8)
    requires
        i < 64,
    ensures
        slot_claimed(w | (1u64 << i), i),
        !slot_claimed((w | (1u64 << i)) & !(1u64 << i), i),
        forall|j: u8| j < 64 && j != i ==> slot_claimed(w | (1u64 << i), j) == slot_claimed(w, j),
        forall|j: u8| j < 64 && j != i ==> slot_claimed(w & !(1u64 << i), j) == slot_claimed(w, j),
{
    let k = i;
    assert(k < 64 ==> (w | (1u64 << k)) & (1u64 << k) != 0) by (bit_vector);
    assert(k < 64 ==> ((w | (1u64 << k)) & !(1u64 << k)) & (1u64 << k) == 0) by (bit_vector);
    assert(forall|j: u8|
        j < 64 && j != k && k < 64 ==> ((w | (1u64 << k)) & (1u64 << j)) == (w & (1u64 << j)))
        by (bit_vector);
    assert(forall|j: u8|
        j < 64 && j != k && k < 64 ==> ((w & !(1u64 << k)) & (1u64 << j)) == (w & (1u64 << j)))
        by (bit_vector);
}

} // verus!

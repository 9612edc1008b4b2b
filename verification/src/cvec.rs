//! The container itself: a capacity-bounded vector of optional slots and the
//! operations that populate, mutate, compact and grow it.

use crate::model::compact_model;
use crate::model::empty_model;
use crate::model::first_empty;
use crate::model::has_gap;
use crate::model::insert_model;
use crate::model::is_packed;
use crate::model::lemma_first_empty_props;
use crate::model::lemma_packed_is_compact;
use crate::model::lemma_shift_increases_trailing;
use crate::model::lemma_shift_preserves_occupied;
use crate::model::lemma_trailing_all_none;
use crate::model::occupied_values;
use crate::model::shift_left_at;
use crate::model::trailing_empties;
use vstd::prelude::*;
use vstd::std_specs::cmp::PartialEqSpec;

verus! {

/// What `==` means on two slots: both empty, or both occupied by values that
/// `T`'s own equality relates.
pub open spec fn slot_eq_spec<T: PartialEq>(a: Option<T>, b: Option<T>) -> bool {
    match (a, b) {
        (Some(x), Some(y)) => x.eq_spec(&y),
        (None, None) => true,
        _ => false,
    }
}

/// What `==` means on two sequences: positional equality. The capacities
/// agree and every slot index holds the same state; two sequences with the
/// same values in different slot positions, or with unequal gap placement,
/// are unequal.
pub open spec fn cvec_eq_spec<T: PartialEq>(a: Seq<Option<T>>, b: Seq<Option<T>>) -> bool {
    a.len() == b.len() && forall|i: int| 0 <= i < a.len() ==> #[trigger] slot_eq_spec(a[i], b[i])
}

/// The reason an operation on a [`CVec`] was refused. Each of these marks a
/// broken caller contract, not an expected runtime condition.
#[derive(Clone, Copy, Debug, PartialEq, Eq, Structural)]
pub enum CVecError {
    /// Insertion was attempted on a sequence with no empty slot left.
    CapacityExceeded,
    /// Removal was attempted on a slot that is already empty.
    EmptySlot,
    /// An index at or beyond the capacity was used.
    IndexOutOfRange,
}

/// A fixed-capacity, order-preserving sequence of optional slots.
///
/// The capacity is the number of slots, fixed when the instance is built;
/// each slot either holds a value (`Some`) or is empty (`None`). The view of
/// a `CVec` is the sequence of its slots in index order.
pub struct CVec<T> {
    slots: Vec<Option<T>>,
}

impl<T> View for CVec<T> {
    type V = Seq<Option<T>>;

    closed spec fn view(&self) -> Seq<Option<T>> {
        self.slots@
    }
}

impl<T: Copy> CVec<T> {
    /// A fresh sequence of `capacity` slots, all empty.
    pub fn empty(capacity: usize) -> (r: CVec<T>)
        ensures
            r@ == empty_model::<T>(capacity as nat),
    {
        let mut slots: Vec<Option<T>> = Vec::new();
        while slots.len() < capacity
            invariant
                slots@.len() <= capacity,
                forall|j: int| 0 <= j < slots@.len() ==> slots@[j] is None,
            decreases capacity - slots@.len(),
        {
            slots.push(None);
        }
        proof {
            assert(slots@ =~= empty_model::<T>(capacity as nat));
        }
        CVec { slots }
    }

    /// The number of slots, fixed at construction.
    pub fn capacity(&self) -> (n: usize)
        ensures
            n == self@.len(),
    {
        self.slots.len()
    }

    /// The slot at `idx`: the value held by an occupied slot, or `None` for
    /// an empty one. An index at or beyond the capacity is a broken caller
    /// contract.
    pub fn get(&self, idx: usize) -> (r: Option<T>)
        requires
            idx < self@.len(),
        ensures
            r == self@[idx as int],
    {
        self.slots[idx]
    }

    /// A sequence whose every slot is occupied, in order, by the values of
    /// `values`; the capacity is exactly `values.len()`.
    pub fn new_arr(values: Vec<T>) -> (r: CVec<T>)
        ensures
            r@.len() == values@.len(),
            forall|i: int| 0 <= i < values@.len() ==> r@[i] == Some(values@[i]),
    {
        let mut slots: Vec<Option<T>> = Vec::new();
        let mut i: usize = 0;
        while i < values.len()
            invariant
                i <= values@.len(),
                slots@.len() == i,
                forall|j: int| 0 <= j < i ==> slots@[j] == Some(values@[j]),
            decreases values@.len() - i,
        {
            slots.push(Some(values[i]));
            i += 1;
        }
        CVec { slots }
    }

    /// Occupies the first empty slot with `item`, leaving every other slot
    /// untouched; refused with `CapacityExceeded` when the sequence is full.
    /// Insertion never reorders the occupied slots.
    pub fn insert(&mut self, item: T) -> (r: Result<(), CVecError>)
        ensures
            final(self)@.len() == old(self)@.len(),
            has_gap(old(self)@) ==> r is Ok && final(self)@ == insert_model(old(self)@, item),
            !has_gap(old(self)@) ==> r == Err::<(), CVecError>(CVecError::CapacityExceeded)
                && final(self)@ == old(self)@,
    {
        let n = self.slots.len();
        let mut i: usize = 0;
        while i < n
            invariant
                n == self@.len(),
                i <= n,
                self@ == old(self)@,
                forall|j: int| 0 <= j < i ==> self@[j] is Some,
            decreases n - i,
        {
            if self.slots[i].is_none() {
                self.slots.set(i, Some(item));
                proof {
                    lemma_first_empty_props(old(self)@);
                    let f = first_empty(old(self)@);
                    if f < i {
                        assert(old(self)@[f] is Some);
                    }
                    if f > i {
                        assert(old(self)@[i as int] is Some);
                    }
                    assert(f == i);
                    assert(has_gap(old(self)@));
                }
                return Ok(());
            }
            i += 1;
        }
        Err(CVecError::CapacityExceeded)
    }

    /// Clears the occupied slot at `idx` and hands its value back, leaving
    /// every other slot untouched: this can create an internal gap. Refused
    /// with `EmptySlot` on an already-empty slot and with `IndexOutOfRange`
    /// on an index at or beyond the capacity.
    pub fn remove_not_compressed(&mut self, idx: usize) -> (r: Result<T, CVecError>)
        ensures
            final(self)@.len() == old(self)@.len(),
            idx >= old(self)@.len() ==> r == Err::<T, CVecError>(CVecError::IndexOutOfRange)
                && final(self)@ == old(self)@,
            idx < old(self)@.len() && old(self)@[idx as int] is None ==> r == Err::<T, CVecError>(
                CVecError::EmptySlot,
            ) && final(self)@ == old(self)@,
            idx < old(self)@.len() && old(self)@[idx as int] is Some ==> (r matches Ok(v)
                && Some(v) == old(self)@[idx as int]) && final(self)@ == old(self)@.update(
                idx as int,
                None::<T>,
            ),
    {
        if idx >= self.slots.len() {
            return Err(CVecError::IndexOutOfRange);
        }
        match self.slots[idx] {
            None => Err(CVecError::EmptySlot),
            Some(v) => {
                self.slots.set(idx, None);
                Ok(v)
            },
        }
    }

    /// Clears the occupied slot at `idx`, then compacts the sequence, so
    /// that the storage stays gap-free. The errors are those of
    /// [`CVec::remove_not_compressed`], with the sequence left unchanged.
    pub fn remove(&mut self, idx: usize) -> (r: Result<T, CVecError>)
        ensures
            final(self)@.len() == old(self)@.len(),
            idx >= old(self)@.len() ==> r == Err::<T, CVecError>(CVecError::IndexOutOfRange)
                && final(self)@ == old(self)@,
            idx < old(self)@.len() && old(self)@[idx as int] is None ==> r == Err::<T, CVecError>(
                CVecError::EmptySlot,
            ) && final(self)@ == old(self)@,
            idx < old(self)@.len() && old(self)@[idx as int] is Some ==> (r matches Ok(v)
                && Some(v) == old(self)@[idx as int]) && final(self)@ == compact_model(
                old(self)@.update(idx as int, None::<T>),
            ),
    {
        let out = self.remove_not_compressed(idx);
        match out {
            Ok(v) => {
                self.compress();
                Ok(v)
            },
            Err(e) => Err(e),
        }
    }

    /// Eliminates every internal gap that an occupied slot follows, keeping
    /// the relative order of the occupied values: afterwards the occupied
    /// values sit in the leftmost slots and every other slot is empty.
    ///
    /// Runs passes until one performs no shift; every pass lengthens the run
    /// of trailing empty slots, so at most `capacity + 1` passes run.
    pub fn compress(&mut self)
        ensures
            final(self)@ == compact_model(old(self)@),
    {
        loop
            invariant
                self@.len() == old(self)@.len(),
                occupied_values(self@) == occupied_values(old(self)@),
            decreases self@.len() - trailing_empties(self@),
        {
            let ghost pre = self@;
            let already = self.compress_once();
            if already {
                proof {
                    lemma_packed_is_compact(pre);
                    assert(compact_model(pre) =~= compact_model(old(self)@));
                }
                return;
            }
            proof {
                assert(exists|a: int, b: int|
                    #![trigger pre[a], pre[b]]
                    0 <= a < b < pre.len() && pre[a] is None && pre[b] is Some);
                let (a, b): (int, int) = choose|a: int, b: int|
                    #![trigger pre[a], pre[b]]
                    0 <= a < b < pre.len() && pre[a] is None && pre[b] is Some;
                lemma_first_empty_props(pre);
                let g = first_empty(pre);
                assert(g <= a);
                lemma_shift_preserves_occupied(pre, g);
                lemma_shift_increases_trailing(pre, g, b);
                lemma_trailing_all_none(self@);
            }
        }
    }

    /// One compaction pass: where some occupied slot follows the first gap,
    /// shifts every slot after that gap one position left and empties the
    /// last slot; reports whether the sequence was already packed, in which
    /// case nothing moves.
    fn compress_once(&mut self) -> (already: bool)
        ensures
            final(self)@.len() == old(self)@.len(),
            already <==> is_packed(old(self)@),
            already ==> final(self)@ == old(self)@,
            !already ==> final(self)@ == shift_left_at(old(self)@, first_empty(old(self)@)),
    {
        let n = self.slots.len();
        let mut g: usize = 0;
        while g < n && self.slots[g].is_some()
            invariant
                n == self@.len(),
                self@ == old(self)@,
                g <= n,
                forall|j: int| 0 <= j < g ==> self@[j] is Some,
            decreases n - g,
        {
            g += 1;
        }
        if g == n {
            return true;
        }
        let mut j: usize = g + 1;
        while j < n && self.slots[j].is_none()
            invariant
                n == self@.len(),
                self@ == old(self)@,
                g < j <= n,
                g < n,
                self@[g as int] is None,
                forall|k: int| 0 <= k < g ==> self@[k] is Some,
                forall|k: int| g < k < j ==> self@[k] is None,
            decreases n - j,
        {
            j += 1;
        }
        if j == n {
            proof {
                assert forall|a: int, b: int|
                    0 <= a < b < self@.len() && self@[a] is None implies self@[b] is None by {
                    assert(a >= g);
                    assert(b > g);
                }
                assert(is_packed(self@));
            }
            return true;
        }
        let ghost pre = self@;
        proof {
            assert(!is_packed(pre));
            lemma_first_empty_props(pre);
            let f = first_empty(pre);
            if f < g {
                assert(pre[f] is Some);
            }
            if f > g {
                assert(pre[g as int] is Some);
            }
            assert(f == g);
        }
        let mut i: usize = g;
        while i + 1 < n
            invariant
                n == self@.len(),
                g <= i < n,
                forall|k: int| 0 <= k < g ==> self@[k] == pre[k],
                forall|k: int| g <= k < i ==> self@[k] == pre[k + 1],
                forall|k: int| i <= k < n ==> self@[k] == pre[k],
            decreases n - i,
        {
            let v = self.slots[i + 1];
            self.slots.set(i, v);
            i += 1;
        }
        self.slots.set(n - 1, None);
        proof {
            assert(self@ =~= shift_left_at(pre, g as int));
        }
        false
    }

    /// The value of slot 0 together with a new sequence of the same
    /// capacity holding slots `1..` shifted down one position, the last slot
    /// left empty. An empty slot 0 yields `None` and the shifted sequence
    /// all the same: whether that is meaningful is the caller's concern.
    pub fn poped(&self) -> (r: (Option<T>, CVec<T>))
        requires
            self@.len() >= 1,
        ensures
            r.0 == self@[0],
            r.1@ == self@.subrange(1, self@.len() as int).push(None::<T>),
    {
        let first = self.slots[0];
        let n = self.slots.len();
        let mut slots: Vec<Option<T>> = Vec::new();
        let mut i: usize = 1;
        while i < n
            invariant
                n == self@.len(),
                1 <= i <= n,
                slots@.len() == i - 1,
                forall|k: int| 0 <= k < i - 1 ==> slots@[k] == self@[k + 1],
            decreases n - i,
        {
            slots.push(self.slots[i]);
            i += 1;
        }
        slots.push(None);
        proof {
            assert(slots@ =~= self@.subrange(1, self@.len() as int).push(None::<T>));
        }
        (first, CVec { slots })
    }

    /// A new sequence of capacity one larger: the same slots in order, with
    /// a fresh empty slot appended. The original is unaffected.
    pub fn extended_one(&self) -> (r: CVec<T>)
        ensures
            r@ == self@.push(None::<T>),
    {
        let n = self.slots.len();
        let mut slots: Vec<Option<T>> = Vec::new();
        let mut i: usize = 0;
        while i < n
            invariant
                n == self@.len(),
                i <= n,
                slots@.len() == i,
                forall|k: int| 0 <= k < i ==> slots@[k] == self@[k],
            decreases n - i,
        {
            slots.push(self.slots[i]);
            i += 1;
        }
        slots.push(None);
        proof {
            assert(slots@ =~= self@.push(None::<T>));
        }
        CVec { slots }
    }

    /// A sequence of `capacity` slots whose first `min(capacity,
    /// values.len())` slots hold the corresponding values of `values`, in
    /// order; any remaining slots are empty. Excess input values are
    /// silently dropped.
    pub fn new_slice(capacity: usize, values: &[T]) -> (r: CVec<T>)
        ensures
            r@.len() == capacity,
            forall|i: int|
                0 <= i < capacity && i < values@.len() ==> r@[i] == Some(values@[i]),
            forall|i: int| values@.len() <= i < capacity ==> r@[i] is None,
    {
        let k = if capacity < values.len() {
            capacity
        } else {
            values.len()
        };
        let mut slots: Vec<Option<T>> = Vec::new();
        let mut i: usize = 0;
        while i < k
            invariant
                k <= capacity,
                k <= values@.len(),
                i <= k,
                slots@.len() == i,
                forall|j: int| 0 <= j < i ==> slots@[j] == Some(values@[j]),
            decreases k - i,
        {
            slots.push(Some(values[i]));
            i += 1;
        }
        while slots.len() < capacity
            invariant
                k <= slots@.len() <= capacity,
                forall|j: int| 0 <= j < k ==> slots@[j] == Some(values@[j]),
                forall|j: int| k <= j < slots@.len() ==> slots@[j] is None,
            decreases capacity - slots@.len(),
        {
            slots.push(None);
        }
        CVec { slots }
    }
}

impl<T: Copy + PartialEq> vstd::std_specs::cmp::PartialEqSpecImpl for CVec<T> {
    open spec fn obeys_eq_spec() -> bool {
        <T as PartialEqSpec>::obeys_eq_spec()
    }

    open spec fn eq_spec(&self, other: &CVec<T>) -> bool {
        cvec_eq_spec(self@, other@)
    }
}

impl<T: Copy + PartialEq> PartialEq for CVec<T> {
    /// Structural, positional equality: slot by slot, index by index.
    fn eq(&self, other: &CVec<T>) -> (r: bool) {
        if self.slots.len() != other.slots.len() {
            return false;
        }
        let n = self.slots.len();
        let mut i: usize = 0;
        while i < n
            invariant
                n == self@.len(),
                self@.len() == other@.len(),
                i <= n,
                <T as PartialEqSpec>::obeys_eq_spec() ==> forall|k: int|
                    0 <= k < i ==> #[trigger] slot_eq_spec(self@[k], other@[k]),
            decreases n - i,
        {
            let same = match (self.slots[i], other.slots[i]) {
                (Some(x), Some(y)) => x == y,
                (None, None) => true,
                _ => false,
            };
            if !same {
                proof {
                    if <T as PartialEqSpec>::obeys_eq_spec() {
                        assert(!slot_eq_spec(self@[i as int], other@[i as int]));
                    }
                }
                return false;
            }
            proof {
                if <T as PartialEqSpec>::obeys_eq_spec() {
                    assert(slot_eq_spec(self@[i as int], other@[i as int]));
                }
            }
            i += 1;
        }
        true
    }
}

} // verus!

//! The mathematical model of the container: a sequence of optional slots,
//! together with the spec-level meaning of each operation and the laws the
//! operations obey.

use vstd::prelude::*;

verus! {

/// The model of a fresh sequence of capacity `n`: every slot is empty.
pub open spec fn empty_model<T>(n: nat) -> Seq<Option<T>> {
    Seq::new(n, |i: int| None::<T>)
}

/// The index of the first empty slot of `s`, or `s.len()` when every slot is
/// occupied.
pub open spec fn first_empty<T>(s: Seq<Option<T>>) -> int
    decreases s.len(),
{
    if s.len() == 0 {
        0
    } else if s[0] is None {
        0
    } else {
        1 + first_empty(s.subrange(1, s.len() as int))
    }
}

/// Whether `s` has at least one empty slot.
pub open spec fn has_gap<T>(s: Seq<Option<T>>) -> bool {
    exists|i: int| 0 <= i < s.len() && s[i] is None
}

/// The model of insertion: the first empty slot becomes occupied by `v`;
/// every other slot is untouched. Meaningful only when `has_gap(s)`.
pub open spec fn insert_model<T>(s: Seq<Option<T>>, v: T) -> Seq<Option<T>> {
    s.update(first_empty(s), Some(v))
}

/// The model of filling a fresh sequence of capacity `n` by inserting the
/// values of `vals` in order.
pub open spec fn fill_model<T>(n: nat, vals: Seq<T>) -> Seq<Option<T>>
    decreases vals.len(),
{
    if vals.len() == 0 {
        empty_model(n)
    } else {
        insert_model(fill_model(n, vals.drop_last()), vals.last())
    }
}

/// The values of the occupied slots of `s`, in slot order.
pub open spec fn occupied_values<T>(s: Seq<Option<T>>) -> Seq<T>
    decreases s.len(),
{
    if s.len() == 0 {
        Seq::empty()
    } else {
        match s.last() {
            Some(v) => occupied_values(s.drop_last()).push(v),
            None => occupied_values(s.drop_last()),
        }
    }
}

/// `s` with the slot at `g` dropped, every later slot shifted one position
/// left, and a fresh empty slot at the end: the work of one compaction pass.
pub open spec fn shift_left_at<T>(s: Seq<Option<T>>, g: int) -> Seq<Option<T>> {
    s.subrange(0, g) + s.subrange(g + 1, s.len() as int) + seq![None::<T>]
}

/// The number of empty slots at the end of `s`.
pub open spec fn trailing_empties<T>(s: Seq<Option<T>>) -> nat
    decreases s.len(),
{
    if s.len() == 0 {
        0
    } else if s.last() is None {
        1 + trailing_empties(s.drop_last())
    } else {
        0
    }
}

/// Whether `s` is free of internal gaps: no occupied slot follows an empty
/// one.
pub open spec fn is_packed<T>(s: Seq<Option<T>>) -> bool {
    forall|i: int, j: int| 0 <= i < j < s.len() && s[i] is None ==> s[j] is None
}

/// The model of compaction: the occupied values of `s`, in order, moved to
/// the leftmost slots, with every remaining slot empty.
pub open spec fn compact_model<T>(s: Seq<Option<T>>) -> Seq<Option<T>> {
    let occ = occupied_values(s);
    Seq::new(s.len(), |i: int| if i < occ.len() { Some(occ[i]) } else { None })
}

/// `first_empty(s)` is the least index holding an empty slot: every slot
/// before it is occupied, and it is within bounds exactly when a gap exists.
pub proof fn lemma_first_empty_props<T>(s: Seq<Option<T>>)
    ensures
        0 <= first_empty(s) <= s.len(),
        forall|j: int| 0 <= j < first_empty(s) ==> s[j] is Some,
        first_empty(s) < s.len() ==> s[first_empty(s)] is None,
        has_gap(s) <==> first_empty(s) < s.len(),
    decreases s.len(),
{
    if s.len() == 0 {
    } else if s[0] is None {
    } else {
        let rest = s.subrange(1, s.len() as int);
        lemma_first_empty_props(rest);
        let f = first_empty(s);
        assert(forall|j: int| 0 <= j < f ==> s[j] is Some) by {
            assert(forall|j: int| 1 <= j < f ==> s[j] == rest[j - 1]);
        }
        if has_gap(s) {
            let i = choose|i: int| 0 <= i < s.len() && s[i] is None;
            assert(rest[i - 1] is None);
            assert(has_gap(rest));
        }
        if has_gap(rest) {
            let i = choose|i: int| 0 <= i < rest.len() && rest[i] is None;
            assert(s[i + 1] is None);
        }
    }
}

/// There are at most as many occupied values as slots.
pub proof fn lemma_occupied_len<T>(s: Seq<Option<T>>)
    ensures
        occupied_values(s).len() <= s.len(),
    decreases s.len(),
{
    if s.len() > 0 {
        lemma_occupied_len(s.drop_last());
    }
}

/// The occupied values of a concatenation are the occupied values of the
/// parts, concatenated.
pub proof fn lemma_occupied_add<T>(a: Seq<Option<T>>, b: Seq<Option<T>>)
    ensures
        occupied_values(a + b) == occupied_values(a) + occupied_values(b),
    decreases b.len(),
{
    if b.len() == 0 {
        assert(a + b =~= a);
        assert(occupied_values(a) + occupied_values(b) =~= occupied_values(a));
    } else {
        lemma_occupied_add(a, b.drop_last());
        assert((a + b).drop_last() =~= a + b.drop_last());
        assert((a + b).last() == b.last());
        match b.last() {
            Some(v) => {
                assert((occupied_values(a) + occupied_values(b.drop_last())).push(v)
                    =~= occupied_values(a) + occupied_values(b.drop_last()).push(v));
            },
            None => {},
        }
    }
}

/// On a sequence with every slot occupied, the occupied values are exactly
/// the slot contents, in order.
pub proof fn lemma_occupied_all_some<T>(s: Seq<Option<T>>)
    requires
        forall|i: int| 0 <= i < s.len() ==> s[i] is Some,
    ensures
        occupied_values(s).len() == s.len(),
        forall|i: int| 0 <= i < s.len() ==> s[i] == Some(occupied_values(s)[i]),
    decreases s.len(),
{
    if s.len() > 0 {
        assert(forall|i: int| 0 <= i < s.len() - 1 ==> s.drop_last()[i] == s[i]);
        lemma_occupied_all_some(s.drop_last());
    }
}

/// A sequence with every slot empty has no occupied values.
pub proof fn lemma_occupied_all_none<T>(s: Seq<Option<T>>)
    requires
        forall|i: int| 0 <= i < s.len() ==> s[i] is None,
    ensures
        occupied_values(s).len() == 0,
    decreases s.len(),
{
    if s.len() > 0 {
        assert(forall|i: int| 0 <= i < s.len() - 1 ==> s.drop_last()[i] == s[i]);
        lemma_occupied_all_none(s.drop_last());
    }
}

/// A sequence shaped as an occupied prefix holding `v` followed by empty
/// slots has exactly `v` as its occupied values.
pub proof fn lemma_occupied_of_packed_shape<T>(s: Seq<Option<T>>, v: Seq<T>)
    requires
        v.len() <= s.len(),
        forall|i: int| 0 <= i < v.len() ==> s[i] == Some(v[i]),
        forall|i: int| v.len() <= i < s.len() ==> s[i] is None,
    ensures
        occupied_values(s) == v,
{
    let a = s.subrange(0, v.len() as int);
    let b = s.subrange(v.len() as int, s.len() as int);
    assert(s =~= a + b);
    lemma_occupied_add(a, b);
    lemma_occupied_all_some(a);
    lemma_occupied_all_none(b);
    assert forall|i: int| 0 <= i < v.len() implies occupied_values(a)[i] == v[i] by {
        assert(a[i] == s[i]);
        assert(a[i] == Some(occupied_values(a)[i]));
    }
    assert(occupied_values(a) =~= v);
    assert(occupied_values(s) =~= v);
}

/// A packed sequence is already its own compaction.
pub proof fn lemma_packed_is_compact<T>(s: Seq<Option<T>>)
    requires
        is_packed(s),
    ensures
        s == compact_model(s),
{
    lemma_first_empty_props(s);
    let f = first_empty(s);
    assert forall|j: int| f <= j < s.len() implies s[j] is None by {
        if j > f {
            assert(0 <= f < j < s.len() && s[f] is None);
        }
    }
    let a = s.subrange(0, f);
    let b = s.subrange(f, s.len() as int);
    assert(s =~= a + b);
    lemma_occupied_add(a, b);
    lemma_occupied_all_some(a);
    lemma_occupied_all_none(b);
    assert(occupied_values(s) =~= occupied_values(a));
    assert(s =~= compact_model(s));
}

/// Compaction keeps the occupied values, in order, and the capacity; only
/// the placement of the gaps changes.
pub proof fn lemma_compact_preserves_order<T>(s: Seq<Option<T>>)
    ensures
        compact_model(s).len() == s.len(),
        occupied_values(compact_model(s)) == occupied_values(s),
{
    lemma_occupied_len(s);
    lemma_occupied_of_packed_shape(compact_model(s), occupied_values(s));
}

/// Compacting an already compacted sequence changes nothing.
pub proof fn lemma_compact_idempotent<T>(s: Seq<Option<T>>)
    ensures
        compact_model(compact_model(s)) == compact_model(s),
{
    lemma_compact_preserves_order(s);
    assert(compact_model(compact_model(s)) =~= compact_model(s));
}

/// Every slot within the trailing-empties range is indeed empty.
pub proof fn lemma_trailing_all_none<T>(s: Seq<Option<T>>)
    ensures
        trailing_empties(s) <= s.len(),
        forall|i: int| s.len() - trailing_empties(s) <= i < s.len() ==> s[i] is None,
    decreases s.len(),
{
    if s.len() > 0 && s.last() is None {
        lemma_trailing_all_none(s.drop_last());
        assert(forall|i: int| 0 <= i < s.len() - 1 ==> s.drop_last()[i] == s[i]);
    }
}

/// A run of empty slots reaching the end of the sequence is counted in full
/// by `trailing_empties`.
pub proof fn lemma_trailing_at_least<T>(s: Seq<Option<T>>, m: int)
    requires
        0 <= m <= s.len(),
        forall|i: int| m <= i < s.len() ==> s[i] is None,
    ensures
        trailing_empties(s) >= s.len() - m,
    decreases s.len(),
{
    if m < s.len() {
        assert(forall|i: int| 0 <= i < s.len() - 1 ==> s.drop_last()[i] == s[i]);
        lemma_trailing_at_least(s.drop_last(), m);
    }
}

/// One compaction pass over the gap at `g` keeps the occupied values and the
/// capacity.
pub proof fn lemma_shift_preserves_occupied<T>(s: Seq<Option<T>>, g: int)
    requires
        0 <= g < s.len(),
        s[g] is None,
    ensures
        shift_left_at(s, g).len() == s.len(),
        occupied_values(shift_left_at(s, g)) == occupied_values(s),
{
    reveal_with_fuel(occupied_values, 2);
    let a = s.subrange(0, g);
    let mid = s.subrange(g, g + 1);
    let b = s.subrange(g + 1, s.len() as int);
    let e = seq![None::<T>];
    assert(mid.last() == s[g]);
    assert(mid.drop_last().len() == 0);
    assert(occupied_values(mid) =~= Seq::<T>::empty());
    assert(e.drop_last().len() == 0);
    assert(occupied_values(e) =~= Seq::<T>::empty());
    assert(s =~= (a + mid) + b);
    lemma_occupied_add(a + mid, b);
    lemma_occupied_add(a, mid);
    lemma_occupied_add(a + b, e);
    lemma_occupied_add(a, b);
    assert(shift_left_at(s, g) =~= (a + b) + e);
    assert(occupied_values(s) =~= occupied_values(a) + occupied_values(b));
    assert(occupied_values(shift_left_at(s, g)) =~= occupied_values(a) + occupied_values(b));
}

/// One compaction pass over a gap that an occupied slot follows strictly
/// lengthens the run of trailing empty slots: the bound on the number of
/// passes compaction can take.
pub proof fn lemma_shift_increases_trailing<T>(s: Seq<Option<T>>, g: int, j: int)
    requires
        0 <= g < j < s.len(),
        s[g] is None,
        s[j] is Some,
    ensures
        trailing_empties(shift_left_at(s, g)) > trailing_empties(s),
{
    let n = s.len() as int;
    let k = trailing_empties(s) as int;
    let t = shift_left_at(s, g);
    lemma_trailing_all_none(s);
    assert(j < n - k);
    assert(t.len() == n);
    assert forall|i: int| n - k - 1 <= i < n implies t[i] is None by {
        if i < n - 1 {
            assert(t[i] == s[i + 1]);
        }
    }
    lemma_trailing_at_least(t, n - k - 1);
}

/// Inserting `k` values one by one into a fresh sequence of capacity
/// `n >= k` occupies the first `k` slots with exactly those values, in
/// insertion order, and leaves every later slot empty.
pub proof fn lemma_insert_get_round_trip<T>(n: nat, vals: Seq<T>)
    requires
        vals.len() <= n,
    ensures
        fill_model(n, vals).len() == n,
        forall|i: int| 0 <= i < vals.len() ==> fill_model(n, vals)[i] == Some(vals[i]),
        forall|i: int| vals.len() <= i < n ==> fill_model(n, vals)[i] is None,
    decreases vals.len(),
{
    if vals.len() > 0 {
        let prev = fill_model(n, vals.drop_last());
        lemma_insert_get_round_trip(n, vals.drop_last());
        lemma_first_empty_props(prev);
        let k = vals.len() - 1;
        assert(prev[k] is None);
        assert(first_empty(prev) == k) by {
            if first_empty(prev) < k {
                assert(prev[first_empty(prev)] == Some(vals.drop_last()[first_empty(prev)]));
            }
        }
        assert(fill_model(n, vals) == prev.update(k, Some(vals.last())));
        assert(forall|i: int| 0 <= i < k ==> fill_model(n, vals)[i] == Some(vals.drop_last()[i]));
    }
}

} // verus!

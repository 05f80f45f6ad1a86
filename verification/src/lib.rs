//! A fixed-capacity container that keeps its live elements densely packed
//! for fast iteration while handing callers stable external indices.
//!
//! `PackedArray<T, N>` stores up to `N` elements contiguously.  Each element
//! is addressed through an external index in `[0, N)` that stays valid across
//! removals of other elements, even though the element's physical slot may
//! move.  Two inverse permutations (`index_to_entry` and `entry_to_index`)
//! provide the indirection; removal compacts the storage by moving the last
//! element into the freed slot in O(1).

use vstd::prelude::*;
use vstd::relations::injective_on;
use vstd::set_lib::{lemma_int_range, lemma_map_size, lemma_set_subset_finite, set_int_range};
use vstd::std_specs::iter::IteratorSpec;

verus! {

broadcast use vstd::array::group_array_axioms;

/// Densely packed fixed-capacity container with stable external indices.
///
/// `data` holds exactly the live elements, packed with no gaps.
/// `index_to_entry` maps an external index to the physical slot holding its
/// value; `entry_to_index` is the inverse permutation.  An external index `i`
/// is live iff `index_to_entry[i] < data.len()`.
pub struct PackedArray<T, const N: usize> {
    data: Vec<T>,
    index_to_entry: [usize; N],
    entry_to_index: [usize; N],
}

impl<T, const N: usize> PackedArray<T, N> {
    /// Number of live elements.
    pub closed spec fn spec_len(self) -> int {
        self.data@.len() as int
    }

    /// The forward map: physical slot currently assigned to external `index`.
    pub closed spec fn slot_of(self, index: int) -> int
        recommends
            0 <= index < N,
    {
        self.index_to_entry@[index] as int
    }

    /// The backward map: external index currently owning physical `slot`.
    pub closed spec fn index_at(self, slot: int) -> int
        recommends
            0 <= slot < N,
    {
        self.entry_to_index@[slot] as int
    }

    /// The packed prefix of live values, in physical slot order.
    pub closed spec fn packed(self) -> Seq<T> {
        self.data@
    }

    /// The external index that the next `append` will assign.
    pub closed spec fn next_index(self) -> int
        recommends
            self.spec_len() < N,
    {
        self.index_at(self.spec_len())
    }

    /// Well-formedness: the two maps are inverse permutations of `[0, N)`
    /// and the packed prefix fits in the capacity.
    pub closed spec fn wf(self) -> bool {
        &&& self.spec_len() <= N
        &&& forall|i: int|
            0 <= i < N ==> (#[trigger] self.index_to_entry@[i]) < N
                && self.entry_to_index@[self.index_to_entry@[i] as int] as int == i
        &&& forall|s: int|
            0 <= s < N ==> (#[trigger] self.entry_to_index@[s]) < N
                && self.index_to_entry@[self.entry_to_index@[s] as int] as int == s
    }
}

impl<T, const N: usize> View for PackedArray<T, N> {
    type V = Map<int, T>;

    /// The abstract state: a finite map from each live external index to the
    /// value it currently names.
    closed spec fn view(&self) -> Map<int, T> {
        Map::new(
            |i: int| 0 <= i < N && self.slot_of(i) < self.spec_len(),
            |i: int| self.packed()[self.slot_of(i)],
        )
    }
}

/// Relies on `array_init::array_init`: the returned array holds at position
/// `i` the result of calling the initializer on `i`; here the initializer is
/// the identity, so the array is the identity permutation.
#[verifier::external_body]
fn identity_array<const N: usize>() -> (r: [usize; N])
    ensures
        forall|i: int| 0 <= i < N ==> #[trigger] r@[i] as int == i,
{
    array_init::array_init(|i| i)
}

impl<T, const N: usize> PackedArray<T, N> {
    /// Creates an empty container: no index is live and both maps are the
    /// identity permutation.
    pub fn new() -> (r: Self)
        ensures
            r.wf(),
            r@ == Map::<int, T>::empty(),
            r.spec_len() == 0,
            forall|i: int| 0 <= i < N ==> #[trigger] r.slot_of(i) == i,
            forall|s: int| 0 <= s < N ==> #[trigger] r.index_at(s) == s,
    {
        let r = PackedArray {
            data: Vec::with_capacity(N),
            index_to_entry: identity_array::<N>(),
            entry_to_index: identity_array::<N>(),
        };
        proof {
            assert(r@ =~= Map::<int, T>::empty());
        }
        r
    }

    /// Returns the current number of live elements.
    pub fn len(&self) -> (r: usize)
        ensures
            r as int == self.spec_len(),
    {
        self.data.len()
    }

    /// Returns true iff there is a live element under `index`.
    pub fn has(&self, index: usize) -> (r: bool)
        requires
            index < N,
        ensures
            r <==> self@.dom().contains(index as int),
    {
        self.index_to_entry[index] < self.data.len()
    }

    /// Returns true iff the capacity is exhausted and nothing can be added.
    pub fn full(&self) -> (r: bool)
        ensures
            r <==> self.spec_len() == N,
    {
        self.data.len() == N
    }

    /// Returns a reference to the live element at external `index`.
    pub fn get(&self, index: usize) -> (r: &T)
        requires
            index < N,
            self@.dom().contains(index as int),
        ensures
            *r == self@[index as int],
    {
        let e = self.index_to_entry[index];
        &self.data[e]
    }

    /// Returns a mutable reference to the live element at external `index`.
    /// Writing through the reference updates exactly that index's value.
    pub fn get_mut(&mut self, index: usize) -> (r: &mut T)
        requires
            old(self).wf(),
            index < N,
            old(self)@.dom().contains(index as int),
        ensures
            *r == old(self)@[index as int],
            final(self).wf(),
            final(self)@ =~= old(self)@.insert(index as int, *final(r)),
            final(self).spec_len() == old(self).spec_len(),
            final(self).packed() == old(self).packed().update(
                old(self).slot_of(index as int),
                *final(r),
            ),
            forall|i: int|
                0 <= i < N ==> #[trigger] final(self).slot_of(i) == old(self).slot_of(i),
            forall|s: int|
                0 <= s < N ==> #[trigger] final(self).index_at(s) == old(self).index_at(s),
    {
        let e = self.index_to_entry[index];
        &mut self.data[e]
    }

    /// Adds `value`, returning the external index assigned to it: the index
    /// that the bookkeeping maps had parked at the first free slot.
    pub fn append(&mut self, value: T) -> (r: usize)
        requires
            old(self).wf(),
            old(self).spec_len() < N,
        ensures
            final(self).wf(),
            r < N,
            r as int == old(self).next_index(),
            !old(self)@.dom().contains(r as int),
            final(self)@ =~= old(self)@.insert(r as int, value),
            final(self).spec_len() == old(self).spec_len() + 1,
            final(self).packed() == old(self).packed().push(value),
            forall|i: int|
                0 <= i < N ==> #[trigger] final(self).slot_of(i) == old(self).slot_of(i),
            forall|s: int|
                0 <= s < N ==> #[trigger] final(self).index_at(s) == old(self).index_at(s),
    {
        let r = self.entry_to_index[self.data.len()];
        self.data.push(value);
        proof {
            let o = *old(self);
            let len = o.spec_len();
            assert(o.index_to_entry@[o.entry_to_index@[len] as int] as int == len);
            assert forall|j: int| 0 <= j < N && j != r as int implies o.slot_of(j) != len by {
                assert(o.entry_to_index@[o.index_to_entry@[j] as int] as int == j);
            }
            assert(self@ =~= o@.insert(r as int, value));
        }
        r
    }

    /// Swaps the bookkeeping entries of `index` and of the index owning the
    /// first free slot, so that `index` comes to own that slot.  Touches only
    /// the two maps, never the stored values.
    fn swap_with_back(&mut self, index: usize)
        requires
            old(self).wf(),
            index < N,
            old(self).spec_len() < N,
        ensures
            final(self).wf(),
            final(self).data == old(self).data,
            final(self).slot_of(index as int) == old(self).spec_len(),
            final(self).index_at(old(self).spec_len()) == index,
            final(self).slot_of(old(self).index_at(old(self).spec_len())) == old(self).slot_of(
                index as int,
            ),
            final(self).index_at(old(self).slot_of(index as int)) == old(self).index_at(
                old(self).spec_len(),
            ),
            forall|i: int|
                0 <= i < N && i != index as int && i != old(self).index_at(old(self).spec_len())
                    ==> #[trigger] final(self).slot_of(i) == old(self).slot_of(i),
            forall|s: int|
                0 <= s < N && s != old(self).spec_len() && s != old(self).slot_of(index as int)
                    ==> #[trigger] final(self).index_at(s) == old(self).index_at(s),
    {
        let entry = self.index_to_entry[index];
        let last_index = self.entry_to_index[self.data.len()];
        let size = self.data.len();

        let other = self.index_to_entry[last_index];
        self.index_to_entry[index] = other;
        self.index_to_entry[last_index] = entry;

        let owner = self.entry_to_index[entry];
        let parked = self.entry_to_index[size];
        self.entry_to_index[entry] = parked;
        self.entry_to_index[size] = owner;
    }

    /// Writes `value` at external `index`.  If `index` is not live, it is
    /// first materialized by assigning it the first free slot, growing the
    /// container by one; if it is live, the stored value is overwritten.
    pub fn set(&mut self, index: usize, value: T)
        requires
            old(self).wf(),
            index < N,
            old(self)@.dom().contains(index as int) || old(self).spec_len() < N,
        ensures
            final(self).wf(),
            final(self)@ =~= old(self)@.insert(index as int, value),
            final(self).spec_len() == if old(self)@.dom().contains(index as int) {
                old(self).spec_len()
            } else {
                old(self).spec_len() + 1
            },
            old(self)@.dom().contains(index as int) ==> final(self).packed()
                == old(self).packed().update(old(self).slot_of(index as int), value),
            !old(self)@.dom().contains(index as int) ==> final(self).packed()
                == old(self).packed().push(value) && final(self).slot_of(index as int)
                == old(self).spec_len(),
            forall|j: int|
                old(self)@.dom().contains(j) && j != index as int
                    ==> #[trigger] final(self).slot_of(j) == old(self).slot_of(j),
    {
        if self.index_to_entry[index] < self.data.len() {
            let e = self.index_to_entry[index];
            self.data[e] = value;
            proof {
                let o = *old(self);
                assert forall|j: int|
                    0 <= j < N && j != index as int implies o.slot_of(j) != o.slot_of(
                    index as int,
                ) by {
                    assert(o.entry_to_index@[o.index_to_entry@[j] as int] as int == j);
                    assert(o.entry_to_index@[o.index_to_entry@[index as int] as int] as int
                        == index as int);
                }
                assert(self@ =~= o@.insert(index as int, value));
            }
        } else {
            self.swap_with_back(index);
            let ghost mid = *self;
            self.data.push(value);
            proof {
                let o = *old(self);
                let len = o.spec_len();
                let partner = o.index_at(len);
                assert(o.index_to_entry@[o.entry_to_index@[len] as int] as int == len);
                assert(o.entry_to_index@[o.index_to_entry@[index as int] as int] as int
                    == index as int);
                assert forall|j: int|
                    0 <= j < N && j != index as int && j != partner implies mid.index_to_entry@[j]
                    == (#[trigger] o.index_to_entry@[j]) by {
                    assert(mid.slot_of(j) == o.slot_of(j));
                }
                assert forall|j: int|
                    0 <= j < N && j != index as int && (#[trigger] o.index_to_entry@[j]) as int
                        == len implies j == partner by {
                    assert(o.entry_to_index@[o.index_to_entry@[j] as int] as int == j);
                }
                assert(mid.slot_of(index as int) == len);
                if index as int != partner {
                    assert(o.slot_of(index as int) > len);
                    assert(mid.slot_of(partner) == o.slot_of(index as int));
                }
                assert(self@ =~= o@.insert(index as int, value));
            }
        }
    }

    /// Removes the live element at external `index`, compacting the packed
    /// prefix by moving the last element into the freed slot.  Every other
    /// live index keeps its value; the removed index is parked at the new
    /// boundary slot, so the next `append` recycles it.
    pub fn remove(&mut self, index: usize)
        requires
            old(self).wf(),
            index < N,
            old(self)@.dom().contains(index as int),
        ensures
            final(self).wf(),
            final(self)@ =~= old(self)@.remove(index as int),
            final(self).spec_len() == old(self).spec_len() - 1,
            final(self).next_index() == index,
            final(self).packed() == old(self).packed().update(
                old(self).slot_of(index as int),
                old(self).packed().last(),
            ).drop_last(),
            final(self).slot_of(index as int) == old(self).spec_len() - 1,
            final(self).index_at(old(self).slot_of(index as int)) == old(self).index_at(
                old(self).spec_len() - 1,
            ),
            forall|j: int|
                0 <= j < N && j != index as int && j != old(self).index_at(
                    old(self).spec_len() - 1,
                ) ==> #[trigger] final(self).slot_of(j) == old(self).slot_of(j),
    {
        let entry = self.index_to_entry[index];
        let last = self.data.len() - 1;
        if entry != last {
            self.data.swap_remove(entry);
            self.swap_with_back(index);
            proof {
                let o = *old(self);
                assert forall|j: int|
                    0 <= j < N && j != index as int implies o.slot_of(j) != o.slot_of(
                    index as int,
                ) by {
                    assert(o.entry_to_index@[o.index_to_entry@[j] as int] as int == j);
                    assert(o.entry_to_index@[o.index_to_entry@[index as int] as int] as int
                        == index as int);
                }
                assert(self@ =~= o@.remove(index as int));
            }
        } else {
            self.data.pop();
            proof {
                let o = *old(self);
                assert forall|j: int|
                    0 <= j < N && j != index as int implies o.slot_of(j) != o.slot_of(
                    index as int,
                ) by {
                    assert(o.entry_to_index@[o.index_to_entry@[j] as int] as int == j);
                    assert(o.entry_to_index@[o.index_to_entry@[index as int] as int] as int
                        == index as int);
                }
                assert(self@ =~= o@.remove(index as int));
            }
        }
    }

    /// Returns the packed prefix of live elements as a slice, in physical
    /// slot order.
    pub fn as_slice(&self) -> (r: &[T])
        ensures
            r@ == self.packed(),
    {
        self.data.as_slice()
    }

    /// Returns the packed prefix of live elements as a mutable slice.
    /// Writing through the slice updates the stored values in place; the
    /// index maps and the element count are untouched.
    pub fn as_slice_mut(&mut self) -> (r: &mut [T])
        ensures
            r@ == old(self).packed(),
            final(self).packed() == final(r)@,
            final(self).spec_len() == final(r)@.len(),
            forall|i: int|
                0 <= i < N ==> #[trigger] final(self).slot_of(i) == old(self).slot_of(i),
            forall|s: int|
                0 <= s < N ==> #[trigger] final(self).index_at(s) == old(self).index_at(s),
            old(self).wf() && final(r)@.len() == old(self).spec_len() ==> final(self).wf(),
            (old(self).wf() && final(r)@.len() == old(self).spec_len() ==> final(self)@
                =~= Map::new(
                |i: int| old(self)@.dom().contains(i),
                |i: int| final(r)@[old(self).slot_of(i)],
            )),
    {
        self.data.as_mut_slice()
    }

    /// Returns an iterator over the live elements, in packed physical order.
    pub fn iter(&self) -> (r: std::slice::Iter<'_, T>)
        ensures
            r.remaining() == self.packed().as_ref(),
            vstd::std_specs::slice::into_iter_elts(r) == self.packed(),
    {
        let s = self.data.as_slice();
        let r = s.iter();
        proof {
            vstd::std_specs::slice::axiom_spec_slice_iter(s);
            assert(self.packed().as_ref().unref() =~= self.packed());
        }
        r
    }

    /// Returns the live elements for mutable iteration, in packed physical
    /// order.  Writing through it changes stored values only, never the
    /// element count or the index maps.
    pub fn iter_mut(&mut self) -> (r: &mut [T])
        ensures
            r@ == old(self).packed(),
            final(self).packed() == final(r)@,
            final(self).spec_len() == final(r)@.len(),
            forall|i: int|
                0 <= i < N ==> #[trigger] final(self).slot_of(i) == old(self).slot_of(i),
            forall|s: int|
                0 <= s < N ==> #[trigger] final(self).index_at(s) == old(self).index_at(s),
            old(self).wf() && final(r)@.len() == old(self).spec_len() ==> final(self).wf(),
            (old(self).wf() && final(r)@.len() == old(self).spec_len() ==> final(self)@
                =~= Map::new(
                |i: int| old(self)@.dom().contains(i),
                |i: int| final(r)@[old(self).slot_of(i)],
            )),
    {
        self.as_slice_mut()
    }

    /// Capacity law: a well-formed container never holds more than `N` live
    /// elements.  Together with `full`'s contract, the container is full
    /// exactly when the count reaches `N`.
    pub proof fn lemma_capacity(self)
        requires
            self.wf(),
        ensures
            0 <= self.spec_len() <= N,
    {
    }

    /// Packing law: the live view has exactly `len()` elements with no gaps,
    /// and it holds exactly the values of the live indices — slot `s` holds
    /// the value of the live index `index_at(s)`, and every live index `i`
    /// finds its value at slot `slot_of(i)`.
    pub proof fn lemma_packing(self)
        requires
            self.wf(),
        ensures
            self.packed().len() == self.spec_len(),
            self@.dom().finite(),
            self@.dom().len() == self.spec_len(),
            forall|s: int|
                0 <= s < self.spec_len() ==> self@.dom().contains(#[trigger] self.index_at(s))
                    && self@[self.index_at(s)] == self.packed()[s],
            forall|i: int|
                self@.dom().contains(i) ==> 0 <= #[trigger] self.slot_of(i) < self.spec_len()
                    && self.packed()[self.slot_of(i)] == self@[i] && self.index_at(self.slot_of(i))
                    == i,
    {
        let len = self.spec_len();
        let dom = self@.dom();
        let f = |i: int| self.slot_of(i);
        lemma_int_range(0, N as int);
        lemma_set_subset_finite(set_int_range(0, N as int), dom);
        assert(dom.subset_of(set_int_range(0, N as int)));
        assert forall|i1: int, i2: int|
            dom.contains(i1) && dom.contains(i2) && #[trigger] f(i1) == #[trigger] f(i2) implies i1
            == i2 by {
            assert(self.entry_to_index@[self.index_to_entry@[i1] as int] as int == i1);
            assert(self.entry_to_index@[self.index_to_entry@[i2] as int] as int == i2);
        }
        assert(injective_on(f, dom));
        assert forall|s: int| set_int_range(0, len).contains(s) implies dom.map(f).contains(s) by {
            assert(self.index_to_entry@[self.entry_to_index@[s] as int] as int == s);
            assert(dom.contains(self.entry_to_index@[s] as int));
            assert(f(self.entry_to_index@[s] as int) == s);
        }
        assert(dom.map(f) =~= set_int_range(0, len));
        lemma_map_size(dom, set_int_range(0, len), f);
        lemma_int_range(0, len);
        assert forall|s: int|
            0 <= s < len implies self@.dom().contains(#[trigger] self.index_at(s))
            && self@[self.index_at(s)] == self.packed()[s] by {
            assert(self.index_to_entry@[self.entry_to_index@[s] as int] as int == s);
        }
    }

    /// Unrelated-write law: writing one index (by `append` or `set`, whose
    /// contracts state `post@ == pre@.insert(a, v)`) leaves every other live
    /// index and its value unchanged.
    pub proof fn lemma_unrelated_insert(pre: Self, post: Self, a: int, v: T, b: int)
        requires
            post@ == pre@.insert(a, v),
            pre@.dom().contains(b),
            a != b,
        ensures
            post@.dom().contains(b),
            post@[b] == pre@[b],
    {
    }

    /// Index-stability law: removing a live index (whose contract states
    /// `post@ == pre@.remove(a)`) leaves every other live index and its
    /// value unchanged.
    pub proof fn lemma_index_stability(pre: Self, post: Self, a: int, b: int)
        requires
            post@ == pre@.remove(a),
            pre@.dom().contains(b),
            a != b,
        ensures
            post@.dom().contains(b),
            post@[b] == pre@[b],
    {
    }

    /// Round-trip law: after a write of `v` to index `i` (by `append`, `set`
    /// or through `get_mut`, whose contracts state `post@ == pre@.insert(i,
    /// v)`), index `i` is live and reads back exactly `v`.
    pub proof fn lemma_round_trip(pre: Self, post: Self, i: int, v: T)
        requires
            post@ == pre@.insert(i, v),
        ensures
            post@.dom().contains(i),
            post@[i] == v,
    {
    }
}

} // verus!


//! Maple trees: maps from non-overlapping, inclusive index ranges to values.
//!
//! A tree is modified through the [`Guard`] that [`MapleTree::lock`] hands out.
//! Each stored range `[first, last]` maps every index in it to one value;
//! removing any index of a range unmaps the whole range.
use vstd::prelude::*;

use crate::error::Error;
use crate::error::Error::EEXIST;
use crate::error::Error::EINVAL;

pub mod flags;

verus! {

/// The flag bit that makes a maple tree an allocation tree.
pub const MT_FLAGS_ALLOC_RANGE: u32 = 0x01;

/// Flags to be used with [`MapleTree::new`]; the values are in the [`flags`] module.
#[allow(non_camel_case_types)]
#[derive(Clone, Copy, Debug, PartialEq, Eq, Structural)]
pub enum Flags {
    /// A default tree.
    DEFAULT_TREE,
    /// An allocation tree: a lower branching factor, and gaps of a given size can be
    /// searched for.
    ALLOC_TREE,
}

/// The raw bits of a flag value.
pub open spec fn flags_raw(f: Flags) -> u32 {
    match f {
        Flags::DEFAULT_TREE => 0,
        Flags::ALLOC_TREE => MT_FLAGS_ALLOC_RANGE,
    }
}

impl Flags {
    /// The raw flag bits.
    pub fn as_raw(self) -> (r: u32)
        ensures
            r == flags_raw(self),
    {
        match self {
            Flags::DEFAULT_TREE => 0,
            Flags::ALLOC_TREE => MT_FLAGS_ALLOC_RANGE,
        }
    }
}

/// Whether the stored range `entry` (first index, last index, value) holds `index`.
pub open spec fn covers<T>(entry: (usize, usize, T), index: usize) -> bool {
    entry.0 <= index <= entry.1
}

/// The ranges are each non-empty, in ascending order and pairwise disjoint.
pub open spec fn ranges_wf<T>(s: Seq<(usize, usize, T)>) -> bool {
    &&& forall|k: int| 0 <= k < s.len() ==> #[trigger] s[k].0 <= s[k].1
    &&& forall|j: int, k: int| 0 <= j < k < s.len() ==> #[trigger] s[j].1 < #[trigger] s[k].0
}

/// Some stored range holds `index`.
pub open spec fn is_mapped<T>(s: Seq<(usize, usize, T)>, index: usize) -> bool {
    exists|k: int| 0 <= k < s.len() && covers(#[trigger] s[k], index)
}

/// The position of the stored range that holds `index` (meaningful when `is_mapped`).
pub open spec fn slot_of<T>(s: Seq<(usize, usize, T)>, index: usize) -> int {
    choose|k: int| 0 <= k < s.len() && covers(#[trigger] s[k], index)
}

/// The value that `index` maps to, if any.
pub open spec fn lookup<T>(s: Seq<(usize, usize, T)>, index: usize) -> Option<T> {
    if is_mapped(s, index) {
        Some(s[slot_of(s, index)].2)
    } else {
        None
    }
}

/// Some stored range shares an index with `[first, last]`.
pub open spec fn overlaps<T>(s: Seq<(usize, usize, T)>, first: usize, last: usize) -> bool {
    exists|k: int| 0 <= k < s.len() && #[trigger] s[k].0 <= last && first <= s[k].1
}

/// The bounds of the ranges are each non-empty, in ascending order and pairwise
/// disjoint.
spec fn bounds_wf(r: Seq<(usize, usize)>) -> bool {
    &&& forall|k: int| 0 <= k < r.len() ==> #[trigger] r[k].0 <= r[k].1
    &&& forall|j: int, k: int| 0 <= j < k < r.len() ==> #[trigger] r[j].1 < #[trigger] r[k].0
}

/// Pairs each range's bounds with its value.
spec fn zip_entries<T>(r: Seq<(usize, usize)>, v: Seq<T>) -> Seq<(usize, usize, T)> {
    Seq::new(r.len(), |k: int| (r[k].0, r[k].1, v[k]))
}

/// The ranges are well formed exactly when their bounds are.
proof fn lemma_zip_wf<T>(r: Seq<(usize, usize)>, v: Seq<T>)
    requires
        r.len() == v.len(),
    ensures
        ranges_wf(zip_entries(r, v)) <==> bounds_wf(r),
{
    let z = zip_entries(r, v);
    if bounds_wf(r) {
        assert forall|j: int, k: int| 0 <= j < k < z.len() implies #[trigger] z[j].1 < #[trigger] z[k].0 by {
            assert(r[j].1 < r[k].0);
        }
    }
    if ranges_wf(z) {
        assert forall|k: int| 0 <= k < r.len() implies #[trigger] r[k].0 <= r[k].1 by {
            assert(z[k].0 <= z[k].1);
        }
        assert forall|j: int, k: int| 0 <= j < k < r.len() implies #[trigger] r[j].1 < #[trigger] r[k].0 by {
            assert(z[j].1 < z[k].0);
        }
    }
}

/// Inserting at the same position in both sequences inserts the paired entry.
proof fn lemma_zip_insert<T>(r: Seq<(usize, usize)>, v: Seq<T>, p: int, bounds: (usize, usize), value: T)
    requires
        r.len() == v.len(),
        0 <= p <= r.len(),
    ensures
        zip_entries(r.insert(p, bounds), v.insert(p, value))
            == zip_entries(r, v).insert(p, (bounds.0, bounds.1, value)),
{
    assert(zip_entries(r.insert(p, bounds), v.insert(p, value))
        =~= zip_entries(r, v).insert(p, (bounds.0, bounds.1, value)));
}

/// Removing at the same position from both sequences removes the paired entry.
proof fn lemma_zip_remove<T>(r: Seq<(usize, usize)>, v: Seq<T>, p: int)
    requires
        r.len() == v.len(),
        0 <= p < r.len(),
    ensures
        zip_entries(r.remove(p), v.remove(p)) == zip_entries(r, v).remove(p),
{
    assert(zip_entries(r.remove(p), v.remove(p)) =~= zip_entries(r, v).remove(p));
}

/// Replacing a value replaces the value of the paired entry.
proof fn lemma_zip_update<T>(r: Seq<(usize, usize)>, v: Seq<T>, p: int, value: T)
    requires
        r.len() == v.len(),
        0 <= p < r.len(),
    ensures
        zip_entries(r, v.update(p, value)) == zip_entries(r, v).update(p, (r[p].0, r[p].1, value)),
{
    assert(zip_entries(r, v.update(p, value)) =~= zip_entries(r, v).update(p, (r[p].0, r[p].1, value)));
}

/// A maple tree: a map from non-overlapping index ranges to values of type `T`.
///
/// The bounds of the ranges and their values are kept in two vectors of equal length,
/// so that a value can be changed in place without touching the bounds.
pub struct MapleTree<T> {
    ranges: Vec<(usize, usize)>,
    values: Vec<T>,
    flags: Flags,
}

impl<T> View for MapleTree<T> {
    type V = (Seq<(usize, usize, T)>, Flags);

    /// The stored ranges in ascending order, each as (first index, last index, value),
    /// and the flags the tree was created with.
    closed spec fn view(&self) -> (Seq<(usize, usize, T)>, Flags) {
        (zip_entries(self.ranges@, self.values@), self.flags)
    }
}

impl<T> MapleTree<T> {
    /// The ranges of every tree are well formed.
    #[verifier::type_invariant]
    closed spec fn inv(self) -> bool {
        &&& self.ranges@.len() == self.values@.len()
        &&& bounds_wf(self.ranges@)
    }

    /// The tree's ranges are well formed; every tree keeps this.
    pub open spec fn wf(&self) -> bool {
        ranges_wf(self@.0)
    }

    /// Creates a new, empty `MapleTree` with the specified `flags`.
    pub fn new(flags: Flags) -> (tree: Self)
        ensures
            tree.wf(),
            tree@.0 == Seq::<(usize, usize, T)>::empty(),
            tree@.1 == flags,
    {
        let tree = MapleTree { ranges: Vec::new(), values: Vec::new(), flags };
        proof {
            lemma_zip_wf(tree.ranges@, tree.values@);
        }
        tree
    }

    /// Takes the tree's lock; the tree is modified through the returned [`Guard`].
    ///
    /// The lock is the exclusive borrow of the tree, held until the guard goes away, so
    /// the tree must be borrowed mutably.
    pub fn lock(&mut self) -> (guard: Guard<'_, T>)
        ensures
            guard.tree.wf(),
            *guard.tree == *old(self),
            *final(self) == *final(guard.tree),
    {
        proof {
            use_type_invariant(&*self);
            lemma_zip_wf(self.ranges@, self.values@);
        }
        Guard { tree: self }
    }

    /// The position of the first stored range that ends at or after `index`.
    fn first_ending_at_or_after(&self, index: usize) -> (p: usize)
        ensures
            self.wf(),
            p <= self@.0.len(),
            forall|k: int| 0 <= k < p ==> #[trigger] self@.0[k].1 < index,
            p < self@.0.len() ==> index <= self@.0[p as int].1,
    {
        proof {
            use_type_invariant(self);
            lemma_zip_wf(self.ranges@, self.values@);
        }
        let mut lo: usize = 0;
        let mut hi: usize = self.ranges.len();
        while lo < hi
            invariant
                self.wf(),
                0 <= lo <= hi <= self@.0.len(),
                forall|k: int| 0 <= k < lo ==> #[trigger] self@.0[k].1 < index,
                hi < self@.0.len() ==> index <= self@.0[hi as int].1,
            decreases hi - lo,
        {
            let mid = lo + (hi - lo) / 2;
            if self.ranges[mid].1 < index {
                assert forall|k: int| 0 <= k < mid + 1 implies #[trigger] self@.0[k].1 < index by {
                    if k < mid {
                        assert(self@.0[k].1 < self@.0[mid as int].0);
                    }
                }
                lo = mid + 1;
            } else {
                hi = mid;
            }
        }
        lo
    }
}

/// The position found by `first_ending_at_or_after` decides whether `index` is mapped.
proof fn lemma_slot_at<T>(s: Seq<(usize, usize, T)>, index: usize, p: int)
    requires
        ranges_wf(s),
        0 <= p <= s.len(),
        forall|k: int| 0 <= k < p ==> #[trigger] s[k].1 < index,
        p < s.len() ==> index <= s[p].1,
    ensures
        is_mapped(s, index) <==> (p < s.len() && s[p].0 <= index),
        is_mapped(s, index) ==> slot_of(s, index) == p,
        lookup(s, index) == (if p < s.len() && s[p].0 <= index { Some(s[p].2) } else { None::<T> }),
{
    assert forall|k: int| 0 <= k < s.len() && covers(#[trigger] s[k], index) implies k == p by {
        if k < p {
        } else if k > p {
            assert(s[p].1 < s[k].0);
        }
    }
    if p < s.len() && s[p].0 <= index {
        assert(covers(s[p], index));
    }
}

/// In a well-formed tree, every index that a stored range covers maps to that range's
/// value.
pub proof fn lemma_lookup_at<T>(s: Seq<(usize, usize, T)>, index: usize, k: int)
    requires
        ranges_wf(s),
        0 <= k < s.len(),
        covers(s[k], index),
    ensures
        is_mapped(s, index),
        slot_of(s, index) == k,
        lookup(s, index) == Some(s[k].2),
{
    let j = slot_of(s, index);
    assert(covers(s[j], index));
    if j < k {
        assert(s[j].1 < s[k].0);
    } else if k < j {
        assert(s[k].1 < s[j].0);
    }
}

/// Inserting a range that no stored range overlaps maps exactly its indices to its
/// value and leaves every other index as it was.
proof fn lemma_insert_lookup<T>(s: Seq<(usize, usize, T)>, p: int, first: usize, last: usize, value: T)
    requires
        ranges_wf(s),
        ranges_wf(s.insert(p, (first, last, value))),
        0 <= p <= s.len(),
    ensures
        forall|i: usize| #[trigger] lookup(s.insert(p, (first, last, value)), i)
            == (if first <= i <= last { Some(value) } else { lookup(s, i) }),
{
    let t = s.insert(p, (first, last, value));
    assert forall|i: usize| #[trigger] lookup(t, i)
        == (if first <= i <= last { Some(value) } else { lookup(s, i) }) by {
        if first <= i <= last {
            lemma_lookup_at(t, i, p);
        } else if is_mapped(s, i) {
            let k = slot_of(s, i);
            lemma_lookup_at(s, i, k);
            if k < p {
                assert(t[k] == s[k]);
                lemma_lookup_at(t, i, k);
            } else {
                assert(t[k + 1] == s[k]);
                lemma_lookup_at(t, i, k + 1);
            }
        } else if is_mapped(t, i) {
            let k = slot_of(t, i);
            if k < p {
                assert(t[k] == s[k]);
                assert(covers(s[k], i));
            } else if k > p {
                assert(t[k] == s[k - 1]);
                assert(covers(s[k - 1], i));
            }
        }
    }
}

/// Removing the stored range at `p` unmaps exactly its indices.
proof fn lemma_remove_lookup<T>(s: Seq<(usize, usize, T)>, p: int)
    requires
        ranges_wf(s),
        0 <= p < s.len(),
    ensures
        ranges_wf(s.remove(p)),
        forall|i: usize| #[trigger] lookup(s.remove(p), i)
            == (if covers(s[p], i) { None } else { lookup(s, i) }),
{
    let t = s.remove(p);
    assert forall|j: int, k: int| 0 <= j < k < t.len() implies #[trigger] t[j].1 < #[trigger] t[k].0 by {
        let jj = if j < p { j } else { j + 1 };
        let kk = if k < p { k } else { k + 1 };
        assert(t[j] == s[jj]);
        assert(t[k] == s[kk]);
    }
    assert forall|k: int| 0 <= k < t.len() implies #[trigger] t[k].0 <= t[k].1 by {
        let kk = if k < p { k } else { k + 1 };
        assert(t[k] == s[kk]);
    }
    assert forall|i: usize| #[trigger] lookup(t, i)
        == (if covers(s[p], i) { None } else { lookup(s, i) }) by {
        if is_mapped(t, i) {
            let k = slot_of(t, i);
            let kk = if k < p { k } else { k + 1 };
            assert(t[k] == s[kk]);
            lemma_lookup_at(s, i, kk);
            lemma_lookup_at(t, i, k);
            if covers(s[p], i) {
                lemma_lookup_at(s, i, p);
            }
        } else if is_mapped(s, i) {
            let k = slot_of(s, i);
            lemma_lookup_at(s, i, k);
            if k < p {
                assert(t[k] == s[k]);
            } else if k > p {
                assert(t[k - 1] == s[k]);
            }
        }
    }
}

/// Replacing the value of the stored range at `p` changes what exactly its indices map to.
proof fn lemma_update_lookup<T>(s: Seq<(usize, usize, T)>, p: int, value: T)
    requires
        ranges_wf(s),
        0 <= p < s.len(),
    ensures
        ranges_wf(s.update(p, (s[p].0, s[p].1, value))),
        forall|i: usize| #[trigger] lookup(s.update(p, (s[p].0, s[p].1, value)), i)
            == (if covers(s[p], i) { Some(value) } else { lookup(s, i) }),
{
    let t = s.update(p, (s[p].0, s[p].1, value));
    assert forall|j: int, k: int| 0 <= j < k < t.len() implies #[trigger] t[j].1 < #[trigger] t[k].0 by {
        assert(s[j].1 < s[k].0);
    }
    assert forall|k: int| 0 <= k < t.len() implies #[trigger] t[k].0 <= t[k].1 by {
        assert(s[k].0 <= s[k].1);
    }
    assert forall|i: usize| #[trigger] lookup(t, i)
        == (if covers(s[p], i) { Some(value) } else { lookup(s, i) }) by {
        if covers(s[p], i) {
            lemma_lookup_at(t, i, p);
        } else if is_mapped(s, i) {
            let k = slot_of(s, i);
            lemma_lookup_at(s, i, k);
            lemma_lookup_at(t, i, k);
        } else if is_mapped(t, i) {
            let k = slot_of(t, i);
            assert(covers(s[k], i));
        }
    }
}

/// Removing any index of a range that was just inserted hands back the inserted value
/// and restores the tree as it was before the insertion.
pub proof fn lemma_remove_undoes_insert<T>(
    s: Seq<(usize, usize, T)>,
    p: int,
    first: usize,
    last: usize,
    value: T,
    index: usize,
)
    requires
        ranges_wf(s),
        0 <= p <= s.len(),
        ranges_wf(s.insert(p, (first, last, value))),
        first <= index <= last,
    ensures
        lookup(s.insert(p, (first, last, value)), index) == Some(value),
        slot_of(s.insert(p, (first, last, value)), index) == p,
        s.insert(p, (first, last, value)).remove(p) == s,
{
    let t = s.insert(p, (first, last, value));
    lemma_lookup_at(t, index, p);
    assert(t.remove(p) =~= s);
}

/// A lock guard for a [`MapleTree`]; the lock is held for as long as the guard lives.
pub struct Guard<'a, T> {
    /// The locked tree.
    pub tree: &'a mut MapleTree<T>,
}

impl<'a, T> Guard<'a, T> {
    /// Returns a reference to the value at `index` if there is one, otherwise `None`.
    pub fn get(&self, index: usize) -> (r: Option<&T>)
        ensures
            r matches Some(v) ==> lookup(old(self.tree)@.0, index) == Some(*v),
            r is None ==> lookup(old(self.tree)@.0, index) is None,
    {
        proof {
            use_type_invariant(&*self.tree);
        }
        let p = self.tree.first_ending_at_or_after(index);
        proof {
            lemma_slot_at(self.tree@.0, index, p as int);
        }
        if p < self.tree.ranges.len() && self.tree.ranges[p].0 <= index {
            Some(&self.tree.values[p])
        } else {
            None
        }
    }

    /// Maps the range `[start, end]` to `value`.
    ///
    /// Fails with `EINVAL` when `start > end`, and with `EEXIST` when `[start, end]`
    /// overlaps a range already in the tree; then the tree is unchanged and `value`
    /// is handed back.
    pub fn insert_range(&mut self, start: usize, end: usize, value: T) -> (r: Result<(), (T, Error)>)
        ensures
            final(self).tree.wf(),
            *final(final(self).tree) == *final(old(self).tree),
            final(self).tree@.1 == old(self).tree@.1,
            start > end ==> r == Err::<(), (T, Error)>((value, EINVAL)),
            start <= end && overlaps(old(self).tree@.0, start, end) ==> r == Err::<(), (T, Error)>((value, EEXIST)),
            r is Err ==> final(self).tree@.0 == old(self).tree@.0,
            r is Ok <==> start <= end && !overlaps(old(self).tree@.0, start, end),
            r is Ok ==> exists|p: int| 0 <= p <= old(self).tree@.0.len()
                && final(self).tree@.0 == old(self).tree@.0.insert(p, (start, end, value)),
            r is Ok ==> forall|i: usize| #[trigger] lookup(final(self).tree@.0, i)
                == (if start <= i <= end { Some(value) } else { lookup(old(self).tree@.0, i) }),
    {
        proof {
            use_type_invariant(&*self.tree);
        }
        if start > end {
            return Err((value, EINVAL));
        }
        let p = self.tree.first_ending_at_or_after(start);
        let ghost s = self.tree@.0;
        if p < self.tree.ranges.len() && self.tree.ranges[p].0 <= end {
            assert(overlaps(s, start, end)) by {
                assert(s[p as int].0 <= end && start <= s[p as int].1);
            }
            return Err((value, EEXIST));
        }
        assert(!overlaps(s, start, end)) by {
            if overlaps(s, start, end) {
                let k = choose|k: int| 0 <= k < s.len() && #[trigger] s[k].0 <= end && start <= s[k].1;
                if k > p {
                    assert(s[p as int].1 < s[k].0);
                }
            }
        }
        let mut tree = MapleTree { ranges: Vec::new(), values: Vec::new(), flags: self.tree.flags };
        proof {
            lemma_zip_wf(tree.ranges@, tree.values@);
        }
        core::mem::swap(&mut tree, self.tree);
        proof {
            use_type_invariant(&tree);
        }
        let MapleTree { ranges: mut ranges, values: mut values, flags } = tree;
        let ghost r0 = ranges@;
        let ghost v0 = values@;
        ranges.insert(p, (start, end));
        values.insert(p, value);
        proof {
            lemma_zip_insert(r0, v0, p as int, (start, end), value);
            let t = zip_entries(ranges@, values@);
            assert(t == s.insert(p as int, (start, end, value)));
            assert forall|j: int, k: int| 0 <= j < k < t.len() implies #[trigger] t[j].1 < #[trigger] t[k].0 by {
                if j < p && k < p {
                    assert(t[j] == s[j] && t[k] == s[k]);
                } else if j < p && k == p {
                    assert(t[j] == s[j]);
                } else if j < p {
                    assert(t[j] == s[j] && t[k] == s[k - 1]);
                    assert(s[j].1 < start);
                } else if j == p {
                    assert(t[k] == s[k - 1]);
                    assert(end < s[p as int].0);
                    if k - 1 > p {
                        assert(s[p as int].1 < s[k - 1].0);
                    }
                } else {
                    assert(t[j] == s[j - 1] && t[k] == s[k - 1]);
                }
            }
            assert forall|k: int| 0 <= k < t.len() implies #[trigger] t[k].0 <= t[k].1 by {
                if k < p {
                    assert(t[k] == s[k]);
                } else if k > p {
                    assert(t[k] == s[k - 1]);
                }
            }
            lemma_insert_lookup(s, p as int, start, end, value);
            lemma_zip_wf(ranges@, values@);
        }
        *self.tree = MapleTree { ranges, values, flags };
        Ok(())
    }

    /// Maps the single index `index` to `value`: `insert_range(index, index, value)`.
    pub fn insert(&mut self, index: usize, value: T) -> (r: Result<(), (T, Error)>)
        ensures
            final(self).tree.wf(),
            *final(final(self).tree) == *final(old(self).tree),
            final(self).tree@.1 == old(self).tree@.1,
            is_mapped(old(self).tree@.0, index) ==> r == Err::<(), (T, Error)>((value, EEXIST)),
            r is Err ==> final(self).tree@.0 == old(self).tree@.0,
            r is Ok <==> !is_mapped(old(self).tree@.0, index),
            r is Ok ==> exists|p: int| 0 <= p <= old(self).tree@.0.len()
                && final(self).tree@.0 == old(self).tree@.0.insert(p, (index, index, value)),
            r is Ok ==> forall|i: usize| #[trigger] lookup(final(self).tree@.0, i)
                == (if i == index { Some(value) } else { lookup(old(self).tree@.0, i) }),
    {
        let r = self.insert_range(index, index, value);
        proof {
            let s = old(self).tree@.0;
            assert(overlaps(s, index, index) <==> is_mapped(s, index)) by {
                if overlaps(s, index, index) {
                    let k = choose|k: int| 0 <= k < s.len() && #[trigger] s[k].0 <= index && index <= s[k].1;
                    assert(covers(s[k], index));
                }
                if is_mapped(s, index) {
                    let k = slot_of(s, index);
                    assert(s[k].0 <= index && index <= s[k].1);
                }
            }
        }
        r
    }

    /// Removes the value at `index`.
    ///
    /// Returns `None` when no range holds `index`. Otherwise unmaps the entire range
    /// that holds it and returns its value.
    pub fn remove(&mut self, index: usize) -> (r: Option<T>)
        ensures
            final(self).tree.wf(),
            *final(final(self).tree) == *final(old(self).tree),
            final(self).tree@.1 == old(self).tree@.1,
            r is None <==> !is_mapped(old(self).tree@.0, index),
            r is None ==> final(self).tree@.0 == old(self).tree@.0,
            r is Some ==> r == lookup(old(self).tree@.0, index) && final(self).tree@.0
                == old(self).tree@.0.remove(slot_of(old(self).tree@.0, index)),
            forall|i: usize| #[trigger] lookup(final(self).tree@.0, i)
                == (if is_mapped(old(self).tree@.0, index)
                    && covers(old(self).tree@.0[slot_of(old(self).tree@.0, index)], i) {
                    None
                } else {
                    lookup(old(self).tree@.0, i)
                }),
    {
        proof {
            use_type_invariant(&*self.tree);
        }
        let p = self.tree.first_ending_at_or_after(index);
        let ghost s = self.tree@.0;
        proof {
            lemma_slot_at(s, index, p as int);
        }
        if p < self.tree.ranges.len() && self.tree.ranges[p].0 <= index {
            let mut tree = MapleTree { ranges: Vec::new(), values: Vec::new(), flags: self.tree.flags };
            proof {
                lemma_zip_wf(tree.ranges@, tree.values@);
            }
            core::mem::swap(&mut tree, self.tree);
            proof {
                use_type_invariant(&tree);
            }
            let MapleTree { ranges: mut ranges, values: mut values, flags } = tree;
            let ghost r0 = ranges@;
            let ghost v0 = values@;
            ranges.remove(p);
            let value = values.remove(p);
            proof {
                lemma_zip_remove(r0, v0, p as int);
                lemma_remove_lookup(s, p as int);
                lemma_zip_wf(ranges@, values@);
            }
            *self.tree = MapleTree { ranges, values, flags };
            Some(value)
        } else {
            None
        }
    }

    /// Returns a mutable reference to the value at `index` if there is one, otherwise
    /// `None`.
    pub fn get_mut(&mut self, index: usize) -> (r: Option<&mut T>)
        ensures
            *final(final(self).tree) == *final(old(self).tree),
            r is None ==> lookup(old(self).tree@.0, index) is None && *final(self).tree == *old(self).tree,
            r is Some ==> lookup(old(self).tree@.0, index) == Some(*r.unwrap()),
            r is Some ==> final(self).tree.wf() && final(self).tree@.1 == old(self).tree@.1
                && final(self).tree@.0 == old(self).tree@.0.update(
                    slot_of(old(self).tree@.0, index),
                    (old(self).tree@.0[slot_of(old(self).tree@.0, index)].0,
                     old(self).tree@.0[slot_of(old(self).tree@.0, index)].1,
                     *final(r.unwrap()))),
            r is Some ==> forall|i: usize| #[trigger] lookup(final(self).tree@.0, i)
                == (if covers(old(self).tree@.0[slot_of(old(self).tree@.0, index)], i) {
                    Some(*final(r.unwrap()))
                } else {
                    lookup(old(self).tree@.0, i)
                }),
    {
        proof {
            use_type_invariant(&*self.tree);
        }
        let p = self.tree.first_ending_at_or_after(index);
        let ghost s = self.tree@.0;
        proof {
            lemma_slot_at(s, index, p as int);
        }
        if p < self.tree.ranges.len() && self.tree.ranges[p].0 <= index {
            let ghost r0 = self.tree.ranges@;
            let ghost v0 = self.tree.values@;
            let r = &mut self.tree.values[p];
            proof {
                lemma_zip_update(r0, v0, p as int, *final(r));
                lemma_update_lookup(s, p as int, *final(r));
            }
            Some(r)
        } else {
            None
        }
    }
}

} // verus!

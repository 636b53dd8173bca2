//! The chain tips an executor has processed: a block is processed once, and it
//! replaces its parent as a tip.
use vstd::prelude::*;

verus! {

/// A block hash.
pub type BlockHash = [u8; 32];

/// A tip: its hash and number.
pub type Leaf = (BlockHash, u32);

pub open spec fn has_leaf(v: Seq<Leaf>, hash: BlockHash) -> bool {
    exists|i: int| 0 <= i < v.len() && (#[trigger] v[i]).0 == hash
}

pub open spec fn distinct_leaves(v: Seq<Leaf>) -> bool {
    forall|i: int, j: int| 0 <= i < v.len() && 0 <= j < v.len() && i != j ==> (#[trigger] v[i]).0 != (#[trigger] v[j]).0
}

/// `v` without the tip `hash`, if it is one.
pub open spec fn without_leaf(v: Seq<Leaf>, hash: BlockHash) -> Seq<Leaf> {
    v.filter(other_than(hash))
}

/// Holds of the tips other than `hash`.
pub open spec fn other_than(hash: BlockHash) -> spec_fn(Leaf) -> bool {
    |l: Leaf| l.0 != hash
}

/// The tips after the import of a block that is not a tip yet: it becomes one,
/// and its parent stops being one.
pub open spec fn after_import(v: Seq<Leaf>, hash: BlockHash, parent_hash: BlockHash, number: u32) -> Seq<Leaf> {
    without_leaf(v.push((hash, number)), parent_hash)
}

/// The tips, each hash once, in the order they became tips.
pub struct ActiveLeaves {
    leaves: Vec<Leaf>,
}

impl View for ActiveLeaves {
    type V = Seq<Leaf>;

    closed spec fn view(&self) -> Seq<Leaf> {
        self.leaves@
    }
}

impl ActiveLeaves {
    pub open spec fn well_formed(&self) -> bool {
        distinct_leaves(self@)
    }

    pub fn new() -> (r: ActiveLeaves)
        ensures
            r@ == Seq::<Leaf>::empty(),
            r.well_formed(),
    {
        ActiveLeaves { leaves: Vec::new() }
    }

    pub fn len(&self) -> (r: usize)
        ensures
            r == self@.len(),
    {
        self.leaves.len()
    }

    /// Whether `hash` is a tip.
    pub fn contains(&self, hash: &BlockHash) -> (r: bool)
        ensures
            r == has_leaf(self@, *hash),
    {
        let mut i: usize = 0;
        while i < self.leaves.len()
            invariant
                i <= self@.len(),
                forall|j: int| 0 <= j < i ==> (#[trigger] self@[j]).0 != *hash,
            decreases self@.len() - i,
        {
            if hashes_equal(&self.leaves[i].0, hash) {
                return true;
            }
            i = i + 1;
        }
        false
    }

    /// Records an imported block. True when the block is new and is to be
    /// processed; a block already recorded changes nothing.
    pub fn block_imported(&mut self, hash: BlockHash, parent_hash: BlockHash, number: u32) -> (r: bool)
        requires
            old(self).well_formed(),
        ensures
            final(self).well_formed(),
            r == !has_leaf(old(self)@, hash),
            r ==> final(self)@ == after_import(old(self)@, hash, parent_hash, number),
            !r ==> final(self)@ == old(self)@,
    {
        if self.contains(&hash) {
            return false;
        }
        self.leaves.push((hash, number));
        let ghost pushed = self@;
        assert(distinct_leaves(pushed)) by {
            assert forall|i: int, j: int| 0 <= i < pushed.len() && 0 <= j < pushed.len() && i != j implies (#[trigger] pushed[i]).0 != (#[trigger] pushed[j]).0 by {
                if i == pushed.len() - 1 {
                    assert(old(self)@[j] == pushed[j]);
                } else if j == pushed.len() - 1 {
                    assert(old(self)@[i] == pushed[i]);
                }
            }
        }
        self.remove_leaf(&parent_hash);
        true
    }

    /// Forgets the tip `hash`, if it is one.
    fn remove_leaf(&mut self, hash: &BlockHash)
        requires
            old(self).well_formed(),
        ensures
            final(self).well_formed(),
            final(self)@ == without_leaf(old(self)@, *hash),
    {
        let ghost v = self@;
        let mut kept: Vec<Leaf> = Vec::new();
        let mut i: usize = 0;
        while i < self.leaves.len()
            invariant
                i <= self@.len(),
                self@ == v,
                distinct_leaves(v),
                kept@ == v.take(i as int).filter(other_than(*hash)),
                forall|a: int| 0 <= a < kept@.len() ==> exists|b: int| 0 <= b < i && (#[trigger] kept@[a]) == v[b],
                distinct_leaves(kept@),
            decreases self@.len() - i,
        {
            let leaf = self.leaves[i];
            proof {
                assert(v.take(i as int).push(leaf) =~= v.take(i + 1));
                v.take(i as int).lemma_filter_push(leaf, other_than(*hash));
            }
            if !hashes_equal(&leaf.0, hash) {
                let ghost before = kept@;
                kept.push(leaf);
                proof {
                    assert forall|a: int| 0 <= a < kept@.len() implies exists|b: int| 0 <= b < i + 1 && (#[trigger] kept@[a]) == v[b] by {
                        if a == kept@.len() - 1 {
                            assert(kept@[a] == v[i as int]);
                        } else {
                            assert(kept@[a] == before[a]);
                        }
                    }
                    assert forall|a: int, c: int| 0 <= a < kept@.len() && 0 <= c < kept@.len() && a != c implies (#[trigger] kept@[a]).0 != (#[trigger] kept@[c]).0 by {
                        if a == kept@.len() - 1 {
                            let b = choose|b: int| 0 <= b < i && before[c] == v[b];
                            assert(kept@[c] == before[c]);
                            assert(v[b].0 != v[i as int].0);
                        } else if c == kept@.len() - 1 {
                            let b = choose|b: int| 0 <= b < i && before[a] == v[b];
                            assert(kept@[a] == before[a]);
                            assert(v[b].0 != v[i as int].0);
                        } else {
                            assert(kept@[a] == before[a]);
                            assert(kept@[c] == before[c]);
                        }
                    }
                }
            }
            i = i + 1;
        }
        assert(v.take(v.len() as int) =~= v);
        self.leaves = kept;
    }
}

/// Whether two hashes are equal.
fn hashes_equal(a: &BlockHash, b: &BlockHash) -> (r: bool)
    ensures
        r == (*a == *b),
{
    let mut i: usize = 0;
    while i < 32
        invariant
            i <= 32,
            forall|j: int| 0 <= j < i ==> a@[j] == b@[j],
        decreases 32 - i,
    {
        if a[i] != b[i] {
            return false;
        }
        i = i + 1;
    }
    assert(*a =~= *b);
    true
}

} // verus!

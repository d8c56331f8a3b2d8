//! Which palette indices the decoded pictures use.

use vstd::prelude::*;

verus! {

/// The set of palette indices met so far. One tracker is handed through
/// the decoding of every picture of a run; trackers kept apart are joined
/// with `merge`.
#[derive(Clone, Copy, Debug)]
pub struct ColorUsage {
    seen: [bool; 256],
}

impl View for ColorUsage {
    type V = Set<u8>;

    /// The indices that were marked.
    closed spec fn view(&self) -> Set<u8> {
        Set::new(|c: u8| self.seen@[c as int])
    }
}

impl ColorUsage {
    /// A tracker that has met no index.
    pub fn new() -> (u: ColorUsage)
        ensures
            u@ == Set::<u8>::empty(),
    {
        let u = ColorUsage { seen: [false; 256] };
        u
    }

    /// Records that `index` occurs.
    pub fn mark(&mut self, index: u8)
        ensures
            final(self)@ == old(self)@.insert(index),
    {
        self.seen[index as usize] = true;
    }

    /// Whether `index` was marked.
    pub fn contains(&self, index: u8) -> (r: bool)
        ensures
            r == self@.contains(index),
    {
        self.seen[index as usize]
    }

    /// Adds what `other` has met.
    pub fn merge(&mut self, other: &ColorUsage)
        ensures
            final(self)@ == old(self)@.union(other@),
    {
        let mut i: usize = 0;
        while i < 256
            invariant
                0 <= i <= 256,
                forall|c: int|
                    0 <= c < i ==> #[trigger] self.seen@[c] == (old(self).seen@[c]
                        || other.seen@[c]),
                forall|c: int| i <= c < 256 ==> #[trigger] self.seen@[c] == old(self).seen@[c],
            decreases 256 - i,
        {
            if other.seen[i] {
                self.seen[i] = true;
            }
            i = i + 1;
        }
    }

    /// The indices that were never marked, in ascending order.
    pub fn unused(&self) -> (free: Vec<u8>)
        ensures
            forall|k: int| 0 <= k < free@.len() ==> !self@.contains(#[trigger] free@[k]),
            forall|c: u8| !self@.contains(c) ==> free@.contains(c),
            forall|k: int, l: int| 0 <= k < l < free@.len() ==> free@[k] < free@[l],
    {
        let mut free: Vec<u8> = Vec::new();
        let mut i: usize = 0;
        while i < 256
            invariant
                0 <= i <= 256,
                forall|k: int|
                    0 <= k < free@.len() ==> !self@.contains(#[trigger] free@[k]) && free@[k] < i,
                forall|c: u8| c < i && !self@.contains(c) ==> free@.contains(c),
                forall|k: int, l: int| 0 <= k < l < free@.len() ==> free@[k] < free@[l],
            decreases 256 - i,
        {
            let ghost before = free@;
            if !self.seen[i] {
                free.push(i as u8);
                assert(free@[before.len() as int] == i as u8);
                assert forall|c: u8| c < i + 1 && !self@.contains(c) implies free@.contains(c) by {
                    if c < i {
                        let k = choose|k: int| 0 <= k < before.len() && before[k] == c;
                        assert(free@[k] == c);
                    }
                }
            }
            i = i + 1;
        }
        free
    }
}

} // verus!

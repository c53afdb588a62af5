use vstd::prelude::*;

use crate::frequency::{get_or_zero, lists_map, FrequencyMap};
use crate::model::{Coordinate, HeatmapEntry};
use crate::quantize::{key_of, spec_key_of};

verus! {

/// How many of `points` quantize to `k`.
pub open spec fn points_with_key(points: Seq<Coordinate>, k: (int, int)) -> nat
    decreases points.len(),
{
    if points.len() == 0 {
        0
    } else {
        points_with_key(points.drop_last(), k) + if spec_key_of(points.last()) == k {
            1nat
        } else {
            0nat
        }
    }
}

/// In-memory visit counts of one ingestion run, keyed by quantized coordinate.
///
/// It bounds the writes of a run to one per distinct key, whatever the number
/// of raw points.
pub struct HeatmapAccumulator {
    counts: FrequencyMap,
    total: u64,
}

impl HeatmapAccumulator {
    pub closed spec fn view(&self) -> Map<(int, int), nat> {
        self.counts@
    }

    /// How many points were added so far.
    pub closed spec fn spec_total(&self) -> nat {
        self.total as nat
    }

    pub closed spec fn wf(&self) -> bool {
        &&& self.counts.wf()
        &&& forall|k: (int, int)| #[trigger]
            self.counts@.contains_key(k) ==> self.counts@[k] <= self.total
    }

    pub fn new() -> (r: HeatmapAccumulator)
        ensures
            r.wf(),
            r@ == Map::<(int, int), nat>::empty(),
            r.spec_total() == 0,
    {
        HeatmapAccumulator { counts: FrequencyMap::new(), total: 0 }
    }

    pub fn total(&self) -> (r: u64)
        ensures
            r == self.spec_total(),
    {
        self.total
    }

    /// Counts each coordinate once under its quantized key.
    pub fn add_coordinates(&mut self, coordinates: &Vec<Coordinate>)
        requires
            old(self).wf(),
            old(self).spec_total() + coordinates@.len() <= u64::MAX,
        ensures
            final(self).wf(),
            final(self).spec_total() == old(self).spec_total() + coordinates@.len(),
            forall|k: (int, int)| #[trigger]
                final(self)@.contains_key(k) <==> old(self)@.contains_key(k) || points_with_key(
                    coordinates@,
                    k,
                ) > 0,
            forall|k: (int, int)| #[trigger]
                final(self)@.contains_key(k) ==> final(self)@[k] == get_or_zero(old(self)@, k)
                    + points_with_key(coordinates@, k),
    {
        let n = coordinates.len();
        let mut i: usize = 0;
        proof {
            assert(coordinates@.subrange(0, 0) =~= Seq::<Coordinate>::empty());
        }
        while i < n
            invariant
                n == coordinates@.len(),
                i <= n,
                self.wf(),
                self.total == old(self).total + i,
                old(self).spec_total() + n <= u64::MAX,
                forall|k: (int, int)| #[trigger]
                    self@.contains_key(k) <==> old(self)@.contains_key(k) || points_with_key(
                        coordinates@.subrange(0, i as int),
                        k,
                    ) > 0,
                forall|k: (int, int)| #[trigger]
                    self@.contains_key(k) ==> self@[k] == get_or_zero(old(self)@, k)
                        + points_with_key(coordinates@.subrange(0, i as int), k),
            decreases n - i,
        {
            let key = key_of(&coordinates[i]);
            let ghost k = (key.0 as int, key.1 as int);
            let ghost cur = self@;
            let ghost prefix = coordinates@.subrange(0, i as int);
            let ghost next = coordinates@.subrange(0, i as int + 1);
            proof {
                assert(next.drop_last() =~= prefix);
                assert(next.last() == coordinates@[i as int]);
                assert(spec_key_of(coordinates@[i as int]) == k);
            }
            self.counts.add(key.0, key.1, 1);
            self.total = self.total + 1;
            proof {
                assert forall|q: (int, int)| #[trigger] self.counts@.contains_key(q) implies self.counts@[q]
                    <= self.total by {
                    if q != k {
                        assert(cur.contains_key(q));
                    }
                }
                assert forall|q: (int, int)| #[trigger] self@.contains_key(q) implies self@[q]
                    == get_or_zero(old(self)@, q) + points_with_key(next, q) by {
                    if q != k {
                        assert(cur.contains_key(q));
                    } else if !cur.contains_key(k) {
                        assert(points_with_key(prefix, k) == 0);
                    }
                }
            }
            i = i + 1;
        }
        proof {
            assert(coordinates@.subrange(0, n as int) =~= coordinates@);
        }
    }

    /// The accumulated counts, each key once.
    pub fn entries(&self) -> (r: Vec<HeatmapEntry>)
        requires
            self.wf(),
        ensures
            lists_map(r@, self@),
    {
        self.counts.entries()
    }
}

} // verus!

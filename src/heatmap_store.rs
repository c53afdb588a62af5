use vstd::prelude::*;

use crate::frequency::{
    delta_has, delta_sum, get_or_zero, is_merge, lemma_delta_sum_absent, lists_map, merge_fits,
    FrequencyMap,
};
use crate::geo::BoundingBox;
use crate::model::{HeatmapEntry, TrackInformation};

verus! {

/// Ratio between the unit of a raw coordinate and that of a heatmap key.
pub const KEY_TO_POINT_SCALE: i128 = 100;

/// A heatmap key (units of `10^-5` degrees) lies strictly inside a rectangle
/// (units of `10^-7` degrees): keys on an edge are outside.
pub open spec fn key_strictly_inside(b: BoundingBox, k: (int, int)) -> bool {
    &&& b.south() < k.0 * 100 < b.north()
    &&& b.west() < k.1 * 100 < b.east()
}

/// The cumulative visit frequency of every quantized coordinate.
///
/// Its only write is `merge`, which adds; no count ever decreases and no key
/// is ever removed.
pub struct HeatmapDatabase {
    rows: FrequencyMap,
}

impl HeatmapDatabase {
    pub closed spec fn view(&self) -> Map<(int, int), nat> {
        self.rows@
    }

    pub closed spec fn wf(&self) -> bool {
        self.rows.wf()
    }

    pub fn new() -> (r: HeatmapDatabase)
        ensures
            r.wf(),
            r@ == Map::<(int, int), nat>::empty(),
    {
        HeatmapDatabase { rows: FrequencyMap::new() }
    }

    /// Whether the store holds no row yet; it decides how a merge is written.
    pub fn is_empty(&self) -> (r: bool)
        requires
            self.wf(),
        ensures
            r <==> self@ == Map::<(int, int), nat>::empty(),
    {
        self.rows.is_empty()
    }

    /// The stored frequency of a key, zero where it has none.
    pub fn frequency(&self, latitude: i64, longitude: i64) -> (r: u64)
        ensures
            r == get_or_zero(self@, (latitude as int, longitude as int)),
    {
        self.rows.get(latitude, longitude)
    }

    /// Adds every frequency of `delta` to the stored count of its key.
    ///
    /// Merging the same delta twice counts it twice: a run must not hand in
    /// the points of a file that an earlier run already merged.
    pub fn update_heatmap(&mut self, delta: &Vec<HeatmapEntry>)
        requires
            old(self).wf(),
            merge_fits(old(self)@, delta@),
        ensures
            final(self).wf(),
            is_merge(old(self)@, delta@, final(self)@),
    {
        self.rows.merge(delta);
    }

    /// Every stored entry whose key lies strictly inside the query rectangle;
    /// keys on its edges are left out.
    pub fn get_heatmap_inside_location(&self, query: &TrackInformation) -> (r: Vec<HeatmapEntry>)
        requires
            self.wf(),
        ensures
            lists_map(
                r@,
                self@.restrict(Set::new(|k: (int, int)| key_strictly_inside(query.spec_bounds(), k))),
            ),
    {
        let bounds = query.bounds();
        let all = self.rows.entries();
        let ghost inside = self@.restrict(Set::new(|k: (int, int)| key_strictly_inside(query.spec_bounds(), k)));
        let mut out: Vec<HeatmapEntry> = Vec::new();
        let ghost mut picked: Seq<int> = Seq::empty();
        let n = all.len();
        let mut i: usize = 0;
        while i < n
            invariant
                n == all@.len(),
                i <= n,
                lists_map(all@, self@),
                bounds == query.spec_bounds(),
                inside == self@.restrict(Set::new(|k: (int, int)| key_strictly_inside(query.spec_bounds(), k))),
                out@.len() == picked.len(),
                forall|j: int|
                    0 <= j < picked.len() ==> 0 <= #[trigger] picked[j] < i && out@[j]
                        == all@[picked[j]],
                forall|a: int, b: int| 0 <= a < b < picked.len() ==> #[trigger] picked[a] < #[trigger] picked[b],
                forall|j: int| 0 <= j < out@.len() ==> key_strictly_inside(query.spec_bounds(), (#[trigger] out@[j]).key()),
                forall|m: int|
                    0 <= m < i && key_strictly_inside(query.spec_bounds(), (#[trigger] all@[m]).key()) ==> exists|j: int|
                        0 <= j < picked.len() && picked[j] == m,
            decreases n - i,
        {
            let e = all[i];
            let ghost old_picked = picked;
            let lat = e.latitude as i128 * KEY_TO_POINT_SCALE;
            let lon = e.longitude as i128 * KEY_TO_POINT_SCALE;
            if (bounds.south_east_latitude as i128) < lat && lat < (bounds.north_west_latitude as i128)
                && (bounds.north_west_longitude as i128) < lon && lon < (
            bounds.south_east_longitude as i128) {
                out.push(e);
                proof {
                    picked = picked.push(i as int);
                }
            }
            proof {
                assert forall|m: int|
                    0 <= m < i + 1 && key_strictly_inside(query.spec_bounds(), (#[trigger] all@[m]).key()) implies exists|j: int|
                        0 <= j < picked.len() && picked[j] == m by {
                    if m < i {
                        let j = choose|j: int| 0 <= j < old_picked.len() && old_picked[j] == m;
                        assert(picked[j] == m);
                    } else {
                        assert(picked[picked.len() - 1] == m);
                    }
                }
            }
            i = i + 1;
        }
        proof {
            assert forall|a: int, b: int| 0 <= a < b < out@.len() implies (#[trigger] out@[a]).key()
                != (#[trigger] out@[b]).key() by {
                assert(picked[a] < picked[b]);
            }
            assert forall|j: int| 0 <= j < out@.len() implies inside.contains_key(
                (#[trigger] out@[j]).key(),
            ) && inside[out@[j].key()] == out@[j].frequency by {
                assert(out@[j] == all@[picked[j]]);
                assert(self@.contains_key(all@[picked[j]].key()));
            }
            assert forall|k: (int, int)| #[trigger] inside.contains_key(k) implies exists|j: int|
                0 <= j < out@.len() && out@[j].key() == k by {
                assert(self@.contains_key(k));
                let m = choose|m: int| 0 <= m < all@.len() && all@[m].key() == k;
                assert(key_strictly_inside(query.spec_bounds(), all@[m].key()));
                let j = choose|j: int| 0 <= j < picked.len() && picked[j] == m;
                assert(out@[j] == all@[m]);
            }
        }
        out
    }

    /// Every stored entry, each key once.
    pub fn entries(&self) -> (r: Vec<HeatmapEntry>)
        requires
            self.wf(),
        ensures
            lists_map(r@, self@),
    {
        self.rows.entries()
    }
}

/// Merges accumulate: after merging `first` and then `second` into a store
/// holding `start`, each key's count is its count in `start` plus every
/// frequency that either delta gives it, and the keys are those of the store
/// and of both deltas together.
pub proof fn lemma_merge_twice(
    start: Map<(int, int), nat>,
    first: Seq<HeatmapEntry>,
    middle: Map<(int, int), nat>,
    second: Seq<HeatmapEntry>,
    end: Map<(int, int), nat>,
)
    requires
        is_merge(start, first, middle),
        is_merge(middle, second, end),
    ensures
        forall|k: (int, int)| #[trigger]
            end.contains_key(k) <==> start.contains_key(k) || delta_has(first, k) || delta_has(
                second,
                k,
            ),
        forall|k: (int, int)| #[trigger]
            end.contains_key(k) ==> end[k] == get_or_zero(start, k) + delta_sum(first, k)
                + delta_sum(second, k),
{
    assert forall|k: (int, int)| #[trigger] end.contains_key(k) implies end[k] == get_or_zero(
        start,
        k,
    ) + delta_sum(first, k) + delta_sum(second, k) by {
        if !middle.contains_key(k) {
            assert(!delta_has(first, k));
            lemma_delta_sum_absent(first, k);
        }
    }
}

} // verus!

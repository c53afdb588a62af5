use vstd::prelude::*;

use crate::accumulator::{points_with_key, HeatmapAccumulator};
use crate::extent::{
    coordinates_of, extract_track_coordinates, extract_track_information, is_bounds_of,
    rfc3339_canonical,
};
use crate::frequency::{get_or_zero, is_merge, lists_map};
use crate::geo::BoundingBox;
use crate::model::{HeatmapEntry, TrackFile, TrackInformation};
use crate::track_store::{has_file, unique_filenames, TrackRecord, TracksDatabase};

verus! {

/// What the parser made of one discovered file: its track, or `None` where
/// the file could not be read.
pub struct TrackInput {
    pub filename: String,
    pub track: Option<TrackFile>,
}

impl TrackInput {
    pub fn new(filename: String, track: Option<TrackFile>) -> (r: TrackInput)
        ensures
            r.filename == filename,
            r.track == track,
    {
        TrackInput { filename, track }
    }
}

/// Whether a parsed track yields an extent: it has points and its first
/// timestamp is an RFC 3339 date.
pub open spec fn yields_extent(track: Option<TrackFile>) -> bool {
    match track {
        Some(t) => t.track_points@.len() > 0 && rfc3339_canonical(t.track_points@[0].time@) is Some,
        None => false,
    }
}

pub open spec fn points_in(track: Option<TrackFile>) -> nat {
    match track {
        Some(t) => t.track_points@.len(),
        None => 0,
    }
}

/// How many points all of `inputs` hold.
pub open spec fn total_points(inputs: Seq<TrackInput>) -> nat
    decreases inputs.len(),
{
    if inputs.len() == 0 {
        0
    } else {
        total_points(inputs.drop_last()) + points_in(inputs.last().track)
    }
}

pub open spec fn zero_box() -> BoundingBox {
    BoundingBox {
        north_west_latitude: 0,
        north_west_longitude: 0,
        south_east_latitude: 0,
        south_east_longitude: 0,
    }
}

/// The row that a file yields: its extent, or the empty-track sentinel.
pub open spec fn is_row_for(row: TrackRecord, filename: Seq<char>, track: Option<TrackFile>) -> bool {
    &&& row.filename@ == filename
    &&& if yields_extent(track) {
        let t = track->0;
        &&& !row.is_empty_track
        &&& is_bounds_of(t.track_points@, row.information.spec_bounds())
        &&& row.information.date@ == rfc3339_canonical(t.track_points@[0].time@)->0
        &&& row.information.activity_type@ == t.activity_type@
    } else {
        &&& row.is_empty_track
        &&& row.information.spec_bounds() == zero_box()
    }
}

/// Whether `filename` is stored before the run or named by one of `earlier`.
pub open spec fn known_before(
    earlier: Seq<TrackInput>,
    rows_before: Seq<TrackRecord>,
    filename: Seq<char>,
) -> bool {
    has_file(rows_before, filename) || exists|m: int|
        0 <= m < earlier.len() && earlier[m].filename@ == filename
}

/// How many points a run over `inputs` counts under `k`: those of each file
/// that is new when its turn comes and that yields an extent.
pub open spec fn counted_points(
    inputs: Seq<TrackInput>,
    rows_before: Seq<TrackRecord>,
    k: (int, int),
) -> nat
    decreases inputs.len(),
{
    if inputs.len() == 0 {
        0
    } else {
        let init = inputs.drop_last();
        let last = inputs.last();
        counted_points(init, rows_before, k) + if !known_before(init, rows_before, last.filename@)
            && yields_extent(last.track) {
            points_with_key(coordinates_of(last.track->0.track_points@), k)
        } else {
            0
        }
    }
}

/// What one ingestion run over `inputs` guarantees, from the store rows and
/// accumulated counts before it to those after it.
pub open spec fn ingestion_post(
    inputs: Seq<TrackInput>,
    rows_before: Seq<TrackRecord>,
    counts_before: Map<(int, int), nat>,
    rows_after: Seq<TrackRecord>,
    counts_after: Map<(int, int), nat>,
) -> bool {
    &&& forall|i: int| 0 <= i < inputs.len() ==> has_file(rows_after, (#[trigger] inputs[i]).filename@)
    &&& rows_before.len() <= rows_after.len()
    &&& forall|j: int| 0 <= j < rows_before.len() ==> rows_after[j] == #[trigger] rows_before[j]
    &&& forall|j: int|
        rows_before.len() <= j < rows_after.len() ==> exists|i: int|
            0 <= i < inputs.len() && !has_file(rows_before, inputs[i].filename@) && is_row_for(
                #[trigger] rows_after[j],
                inputs[i].filename@,
                inputs[i].track,
            )
    &&& forall|k: (int, int)| #[trigger]
        counts_after.contains_key(k) <==> counts_before.contains_key(k) || counted_points(
            inputs,
            rows_before,
            k,
        ) > 0
    &&& forall|k: (int, int)| #[trigger]
        counts_after.contains_key(k) ==> counts_after[k] == get_or_zero(counts_before, k)
            + counted_points(inputs, rows_before, k)
    &&& unique_filenames(rows_before) ==> unique_filenames(rows_after)
    &&& (forall|i: int| 0 <= i < inputs.len() ==> has_file(rows_before, (#[trigger] inputs[i]).filename@))
        ==> rows_after == rows_before && counts_after == counts_before
}

/// Handles one discovered file: a file already in the store is skipped;
/// otherwise its extent (or, where it yields none, the empty-track sentinel)
/// is stored, and the points of a track with an extent are counted.
pub fn ingest_file(
    store: &mut TracksDatabase,
    accumulator: &mut HeatmapAccumulator,
    filename: &String,
    track: &Option<TrackFile>,
) -> (processed: bool)
    requires
        old(accumulator).wf(),
        old(accumulator).spec_total() + points_in(*track) <= u64::MAX,
    ensures
        final(accumulator).wf(),
        processed == !has_file(old(store)@, filename@),
        !processed ==> final(store)@ == old(store)@ && final(accumulator)@ == old(accumulator)@
            && final(accumulator).spec_total() == old(accumulator).spec_total(),
        processed ==> {
            &&& final(store)@.len() == old(store)@.len() + 1
            &&& final(store)@.drop_last() == old(store)@
            &&& is_row_for(final(store)@.last(), filename@, *track)
        },
        processed && yields_extent(*track) ==> {
            &&& final(accumulator).spec_total() == old(accumulator).spec_total() + points_in(*track)
            &&& forall|k: (int, int)| #[trigger]
                final(accumulator)@.contains_key(k) <==> old(accumulator)@.contains_key(k)
                    || points_with_key(coordinates_of(track->0.track_points@), k) > 0
            &&& forall|k: (int, int)| #[trigger]
                final(accumulator)@.contains_key(k) ==> final(accumulator)@[k] == get_or_zero(
                    old(accumulator)@,
                    k,
                ) + points_with_key(coordinates_of(track->0.track_points@), k)
        },
        processed && !yields_extent(*track) ==> final(accumulator)@ == old(accumulator)@
            && final(accumulator).spec_total() == old(accumulator).spec_total(),
{
    if store.contains_filename(filename) {
        return false;
    }
    let ghost before = store@;
    match track {
        Some(t) => {
            match extract_track_information(t) {
                Ok(information) => {
                    let coordinates = extract_track_coordinates(t);
                    store.insert_new_file(filename.clone(), information, false);
                    accumulator.add_coordinates(&coordinates);
                },
                Err(_) => {
                    store.insert_new_file(filename.clone(), TrackInformation::create_empty_track(), true);
                },
            }
        },
        None => {
            store.insert_new_file(filename.clone(), TrackInformation::create_empty_track(), true);
        },
    }
    assert(store@.drop_last() =~= before);
    true
}

pub proof fn lemma_total_points_prefix(inputs: Seq<TrackInput>, i: int)
    requires
        0 <= i <= inputs.len(),
    ensures
        total_points(inputs.subrange(0, i)) <= total_points(inputs),
    decreases inputs.len(),
{
    if i < inputs.len() {
        assert(inputs.drop_last().subrange(0, i) =~= inputs.subrange(0, i));
        lemma_total_points_prefix(inputs.drop_last(), i);
    } else {
        assert(inputs.subrange(0, i) =~= inputs);
    }
}

/// One ingestion run over the discovered files, in order: each file not yet
/// in the store gets exactly one row, and the points of each new track are
/// counted in `accumulator`.
pub fn ingest_all(
    store: &mut TracksDatabase,
    accumulator: &mut HeatmapAccumulator,
    inputs: &Vec<TrackInput>,
)
    requires
        old(accumulator).wf(),
        old(accumulator).spec_total() + total_points(inputs@) <= u64::MAX,
    ensures
        final(accumulator).wf(),
        ingestion_post(inputs@, old(store)@, old(accumulator)@, final(store)@, final(accumulator)@),
{
    let n = inputs.len();
    let mut i: usize = 0;
    proof {
        assert(inputs@.subrange(0, 0) =~= Seq::<TrackInput>::empty());
    }
    let ghost all_known = forall|k: int|
        0 <= k < inputs@.len() ==> has_file(old(store)@, (#[trigger] inputs@[k]).filename@);
    while i < n
        invariant
            n == inputs@.len(),
            i <= n,
            accumulator.wf(),
            accumulator.spec_total() <= old(accumulator).spec_total() + total_points(
                inputs@.subrange(0, i as int),
            ),
            old(accumulator).spec_total() + total_points(inputs@) <= u64::MAX,
            all_known == forall|k: int|
                0 <= k < inputs@.len() ==> has_file(old(store)@, (#[trigger] inputs@[k]).filename@),
            forall|k: int| 0 <= k < i ==> has_file(store@, (#[trigger] inputs@[k]).filename@),
            old(store)@.len() <= store@.len(),
            forall|j: int| 0 <= j < old(store)@.len() ==> store@[j] == #[trigger] old(store)@[j],
            forall|j: int|
                old(store)@.len() <= j < store@.len() ==> exists|m: int|
                    0 <= m < inputs@.len() && !has_file(old(store)@, inputs@[m].filename@) && is_row_for(
                        #[trigger] store@[j],
                        inputs@[m].filename@,
                        inputs@[m].track,
                    ),
            forall|f: Seq<char>| #[trigger]
                has_file(store@, f) <==> known_before(
                    inputs@.subrange(0, i as int),
                    old(store)@,
                    f,
                ),
            forall|k: (int, int)| #[trigger]
                accumulator@.contains_key(k) <==> old(accumulator)@.contains_key(k)
                    || counted_points(inputs@.subrange(0, i as int), old(store)@, k) > 0,
            forall|k: (int, int)| #[trigger]
                accumulator@.contains_key(k) ==> accumulator@[k] == get_or_zero(
                    old(accumulator)@,
                    k,
                ) + counted_points(inputs@.subrange(0, i as int), old(store)@, k),
            unique_filenames(old(store)@) ==> unique_filenames(store@),
            all_known ==> store@ == old(store)@ && accumulator@ == old(accumulator)@
                && accumulator.spec_total() == old(accumulator).spec_total(),
        decreases n - i,
    {
        let input = &inputs[i];
        let ghost prefix = inputs@.subrange(0, i as int);
        let ghost next = inputs@.subrange(0, i as int + 1);
        let ghost rows = store@;
        let ghost counts = accumulator@;
        proof {
            assert(next.drop_last() =~= prefix);
            assert(next.last() == inputs@[i as int]);
            lemma_total_points_prefix(inputs@, i as int + 1);
        }
        let processed = ingest_file(store, accumulator, &input.filename, &input.track);
        proof {
            assert forall|k: int| 0 <= k < i + 1 implies has_file(store@, (#[trigger] inputs@[k]).filename@) by {
                if k < i {
                    let j = choose|j: int| 0 <= j < rows.len() && rows[j].filename@ == inputs@[k].filename@;
                    if processed {
                        assert(store@[j] == rows[j]);
                    }
                } else if processed {
                    assert(store@[store@.len() - 1] == store@.last());
                } else {
                    assert(has_file(rows, input.filename@));
                }
            }
            if processed {
                assert forall|j: int| 0 <= j < old(store)@.len() implies store@[j] == #[trigger] old(store)@[j] by {
                    assert(store@[j] == store@.drop_last()[j]);
                }
                if unique_filenames(old(store)@) {
                    assert forall|a: int, b: int| 0 <= a < b < store@.len() implies (#[trigger] store@[a]).filename@
                        != (#[trigger] store@[b]).filename@ by {
                        assert(store@[a] == rows[a]);
                        if b < rows.len() {
                            assert(store@[b] == rows[b]);
                        } else {
                            assert(store@[b] == store@.last());
                            assert(!has_file(rows, input.filename@));
                        }
                    }
                }
                if all_known {
                    assert(has_file(old(store)@, inputs@[i as int].filename@));
                }
                assert(!has_file(old(store)@, input.filename@)) by {
                    if has_file(old(store)@, input.filename@) {
                        let j = choose|j: int|
                            0 <= j < old(store)@.len() && old(store)@[j].filename@ == input.filename@;
                        assert(rows[j] == old(store)@[j]);
                    }
                }
                assert forall|j: int| old(store)@.len() <= j < store@.len() implies exists|m: int|
                    0 <= m < inputs@.len() && !has_file(old(store)@, inputs@[m].filename@) && is_row_for(
                        #[trigger] store@[j],
                        inputs@[m].filename@,
                        inputs@[m].track,
                    ) by {
                    if j < rows.len() {
                        assert(store@[j] == rows[j]);
                    } else {
                        assert(store@[j] == store@.last());
                        assert(inputs@[i as int] == *input);
                    }
                }
            }
            assert(processed == !known_before(prefix, old(store)@, input.filename@));
            assert forall|f: Seq<char>| #[trigger]
                has_file(store@, f) <==> known_before(next, old(store)@, f) by {
                if has_file(store@, f) {
                    let j = choose|j: int| 0 <= j < store@.len() && store@[j].filename@ == f;
                    if j < rows.len() {
                        assert(store@[j] == rows[j]);
                        assert(has_file(rows, f));
                        if !has_file(old(store)@, f) {
                            let m = choose|m: int| 0 <= m < prefix.len() && prefix[m].filename@ == f;
                            assert(next[m] == prefix[m]);
                        }
                    } else {
                        assert(next[i as int] == *input);
                    }
                }
                if known_before(next, old(store)@, f) {
                    if !has_file(old(store)@, f) {
                        let m = choose|m: int| 0 <= m < next.len() && next[m].filename@ == f;
                        if m < i {
                            assert(prefix[m] == next[m]);
                            assert(has_file(rows, f));
                            let j = choose|j: int| 0 <= j < rows.len() && rows[j].filename@ == f;
                            if processed {
                                assert(store@[j] == rows[j]);
                            }
                        } else {
                            assert(next[m] == *input);
                            if processed {
                                assert(store@[store@.len() - 1] == store@.last());
                            } else {
                                assert(has_file(rows, f));
                            }
                        }
                    } else {
                        let j = choose|j: int|
                            0 <= j < old(store)@.len() && old(store)@[j].filename@ == f;
                        assert(store@[j] == old(store)@[j]);
                    }
                }
            }
            assert forall|k: (int, int)| #[trigger]
                accumulator@.contains_key(k) <==> old(accumulator)@.contains_key(k)
                    || counted_points(next, old(store)@, k) > 0 by {
                assert(counted_points(next, old(store)@, k) == counted_points(prefix, old(store)@, k)
                    + if processed && yields_extent(input.track) {
                    points_with_key(coordinates_of(input.track->0.track_points@), k)
                } else {
                    0
                });
            }
            assert forall|k: (int, int)| #[trigger] accumulator@.contains_key(k) implies accumulator@[k]
                == get_or_zero(old(accumulator)@, k) + counted_points(next, old(store)@, k) by {
                assert(counted_points(next, old(store)@, k) == counted_points(prefix, old(store)@, k)
                    + if processed && yields_extent(input.track) {
                    points_with_key(coordinates_of(input.track->0.track_points@), k)
                } else {
                    0
                });
                if !counts.contains_key(k) {
                    assert(counted_points(prefix, old(store)@, k) == 0);
                }
            }
        }
        i = i + 1;
    }
    proof {
        assert(inputs@.subrange(0, n as int) =~= inputs@);
    }
}

/// Running ingestion again over the same inputs, on the store that the
/// first run left, changes nothing: no file is processed again, no row is
/// added, no point is counted, so the heatmap delta of the second run is empty
/// and merging it leaves the heatmap as it was. Filenames stay unique.
pub proof fn lemma_rerun_changes_nothing(
    inputs: Seq<TrackInput>,
    rows0: Seq<TrackRecord>,
    counts0: Map<(int, int), nat>,
    rows1: Seq<TrackRecord>,
    counts1: Map<(int, int), nat>,
    rows2: Seq<TrackRecord>,
    counts2: Map<(int, int), nat>,
    delta: Seq<HeatmapEntry>,
    heatmap_before: Map<(int, int), nat>,
    heatmap_after: Map<(int, int), nat>,
)
    requires
        ingestion_post(inputs, rows0, counts0, rows1, counts1),
        ingestion_post(inputs, rows1, Map::empty(), rows2, counts2),
        lists_map(delta, counts2),
        is_merge(heatmap_before, delta, heatmap_after),
    ensures
        rows2 == rows1,
        counts2 == Map::<(int, int), nat>::empty(),
        delta.len() == 0,
        heatmap_after == heatmap_before,
        unique_filenames(rows0) ==> unique_filenames(rows2),
{
    assert(forall|i: int| 0 <= i < inputs.len() ==> has_file(rows1, (#[trigger] inputs[i]).filename@));
    if delta.len() > 0 {
        assert(counts2.contains_key(delta[0].key()));
    }
    assert forall|k: (int, int)| #[trigger] heatmap_after.contains_key(k) <==> heatmap_before.contains_key(k) by {
        assert(!crate::frequency::delta_has(delta, k));
    }
    assert forall|k: (int, int)| #[trigger] heatmap_after.contains_key(k) implies heatmap_after[k] == heatmap_before[k] by {
        assert(!crate::frequency::delta_has(delta, k));
        crate::frequency::lemma_delta_sum_absent(delta, k);
    }
    assert(heatmap_after =~= heatmap_before);
}

} // verus!

use vstd::prelude::*;

use crate::geo::{overlaps, spec_overlaps};
use crate::model::TrackInformation;

verus! {

/// One stored track: the file it was read from, its extent, and whether the
/// file yielded no usable track (then the extent is the all-zero sentinel).
#[derive(Debug)]
pub struct TrackRecord {
    pub filename: String,
    pub information: TrackInformation,
    pub is_empty_track: bool,
}

/// The filenames of `rows`, in order.
pub open spec fn filenames_of(rows: Seq<TrackRecord>) -> Seq<Seq<char>> {
    rows.map_values(|r: TrackRecord| r.filename@)
}

/// Whether some row was stored for `filename`.
pub open spec fn has_file(rows: Seq<TrackRecord>, filename: Seq<char>) -> bool {
    exists|i: int| 0 <= i < rows.len() && rows[i].filename@ == filename
}

/// No filename is stored twice.
pub open spec fn unique_filenames(rows: Seq<TrackRecord>) -> bool {
    forall|i: int, j: int|
        0 <= i < j < rows.len() ==> (#[trigger] rows[i]).filename@ != (#[trigger] rows[j]).filename@
}

/// A row answers a query when it is a real track, its extent overlaps the
/// query rectangle (edges included), and, where the query names an activity
/// type, its type is exactly that one.
pub open spec fn matches_query(row: TrackRecord, query: TrackInformation) -> bool {
    &&& !row.is_empty_track
    &&& spec_overlaps(row.information.spec_bounds(), query.spec_bounds())
    &&& (query.activity_type@.len() == 0 || row.information.activity_type@ == query.activity_type@)
}

/// The filenames of the rows that answer `query`, in row order.
pub open spec fn query_result(rows: Seq<TrackRecord>, query: TrackInformation) -> Seq<Seq<char>>
    decreases rows.len(),
{
    if rows.len() == 0 {
        Seq::empty()
    } else {
        let prev = query_result(rows.drop_last(), query);
        if matches_query(rows.last(), query) {
            prev.push(rows.last().filename@)
        } else {
            prev
        }
    }
}

/// The extent record of every processed file, one row per file.
pub struct TracksDatabase {
    rows: Vec<TrackRecord>,
}

impl TracksDatabase {
    pub closed spec fn view(&self) -> Seq<TrackRecord> {
        self.rows@
    }

    pub fn new() -> (r: TracksDatabase)
        ensures
            r@ == Seq::<TrackRecord>::empty(),
    {
        TracksDatabase { rows: Vec::new() }
    }

    pub fn len(&self) -> (r: usize)
        ensures
            r == self@.len(),
    {
        self.rows.len()
    }

    /// The row at `index`.
    pub fn row(&self, index: usize) -> (r: &TrackRecord)
        requires
            index < self@.len(),
        ensures
            *r == self@[index as int],
    {
        &self.rows[index]
    }

    /// Appends a row. Uniqueness of filenames is the caller's concern.
    pub fn insert_new_file(&mut self, filename: String, information: TrackInformation, is_empty_track: bool)
        ensures
            final(self)@ == old(self)@.push(TrackRecord { filename, information, is_empty_track }),
    {
        self.rows.push(TrackRecord { filename, information, is_empty_track });
    }

    /// Whether a row was stored for `filename`.
    pub fn contains_filename(&self, filename: &String) -> (r: bool)
        ensures
            r == has_file(self@, filename@),
    {
        let n = self.rows.len();
        let mut i: usize = 0;
        while i < n
            invariant
                n == self.rows@.len(),
                i <= n,
                forall|j: int| 0 <= j < i ==> (#[trigger] self.rows@[j]).filename@ != filename@,
            decreases n - i,
        {
            if self.rows[i].filename == *filename {
                return true;
            }
            i = i + 1;
        }
        false
    }

    /// Every stored filename, in row order.
    pub fn get_all_filenames(&self) -> (r: Vec<String>)
        ensures
            r@.map_values(|s: String| s@) == filenames_of(self@),
    {
        let mut out: Vec<String> = Vec::new();
        let n = self.rows.len();
        let mut i: usize = 0;
        while i < n
            invariant
                n == self.rows@.len(),
                i <= n,
                out@.len() == i,
                forall|j: int| 0 <= j < i ==> (#[trigger] out@[j])@ == self.rows@[j].filename@,
            decreases n - i,
        {
            out.push(self.rows[i].filename.clone());
            i = i + 1;
        }
        assert(out@.map_values(|s: String| s@) =~= filenames_of(self@));
        out
    }

    /// The filenames of the real tracks whose extent overlaps the query
    /// rectangle, restricted to the query's activity type when it names one.
    pub fn get_tracks_inside_location(&self, query: &TrackInformation) -> (r: Vec<String>)
        ensures
            r@.map_values(|s: String| s@) == query_result(self@, *query),
    {
        let q = query.bounds();
        let filter_type = !query.activity_type.as_str().is_empty();
        let mut out: Vec<String> = Vec::new();
        let n = self.rows.len();
        let mut i: usize = 0;
        while i < n
            invariant
                n == self.rows@.len(),
                i <= n,
                q == query.spec_bounds(),
                filter_type == (query.activity_type@.len() > 0),
                out@.map_values(|s: String| s@) == query_result(
                    self.rows@.subrange(0, i as int),
                    *query,
                ),
            decreases n - i,
        {
            let row = &self.rows[i];
            let ghost prefix = self.rows@.subrange(0, i as int);
            let ghost next = self.rows@.subrange(0, i as int + 1);
            proof {
                assert(next.drop_last() =~= prefix);
            }
            let b = row.information.bounds();
            let hit = !row.is_empty_track && overlaps(&b, &q) && (!filter_type
                || row.information.activity_type == query.activity_type);
            if hit {
                let ghost before = out@;
                out.push(row.filename.clone());
                proof {
                    assert(out@.map_values(|s: String| s@) =~= before.map_values(|s: String| s@).push(
                        row.filename@,
                    ));
                }
            }
            i = i + 1;
        }
        proof {
            assert(self.rows@.subrange(0, n as int) =~= self.rows@);
        }
        out
    }
}

fn contains_text(list: &Vec<String>, s: &String) -> (r: bool)
    ensures
        r == exists|i: int| 0 <= i < list@.len() && list@[i]@ == s@,
{
    let n = list.len();
    let mut i: usize = 0;
    while i < n
        invariant
            n == list@.len(),
            i <= n,
            forall|j: int| 0 <= j < i ==> (#[trigger] list@[j])@ != s@,
        decreases n - i,
    {
        if list[i] == *s {
            return true;
        }
        i = i + 1;
    }
    false
}

impl TracksDatabase {
    /// The distinct non-empty activity types of the stored rows, in order of
    /// first appearance.
    pub fn get_all_activity_types(&self) -> (r: Vec<String>)
        ensures
            forall|i: int, j: int| 0 <= i < j < r@.len() ==> (#[trigger] r@[i])@ != (#[trigger] r@[j])@,
            forall|i: int|
                0 <= i < r@.len() ==> (#[trigger] r@[i])@.len() > 0 && exists|j: int|
                    0 <= j < self@.len() && self@[j].information.activity_type@ == r@[i]@,
            forall|j: int|
                0 <= j < self@.len() && (#[trigger] self@[j]).information.activity_type@.len() > 0
                    ==> exists|i: int| 0 <= i < r@.len() && r@[i]@ == self@[j].information.activity_type@,
    {
        let mut out: Vec<String> = Vec::new();
        let n = self.rows.len();
        let mut k: usize = 0;
        while k < n
            invariant
                n == self@.len(),
                k <= n,
                forall|i: int, j: int| 0 <= i < j < out@.len() ==> (#[trigger] out@[i])@ != (#[trigger] out@[j])@,
                forall|i: int|
                    0 <= i < out@.len() ==> (#[trigger] out@[i])@.len() > 0 && exists|j: int|
                        0 <= j < self@.len() && self@[j].information.activity_type@ == out@[i]@,
                forall|j: int|
                    0 <= j < k && (#[trigger] self@[j]).information.activity_type@.len() > 0
                        ==> exists|i: int| 0 <= i < out@.len() && out@[i]@ == self@[j].information.activity_type@,
            decreases n - k,
        {
            let t = &self.rows[k].information.activity_type;
            let present = contains_text(&out, t);
            let empty = t.as_str().is_empty();
            assert(t@ == self@[k as int].information.activity_type@);
            assert(empty == (t@.len() == 0));
            let ghost old_out = out@;
            if !empty && !present {
                out.push(t.clone());
                proof {
                    assert(out@[out@.len() - 1]@ == t@);
                }
            }
            proof {
                assert forall|j: int|
                    0 <= j < k + 1 && (#[trigger] self@[j]).information.activity_type@.len() > 0
                        implies exists|i: int| 0 <= i < out@.len() && out@[i]@ == self@[j].information.activity_type@ by {
                    if j == k {
                        if !present {
                            assert(out@[out@.len() - 1]@ == t@);
                        }
                    } else {
                        let i = choose|i: int| 0 <= i < old_out.len() && old_out[i]@ == self@[j].information.activity_type@;
                        assert(out@[i] == old_out[i]);
                    }
                }
            }
            k = k + 1;
        }
        out
    }
}

/// A file whose every stored row is an empty-track sentinel is in no query
/// result, whatever the query rectangle and activity type.
pub proof fn lemma_empty_tracks_never_returned(
    rows: Seq<TrackRecord>,
    query: TrackInformation,
    filename: Seq<char>,
)
    requires
        forall|i: int| 0 <= i < rows.len() && (#[trigger] rows[i]).filename@ == filename ==> rows[i].is_empty_track,
    ensures
        !query_result(rows, query).contains(filename),
    decreases rows.len(),
{
    if rows.len() > 0 {
        let init = rows.drop_last();
        assert forall|i: int| 0 <= i < init.len() && (#[trigger] init[i]).filename@ == filename implies init[i].is_empty_track by {
            assert(init[i] == rows[i]);
        }
        lemma_empty_tracks_never_returned(init, query, filename);
        assert(rows[rows.len() - 1] == rows.last());
        let prev = query_result(init, query);
        if matches_query(rows.last(), query) {
            assert(rows.last().filename@ != filename);
            assert(!prev.push(rows.last().filename@).contains(filename)) by {
                if prev.push(rows.last().filename@).contains(filename) {
                    let j = choose|j: int|
                        0 <= j < prev.len() + 1 && prev.push(rows.last().filename@)[j] == filename;
                    if j < prev.len() {
                        assert(prev[j] == filename);
                    }
                }
            }
        }
    }
}

} // verus!

use vstd::prelude::*;

use crate::decimal::{digits_of, fixed_point_text, fixed_point_text_of, unsigned_text};
use crate::model::HeatmapEntry;
use crate::quantize::{KEY_DECIMALS, POINT_DECIMALS};
use crate::track_store::TrackRecord;

verus! {

/// The tracks table: one row per processed file.
pub const CREATE_TRACKS_TABLE: &'static str = "CREATE TABLE IF NOT EXISTS tracks (
    id INTEGER PRIMARY KEY AUTOINCREMENT,
    filename TEXT NOT NULL,
    north_west_latitude REAL NOT NULL,
    north_west_longitude REAL NOT NULL,
    south_east_latitude REAL NOT NULL,
    south_east_longitude REAL NOT NULL,
    date DATE,
    is_empty_track INTEGER NOT NULL,
    activity_type TEXT NOT NULL
);";

/// The heatmap table: one row per quantized coordinate.
pub const CREATE_HEATMAP_TABLE: &'static str = "CREATE TABLE IF NOT EXISTS heatmap (
    latitude REAL NOT NULL,
    longitude REAL NOT NULL,
    frequency INTEGER NOT NULL,
    PRIMARY KEY (latitude, longitude)
);";

pub const INSERT_TRACK: &'static str = "INSERT INTO tracks (
    filename,
    north_west_latitude,
    north_west_longitude,
    south_east_latitude,
    south_east_longitude,
    is_empty_track,
    date,
    activity_type
) VALUES (?1, ?2, ?3, ?4, ?5, ?6, ?7, ?8)";

/// Reads every track row, in the column order that `INSERT_TRACK` writes.
pub const GET_ALL_TRACKS: &'static str = "SELECT filename, north_west_latitude, north_west_longitude,
    south_east_latitude, south_east_longitude, is_empty_track, date, activity_type
FROM tracks ORDER BY id;";

pub const GET_ALL_HEATMAP: &'static str = "SELECT latitude, longitude, frequency FROM heatmap;";

pub const CREATE_TRACK_FILENAME_INDEX: &'static str = "CREATE INDEX idx_filename ON tracks (filename);";

pub const CREATE_TRACK_COORDINATES_INDEX: &'static str = "CREATE INDEX idx_square ON tracks (
    north_west_latitude,
    north_west_longitude,
    south_east_latitude,
    south_east_longitude
);";

pub const CREATE_HEATMAP_INDEX: &'static str = "CREATE INDEX idx_lat_long ON heatmap (latitude, longitude);";

/// Start of a multi-row insert; `(?, ?, ?)` groups follow, comma separated.
pub const INSERT_DATA_INTO_HEATMAP: &'static str = "INSERT INTO heatmap (frequency, latitude, longitude) VALUES ";

pub const INSERT_OR_UPDATE_DATA_INTO_HEATMAP: &'static str = "INSERT INTO heatmap (latitude, longitude, frequency)
VALUES (?1, ?2, ?3)
ON CONFLICT(latitude, longitude)
DO UPDATE SET frequency = frequency + excluded.frequency;";

pub const ROW_PLACEHOLDERS: &'static str = "(?, ?, ?)";

pub const ROW_SEPARATOR: &'static str = ",";

/// Rows in one multi-row insert when the heatmap table starts empty.
pub const ROWS_PER_INSERT: usize = 1000;

/// Multi-row inserts per transaction when the heatmap table starts empty.
pub const INSERTS_PER_TRANSACTION: usize = 100;

/// Upserts per transaction when the heatmap table already holds rows.
pub const UPSERTS_PER_TRANSACTION: usize = 1000;

/// One statement of a heatmap write.
#[derive(Debug)]
pub enum HeatmapWrite {
    /// A multi-row insert of new keys.
    Insert(Vec<HeatmapEntry>),
    /// Insert one key, or add its frequency to the stored one.
    Upsert(HeatmapEntry),
}

pub open spec fn write_rows(w: HeatmapWrite) -> Seq<HeatmapEntry> {
    match w {
        HeatmapWrite::Insert(rows) => rows@,
        HeatmapWrite::Upsert(e) => seq![e],
    }
}

/// The rows of a transaction's statements, in order.
pub open spec fn transaction_rows(t: Seq<HeatmapWrite>) -> Seq<HeatmapEntry>
    decreases t.len(),
{
    if t.len() == 0 {
        Seq::empty()
    } else {
        transaction_rows(t.drop_last()) + write_rows(t.last())
    }
}

/// The rows of a whole plan, transaction after transaction.
pub open spec fn plan_rows(p: Seq<Vec<HeatmapWrite>>) -> Seq<HeatmapEntry>
    decreases p.len(),
{
    if p.len() == 0 {
        Seq::empty()
    } else {
        plan_rows(p.drop_last()) + transaction_rows(p.last()@)
    }
}

/// A multi-row insert of exactly `ROWS_PER_INSERT` rows.
pub open spec fn is_full_insert(w: HeatmapWrite) -> bool {
    w is Insert && write_rows(w).len() == ROWS_PER_INSERT
}

/// Each transaction holds 1 to 100 multi-row inserts of 1 to 1000 rows; all
/// transactions but the last hold 100 inserts, and all inserts but the very
/// last hold 1000 rows.
pub open spec fn is_bulk_plan(p: Seq<Vec<HeatmapWrite>>) -> bool {
    forall|i: int|
        0 <= i < p.len() ==> {
            &&& 1 <= (#[trigger] p[i])@.len() <= INSERTS_PER_TRANSACTION
            &&& i < p.len() - 1 ==> p[i]@.len() == INSERTS_PER_TRANSACTION
            &&& forall|j: int|
                0 <= j < p[i]@.len() ==> {
                    &&& (#[trigger] p[i]@[j]) is Insert
                    &&& 1 <= write_rows(p[i]@[j]).len() <= ROWS_PER_INSERT
                    &&& (i < p.len() - 1 || j < p[i]@.len() - 1) ==> is_full_insert(p[i]@[j])
                }
        }
}

/// Each transaction holds 1 to 1000 single-row upserts, and all but the last
/// hold 1000.
pub open spec fn is_upsert_plan(p: Seq<Vec<HeatmapWrite>>) -> bool {
    forall|i: int|
        0 <= i < p.len() ==> {
            &&& 1 <= (#[trigger] p[i])@.len() <= UPSERTS_PER_TRANSACTION
            &&& i < p.len() - 1 ==> p[i]@.len() == UPSERTS_PER_TRANSACTION
            &&& forall|j: int| 0 <= j < p[i]@.len() ==> (#[trigger] p[i]@[j]) is Upsert
        }
}

/// Every transaction holds exactly `size` statements.
pub open spec fn all_full(p: Seq<Vec<HeatmapWrite>>, size: int) -> bool {
    forall|i: int| 0 <= i < p.len() ==> (#[trigger] p[i])@.len() == size
}

/// `n` row placeholders, comma separated.
pub open spec fn placeholders(n: nat) -> Seq<char>
    decreases n,
{
    if n == 0 {
        Seq::empty()
    } else if n == 1 {
        ROW_PLACEHOLDERS@
    } else {
        placeholders((n - 1) as nat) + ROW_SEPARATOR@ + ROW_PLACEHOLDERS@
    }
}

/// The text of a statement.
pub open spec fn write_sql(w: HeatmapWrite) -> Seq<char> {
    match w {
        HeatmapWrite::Insert(rows) => INSERT_DATA_INTO_HEATMAP@ + placeholders(rows@.len()),
        HeatmapWrite::Upsert(_) => INSERT_OR_UPDATE_DATA_INTO_HEATMAP@,
    }
}

/// A key component as stored: decimal text with five decimals.
pub open spec fn key_text(v: i64) -> Seq<char> {
    fixed_point_text_of(v as int, KEY_DECIMALS as nat)
}

/// The parameters of a multi-row insert: frequency, latitude and longitude
/// of each row in turn.
pub open spec fn insert_params(rows: Seq<HeatmapEntry>) -> Seq<Seq<char>>
    decreases rows.len(),
{
    if rows.len() == 0 {
        Seq::empty()
    } else {
        let e = rows.last();
        insert_params(rows.drop_last()) + seq![
            digits_of(e.frequency as nat),
            key_text(e.latitude),
            key_text(e.longitude),
        ]
    }
}

/// The parameters of a statement.
pub open spec fn write_params(w: HeatmapWrite) -> Seq<Seq<char>> {
    match w {
        HeatmapWrite::Insert(rows) => insert_params(rows@),
        HeatmapWrite::Upsert(e) => seq![
            key_text(e.latitude),
            key_text(e.longitude),
            digits_of(e.frequency as nat),
        ],
    }
}

impl HeatmapWrite {
    /// The statement's SQL text.
    pub fn sql(&self) -> (r: String)
        ensures
            r@ == write_sql(*self),
    {
        match self {
            HeatmapWrite::Insert(rows) => {
                let mut out = INSERT_DATA_INTO_HEATMAP.to_string();
                let n = rows.len();
                let mut i: usize = 0;
                while i < n
                    invariant
                        n == rows@.len(),
                        i <= n,
                        out@ == INSERT_DATA_INTO_HEATMAP@ + placeholders(i as nat),
                    decreases n - i,
                {
                    if i > 0 {
                        out.append(ROW_SEPARATOR);
                    }
                    out.append(ROW_PLACEHOLDERS);
                    proof {
                        if i == 0 {
                            assert(placeholders(0) =~= Seq::<char>::empty());
                        }
                        assert(out@ =~= INSERT_DATA_INTO_HEATMAP@ + placeholders((i + 1) as nat));
                    }
                    i = i + 1;
                }
                out
            },
            HeatmapWrite::Upsert(_) => INSERT_OR_UPDATE_DATA_INTO_HEATMAP.to_string(),
        }
    }

    /// The statement's parameters, as text.
    pub fn params(&self) -> (r: Vec<String>)
        ensures
            r@.map_values(|s: String| s@) == write_params(*self),
    {
        match self {
            HeatmapWrite::Insert(rows) => {
                let mut out: Vec<String> = Vec::new();
                let n = rows.len();
                let mut i: usize = 0;
                while i < n
                    invariant
                        n == rows@.len(),
                        i <= n,
                        out@.map_values(|s: String| s@) == insert_params(rows@.subrange(0, i as int)),
                    decreases n - i,
                {
                    let e = rows[i];
                    let ghost before = out@.map_values(|s: String| s@);
                    out.push(unsigned_text(e.frequency));
                    out.push(fixed_point_text(e.latitude, KEY_DECIMALS));
                    out.push(fixed_point_text(e.longitude, KEY_DECIMALS));
                    proof {
                        let next = rows@.subrange(0, i as int + 1);
                        assert(next.drop_last() =~= rows@.subrange(0, i as int));
                        assert(next.last() == e);
                        assert(out@.map_values(|s: String| s@) =~= insert_params(next));
                    }
                    i = i + 1;
                }
                proof {
                    assert(rows@.subrange(0, n as int) =~= rows@);
                }
                out
            },
            HeatmapWrite::Upsert(e) => {
                let mut out: Vec<String> = Vec::new();
                out.push(fixed_point_text(e.latitude, KEY_DECIMALS));
                out.push(fixed_point_text(e.longitude, KEY_DECIMALS));
                out.push(unsigned_text(e.frequency));
                assert(out@.map_values(|s: String| s@) =~= write_params(*self));
                out
            },
        }
    }
}

/// A raw coordinate as stored: decimal text with seven decimals.
pub open spec fn point_text(v: i64) -> Seq<char> {
    fixed_point_text_of(v as int, POINT_DECIMALS as nat)
}

/// The parameters of `INSERT_TRACK` for a row, in placeholder order.
pub open spec fn track_params(row: TrackRecord) -> Seq<Seq<char>> {
    seq![
        row.filename@,
        point_text(row.information.north_west_latitude),
        point_text(row.information.north_west_longitude),
        point_text(row.information.south_east_latitude),
        point_text(row.information.south_east_longitude),
        if row.is_empty_track {
            seq!['1']
        } else {
            seq!['0']
        },
        row.information.date@,
        row.information.activity_type@,
    ]
}

/// The parameters that store a track row with `INSERT_TRACK`.
pub fn track_insert_params(row: &TrackRecord) -> (r: Vec<String>)
    ensures
        r@.map_values(|s: String| s@) == track_params(*row),
{
    let info = &row.information;
    let mut out: Vec<String> = Vec::new();
    out.push(row.filename.clone());
    out.push(fixed_point_text(info.north_west_latitude, POINT_DECIMALS));
    out.push(fixed_point_text(info.north_west_longitude, POINT_DECIMALS));
    out.push(fixed_point_text(info.south_east_latitude, POINT_DECIMALS));
    out.push(fixed_point_text(info.south_east_longitude, POINT_DECIMALS));
    proof {
        reveal_strlit("1");
        reveal_strlit("0");
        assert("1"@ =~= seq!['1']);
        assert("0"@ =~= seq!['0']);
    }
    if row.is_empty_track {
        out.push("1".to_string());
    } else {
        out.push("0".to_string());
    }
    out.push(info.date.clone());
    out.push(info.activity_type.clone());
    assert(out@.map_values(|s: String| s@) =~= track_params(*row));
    out
}

/// Splits a heatmap delta into transactions of statements.
///
/// An empty table gets multi-row inserts, a table that already holds rows
/// gets upserts that add to the stored frequency. Either way every row of the
/// delta is written exactly once, in order.
pub fn plan_heatmap_write(table_is_empty: bool, delta: &Vec<HeatmapEntry>) -> (r: Vec<
    Vec<HeatmapWrite>,
>)
    ensures
        plan_rows(r@) == delta@,
        table_is_empty ==> is_bulk_plan(r@),
        !table_is_empty ==> is_upsert_plan(r@),
{
    let mut plan: Vec<Vec<HeatmapWrite>> = Vec::new();
    let mut transaction: Vec<HeatmapWrite> = Vec::new();
    let mut chunk: Vec<HeatmapEntry> = Vec::new();
    let n = delta.len();
    let mut i: usize = 0;
    proof {
        assert(delta@.subrange(0, 0) =~= Seq::<HeatmapEntry>::empty());
        assert(plan_rows(plan@) + transaction_rows(transaction@) + chunk@ =~= Seq::<
            HeatmapEntry,
        >::empty());
    }
    while i < n
        invariant
            n == delta@.len(),
            i <= n,
            plan_rows(plan@) + transaction_rows(transaction@) + chunk@ == delta@.subrange(
                0,
                i as int,
            ),
            table_is_empty ==> is_bulk_plan(plan@) && all_full(plan@, INSERTS_PER_TRANSACTION as int),
            table_is_empty ==> forall|a: int, b: int|
                0 <= a < plan@.len() && 0 <= b < plan@[a]@.len() ==> is_full_insert(
                    #[trigger] plan@[a]@[b],
                ),
            !table_is_empty ==> is_upsert_plan(plan@) && all_full(plan@, UPSERTS_PER_TRANSACTION as int),
            table_is_empty ==> transaction@.len() < INSERTS_PER_TRANSACTION,
            table_is_empty ==> chunk@.len() < ROWS_PER_INSERT,
            !table_is_empty ==> chunk@.len() == 0,
            !table_is_empty ==> transaction@.len() < UPSERTS_PER_TRANSACTION,
            table_is_empty ==> forall|j: int|
                0 <= j < transaction@.len() ==> is_full_insert(#[trigger] transaction@[j]),
            !table_is_empty ==> forall|j: int|
                0 <= j < transaction@.len() ==> (#[trigger] transaction@[j]) is Upsert,
        decreases n - i,
    {
        let e = delta[i];
        let ghost done = delta@.subrange(0, i as int);
        proof {
            assert(delta@.subrange(0, i as int + 1) =~= done.push(e));
        }
        if table_is_empty {
            chunk.push(e);
            if chunk.len() == ROWS_PER_INSERT {
                let full = chunk;
                chunk = Vec::new();
                let ghost t_before = transaction@;
                transaction.push(HeatmapWrite::Insert(full));
                proof {
                    assert(transaction@.drop_last() =~= t_before);
                }
                if transaction.len() == INSERTS_PER_TRANSACTION {
                    let t = transaction;
                    transaction = Vec::new();
                    let ghost p_before = plan@;
                    plan.push(t);
                    proof {
                        assert(plan@.drop_last() =~= p_before);
                    }
                }
            }
        } else {
            let ghost t_before = transaction@;
            transaction.push(HeatmapWrite::Upsert(e));
            proof {
                assert(transaction@.drop_last() =~= t_before);
                assert(write_rows(HeatmapWrite::Upsert(e)) =~= seq![e]);
            }
            if transaction.len() == UPSERTS_PER_TRANSACTION {
                let t = transaction;
                transaction = Vec::new();
                let ghost p_before = plan@;
                plan.push(t);
                proof {
                    assert(plan@.drop_last() =~= p_before);
                }
            }
        }
        proof {
            assert(plan_rows(plan@) + transaction_rows(transaction@) + chunk@ =~= done.push(e));
        }
        i = i + 1;
    }
    if chunk.len() > 0 {
        let ghost t_before = transaction@;
        transaction.push(HeatmapWrite::Insert(chunk));
        proof {
            assert(transaction@.drop_last() =~= t_before);
        }
    }
    if transaction.len() > 0 {
        let ghost p_before = plan@;
        plan.push(transaction);
        proof {
            assert(plan@.drop_last() =~= p_before);
            assert(plan@[plan@.len() - 1] == transaction);
        }
    }
    proof {
        assert(delta@.subrange(0, n as int) =~= delta@);
        assert(plan_rows(plan@) =~= delta@);
    }
    plan
}

} // verus!

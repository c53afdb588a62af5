use wherehaveibeen::{
    plan_heatmap_write, HeatmapCoordinate, HeatmapDatabase, HeatmapEntry, HeatmapWrite,
    TrackInformation,
};

fn entry(lat: i64, lon: i64, frequency: u64) -> HeatmapEntry {
    HeatmapEntry::new(lat, lon, frequency)
}

fn sorted(mut v: Vec<HeatmapEntry>) -> Vec<(i64, i64, u64)> {
    let mut out: Vec<(i64, i64, u64)> =
        v.drain(..).map(|e| (e.latitude, e.longitude, e.frequency)).collect();
    out.sort();
    out
}

#[test]
fn merges_accumulate() {
    let mut db = HeatmapDatabase::new();
    db.update_heatmap(&vec![entry(100, 200, 3)]);
    db.update_heatmap(&vec![entry(100, 200, 2)]);
    assert_eq!(db.frequency(100, 200), 5);
    assert_eq!(sorted(db.entries()), vec![(100, 200, 5)]);
}

#[test]
fn disjoint_merges_give_the_union() {
    let mut db = HeatmapDatabase::new();
    db.update_heatmap(&vec![entry(1, 1, 4), entry(2, 2, 1)]);
    db.update_heatmap(&vec![entry(3, 3, 7)]);
    assert_eq!(sorted(db.entries()), vec![(1, 1, 4), (2, 2, 1), (3, 3, 7)]);
    assert_eq!(db.frequency(9, 9), 0);
}

#[test]
fn merging_the_same_batch_twice_counts_it_twice() {
    let mut db = HeatmapDatabase::new();
    let batch = vec![entry(5, 5, 2)];
    db.update_heatmap(&batch);
    db.update_heatmap(&batch);
    assert_eq!(db.frequency(5, 5), 4);
}

#[test]
fn heatmap_query_excludes_edges() {
    let mut db = HeatmapDatabase::new();
    // keys in 1e-5 degrees: 1.00000, 2.00000 and 3.00000 degrees of latitude
    db.update_heatmap(&vec![
        entry(100_000, 100_000, 1),
        entry(200_000, 150_000, 2),
        entry(300_000, 150_000, 3),
    ]);
    assert!(!db.is_empty());
    // rectangle from latitude 1 to 3 and longitude 1 to 2, in 1e-7 degrees
    let query = TrackInformation::new(
        30_000_000,
        10_000_000,
        10_000_000,
        20_000_000,
        String::new(),
        String::new(),
    );
    assert_eq!(sorted(db.get_heatmap_inside_location(&query)), vec![(200_000, 150_000, 2)]);
}

#[test]
fn heatmap_entry_as_text() {
    let c = HeatmapCoordinate::from_entry(&entry(4_712_346, -854_321, 12));
    assert_eq!(c.latitude, "47.12346");
    assert_eq!(c.longitude, "-8.54321");
    assert_eq!(c.frequency, "12");
}

fn plan_rows(plan: &Vec<Vec<HeatmapWrite>>) -> Vec<HeatmapEntry> {
    let mut rows = Vec::new();
    for t in plan {
        for w in t {
            match w {
                HeatmapWrite::Insert(v) => rows.extend(v.iter().copied()),
                HeatmapWrite::Upsert(e) => rows.push(*e),
            }
        }
    }
    rows
}

#[test]
fn bulk_plan_chunks_rows() {
    let delta: Vec<HeatmapEntry> = (0..250_500).map(|i| entry(i, -i, 1)).collect();
    let plan = plan_heatmap_write(true, &delta);
    assert_eq!(plan.len(), 3);
    assert_eq!(plan[0].len(), 100);
    assert_eq!(plan[1].len(), 100);
    assert_eq!(plan[2].len(), 51);
    match &plan[2][50] {
        HeatmapWrite::Insert(rows) => assert_eq!(rows.len(), 500),
        HeatmapWrite::Upsert(_) => panic!("bulk plan holds an upsert"),
    }
    assert_eq!(plan_rows(&plan), delta);
}

#[test]
fn upsert_plan_batches_transactions() {
    let delta: Vec<HeatmapEntry> = (0..2_001).map(|i| entry(i, i, 2)).collect();
    let plan = plan_heatmap_write(false, &delta);
    assert_eq!(plan.iter().map(|t| t.len()).collect::<Vec<_>>(), vec![1000, 1000, 1]);
    assert_eq!(plan_rows(&plan), delta);
    assert!(plan_heatmap_write(false, &vec![]).is_empty());
    assert!(plan_heatmap_write(true, &vec![]).is_empty());
}

#[test]
fn statements_and_parameters() {
    let insert = HeatmapWrite::Insert(vec![entry(4_712_346, 854_321, 3), entry(-1, 0, 1)]);
    assert_eq!(
        insert.sql(),
        "INSERT INTO heatmap (frequency, latitude, longitude) VALUES (?, ?, ?),(?, ?, ?)"
    );
    assert_eq!(
        insert.params(),
        vec!["3", "47.12346", "8.54321", "1", "-0.00001", "0.00000"]
    );
    let upsert = HeatmapWrite::Upsert(entry(100, 200, 9));
    assert!(upsert.sql().contains("ON CONFLICT(latitude, longitude)"));
    assert_eq!(upsert.params(), vec!["0.00100", "0.00200", "9"]);
}

//! Geospatial extent indexing and frequency heatmap aggregation for GPS tracks.
//!
//! Raw coordinates are fixed-point integers in units of `10^-7` degrees;
//! heatmap keys are quantized to units of `10^-5` degrees. The stores keep
//! their rows in memory; `persist` turns writes into SQL statements and
//! parameters for the database that holds them between runs.

pub mod accumulator;
pub mod activity;
pub mod decimal;
pub mod environment;
pub mod extent;
pub mod frequency;
pub mod geo;
pub mod gz;
pub mod heatmap_store;
pub mod ingest;
pub mod model;
pub mod persist;
pub mod quantize;
pub mod track_store;

pub use accumulator::HeatmapAccumulator;
pub use activity::{parse_activity_type_conversions, sanitize_activity_type};
pub use decimal::{fixed_point_text, unsigned_text};
pub use environment::{
    get_activity_type_conversions, get_cache_directory, get_database_path, get_tracks_directory,
    ACTIVITY_TYPE_CONVERSIONS, CACHE_FOLDER, DATABASE_PATH, TRACKS_FOLDER,
};
pub use extent::{
    compute_bounds, extract_track_coordinates, extract_track_information, track_information_from,
    TrackError,
};
pub use geo::{overlaps, BoundingBox};
pub use gz::{decompress_gz, get_destination_path, DecompressError};
pub use heatmap_store::HeatmapDatabase;
pub use ingest::{ingest_all, ingest_file, TrackInput};
pub use model::{
    Coordinate, HeatmapCoordinate, HeatmapEntry, StringifiedCoordinate, TrackFile,
    TrackInformation, TrackPoint,
};
pub use persist::{
    plan_heatmap_write, track_insert_params, HeatmapWrite, CREATE_HEATMAP_INDEX,
    CREATE_HEATMAP_TABLE, CREATE_TRACKS_TABLE, CREATE_TRACK_COORDINATES_INDEX,
    CREATE_TRACK_FILENAME_INDEX, GET_ALL_HEATMAP, GET_ALL_TRACKS, INSERT_TRACK,
    INSERTS_PER_TRANSACTION, ROWS_PER_INSERT, UPSERTS_PER_TRANSACTION,
};
pub use quantize::{key_of, quantize, KEY_DECIMALS, POINT_DECIMALS};
pub use track_store::{TrackRecord, TracksDatabase};

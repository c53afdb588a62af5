use vstd::prelude::*;

verus! {

pub const DATABASE_PATH: &'static str = "tracks_database.db";

pub const CACHE_FOLDER: &'static str = ".//.cached_tracks";

pub const TRACKS_FOLDER: &'static str = "./data/tracks/";

/// Activity types as some devices write them, and the name each stands for.
pub const ACTIVITY_TYPE_CONVERSIONS: &'static str = r###"{
        "StandUpPaddling": "Stand Up Paddling",
        "IceSkate": "Ice Skate",
        "generic": "other",
        "hiking": "walking",
        "ebikeride": "cycling",
        "Biking": "cycling",
        "biking": "cycling",
        "1": "cycling",
        "Velomobile": "cycling"
    }"###;

/// The configured value where there is one, else the default.
fn setting_or_default(configured: Option<String>, default: &str) -> (r: String)
    ensures
        r@ == match configured {
            Some(v) => v@,
            None => default@,
        },
{
    match configured {
        Some(v) => v,
        None => default.to_string(),
    }
}

/// Path of the database file; `configured` is the `DATABASE_PATH` setting.
pub fn get_database_path(configured: Option<String>) -> (r: String)
    ensures
        r@ == match configured {
            Some(v) => v@,
            None => DATABASE_PATH@,
        },
{
    setting_or_default(configured, DATABASE_PATH)
}

/// Directory of the per-track coordinate files; `configured` is the
/// `CACHE_DIRECTORY` setting.
pub fn get_cache_directory(configured: Option<String>) -> (r: String)
    ensures
        r@ == match configured {
            Some(v) => v@,
            None => CACHE_FOLDER@,
        },
{
    setting_or_default(configured, CACHE_FOLDER)
}

/// Directory of the track files; `configured` is the `TRACKS_DIRECTORY` setting.
pub fn get_tracks_directory(configured: Option<String>) -> (r: String)
    ensures
        r@ == match configured {
            Some(v) => v@,
            None => TRACKS_FOLDER@,
        },
{
    setting_or_default(configured, TRACKS_FOLDER)
}

/// The activity type conversions as JSON; `configured` is the
/// `ACTIVITY_TYPE_CONVERSIONS` setting.
pub fn get_activity_type_conversions(configured: Option<String>) -> (r: String)
    ensures
        r@ == match configured {
            Some(v) => v@,
            None => ACTIVITY_TYPE_CONVERSIONS@,
        },
{
    setting_or_default(configured, ACTIVITY_TYPE_CONVERSIONS)
}

} // verus!

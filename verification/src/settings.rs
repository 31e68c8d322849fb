//! The tool's settings as plain values, their defaults, and the
//! conversions between the user-facing sensitivity words and the hash
//! distance threshold.

use vstd::prelude::*;

use crate::item_list::{DirectoryNames, SieveMethod};
use crate::text::{spec_parse_i64, str_eq};

verus! {

/// The persistent settings.
#[derive(Debug, Clone)]
pub struct Settings {
    /// The folder the collection is scanned from.
    pub source_directory: String,
    /// The folder kept files are sieved into.
    pub target_directory: String,
    /// How kept and discarded files are committed.
    pub sieve_method: SieveMethod,
    /// Whether the time-clustering pass runs.
    pub use_timestamps: bool,
    /// The largest gap, in seconds, within a time cluster.
    pub timestamp_max_diff: i64,
    /// Whether the hash-clustering pass runs.
    pub use_hash: bool,
    /// The largest hash distance of similar images.
    pub hash_max_diff: u32,
    /// How target folders are named.
    pub sieve_directory_names: Option<DirectoryNames>,
    /// The colour scheme choice.
    pub dark_mode: String,
}

impl Settings {
    /// The default settings.
    pub fn new() -> (r: Settings)
        ensures
            r.source_directory@ == Seq::<char>::empty(),
            r.target_directory@ == Seq::<char>::empty(),
            r.sieve_method == SieveMethod::Copy,
            r.use_timestamps == true,
            r.timestamp_max_diff == 5,
            r.use_hash == false,
            r.hash_max_diff == 14,
            r.sieve_directory_names == Some(DirectoryNames::YearAndMonth),
            r.dark_mode@ == "Automatic"@,
    {
        Settings {
            source_directory: String::new(),
            target_directory: String::new(),
            sieve_method: SieveMethod::Copy,
            use_timestamps: true,
            timestamp_max_diff: 5,
            use_hash: false,
            hash_max_diff: 14,
            sieve_directory_names: Some(DirectoryNames::YearAndMonth),
            dark_mode: String::from_str("Automatic"),
        }
    }
}

/// Parse the time-cluster threshold the user typed; not a number gives
/// none.
pub fn convert_timestamp_difference(timestamp_difference: &str) -> (r: Option<i64>)
    ensures
        r matches Some(v) ==> spec_parse_i64(timestamp_difference@) == Some(v as int),
        r is None ==> spec_parse_i64(timestamp_difference@) is None,
{
    crate::text::parse_i64(timestamp_difference)
}

/// The hash distance threshold a sensitivity word stands for; an unknown
/// word means the middle setting.
pub open spec fn spec_sensitivity_value(s: Seq<char>) -> u32 {
    if s == "Very low"@ {
        20
    } else if s == "Low"@ {
        16
    } else if s == "Medium"@ {
        14
    } else if s == "High"@ {
        12
    } else if s == "Very high"@ {
        10
    } else {
        14
    }
}

/// The hash distance threshold for a sensitivity word, as
/// `spec_sensitivity_value` states.
pub fn convert_sensitivity_to_u32(sensitivity: &str) -> (r: u32)
    ensures
        r == spec_sensitivity_value(sensitivity@),
{
    if str_eq(sensitivity, "Very low") {
        20
    } else if str_eq(sensitivity, "Low") {
        16
    } else if str_eq(sensitivity, "Medium") {
        14
    } else if str_eq(sensitivity, "High") {
        12
    } else if str_eq(sensitivity, "Very high") {
        10
    } else {
        14
    }
}

/// The sensitivity word for a hash distance threshold.
pub fn convert_u32_to_sensitivity(sensitivity: u32) -> (r: &'static str)
    ensures
        sensitivity >= 17 ==> r@ == "Very low"@,
        15 <= sensitivity <= 16 ==> r@ == "Low"@,
        13 <= sensitivity <= 14 ==> r@ == "Medium"@,
        11 <= sensitivity <= 12 ==> r@ == "High"@,
        sensitivity <= 10 ==> r@ == "Very high"@,
{
    if sensitivity >= 17 {
        "Very low"
    } else if sensitivity >= 15 {
        "Low"
    } else if sensitivity >= 13 {
        "Medium"
    } else if sensitivity >= 11 {
        "High"
    } else {
        "Very high"
    }
}

} // verus!

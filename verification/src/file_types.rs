//! Classification of paths by file extension into ordinary images, raw
//! camera images, HEIF images and videos.  The comparison ignores ASCII
//! case, as the original desktop file systems do.

use vstd::prelude::*;

use crate::paths::spec_extension;
use crate::text::{lower_seq, str_eq_lower};

verus! {

pub open spec fn is_image_ext(e: Seq<char>) -> bool {
    ||| lower_seq(e) == "jpg"@
    ||| lower_seq(e) == "png"@
    ||| lower_seq(e) == "tif"@
    ||| lower_seq(e) == "jpeg"@
    ||| lower_seq(e) == "jpe"@
    ||| lower_seq(e) == "gif"@
    ||| lower_seq(e) == "bmp"@
    ||| lower_seq(e) == "webp"@
    ||| lower_seq(e) == "tiff"@
    ||| lower_seq(e) == "jxl"@
}

pub open spec fn is_raw_ext(e: Seq<char>) -> bool {
    ||| lower_seq(e) == "mrw"@
    ||| lower_seq(e) == "arw"@
    ||| lower_seq(e) == "srf"@
    ||| lower_seq(e) == "sr2"@
    ||| lower_seq(e) == "mef"@
    ||| lower_seq(e) == "orf"@
    ||| lower_seq(e) == "srw"@
    ||| lower_seq(e) == "erf"@
    ||| lower_seq(e) == "kdc"@
    ||| lower_seq(e) == "dcs"@
    ||| lower_seq(e) == "rw2"@
    ||| lower_seq(e) == "raf"@
    ||| lower_seq(e) == "dcr"@
    ||| lower_seq(e) == "dng"@
    ||| lower_seq(e) == "pef"@
    ||| lower_seq(e) == "crw"@
    ||| lower_seq(e) == "raw"@
    ||| lower_seq(e) == "iiq"@
    ||| lower_seq(e) == "3fr"@
    ||| lower_seq(e) == "nrw"@
    ||| lower_seq(e) == "nef"@
    ||| lower_seq(e) == "mos"@
    ||| lower_seq(e) == "cr2"@
    ||| lower_seq(e) == "ari"@
}

pub open spec fn is_video_ext(e: Seq<char>) -> bool {
    ||| lower_seq(e) == "mp4"@
    ||| lower_seq(e) == "mp4v"@
    ||| lower_seq(e) == "mpeg4"@
    ||| lower_seq(e) == "avi"@
    ||| lower_seq(e) == "mts"@
    ||| lower_seq(e) == "mov"@
    ||| lower_seq(e) == "mpeg"@
    ||| lower_seq(e) == "mpg"@
    ||| lower_seq(e) == "mjpeg"@
    ||| lower_seq(e) == "mjpg"@
    ||| lower_seq(e) == "mjp"@
    ||| lower_seq(e) == "mp2v"@
}

pub open spec fn is_heif_ext(e: Seq<char>) -> bool {
    ||| lower_seq(e) == "heic"@
    ||| lower_seq(e) == "heif"@
}

pub open spec fn spec_is_image(path: Seq<char>) -> bool {
    spec_extension(path) matches Some(e) && is_image_ext(e)
}

pub open spec fn spec_is_raw_image(path: Seq<char>) -> bool {
    spec_extension(path) matches Some(e) && is_raw_ext(e)
}

pub open spec fn spec_is_video(path: Seq<char>) -> bool {
    spec_extension(path) matches Some(e) && is_video_ext(e)
}

pub open spec fn spec_is_heif_image(path: Seq<char>) -> bool {
    spec_extension(path) matches Some(e) && is_heif_ext(e)
}

pub open spec fn spec_is_any(path: Seq<char>) -> bool {
    ||| spec_is_image(path)
    ||| spec_is_video(path)
    ||| spec_is_raw_image(path)
    ||| spec_is_heif_image(path)
}

/// Whether the path names an ordinary image file.
pub fn is_image(path: &str) -> (r: bool)
    ensures
        r == spec_is_image(path@),
{
    match crate::paths::extension(path) {
        Some(e) => str_eq_lower(e, "jpg") || str_eq_lower(e, "png") || str_eq_lower(e, "tif")
            || str_eq_lower(e, "jpeg") || str_eq_lower(e, "jpe") || str_eq_lower(e, "gif")
            || str_eq_lower(e, "bmp") || str_eq_lower(e, "webp") || str_eq_lower(e, "tiff")
            || str_eq_lower(e, "jxl"),
        None => false,
    }
}

/// Whether the path names a raw camera image file.
pub fn is_raw_image(path: &str) -> (r: bool)
    ensures
        r == spec_is_raw_image(path@),
{
    match crate::paths::extension(path) {
        Some(e) => str_eq_lower(e, "mrw") || str_eq_lower(e, "arw") || str_eq_lower(e, "srf")
            || str_eq_lower(e, "sr2") || str_eq_lower(e, "mef") || str_eq_lower(e, "orf")
            || str_eq_lower(e, "srw") || str_eq_lower(e, "erf") || str_eq_lower(e, "kdc")
            || str_eq_lower(e, "dcs") || str_eq_lower(e, "rw2") || str_eq_lower(e, "raf")
            || str_eq_lower(e, "dcr") || str_eq_lower(e, "dng") || str_eq_lower(e, "pef")
            || str_eq_lower(e, "crw") || str_eq_lower(e, "raw") || str_eq_lower(e, "iiq")
            || str_eq_lower(e, "3fr") || str_eq_lower(e, "nrw") || str_eq_lower(e, "nef")
            || str_eq_lower(e, "mos") || str_eq_lower(e, "cr2") || str_eq_lower(e, "ari"),
        None => false,
    }
}

/// Whether the path names a video file.
pub fn is_video(path: &str) -> (r: bool)
    ensures
        r == spec_is_video(path@),
{
    match crate::paths::extension(path) {
        Some(e) => str_eq_lower(e, "mp4") || str_eq_lower(e, "mp4v") || str_eq_lower(e, "mpeg4")
            || str_eq_lower(e, "avi") || str_eq_lower(e, "mts") || str_eq_lower(e, "mov")
            || str_eq_lower(e, "mpeg") || str_eq_lower(e, "mpg") || str_eq_lower(e, "mjpeg")
            || str_eq_lower(e, "mjpg") || str_eq_lower(e, "mjp") || str_eq_lower(e, "mp2v"),
        None => false,
    }
}

/// Whether the path names a HEIF image file.
pub fn is_heif_image(path: &str) -> (r: bool)
    ensures
        r == spec_is_heif_image(path@),
{
    match crate::paths::extension(path) {
        Some(e) => str_eq_lower(e, "heic") || str_eq_lower(e, "heif"),
        None => false,
    }
}

/// Whether the path names any file kind the tool tracks.
pub fn is_any(path: &str) -> (r: bool)
    ensures
        r == spec_is_any(path@),
{
    is_image(path) || is_video(path) || is_raw_image(path) || is_heif_image(path)
}

} // verus!

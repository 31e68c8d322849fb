//! The orientation of a picture and the capability interface through which
//! a file item's capture time and orientation are resolved.  Callers pick
//! an implementation per source kind (plain file, image metadata, video
//! container, raw sensor format) and hand it to the item constructor.

use vstd::prelude::*;

verus! {

/// Image orientation.
#[derive(Debug, PartialEq, Eq, Structural, Clone, Copy)]
pub enum Orientation {
    Landscape,
    Portrait90,
    Landscape180,
    Portrait270,
}

/// Resolves the capture timestamp and the orientation of a file.  Nothing
/// is promised of the results: the engine is verified for every answer an
/// implementation can give.
pub trait PropertyResolver {
    /// The capture timestamp, in seconds since the Unix epoch.
    fn get_timestamp(&self) -> i64;

    /// The orientation, where the source records one.
    fn get_orientation(&self) -> Option<Orientation>;
}

} // verus!

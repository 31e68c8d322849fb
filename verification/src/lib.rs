//! Core engine of a photo/video de-duplication and filing tool.
//!
//! The library owns the pure logic: a bounded recency-evicting cache, the
//! similarity clustering over file items (by capture time and by perceptual
//! hash distance), the sieve/commit planning that files items into dated or
//! event-named folders with collision-safe naming, and the queue discipline
//! of the prioritized background image loader.  All file system work, image
//! decoding and GUI binding is left to callers behind small capability
//! traits and plain-value interfaces.

pub mod commit;
pub mod dates;
pub mod event;
pub mod image_cache;
pub mod file_item;
pub mod item_list;
pub mod item_traits;
pub mod lru_map;
pub mod file_types;
pub mod paths;
pub mod resize;
pub mod settings;
pub mod sieve;
pub mod text;
pub mod timestamp;

pub use dates::Date;
pub use event::Event;
pub use file_item::{FileItem, ItemType};
pub use item_list::{DirectoryNames, ItemList, SieveMethod};
pub use item_traits::Orientation;
pub use timestamp::{timestamp_to_string, Format};

//! Grouping of a multi-camera recorder's segment files into events, and the
//! planning of the per-camera concatenations and of the 2x2 mosaic that a
//! video backend then carries out.

mod camera;
mod clip;
mod path;
mod playlist;
mod stamp;

pub use camera::{Camera, CameraFile};
pub use clip::{
    BackendExit, ClipError, ConcatJob, MosaicJob, SentryClip, FILTER_HEAD, FILTER_TAIL,
    MOSAIC_SLOTS,
};
pub use path::{file_name, join, parent};
pub use playlist::playlist_text;
pub use stamp::{decimal_text, parse_folder_stamp, Timestamp, COMPACT_STAMP, FOLDER_STAMP};

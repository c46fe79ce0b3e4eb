//! Verified core of a media-library housekeeping tool.
//!
//! The heart of the crate is the contact-sheet pipeline: scene-aware and
//! uniform timestamp selection, single/batched frame-extraction planning
//! with multi-level fallback, and grid assembly.  Time is modelled in
//! whole milliseconds throughout; the surrounding (unverified) binary
//! converts to and from the decoder's decimal-seconds syntax using the
//! verified formatters in [`strfmt`].

pub mod batch_extractor;
pub mod components;
pub mod config;
pub mod contact_sheet_merger;
pub mod duplication;
pub mod encoder;
pub mod ffprobe_info;
pub mod file_grouper;
pub mod filename_cleaner;
pub mod hash_table;
pub mod pathtext;
pub mod scene_detector;
pub mod strfmt;
pub mod thumbnail_extractor;
pub mod timestamp_selector;
pub mod uniform_selector;
pub mod video_scanner;

use vstd::prelude::*;

verus! {

/// Width of one thumbnail tile in pixels.
pub const THUMBNAIL_WIDTH: u32 = 320;

/// Height of one thumbnail tile in pixels.
pub const THUMBNAIL_HEIGHT: u32 = 180;

} // verus!

//! Detection of a newly attached removable storage volume.
//!
//! The library keeps a baseline snapshot of mounted-volume paths and, on
//! each poll, diffs a fresh enumeration against that baseline: no new
//! entry means no change, exactly one new entry names the new volume, and
//! more than one is refused as ambiguous. Parsing of raw directory-listing
//! output and the per-platform dispatch rules live here as well; the
//! process spawning and file I/O that feed them stay with the caller.

pub mod parse;
pub mod usb;

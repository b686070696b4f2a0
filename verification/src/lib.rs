//! Catalog normalization, playlist filtering, LRU cache bookkeeping and the
//! download-window rules behind the Aerial wallpaper.
use vstd::prelude::*;

pub mod assoc;
pub mod foreign;
pub mod text;
pub mod manifest;
pub mod archive;
pub mod cache;
pub mod qml;
pub mod laws;

verus! {

/// Seconds-to-nanoseconds factor used by the download window.
pub const NANOS_PER_SECOND: u64 = 1_000_000_000;

} // verus!

//! The server side: scanning, probing, renaming and metadata lookups.
pub mod types;
pub mod scan;
pub mod rename;
pub mod tvmaze;
pub mod dvdcompare;
pub mod ffprobe;
pub mod preview;
pub mod error;

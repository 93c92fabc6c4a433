//! Verified core of a bulk video-file labelling and renaming tool.
pub mod text;
pub mod paths;
pub mod urlenc;
pub mod scrape;
pub mod backend;
pub mod frontend;

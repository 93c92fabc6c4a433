//! The browser side: its records, its state and what its panels show.
pub mod types;
pub mod mappings;

pub mod state;
pub mod api;
pub mod view;
pub mod events;

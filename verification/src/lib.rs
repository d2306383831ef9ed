//! Overlay listing, grouping and navigation logic of the overlay manager.

pub mod text;
pub mod parsers;
pub mod shell;
pub mod app;
pub mod keys;
pub mod view;
pub mod events;

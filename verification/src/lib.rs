//! Builds the AHQ Store database of AppImage applications: the decisions,
//! formats and text rules of the builder, with their contracts.
pub mod db;
pub mod disposition;
pub mod load;
pub mod outside;
pub mod pattern;
pub mod release;
pub mod store;
pub mod structs;
pub mod text;

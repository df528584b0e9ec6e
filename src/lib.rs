//! Assembles a PLEXOS solution catalog into the relational model that the
//! columnar database writer consumes: entity tables, derived counts and
//! bands, timestamp blocks, the grouping of time-series keys into data
//! tables, and the rows that each data table receives.
pub mod archive;
pub mod catalog;
pub mod datetime;
pub mod laws;
pub mod load;
pub mod model;
pub mod naming;
pub mod parse;
pub mod plan;
pub mod progress;
pub mod rows;
pub mod sql;
pub mod table;
pub mod text;
pub mod utils;
pub mod views;
pub mod xml;

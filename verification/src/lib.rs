//! Verified NMEA 0183 sentence parsing.
pub mod text;
pub mod number;
pub mod error;
pub mod str_parser;
pub mod time;
pub mod rules;
pub mod data;
pub mod fields;
pub mod filters;
pub mod generic;
pub mod nmea_data;
pub mod context;
pub mod layout;
pub mod field_laws;

//! Typed model of a point weather forecast: parameter decoding, the
//! report structure with per-hour lookup by parameter name, and the rows
//! of a forecast table.

pub mod decimal;
pub mod error;
pub mod parameter;
pub mod report;
pub mod table;
pub mod text;
pub mod time;
pub mod types;

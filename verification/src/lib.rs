//! Verified core of an `npm audit` report renderer: the report's data model,
//! severity filtering and ordering, dependency-chain discovery and the text
//! that the report is made of.

pub mod text;
pub mod name_map;
pub mod models;
pub mod chains;
pub mod style;
pub mod display;
pub mod audit;

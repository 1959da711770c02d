//! Database layer: the rows kept for cached GitHub data, and the logic of the
//! queries over them (the SQL text, statistics, refresh decisions).
pub mod models;
pub mod queries;

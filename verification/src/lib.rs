//! Verified core of the DDNet statistics tooling: snapshot tallies of the
//! master-server dumps, play-time accumulation, the CSV-diff synchronisation
//! plan and the historical ranked-points computation.

pub mod calendar;
pub mod database_sync;
pub mod dump;
pub mod keyed;
pub mod master_parser;
pub mod master_parser_standalone;
pub mod playtime;
pub mod ranked_points;
pub mod tally;
pub mod text;

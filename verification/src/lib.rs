//! Skill ratings for players of a competitive game: the rating model, the
//! period scheduler, the batch updater with its watermarks, the derived
//! leaderboard tables, and the shaping of all of these for display.
//!
//! Every quantity that is fractional by nature is held as a signed integer
//! count of millionths, so that each result is exact and reproducible.

pub mod anomaly;
pub mod buckets;
pub mod charts;
pub mod clock;
pub mod curves;
pub mod distribution;
pub mod engine;
pub mod experience;
pub mod fixed;
pub mod floors;
pub mod glicko;
pub mod graphs;
pub mod history;
pub mod intake;
pub mod matchups;
pub mod ordering;
pub mod profile;
pub mod ranking;
pub mod rater;
pub mod records;
pub mod scheduler;
pub mod site;
pub mod spread;
pub mod tables;
pub mod text;

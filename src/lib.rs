//! Record stores for a learning platform: users, courses, certificates,
//! questions and answers, study groups and a token ledger, each kept
//! consistent with its secondary views on every write.

pub mod error;
pub mod identity;
pub mod ids;
pub mod counters;
pub mod table;
pub mod index;
pub mod ranking;
pub mod votes;
pub mod ledger;
pub mod peer;
pub mod groups;
pub mod courses;
pub mod certificates;
pub mod users;

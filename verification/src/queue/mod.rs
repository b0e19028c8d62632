//! The queue: its rules, its lease and its rows.

pub mod entering;
pub mod laws;
pub mod lease;
pub mod ledger;
pub mod listing;
pub mod model;
pub mod outcome;
pub mod rows;
pub mod state;
pub mod store;
pub mod tenure;

pub use lease::Acquisition;
pub use lease::Lease;
pub use lease::Liveness;
pub use lease::Reclaimed;
pub use model::bisect;
pub use model::EntryId;
pub use model::Verdict;
pub use outcome::Outcome;
pub use state::CandidateState;
pub use state::EntryState;

//! A local merge queue: batch, gate, fast-forward.

pub mod assembly;
pub mod bytes;
pub mod complaints;
pub mod config;
pub mod db;
pub mod failure;
pub mod gate;
pub mod git;
pub mod keeping;
pub mod laws;
pub mod logs;
pub mod notify;
pub mod passage;
pub mod pruning;
pub mod queue;
pub mod report;
pub mod requests;
pub mod retention;
pub mod seqs;
pub mod settings;
pub mod taking;
pub mod telling;
pub mod text;
pub mod tick;
pub mod time;
pub mod wording;
pub mod worker;

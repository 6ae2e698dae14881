//! Local mail retrieval: subject-derived file names, a store of known
//! message ids, and the decisions of one fetch cycle.
pub mod config;
pub mod mailbox;
pub mod store;
pub mod subject;
pub mod text;

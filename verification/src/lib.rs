//! Buyer-side adapter logic for a decentralised job network: request
//! correlation, cached search fan-in, catalogue ingestion, change-detected
//! synchronisation, match scoring decisions and event handling, with the
//! behaviour of every function stated as a contract and proved.

pub mod applications;
pub mod batching;
pub mod callflow;
pub mod catalogue;
pub mod codec;
pub mod config;
pub mod correlator;
pub mod drafts;
pub mod embedding;
pub mod events;
pub mod grouping;
pub mod hash;
pub mod ids;
pub mod keys;
pub mod matches;
pub mod matching;
pub mod models;
pub mod notify;
pub mod payload;
pub mod query;
pub mod reconcile;
pub mod schedule;
pub mod scoring;
pub mod search;
pub mod seqs;
pub mod store;
pub mod sweep;
pub mod sync;
pub mod json;
pub mod text;

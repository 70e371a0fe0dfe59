//! Positional measurements over encoded text: preprocessing, encodings,
//! event maps, null-model generators, prime utilities and alert rules.
pub mod text;
pub mod types;
pub mod primes;
pub mod nulls;
pub mod encode;
pub mod metrics;
pub mod pipeline;
pub mod corpus;
pub mod report;
pub mod config;
pub mod cli;

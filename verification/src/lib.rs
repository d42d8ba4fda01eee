//! Verified core of the Wildside data pipeline.
//!
//! The crate holds the decision logic of the OpenStreetMap ingestion, the
//! Wikidata dump selection and claim extraction, the claim persistence plan
//! and the popularity signal parsing. Input and output (files, HTTP, SQLite,
//! JSON decoding) stay with the caller, which hands plain values in and takes
//! plain values back.

pub mod foreign;
pub mod fs;
pub mod ids;
pub mod text;
pub mod poi;
pub mod accumulator;
pub mod sort;
pub mod routing;
pub mod scorer;
pub mod etl;
pub mod urls;
pub mod dump;
pub mod source;
pub mod download;
pub mod store;

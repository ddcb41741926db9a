//! Bulk loading of domain-registration records into a document store.
//!
//! Records are read from delimited text, which comes from the files of a
//! directory or from the members of a downloaded archive; they are split
//! into bounded batches, and each batch is merged into the store by domain
//! name, so that loading the same input again leaves one entity for each
//! domain. A run is a machine of states and events: this library makes the
//! decisions, and its caller reads the inputs and writes to the store.
//!
//! - [`whois`] reads records from text, [`document`] gives them the shape
//!   in which the store keeps them, and [`display`] writes them out;
//! - [`source`] and [`daily`] list the inputs;
//! - [`batch`] splits records into batches and [`db`] says what merging a
//!   batch asks of the store and does to it;
//! - [`coordinator`] bounds how many units of work run at once, and
//!   [`pipeline`] is the run as a whole;
//! - [`store`] is a store in memory, and [`config`] the parameters of a run.

pub mod batch;
pub mod config;
pub mod coordinator;
pub mod daily;
pub mod db;
pub mod display;
pub mod document;
pub mod error;
pub mod pipeline;
pub mod rows;
pub mod source;
pub mod store;
pub mod text;
pub mod whois;

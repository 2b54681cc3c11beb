//! A small metrics store: it reads samples from lines of exposition text,
//! keeps one time series for every metric name in memory, and answers
//! lookups by exact name.
//!
//! The store has one owner. Everything else talks to the owner in messages:
//! a batch of scraped lines to store, a query for a series, the result of a
//! query. The modules follow the path of the data:
//!
//! - [`scrape`] splits a fetched payload into the lines of a batch;
//! - [`metrics`] reads a sample from a line, on the grammar of [`number`]
//!   and with the scanning of [`text`]; [`line_laws`] states what the reader
//!   guarantees on whole lines;
//! - [`storage`] holds the series, and [`storage_error`] reports a line that
//!   was turned away;
//! - [`command`] defines the messages, [`manager`] applies them to the
//!   store, and [`gateway`] decides for the query endpoint what to ask and
//!   which answer is its own.
//!
//! Fetching, serving and waiting are left to the program around this
//! library; so is the conversion of a stored value, which is kept as the
//! numeric literal that the line carried, into a machine number.

mod clock;
pub mod command;
pub mod gateway;
pub mod line_laws;
pub mod manager;
pub mod metrics;
pub mod number;
pub mod scrape;
pub mod storage;
pub mod storage_error;
pub mod text;

//! Reconciles the request and response events of an access log and folds
//! the matched pairs into latency and error-rate statistics.
//!
//! A run goes through four stages, each of which can be used alone:
//!
//! - [`log_parser`] reads a line of the log as a request or a response;
//! - [`request_response_matcher`] pairs each request with the response of
//!   the same id, whichever of the two comes first;
//! - [`filter`] tells which pairs are to be counted;
//! - [`analyzer`] folds the pairs into the statistics of [`result`].
//!
//! [`pipeline`] puts the four together, line by line or for all lines at
//! once, and [`render`] reports a result to the terminal, Graphite, InfluxDB
//! and Prometheus. [`args`] holds the settings of a run and [`multi_file`]
//! the order in which several input files are read.
//!
//! [`matcher_laws`] states what holds of every run of the matcher.
//! [`text`], [`number`], [`time`] and [`id_queues`] are what the stages are
//! built on.

pub mod analyzer;
pub mod args;
pub mod error_analyzer;
pub mod filter;
pub mod id_queues;
pub mod log_parser;
pub mod matcher_laws;
pub mod multi_file;
pub mod number;
pub mod pipeline;
pub mod render;
pub mod request_response_matcher;
pub mod result;
pub mod text;
pub mod time;

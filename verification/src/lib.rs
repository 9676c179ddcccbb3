//! Replay of a query corpus against an HTTP endpoint, the structured log of
//! what came back, and the comparison of two such logs.
//!
//! The crate holds the logic only: what to send next, how a row of the log is
//! laid out and read back, and how two logs are reconciled. Sockets, files and
//! threads belong to the program around it.
//!
//! - [`types`] holds the corpus and the references into it, [`plan`] the
//!   order in which a run sends its queries and the repetition of each.
//! - [`scheduler`] decides what a run does next, [`run_query`] what is kept
//!   of one response, and [`pool`] keeps the handles that requests reuse.
//! - [`log_csv`] lays out and reads the rows of a log; [`my_crc`],
//!   [`status`] and [`time`] hold what stands in its columns.
//! - [`reconcile`] holds one or two logs against each other.
//! - [`decimal`], [`text`], [`auto_vec`], [`cowstr`] and [`util`] are the
//!   tools of the others.

pub mod auto_vec;
pub mod cowstr;
pub mod decimal;
pub mod log_csv;
pub mod my_crc;
pub mod plan;
pub mod pool;
pub mod reconcile;
pub mod run_query;
pub mod scheduler;
pub mod status;
pub mod text;
pub mod time;
pub mod types;
pub mod util;

//! Ranks the pages of a web application by how long their requests take.
//!
//! A request line of the log names its route, controller and action and three
//! timings. Each line that holds all of them becomes a [`perf_info::PerfInfo`];
//! the records of one page are folded into a running aggregate; and the
//! aggregates are ranked, slowest page first.
//!
//! Timings are held in microseconds, as whole numbers.

pub mod aggregate;
pub mod micros;
pub mod order;
pub mod pattern;
pub mod perf_info;
pub mod rank;
pub mod report;
pub mod row;
pub mod text;
pub mod text_extractor;
pub mod valid_line_extractor;

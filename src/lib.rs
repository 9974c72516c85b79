//! A row-dispatch engine for computing a square field of escape times: rows
//! go to a fixed pool of workers in increasing order, finished rows come back
//! in any order and are written once each, and a completion watermark marks
//! the prefix of the field that is safe to read.
pub mod dispatcher;
pub mod engine;
pub mod report;
pub mod watermark;

pub use dispatcher::{Cell, DispatchAction, DispatchError, Dispatcher, WorkerEvent};
pub use engine::{compute_row, run};
pub use watermark::CompletionWatermark;

//! Typed queues retain accepted batches until their writer acknowledges success.
//! The PostgreSQL writer owns deadlines, atomic receipts and failure diagnostics.
//! Storage is volatile: process termination and adapter panics are not recoverable.

pub mod admission;
pub mod clock;
pub mod depth;
pub mod inbox;
pub mod json;
pub mod postgres;
pub mod queue;
pub mod shared;
pub mod telemetry;
pub mod text;
pub mod timeouts;
pub mod worker;

pub use admission::{Admission, EnqueueGuard};
pub use clock::{Deadline, Moment};
pub use queue::{BatchIdentity, BatchInfo, BatchQueue, FlushOutcome, Queued, ReceiptId};
pub use timeouts::{TimeoutConfigError, WriteTimeouts};
pub use worker::{WorkerCadence, WorkerEvent};

//! What the PostgreSQL writer decides and computes.

pub mod diagnostics;
pub mod nul_recovery;
pub mod session;
pub mod writer;

pub use diagnostics::WriteFailure;
pub use writer::PreparedBatch;

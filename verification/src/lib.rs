//! A supervisor's bookkeeping for worker processes: the ordered registry of
//! workers, the roster file that lets it be restored, the framing of captured
//! output into per-worker logs, the command language that drives it and the
//! table that shows its state.
//!
//! Everything here works on plain values. Text is held as bytes; starting and
//! stopping processes and touching files is left to the caller, who reports
//! the outcome back.

pub mod command;
pub mod dispatch;
pub mod registry;
pub mod sink;
pub mod store;
pub mod table;
pub mod text;

//! Buffered shipping of structured log records to a log collector.
//!
//! Producers hand records to a dispatch engine, which gathers them into
//! batches and decides, from batch size, batch age and record severity,
//! when to pass them on to a downstream [`Sender`].
mod buffer;
mod error;
mod laws;
mod level;
mod model;
mod record;

pub use buffer::{
    batch_failed, failed_at, flow_of, step_spec, Command, DispatchEngine, Flow, Received, Sender,
};
pub use error::Error;
pub use laws::{
    lemma_bypass_sent_alone, lemma_close_no_drain, lemma_flush_empty, lemma_full_batches,
    lemma_full_batches_run, lemma_lifetime_drain, lemma_order_kept, lemma_unbuffered, batched,
    is_record_command, msg_records, run_records, run_spec, urgent,
};
pub use level::Level;
pub use model::{
    accept_all_spec, accept_spec, batch_below, batch_ok, bypasses, deadline_ok, delivered, delivery_records, drain_spec,
    rearm_spec, saturating_add, timeout_spec, Delivery, DispatchState, Policy,
};
pub use record::{json_string, LogStashRecord, METADATA_PREFIX};

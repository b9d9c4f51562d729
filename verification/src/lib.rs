//! A log-forwarding pipeline: events carrying a configured marker field
//! are routed by the marker's value to a destination index, batched per
//! destination, and serialized as newline-delimited JSON bodies for HTTP
//! ingestion, with close-time draining of every non-empty buffer.

mod assoc;
mod builder;
mod layer;
mod message;
mod ndjson;
mod pipeline;
mod queue;
mod router;
mod value;
mod visitor;
mod worker;

pub use assoc::has_key;
pub use assoc::key_at;
pub use assoc::keys_unique;
pub use assoc::lookup_of;
pub use assoc::upserted;
pub use assoc::value_of;
pub use builder::DEFAULT_LOGGING_BUFFER_SIZE;
pub use builder::DEFAULT_QUEUE_CAPACITY;
pub use builder::QuickwitLoggingLayerBuilder;
pub use layer::CaptureOutcome;
pub use layer::QuickwitLoggingLayer;
pub use layer::marker_of;
pub use message::LogRecord;
pub use message::MsgView;
pub use message::QuickwitLogMessage;
pub use message::msg_views;
pub use message::records_view;
pub use ndjson::dec_str;
pub use ndjson::escaped_char;
pub use ndjson::escaped_text;
pub use ndjson::hex_digit;
pub use ndjson::json_of_entry;
pub use ndjson::json_of_fields;
pub use ndjson::json_of_record;
pub use ndjson::json_of_value;
pub use ndjson::json_string;
pub use ndjson::ndjson_body;
pub use ndjson::ndjson_line;
pub use ndjson::ndjson_of;
pub use ndjson::serialize;
pub use pipeline::batches_of;
pub use pipeline::dest_payloads;
pub use pipeline::flush_of_batch;
pub use pipeline::flushes_for;
pub use pipeline::full_batches;
pub use pipeline::lemma_batch_sizes;
pub use pipeline::lemma_batches_flatten;
pub use pipeline::lemma_payload_delivered;
pub use pipeline::pending_tail;
pub use queue::DequeueOutcome;
pub use queue::EnvelopeQueue;
pub use router::RoutingTable;
pub use value::LogValue;
pub use value::LogValueV;
pub use visitor::LogVisitor;
pub use visitor::TargetFieldVisitor;
pub use worker::FlushRequest;
pub use worker::FlushView;
pub use worker::QuickwitWorker;
pub use worker::flush_views;
pub use worker::flushes_to;
pub use worker::ingest_endpoint;
pub use worker::ingest_url;

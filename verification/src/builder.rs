use vstd::prelude::*;

use crate::assoc::keys_unique;
use crate::assoc::upserted;
use crate::layer::QuickwitLoggingLayer;
use crate::queue::EnvelopeQueue;
use crate::router::RoutingTable;
use crate::worker::QuickwitWorker;

verus! {

/// The flush threshold used when none is configured.
pub const DEFAULT_LOGGING_BUFFER_SIZE: usize = 10;

/// The envelope queue capacity used when none is configured.
pub const DEFAULT_QUEUE_CAPACITY: usize = 500;

/// Accumulates the pipeline's configuration, immutable once built: the
/// backend base, the marker field, the routing table, the flush
/// threshold, the queue capacity, and an optional expected event count
/// for test observers.
pub struct QuickwitLoggingLayerBuilder {
    quickwit_url: String,
    target_field: String,
    field_to_index: RoutingTable,
    batch_size: usize,
    queue_capacity: usize,
    expected_emitted_events_count: usize,
}

impl QuickwitLoggingLayerBuilder {
    /// The configured backend base.
    pub closed spec fn base_url(self) -> Seq<char> {
        self.quickwit_url@
    }

    /// The configured marker field name.
    pub closed spec fn marker_name(self) -> Seq<char> {
        self.target_field@
    }

    /// The routing table's entries.
    pub closed spec fn routes(self) -> Seq<(Seq<char>, Seq<char>)> {
        self.field_to_index@
    }

    /// The configured flush threshold.
    pub closed spec fn batch_size_cfg(self) -> int {
        self.batch_size as int
    }

    /// The configured queue capacity.
    pub closed spec fn queue_capacity_cfg(self) -> int {
        self.queue_capacity as int
    }

    /// The configured expected event count.
    pub closed spec fn expected_count_cfg(self) -> int {
        self.expected_emitted_events_count as int
    }

    pub open spec fn wf(self) -> bool {
        keys_unique(self.routes())
    }

    pub fn new(quickwit_url: String) -> (r: Self)
        ensures
            r.wf(),
            r.base_url() == quickwit_url@,
            r.marker_name() == Seq::<char>::empty(),
            r.routes() =~= Seq::<(Seq<char>, Seq<char>)>::empty(),
            r.batch_size_cfg() == DEFAULT_LOGGING_BUFFER_SIZE,
            r.queue_capacity_cfg() == DEFAULT_QUEUE_CAPACITY,
            r.expected_count_cfg() == 0,
    {
        let r = QuickwitLoggingLayerBuilder {
            quickwit_url,
            target_field: String::new(),
            field_to_index: RoutingTable::new(),
            batch_size: DEFAULT_LOGGING_BUFFER_SIZE,
            queue_capacity: DEFAULT_QUEUE_CAPACITY,
            expected_emitted_events_count: 0,
        };
        r
    }

    /// Configure the marker field: the one field whose string value
    /// routes an event.
    pub fn marker_field(self, field: String) -> (r: Self)
        requires
            self.wf(),
        ensures
            r.wf(),
            r.marker_name() == field@,
            r.base_url() == self.base_url(),
            r.routes() == self.routes(),
            r.batch_size_cfg() == self.batch_size_cfg(),
            r.queue_capacity_cfg() == self.queue_capacity_cfg(),
            r.expected_count_cfg() == self.expected_count_cfg(),
    {
        QuickwitLoggingLayerBuilder { target_field: field, ..self }
    }

    /// Map one marker value to a destination index; a repeated marker
    /// value replaces the earlier destination.
    pub fn map_marker_to_index(self, field_value: String, index_id: String) -> (r: Self)
        requires
            self.wf(),
        ensures
            r.wf(),
            r.routes() == upserted(self.routes(), field_value@, index_id@),
            r.base_url() == self.base_url(),
            r.marker_name() == self.marker_name(),
            r.batch_size_cfg() == self.batch_size_cfg(),
            r.queue_capacity_cfg() == self.queue_capacity_cfg(),
            r.expected_count_cfg() == self.expected_count_cfg(),
    {
        let mut table = self.field_to_index;
        table.insert(field_value, index_id);
        QuickwitLoggingLayerBuilder { field_to_index: table, ..self }
    }

    /// Configure the flush threshold.
    pub fn with_batch_size(self, batch_size: usize) -> (r: Self)
        requires
            self.wf(),
        ensures
            r.wf(),
            r.batch_size_cfg() == batch_size,
            r.base_url() == self.base_url(),
            r.marker_name() == self.marker_name(),
            r.routes() == self.routes(),
            r.queue_capacity_cfg() == self.queue_capacity_cfg(),
            r.expected_count_cfg() == self.expected_count_cfg(),
    {
        QuickwitLoggingLayerBuilder { batch_size, ..self }
    }

    /// Configure the envelope queue's capacity.
    pub fn with_queue_capacity(self, capacity: usize) -> (r: Self)
        requires
            self.wf(),
        ensures
            r.wf(),
            r.queue_capacity_cfg() == capacity,
            r.base_url() == self.base_url(),
            r.marker_name() == self.marker_name(),
            r.routes() == self.routes(),
            r.batch_size_cfg() == self.batch_size_cfg(),
            r.expected_count_cfg() == self.expected_count_cfg(),
    {
        QuickwitLoggingLayerBuilder { queue_capacity: capacity, ..self }
    }

    /// Configure how many emitted events a test observer expects before
    /// it is notified; the observer itself lives with the caller.
    pub fn with_expected_emitted_events_count(self, count: usize) -> (r: Self)
        requires
            self.wf(),
        ensures
            r.wf(),
            r.expected_count_cfg() == count,
            r.base_url() == self.base_url(),
            r.marker_name() == self.marker_name(),
            r.routes() == self.routes(),
            r.batch_size_cfg() == self.batch_size_cfg(),
            r.queue_capacity_cfg() == self.queue_capacity_cfg(),
    {
        QuickwitLoggingLayerBuilder { expected_emitted_events_count: count, ..self }
    }

    /// The configured expected event count, for the caller's observer.
    pub fn expected_emitted_events_count(&self) -> (n: usize)
        ensures
            n == self.expected_count_cfg(),
    {
        self.expected_emitted_events_count
    }

    /// Produce the pipeline's three parts: the capture layer, the
    /// background worker, and the envelope queue they hand envelopes
    /// over. A flush threshold of zero is raised to one, so a batch is
    /// never empty.
    pub fn build(self) -> (r: (QuickwitLoggingLayer, QuickwitWorker, EnvelopeQueue))
        requires
            self.wf(),
        ensures
            r.0.wf(),
            r.0.marker_field_name() == self.marker_name(),
            r.0.routes() == self.routes(),
            r.1.wf(),
            r.1.base_url() == self.base_url(),
            r.1.batch_limit() == if self.batch_size_cfg() >= 1 {
                self.batch_size_cfg()
            } else {
                1
            },
            forall|d: Seq<char>| #[trigger] r.1.buffer_of(d).len() == 0,
            r.2.wf(),
            r.2.contents() =~= Seq::<crate::message::MsgView>::empty(),
            r.2.cap() == self.queue_capacity_cfg(),
            !r.2.is_closed(),
    {
        let layer = QuickwitLoggingLayer::new(self.target_field, self.field_to_index);
        let worker = QuickwitWorker::new(self.quickwit_url, self.batch_size);
        let queue = EnvelopeQueue::new(self.queue_capacity);
        (layer, worker, queue)
    }
}

} // verus!

use vstd::prelude::*;

use crate::assoc::has_key;
use crate::assoc::lookup_of;
use crate::assoc::value_of;
use crate::message::LogRecord;
use crate::message::QuickwitLogMessage;
use crate::router::RoutingTable;
use crate::value::LogValue;
use crate::value::LogValueV;

verus! {

/// The string value of the marker field of an event, if the field is
/// present and holds a string; a missing field and a field of any other
/// type count alike as "no marker".
pub open spec fn marker_of(event: Seq<(Seq<char>, LogValueV)>, target: Seq<char>) -> Option<
    Seq<char>,
> {
    if has_key(event, target) {
        match value_of(event, target) {
            LogValueV::Text(s) => Some(s),
            _ => None,
        }
    } else {
        None
    }
}

/// What the capture path decided for one event: hand an envelope to the
/// queue, report a marker value with no routing entry, or do nothing.
pub enum CaptureOutcome {
    Enqueue(QuickwitLogMessage),
    IndexMissing,
    Ignored,
}

/// The synchronous capture stage of the pipeline: holds the marker field
/// name and the routing table, and decides per event whether and where an
/// envelope is bound.
pub struct QuickwitLoggingLayer {
    target_field: String,
    field_to_index: RoutingTable,
}

impl QuickwitLoggingLayer {
    /// The configured marker field name.
    pub closed spec fn marker_field_name(self) -> Seq<char> {
        self.target_field@
    }

    /// The routing table's entries.
    pub closed spec fn routes(self) -> Seq<(Seq<char>, Seq<char>)> {
        self.field_to_index@
    }

    pub open spec fn wf(self) -> bool {
        crate::assoc::keys_unique(self.routes())
    }

    pub fn new(target_field: String, field_to_index: RoutingTable) -> (r: Self)
        requires
            field_to_index.wf(),
        ensures
            r.wf(),
            r.marker_field_name() == target_field@,
            r.routes() == field_to_index@,
    {
        QuickwitLoggingLayer { target_field, field_to_index }
    }

    /// The configured marker field name, for the caller that pre-filters
    /// events.
    pub fn marker_field(&self) -> (r: &String)
        ensures
            r@ == self.marker_field_name(),
    {
        &self.target_field
    }

    /// Decide one event: no marker means no envelope and no report; a
    /// marker with no routing entry means one report and no envelope; a
    /// mapped marker means one envelope bearing the mapped index and the
    /// event's payload, verbatim.
    pub fn on_event(&self, log: LogRecord) -> (r: CaptureOutcome)
        requires
            self.wf(),
            log.wf(),
        ensures
            match marker_of(log@, self.marker_field_name()) {
                None => r is Ignored,
                Some(v) => match lookup_of(self.routes(), v) {
                    None => r is IndexMissing,
                    Some(d) => r matches CaptureOutcome::Enqueue(msg) && msg.index_id@ == d
                        && msg.log@ == log@ && msg.wf(),
                },
            },
    {
        let target_value: Option<String> = match log.get(&self.target_field) {
            Some(LogValue::Text(v)) => Some(v.clone()),
            _ => None,
        };
        match target_value {
            None => CaptureOutcome::Ignored,
            Some(v) => match self.field_to_index.lookup(&v) {
                None => CaptureOutcome::IndexMissing,
                Some(d) => {
                    let index_id = d.clone();
                    CaptureOutcome::Enqueue(QuickwitLogMessage { index_id, log })
                },
            },
        }
    }
}

} // verus!


use vstd::prelude::*;

use crate::assoc::upserted;
use crate::message::LogRecord;
use crate::value::LogValue;
use crate::value::LogValueV;

verus! {

/// Watches the fields of one event for the configured marker field and
/// keeps the string value recorded under it, if any.
pub struct TargetFieldVisitor {
    pub target_field: String,
    pub target_value: Option<String>,
}

impl TargetFieldVisitor {
    pub fn new(target_field: &str) -> (r: Self)
        ensures
            r.target_field@ == target_field@,
            r.target_value is None,
    {
        TargetFieldVisitor { target_field: target_field.to_owned(), target_value: None }
    }

    /// A string field was recorded: keep its value when the name is the
    /// watched one, else leave the state alone.
    pub fn record_str(&mut self, field: &str, value: &str)
        ensures
            final(self).target_field == old(self).target_field,
            field@ == old(self).target_field@ ==> match final(self).target_value {
                Some(v) => v@ == value@,
                None => false,
            },
            field@ != old(self).target_field@ ==> final(self).target_value == old(
                self,
            ).target_value,
    {
        if field.to_owned() == self.target_field {
            self.target_value = Some(value.to_owned());
        }
    }

    /// A field of any other type was recorded: the marker must hold a
    /// string, so nothing is kept.
    pub fn record_debug(&mut self, _field: &str, _value_repr: &str)
        ensures
            *final(self) == *old(self),
    {
    }
}

/// Builds the full payload of an event: every recorded field, encoded by
/// its type, in arrival order.
pub struct LogVisitor {
    pub log: LogRecord,
}

impl LogVisitor {
    pub fn new() -> (r: Self)
        ensures
            r.log@ =~= Seq::<(Seq<char>, LogValueV)>::empty(),
            r.log.wf(),
    {
        LogVisitor { log: LogRecord::new() }
    }

    /// A string field keeps its value unchanged.
    pub fn record_str(&mut self, field: &str, value: &str)
        requires
            old(self).log.wf(),
        ensures
            final(self).log.wf(),
            final(self).log@ == upserted(old(self).log@, field@, LogValueV::Text(value@)),
    {
        self.log.insert(field.to_owned(), LogValue::Text(value.to_owned()));
    }

    /// An unsigned 64-bit field keeps its value unchanged.
    pub fn record_u64(&mut self, field: &str, value: u64)
        requires
            old(self).log.wf(),
        ensures
            final(self).log.wf(),
            final(self).log@ == upserted(old(self).log@, field@, LogValueV::Unsigned(value)),
    {
        self.log.insert(field.to_owned(), LogValue::Unsigned(value));
    }

    /// An unsigned 128-bit field is truncated to its low 64 bits; values
    /// above the 64-bit range wrap silently.
    pub fn record_u128(&mut self, field: &str, value: u128)
        requires
            old(self).log.wf(),
        ensures
            final(self).log.wf(),
            final(self).log@ == upserted(
                old(self).log@,
                field@,
                LogValueV::Unsigned((value % 0x10000000000000000) as u64),
            ),
    {
        let truncated: u64 = (value % 0x10000000000000000u128) as u64;
        self.log.insert(field.to_owned(), LogValue::Unsigned(truncated));
    }

    /// A field of any other type arrives already debug-formatted and is
    /// kept as that text; such a field never acts as a routing marker.
    pub fn record_debug(&mut self, field: &str, value_repr: &str)
        requires
            old(self).log.wf(),
        ensures
            final(self).log.wf(),
            final(self).log@ == upserted(old(self).log@, field@, LogValueV::Formatted(value_repr@)),
    {
        self.log.insert(field.to_owned(), LogValue::Formatted(value_repr.to_owned()));
    }
}

} // verus!

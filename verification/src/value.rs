use vstd::prelude::*;

verus! {

/// A field value as exported to the indexing backend: a string field's
/// text, an unsigned 64-bit number, or the debug-formatted fallback for
/// any other type. A `Formatted` value serializes like text but never
/// acts as a routing marker.
pub enum LogValue {
    Text(String),
    Unsigned(u64),
    Formatted(String),
}

/// Mathematical view of a `LogValue`: the text as a character sequence.
pub enum LogValueV {
    Text(Seq<char>),
    Unsigned(u64),
    Formatted(Seq<char>),
}

impl View for LogValue {
    type V = LogValueV;

    open spec fn view(&self) -> LogValueV {
        match self {
            LogValue::Text(s) => LogValueV::Text(s@),
            LogValue::Unsigned(n) => LogValueV::Unsigned(*n),
            LogValue::Formatted(s) => LogValueV::Formatted(s@),
        }
    }
}

impl Clone for LogValue {
    fn clone(&self) -> (r: Self)
        ensures
            r@ == self@,
    {
        match self {
            LogValue::Text(s) => LogValue::Text(s.clone()),
            LogValue::Unsigned(n) => LogValue::Unsigned(*n),
            LogValue::Formatted(s) => LogValue::Formatted(s.clone()),
        }
    }
}

} // verus!

use vstd::prelude::*;

use crate::message::LogRecord;
use crate::message::records_view;
use crate::value::LogValue;
use crate::value::LogValueV;

verus! {

/// The digit character for `d` in base sixteen, lower case.
pub open spec fn hex_digit(d: nat) -> char {
    if d == 0 {
        '0'
    } else if d == 1 {
        '1'
    } else if d == 2 {
        '2'
    } else if d == 3 {
        '3'
    } else if d == 4 {
        '4'
    } else if d == 5 {
        '5'
    } else if d == 6 {
        '6'
    } else if d == 7 {
        '7'
    } else if d == 8 {
        '8'
    } else if d == 9 {
        '9'
    } else if d == 10 {
        'a'
    } else if d == 11 {
        'b'
    } else if d == 12 {
        'c'
    } else if d == 13 {
        'd'
    } else if d == 14 {
        'e'
    } else {
        'f'
    }
}

/// The decimal digit string of `n`, most significant digit first, no sign
/// and no leading zero except for `n == 0`.
pub open spec fn dec_str(n: nat) -> Seq<char>
    decreases n,
{
    if n < 10 {
        seq![hex_digit(n)]
    } else {
        dec_str(n / 10).push(hex_digit(n % 10))
    }
}

/// How one character appears inside a JSON string: quote and backslash get
/// a backslash escape, the named control characters their short escapes,
/// the remaining control characters a `\u00XX` escape, and every other
/// character stands unchanged.
pub open spec fn escaped_char(c: char) -> Seq<char> {
    if c == '"' {
        seq!['\\', '"']
    } else if c == '\\' {
        seq!['\\', '\\']
    } else if c == '\u{8}' {
        seq!['\\', 'b']
    } else if c == '\u{c}' {
        seq!['\\', 'f']
    } else if c == '\n' {
        seq!['\\', 'n']
    } else if c == '\r' {
        seq!['\\', 'r']
    } else if c == '\t' {
        seq!['\\', 't']
    } else if (c as u32) < 0x20 {
        seq!['\\', 'u', '0', '0', hex_digit(((c as u32) / 16) as nat), hex_digit(
            ((c as u32) % 16) as nat,
        )]
    } else {
        seq![c]
    }
}

/// The body of a JSON string: each character escaped, in order.
pub open spec fn escaped_text(s: Seq<char>) -> Seq<char>
    decreases s.len(),
{
    if s.len() == 0 {
        Seq::empty()
    } else {
        escaped_text(s.drop_last()) + escaped_char(s.last())
    }
}

/// A JSON string literal: the escaped text between double quotes.
pub open spec fn json_string(s: Seq<char>) -> Seq<char> {
    seq!['"'] + escaped_text(s) + seq!['"']
}

/// The JSON text of one field value.
pub open spec fn json_of_value(v: LogValueV) -> Seq<char> {
    match v {
        LogValueV::Text(s) => json_string(s),
        LogValueV::Unsigned(n) => dec_str(n as nat),
        LogValueV::Formatted(s) => json_string(s),
    }
}

/// The JSON text of one `"name":value` member.
pub open spec fn json_of_entry(e: (Seq<char>, LogValueV)) -> Seq<char> {
    json_string(e.0) + seq![':'] + json_of_value(e.1)
}

/// The comma-separated members of a JSON object, in field order.
pub open spec fn json_of_fields(s: Seq<(Seq<char>, LogValueV)>) -> Seq<char>
    decreases s.len(),
{
    if s.len() == 0 {
        Seq::empty()
    } else if s.len() == 1 {
        json_of_entry(s[0])
    } else {
        json_of_fields(s.drop_last()) + seq![','] + json_of_entry(s.last())
    }
}

/// The JSON object text of one record.
pub open spec fn json_of_record(s: Seq<(Seq<char>, LogValueV)>) -> Seq<char> {
    seq!['{'] + json_of_fields(s) + seq!['}']
}

/// One newline-delimited JSON line: the record's object and a trailing
/// newline.
pub open spec fn ndjson_line(s: Seq<(Seq<char>, LogValueV)>) -> Seq<char> {
    json_of_record(s) + seq!['\n']
}

/// The newline-delimited JSON body of a batch: one line per record, in
/// batch order.
pub open spec fn ndjson_of(batch: Seq<Seq<(Seq<char>, LogValueV)>>) -> Seq<char>
    decreases batch.len(),
{
    if batch.len() == 0 {
        Seq::empty()
    } else {
        ndjson_of(batch.drop_last()) + ndjson_line(batch.last())
    }
}

/// Relies on `String::push` of std: appends the one character to the end
/// of the string.
pub assume_specification[ String::push ](s: &mut String, ch: char)
    ensures
        final(s)@ == old(s)@.push(ch),
;

/// Append the digit character for `d` in base sixteen.
fn push_hex_digit(out: &mut String, d: u32)
    requires
        d < 16,
    ensures
        final(out)@ == old(out)@.push(hex_digit(d as nat)),
{
    let c: char = if d == 0 {
        '0'
    } else if d == 1 {
        '1'
    } else if d == 2 {
        '2'
    } else if d == 3 {
        '3'
    } else if d == 4 {
        '4'
    } else if d == 5 {
        '5'
    } else if d == 6 {
        '6'
    } else if d == 7 {
        '7'
    } else if d == 8 {
        '8'
    } else if d == 9 {
        '9'
    } else if d == 10 {
        'a'
    } else if d == 11 {
        'b'
    } else if d == 12 {
        'c'
    } else if d == 13 {
        'd'
    } else if d == 14 {
        'e'
    } else {
        'f'
    };
    out.push(c);
}

/// Append the decimal digit string of `n`.
fn push_dec(out: &mut String, n: u64)
    ensures
        final(out)@ == old(out)@ + dec_str(n as nat),
    decreases n,
{
    if n >= 10 {
        push_dec(out, n / 10);
    }
    push_hex_digit(out, (n % 10) as u32);
    proof {
        if n >= 10 {
            assert((old(out)@ + dec_str((n / 10) as nat)).push(hex_digit((n % 10) as nat)) =~= old(
                out,
            )@ + dec_str(n as nat));
        } else {
            assert(old(out)@.push(hex_digit(n as nat)) =~= old(out)@ + dec_str(n as nat));
        }
    }
}

/// Append the escaped body of a JSON string.
fn push_escaped(out: &mut String, s: &str)
    ensures
        final(out)@ == old(out)@ + escaped_text(s@),
{
    let n = s.unicode_len();
    let mut i: usize = 0;
    proof {
        assert(s@.take(0) =~= Seq::<char>::empty());
        assert(out@ =~= old(out)@ + escaped_text(s@.take(0)));
    }
    while i < n
        invariant
            n == s@.len(),
            i <= n,
            out@ == old(out)@ + escaped_text(s@.take(i as int)),
        decreases n - i,
    {
        let c = s.get_char(i);
        let ghost pre = out@;
        if c == '"' {
            out.push('\\');
            out.push('"');
        } else if c == '\\' {
            out.push('\\');
            out.push('\\');
        } else if c == '\u{8}' {
            out.push('\\');
            out.push('b');
        } else if c == '\u{c}' {
            out.push('\\');
            out.push('f');
        } else if c == '\n' {
            out.push('\\');
            out.push('n');
        } else if c == '\r' {
            out.push('\\');
            out.push('r');
        } else if c == '\t' {
            out.push('\\');
            out.push('t');
        } else {
            let code = c as u32;
            if code < 0x20 {
                out.push('\\');
                out.push('u');
                out.push('0');
                out.push('0');
                push_hex_digit(out, code / 16);
                push_hex_digit(out, code % 16);
            } else {
                out.push(c);
            }
        }
        proof {
            assert(out@ =~= pre + escaped_char(c));
            assert(s@.take(i + 1).drop_last() =~= s@.take(i as int));
            assert(s@.take(i + 1).last() == c);
            assert(escaped_text(s@.take(i + 1)) == escaped_text(s@.take(i as int)) + escaped_char(
                c,
            ));
            assert(out@ =~= old(out)@ + escaped_text(s@.take(i + 1)));
        }
        i += 1;
    }
    proof {
        assert(s@.take(n as int) =~= s@);
    }
}

/// Append a JSON string literal for `s`.
fn push_json_string(out: &mut String, s: &str)
    ensures
        final(out)@ == old(out)@ + json_string(s@),
{
    out.push('"');
    push_escaped(out, s);
    out.push('"');
    proof {
        assert(old(out)@.push('"') =~= old(out)@ + seq!['"']);
        assert(out@ =~= old(out)@ + json_string(s@));
    }
}

/// Append the JSON text of one field value.
fn push_value(out: &mut String, v: &LogValue)
    ensures
        final(out)@ == old(out)@ + json_of_value(v@),
{
    match v {
        LogValue::Text(s) => push_json_string(out, s.as_str()),
        LogValue::Unsigned(n) => push_dec(out, *n),
        LogValue::Formatted(s) => push_json_string(out, s.as_str()),
    }
}

/// Serialize one record as a newline-delimited JSON line, appended to
/// `out`: the object with every field in arrival order, then a newline.
/// Total for every record: the payload holds only the supported value
/// kinds, so no encoding step can fail.
pub fn serialize(out: &mut String, log: &LogRecord)
    ensures
        final(out)@ == old(out)@ + ndjson_line(log@),
{
    out.push('{');
    proof {
        assert(out@ =~= old(out)@ + seq!['{']);
    }
    let n = log.len();
    let mut i: usize = 0;
    proof {
        assert(log@.take(0) =~= Seq::<(Seq<char>, LogValueV)>::empty());
    }
    while i < n
        invariant
            n == log@.len(),
            i <= n,
            out@ == old(out)@ + seq!['{'] + json_of_fields(log@.take(i as int)),
        decreases n - i,
    {
        let ghost pre = out@;
        if i > 0 {
            out.push(',');
            proof {
                assert(out@ =~= pre + seq![',']);
            }
        }
        let e = log.entry(i);
        push_json_string(out, e.0.as_str());
        out.push(':');
        proof {
            assert(out@ =~= pre + (if i > 0 {
                seq![',']
            } else {
                Seq::<char>::empty()
            }) + json_string(e.0@) + seq![':']);
        }
        push_value(out, &e.1);
        proof {
            assert(log@.take(i + 1).drop_last() =~= log@.take(i as int));
            assert(log@.take(i + 1).last() == (e.0@, e.1@));
            if i == 0 {
                assert(json_of_fields(log@.take(1)) == json_of_entry(log@.take(1)[0]));
                assert(log@.take(1)[0] == (e.0@, e.1@));
                assert(out@ =~= old(out)@ + seq!['{'] + json_of_fields(log@.take(i + 1)));
            } else {
                assert(json_of_fields(log@.take(i + 1)) == json_of_fields(log@.take(i as int))
                    + seq![','] + json_of_entry((e.0@, e.1@)));
                assert(out@ =~= old(out)@ + seq!['{'] + json_of_fields(log@.take(i + 1)));
            }
        }
        i += 1;
    }
    out.push('}');
    out.push('\n');
    proof {
        assert(log@.take(n as int) =~= log@);
        assert(out@ =~= old(out)@ + ndjson_line(log@));
    }
}

/// The newline-delimited JSON body for a whole batch, one line per record
/// in batch order.
pub fn ndjson_body(batch: &Vec<LogRecord>) -> (r: String)
    ensures
        r@ == ndjson_of(records_view(batch@)),
{
    let mut out = String::new();
    let n = batch.len();
    let mut i: usize = 0;
    proof {
        assert(records_view(batch@).take(0) =~= Seq::<Seq<(Seq<char>, LogValueV)>>::empty());
        assert(out@ =~= ndjson_of(records_view(batch@).take(0)));
    }
    while i < n
        invariant
            n == batch@.len(),
            i <= n,
            out@ == ndjson_of(records_view(batch@).take(i as int)),
        decreases n - i,
    {
        serialize(&mut out, &batch[i]);
        proof {
            let rv = records_view(batch@);
            assert(rv.take(i + 1).drop_last() =~= rv.take(i as int));
            assert(rv.take(i + 1).last() == batch@[i as int]@);
            assert(out@ =~= ndjson_of(rv.take(i + 1)));
        }
        i += 1;
    }
    proof {
        assert(records_view(batch@).take(n as int) =~= records_view(batch@));
    }
    out
}

} // verus!

//! Serialization of the membership listing as JSON: an array of record
//! objects, with string escaping as JSON requires it.

use vstd::prelude::*;
use crate::record::{ModelRecord, ModelRecordView};
use crate::text::push_char;

verus! {

/// The lower-case hexadecimal digit for a value below sixteen.
pub open spec fn hex_digit(d: int) -> char {
    if d == 0 {
        '0'
    } else if d == 1 {
        '1'
    } else if d == 2 {
        '2'
    } else if d == 3 {
        '3'
    } else if d == 4 {
        '4'
    } else if d == 5 {
        '5'
    } else if d == 6 {
        '6'
    } else if d == 7 {
        '7'
    } else if d == 8 {
        '8'
    } else if d == 9 {
        '9'
    } else if d == 10 {
        'a'
    } else if d == 11 {
        'b'
    } else if d == 12 {
        'c'
    } else if d == 13 {
        'd'
    } else if d == 14 {
        'e'
    } else {
        'f'
    }
}

/// How one character appears inside a JSON string literal: quote and
/// backslash get a backslash, the named control characters their short
/// escapes, other control characters a `\u00..` escape, and everything
/// else stands as itself.
pub open spec fn escape_char(c: char) -> Seq<char> {
    if c == '"' {
        seq!['\\', '"']
    } else if c == '\\' {
        seq!['\\', '\\']
    } else if c == '\u{8}' {
        seq!['\\', 'b']
    } else if c == '\t' {
        seq!['\\', 't']
    } else if c == '\n' {
        seq!['\\', 'n']
    } else if c == '\u{c}' {
        seq!['\\', 'f']
    } else if c == '\r' {
        seq!['\\', 'r']
    } else if (c as u32) < 32 {
        seq!['\\', 'u', '0', '0', hex_digit(c as u32 as int / 16), hex_digit(c as u32 as int % 16)]
    } else {
        seq![c]
    }
}

/// A whole string escaped for JSON, character by character.
pub open spec fn escape_str(s: Seq<char>) -> Seq<char>
    decreases s.len(),
{
    if s.len() == 0 {
        Seq::empty()
    } else {
        escape_char(s[0]) + escape_str(s.drop_first())
    }
}

proof fn lemma_escape_snoc(s: Seq<char>, c: char)
    ensures
        escape_str(s.push(c)) == escape_str(s) + escape_char(c),
    decreases s.len(),
{
    reveal_with_fuel(escape_str, 3);
    if s.len() == 0 {
        assert(s.push(c).drop_first() =~= Seq::<char>::empty());
        assert(escape_str(s.push(c)) =~= escape_char(c));
        assert(escape_str(s) + escape_char(c) =~= escape_char(c));
    } else {
        assert(s.push(c)[0] == s[0]);
        assert(s.push(c).drop_first() =~= s.drop_first().push(c));
        lemma_escape_snoc(s.drop_first(), c);
        assert(escape_str(s.push(c)) =~= escape_str(s) + escape_char(c));
    }
}

/// A JSON string literal: the escaped text between double quotes.
pub open spec fn json_string(s: Seq<char>) -> Seq<char> {
    seq!['"'] + escape_str(s) + seq!['"']
}

/// A JSON boolean.
pub open spec fn json_bool(b: bool) -> Seq<char> {
    if b {
        "true"@
    } else {
        "false"@
    }
}

/// The JSON object serialized for one record, fields in declaration
/// order.
pub open spec fn json_record(r: ModelRecordView) -> Seq<char> {
    "{\"name\":"@ + json_string(r.name) + ",\"address\":"@ + json_string(r.address)
        + ",\"owner\":"@ + json_string(r.owner) + ",\"is_quantized\":"@ + json_bool(r.is_quantized)
        + "}"@
}

/// The comma-separated record objects of a listing.
pub open spec fn json_records_body(rs: Seq<ModelRecordView>) -> Seq<char>
    decreases rs.len(),
{
    if rs.len() == 0 {
        Seq::empty()
    } else if rs.len() == 1 {
        json_record(rs[0])
    } else {
        json_records_body(rs.drop_last()) + ","@ + json_record(rs.last())
    }
}

/// A listing serialized as a JSON array of record objects.
pub open spec fn json_records(rs: Seq<ModelRecordView>) -> Seq<char> {
    "["@ + json_records_body(rs) + "]"@
}

fn append_escaped(out: &mut String, s: &str)
    ensures
        final(out)@ == old(out)@ + escape_str(s@),
{
    let cs = crate::text::chars_of(s);
    let mut i: usize = 0;
    proof {
        assert(out@ + escape_str(cs@.take(0)) =~= out@);
    }
    while i < cs.len()
        invariant
            i <= cs.len(),
            cs@ == s@,
            out@ == old(out)@ + escape_str(cs@.take(i as int)),
        decreases cs.len() - i,
    {
        let c = cs[i];
        proof {
            reveal_strlit("\\\"");
            reveal_strlit("\\\\");
            reveal_strlit("\\b");
            reveal_strlit("\\t");
            reveal_strlit("\\n");
            reveal_strlit("\\f");
            reveal_strlit("\\r");
            reveal_strlit("\\u00");
        }
        if c == '"' {
            out.append("\\\"");
        } else if c == '\\' {
            out.append("\\\\");
        } else if c == '\u{8}' {
            out.append("\\b");
        } else if c == '\t' {
            out.append("\\t");
        } else if c == '\n' {
            out.append("\\n");
        } else if c == '\u{c}' {
            out.append("\\f");
        } else if c == '\r' {
            out.append("\\r");
        } else if (c as u32) < 32 {
            out.append("\\u00");
            push_char(out, hex_digit_exec((c as u32) / 16));
            push_char(out, hex_digit_exec((c as u32) % 16));
        } else {
            push_char(out, c);
        }
        proof {
            assert(out@ =~= old(out)@ + escape_str(cs@.take(i as int)) + escape_char(cs@[i as int]));
            lemma_escape_snoc(cs@.take(i as int), cs@[i as int]);
            assert(cs@.take(i + 1) =~= cs@.take(i as int).push(cs@[i as int]));
            assert(out@ =~= old(out)@ + escape_str(cs@.take(i + 1)));
        }
        i = i + 1;
    }
    proof {
        assert(cs@.take(cs.len() as int) =~= cs@);
    }
}

fn hex_digit_exec(d: u32) -> (r: char)
    requires
        d < 16,
    ensures
        r == hex_digit(d as int),
{
    if d == 0 {
        '0'
    } else if d == 1 {
        '1'
    } else if d == 2 {
        '2'
    } else if d == 3 {
        '3'
    } else if d == 4 {
        '4'
    } else if d == 5 {
        '5'
    } else if d == 6 {
        '6'
    } else if d == 7 {
        '7'
    } else if d == 8 {
        '8'
    } else if d == 9 {
        '9'
    } else if d == 10 {
        'a'
    } else if d == 11 {
        'b'
    } else if d == 12 {
        'c'
    } else if d == 13 {
        'd'
    } else if d == 14 {
        'e'
    } else {
        'f'
    }
}

fn append_json_string(out: &mut String, s: &str)
    ensures
        final(out)@ == old(out)@ + json_string(s@),
{
    push_char(out, '"');
    append_escaped(out, s);
    push_char(out, '"');
    proof {
        assert(out@ =~= old(out)@ + json_string(s@));
    }
}

fn append_json_record(out: &mut String, r: &ModelRecord)
    ensures
        final(out)@ == old(out)@ + json_record(r@),
{
    out.append("{\"name\":");
    append_json_string(out, r.name.as_str());
    out.append(",\"address\":");
    append_json_string(out, r.address.as_str());
    out.append(",\"owner\":");
    append_json_string(out, r.owner.as_str());
    out.append(",\"is_quantized\":");
    if r.is_quantized {
        out.append("true");
    } else {
        out.append("false");
    }
    out.append("}");
    proof {
        assert(out@ =~= old(out)@ + json_record(r@));
    }
}

/// Serialize a listing: the records, in order, as a JSON array.
pub fn models_json(records: &Vec<ModelRecord>) -> (out: String)
    ensures
        out@ == json_records(records@.map_values(|r: ModelRecord| r@)),
{
    let ghost rv = records@.map_values(|r: ModelRecord| r@);
    let mut out = String::new();
    out.append("[");
    let mut i: usize = 0;
    proof {
        assert(out@ =~= "["@ + json_records_body(rv.take(0)));
    }
    while i < records.len()
        invariant
            i <= records.len(),
            rv == records@.map_values(|r: ModelRecord| r@),
            rv.len() == records.len(),
            out@ == "["@ + json_records_body(rv.take(i as int)),
        decreases records.len() - i,
    {
        if i > 0 {
            out.append(",");
        }
        append_json_record(&mut out, &records[i]);
        proof {
            assert(rv.take(i + 1) =~= rv.take(i as int).push(rv[i as int]));
            lemma_records_body_snoc(rv.take(i as int), rv[i as int]);
            if i == 0 {
                assert(out@ =~= "["@ + json_records_body(rv.take(i + 1)));
            } else {
                assert(out@ =~= "["@ + json_records_body(rv.take(i + 1)));
            }
        }
        i = i + 1;
    }
    out.append("]");
    proof {
        assert(rv.take(records.len() as int) =~= rv);
        assert(out@ =~= json_records(rv));
    }
    out
}

proof fn lemma_records_body_snoc(rs: Seq<ModelRecordView>, r: ModelRecordView)
    ensures
        rs.len() == 0 ==> json_records_body(rs.push(r)) == json_record(r),
        rs.len() > 0 ==> json_records_body(rs.push(r)) == json_records_body(rs) + ","@
            + json_record(r),
{
    reveal_with_fuel(json_records_body, 2);
    assert(rs.push(r).drop_last() =~= rs);
    assert(rs.push(r).last() == r);
    if rs.len() == 0 {
        assert(rs.push(r)[0] == r);
    }
}

} // verus!

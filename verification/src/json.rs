//! A JSON value type for configuration payloads, with a verified
//! canonical rendering.
//!
//! Configuration pushes carry arbitrary JSON.  The store keeps each
//! value's compact textual form: strings are quoted and escaped, every
//! other kind is rendered in the generic compact JSON notation.  Numbers
//! are carried as their serialized text, since the registry never
//! computes with them.

use vstd::prelude::*;
use vstd::string::*;
use crate::device_id::{hex_char, hex_char_str};

verus! {

/// A JSON document fragment.
///
/// Object members and array elements keep their given order.  A number
/// holds its canonical serialized text rather than a numeric type.
#[derive(Debug)]
pub enum JsonValue {
    Null,
    Bool(bool),
    /// A JSON number, carried as its serialized text.
    Number(String),
    /// A JSON string (the unescaped character data).
    Text(String),
    Array(Vec<JsonValue>),
    /// A JSON object: members in order, keys need not be distinct.
    Object(Vec<(String, JsonValue)>),
}

/// How one character of a JSON string is written inside quotes:
/// quote and backslash get a backslash escape, the named control
/// characters their short escapes, all other control characters a
/// `\u00..` escape, and everything else stands as itself.
pub open spec fn escaped_char(c: char) -> Seq<char> {
    if c == '"' {
        seq!['\\', '"']
    } else if c == '\\' {
        seq!['\\', '\\']
    } else if c == '\u{0008}' {
        seq!['\\', 'b']
    } else if c == '\t' {
        seq!['\\', 't']
    } else if c == '\n' {
        seq!['\\', 'n']
    } else if c == '\u{000C}' {
        seq!['\\', 'f']
    } else if c == '\r' {
        seq!['\\', 'r']
    } else if (c as int) < 32 {
        seq!['\\', 'u', '0', '0', hex_char((c as int) / 16), hex_char((c as int) % 16)]
    } else {
        seq![c]
    }
}

/// The escaped form of a whole string body.
pub open spec fn escaped(s: Seq<char>) -> Seq<char>
    decreases s.len(),
{
    if s.len() == 0 {
        Seq::empty()
    } else {
        escaped(s.subrange(0, s.len() - 1)) + escaped_char(s[s.len() - 1])
    }
}

/// A string as it appears in JSON output: escaped and quoted.
pub open spec fn quoted(s: Seq<char>) -> Seq<char> {
    seq!['"'] + escaped(s) + seq!['"']
}

/// The compact textual rendering of a JSON value, as the registry
/// stores it: no whitespace, members and elements in order.
pub open spec fn rendered(v: JsonValue) -> Seq<char>
    decreases v,
{
    match v {
        JsonValue::Null => seq!['n', 'u', 'l', 'l'],
        JsonValue::Bool(b) => if b {
            seq!['t', 'r', 'u', 'e']
        } else {
            seq!['f', 'a', 'l', 's', 'e']
        },
        JsonValue::Number(s) => s@,
        JsonValue::Text(s) => quoted(s@),
        JsonValue::Array(items) => seq!['['] + rendered_items(items@) + seq![']'],
        JsonValue::Object(fields) => seq!['{'] + rendered_fields(fields@) + seq!['}'],
    }
}

/// Array elements, comma-separated.
pub open spec fn rendered_items(items: Seq<JsonValue>) -> Seq<char>
    decreases items,
{
    if items.len() == 0 {
        Seq::empty()
    } else if items.len() == 1 {
        rendered(items[0])
    } else {
        rendered_items(items.subrange(0, items.len() - 1)) + seq![','] + rendered(
            items[items.len() - 1],
        )
    }
}

/// Object members, comma-separated, each a quoted key, a colon and the
/// member's rendering.
pub open spec fn rendered_fields(fields: Seq<(String, JsonValue)>) -> Seq<char>
    decreases fields,
{
    if fields.len() == 0 {
        Seq::empty()
    } else if fields.len() == 1 {
        rendered_field(fields[0])
    } else {
        rendered_fields(fields.subrange(0, fields.len() - 1)) + seq![','] + rendered_field(
            fields[fields.len() - 1],
        )
    }
}

pub open spec fn rendered_field(field: (String, JsonValue)) -> Seq<char>
    decreases field,
{
    quoted(field.0@) + seq![':'] + rendered(field.1)
}

/// Escape and quote one string for JSON output.
pub fn quote_string(s: &str) -> (r: String)
    ensures
        r@ == quoted(s@),
{
    proof {
        reveal_strlit("\"");
        reveal_strlit("\\\"");
        reveal_strlit("\\\\");
        reveal_strlit("\\b");
        reveal_strlit("\\t");
        reveal_strlit("\\n");
        reveal_strlit("\\f");
        reveal_strlit("\\r");
        reveal_strlit("\\u00");
    }
    let n: usize = s.unicode_len();
    let mut out = String::from_str("\"");
    let mut i: usize = 0;
    while i < n
        invariant
            0 <= i <= n,
            n == s@.len(),
            out@ =~= seq!['"'] + escaped(s@.subrange(0, i as int)),
        decreases n - i,
    {
        proof {
            reveal_strlit("\"");
            reveal_strlit("\\\"");
            reveal_strlit("\\\\");
            reveal_strlit("\\b");
            reveal_strlit("\\t");
            reveal_strlit("\\n");
            reveal_strlit("\\f");
            reveal_strlit("\\r");
            reveal_strlit("\\u00");
            assert(s@.subrange(0, i + 1).subrange(0, i as int) =~= s@.subrange(0, i as int));
            assert(s@.subrange(0, i + 1)[i as int] == s@[i as int]);
        }
        let c: char = s.get_char(i);
        if c == '"' {
            out.append("\\\"");
        } else if c == '\\' {
            out.append("\\\\");
        } else if c == '\u{0008}' {
            out.append("\\b");
        } else if c == '\t' {
            out.append("\\t");
        } else if c == '\n' {
            out.append("\\n");
        } else if c == '\u{000C}' {
            out.append("\\f");
        } else if c == '\r' {
            out.append("\\r");
        } else {
            let code: u32 = c as u32;
            if code < 32 {
                out.append("\\u00");
                let hi = hex_char_str((code / 16) as u8);
                out.append(hi);
                let lo = hex_char_str((code % 16) as u8);
                out.append(lo);
            } else {
                let piece = s.substring_char(i, i + 1);
                proof {
                    assert(piece@ =~= seq![s@[i as int]]);
                }
                out.append(piece);
            }
        }
        i = i + 1;
    }
    out.append("\"");
    proof {
        assert(s@.subrange(0, n as int) =~= s@);
        assert(out@ =~= quoted(s@));
    }
    out
}

impl JsonValue {
    /// Render this value in its compact textual form.
    pub fn render(&self) -> (r: String)
        ensures
            r@ == rendered(*self),
        decreases *self,
    {
        proof {
            reveal_strlit("null");
            reveal_strlit("true");
            reveal_strlit("false");
            reveal_strlit("[");
            reveal_strlit("]");
            reveal_strlit("{");
            reveal_strlit("}");
            reveal_strlit(",");
            reveal_strlit(":");
        }
        match self {
            JsonValue::Null => {
                let r = String::from_str("null");
                proof {
                    assert(r@ =~= rendered(*self));
                }
                r
            },
            JsonValue::Bool(b) => {
                let r = if *b {
                    String::from_str("true")
                } else {
                    String::from_str("false")
                };
                proof {
                    assert(r@ =~= rendered(*self));
                }
                r
            },
            JsonValue::Number(s) => s.clone(),
            JsonValue::Text(s) => {
                let r = quote_string(s.as_str());
                proof {
                    assert(r@ =~= rendered(*self));
                }
                r
            },
            JsonValue::Array(items) => {
                let mut out = String::from_str("[");
                let n: usize = items.len();
                let mut i: usize = 0;
                while i < n
                    invariant
                        0 <= i <= n,
                        n == items@.len(),
                        *self == JsonValue::Array(*items),
                        out@ =~= seq!['['] + rendered_items(items@.subrange(0, i as int)),
                    decreases n - i,
                {
                    proof {
                        reveal_strlit(",");
                    }
                    if i > 0 {
                        out.append(",");
                    }
                    proof {
                        assert(*items == self->Array_0);
                        assert(decreases_to!(*self => self->Array_0));
                        assert(decreases_to!(self->Array_0 => self->Array_0@));
                        assert(decreases_to!(self->Array_0@ => self->Array_0@[i as int]));
                        assert(decreases_to!(*self => items@[i as int]));
                    }
                    let piece = items[i].render();
                    out.append(piece.as_str());
                    proof {
                        assert(items@.subrange(0, i + 1).subrange(0, i as int) =~= items@.subrange(
                            0,
                            i as int,
                        ));
                        assert(items@.subrange(0, i + 1)[i as int] == items@[i as int]);
                        if i == 0 {
                            assert(rendered_items(items@.subrange(0, 1)) == rendered(items@[0]));
                        }
                        assert(out@ =~= seq!['['] + rendered_items(items@.subrange(0, i + 1)));
                    }
                    i = i + 1;
                }
                out.append("]");
                proof {
                    assert(items@.subrange(0, n as int) =~= items@);
                    assert(out@ =~= rendered(*self));
                }
                out
            },
            JsonValue::Object(fields) => {
                let mut out = String::from_str("{");
                let n: usize = fields.len();
                let mut i: usize = 0;
                while i < n
                    invariant
                        0 <= i <= n,
                        n == fields@.len(),
                        *self == JsonValue::Object(*fields),
                        out@ =~= seq!['{'] + rendered_fields(fields@.subrange(0, i as int)),
                    decreases n - i,
                {
                    proof {
                        reveal_strlit(",");
                        reveal_strlit(":");
                    }
                    if i > 0 {
                        out.append(",");
                    }
                    let key_piece = quote_string(fields[i].0.as_str());
                    out.append(key_piece.as_str());
                    out.append(":");
                    proof {
                        assert(*fields == self->Object_0);
                        assert(decreases_to!(*self => self->Object_0));
                        assert(decreases_to!(self->Object_0 => self->Object_0@));
                        assert(decreases_to!(self->Object_0@ => self->Object_0@[i as int]));
                        assert(decreases_to!(self->Object_0@[i as int] => self->Object_0@[i as int].1));
                        assert(decreases_to!(*self => fields@[i as int].1));
                    }
                    let val_piece = fields[i].1.render();
                    out.append(val_piece.as_str());
                    proof {
                        assert(fields@.subrange(0, i + 1).subrange(0, i as int) =~= fields@.subrange(
                            0,
                            i as int,
                        ));
                        assert(fields@.subrange(0, i + 1)[i as int] == fields@[i as int]);
                        if i == 0 {
                            assert(rendered_fields(fields@.subrange(0, 1)) == rendered_field(
                                fields@[0],
                            ));
                        } else {
                            assert(rendered_fields(fields@.subrange(0, i + 1)) == rendered_fields(
                                fields@.subrange(0, i as int),
                            ) + seq![','] + rendered_field(fields@[i as int]));
                        }
                        assert(rendered_field(fields@[i as int]) == quoted(fields@[i as int].0@)
                            + seq![':'] + rendered(fields@[i as int].1));
                        assert(out@ =~= seq!['{'] + rendered_fields(fields@.subrange(0, i + 1)));
                    }
                    i = i + 1;
                }
                out.append("}");
                proof {
                    assert(fields@.subrange(0, n as int) =~= fields@);
                    assert(out@ =~= rendered(*self));
                }
                out
            },
        }
    }

}

} // verus!

//! A JSON value model and a verified compact serializer: the library
//! frames its own wire bytes; only parsing (an outside concern) stays at
//! the edge.

use vstd::prelude::*;
use vstd::string::StrSliceExecFns;
use vstd::string::StringExecFns;

use crate::text::{dec_int, digit_char, i64_to_string, push_char, str_eq};

verus! {

broadcast use vstd::std_specs::vec::group_vec_axioms;

/// A JSON document: integers stand in for all numbers.
pub enum JsonValue {
    Null,
    Bool(bool),
    Int(i64),
    Str(String),
    Arr(Vec<JsonValue>),
    Obj(Vec<(String, JsonValue)>),
}

/// The hexadecimal digit character for `d < 16`.
pub open spec fn hex_char(d: nat) -> char {
    if d < 10 {
        digit_char(d)
    } else if d == 10 {
        'a'
    } else if d == 11 {
        'b'
    } else if d == 12 {
        'c'
    } else if d == 13 {
        'd'
    } else if d == 14 {
        'e'
    } else {
        'f'
    }
}

/// The escaped form of one character inside a JSON string.
pub open spec fn esc_char(c: char) -> Seq<char> {
    if c == '"' {
        seq!['\\', '"']
    } else if c == '\\' {
        seq!['\\', '\\']
    } else if c == '\n' {
        seq!['\\', 'n']
    } else if c == '\r' {
        seq!['\\', 'r']
    } else if c == '\t' {
        seq!['\\', 't']
    } else if (c as u32) < 32 {
        seq!['\\', 'u', '0', '0', hex_char((c as u32 / 16) as nat), hex_char(
            (c as u32 % 16) as nat,
        )]
    } else {
        seq![c]
    }
}

/// The escaped form of a whole string body.
pub open spec fn escape(s: Seq<char>) -> Seq<char>
    decreases s.len(),
{
    if s.len() == 0 {
        Seq::empty()
    } else {
        escape(s.drop_last()) + esc_char(s.last())
    }
}

/// The compact rendering of a JSON value.
pub open spec fn json_text(v: JsonValue) -> Seq<char>
    decreases v, 0int, 0int,
{
    match v {
        JsonValue::Null => "null"@,
        JsonValue::Bool(b) => if b {
            "true"@
        } else {
            "false"@
        },
        JsonValue::Int(n) => dec_int(n as int),
        JsonValue::Str(s) => seq!['"'] + escape(s@) + seq!['"'],
        JsonValue::Arr(items) => seq!['['] + arr_text(items, 0) + seq![']'],
        JsonValue::Obj(fields) => seq!['{'] + obj_text(fields, 0) + seq!['}'],
    }
}

/// The comma-separated rendering of the array elements from `i` on.
pub open spec fn arr_text(items: Vec<JsonValue>, i: int) -> Seq<char>
    decreases items, 1int, items@.len() - i,
{
    if i < 0 || i >= items@.len() {
        Seq::empty()
    } else {
        (if i > 0 {
            seq![',']
        } else {
            Seq::<char>::empty()
        }) + json_text(items@[i]) + arr_text(items, i + 1)
    }
}

/// The comma-separated rendering of the object fields from `i` on.
pub open spec fn obj_text(fields: Vec<(String, JsonValue)>, i: int) -> Seq<char>
    decreases fields, 1int, fields@.len() - i,
{
    if i < 0 || i >= fields@.len() {
        Seq::empty()
    } else {
        (if i > 0 {
            seq![',']
        } else {
            Seq::<char>::empty()
        }) + seq!['"'] + escape(fields@[i].0@) + seq!['"', ':'] + json_text(fields@[i].1)
            + obj_text(fields, i + 1)
    }
}

/// Escape a string body, exact with respect to `escape`.
fn escape_exec(s: &str) -> (r: String)
    ensures
        r@ == escape(s@),
{
    let n = s.unicode_len();
    let mut out = String::new();
    let mut i: usize = 0;
    proof {
        assert(s@.take(0) =~= Seq::<char>::empty());
        assert(out@ =~= escape(s@.take(0)));
    }
    while i < n
        invariant
            i <= n,
            n == s@.len(),
            out@ == escape(s@.take(i as int)),
        decreases n - i,
    {
        proof {
            let t1 = s@.take(i + 1);
            assert(t1.drop_last() =~= s@.take(i as int));
            assert(t1.last() == s@[i as int]);
        }
        let c = s.get_char(i);
        if c == '"' {
            out.append("\\\"");
            proof {
                reveal_strlit("\\\"");
                assert(out@ =~= escape(s@.take(i + 1)));
            }
        } else if c == '\\' {
            out.append("\\\\");
            proof {
                reveal_strlit("\\\\");
                assert(out@ =~= escape(s@.take(i + 1)));
            }
        } else if c == '\n' {
            out.append("\\n");
            proof {
                reveal_strlit("\\n");
                assert(out@ =~= escape(s@.take(i + 1)));
            }
        } else if c == '\r' {
            out.append("\\r");
            proof {
                reveal_strlit("\\r");
                assert(out@ =~= escape(s@.take(i + 1)));
            }
        } else if c == '\t' {
            out.append("\\t");
            proof {
                reveal_strlit("\\t");
                assert(out@ =~= escape(s@.take(i + 1)));
            }
        } else if (c as u32) < 32 {
            out.append("\\u00");
            let hi = (c as u32) / 16;
            let lo = (c as u32) % 16;
            push_char(&mut out, hex_digit(hi));
            push_char(&mut out, hex_digit(lo));
            proof {
                reveal_strlit("\\u00");
                assert(out@ =~= escape(s@.take(i + 1)));
            }
        } else {
            push_char(&mut out, c);
            proof {
                assert(out@ =~= escape(s@.take(i + 1)));
            }
        }
        i = i + 1;
    }
    proof {
        assert(s@.take(n as int) =~= s@);
    }
    out
}

/// The hexadecimal digit character, exact with respect to `hex_char`.
fn hex_digit(d: u32) -> (c: char)
    requires
        d < 16,
    ensures
        c == hex_char(d as nat),
{
    match d {
        0 => '0',
        1 => '1',
        2 => '2',
        3 => '3',
        4 => '4',
        5 => '5',
        6 => '6',
        7 => '7',
        8 => '8',
        9 => '9',
        10 => 'a',
        11 => 'b',
        12 => 'c',
        13 => 'd',
        14 => 'e',
        _ => 'f',
    }
}

/// Render a JSON value compactly, exact with respect to `json_text`.
pub fn to_json_text(v: &JsonValue) -> (r: String)
    ensures
        r@ == json_text(*v),
    decreases *v,
{
    match v {
        JsonValue::Null => "null".to_owned(),
        JsonValue::Bool(b) => {
            if *b {
                "true".to_owned()
            } else {
                "false".to_owned()
            }
        },
        JsonValue::Int(n) => i64_to_string(*n),
        JsonValue::Str(s) => {
            let mut out = String::new();
            out.append("\"");
            let body = escape_exec(s.as_str());
            out.append(body.as_str());
            out.append("\"");
            proof {
                reveal_strlit("\"");
                assert(out@ =~= json_text(*v));
            }
            out
        },
        JsonValue::Arr(items) => {
            let mut out = String::new();
            out.append("[");
            proof {
                reveal_strlit("[");
                reveal_strlit("]");
                reveal_strlit(",");
                assert(out@ =~= seq!['[']);
            }
            let mut i: usize = 0;
            while i < items.len()
                invariant
                    i <= items@.len(),
                    *v is Arr && v->Arr_0 == *items,
                    out@ + arr_text(*items, i as int) == seq!['['] + arr_text(*items, 0),
                decreases items@.len() - i,
            {
                if i > 0 {
                    out.append(",");
                    proof {
                        reveal_strlit(",");
                    }
                }
                proof {
                    assert(decreases_to!(*v => v->Arr_0));
                    assert(decreases_to!(v->Arr_0 => v->Arr_0@));
                    assert(decreases_to!(v->Arr_0@ => v->Arr_0@[i as int]));
                    assert(decreases_to!(*v => items@[i as int]));
                }
                let sub = to_json_text(&items[i]);
                out.append(sub.as_str());
                proof {
                    assert(out@ + arr_text(*items, i + 1) =~= seq!['['] + arr_text(*items, 0));
                }
                i = i + 1;
            }
            proof {
                assert(arr_text(*items, items@.len() as int) =~= Seq::<char>::empty());
                assert(out@ =~= seq!['['] + arr_text(*items, 0));
            }
            out.append("]");
            proof {
                reveal_strlit("]");
                assert(out@ =~= json_text(*v));
            }
            out
        },
        JsonValue::Obj(fields) => {
            let mut out = String::new();
            out.append("{");
            proof {
                reveal_strlit("{");
                reveal_strlit("}");
                reveal_strlit(",");
                reveal_strlit("\"");
                reveal_strlit("\":");
                assert(out@ =~= seq!['{']);
            }
            let mut i: usize = 0;
            while i < fields.len()
                invariant
                    i <= fields@.len(),
                    *v is Obj && v->Obj_0 == *fields,
                    out@ + obj_text(*fields, i as int) == seq!['{'] + obj_text(*fields, 0),
                decreases fields@.len() - i,
            {
                if i > 0 {
                    out.append(",");
                    proof {
                        reveal_strlit(",");
                    }
                }
                out.append("\"");
                let key = escape_exec(fields[i].0.as_str());
                out.append(key.as_str());
                out.append("\":");
                proof {
                    assert(decreases_to!(*v => v->Obj_0));
                    assert(decreases_to!(v->Obj_0 => v->Obj_0@));
                    assert(decreases_to!(v->Obj_0@ => v->Obj_0@[i as int]));
                    assert(decreases_to!(v->Obj_0@[i as int] => v->Obj_0@[i as int].1));
                    assert(decreases_to!(*v => fields@[i as int].1));
                }
                let sub = to_json_text(&fields[i].1);
                out.append(sub.as_str());
                proof {
                    reveal_strlit("\"");
                    reveal_strlit("\":");
                    assert(out@ + obj_text(*fields, i + 1) =~= seq!['{'] + obj_text(*fields, 0));
                }
                i = i + 1;
            }
            proof {
                assert(obj_text(*fields, fields@.len() as int) =~= Seq::<char>::empty());
                assert(out@ =~= seq!['{'] + obj_text(*fields, 0));
            }
            out.append("}");
            proof {
                reveal_strlit("}");
                assert(out@ =~= json_text(*v));
            }
            out
        },
    }
}

// ---------------------------------------------------------------------------
// Structured access
// ---------------------------------------------------------------------------

/// The value under the first occurrence of the key, if any.
pub open spec fn obj_lookup(v: JsonValue, key: Seq<char>) -> Option<JsonValue>
    decreases v, 1int, 0int,
{
    match v {
        JsonValue::Obj(fields) => obj_lookup_at(fields, key, 0),
        _ => None,
    }
}

/// The value under the first occurrence of the key at or after `i`.
pub open spec fn obj_lookup_at(
    fields: Vec<(String, JsonValue)>,
    key: Seq<char>,
    i: int,
) -> Option<JsonValue>
    decreases fields, 2int, fields@.len() - i,
{
    if i < 0 || i >= fields@.len() {
        None
    } else if fields@[i].0@ == key {
        Some(fields@[i].1)
    } else {
        obj_lookup_at(fields, key, i + 1)
    }
}

impl JsonValue {
    /// Fetch a field of an object by key.
    pub fn get<'a>(&'a self, key: &str) -> (r: Option<&'a JsonValue>)
        ensures
            match r {
                Some(v) => obj_lookup(*self, key@) == Some(*v),
                None => obj_lookup(*self, key@) is None,
            },
    {
        match self {
            JsonValue::Obj(fields) => {
                let mut i: usize = 0;
                while i < fields.len()
                    invariant
                        i <= fields@.len(),
                        *self is Obj && self->Obj_0 == *fields,
                        obj_lookup_at(*fields, key@, 0) == obj_lookup_at(*fields, key@, i as int),
                    decreases fields@.len() - i,
                {
                    if str_eq(fields[i].0.as_str(), key) {
                        proof {
                            assert(obj_lookup_at(*fields, key@, i as int) == Some(
                                fields@[i as int].1,
                            ));
                            assert(obj_lookup(*self, key@) == obj_lookup_at(*fields, key@, 0));
                        }
                        return Some(&fields[i].1);
                    }
                    i = i + 1;
                }
                None
            },
            _ => None,
        }
    }

    /// The string content, when this is a string.
    pub fn as_str<'a>(&'a self) -> (r: Option<&'a String>)
        ensures
            match r {
                Some(s) => *self is Str && self->Str_0@ == s@,
                None => !(*self is Str),
            },
    {
        match self {
            JsonValue::Str(s) => Some(s),
            _ => None,
        }
    }

    /// The integer content, when this is an integer.
    pub fn as_i64(&self) -> (r: Option<i64>)
        ensures
            match r {
                Some(n) => *self is Int && self->Int_0 == n,
                None => !(*self is Int),
            },
    {
        match self {
            JsonValue::Int(n) => Some(*n),
            _ => None,
        }
    }

    /// Is this JSON `null`?
    pub fn is_null(&self) -> (r: bool)
        ensures
            r == (*self is Null),
    {
        matches!(self, JsonValue::Null)
    }
}

} // verus!

//! The payload encoder: the canonical JSON text of a payload value, and the
//! verified writer that produces exactly that text. Every payload value has
//! a text: characters that JSON cannot carry raw are escaped.

use crate::numbers::{hex_digit, hex_of, i64_to_string, int_chars};
use crate::strutil::push_char;
use crate::value::{
    arr_view, depth_arr, depth_obj, depth_val, lemma_arr_view, lemma_depth_arr, lemma_depth_obj,
    lemma_obj_view, obj_view, JsonVal, JsonValue,
};
use vstd::prelude::*;

verus! {

/// How one character appears inside a JSON string literal: quotes and
/// backslashes escaped, the common control characters as their short
/// escapes, the rest of the control range as `\u00XX`, everything else
/// raw.
pub open spec fn escape_char(c: char) -> Seq<char> {
    if c == '"' || c == '\\' {
        seq!['\\', c]
    } else if c == '\n' {
        seq!['\\', 'n']
    } else if c == '\t' {
        seq!['\\', 't']
    } else if c == '\r' {
        seq!['\\', 'r']
    } else if (c as u32) < 32 {
        seq!['\\', 'u', '0', '0', hex_digit(c as int / 16), hex_digit(c as int % 16)]
    } else {
        seq![c]
    }
}

/// How a text appears inside a JSON string literal.
pub open spec fn escape_str(s: Seq<char>) -> Seq<char>
    decreases s,
{
    if s.len() == 0 {
        Seq::empty()
    } else {
        escape_str(s.drop_last()) + escape_char(s.last())
    }
}

/// The canonical JSON text of a payload value: no whitespace, strings
/// quoted and escaped, numbers in decimal.
pub open spec fn spec_encode(m: JsonVal) -> Seq<char>
    decreases m, 0int,
{
    match m {
        JsonVal::Null => "null"@,
        JsonVal::Bool(b) => if b {
            "true"@
        } else {
            "false"@
        },
        JsonVal::Int(i) => int_chars(i),
        JsonVal::Str(s) => seq!['"'] + escape_str(s) + seq!['"'],
        JsonVal::Arr(es) => seq!['['] + encode_items(es) + seq![']'],
        JsonVal::Obj(kvs) => seq!['{'] + encode_entries(kvs) + seq!['}'],
    }
}

/// Array elements, comma-separated.
pub open spec fn encode_items(es: Seq<JsonVal>) -> Seq<char>
    decreases es, 0int,
{
    if es.len() == 0 {
        Seq::empty()
    } else if es.len() == 1 {
        spec_encode(es[0])
    } else {
        encode_items(es.drop_last()) + seq![','] + spec_encode(es.last())
    }
}

/// One object entry: quoted key, colon, value.
pub open spec fn encode_entry(k: Seq<char>, v: JsonVal) -> Seq<char>
    decreases v, 1int,
{
    seq!['"'] + escape_str(k) + seq!['"', ':'] + spec_encode(v)
}

/// Object entries, comma-separated.
pub open spec fn encode_entries(kvs: Seq<(Seq<char>, JsonVal)>) -> Seq<char>
    decreases kvs, 2int,
{
    if kvs.len() == 0 {
        Seq::empty()
    } else if kvs.len() == 1 {
        encode_entry(kvs[0].0, kvs[0].1)
    } else {
        encode_entries(kvs.drop_last()) + seq![','] + encode_entry(kvs.last().0, kvs.last().1)
    }
}

/// Append the escaped, quoted form of `s`.
fn encode_string_into(s: &str, out: &mut String)
    ensures
        final(out)@ == old(out)@ + seq!['"'] + escape_str(s@) + seq!['"'],
{
    let ghost start = old(out)@;
    push_char(out, '"');
    let n = s.unicode_len();
    let mut i: usize = 0;
    while i < n
        invariant
            n == s@.len(),
            i <= n,
            out@ == start + seq!['"'] + escape_str(s@.subrange(0, i as int)),
        decreases n - i,
    {
        let c = s.get_char(i);
        if c == '"' || c == '\\' {
            push_char(out, '\\');
            push_char(out, c);
        } else if c == '\n' {
            push_char(out, '\\');
            push_char(out, 'n');
        } else if c == '\t' {
            push_char(out, '\\');
            push_char(out, 't');
        } else if c == '\r' {
            push_char(out, '\\');
            push_char(out, 'r');
        } else if (c as u32) < 32 {
            let cu = c as u32;
            push_char(out, '\\');
            push_char(out, 'u');
            push_char(out, '0');
            push_char(out, '0');
            push_char(out, hex_of((cu / 16) as u64));
            push_char(out, hex_of((cu % 16) as u64));
            proof {
                assert(cu as int == c as int);
                assert((cu / 16) as int == c as int / 16);
                assert((cu % 16) as int == c as int % 16);
            }
        } else {
            push_char(out, c);
        }
        proof {
            assert(s@.subrange(0, i + 1).drop_last() =~= s@.subrange(0, i as int));
            assert(s@.subrange(0, i + 1).last() == s@[i as int]);
            assert(out@ =~= start + seq!['"'] + escape_str(s@.subrange(0, i + 1)));
        }
        i += 1;
    }
    push_char(out, '"');
    proof {
        assert(s@.subrange(0, n as int) =~= s@);
        assert(out@ =~= start + seq!['"'] + escape_str(s@) + seq!['"']);
    }
}

/// Append the canonical JSON text of `v`.
fn encode_into(v: &JsonValue, out: &mut String)
    ensures
        final(out)@ == old(out)@ + spec_encode(v@),
    decreases depth_val(v@),
{
    let ghost start = old(out)@;
    match v {
        JsonValue::Null => {
            out.append("null");
        },
        JsonValue::Bool(b) => {
            if *b {
                out.append("true");
            } else {
                out.append("false");
            }
        },
        JsonValue::Int(i) => {
            let t = i64_to_string(*i);
            out.append(t.as_str());
        },
        JsonValue::Str(s) => {
            encode_string_into(s.as_str(), out);
        },
        JsonValue::Arr(es) => {
            push_char(out, '[');
            proof {
                lemma_arr_view(es@);
                lemma_depth_arr(arr_view(es@));
                assert(arr_view(es@).subrange(0, 0) =~= Seq::<JsonVal>::empty());
            }
            let n = es.len();
            let mut i: usize = 0;
            while i < n
                invariant
                    v@ == JsonVal::Arr(arr_view(es@)),
                    n == es@.len(),
                    i <= n,
                    out@ == start + seq!['['] + encode_items(arr_view(es@).subrange(0, i as int)),
                    arr_view(es@).len() == es@.len(),
                decreases n - i,
            {
                proof {
                    lemma_arr_view(es@);
                    lemma_depth_arr(arr_view(es@));
                    assert(depth_val(arr_view(es@)[i as int]) <= depth_arr(arr_view(es@)));
                    assert(depth_val(v@) == 1 + depth_arr(arr_view(es@)));
                    assert(es@[i as int]@ == arr_view(es@)[i as int]);
                }
                if i > 0 {
                    push_char(out, ',');
                }
                encode_into(&es[i], out);
                proof {
                    let view = arr_view(es@);
                    assert(es@[i as int]@ == view[i as int]);
                    if i == 0 {
                        assert(view.subrange(0, 1)[0] == view[0]);
                        assert(encode_items(view.subrange(0, 1)) == spec_encode(view[0]));
                        assert(out@ =~= start + seq!['['] + encode_items(
                            view.subrange(0, i + 1),
                        ));
                    } else {
                        assert(view.subrange(0, i + 1).drop_last() =~= view.subrange(0, i as int));
                        assert(view.subrange(0, i + 1).last() == view[i as int]);
                        assert(view.subrange(0, i + 1).len() >= 2);
                        assert(encode_items(view.subrange(0, i + 1)) == encode_items(
                            view.subrange(0, i as int),
                        ) + seq![','] + spec_encode(view[i as int]));
                        assert(out@ =~= start + seq!['['] + encode_items(
                            view.subrange(0, i + 1),
                        ));
                    }
                }
                i += 1;
            }
            push_char(out, ']');
            proof {
                assert(arr_view(es@).subrange(0, n as int) =~= arr_view(es@));
                assert(out@ =~= start + spec_encode(v@));
            }
        },
        JsonValue::Obj(kvs) => {
            push_char(out, '{');
            proof {
                lemma_obj_view(kvs@);
                lemma_depth_obj(obj_view(kvs@));
                assert(obj_view(kvs@).subrange(0, 0) =~= Seq::<(Seq<char>, JsonVal)>::empty());
            }
            let n = kvs.len();
            let mut i: usize = 0;
            while i < n
                invariant
                    v@ == JsonVal::Obj(obj_view(kvs@)),
                    n == kvs@.len(),
                    i <= n,
                    out@ == start + seq!['{'] + encode_entries(
                        obj_view(kvs@).subrange(0, i as int),
                    ),
                    obj_view(kvs@).len() == kvs@.len(),
                decreases n - i,
            {
                proof {
                    lemma_obj_view(kvs@);
                    lemma_depth_obj(obj_view(kvs@));
                    assert(depth_val(obj_view(kvs@)[i as int].1) <= depth_obj(obj_view(kvs@)));
                    assert(depth_val(v@) == 1 + depth_obj(obj_view(kvs@)));
                    assert(kvs@[i as int].1@ == obj_view(kvs@)[i as int].1);
                    assert(kvs@[i as int].0@ == obj_view(kvs@)[i as int].0);
                }
                if i > 0 {
                    push_char(out, ',');
                }
                let entry = &kvs[i];
                encode_string_into(entry.0.as_str(), out);
                push_char(out, ':');
                encode_into(&entry.1, out);
                proof {
                    let view = obj_view(kvs@);
                    assert(kvs@[i as int].0@ == view[i as int].0);
                    assert(kvs@[i as int].1@ == view[i as int].1);
                    if i == 0 {
                        assert(view.subrange(0, 1)[0] == view[0]);
                        assert(encode_entries(view.subrange(0, 1)) == encode_entry(
                            view[0].0,
                            view[0].1,
                        ));
                        assert(out@ =~= start + seq!['{'] + encode_entries(
                            view.subrange(0, i + 1),
                        ));
                    } else {
                        assert(view.subrange(0, i + 1).drop_last() =~= view.subrange(0, i as int));
                        assert(view.subrange(0, i + 1).last() == view[i as int]);
                        assert(view.subrange(0, i + 1).len() >= 2);
                        assert(encode_entries(view.subrange(0, i + 1)) == encode_entries(
                            view.subrange(0, i as int),
                        ) + seq![','] + encode_entry(view[i as int].0, view[i as int].1));
                        assert(out@ =~= start + seq!['{'] + encode_entries(
                            view.subrange(0, i + 1),
                        ));
                    }
                }
                i += 1;
            }
            push_char(out, '}');
            proof {
                assert(obj_view(kvs@).subrange(0, n as int) =~= obj_view(kvs@));
                assert(out@ =~= start + spec_encode(v@));
            }
        },
    }
}

/// Serialize a payload value to its canonical JSON text: exactly
/// `spec_encode` of the value's model. Every payload value has a text.
pub fn encode(v: &JsonValue) -> (r: String)
    ensures
        r@ == spec_encode(v@),
{
    let mut out = String::new();
    encode_into(v, &mut out);
    out
}

} // verus!

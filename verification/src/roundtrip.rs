//! The codec round-trip law: reading back the canonical text of a
//! well-formed payload value yields exactly that value.

use crate::errors::DecodeError;
use crate::decode::{
    char_cp, cp_char, has_lit, is_ws, skip_ws, sp_digits, sp_elems, sp_entries, sp_number,
    sp_string, sp_value, spec_decode, spec_parse,
};
use crate::encode::{encode_entries, encode_entry, encode_items, escape_char, escape_str,
    spec_encode};
use crate::numbers::{
    dig_val, digits_val_acc, hex_digit, hex_val, int_chars, is_digit, lemma_uint_chars_digits,
    lemma_uint_chars_val, uint_chars,
};
use crate::value::{
    depth_arr, depth_obj, depth_val, lemma_depth_arr, lemma_depth_obj, lemma_wf_arr_iff,
    lemma_wf_obj_iff, wf_val, JsonVal, MAX_JSON_DEPTH,
};
use vstd::prelude::*;

verus! {

/// A character that can open the canonical text of some value.
pub open spec fn is_start_char(c: char) -> bool {
    c == 'n' || c == 't' || c == 'f' || c == '"' || c == '[' || c == '{' || c == '-' || is_digit(c)
}

proof fn lemma_encode_first(m: JsonVal)
    ensures
        spec_encode(m).len() >= 1,
        is_start_char(spec_encode(m)[0]),
{
    match m {
        JsonVal::Null => {
            reveal_strlit("null");
        },
        JsonVal::Bool(b) => {
            reveal_strlit("true");
            reveal_strlit("false");
        },
        JsonVal::Int(i) => {
            if i < 0 {
                lemma_uint_chars_digits((-i) as nat);
                assert(int_chars(i)[0] == '-');
            } else {
                lemma_uint_chars_digits(i as nat);
                assert(int_chars(i)[0] == uint_chars(i as nat)[0]);
            }
        },
        JsonVal::Str(s) => {
            assert(spec_encode(m)[0] == '"');
        },
        JsonVal::Arr(es) => {
            assert(spec_encode(m)[0] == '[');
        },
        JsonVal::Obj(kvs) => {
            assert(spec_encode(m)[0] == '{');
        },
    }
}

proof fn lemma_subrange_index(s: Seq<char>, a: int, b: int, x: Seq<char>, k: int)
    requires
        0 <= a <= b <= s.len(),
        s.subrange(a, b) == x,
        0 <= k < b - a,
    ensures
        s[a + k] == x[k],
{
    assert(s.subrange(a, b)[k] == s[a + k]);
}

proof fn lemma_subrange_sub(s: Seq<char>, a: int, b: int, x: Seq<char>, c: int, d: int)
    requires
        0 <= a <= b <= s.len(),
        s.subrange(a, b) == x,
        0 <= c <= d <= b - a,
    ensures
        s.subrange(a + c, a + d) == x.subrange(c, d),
{
    assert forall|t: int| 0 <= t < d - c implies s.subrange(a + c, a + d)[t] == x.subrange(
        c,
        d,
    )[t] by {
        assert(s.subrange(a + c, a + d)[t] == s[a + c + t]);
        assert(s.subrange(a, b)[c + t] == s[a + c + t]);
        assert(x.subrange(c, d)[t] == x[c + t]);
    }
    assert(s.subrange(a + c, a + d) =~= x.subrange(c, d));
}

/// Left unfolding of `encode_items`.
proof fn lemma_items_left(es: Seq<JsonVal>)
    requires
        es.len() >= 2,
    ensures
        encode_items(es) == spec_encode(es[0]) + seq![','] + encode_items(es.drop_first()),
    decreases es.len(),
{
    if es.len() == 2 {
        assert(es.drop_last()[0] == es[0]);
        assert(es.drop_last().len() == 1);
        assert(es.drop_first().len() == 1);
        assert(es.drop_first()[0] == es[1]);
        assert(es.last() == es[1]);
        assert(encode_items(es) == encode_items(es.drop_last()) + seq![','] + spec_encode(
            es.last(),
        ));
        assert(encode_items(es.drop_last()) == spec_encode(es[0]));
        assert(encode_items(es.drop_first()) == spec_encode(es[1]));
    } else {
        lemma_items_left(es.drop_last());
        assert(es.drop_last()[0] == es[0]);
        assert(es.drop_last().drop_first() =~= es.drop_first().drop_last());
        assert(encode_items(es) == encode_items(es.drop_last()) + seq![','] + spec_encode(
            es.last(),
        ));
        assert(encode_items(es.drop_last()) == spec_encode(es[0]) + seq![','] + encode_items(
            es.drop_last().drop_first(),
        ));
        assert(es.drop_first().len() >= 2);
        assert(es.drop_first().last() == es.last());
        assert(encode_items(es.drop_first()) == encode_items(es.drop_first().drop_last())
            + seq![','] + spec_encode(es.drop_first().last()));
        assert(encode_items(es) =~= spec_encode(es[0]) + seq![','] + encode_items(
            es.drop_first(),
        ));
    }
}

/// Left unfolding of `encode_entries`.
proof fn lemma_entries_left(kvs: Seq<(Seq<char>, JsonVal)>)
    requires
        kvs.len() >= 2,
    ensures
        encode_entries(kvs) == encode_entry(kvs[0].0, kvs[0].1) + seq![','] + encode_entries(
            kvs.drop_first(),
        ),
    decreases kvs.len(),
{
    if kvs.len() == 2 {
        assert(kvs.drop_last()[0] == kvs[0]);
        assert(kvs.drop_last().len() == 1);
        assert(kvs.drop_first().len() == 1);
        assert(kvs.drop_first()[0] == kvs[1]);
        assert(kvs.last() == kvs[1]);
        assert(encode_entries(kvs) == encode_entries(kvs.drop_last()) + seq![','] + encode_entry(
            kvs.last().0,
            kvs.last().1,
        ));
        assert(encode_entries(kvs.drop_last()) == encode_entry(kvs[0].0, kvs[0].1));
        assert(encode_entries(kvs.drop_first()) == encode_entry(kvs[1].0, kvs[1].1));
    } else {
        lemma_entries_left(kvs.drop_last());
        assert(kvs.drop_last()[0] == kvs[0]);
        assert(kvs.drop_last().drop_first() =~= kvs.drop_first().drop_last());
        assert(encode_entries(kvs) == encode_entries(kvs.drop_last()) + seq![','] + encode_entry(
            kvs.last().0,
            kvs.last().1,
        ));
        assert(encode_entries(kvs.drop_last()) == encode_entry(kvs[0].0, kvs[0].1) + seq![',']
            + encode_entries(kvs.drop_last().drop_first()));
        assert(kvs.drop_first().len() >= 2);
        assert(kvs.drop_first().last() == kvs.last());
        assert(encode_entries(kvs.drop_first()) == encode_entries(kvs.drop_first().drop_last())
            + seq![','] + encode_entry(kvs.drop_first().last().0, kvs.drop_first().last().1));
        assert(encode_entries(kvs) =~= encode_entry(kvs[0].0, kvs[0].1) + seq![',']
            + encode_entries(kvs.drop_first()));
    }
}

/// Left unfolding of `escape_str`.
proof fn lemma_escape_left(t: Seq<char>)
    requires
        t.len() >= 1,
    ensures
        escape_str(t) == escape_char(t[0]) + escape_str(t.drop_first()),
    decreases t.len(),
{
    if t.len() == 1 {
        assert(t.drop_last().len() == 0);
        assert(t.last() == t[0]);
        assert(t.drop_first().len() == 0);
        assert(escape_str(t) == escape_str(t.drop_last()) + escape_char(t.last()));
        assert(escape_str(t) =~= escape_char(t[0]) + escape_str(t.drop_first()));
    } else {
        lemma_escape_left(t.drop_last());
        assert(t.drop_last()[0] == t[0]);
        assert(t.drop_last().drop_first() =~= t.drop_first().drop_last());
        assert(escape_str(t) == escape_str(t.drop_last()) + escape_char(t.last()));
        assert(escape_str(t.drop_last()) == escape_char(t[0]) + escape_str(
            t.drop_last().drop_first(),
        ));
        assert(t.drop_first().last() == t.last());
        assert(escape_str(t.drop_first()) == escape_str(t.drop_first().drop_last()) + escape_char(
            t.drop_first().last(),
        ));
        assert(escape_str(t) =~= escape_char(t[0]) + escape_str(t.drop_first()));
    }
}

/// Reading a digit run that sits verbatim in `s` accumulates its value.
proof fn lemma_parse_digits_run(s: Seq<char>, i: int, ds: Seq<char>, acc: nat)
    requires
        0 <= i,
        ds.len() >= 1,
        i + ds.len() <= s.len(),
        s.subrange(i, i + ds.len()) == ds,
        forall|k: int| 0 <= k < ds.len() ==> is_digit(#[trigger] ds[k]),
        i + ds.len() == s.len() || !is_digit(s[i + ds.len()]),
    ensures
        sp_digits(s, i, acc) == (digits_val_acc(ds, acc), i + ds.len()),
    decreases ds.len(),
{
    lemma_subrange_index(s, i, i + ds.len(), ds, 0);
    assert(s[i] == ds[0]);
    assert(is_digit(s[i]));
    if ds.len() == 1 {
        assert(sp_digits(s, i, acc) == sp_digits(s, i + 1, (acc * 10 + dig_val(s[i])) as nat));
        assert(i + 1 == s.len() || !is_digit(s[i + 1]));
        assert(sp_digits(s, i + 1, (acc * 10 + dig_val(s[i])) as nat) == (
            (acc * 10 + dig_val(s[i])) as nat,
            i + 1,
        ));
        assert(ds.drop_first().len() == 0);
        assert(digits_val_acc(ds, acc) == digits_val_acc(
            ds.drop_first(),
            (acc * 10 + dig_val(ds[0])) as nat,
        ));
        assert(digits_val_acc(ds.drop_first(), (acc * 10 + dig_val(ds[0])) as nat) == (acc * 10
            + dig_val(ds[0])) as nat);
    } else {
        lemma_subrange_sub(s, i, i + ds.len(), ds, 1, ds.len() as int);
        assert(s.subrange(i + 1, i + ds.len()) == ds.subrange(1, ds.len() as int));
        assert(ds.subrange(1, ds.len() as int) =~= ds.drop_first());
        assert(forall|k: int|
            0 <= k < ds.drop_first().len() ==> is_digit(#[trigger] ds.drop_first()[k]));
        lemma_parse_digits_run(s, i + 1, ds.drop_first(), (acc * 10 + dig_val(s[i])) as nat);
        assert(sp_digits(s, i, acc) == sp_digits(s, i + 1, (acc * 10 + dig_val(s[i])) as nat));
        assert(digits_val_acc(ds, acc) == digits_val_acc(
            ds.drop_first(),
            (acc * 10 + dig_val(ds[0])) as nat,
        ));
    }
}

/// Reading the canonical text of an in-range integer yields that integer.
proof fn lemma_parse_int(s: Seq<char>, i: int, v: int)
    requires
        i64::MIN <= v <= i64::MAX,
        0 <= i,
        i + int_chars(v).len() <= s.len(),
        s.subrange(i, i + int_chars(v).len()) == int_chars(v),
        i + int_chars(v).len() == s.len() || !is_digit(s[i + int_chars(v).len()]),
    ensures
        sp_number(s, i) == Ok::<_, DecodeError>((JsonVal::Int(v), i + int_chars(v).len())),
{
    if v >= 0 {
        lemma_uint_chars_digits(v as nat);
        lemma_uint_chars_val(v as nat);
        assert(int_chars(v) == uint_chars(v as nat));
        lemma_subrange_index(s, i, i + int_chars(v).len(), int_chars(v), 0);
        assert(s[i] == uint_chars(v as nat)[0]);
        assert(is_digit(s[i]));
        assert(s[i] != '-');
        lemma_parse_digits_run(s, i, uint_chars(v as nat), 0);
        assert(sp_digits(s, i, 0) == (v as nat, i + int_chars(v).len()));
    } else {
        let mag = (-v) as nat;
        lemma_uint_chars_digits(mag);
        lemma_uint_chars_val(mag);
        assert(int_chars(v) == seq!['-'] + uint_chars(mag));
        lemma_subrange_index(s, i, i + int_chars(v).len(), int_chars(v), 0);
        assert(s[i] == '-');
        lemma_subrange_sub(s, i, i + int_chars(v).len(), int_chars(v), 1, int_chars(v).len() as int);
        assert(int_chars(v).subrange(1, int_chars(v).len() as int) =~= uint_chars(mag));
        assert(s.subrange(i + 1, i + int_chars(v).len()) == uint_chars(mag));
        lemma_subrange_index(s, i + 1, i + int_chars(v).len(), uint_chars(mag), 0);
        assert(is_digit(s[i + 1]));
        lemma_parse_digits_run(s, i + 1, uint_chars(mag), 0);
        assert(sp_digits(s, i + 1, 0) == (mag, i + int_chars(v).len()));
        assert(mag <= 9223372036854775808nat);
        assert(-(mag as int) == v);
    }
}

/// Any character's code point is a scalar value, the same under every
/// integer width.
proof fn lemma_char_bounds(c: char)
    ensures
        0 <= c as int <= 0x10FFFF,
        c as u32 as int == c as int,
{
}

/// A hexadecimal digit reads back as its value.
proof fn lemma_hex_digit_val(x: int)
    requires
        0 <= x < 16,
    ensures
        hex_val(hex_digit(x)) == x,
{
}

/// Reading the escaped form of any text yields that text.
#[verifier::rlimit(50)]
proof fn lemma_parse_escaped(s: Seq<char>, i: int, t: Seq<char>)
    requires
        0 <= i,
        i + escape_str(t).len() + 1 <= s.len(),
        s.subrange(i, i + escape_str(t).len()) == escape_str(t),
        s[i + escape_str(t).len()] == '"',
    ensures
        sp_string(s, i) == Ok::<_, DecodeError>((t, i + escape_str(t).len() + 1)),
    decreases t.len(),
{
    if t.len() == 0 {
        assert(escape_str(t).len() == 0);
        assert(s[i] == '"');
        assert(sp_string(s, i) == Ok::<_, DecodeError>((Seq::<char>::empty(), i + 1)));
        assert(t =~= Seq::<char>::empty());
    } else {
        lemma_escape_left(t);
        let c = t[0];
        let e = escape_char(c);
        let el = escape_str(t).len() as int;
        assert(escape_str(t) == e + escape_str(t.drop_first()));
        if c == '"' || c == '\\' {
            assert(e == seq!['\\', c]);
            lemma_subrange_index(s, i, i + el, escape_str(t), 0);
            lemma_subrange_index(s, i, i + el, escape_str(t), 1);
            assert(escape_str(t)[0] == '\\');
            assert(escape_str(t)[1] == c);
            assert(s[i] == '\\');
            assert(s[i + 1] == c);
            lemma_subrange_sub(s, i, i + el, escape_str(t), 2, el);
            assert(escape_str(t).subrange(2, el) =~= escape_str(t.drop_first()));
            lemma_parse_escaped(s, i + 2, t.drop_first());
            assert(sp_string(s, i + 2) == Ok::<_, DecodeError>(
                (t.drop_first(), i + el + 1),
            ));
            assert(seq![c] + t.drop_first() =~= t);
        } else if c == '\n' || c == '\t' || c == '\r' {
            let short = if c == '\n' {
                'n'
            } else if c == '\t' {
                't'
            } else {
                'r'
            };
            assert(e == seq!['\\', short]);
            lemma_subrange_index(s, i, i + el, escape_str(t), 0);
            lemma_subrange_index(s, i, i + el, escape_str(t), 1);
            assert(s[i] == '\\');
            assert(s[i + 1] == short);
            lemma_subrange_sub(s, i, i + el, escape_str(t), 2, el);
            assert(escape_str(t).subrange(2, el) =~= escape_str(t.drop_first()));
            lemma_parse_escaped(s, i + 2, t.drop_first());
            assert(sp_string(s, i + 2) == Ok::<_, DecodeError>(
                (t.drop_first(), i + el + 1),
            ));
            assert(seq![c] + t.drop_first() =~= t);
        } else if (c as u32) < 32 {
            lemma_char_bounds(t[0]);
            assert(c as u32 as int == c as int);
            assert(0 <= (c as int) && (c as int) < 32);
            let hi = c as int / 16;
            let lo = c as int % 16;
            assert(e == seq!['\\', 'u', '0', '0', hex_digit(hi), hex_digit(lo)]);
            lemma_subrange_index(s, i, i + el, escape_str(t), 0);
            lemma_subrange_index(s, i, i + el, escape_str(t), 1);
            lemma_subrange_index(s, i, i + el, escape_str(t), 2);
            lemma_subrange_index(s, i, i + el, escape_str(t), 3);
            lemma_subrange_index(s, i, i + el, escape_str(t), 4);
            lemma_subrange_index(s, i, i + el, escape_str(t), 5);
            assert(s[i] == '\\');
            assert(s[i + 1] == 'u');
            assert(s[i + 2] == '0');
            assert(s[i + 3] == '0');
            assert(s[i + 4] == hex_digit(hi));
            assert(s[i + 5] == hex_digit(lo));
            assert(hex_val('0') == 0);
            lemma_hex_digit_val(hi);
            lemma_hex_digit_val(lo);
            let n = hex_val(s[i + 2]) * 4096 + hex_val(s[i + 3]) * 256 + hex_val(s[i + 4]) * 16
                + hex_val(s[i + 5]);
            assert(hi * 16 + lo == c as int) by (nonlinear_arith)
                requires
                    hi == c as int / 16,
                    lo == c as int % 16,
            ;
            assert(n == c as int);
            assert(char_cp(c) == n);
            assert(char_cp(cp_char(n)) == n);
            assert(cp_char(n) == c);
            lemma_subrange_sub(s, i, i + el, escape_str(t), 6, el);
            assert(escape_str(t).subrange(6, el) =~= escape_str(t.drop_first()));
            lemma_parse_escaped(s, i + 6, t.drop_first());
            assert(sp_string(s, i + 6) == Ok::<_, DecodeError>(
                (t.drop_first(), i + el + 1),
            ));
            assert(seq![c] + t.drop_first() =~= t);
        } else {
            assert(e == seq![c]);
            lemma_subrange_index(s, i, i + el, escape_str(t), 0);
            assert(escape_str(t)[0] == c);
            assert(s[i] == c);
            assert(s[i] != '"' && s[i] != '\\');
            assert((s[i] as u32) >= 32);
            lemma_subrange_sub(s, i, i + el, escape_str(t), 1, el);
            assert(escape_str(t).subrange(1, el) =~= escape_str(t.drop_first()));
            lemma_parse_escaped(s, i + 1, t.drop_first());
            assert(sp_string(s, i + 1) == Ok::<_, DecodeError>(
                (t.drop_first(), i + el + 1),
            ));
            assert(seq![c] + t.drop_first() =~= t);
        }
    }
}

/// Reading the canonical text of a well-formed value, embedded in a larger
/// text and followed by anything that cannot extend a number, yields
/// exactly that value and stops exactly at its end.
proof fn lemma_parse_encode(s: Seq<char>, i: int, m: JsonVal, d: nat)
    requires
        wf_val(m),
        depth_val(m) <= d,
        0 <= i,
        i + spec_encode(m).len() <= s.len(),
        s.subrange(i, i + spec_encode(m).len()) == spec_encode(m),
        i + spec_encode(m).len() == s.len() || !is_digit(s[i + spec_encode(m).len()]),
    ensures
        sp_value(s, i, d) == Ok::<_, DecodeError>((m, i + spec_encode(m).len())),
    decreases m, 0int,
{
    let enc = spec_encode(m);
    let el = enc.len() as int;
    lemma_encode_first(m);
    lemma_subrange_index(s, i, i + el, enc, 0);
    assert(s[i] == enc[0]);
    assert(is_start_char(s[i]));
    assert(!is_ws(s[i]));
    assert(skip_ws(s, i) == i);
    match m {
        JsonVal::Null => {
            reveal_strlit("null");
            assert(enc == "null"@);
            assert(s[i] == 'n');
            assert(has_lit(s, i, "null"@));
        },
        JsonVal::Bool(b) => {
            reveal_strlit("true");
            reveal_strlit("false");
            if b {
                assert(enc == "true"@);
                assert(s[i] == 't');
                assert(has_lit(s, i, "true"@));
            } else {
                assert(enc == "false"@);
                assert(s[i] == 'f');
                assert(has_lit(s, i, "false"@));
            }
        },
        JsonVal::Int(v) => {
            assert(enc == int_chars(v));
            lemma_parse_int(s, i, v);
            assert(s[i] == '-' || is_digit(s[i]));
            assert(s[i] != 'n' && s[i] != 't' && s[i] != 'f' && s[i] != '"' && s[i] != '['
                && s[i] != '{');
            assert(sp_value(s, i, d) == sp_number(s, i));
        },
        JsonVal::Str(t) => {
            assert(enc == seq!['"'] + escape_str(t) + seq!['"']);
            assert(s[i] == '"');
            lemma_subrange_sub(s, i, i + el, enc, 1, el - 1);
            assert(enc.subrange(1, el - 1) =~= escape_str(t));
            assert(s.subrange(i + 1, i + el - 1) == escape_str(t));
            lemma_subrange_index(s, i, i + el, enc, el - 1);
            assert(enc[el - 1] == '"');
            assert(s[i + el - 1] == '"');
            lemma_parse_escaped(s, i + 1, t);
            assert(sp_string(s, i + 1) == Ok::<_, DecodeError>((t, i + el)));
        },
        JsonVal::Arr(es) => {
            assert(enc == seq!['['] + encode_items(es) + seq![']']);
            assert(s[i] == '[');
            let il = encode_items(es).len() as int;
            assert(el == il + 2);
            lemma_subrange_sub(s, i, i + el, enc, 1, 1 + il);
            assert(enc.subrange(1, 1 + il) =~= encode_items(es));
            assert(s.subrange(i + 1, i + 1 + il) == encode_items(es));
            lemma_subrange_index(s, i, i + el, enc, el - 1);
            assert(enc[el - 1] == ']');
            assert(s[i + 1 + il] == ']');
            if es.len() == 0 {
                assert(il == 0);
                assert(s[i + 1] == ']');
                assert(!is_ws(s[i + 1]));
                assert(skip_ws(s, i + 1) == i + 1);
                assert(sp_value(s, i, d) == Ok::<_, DecodeError>((JsonVal::Arr(Seq::empty()), i + 2)));
                assert(es =~= Seq::<JsonVal>::empty());
            } else {
                lemma_wf_arr_iff(es);
                lemma_depth_arr(es);
                assert(depth_val(m) == 1 + depth_arr(es));
                lemma_encode_first(es[0]);
                if es.len() == 1 {
                    assert(encode_items(es) == spec_encode(es[0]));
                } else {
                    lemma_items_left(es);
                }
                lemma_subrange_index(s, i + 1, i + 1 + il, encode_items(es), 0);
                assert(encode_items(es)[0] == spec_encode(es[0])[0]);
                assert(s[i + 1] == spec_encode(es[0])[0]);
                assert(!is_ws(s[i + 1]));
                assert(skip_ws(s, i + 1) == i + 1);
                assert(s[i + 1] != ']');
                lemma_parse_items(s, i + 1, es, (d - 1) as nat);
                assert(sp_elems(s, i + 1, (d - 1) as nat) == Ok::<_, DecodeError>((es, i + 1 + il + 1)));
                assert(sp_value(s, i, d) == Ok::<_, DecodeError>((JsonVal::Arr(es), i + el)));
            }
        },
        JsonVal::Obj(kvs) => {
            assert(enc == seq!['{'] + encode_entries(kvs) + seq!['}']);
            assert(s[i] == '{');
            let il = encode_entries(kvs).len() as int;
            assert(el == il + 2);
            lemma_subrange_sub(s, i, i + el, enc, 1, 1 + il);
            assert(enc.subrange(1, 1 + il) =~= encode_entries(kvs));
            assert(s.subrange(i + 1, i + 1 + il) == encode_entries(kvs));
            lemma_subrange_index(s, i, i + el, enc, el - 1);
            assert(enc[el - 1] == '}');
            assert(s[i + 1 + il] == '}');
            if kvs.len() == 0 {
                assert(il == 0);
                assert(s[i + 1] == '}');
                assert(!is_ws(s[i + 1]));
                assert(skip_ws(s, i + 1) == i + 1);
                assert(sp_value(s, i, d) == Ok::<_, DecodeError>((JsonVal::Obj(Seq::empty()), i + 2)));
                assert(kvs =~= Seq::<(Seq<char>, JsonVal)>::empty());
            } else {
                lemma_wf_obj_iff(kvs);
                lemma_depth_obj(kvs);
                assert(depth_val(m) == 1 + depth_obj(kvs));
                if kvs.len() == 1 {
                    assert(encode_entries(kvs) == encode_entry(kvs[0].0, kvs[0].1));
                } else {
                    lemma_entries_left(kvs);
                }
                lemma_subrange_index(s, i + 1, i + 1 + il, encode_entries(kvs), 0);
                assert(encode_entry(kvs[0].0, kvs[0].1)[0] == '"');
                assert(encode_entries(kvs)[0] == '"');
                assert(s[i + 1] == '"');
                assert(!is_ws(s[i + 1]));
                assert(skip_ws(s, i + 1) == i + 1);
                assert(s[i + 1] != '}');
                lemma_parse_entries(s, i + 1, kvs, (d - 1) as nat);
                assert(sp_entries(s, i + 1, (d - 1) as nat) == Ok::<_, DecodeError>((kvs, i + 1 + il + 1)));
                assert(sp_value(s, i, d) == Ok::<_, DecodeError>((JsonVal::Obj(kvs), i + el)));
            }
        },
    }
}

/// Reading a non-empty comma-separated element list followed by `]`.
proof fn lemma_parse_items(s: Seq<char>, i: int, es: Seq<JsonVal>, d: nat)
    requires
        es.len() >= 1,
        forall|k: int| 0 <= k < es.len() ==> wf_val(#[trigger] es[k]),
        forall|k: int| 0 <= k < es.len() ==> depth_val(#[trigger] es[k]) <= d,
        0 <= i,
        i + encode_items(es).len() + 1 <= s.len(),
        s.subrange(i, i + encode_items(es).len()) == encode_items(es),
        s[i + encode_items(es).len()] == ']',
    ensures
        sp_elems(s, i, d) == Ok::<_, DecodeError>((es, i + encode_items(es).len() + 1)),
    decreases es, 1int,
{
    let il = encode_items(es).len() as int;
    let e0 = spec_encode(es[0]);
    let e0l = e0.len() as int;
    lemma_encode_first(es[0]);
    if es.len() == 1 {
        assert(encode_items(es) == e0);
        lemma_parse_encode(s, i, es[0], d);
        assert(sp_value(s, i, d) == Ok::<_, DecodeError>((es[0], i + e0l)));
        assert(!is_ws(s[i + e0l]));
        assert(skip_ws(s, i + e0l) == i + e0l);
        assert(s[i + e0l] == ']');
        assert(seq![es[0]] =~= es);
    } else {
        lemma_items_left(es);
        assert(encode_items(es) == e0 + seq![','] + encode_items(es.drop_first()));
        lemma_subrange_sub(s, i, i + il, encode_items(es), 0, e0l);
        assert(encode_items(es).subrange(0, e0l) =~= e0);
        assert(s.subrange(i, i + e0l) == e0);
        lemma_subrange_index(s, i, i + il, encode_items(es), e0l);
        assert(encode_items(es)[e0l] == ',');
        assert(s[i + e0l] == ',');
        assert(!is_digit(','));
        lemma_parse_encode(s, i, es[0], d);
        assert(sp_value(s, i, d) == Ok::<_, DecodeError>((es[0], i + e0l)));
        assert(!is_ws(s[i + e0l]));
        assert(skip_ws(s, i + e0l) == i + e0l);
        lemma_subrange_sub(s, i, i + il, encode_items(es), e0l + 1, il);
        assert(encode_items(es).subrange(e0l + 1, il) =~= encode_items(es.drop_first()));
        assert(s.subrange(i + e0l + 1, i + il) == encode_items(es.drop_first()));
        assert(forall|k: int|
            0 <= k < es.drop_first().len() ==> #[trigger] es.drop_first()[k] == es[k + 1]);
        lemma_parse_items(s, i + e0l + 1, es.drop_first(), d);
        assert(sp_elems(s, i + e0l + 1, d) == Ok::<_, DecodeError>((es.drop_first(), i + il + 1)));
        assert(seq![es[0]] + es.drop_first() =~= es);
    }
}

/// Reading a non-empty comma-separated entry list followed by `}`.
proof fn lemma_parse_entries(s: Seq<char>, i: int, kvs: Seq<(Seq<char>, JsonVal)>, d: nat)
    requires
        kvs.len() >= 1,
        forall|k: int| 0 <= k < kvs.len() ==> wf_val((#[trigger] kvs[k]).1),
        forall|k: int| 0 <= k < kvs.len() ==> depth_val((#[trigger] kvs[k]).1) <= d,
        0 <= i,
        i + encode_entries(kvs).len() + 1 <= s.len(),
        s.subrange(i, i + encode_entries(kvs).len()) == encode_entries(kvs),
        s[i + encode_entries(kvs).len()] == '}',
    ensures
        sp_entries(s, i, d) == Ok::<_, DecodeError>((kvs, i + encode_entries(kvs).len() + 1)),
    decreases kvs, 1int,
{
    let il = encode_entries(kvs).len() as int;
    let key = kvs[0].0;
    let v0 = kvs[0].1;
    let ent = encode_entry(key, v0);
    let entl = ent.len() as int;
    let kl = escape_str(key).len() as int;
    let v0l = spec_encode(v0).len() as int;
    assert(ent == seq!['"'] + escape_str(key) + seq!['"', ':'] + spec_encode(v0));
    assert(entl == kl + 3 + v0l);
    // the entry sits at the front of the entry list text
    if kvs.len() == 1 {
        assert(encode_entries(kvs) == ent);
    } else {
        lemma_entries_left(kvs);
        assert(encode_entries(kvs) == ent + seq![','] + encode_entries(kvs.drop_first()));
    }
    lemma_subrange_sub(s, i, i + il, encode_entries(kvs), 0, entl);
    assert(encode_entries(kvs).subrange(0, entl) =~= ent);
    assert(s.subrange(i, i + entl) == ent);
    // key
    lemma_subrange_index(s, i, i + entl, ent, 0);
    assert(s[i] == '"');
    assert(skip_ws(s, i) == i);
    lemma_subrange_sub(s, i, i + entl, ent, 1, 1 + kl);
    assert(ent.subrange(1, 1 + kl) =~= escape_str(key));
    assert(s.subrange(i + 1, i + 1 + kl) == escape_str(key));
    lemma_subrange_index(s, i, i + entl, ent, 1 + kl);
    assert(ent[1 + kl] == '"');
    assert(s[i + 1 + kl] == '"');
    lemma_parse_escaped(s, i + 1, key);
    assert(sp_string(s, i + 1) == Ok::<_, DecodeError>((key, i + kl + 2)));
    // colon
    lemma_subrange_index(s, i, i + entl, ent, 2 + kl);
    assert(ent[2 + kl] == ':');
    assert(s[i + kl + 2] == ':');
    assert(!is_ws(s[i + kl + 2]));
    assert(skip_ws(s, i + kl + 2) == i + kl + 2);
    // value
    lemma_subrange_sub(s, i, i + entl, ent, 3 + kl, entl);
    assert(ent.subrange(3 + kl, entl) =~= spec_encode(v0));
    assert(s.subrange(i + kl + 3, i + entl) == spec_encode(v0));
    if kvs.len() == 1 {
        assert(i + entl == i + il);
        assert(s[i + entl] == '}');
    } else {
        lemma_subrange_index(s, i, i + il, encode_entries(kvs), entl);
        assert(encode_entries(kvs)[entl] == ',');
        assert(s[i + entl] == ',');
    }
    assert(!is_digit(s[i + entl]));
    lemma_parse_encode(s, i + kl + 3, v0, d);
    assert(sp_value(s, i + kl + 3, d) == Ok::<_, DecodeError>((v0, i + entl)));
    assert(!is_ws(s[i + entl]));
    assert(skip_ws(s, i + entl) == i + entl);
    if kvs.len() == 1 {
        assert(sp_entries(s, i, d) == Ok::<_, DecodeError>((seq![(key, v0)], i + il + 1)));
        assert(seq![(key, v0)] =~= kvs);
    } else {
        lemma_subrange_sub(s, i, i + il, encode_entries(kvs), entl + 1, il);
        assert(encode_entries(kvs).subrange(entl + 1, il) =~= encode_entries(kvs.drop_first()));
        assert(s.subrange(i + entl + 1, i + il) == encode_entries(kvs.drop_first()));
        assert(forall|k: int|
            0 <= k < kvs.drop_first().len() ==> #[trigger] kvs.drop_first()[k] == kvs[k + 1]);
        lemma_parse_entries(s, i + entl + 1, kvs.drop_first(), d);
        assert(sp_entries(s, i + entl + 1, d) == Ok::<_, DecodeError>((kvs.drop_first(), i + il + 1)));
        assert(seq![(key, v0)] + kvs.drop_first() =~= kvs);
    }
}

/// Round trip: reading back the canonical text of any well-formed payload
/// value that fits the recursion guard yields exactly that value.
pub proof fn lemma_decode_encode(m: JsonVal)
    requires
        wf_val(m),
        depth_val(m) <= MAX_JSON_DEPTH as nat,
    ensures
        spec_parse(spec_encode(m)) == Some(m),
{
    let s = spec_encode(m);
    assert(s.subrange(0, s.len() as int) =~= s);
    lemma_parse_encode(s, 0, m, MAX_JSON_DEPTH as nat);
    assert(sp_value(s, 0, MAX_JSON_DEPTH as nat) == Ok::<_, DecodeError>((m, s.len() as int)));
    assert(skip_ws(s, s.len() as int) == s.len());
    assert(spec_decode(s) == Ok::<JsonVal, crate::errors::DecodeError>(m));
}

} // verus!

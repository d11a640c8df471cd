//! The payload decoder: a deterministic specification of JSON parsing and
//! the verified reader that follows it exactly.
//!
//! The specification functions return the error wherever the text is not a
//! well-formed value; the executable reader returns `Ok` exactly where the
//! specification does, with the same value and end position, and otherwise
//! exactly the specification's error.

use crate::errors::DecodeError;
use crate::numbers::{dig_val, hex_val, hex_val_of, is_digit};
use crate::strutil::char_of_u32;
use crate::value::{arr_view, obj_view, JsonVal, JsonValue, MAX_JSON_DEPTH};
use vstd::prelude::*;

verus! {

/// JSON insignificant whitespace.
pub open spec fn is_ws(c: char) -> bool {
    c == ' ' || c == '\n' || c == '\t' || c == '\r'
}

/// The first position at or after `i` that does not hold whitespace.
pub open spec fn skip_ws(s: Seq<char>, i: int) -> int
    decreases s.len() - i,
{
    if 0 <= i < s.len() && is_ws(s[i]) {
        skip_ws(s, i + 1)
    } else {
        i
    }
}

/// The text holds `lit` starting at `i`.
pub open spec fn has_lit(s: Seq<char>, i: int, lit: Seq<char>) -> bool {
    &&& 0 <= i
    &&& i + lit.len() <= s.len()
    &&& s.subrange(i, i + lit.len()) == lit
}

/// The code point of a character.
pub open spec fn char_cp(c: char) -> int {
    c as int
}

/// The character with code point `n`; meaningful for scalar values.
pub open spec fn cp_char(n: int) -> char {
    choose|c: char| char_cp(c) == n
}

/// Greedy read of a run of decimal digits, accumulating left to right.
pub open spec fn sp_digits(s: Seq<char>, i: int, acc: nat) -> (nat, int)
    decreases s.len() - i,
{
    if 0 <= i < s.len() && is_digit(s[i]) {
        sp_digits(s, i + 1, (acc * 10 + dig_val(s[i])) as nat)
    } else {
        (acc, i)
    }
}

/// A number at `i`: an optional minus sign, then digits, within the stored
/// integer width.
pub open spec fn sp_number(s: Seq<char>, i: int) -> Result<(JsonVal, int), DecodeError> {
    let neg = 0 <= i < s.len() && s[i] == '-';
    let i0 = if neg {
        i + 1
    } else {
        i
    };
    if !(0 <= i0 < s.len() && is_digit(s[i0])) {
        Err(DecodeError::UnexpectedChar)
    } else {
        let (n, j) = sp_digits(s, i0, 0);
        if neg {
            if n > 9223372036854775808nat {
                Err(DecodeError::NumberOutOfRange)
            } else {
                Ok((JsonVal::Int(-(n as int)), j))
            }
        } else {
            if n > 9223372036854775807nat {
                Err(DecodeError::NumberOutOfRange)
            } else {
                Ok((JsonVal::Int(n as int), j))
            }
        }
    }
}

/// String contents from `i` (just after the opening quote) to the closing
/// quote: raw characters at U+0020 and above, the short escapes, and
/// `\uXXXX` for any scalar value the four hex digits name.
pub open spec fn sp_string(s: Seq<char>, i: int) -> Result<(Seq<char>, int), DecodeError>
    decreases s.len() - i,
{
    if !(0 <= i < s.len()) {
        Err(DecodeError::UnexpectedEnd)
    } else if s[i] == '"' {
        Ok((Seq::empty(), i + 1))
    } else if s[i] == '\\' {
        if i + 1 >= s.len() {
            Err(DecodeError::UnexpectedEnd)
        } else if s[i + 1] == 'u' {
            if i + 6 > s.len() {
                Err(DecodeError::UnexpectedEnd)
            } else if hex_val(s[i + 2]) < 16 && hex_val(s[i + 3]) < 16 && hex_val(s[i + 4]) < 16
                && hex_val(s[i + 5]) < 16 {
                let n = hex_val(s[i + 2]) * 4096 + hex_val(s[i + 3]) * 256 + hex_val(s[i + 4]) * 16
                    + hex_val(s[i + 5]);
                if n < 0xD800 || n >= 0xE000 {
                    match sp_string(s, i + 6) {
                        Err(er) => Err(er),
                        Ok((t, j)) => Ok((seq![cp_char(n)] + t, j)),
                    }
                } else {
                    Err(DecodeError::UnexpectedChar)
                }
            } else {
                Err(DecodeError::UnexpectedChar)
            }
        } else {
            let e = s[i + 1];
            let unescaped: Option<char> = if e == '"' {
                Some('"')
            } else if e == '\\' {
                Some('\\')
            } else if e == '/' {
                Some('/')
            } else if e == 'n' {
                Some('\n')
            } else if e == 't' {
                Some('\t')
            } else if e == 'r' {
                Some('\r')
            } else if e == 'b' {
                Some('\u{8}')
            } else if e == 'f' {
                Some('\u{c}')
            } else {
                None
            };
            match unescaped {
                None => Err(DecodeError::UnexpectedChar),
                Some(c) => match sp_string(s, i + 2) {
                    Err(er) => Err(er),
                    Ok((t, j)) => Ok((seq![c] + t, j)),
                },
            }
        }
    } else if (s[i] as u32) < 32 {
        Err(DecodeError::UnexpectedChar)
    } else {
        match sp_string(s, i + 1) {
            Err(er) => Err(er),
            Ok((t, j)) => Ok((seq![s[i]] + t, j)),
        }
    }
}

/// A value at `i`, with nesting budget `d`. Each level of array or object
/// nesting costs one unit of budget; a budget of zero reads nothing.
pub open spec fn sp_value(s: Seq<char>, i: int, d: nat) -> Result<(JsonVal, int), DecodeError>
    decreases d, s.len() - i, 0int,
{
    if d == 0 {
        Err(DecodeError::TooDeep)
    } else {
        let j = skip_ws(s, i);
        if !(0 <= i && i <= j && j <= s.len()) {
            Err(DecodeError::UnexpectedChar)
        } else if j >= s.len() {
            Err(DecodeError::UnexpectedEnd)
        } else {
            let c = s[j];
            if c == 'n' {
                if has_lit(s, j, "null"@) {
                    Ok((JsonVal::Null, j + 4))
                } else {
                    Err(DecodeError::UnexpectedChar)
                }
            } else if c == 't' {
                if has_lit(s, j, "true"@) {
                    Ok((JsonVal::Bool(true), j + 4))
                } else {
                    Err(DecodeError::UnexpectedChar)
                }
            } else if c == 'f' {
                if has_lit(s, j, "false"@) {
                    Ok((JsonVal::Bool(false), j + 5))
                } else {
                    Err(DecodeError::UnexpectedChar)
                }
            } else if c == '"' {
                match sp_string(s, j + 1) {
                    Err(er) => Err(er),
                    Ok((t, k)) => Ok((JsonVal::Str(t), k)),
                }
            } else if c == '[' {
                let j2 = skip_ws(s, j + 1);
                if j + 1 <= j2 && j2 < s.len() && s[j2] == ']' {
                    Ok((JsonVal::Arr(Seq::empty()), j2 + 1))
                } else {
                    match sp_elems(s, j + 1, (d - 1) as nat) {
                        Err(er) => Err(er),
                        Ok((vs, k)) => Ok((JsonVal::Arr(vs), k)),
                    }
                }
            } else if c == '{' {
                let j2 = skip_ws(s, j + 1);
                if j + 1 <= j2 && j2 < s.len() && s[j2] == '}' {
                    Ok((JsonVal::Obj(Seq::empty()), j2 + 1))
                } else {
                    match sp_entries(s, j + 1, (d - 1) as nat) {
                        Err(er) => Err(er),
                        Ok((kvs, k)) => Ok((JsonVal::Obj(kvs), k)),
                    }
                }
            } else if c == '-' || is_digit(c) {
                sp_number(s, j)
            } else {
                Err(DecodeError::UnexpectedChar)
            }
        }
    }
}

/// One or more comma-separated array elements followed by `]`.
pub open spec fn sp_elems(s: Seq<char>, i: int, d: nat) -> Result<(Seq<JsonVal>, int), DecodeError>
    decreases d, s.len() - i, 1int,
{
    match sp_value(s, i, d) {
        Err(er) => Err(er),
        Ok((v, j)) => {
            if !(i < j && j <= s.len()) {
                Err(DecodeError::UnexpectedChar)
            } else {
                let j2 = skip_ws(s, j);
                if !(j <= j2 && j2 <= s.len()) {
                    Err(DecodeError::UnexpectedChar)
                } else if j2 >= s.len() {
                    Err(DecodeError::UnexpectedEnd)
                } else if s[j2] == ',' {
                    match sp_elems(s, j2 + 1, d) {
                        Err(er) => Err(er),
                        Ok((vs, k)) => Ok((seq![v] + vs, k)),
                    }
                } else if s[j2] == ']' {
                    Ok((seq![v], j2 + 1))
                } else {
                    Err(DecodeError::UnexpectedChar)
                }
            }
        },
    }
}

/// One or more comma-separated `"key": value` entries followed by `}`.
pub open spec fn sp_entries(s: Seq<char>, i: int, d: nat) -> Result<
    (Seq<(Seq<char>, JsonVal)>, int),
    DecodeError,
>
    decreases d, s.len() - i, 1int,
{
    if !(0 <= i && i <= s.len()) {
        Err(DecodeError::UnexpectedChar)
    } else {
        let j0 = skip_ws(s, i);
        if !(i <= j0 && j0 <= s.len()) {
            Err(DecodeError::UnexpectedChar)
        } else if j0 >= s.len() {
            Err(DecodeError::UnexpectedEnd)
        } else if s[j0] != '"' {
            Err(DecodeError::UnexpectedChar)
        } else {
            match sp_string(s, j0 + 1) {
                Err(er) => Err(er),
                Ok((k, j1)) => {
                    if !(j0 < j1 && j1 <= s.len()) {
                        Err(DecodeError::UnexpectedChar)
                    } else {
                        let j2 = skip_ws(s, j1);
                        if !(j1 <= j2 && j2 <= s.len()) {
                            Err(DecodeError::UnexpectedChar)
                        } else if j2 >= s.len() {
                            Err(DecodeError::UnexpectedEnd)
                        } else if s[j2] != ':' {
                            Err(DecodeError::UnexpectedChar)
                        } else {
                            match sp_value(s, j2 + 1, d) {
                                Err(er) => Err(er),
                                Ok((v, j3)) => {
                                    if !(j2 < j3 && j3 <= s.len()) {
                                        Err(DecodeError::UnexpectedChar)
                                    } else {
                                        let j4 = skip_ws(s, j3);
                                        if !(j3 <= j4 && j4 <= s.len()) {
                                            Err(DecodeError::UnexpectedChar)
                                        } else if j4 >= s.len() {
                                            Err(DecodeError::UnexpectedEnd)
                                        } else if s[j4] == ',' {
                                            match sp_entries(s, j4 + 1, d) {
                                                Err(er) => Err(er),
                                                Ok((kvs, k2)) => Ok(
                                                    (seq![(k, v)] + kvs, k2),
                                                ),
                                            }
                                        } else if s[j4] == '}' {
                                            Ok((seq![(k, v)], j4 + 1))
                                        } else {
                                            Err(DecodeError::UnexpectedChar)
                                        }
                                    }
                                },
                            }
                        }
                    }
                },
            }
        }
    }
}

/// The whole text as one value: leading and trailing whitespace allowed,
/// nothing else around it; and the error where there is no such value.
pub open spec fn spec_decode(s: Seq<char>) -> Result<JsonVal, DecodeError> {
    match sp_value(s, 0, MAX_JSON_DEPTH as nat) {
        Err(er) => Err(er),
        Ok((v, j)) => {
            if skip_ws(s, j) == s.len() {
                Ok(v)
            } else {
                Err(DecodeError::TrailingText)
            }
        },
    }
}

/// The value the whole text holds, if any.
pub open spec fn spec_parse(s: Seq<char>) -> Option<JsonVal> {
    match spec_decode(s) {
        Ok(v) => Some(v),
        Err(_) => None,
    }
}

/// The error the decoder reports for a text it cannot read; meaningful
/// only when `spec_parse` is `None`.
pub open spec fn spec_decode_err(s: Seq<char>) -> DecodeError
    recommends
        spec_parse(s) is None,
{
    match spec_decode(s) {
        Ok(_) => DecodeError::UnexpectedEnd,
        Err(er) => er,
    }
}

proof fn lemma_sp_digits_bounds(s: Seq<char>, i: int, acc: nat)
    requires
        0 <= i <= s.len(),
    ensures
        i <= sp_digits(s, i, acc).1 <= s.len(),
        sp_digits(s, i, acc).0 >= acc,
    decreases s.len() - i,
{
    if i < s.len() && is_digit(s[i]) {
        assert(acc * 10 + dig_val(s[i]) >= acc) by (nonlinear_arith);
        lemma_sp_digits_bounds(s, i + 1, (acc * 10 + dig_val(s[i])) as nat);
    }
}

/// The characters of a text, in order.
fn chars_of(s: &str) -> (v: Vec<char>)
    ensures
        v@ == s@,
{
    let n = s.unicode_len();
    let mut v: Vec<char> = Vec::new();
    let mut i: usize = 0;
    while i < n
        invariant
            n == s@.len(),
            i <= n,
            v@ == s@.subrange(0, i as int),
        decreases n - i,
    {
        v.push(s.get_char(i));
        proof {
            assert(v@ =~= s@.subrange(0, i + 1));
        }
        i += 1;
    }
    proof {
        assert(s@.subrange(0, n as int) =~= s@);
    }
    v
}

fn skip_ws_exec(s: &Vec<char>, i: usize) -> (j: usize)
    requires
        i as int <= s@.len(),
    ensures
        j as int == skip_ws(s@, i as int),
        i <= j,
        j as int <= s@.len(),
{
    let mut j = i;
    while j < s.len() && (s[j] == ' ' || s[j] == '\n' || s[j] == '\t' || s[j] == '\r')
        invariant
            i <= j,
            j as int <= s@.len(),
            skip_ws(s@, i as int) == skip_ws(s@, j as int),
        decreases s@.len() - j,
    {
        j += 1;
    }
    j
}

/// The value of a digit character, ten for anything else.
fn digit_val(c: char) -> (d: u64)
    ensures
        d == dig_val(c),
{
    if c == '0' {
        0
    } else if c == '1' {
        1
    } else if c == '2' {
        2
    } else if c == '3' {
        3
    } else if c == '4' {
        4
    } else if c == '5' {
        5
    } else if c == '6' {
        6
    } else if c == '7' {
        7
    } else if c == '8' {
        8
    } else if c == '9' {
        9
    } else {
        10
    }
}

/// Read a digit run. Returns (overflowed, value, end); on overflow the true
/// value does not fit the accumulator and only the end position is exact.
fn parse_digits(s: &Vec<char>, i: usize) -> (r: (bool, u64, usize))
    requires
        i as int <= s@.len(),
    ensures
        ({
            let (n, j) = sp_digits(s@, i as int, 0);
            &&& r.2 as int == j
            &&& i <= r.2
            &&& r.2 as int <= s@.len()
            &&& (!r.0 ==> r.1 == n)
            &&& (r.0 ==> n > u64::MAX)
        }),
{
    let mut acc: u64 = 0;
    let mut over: bool = false;
    let mut j: usize = i;
    let ghost mut racc: nat = 0nat;
    while j < s.len() && digit_val(s[j]) < 10
        invariant
            i <= j,
            j as int <= s@.len(),
            sp_digits(s@, i as int, 0) == sp_digits(s@, j as int, racc),
            !over ==> racc == acc,
            over ==> racc > u64::MAX,
        decreases s@.len() - j,
    {
        let d = digit_val(s[j]);
        let ghost racc_old = racc;
        proof {
            racc = (racc * 10 + dig_val(s@[j as int])) as nat;
        }
        if !over {
            if acc > (u64::MAX - d) / 10 {
                over = true;
                proof {
                    assert(racc_old * 10 + d > u64::MAX) by (nonlinear_arith)
                        requires
                            racc_old == acc,
                            acc > (u64::MAX - d) / 10,
                            d < 10,
                    ;
                }
            } else {
                proof {
                    assert(acc * 10 + d <= u64::MAX) by (nonlinear_arith)
                        requires
                            acc <= (u64::MAX - d) / 10,
                            d < 10,
                    ;
                }
                acc = acc * 10 + d;
            }
        } else {
            proof {
                assert(racc_old * 10 + dig_val(s@[j as int]) > u64::MAX) by (nonlinear_arith)
                    requires
                        racc_old > u64::MAX,
                        dig_val(s@[j as int]) >= 0,
                ;
            }
        }
        j += 1;
    }
    proof {
        lemma_sp_digits_bounds(s@, i as int, 0);
    }
    (over, acc, j)
}

/// Read a number per `sp_number`.
fn parse_number(s: &Vec<char>, i: usize) -> (r: Result<(JsonValue, usize), DecodeError>)
    requires
        i as int <= s@.len(),
    ensures
        ({
            let sp = sp_number(s@, i as int);
            &&& (r matches Ok(t) ==> sp == Ok::<_, DecodeError>((t.0@, t.1 as int)) && i < t.1 && t.1 as int
                <= s@.len())
            &&& (r matches Err(e) ==> sp matches Err(e2) && e == e2)
        }),
{
    let neg = i < s.len() && s[i] == '-';
    let i0 = if neg {
        i + 1
    } else {
        i
    };
    if !(i0 < s.len() && digit_val(s[i0]) < 10) {
        return Err(DecodeError::UnexpectedChar);
    }
    let (over, n, j) = parse_digits(s, i0);
    proof {
        assert(sp_digits(s@, i0 as int, 0) == sp_digits(
            s@,
            i0 + 1,
            (0 * 10 + dig_val(s@[i0 as int])) as nat,
        ));
        lemma_sp_digits_bounds(s@, i0 + 1, (0 * 10 + dig_val(s@[i0 as int])) as nat);
    }
    if neg {
        if over || n > 9223372036854775808u64 {
            return Err(DecodeError::NumberOutOfRange);
        }
        let v: i64 = if n == 9223372036854775808u64 {
            i64::MIN
        } else {
            -(n as i64)
        };
        Ok((JsonValue::Int(v), j))
    } else {
        if over || n > 9223372036854775807u64 {
            return Err(DecodeError::NumberOutOfRange);
        }
        Ok((JsonValue::Int(n as i64), j))
    }
}

/// Read string contents per `sp_string`, building the unescaped text.
fn parse_string(s: &Vec<char>, i: usize) -> (r: Result<(String, usize), DecodeError>)
    requires
        i as int <= s@.len(),
    ensures
        ({
            let sp = sp_string(s@, i as int);
            &&& (r matches Ok(t) ==> sp == Ok::<_, DecodeError>((t.0@, t.1 as int)) && i < t.1 && t.1 as int
                <= s@.len())
            &&& (r matches Err(e) ==> sp matches Err(e2) && e == e2)
        }),
{
    let mut out = String::new();
    let mut j = i;
    loop
        invariant
            i <= j,
            j as int <= s@.len(),
            match sp_string(s@, j as int) {
                Ok(t) => sp_string(s@, i as int) == Ok::<_, DecodeError>((out@ + t.0, t.1)),
                Err(er) => sp_string(s@, i as int) matches Err(er2) && er2 == er,
            },
        decreases s@.len() - j,
    {
        if j >= s.len() {
            return Err(DecodeError::UnexpectedEnd);
        }
        let c = s[j];
        if c == '"' {
            proof {
                assert(out@ + Seq::<char>::empty() =~= out@);
            }
            return Ok((out, j + 1));
        } else if c == '\\' {
            if j + 1 >= s.len() {
                return Err(DecodeError::UnexpectedEnd);
            }
            let e = s[j + 1];
            if e == 'u' {
                if s.len() - j < 6 {
                    return Err(DecodeError::UnexpectedEnd);
                }
                let h1 = hex_val_of(s[j + 2]);
                let h2 = hex_val_of(s[j + 3]);
                let h3 = hex_val_of(s[j + 4]);
                let h4 = hex_val_of(s[j + 5]);
                if h1 >= 16 || h2 >= 16 || h3 >= 16 || h4 >= 16 {
                    return Err(DecodeError::UnexpectedChar);
                }
                let nn: u64 = h1 * 4096 + h2 * 256 + h3 * 16 + h4;
                let n: u32 = nn as u32;
                if n >= 0xD800 && n < 0xE000 {
                    return Err(DecodeError::UnexpectedChar);
                }
                let c2 = char_of_u32(n);
                let ghost out_old = out@;
                crate::strutil::push_char(&mut out, c2);
                proof {
                    assert(char_cp(c2) == n as int);
                    assert(char_cp(cp_char(n as int)) == n as int);
                    assert(cp_char(n as int) == c2);
                    match sp_string(s@, j + 6) {
                        Ok(t) => {
                            assert(sp_string(s@, j as int) == Ok::<_, DecodeError>((seq![c2] + t.0, t.1)));
                            assert(out_old + (seq![c2] + t.0) =~= out@ + t.0);
                        },
                        Err(_) => {},
                    }
                }
                j += 6;
            } else {
                let c2: char;
                if e == '"' {
                    c2 = '"';
                } else if e == '\\' {
                    c2 = '\\';
                } else if e == '/' {
                    c2 = '/';
                } else if e == 'n' {
                    c2 = '\n';
                } else if e == 't' {
                    c2 = '\t';
                } else if e == 'r' {
                    c2 = '\r';
                } else if e == 'b' {
                    c2 = '\u{8}';
                } else if e == 'f' {
                    c2 = '\u{c}';
                } else {
                    return Err(DecodeError::UnexpectedChar);
                }
                let ghost out_old = out@;
                crate::strutil::push_char(&mut out, c2);
                proof {
                    match sp_string(s@, j + 2) {
                        Ok(t) => {
                            assert(sp_string(s@, j as int) == Ok::<_, DecodeError>((seq![c2] + t.0, t.1)));
                            assert(out_old + (seq![c2] + t.0) =~= out@ + t.0);
                        },
                        Err(_) => {},
                    }
                }
                j += 2;
            }
        } else if (c as u32) < 32 {
            return Err(DecodeError::UnexpectedChar);
        } else {
            let ghost out_old = out@;
            crate::strutil::push_char(&mut out, c);
            proof {
                match sp_string(s@, j + 1) {
                    Ok(t) => {
                        assert(sp_string(s@, j as int) == Ok::<_, DecodeError>((seq![c] + t.0, t.1)));
                        assert(out_old + (seq![c] + t.0) =~= out@ + t.0);
                    },
                    Err(_) => {},
                }
            }
            j += 1;
        }
    }
}

/// Read a value per `sp_value`.
fn parse_value(s: &Vec<char>, i: usize, d: usize) -> (r: Result<(JsonValue, usize), DecodeError>)
    requires
        i as int <= s@.len(),
    ensures
        ({
            let sp = sp_value(s@, i as int, d as nat);
            &&& (r matches Ok(t) ==> sp == Ok::<_, DecodeError>((t.0@, t.1 as int)) && i < t.1 && t.1 as int
                <= s@.len())
            &&& (r matches Err(e) ==> sp matches Err(e2) && e == e2)
        }),
    decreases d, s@.len() - i, 0int,
{
    if d == 0 {
        return Err(DecodeError::TooDeep);
    }
    let j = skip_ws_exec(s, i);
    if j >= s.len() {
        return Err(DecodeError::UnexpectedEnd);
    }
    let c = s[j];
    if c == 'n' {
        proof {
            reveal_strlit("null");
        }
        if s.len() - j > 3 && s[j + 1] == 'u' && s[j + 2] == 'l' && s[j + 3] == 'l' {
            proof {
                assert(s@.subrange(j as int, j as int + 4) =~= "null"@);
                assert(has_lit(s@, j as int, "null"@));
            }
            Ok((JsonValue::Null, j + 4))
        } else {
            proof {
                if has_lit(s@, j as int, "null"@) {
                    assert(s@.subrange(j as int, j as int + 4)[1] == s@[j as int + 1]);
                    assert(s@.subrange(j as int, j as int + 4)[2] == s@[j as int + 2]);
                    assert(s@.subrange(j as int, j as int + 4)[3] == s@[j as int + 3]);
                }
            }
            Err(DecodeError::UnexpectedChar)
        }
    } else if c == 't' {
        proof {
            reveal_strlit("true");
        }
        if s.len() - j > 3 && s[j + 1] == 'r' && s[j + 2] == 'u' && s[j + 3] == 'e' {
            proof {
                assert(s@.subrange(j as int, j as int + 4) =~= "true"@);
                assert(has_lit(s@, j as int, "true"@));
            }
            Ok((JsonValue::Bool(true), j + 4))
        } else {
            proof {
                if has_lit(s@, j as int, "true"@) {
                    assert(s@.subrange(j as int, j as int + 4)[1] == s@[j as int + 1]);
                    assert(s@.subrange(j as int, j as int + 4)[2] == s@[j as int + 2]);
                    assert(s@.subrange(j as int, j as int + 4)[3] == s@[j as int + 3]);
                }
            }
            Err(DecodeError::UnexpectedChar)
        }
    } else if c == 'f' {
        proof {
            reveal_strlit("false");
        }
        if s.len() - j > 4 && s[j + 1] == 'a' && s[j + 2] == 'l' && s[j + 3] == 's' && s[j + 4]
            == 'e' {
            proof {
                assert(s@.subrange(j as int, j as int + 5) =~= "false"@);
                assert(has_lit(s@, j as int, "false"@));
            }
            Ok((JsonValue::Bool(false), j + 5))
        } else {
            proof {
                if has_lit(s@, j as int, "false"@) {
                    assert(s@.subrange(j as int, j as int + 5)[1] == s@[j as int + 1]);
                    assert(s@.subrange(j as int, j as int + 5)[2] == s@[j as int + 2]);
                    assert(s@.subrange(j as int, j as int + 5)[3] == s@[j as int + 3]);
                    assert(s@.subrange(j as int, j as int + 5)[4] == s@[j as int + 4]);
                }
            }
            Err(DecodeError::UnexpectedChar)
        }
    } else if c == '"' {
        match parse_string(s, j + 1) {
            Ok((t, k)) => Ok((JsonValue::Str(t), k)),
            Err(e) => Err(e),
        }
    } else if c == '[' {
        let j2 = skip_ws_exec(s, j + 1);
        if j2 < s.len() && s[j2] == ']' {
            proof {
                assert(arr_view(Seq::<JsonValue>::empty()) =~= Seq::<JsonVal>::empty());
            }
            Ok((JsonValue::Arr(Vec::new()), j2 + 1))
        } else {
            match parse_elems(s, j + 1, d - 1) {
                Ok((vs, k)) => Ok((JsonValue::Arr(vs), k)),
                Err(e) => Err(e),
            }
        }
    } else if c == '{' {
        let j2 = skip_ws_exec(s, j + 1);
        if j2 < s.len() && s[j2] == '}' {
            proof {
                assert(obj_view(Seq::<(String, JsonValue)>::empty()) =~= Seq::<
                    (Seq<char>, JsonVal),
                >::empty());
            }
            Ok((JsonValue::Obj(Vec::new()), j2 + 1))
        } else {
            match parse_entries(s, j + 1, d - 1) {
                Ok((kvs, k)) => Ok((JsonValue::Obj(kvs), k)),
                Err(e) => Err(e),
            }
        }
    } else {
        let dv = digit_val(c);
        if c == '-' || dv < 10 {
            parse_number(s, j)
        } else {
            Err(DecodeError::UnexpectedChar)
        }
    }
}

/// Read array elements per `sp_elems`.
fn parse_elems(s: &Vec<char>, i: usize, d: usize) -> (r: Result<
    (Vec<JsonValue>, usize),
    DecodeError,
>)
    requires
        i as int <= s@.len(),
    ensures
        ({
            let sp = sp_elems(s@, i as int, d as nat);
            &&& (r matches Ok(t) ==> sp == Ok::<_, DecodeError>((arr_view(t.0@), t.1 as int)) && i < t.1 && t.1
                as int <= s@.len())
            &&& (r matches Err(e) ==> sp matches Err(e2) && e == e2)
        }),
    decreases d, s@.len() - i, 1int,
{
    let mut items: Vec<JsonValue> = Vec::new();
    let mut cur: usize = i;
    loop
        invariant
            i <= cur,
            cur as int <= s@.len(),
            match sp_elems(s@, cur as int, d as nat) {
                Ok(t) => sp_elems(s@, i as int, d as nat) == Ok::<_, DecodeError>((arr_view(items@) + t.0, t.1)),
                Err(er) => sp_elems(s@, i as int, d as nat) matches Err(er2) && er2 == er,
            },
        decreases s@.len() - cur,
    {
        match parse_value(s, cur, d) {
            Err(e) => {
                return Err(e);
            },
            Ok((v, j)) => {
                let j2 = skip_ws_exec(s, j);
                if j2 >= s.len() {
                    return Err(DecodeError::UnexpectedEnd);
                }
                if s[j2] == ',' {
                    let ghost items_old = items@;
                    items.push(v);
                    proof {
                        assert(items@.drop_last() =~= items_old);
                        assert(arr_view(items@) == arr_view(items_old).push(v@));
                        match sp_elems(s@, j2 + 1, d as nat) {
                            Ok(t) => {
                                assert(sp_elems(s@, cur as int, d as nat) == Ok::<_, DecodeError>(
                                    (seq![v@] + t.0, t.1),
                                ));
                                assert(arr_view(items_old) + (seq![v@] + t.0) =~= arr_view(items@)
                                    + t.0);
                            },
                            Err(_) => {},
                        }
                    }
                    cur = j2 + 1;
                } else if s[j2] == ']' {
                    let ghost items_old = items@;
                    items.push(v);
                    proof {
                        assert(items@.drop_last() =~= items_old);
                        assert(arr_view(items@) == arr_view(items_old).push(v@));
                        assert(sp_elems(s@, cur as int, d as nat) == Ok::<_, DecodeError>(
                            (seq![v@], (j2 + 1) as int),
                        ));
                        assert(arr_view(items_old) + seq![v@] =~= arr_view(items@));
                    }
                    return Ok((items, j2 + 1));
                } else {
                    return Err(DecodeError::UnexpectedChar);
                }
            },
        }
    }
}

/// Read object entries per `sp_entries`.
fn parse_entries(s: &Vec<char>, i: usize, d: usize) -> (r: Result<
    (Vec<(String, JsonValue)>, usize),
    DecodeError,
>)
    requires
        i as int <= s@.len(),
    ensures
        ({
            let sp = sp_entries(s@, i as int, d as nat);
            &&& (r matches Ok(t) ==> sp == Ok::<_, DecodeError>((obj_view(t.0@), t.1 as int)) && i < t.1 && t.1
                as int <= s@.len())
            &&& (r matches Err(e) ==> sp matches Err(e2) && e == e2)
        }),
    decreases d, s@.len() - i, 1int,
{
    let mut entries: Vec<(String, JsonValue)> = Vec::new();
    let mut cur: usize = i;
    loop
        invariant
            i <= cur,
            cur as int <= s@.len(),
            match sp_entries(s@, cur as int, d as nat) {
                Ok(t) => sp_entries(s@, i as int, d as nat) == Ok::<_, DecodeError>((obj_view(entries@) + t.0, t.1)),
                Err(er) => sp_entries(s@, i as int, d as nat) matches Err(er2) && er2 == er,
            },
        decreases s@.len() - cur,
    {
        let j0 = skip_ws_exec(s, cur);
        if j0 >= s.len() {
            return Err(DecodeError::UnexpectedEnd);
        }
        if !(s[j0] == '"') {
            return Err(DecodeError::UnexpectedChar);
        }
        let (key, j1) = match parse_string(s, j0 + 1) {
            Ok(t) => t,
            Err(e) => {
                return Err(e);
            },
        };
        let j2 = skip_ws_exec(s, j1);
        if j2 >= s.len() {
            return Err(DecodeError::UnexpectedEnd);
        }
        if !(s[j2] == ':') {
            return Err(DecodeError::UnexpectedChar);
        }
        let (v, j3) = match parse_value(s, j2 + 1, d) {
            Ok(t) => t,
            Err(e) => {
                return Err(e);
            },
        };
        let j4 = skip_ws_exec(s, j3);
        if j4 >= s.len() {
            return Err(DecodeError::UnexpectedEnd);
        }
        if s[j4] == ',' {
            let ghost entries_old = entries@;
            entries.push((key, v));
            proof {
                assert(entries@.drop_last() =~= entries_old);
                assert(obj_view(entries@) == obj_view(entries_old).push((key@, v@)));
                match sp_entries(s@, j4 + 1, d as nat) {
                    Ok(t) => {
                        assert(sp_entries(s@, cur as int, d as nat) == Ok::<_, DecodeError>(
                            (seq![(key@, v@)] + t.0, t.1),
                        ));
                        assert(obj_view(entries_old) + (seq![(key@, v@)] + t.0) =~= obj_view(
                            entries@,
                        ) + t.0);
                    },
                    Err(_) => {},
                }
            }
            cur = j4 + 1;
        } else if s[j4] == '}' {
            let ghost entries_old = entries@;
            entries.push((key, v));
            proof {
                assert(entries@.drop_last() =~= entries_old);
                assert(obj_view(entries@) == obj_view(entries_old).push((key@, v@)));
                assert(sp_entries(s@, cur as int, d as nat) == Ok::<_, DecodeError>(
                    (seq![(key@, v@)], (j4 + 1) as int),
                ));
                assert(obj_view(entries_old) + seq![(key@, v@)] =~= obj_view(entries@));
            }
            return Ok((entries, j4 + 1));
        } else {
            return Err(DecodeError::UnexpectedChar);
        }
    }
}

/// Deserialize JSON text into a payload value.
///
/// Succeeds exactly where `spec_decode` reads the whole text as one value,
/// and then returns exactly that value; every malformed text is exactly
/// the `DecodeError` that `spec_decode` names, never a default.
pub fn decode(s: &str) -> (r: Result<JsonValue, DecodeError>)
    ensures
        r is Ok <==> spec_parse(s@) is Some,
        r matches Ok(v) ==> spec_parse(s@) == Some(v@),
        r matches Err(e) ==> e == spec_decode_err(s@),
{
    let chars = chars_of(s);
    match parse_value(&chars, 0, MAX_JSON_DEPTH) {
        Err(e) => Err(e),
        Ok((v, j)) => {
            let j2 = skip_ws_exec(&chars, j);
            if j2 == chars.len() {
                Ok(v)
            } else {
                Err(DecodeError::TrailingText)
            }
        },
    }
}

} // verus!

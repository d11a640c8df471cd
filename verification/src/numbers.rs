//! Decimal text for stored integers: the digit alphabet, the canonical
//! digit string of an integer, and the verified conversion to `String`.

use vstd::prelude::*;

verus! {

/// The character of a single decimal digit.
pub open spec fn dig_char(d: int) -> char {
    if d == 0 {
        '0'
    } else if d == 1 {
        '1'
    } else if d == 2 {
        '2'
    } else if d == 3 {
        '3'
    } else if d == 4 {
        '4'
    } else if d == 5 {
        '5'
    } else if d == 6 {
        '6'
    } else if d == 7 {
        '7'
    } else if d == 8 {
        '8'
    } else {
        '9'
    }
}

/// The value of a decimal digit character; 10 for anything else.
pub open spec fn dig_val(c: char) -> int {
    if c == '0' {
        0
    } else if c == '1' {
        1
    } else if c == '2' {
        2
    } else if c == '3' {
        3
    } else if c == '4' {
        4
    } else if c == '5' {
        5
    } else if c == '6' {
        6
    } else if c == '7' {
        7
    } else if c == '8' {
        8
    } else if c == '9' {
        9
    } else {
        10
    }
}

pub open spec fn is_digit(c: char) -> bool {
    dig_val(c) < 10
}

/// The canonical decimal digit string of a non-negative integer.
pub open spec fn uint_chars(n: nat) -> Seq<char>
    decreases n,
{
    if n < 10 {
        seq![dig_char(n as int)]
    } else {
        uint_chars(n / 10).push(dig_char((n % 10) as int))
    }
}

/// The canonical decimal text of an integer: a minus sign for negatives,
/// then the digit string of the magnitude.
pub open spec fn int_chars(i: int) -> Seq<char> {
    if i < 0 {
        seq!['-'] + uint_chars((-i) as nat)
    } else {
        uint_chars(i as nat)
    }
}

/// Left-to-right accumulation of a digit string onto `acc`, the way a
/// reader of decimal text computes its value.
pub open spec fn digits_val_acc(ds: Seq<char>, acc: nat) -> nat
    decreases ds,
{
    if ds.len() == 0 {
        acc
    } else {
        digits_val_acc(ds.drop_first(), (acc * 10 + dig_val(ds[0])) as nat)
    }
}

/// Every canonical digit string is non-empty and made of digits.
pub proof fn lemma_uint_chars_digits(n: nat)
    ensures
        uint_chars(n).len() >= 1,
        forall|i: int| 0 <= i < uint_chars(n).len() ==> is_digit(#[trigger] uint_chars(n)[i]),
    decreases n,
{
    if n >= 10 {
        lemma_uint_chars_digits(n / 10);
    }
}

proof fn lemma_digits_val_acc_snoc(ds: Seq<char>, d: char, acc: nat)
    ensures
        digits_val_acc(ds.push(d), acc) == digits_val_acc(ds, acc) * 10 + dig_val(d),
    decreases ds,
{
    if ds.len() == 0 {
        assert(ds.push(d)[0] == d);
        assert(ds.push(d).drop_first() =~= Seq::<char>::empty());
        assert(digits_val_acc(ds.push(d), acc) == digits_val_acc(
            ds.push(d).drop_first(),
            (acc * 10 + dig_val(d)) as nat,
        ));
        assert(digits_val_acc(Seq::<char>::empty(), (acc * 10 + dig_val(d)) as nat) == (acc * 10
            + dig_val(d)) as nat);
        assert(digits_val_acc(ds, acc) == acc);
        assert(dig_val(d) >= 0);
    } else {
        assert(ds.push(d)[0] == ds[0]);
        assert(ds.push(d).drop_first() =~= ds.drop_first().push(d));
        lemma_digits_val_acc_snoc(ds.drop_first(), d, (acc * 10 + dig_val(ds[0])) as nat);
    }
}

/// Reading the canonical digit string of `n` back yields `n`.
pub proof fn lemma_uint_chars_val(n: nat)
    ensures
        digits_val_acc(uint_chars(n), 0) == n,
    decreases n,
{
    if n < 10 {
        assert(uint_chars(n)[0] == dig_char(n as int));
        assert(dig_val(dig_char(n as int)) == n);
        assert(uint_chars(n).drop_first() =~= Seq::<char>::empty());
        assert(digits_val_acc(uint_chars(n), 0) == digits_val_acc(
            uint_chars(n).drop_first(),
            n,
        ));
        assert(digits_val_acc(Seq::<char>::empty(), n) == n);
    } else {
        lemma_uint_chars_val(n / 10);
        lemma_digits_val_acc_snoc(uint_chars(n / 10), dig_char((n % 10) as int), 0);
        assert(digits_val_acc(uint_chars(n), 0) == digits_val_acc(uint_chars(n / 10), 0) * 10
            + dig_val(dig_char((n % 10) as int)));
        assert(dig_val(dig_char((n % 10) as int)) == n % 10);
        assert(n == (n / 10) * 10 + n % 10) by (nonlinear_arith);
    }
}

/// The digit character of a digit value below ten.
pub fn digit_of(d: u64) -> (c: char)
    requires
        d < 10,
    ensures
        c == dig_char(d as int),
{
    if d == 0 {
        '0'
    } else if d == 1 {
        '1'
    } else if d == 2 {
        '2'
    } else if d == 3 {
        '3'
    } else if d == 4 {
        '4'
    } else if d == 5 {
        '5'
    } else if d == 6 {
        '6'
    } else if d == 7 {
        '7'
    } else if d == 8 {
        '8'
    } else {
        '9'
    }
}

/// The decimal text of a non-negative integer.
pub fn u64_to_string(n: u64) -> (s: String)
    ensures
        s@ == uint_chars(n as nat),
{
    let mut digits: Vec<char> = Vec::new();
    let mut m: u64 = n;
    while m >= 10
        invariant
            uint_chars(n as nat) == uint_chars(m as nat) + digits@.reverse(),
        decreases m,
    {
        let d = m % 10;
        let ghost old_digits = digits@;
        digits.push(digit_of(d));
        m = m / 10;
        proof {
            assert(digits@.reverse() =~= seq![dig_char(d as int)] + old_digits.reverse());
            assert(uint_chars(m as nat).push(dig_char(d as int)) + old_digits.reverse()
                =~= uint_chars(m as nat) + digits@.reverse());
        }
    }
    let ghost old_digits = digits@;
    digits.push(digit_of(m));
    proof {
        assert(digits@.reverse() =~= seq![dig_char(m as int)] + old_digits.reverse());
        assert(uint_chars(m as nat) + old_digits.reverse() =~= digits@.reverse());
        assert(uint_chars(n as nat) == digits@.reverse());
    }
    let mut s = String::new();
    while digits.len() > 0
        invariant
            uint_chars(n as nat) == s@ + digits@.reverse(),
        decreases digits.len(),
    {
        let ghost before = digits@;
        let c = digits.pop().unwrap();
        crate::strutil::push_char(&mut s, c);
        proof {
            assert(before.reverse() =~= seq![c] + digits@.reverse());
            assert(s@ + digits@.reverse() =~= uint_chars(n as nat));
        }
    }
    proof {
        assert(s@ =~= uint_chars(n as nat));
    }
    s
}

/// The decimal text of a signed integer.
pub fn i64_to_string(i: i64) -> (s: String)
    ensures
        s@ == int_chars(i as int),
{
    if i >= 0 {
        u64_to_string(i as u64)
    } else {
        let mag: u64 = ((-(i + 1)) as u64) + 1;
        proof {
            assert(mag as int == -(i as int));
        }
        let digits = u64_to_string(mag);
        let mut s = String::from_str("-");
        s.append(digits.as_str());
        proof {
            reveal_strlit("-");
            assert(s@ =~= seq!['-'] + uint_chars((-(i as int)) as nat));
        }
        s
    }
}

/// The lowercase hexadecimal digit of a value below sixteen.
pub open spec fn hex_digit(d: int) -> char {
    if d == 0 {
        '0'
    } else if d == 1 {
        '1'
    } else if d == 2 {
        '2'
    } else if d == 3 {
        '3'
    } else if d == 4 {
        '4'
    } else if d == 5 {
        '5'
    } else if d == 6 {
        '6'
    } else if d == 7 {
        '7'
    } else if d == 8 {
        '8'
    } else if d == 9 {
        '9'
    } else if d == 10 {
        'a'
    } else if d == 11 {
        'b'
    } else if d == 12 {
        'c'
    } else if d == 13 {
        'd'
    } else if d == 14 {
        'e'
    } else {
        'f'
    }
}

/// The value of a hexadecimal digit character, either case; sixteen for
/// anything else.
pub open spec fn hex_val(c: char) -> int {
    if c == '0' {
        0
    } else if c == '1' {
        1
    } else if c == '2' {
        2
    } else if c == '3' {
        3
    } else if c == '4' {
        4
    } else if c == '5' {
        5
    } else if c == '6' {
        6
    } else if c == '7' {
        7
    } else if c == '8' {
        8
    } else if c == '9' {
        9
    } else if c == 'a' || c == 'A' {
        10
    } else if c == 'b' || c == 'B' {
        11
    } else if c == 'c' || c == 'C' {
        12
    } else if c == 'd' || c == 'D' {
        13
    } else if c == 'e' || c == 'E' {
        14
    } else if c == 'f' || c == 'F' {
        15
    } else {
        16
    }
}

/// The hexadecimal digit character of a value below sixteen.
pub fn hex_of(d: u64) -> (c: char)
    requires
        d < 16,
    ensures
        c == hex_digit(d as int),
{
    if d == 0 {
        '0'
    } else if d == 1 {
        '1'
    } else if d == 2 {
        '2'
    } else if d == 3 {
        '3'
    } else if d == 4 {
        '4'
    } else if d == 5 {
        '5'
    } else if d == 6 {
        '6'
    } else if d == 7 {
        '7'
    } else if d == 8 {
        '8'
    } else if d == 9 {
        '9'
    } else if d == 10 {
        'a'
    } else if d == 11 {
        'b'
    } else if d == 12 {
        'c'
    } else if d == 13 {
        'd'
    } else if d == 14 {
        'e'
    } else {
        'f'
    }
}

/// The value of a hexadecimal digit character, sixteen for anything else.
pub fn hex_val_of(c: char) -> (d: u64)
    ensures
        d == hex_val(c),
{
    if c == '0' {
        0
    } else if c == '1' {
        1
    } else if c == '2' {
        2
    } else if c == '3' {
        3
    } else if c == '4' {
        4
    } else if c == '5' {
        5
    } else if c == '6' {
        6
    } else if c == '7' {
        7
    } else if c == '8' {
        8
    } else if c == '9' {
        9
    } else if c == 'a' || c == 'A' {
        10
    } else if c == 'b' || c == 'B' {
        11
    } else if c == 'c' || c == 'C' {
        12
    } else if c == 'd' || c == 'D' {
        13
    } else if c == 'e' || c == 'E' {
        14
    } else if c == 'f' || c == 'F' {
        15
    } else {
        16
    }
}

} // verus!

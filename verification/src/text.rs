//! What hexadecimal and decimal text stands for.

use vstd::prelude::*;
use vstd::string::StringExecFns;

verus! {

/// `c` is one of `0`-`9`, `a`-`f`, `A`-`F`.
pub open spec fn is_hex_digit(c: char) -> bool {
    ('0' <= c <= '9') || ('A' <= c <= 'F') || ('a' <= c <= 'f')
}

/// The number that the hexadecimal digit `c` stands for, in either case.
pub open spec fn hex_digit_value(c: char) -> nat {
    if c <= '9' {
        (c as int - 0x30) as nat
    } else if c <= 'F' {
        (c as int - 0x41 + 10) as nat
    } else {
        (c as int - 0x61 + 10) as nat
    }
}

/// `s` without a leading `0x` or `0X`, if it has one.
pub open spec fn hex_payload(s: Seq<char>) -> Seq<char> {
    if s.len() >= 2 && s[0] == '0' && (s[1] == 'x' || s[1] == 'X') {
        s.skip(2)
    } else {
        s
    }
}

/// Every character of `p` is a hexadecimal digit.
pub open spec fn all_hex(p: Seq<char>) -> bool {
    forall|i: int| 0 <= i < p.len() ==> is_hex_digit(#[trigger] p[i])
}

/// The bytes that the digits `p` spell, two digits to a byte, high digit
/// first.
pub open spec fn hex_bytes(p: Seq<char>) -> Seq<u8> {
    Seq::new(
        p.len() / 2,
        |i: int| (16 * hex_digit_value(p[2 * i]) + hex_digit_value(p[2 * i + 1])) as u8,
    )
}

/// `s` spells some whole number of bytes in hexadecimal, with or without
/// prefix.
pub open spec fn is_hex_text(s: Seq<char>) -> bool {
    hex_payload(s).len() % 2 == 0 && all_hex(hex_payload(s))
}

/// `s` spells exactly `n` bytes in hexadecimal, with or without prefix.
pub open spec fn is_fixed_hex(s: Seq<char>, n: nat) -> bool {
    hex_payload(s).len() == 2 * n && all_hex(hex_payload(s))
}

/// `c` is one of `0`-`9`.
pub open spec fn is_decimal_digit(c: char) -> bool {
    '0' <= c <= '9'
}

/// Every character of `s` is a decimal digit.
pub open spec fn all_decimal(s: Seq<char>) -> bool {
    forall|i: int| 0 <= i < s.len() ==> is_decimal_digit(#[trigger] s[i])
}

/// The number that the decimal digits `s` spell; the empty text spells zero.
pub open spec fn decimal_value(s: Seq<char>) -> nat
    decreases s.len(),
{
    if s.len() == 0 {
        0
    } else {
        (decimal_value(s.drop_last()) * 10 + (s.last() as int - 0x30)) as nat
    }
}

/// The decimal digit for `d`, which is below 10.
pub open spec fn digit_char(d: nat) -> char {
    ((0x30 + d) as u8) as char
}

/// `n` in decimal, without leading zeros.
pub open spec fn decimal_digits(n: nat) -> Seq<char>
    decreases n,
{
    if n < 10 {
        seq![digit_char(n)]
    } else {
        decimal_digits(n / 10).push(digit_char(n % 10))
    }
}

/// Writing a number in decimal and reading it back gives the number.
pub proof fn lemma_decimal_round_trip(n: nat)
    ensures
        all_decimal(decimal_digits(n)),
        decimal_value(decimal_digits(n)) == n,
        decimal_digits(n).len() > 0,
    decreases n,
{
    let s = decimal_digits(n);
    if n < 10 {
        assert(s.drop_last() =~= Seq::<char>::empty());
        assert(decimal_value(s.drop_last()) == 0);
    } else {
        lemma_decimal_round_trip(n / 10);
        assert(s.drop_last() =~= decimal_digits(n / 10));
        assert(s.last() == digit_char(n % 10));
    }
}

/// The one-character text of the decimal digit `d`.
fn digit_str(d: usize) -> (r: &'static str)
    requires
        d < 10,
    ensures
        r@ == seq![digit_char(d as nat)],
{
    proof {
        reveal_strlit("0");
        reveal_strlit("1");
        reveal_strlit("2");
        reveal_strlit("3");
        reveal_strlit("4");
        reveal_strlit("5");
        reveal_strlit("6");
        reveal_strlit("7");
        reveal_strlit("8");
        reveal_strlit("9");
    }
    let r = if d == 0 {
        "0"
    } else if d == 1 {
        "1"
    } else if d == 2 {
        "2"
    } else if d == 3 {
        "3"
    } else if d == 4 {
        "4"
    } else if d == 5 {
        "5"
    } else if d == 6 {
        "6"
    } else if d == 7 {
        "7"
    } else if d == 8 {
        "8"
    } else {
        "9"
    };
    assert(r@ =~= seq![digit_char(d as nat)]);
    r
}

/// `n` in decimal, without leading zeros.
pub fn decimal_text(n: usize) -> (r: String)
    ensures
        r@ == decimal_digits(n as nat),
    decreases n,
{
    if n < 10 {
        let mut r = String::new();
        r.append(digit_str(n));
        assert(r@ =~= decimal_digits(n as nat));
        r
    } else {
        let mut r = decimal_text(n / 10);
        r.append(digit_str(n % 10));
        assert(r@ =~= decimal_digits(n as nat));
        r
    }
}

/// `c` with an upper-case ASCII letter turned to lower case.
pub open spec fn ascii_lower(c: char) -> char {
    if 'A' <= c <= 'Z' {
        ((c as int + 0x20) as u8) as char
    } else {
        c
    }
}

/// `s` with its upper-case ASCII letters turned to lower case.
pub open spec fn lower_text(s: Seq<char>) -> Seq<char> {
    Seq::new(s.len(), |i: int| ascii_lower(s[i]))
}

/// The case of a hexadecimal digit does not change what it stands for.
pub proof fn lemma_hex_digit_case(c: char)
    ensures
        is_hex_digit(ascii_lower(c)) == is_hex_digit(c),
        is_hex_digit(c) ==> hex_digit_value(ascii_lower(c)) == hex_digit_value(c),
{
}

/// Hexadecimal text spells the same bytes in upper, lower or mixed case.
pub proof fn lemma_hex_text_case(s: Seq<char>)
    ensures
        hex_payload(lower_text(s)) == lower_text(hex_payload(s)),
        all_hex(hex_payload(lower_text(s))) == all_hex(hex_payload(s)),
        forall|n: nat| is_fixed_hex(lower_text(s), n) == is_fixed_hex(s, n),
        is_hex_text(lower_text(s)) == is_hex_text(s),
        all_hex(hex_payload(s)) ==> hex_bytes(hex_payload(lower_text(s))) == hex_bytes(
            hex_payload(s),
        ),
{
    let l = lower_text(s);
    let p = hex_payload(s);
    let q = hex_payload(l);
    if s.len() >= 2 {
        assert(l[0] == ascii_lower(s[0]) && l[1] == ascii_lower(s[1]));
    }
    assert(q =~= lower_text(p));
    assert forall|i: int| 0 <= i < p.len() implies is_hex_digit(q[i]) == is_hex_digit(p[i]) by {
        lemma_hex_digit_case(p[i]);
    }
    if all_hex(p) {
        assert(all_hex(q)) by {
            assert forall|i: int| 0 <= i < q.len() implies is_hex_digit(#[trigger] q[i]) by {
                assert(is_hex_digit(p[i]));
            }
        }
        assert(hex_bytes(q) =~= hex_bytes(p)) by {
            assert forall|i: int| 0 <= i < p.len() / 2 implies hex_bytes(q)[i] == hex_bytes(p)[i] by {
                assert(is_hex_digit(p[2 * i]) && is_hex_digit(p[2 * i + 1]));
                lemma_hex_digit_case(p[2 * i]);
                lemma_hex_digit_case(p[2 * i + 1]);
            }
        }
    }
    if all_hex(q) {
        assert(all_hex(p)) by {
            assert forall|i: int| 0 <= i < p.len() implies is_hex_digit(#[trigger] p[i]) by {
                assert(is_hex_digit(q[i]));
            }
        }
    }
}

} // verus!

//! Decoding of the backslash escapes that `send` and `expect` directives accept.
//!
//! The accepted set: `\\ \' \" \a \b \f \n \r \t \v`, `\xHH`, `\uHHHH`,
//! `\UHHHHHHHH` and octal `\o`, `\oo`, `\ooo`. Any other escape stays as
//! written, backslash included, so that regex escapes such as `\$` keep
//! their meaning in `expect` patterns.

use vstd::prelude::*;

use crate::text::append_chars;

verus! {

/// The character a one-letter escape stands for.
pub open spec fn simple_escape(e: char) -> Option<char> {
    if e == '\\' {
        Some('\\')
    } else if e == '\'' {
        Some('\'')
    } else if e == '"' {
        Some('"')
    } else if e == 'a' {
        Some('\x07')
    } else if e == 'b' {
        Some('\x08')
    } else if e == 'f' {
        Some('\x0c')
    } else if e == 'n' {
        Some('\n')
    } else if e == 'r' {
        Some('\r')
    } else if e == 't' {
        Some('\t')
    } else if e == 'v' {
        Some('\x0b')
    } else {
        None
    }
}

/// The number of hexadecimal digits that follow `\x`, `\u` and `\U`.
pub open spec fn hex_width(e: char) -> int {
    if e == 'x' {
        2
    } else if e == 'u' {
        4
    } else if e == 'U' {
        8
    } else {
        0
    }
}

pub open spec fn is_octal(c: char) -> bool {
    '0' <= c <= '7'
}

/// The value of `c` as a digit of base `radix` (`char::to_digit`, for radix 8 and 16).
pub open spec fn digit_value(c: char, radix: nat) -> Option<nat> {
    let v: int = if '0' <= c <= '9' {
        c as int - '0' as int
    } else if 'a' <= c <= 'z' {
        c as int - 'a' as int + 10
    } else if 'A' <= c <= 'Z' {
        c as int - 'A' as int + 10
    } else {
        radix as int
    };
    if v < radix {
        Some(v as nat)
    } else {
        None
    }
}

pub open spec fn all_digits(s: Seq<char>, radix: nat) -> bool {
    forall|i: int| 0 <= i < s.len() ==> (#[trigger] digit_value(s[i], radix)) is Some
}

/// The number that the digits `s` of base `radix` write.
pub open spec fn digits_value(s: Seq<char>, radix: nat) -> nat
    decreases s.len(),
{
    if s.len() == 0 {
        0
    } else {
        digits_value(s.drop_last(), radix) * radix + digit_value(s.last(), radix)->0
    }
}

/// How many octal digits, at most two, stand at `j`.
pub open spec fn octal_run(s: Seq<char>, j: int) -> int {
    if 0 <= j < s.len() && is_octal(s[j]) {
        if j + 1 < s.len() && is_octal(s[j + 1]) {
            2
        } else {
            1
        }
    } else {
        0
    }
}

/// Whether `v` is a Unicode scalar value (`char::from_u32` accepts it).
pub open spec fn is_char_value(v: int) -> bool {
    0 <= v <= 0x10ffff && !(0xd800 <= v <= 0xdfff)
}

pub open spec fn char_of(v: int) -> char {
    v as char
}

/// `a` in front of the decoded text, or the failure.
pub open spec fn prefix_with(a: Seq<char>, r: Option<Seq<char>>) -> Option<Seq<char>> {
    match r {
        Some(t) => Some(a + t),
        None => None,
    }
}

/// The decoding of `s` from position `i` on; `None` where an escape
/// names a number that is no Unicode scalar value.
pub open spec fn decode_from(s: Seq<char>, i: int) -> Option<Seq<char>>
    decreases s.len() - i,
{
    if i < 0 || i >= s.len() {
        Some(seq![])
    } else if s[i] != '\\' {
        prefix_with(seq![s[i]], decode_from(s, i + 1))
    } else if i + 1 == s.len() {
        Some(seq!['\\'])
    } else {
        let e = s[i + 1];
        if simple_escape(e) is Some {
            prefix_with(seq![simple_escape(e)->0], decode_from(s, i + 2))
        } else if hex_width(e) > 0 {
            let n = hex_width(e);
            if i + 2 + n <= s.len() && all_digits(s.subrange(i + 2, i + 2 + n), 16) {
                let v = digits_value(s.subrange(i + 2, i + 2 + n), 16);
                if is_char_value(v as int) {
                    prefix_with(seq![char_of(v as int)], decode_from(s, i + 2 + n))
                } else {
                    None
                }
            } else {
                prefix_with(seq!['\\', e], decode_from(s, i + 2))
            }
        } else if is_octal(e) {
            let k = octal_run(s, i + 2);
            let v = digits_value(s.subrange(i + 1, i + 2 + k), 8);
            prefix_with(seq![char_of(v as int)], decode_from(s, i + 2 + k))
        } else {
            prefix_with(seq!['\\', e], decode_from(s, i + 2))
        }
    }
}

/// The decoding of the whole of `s`.
pub open spec fn decode(s: Seq<char>) -> Option<Seq<char>> {
    decode_from(s, 0)
}

/// `char::from_u32`.
#[verifier::external_body]
fn char_from_u32(v: u32) -> (r: Option<char>)
    ensures
        r == (if is_char_value(v as int) {
            Some(char_of(v as int))
        } else {
            None
        }),
{
    char::from_u32(v)
}

fn digit_of(c: char, radix: u32) -> (r: Option<u32>)
    requires
        radix == 8 || radix == 16,
    ensures
        r matches Some(d) ==> digit_value(c, radix as nat) == Some(d as nat) && d < radix,
        r is None ==> digit_value(c, radix as nat) is None,
{
    let v: u32 = if '0' <= c && c <= '9' {
        (c as u32) - ('0' as u32)
    } else if 'a' <= c && c <= 'z' {
        (c as u32) - ('a' as u32) + 10
    } else if 'A' <= c && c <= 'Z' {
        (c as u32) - ('A' as u32) + 10
    } else {
        radix
    };
    if v < radix {
        Some(v)
    } else {
        None
    }
}

/// `b` to the power `e`.
pub open spec fn power(b: nat, e: nat) -> nat
    decreases e,
{
    if e == 0 {
        1
    } else {
        power(b, (e - 1) as nat) * b
    }
}

proof fn lemma_power_le(r: nat, k: nat)
    requires
        r <= 16,
    ensures
        power(r, k) <= power(16, k),
    decreases k,
{
    if k > 0 {
        lemma_power_le(r, (k - 1) as nat);
        let a = power(r, (k - 1) as nat);
        let b = power(16, (k - 1) as nat);
        assert(a * r <= b * 16) by (nonlinear_arith)
            requires
                a <= b,
                r <= 16,
        ;
    }
}

proof fn lemma_power16_le(k: nat)
    requires
        k <= 8,
    ensures
        power(16, k) <= 0x1_0000_0000,
    decreases 8 - k,
{
    if k < 8 {
        lemma_power16_le(k + 1);
        assert(power(16, k + 1) == power(16, k) * 16);
    } else {
        reveal_with_fuel(power, 9);
    }
}

/// The value of the `length` digits of base `radix` at `start`, if all
/// `length` characters are there and are such digits.
fn take_digits(s: &Vec<char>, start: usize, length: usize, radix: u32) -> (r: Option<u32>)
    requires
        radix == 8 || radix == 16,
        length <= 8,
    ensures
        r is Some <==> (start + length <= s.len() && all_digits(
            s@.subrange(start as int, start + length),
            radix as nat,
        )),
        r matches Some(v) ==> v < power(radix as nat, length as nat),
        r matches Some(v) ==> v == digits_value(
            s@.subrange(start as int, start + length),
            radix as nat,
        ),
{
    if length > s.len() || start > s.len() - length {
        return None;
    }
    let ghost digits = s@.subrange(start as int, start + length);
    let mut v: u64 = 0;
    let mut k: usize = 0;
    while k < length
        invariant
            k <= length <= 8,
            start + length <= s.len(),
            radix == 8 || radix == 16,
            digits == s@.subrange(start as int, start + length),
            forall|j: int| 0 <= j < k ==> (#[trigger] digit_value(digits[j], radix as nat)) is Some,
            v == digits_value(digits.take(k as int), radix as nat),
            v < power(radix as nat, k as nat),
        decreases length - k,
    {
        match digit_of(s[start + k], radix) {
            Some(d) => {
                proof {
                    assert(digits.take(k + 1).drop_last() =~= digits.take(k as int));
                    assert(digits.take(k + 1).last() == s@[start + k]);
                    lemma_power_le(radix as nat, k as nat);
                    lemma_power16_le(k as nat);
                    assert(power(radix as nat, (k + 1) as nat) == power(radix as nat, k as nat) * radix);
                    let p = power(radix as nat, k as nat);
                    assert(v * radix + d < p * radix) by (nonlinear_arith)
                        requires
                            v < p,
                            d < radix,
                    ;
                    assert(p * radix <= 0x1_0000_0000 * 16) by (nonlinear_arith)
                        requires
                            p <= 0x1_0000_0000,
                            radix <= 16,
                    ;
                }
                v = v * (radix as u64) + (d as u64);
                k = k + 1;
            },
            None => {
                assert(digit_value(digits[k as int], radix as nat) is None);
                return None;
            },
        }
    }
    proof {
        assert(digits.take(length as int) =~= digits);
        lemma_power_le(radix as nat, length as nat);
        lemma_power16_le(length as nat);
    }
    Some(v as u32)
}

proof fn lemma_prefix_assoc(a: Seq<char>, b: Seq<char>, r: Option<Seq<char>>)
    ensures
        prefix_with(a, prefix_with(b, r)) == prefix_with(a + b, r),
{
    if let Some(t) = r {
        assert(a + (b + t) =~= (a + b) + t);
    }
}

proof fn lemma_power8_le(k: nat)
    requires
        k <= 3,
    ensures
        power(8, k) <= 512,
{
    reveal_with_fuel(power, 4);
}

/// Decodes the piece of `s` that starts at `i`: the characters it stands
/// for and where the next piece starts.
fn decode_piece(s: &Vec<char>, i: usize) -> (r: Option<(Vec<char>, usize)>)
    requires
        i < s.len(),
    ensures
        r is None ==> decode_from(s@, i as int) is None,
        r matches Some((piece, j)) ==> i < j <= s.len() && decode_from(s@, i as int)
            == prefix_with(piece@, decode_from(s@, j as int)),
{
    let c = s[i];
    if c != '\\' {
        return Some((vec![c], i + 1));
    }
    if i + 1 == s.len() {
        return Some((vec!['\\'], i + 1));
    }
    let e = s[i + 1];
    let simple: Option<char> = if e == '\\' {
        Some('\\')
    } else if e == '\'' {
        Some('\'')
    } else if e == '"' {
        Some('"')
    } else if e == 'a' {
        Some('\x07')
    } else if e == 'b' {
        Some('\x08')
    } else if e == 'f' {
        Some('\x0c')
    } else if e == 'n' {
        Some('\n')
    } else if e == 'r' {
        Some('\r')
    } else if e == 't' {
        Some('\t')
    } else if e == 'v' {
        Some('\x0b')
    } else {
        None
    };
    assert(simple == simple_escape(e));
    if let Some(ch) = simple {
        return Some((vec![ch], i + 2));
    }
    let width: usize = if e == 'x' {
        2
    } else if e == 'u' {
        4
    } else if e == 'U' {
        8
    } else {
        0
    };
    assert(width == hex_width(e));
    if width > 0 {
        match take_digits(s, i + 2, width, 16) {
            Some(v) => match char_from_u32(v) {
                Some(ch) => Some((vec![ch], i + 2 + width)),
                None => None,
            },
            None => Some((vec!['\\', e], i + 2)),
        }
    } else if '0' <= e && e <= '7' {
        let mut k: usize = 0;
        if i + 2 < s.len() && '0' <= s[i + 2] && s[i + 2] <= '7' {
            k = 1;
            if i + 3 < s.len() && '0' <= s[i + 3] && s[i + 3] <= '7' {
                k = 2;
            }
        }
        assert(k == octal_run(s@, i + 2));
        let ghost d = s@.subrange(i + 1, i + 2 + k);
        proof {
            assert forall|j: int| 0 <= j < d.len() implies (#[trigger] digit_value(
                d[j],
                8,
            )) is Some by {
                assert(d[j] == s@[i + 1 + j]);
            }
        }
        match take_digits(s, i + 1, k + 1, 8) {
            Some(v) => {
                proof {
                    lemma_power8_le((k + 1) as nat);
                }
                match char_from_u32(v) {
                    Some(ch) => Some((vec![ch], i + 2 + k)),
                    None => None,
                }
            },
            None => None,
        }
    } else {
        Some((vec!['\\', e], i + 2))
    }
}

/// The decoding of `s`, or `None` where an escape names no Unicode scalar value.
pub fn decode_chars(s: &Vec<char>) -> (r: Option<Vec<char>>)
    ensures
        r matches Some(t) ==> decode(s@) == Some(t@),
        r is None ==> decode(s@) is None,
{
    let mut out: Vec<char> = Vec::new();
    let mut i: usize = 0;
    assert(prefix_with(seq![], decode_from(s@, 0)) == decode_from(s@, 0)) by {
        if let Some(t) = decode_from(s@, 0) {
            assert(Seq::<char>::empty() + t =~= t);
        }
    }
    while i < s.len()
        invariant
            i <= s.len(),
            decode(s@) == prefix_with(out@, decode_from(s@, i as int)),
        decreases s.len() - i,
    {
        match decode_piece(s, i) {
            Some((piece, j)) => {
                proof {
                    lemma_prefix_assoc(out@, piece@, decode_from(s@, j as int));
                }
                append_chars(&mut out, &piece);
                i = j;
            },
            None => {
                return None;
            },
        }
    }
    proof {
        assert(out@ + seq![] =~= out@);
    }
    Some(out)
}


/// Text without a backslash decodes to itself.
pub proof fn lemma_plain_text_unchanged(s: Seq<char>)
    requires
        forall|i: int| 0 <= i < s.len() ==> s[i] != '\\',
    ensures
        decode(s) == Some(s),
{
    lemma_plain_from(s, 0);
    assert(s.skip(0) =~= s);
}

proof fn lemma_plain_from(s: Seq<char>, i: int)
    requires
        0 <= i <= s.len(),
        forall|k: int| 0 <= k < s.len() ==> s[k] != '\\',
    ensures
        decode_from(s, i) == Some(s.skip(i)),
    decreases s.len() - i,
{
    if i < s.len() {
        lemma_plain_from(s, i + 1);
        assert(seq![s[i]] + s.skip(i + 1) =~= s.skip(i));
    } else {
        assert(s.skip(i) =~= Seq::<char>::empty());
    }
}

/// An escape outside the accepted set stays as written, backslash
/// included, so that regex escapes such as `\$` keep their meaning.
pub proof fn lemma_unknown_escape_kept(s: Seq<char>, i: int)
    requires
        0 <= i,
        i + 1 < s.len(),
        s[i] == '\\',
        simple_escape(s[i + 1]) is None,
        hex_width(s[i + 1]) == 0,
        !is_octal(s[i + 1]),
    ensures
        decode_from(s, i) == prefix_with(seq!['\\', s[i + 1]], decode_from(s, i + 2)),
{
}



/// Decoding reads text left to right: what follows a prefix decodes the
/// same as it does on its own.
proof fn lemma_decode_shift(a: Seq<char>, s: Seq<char>, i: int)
    requires
        0 <= i <= s.len(),
    ensures
        decode_from(a + s, a.len() + i) == decode_from(s, i),
    decreases s.len() - i,
{
    let t = a + s;
    let j = a.len() + i;
    if i == s.len() {
        return;
    }
    assert(t[j] == s[i]);
    if s[i] != '\\' {
        lemma_decode_shift(a, s, i + 1);
        return;
    }
    if i + 1 == s.len() {
        return;
    }
    let e = s[i + 1];
    assert(t[j + 1] == e);
    if simple_escape(e) is Some {
        lemma_decode_shift(a, s, i + 2);
    } else if hex_width(e) > 0 {
        let n = hex_width(e);
        if i + 2 + n <= s.len() {
            assert(t.subrange(j + 2, j + 2 + n) =~= s.subrange(i + 2, i + 2 + n));
            lemma_decode_shift(a, s, i + 2 + n);
        }
        lemma_decode_shift(a, s, i + 2);
    } else if is_octal(e) {
        if i + 2 < s.len() {
            assert(t[j + 2] == s[i + 2]);
        }
        if i + 3 < s.len() {
            assert(t[j + 3] == s[i + 3]);
        }
        let k = octal_run(s, i + 2);
        assert(octal_run(t, j + 2) == k);
        assert(t.subrange(j + 1, j + 2 + k) =~= s.subrange(i + 1, i + 2 + k));
        lemma_decode_shift(a, s, i + 2 + k);
    } else {
        lemma_decode_shift(a, s, i + 2);
    }
}

proof fn lemma_escape_then(c: char, s: Seq<char>)
    requires
        simple_escape(c) is Some,
    ensures
        decode(seq!['\\', c] + s) == prefix_with(seq![simple_escape(c)->0], decode(s)),
{
    let t = seq!['\\', c] + s;
    assert(t[0] == '\\');
    assert(t[1] == c);
    lemma_decode_shift(seq!['\\', c], s, 0);
}

/// Each one-letter escape decodes to the one character it names, and the
/// text after it decodes on its own: `\\` to a backslash, `\'` and `\"`
/// to the quotes, `\a \b \f \n \r \t \v` to bell, backspace, form feed,
/// newline, carriage return, tab and vertical tab.
pub proof fn lemma_simple_escapes(s: Seq<char>)
    ensures
        decode(seq!['\\', '\\'] + s) == prefix_with(seq!['\\'], decode(s)),
        decode(seq!['\\', '\''] + s) == prefix_with(seq!['\''], decode(s)),
        decode(seq!['\\', '"'] + s) == prefix_with(seq!['"'], decode(s)),
        decode(seq!['\\', 'a'] + s) == prefix_with(seq!['\x07'], decode(s)),
        decode(seq!['\\', 'b'] + s) == prefix_with(seq!['\x08'], decode(s)),
        decode(seq!['\\', 'f'] + s) == prefix_with(seq!['\x0c'], decode(s)),
        decode(seq!['\\', 'n'] + s) == prefix_with(seq!['\n'], decode(s)),
        decode(seq!['\\', 'r'] + s) == prefix_with(seq!['\r'], decode(s)),
        decode(seq!['\\', 't'] + s) == prefix_with(seq!['\t'], decode(s)),
        decode(seq!['\\', 'v'] + s) == prefix_with(seq!['\x0b'], decode(s)),
{
    lemma_escape_then('\\', s);
    lemma_escape_then('\'', s);
    lemma_escape_then('"', s);
    lemma_escape_then('a', s);
    lemma_escape_then('b', s);
    lemma_escape_then('f', s);
    lemma_escape_then('n', s);
    lemma_escape_then('r', s);
    lemma_escape_then('t', s);
    lemma_escape_then('v', s);
}


/// The value of a hexadecimal digit, as written.
pub open spec fn hex_digit(c: char) -> int {
    if '0' <= c <= '9' {
        c as int - 48
    } else if 'a' <= c <= 'f' {
        c as int - 87
    } else {
        c as int - 55
    }
}

pub open spec fn is_hex_digit(c: char) -> bool {
    ('0' <= c <= '9') || ('a' <= c <= 'f') || ('A' <= c <= 'F')
}

/// `\xHH` decodes to the character whose number the two hexadecimal digits
/// write, and `\ooo` to the one whose number the three octal digits write;
/// the text after the escape decodes on its own.
pub proof fn lemma_numeric_escapes(h1: char, h2: char, o1: char, o2: char, o3: char, s: Seq<char>)
    ensures
        is_hex_digit(h1) && is_hex_digit(h2) ==> decode(seq!['\\', 'x', h1, h2] + s)
            == prefix_with(seq![char_of(16 * hex_digit(h1) + hex_digit(h2))], decode(s)),
        is_octal(o1) && is_octal(o2) && is_octal(o3) ==> decode(seq!['\\', o1, o2, o3] + s)
            == prefix_with(
            seq![char_of(64 * (o1 as int - 48) + 8 * (o2 as int - 48) + (o3 as int - 48))],
            decode(s),
        ),
{
    if is_hex_digit(h1) && is_hex_digit(h2) {
        let p = seq!['\\', 'x', h1, h2];
        let t = p + s;
        assert(t[0] == '\\' && t[1] == 'x');
        let d = t.subrange(2, 4);
        assert(d =~= seq![h1, h2]);
        assert(d.drop_last() =~= seq![h1]);
        assert(seq![h1].drop_last() =~= Seq::<char>::empty());
        assert(all_digits(d, 16));
        let v = digits_value(d, 16);
        assert(seq![h1].last() == h1);
        assert(d.last() == h2);
        assert(digits_value(Seq::<char>::empty(), 16) == 0);
        assert(digit_value(h1, 16) == Some(hex_digit(h1) as nat));
        assert(digit_value(h2, 16) == Some(hex_digit(h2) as nat));
        assert(digits_value(seq![h1], 16) == hex_digit(h1));
        assert(v == 16 * hex_digit(h1) + hex_digit(h2));
        lemma_decode_shift(p, s, 0);
    }
    if is_octal(o1) && is_octal(o2) && is_octal(o3) {
        let p = seq!['\\', o1, o2, o3];
        let t = p + s;
        assert(t[0] == '\\' && t[1] == o1 && t[2] == o2 && t[3] == o3);
        assert(octal_run(t, 2) == 2);
        let d = t.subrange(1, 4);
        assert(d =~= seq![o1, o2, o3]);
        assert(d.drop_last() =~= seq![o1, o2]);
        assert(seq![o1, o2].drop_last() =~= seq![o1]);
        assert(seq![o1].drop_last() =~= Seq::<char>::empty());
        assert(seq![o1].last() == o1);
        assert(seq![o1, o2].last() == o2);
        assert(d.last() == o3);
        assert(digits_value(Seq::<char>::empty(), 8) == 0);
        assert(digit_value(o1, 8) == Some((o1 as int - 48) as nat));
        assert(digit_value(o2, 8) == Some((o2 as int - 48) as nat));
        assert(digit_value(o3, 8) == Some((o3 as int - 48) as nat));
        assert(digits_value(seq![o1], 8) == o1 as int - 48);
        assert(digits_value(seq![o1, o2], 8) == 8 * (o1 as int - 48) + (o2 as int - 48));
        assert(digits_value(d, 8) == 64 * (o1 as int - 48) + 8 * (o2 as int - 48) + (o3 as int - 48));
        lemma_decode_shift(p, s, 0);
    }
}

} // verus!

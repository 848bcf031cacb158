//! The `#$` directives of a scenario script.

use vstd::prelude::*;

use crate::escape::{all_digits, decode, decode_chars, digit_value, digits_value};
use crate::script::{
    result_model, Arrow, Instruction, InstructionModel, ScriptError, ScriptErrorModel,
};
use crate::text::{
    chars_of, decimal, digit_char, has_prefix, split_words, string_of, strip_prefix, trim, trim_chars,
    words,
};

verus! {

/// Whether the `regex` crate compiles `pattern`: what `regex::Regex::new`
/// decides about it.
pub uninterp spec fn regex_compiles(pattern: Seq<char>) -> bool;

/// `regex::Regex::new`, of which only whether it succeeds is kept. The
/// regex crate's grammar and limits decide that; the contract names the
/// outcome and ties it to the pattern alone.
#[verifier::external_body]
pub(crate) fn regex_is_valid(pattern: &str) -> (ok: bool)
    ensures
        ok == regex_compiles(pattern@),
{
    regex::Regex::new(pattern).is_ok()
}

/// The number that `s` writes in decimal, with an optional leading `+`
/// (what `str::parse` accepts for an unsigned integer, before its range).
pub open spec fn unsigned_value(s: Seq<char>) -> Option<nat> {
    let body = if s.len() > 0 && s[0] == '+' {
        s.drop_first()
    } else {
        s
    };
    if body.len() > 0 && all_digits(body, 10) {
        Some(digits_value(body, 10))
    } else {
        None
    }
}

/// `s` parsed as an unsigned number of at most `max`.
pub open spec fn unsigned_at_most(s: Seq<char>, max: nat) -> Option<nat> {
    match unsigned_value(s) {
        Some(v) => if v <= max {
            Some(v)
        } else {
            None
        },
        None => None,
    }
}

proof fn lemma_digits_value_grows(s: Seq<char>, j: int, radix: nat)
    requires
        0 <= j <= s.len(),
        radix >= 1,
        all_digits(s, radix),
    ensures
        digits_value(s, radix) >= digits_value(s.take(j), radix),
    decreases s.len(),
{
    if j < s.len() {
        let p = s.drop_last();
        assert(all_digits(p, radix)) by {
            assert forall|i: int| 0 <= i < p.len() implies (#[trigger] digit_value(
                p[i],
                radix,
            )) is Some by {
                assert(p[i] == s[i]);
            }
        }
        lemma_digits_value_grows(p, j, radix);
        assert(p.take(j) =~= s.take(j));
        let a = digits_value(p, radix);
        assert(a * radix >= a) by (nonlinear_arith)
            requires
                radix >= 1,
                a >= 0,
        ;
    } else {
        assert(s.take(j) =~= s);
    }
}

/// `s` parsed as an unsigned decimal number of at most `max`.
pub fn parse_unsigned(s: &Vec<char>, max: u64) -> (r: Option<u64>)
    ensures
        r matches Some(v) ==> unsigned_at_most(s@, max as nat) == Some(v as nat),
        r is None ==> unsigned_at_most(s@, max as nat) is None,
{
    let start: usize = if s.len() > 0 && s[0] == '+' {
        1
    } else {
        0
    };
    let ghost body = s@.skip(start as int);
    assert(start == 1 ==> body =~= s@.drop_first());
    assert(start == 0 ==> body =~= s@);
    assert(unsigned_value(s@) == (if body.len() > 0 && all_digits(body, 10) {
        Some(digits_value(body, 10))
    } else {
        None
    }));
    if start >= s.len() {
        return None;
    }
    let mut v: u128 = 0;
    let mut k: usize = start;
    while k < s.len()
        invariant
            start <= k <= s.len(),
            start < s.len(),
            body == s@.skip(start as int),
            unsigned_value(s@) == (if body.len() > 0 && all_digits(body, 10) {
                Some(digits_value(body, 10))
            } else {
                None
            }),
            forall|j: int| 0 <= j < k - start ==> (#[trigger] digit_value(body[j], 10)) is Some,
            v == digits_value(body.take(k - start), 10),
            v <= max,
        decreases s.len() - k,
    {
        let c = s[k];
        assert(body[k - start] == c);
        if !('0' <= c && c <= '9') {
            assert(digit_value(body[k - start], 10) is None);
            assert(!all_digits(body, 10));
            return None;
        }
        let d = (c as u32) - ('0' as u32);
        proof {
            assert(body.take(k - start + 1).drop_last() =~= body.take(k - start));
            assert(body.take(k - start + 1).last() == c);
            assert(digit_value(c, 10) == Some(d as nat));
            assert(digits_value(body.take(k - start + 1), 10) == v * 10 + d);
        }
        let next: u128 = v * 10 + (d as u128);
        if next > max as u128 {
            proof {
                if all_digits(body, 10) {
                    lemma_digits_value_grows(body, k - start + 1, 10);
                }
            }
            return None;
        }
        v = next;
        k = k + 1;
    }
    proof {
        assert(body.take(body.len() as int) =~= body);
    }
    Some(v as u64)
}

/// The arrow that a word names.
pub open spec fn arrow_named(w: Seq<char>) -> Option<Arrow> {
    if w == "down"@ {
        Some(Arrow::Down)
    } else if w == "left"@ {
        Some(Arrow::Left)
    } else if w == "right"@ {
        Some(Arrow::Right)
    } else if w == "up"@ {
        Some(Arrow::Up)
    } else {
        None
    }
}

/// What `sendarrow` (`enter` false) or `sendlinearrow` (`enter` true) with
/// the arguments `value` means: a direction, then an optional count (1 when
/// absent), and nothing more.
pub open spec fn arrow_model(value: Seq<char>, enter: bool, line: usize) -> Result<
    InstructionModel,
    ScriptErrorModel,
> {
    let w = words(value);
    if w.len() == 0 || arrow_named(w[0]) is None {
        Err(ScriptErrorModel::UnknownArrow { line })
    } else if w.len() >= 2 && unsigned_at_most(w[1], usize::MAX as nat) is None {
        Err(ScriptErrorModel::InvalidArrowCount { line })
    } else if w.len() >= 3 {
        Err(ScriptErrorModel::TooManyArrowArguments { line })
    } else {
        Ok(
            InstructionModel::SendArrow {
                direction: arrow_named(w[0])->0,
                count: if w.len() >= 2 {
                    unsigned_at_most(w[1], usize::MAX as nat)->0 as usize
                } else {
                    1
                },
                enter,
            },
        )
    }
}


/// An arrow directive presses the key its first word names: `down`, `left`,
/// `right` and `up` give those arrows, once when no count follows, and the
/// parsed direction is always the one the first word spells.
pub proof fn lemma_arrow_named_by_word(value: Seq<char>, enter: bool, line: usize)
    ensures
        arrow_model(value, enter, line) matches Ok(InstructionModel::SendArrow { direction, count, enter: e })
            ==> crate::summary::arrow_word(direction) == words(value)[0] && e == enter,
        words(value) == seq!["down"@] ==> arrow_model(value, enter, line) == Ok::<
            InstructionModel,
            ScriptErrorModel,
        >(InstructionModel::SendArrow { direction: Arrow::Down, count: 1, enter }),
        words(value) == seq!["left"@] ==> arrow_model(value, enter, line) == Ok::<
            InstructionModel,
            ScriptErrorModel,
        >(InstructionModel::SendArrow { direction: Arrow::Left, count: 1, enter }),
        words(value) == seq!["right"@] ==> arrow_model(value, enter, line) == Ok::<
            InstructionModel,
            ScriptErrorModel,
        >(InstructionModel::SendArrow { direction: Arrow::Right, count: 1, enter }),
        words(value) == seq!["up"@] ==> arrow_model(value, enter, line) == Ok::<
            InstructionModel,
            ScriptErrorModel,
        >(InstructionModel::SendArrow { direction: Arrow::Up, count: 1, enter }),
{
    reveal_strlit("down");
    reveal_strlit("left");
    reveal_strlit("right");
    reveal_strlit("up");
    assert("left"@[0] != "down"@[0]);
    assert("right"@.len() != "down"@.len() && "right"@.len() != "left"@.len());
    assert("up"@.len() != "down"@.len() && "up"@.len() != "left"@.len() && "up"@.len() != "right"@.len());
    let w = words(value);
    if w.len() == 1 {
        assert(w[0] == "down"@ ==> arrow_named(w[0]) == Some(Arrow::Down));
    }
}

proof fn lemma_prefix_differs(a: Seq<char>, p: Seq<char>, k: int)
    requires
        0 <= k < p.len(),
        k < a.len(),
        a[k] != p[k],
    ensures
        !has_prefix(a, p),
{
    if has_prefix(a, p) {
        assert(a.take(p.len() as int)[k] == a[k]);
    }
}

/// `sendarrow` and `sendlinearrow` read their arguments as arrow
/// arguments, the first without and the second with Enter after each press.
pub proof fn lemma_arrow_directives(v: Seq<char>, line: usize)
    ensures
        directive_model("sendarrow "@ + v, line) == arrow_model(v, false, line),
        directive_model("sendlinearrow "@ + v, line) == arrow_model(v, true, line),
{
    reveal_strlit("sendarrow ");
    reveal_strlit("sendlinearrow ");
    reveal_strlit("delay ");
    reveal_strlit("expect ");
    reveal_strlit("snapshot ");
    reveal_strlit("sendcharacter ");
    reveal_strlit("send ");
    reveal_strlit("sendcontrol ");
    let a = "sendarrow "@ + v;
    assert(a.take(10) =~= "sendarrow "@);
    assert(a.skip(10) =~= v);
    lemma_prefix_differs(a, "delay "@, 0);
    lemma_prefix_differs(a, "expect "@, 0);
    lemma_prefix_differs(a, "snapshot "@, 1);
    lemma_prefix_differs(a, "sendcharacter "@, 4);
    lemma_prefix_differs(a, "send "@, 4);
    lemma_prefix_differs(a, "sendcontrol "@, 4);
    let b = "sendlinearrow "@ + v;
    assert(b.take(14) =~= "sendlinearrow "@);
    assert(b.skip(14) =~= v);
    lemma_prefix_differs(b, "delay "@, 0);
    lemma_prefix_differs(b, "expect "@, 0);
    lemma_prefix_differs(b, "snapshot "@, 1);
    lemma_prefix_differs(b, "sendcharacter "@, 4);
    lemma_prefix_differs(b, "send "@, 4);
    lemma_prefix_differs(b, "sendcontrol "@, 4);
    lemma_prefix_differs(b, "sendarrow "@, 4);
}

fn arrow_of(w: &Vec<char>) -> (r: Option<Arrow>)
    ensures
        r == arrow_named(w@),
{
    if crate::text::same_chars(w, &chars_of("down")) {
        Some(Arrow::Down)
    } else if crate::text::same_chars(w, &chars_of("left")) {
        Some(Arrow::Left)
    } else if crate::text::same_chars(w, &chars_of("right")) {
        Some(Arrow::Right)
    } else if crate::text::same_chars(w, &chars_of("up")) {
        Some(Arrow::Up)
    } else {
        None
    }
}

fn parse_arrow_chars(value: &Vec<char>, enter: bool, line: usize) -> (r: Result<
    Instruction,
    ScriptError,
>)
    ensures
        result_model(r) == arrow_model(value@, enter, line),
{
    let w = split_words(value);
    if w.len() == 0 {
        return Err(ScriptError::UnknownArrow { line });
    }
    assert(w[0]@ == words(value@)[0]);
    let direction = match arrow_of(&w[0]) {
        Some(a) => a,
        None => {
            return Err(ScriptError::UnknownArrow { line });
        },
    };
    let mut count: usize = 1;
    if w.len() >= 2 {
        assert(w[1]@ == words(value@)[1]);
        match parse_unsigned(&w[1], usize::MAX as u64) {
            Some(c) => {
                count = c as usize;
            },
            None => {
                return Err(ScriptError::InvalidArrowCount { line });
            },
        }
    }
    if w.len() >= 3 {
        return Err(ScriptError::TooManyArrowArguments { line });
    }
    Ok(Instruction::SendArrow { direction, count, enter })
}

/// Reads the arguments of `sendarrow` (`enter` false) or `sendlinearrow`
/// (`enter` true) found on line `line_number`.
pub fn parse_arrow(value: &str, enter: bool, line_number: usize) -> (r: Result<
    Instruction,
    ScriptError,
>)
    ensures
        result_model(r) == arrow_model(value@, enter, line_number),
{
    parse_arrow_chars(&chars_of(value), enter, line_number)
}

/// The decoding of the escapes in `value`, as a result.
pub open spec fn decode_model(value: Seq<char>) -> Result<Seq<char>, ScriptErrorModel> {
    match decode(value) {
        Some(t) => Ok(t),
        None => Err(ScriptErrorModel::InvalidCodepoint),
    }
}

/// Decodes the backslash escapes of `value`.
pub fn decode_escapes(value: &str) -> (r: Result<String, ScriptError>)
    ensures
        result_model(r) == decode_model(value@),
{
    match decode_chars(&chars_of(value)) {
        Some(t) => Ok(string_of(&t)),
        None => Err(ScriptError::InvalidCodepoint),
    }
}

/// The `expect` instruction for a decoded pattern, given whether the
/// regex crate compiles it.
pub open spec fn expect_model(pattern: Seq<char>, line: usize, compiles: bool) -> Result<
    InstructionModel,
    ScriptErrorModel,
> {
    if compiles {
        Ok(InstructionModel::Expect(pattern))
    } else {
        Err(ScriptErrorModel::InvalidRegex { line })
    }
}

/// The `expect` instruction for a decoded pattern, given whether the regex
/// crate compiles it.
pub fn expect_instruction(pattern: String, line: usize, compiles: bool) -> (r: Result<
    Instruction,
    ScriptError,
>)
    ensures
        result_model(r) == expect_model(pattern@, line, compiles),
{
    if compiles {
        Ok(Instruction::Expect(pattern))
    } else {
        Err(ScriptError::InvalidRegex { line })
    }
}

/// What the directive text `d` (after `#$` and leading blanks) on line
/// `line` means. Each keyword is followed by one space; the first that
/// matches decides.
pub open spec fn directive_model(d: Seq<char>, line: usize) -> Result<
    InstructionModel,
    ScriptErrorModel,
> {
    if has_prefix(d, "delay "@) {
        match unsigned_at_most(d.skip("delay "@.len() as int), u64::MAX as nat) {
            Some(v) => Ok(InstructionModel::Delay(v as u64)),
            None => Err(ScriptErrorModel::ExpectedMilliseconds { line }),
        }
    } else if has_prefix(d, "expect "@) {
        match decode(d.skip("expect "@.len() as int)) {
            Some(p) => expect_model(p, line, regex_compiles(p)),
            None => Err(ScriptErrorModel::InvalidCodepoint),
        }
    } else if has_prefix(d, "snapshot "@) {
        Ok(InstructionModel::Snapshot(trim(d.skip("snapshot "@.len() as int))))
    } else if has_prefix(d, "sendcharacter "@) {
        Ok(InstructionModel::SendCharacter(d.skip("sendcharacter "@.len() as int)))
    } else if has_prefix(d, "send "@) {
        match decode(d.skip("send "@.len() as int)) {
            Some(t) => Ok(InstructionModel::Send(t)),
            None => Err(ScriptErrorModel::InvalidCodepoint),
        }
    } else if has_prefix(d, "sendcontrol "@) {
        let v = d.skip("sendcontrol "@.len() as int);
        if v.len() == 1 {
            Ok(InstructionModel::SendControl(v[0]))
        } else {
            Err(ScriptErrorModel::ControlArity { line })
        }
    } else if has_prefix(d, "sendarrow "@) {
        arrow_model(d.skip("sendarrow "@.len() as int), false, line)
    } else if has_prefix(d, "sendlinearrow "@) {
        arrow_model(d.skip("sendlinearrow "@.len() as int), true, line)
    } else if has_prefix(d, "wait "@) {
        match unsigned_at_most(d.skip("wait "@.len() as int), u64::MAX as nat) {
            Some(v) => Ok(InstructionModel::Wait(v as u64)),
            None => Err(ScriptErrorModel::ExpectedMilliseconds { line }),
        }
    } else {
        Err(ScriptErrorModel::UnknownDirective { line, directive: d })
    }
}

/// Reads a directive given as characters.
pub fn parse_directive_chars(d: &Vec<char>, line: usize) -> (r: Result<Instruction, ScriptError>)
    ensures
        result_model(r) == directive_model(d@, line),
{
    if let Some(v) = strip_prefix(d, &chars_of("delay ")) {
        return match parse_unsigned(&v, u64::MAX) {
            Some(ms) => Ok(Instruction::Delay(ms)),
            None => Err(ScriptError::ExpectedMilliseconds { line }),
        };
    }
    if let Some(v) = strip_prefix(d, &chars_of("expect ")) {
        return match decode_chars(&v) {
            Some(p) => {
                let pattern = string_of(&p);
                let compiles = regex_is_valid(pattern.as_str());
                expect_instruction(pattern, line, compiles)
            },
            None => Err(ScriptError::InvalidCodepoint),
        };
    }
    if let Some(v) = strip_prefix(d, &chars_of("snapshot ")) {
        return Ok(Instruction::Snapshot(string_of(&trim_chars(&v))));
    }
    if let Some(v) = strip_prefix(d, &chars_of("sendcharacter ")) {
        return Ok(Instruction::SendCharacter(string_of(&v)));
    }
    if let Some(v) = strip_prefix(d, &chars_of("send ")) {
        return match decode_chars(&v) {
            Some(t) => Ok(Instruction::Send(string_of(&t))),
            None => Err(ScriptError::InvalidCodepoint),
        };
    }
    if let Some(v) = strip_prefix(d, &chars_of("sendcontrol ")) {
        return if v.len() == 1 {
            Ok(Instruction::SendControl(v[0]))
        } else {
            Err(ScriptError::ControlArity { line })
        };
    }
    if let Some(v) = strip_prefix(d, &chars_of("sendarrow ")) {
        return parse_arrow_chars(&v, false, line);
    }
    if let Some(v) = strip_prefix(d, &chars_of("sendlinearrow ")) {
        return parse_arrow_chars(&v, true, line);
    }
    if let Some(v) = strip_prefix(d, &chars_of("wait ")) {
        return match parse_unsigned(&v, u64::MAX) {
            Some(ms) => Ok(Instruction::Wait(ms)),
            None => Err(ScriptError::ExpectedMilliseconds { line }),
        };
    }
    Err(ScriptError::UnknownDirective { line, directive: string_of(d) })
}

/// Reads the directive `directive` (the text after `#$` and leading blanks)
/// found on line `line_number`.
pub fn parse_directive(directive: &str, line_number: usize) -> (r: Result<
    Instruction,
    ScriptError,
>)
    ensures
        result_model(r) == directive_model(directive@, line_number),
{
    parse_directive_chars(&chars_of(directive), line_number)
}

} // verus!

verus! {

proof fn lemma_after_prefix(p: Seq<char>, t: Seq<char>)
    ensures
        has_prefix(p + t, p),
        (p + t).skip(p.len() as int) == t,
{
    assert((p + t).take(p.len() as int) =~= p);
    assert((p + t).skip(p.len() as int) =~= t);
}

/// The decimal notation of a number reads back as that number.
pub proof fn lemma_decimal_reads_back(n: nat)
    ensures
        decimal(n).len() > 0,
        decimal(n)[0] != '+',
        unsigned_value(decimal(n)) == Some(n),
    decreases n,
{
    let s = decimal(n);
    if n < 10 {
        assert(s.drop_last() =~= Seq::<char>::empty());
        assert(digit_value(s[0], 10) == Some(n));
        assert(all_digits(s, 10));
        assert(s.last() == s[0]);
        assert(digits_value(s.drop_last(), 10) == 0);
        assert(digits_value(s, 10) == n);
    } else {
        lemma_decimal_reads_back(n / 10);
        let p = decimal(n / 10);
        assert(s == p.push(digit_char(n % 10)));
        assert(s.drop_last() =~= p);
        assert(digit_value(digit_char(n % 10), 10) == Some(n % 10));
        assert(all_digits(p, 10) && digits_value(p, 10) == n / 10) by {
            assert(p[0] != '+');
        }
        assert(s.last() == digit_char(n % 10));
        assert forall|i: int| 0 <= i < s.len() implies (#[trigger] digit_value(s[i], 10)) is Some by {
            if i < p.len() {
                assert(s[i] == p[i]);
            }
        }
        assert(s[0] == p[0]);
        assert(digits_value(s, 10) == (n / 10) * 10 + n % 10);
    }
}

/// `sendcharacter` sends its argument as written, `snapshot` names a
/// marker by its trimmed argument, `sendcontrol` takes exactly one
/// character, `delay` and `wait` take a number of milliseconds.
pub proof fn lemma_plain_directives(t: Seq<char>, c: char, n: u64, line: usize)
    ensures
        directive_model("sendcharacter "@ + t, line) == Ok::<InstructionModel, ScriptErrorModel>(
            InstructionModel::SendCharacter(t),
        ),
        directive_model("snapshot "@ + t, line) == Ok::<InstructionModel, ScriptErrorModel>(
            InstructionModel::Snapshot(trim(t)),
        ),
        directive_model("sendcontrol "@ + seq![c], line) == Ok::<InstructionModel, ScriptErrorModel>(
            InstructionModel::SendControl(c),
        ),
        t.len() != 1 ==> directive_model("sendcontrol "@ + t, line) == Err::<
            InstructionModel,
            ScriptErrorModel,
        >(ScriptErrorModel::ControlArity { line }),
        directive_model("delay "@ + decimal(n as nat), line) == Ok::<InstructionModel, ScriptErrorModel>(
            InstructionModel::Delay(n),
        ),
        directive_model("wait "@ + decimal(n as nat), line) == Ok::<InstructionModel, ScriptErrorModel>(
            InstructionModel::Wait(n),
        ),
{
    reveal_strlit("delay ");
    reveal_strlit("expect ");
    reveal_strlit("snapshot ");
    reveal_strlit("sendcharacter ");
    reveal_strlit("send ");
    reveal_strlit("sendcontrol ");
    reveal_strlit("sendarrow ");
    reveal_strlit("sendlinearrow ");
    reveal_strlit("wait ");
    let a = "sendcharacter "@ + t;
    lemma_after_prefix("sendcharacter "@, t);
    lemma_prefix_differs(a, "delay "@, 0);
    lemma_prefix_differs(a, "expect "@, 0);
    lemma_prefix_differs(a, "snapshot "@, 1);
    let b = "snapshot "@ + t;
    lemma_after_prefix("snapshot "@, t);
    lemma_prefix_differs(b, "delay "@, 0);
    lemma_prefix_differs(b, "expect "@, 0);
    let e = "sendcontrol "@ + seq![c];
    lemma_after_prefix("sendcontrol "@, seq![c]);
    lemma_prefix_differs(e, "delay "@, 0);
    lemma_prefix_differs(e, "expect "@, 0);
    lemma_prefix_differs(e, "snapshot "@, 1);
    lemma_prefix_differs(e, "sendcharacter "@, 5);
    lemma_prefix_differs(e, "send "@, 4);
    let f = "sendcontrol "@ + t;
    lemma_after_prefix("sendcontrol "@, t);
    lemma_prefix_differs(f, "delay "@, 0);
    lemma_prefix_differs(f, "expect "@, 0);
    lemma_prefix_differs(f, "snapshot "@, 1);
    lemma_prefix_differs(f, "sendcharacter "@, 5);
    lemma_prefix_differs(f, "send "@, 4);
    lemma_decimal_reads_back(n as nat);
    let g = "delay "@ + decimal(n as nat);
    lemma_after_prefix("delay "@, decimal(n as nat));
    let h = "wait "@ + decimal(n as nat);
    lemma_after_prefix("wait "@, decimal(n as nat));
    lemma_prefix_differs(h, "delay "@, 0);
    lemma_prefix_differs(h, "expect "@, 0);
    lemma_prefix_differs(h, "snapshot "@, 0);
    lemma_prefix_differs(h, "sendcharacter "@, 0);
    lemma_prefix_differs(h, "send "@, 0);
    lemma_prefix_differs(h, "sendcontrol "@, 0);
    lemma_prefix_differs(h, "sendarrow "@, 0);
    lemma_prefix_differs(h, "sendlinearrow "@, 0);
}

/// `send` sends its argument with its escapes decoded (text without a
/// backslash as written); `expect` waits for its decoded argument, which
/// must be a pattern the regex crate compiles.
pub proof fn lemma_decoding_directives(t: Seq<char>, line: usize)
    ensures
        (forall|i: int| 0 <= i < t.len() ==> t[i] != '\\') ==> directive_model("send "@ + t, line)
            == Ok::<InstructionModel, ScriptErrorModel>(InstructionModel::Send(t)),
        decode(t) matches Some(x) ==> directive_model("send "@ + t, line) == Ok::<
            InstructionModel,
            ScriptErrorModel,
        >(InstructionModel::Send(x)),
        decode(t) is None ==> directive_model("send "@ + t, line) == Err::<
            InstructionModel,
            ScriptErrorModel,
        >(ScriptErrorModel::InvalidCodepoint),
        decode(t) matches Some(x) ==> directive_model("expect "@ + t, line) == (if regex_compiles(x) {
            Ok::<InstructionModel, ScriptErrorModel>(InstructionModel::Expect(x))
        } else {
            Err::<InstructionModel, ScriptErrorModel>(ScriptErrorModel::InvalidRegex { line })
        }),
        decode(t) is None ==> directive_model("expect "@ + t, line) == Err::<
            InstructionModel,
            ScriptErrorModel,
        >(ScriptErrorModel::InvalidCodepoint),
{
    reveal_strlit("delay ");
    reveal_strlit("expect ");
    reveal_strlit("snapshot ");
    reveal_strlit("sendcharacter ");
    reveal_strlit("send ");
    let a = "send "@ + t;
    lemma_after_prefix("send "@, t);
    lemma_prefix_differs(a, "delay "@, 0);
    lemma_prefix_differs(a, "expect "@, 0);
    lemma_prefix_differs(a, "snapshot "@, 1);
    lemma_prefix_differs(a, "sendcharacter "@, 4);
    let b = "expect "@ + t;
    lemma_after_prefix("expect "@, t);
    lemma_prefix_differs(b, "delay "@, 0);
    if forall|i: int| 0 <= i < t.len() ==> t[i] != '\\' {
        crate::escape::lemma_plain_text_unchanged(t);
    }
}

/// A directive that starts with none of the keywords' letters is refused
/// as unknown, with its text.
pub proof fn lemma_unknown_directive(d: Seq<char>, line: usize)
    requires
        d.len() == 0 || !(d[0] == 'd' || d[0] == 'e' || d[0] == 's' || d[0] == 'w'),
    ensures
        directive_model(d, line) == Err::<InstructionModel, ScriptErrorModel>(
            ScriptErrorModel::UnknownDirective { line, directive: d },
        ),
{
    reveal_strlit("delay ");
    reveal_strlit("expect ");
    reveal_strlit("snapshot ");
    reveal_strlit("sendcharacter ");
    reveal_strlit("send ");
    reveal_strlit("sendcontrol ");
    reveal_strlit("sendarrow ");
    reveal_strlit("sendlinearrow ");
    reveal_strlit("wait ");
    if d.len() > 0 {
        lemma_prefix_differs(d, "delay "@, 0);
        lemma_prefix_differs(d, "expect "@, 0);
        lemma_prefix_differs(d, "snapshot "@, 0);
        lemma_prefix_differs(d, "sendcharacter "@, 0);
        lemma_prefix_differs(d, "send "@, 0);
        lemma_prefix_differs(d, "sendcontrol "@, 0);
        lemma_prefix_differs(d, "sendarrow "@, 0);
        lemma_prefix_differs(d, "sendlinearrow "@, 0);
        lemma_prefix_differs(d, "wait "@, 0);
    }
}

} // verus!

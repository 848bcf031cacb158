//! The terminal output that `expect` patterns are matched against.

use vstd::prelude::*;
use vstd::utf8::{encode_scalar, encode_utf8};

use crate::directive::regex_compiles;
use crate::session::lemma_encode_utf8_push;
use crate::text::{chars_of, slice_chars, string_of};

verus! {

broadcast use vstd::utf8::char_is_scalar;

/// The most output, in bytes, kept for matching.
pub const EXPECT_BUFFER_LIMIT: usize = 1024 * 1024;

/// The number of bytes of the UTF-8 encoding of `s`.
pub open spec fn byte_len(s: Seq<char>) -> nat {
    encode_utf8(s).len()
}

/// The number of bytes of the UTF-8 encoding of `c`.
pub open spec fn char_width(c: char) -> int {
    encode_scalar(c as u32).len() as int
}

/// Whether the first `k` bytes of the encoding of `s` end between two characters.
pub open spec fn cuts_cleanly(s: Seq<char>, k: int) -> bool
    decreases s.len(),
{
    if k == 0 {
        true
    } else if k < 0 || s.len() == 0 {
        false
    } else {
        cuts_cleanly(s.drop_first(), k - char_width(s[0]))
    }
}

/// `s` without the characters that make up its first `k` bytes.
pub open spec fn cut_bytes(s: Seq<char>, k: int) -> Seq<char>
    decreases s.len(),
{
    if k <= 0 || s.len() == 0 {
        s
    } else {
        cut_bytes(s.drop_first(), k - char_width(s[0]))
    }
}

/// The byte offset at which the first match of `pattern` in `haystack` ends,
/// as the regex crate finds it.
pub uninterp spec fn regex_match_end(pattern: Seq<char>, haystack: Seq<char>) -> Option<nat>;

/// `regex::Regex::new(pattern)` then `Regex::find(haystack)`, of which the
/// end of the match is kept. The regex crate's matching decides the offset;
/// the contract names it and states what the crate documents of it: it is
/// within the haystack and falls between two characters.
#[verifier::external_body]
fn regex_find_end(pattern: &str, haystack: &str) -> (r: Option<usize>)
    requires
        regex_compiles(pattern@),
    ensures
        r matches Some(e) ==> regex_match_end(pattern@, haystack@) == Some(e as nat) && e <= byte_len(
            haystack@,
        ) && cuts_cleanly(haystack@, e as int),
        r is None ==> regex_match_end(pattern@, haystack@) is None,
{
    regex::Regex::new(pattern).unwrap().find(haystack).map(|m| m.end())
}

proof fn lemma_byte_len_first(s: Seq<char>)
    requires
        s.len() > 0,
    ensures
        byte_len(s) == char_width(s[0]) + byte_len(s.drop_first()),
{
}

proof fn lemma_byte_len_concat(a: Seq<char>, b: Seq<char>)
    ensures
        byte_len(a + b) == byte_len(a) + byte_len(b),
    decreases a.len(),
{
    if a.len() == 0 {
        assert(a + b =~= b);
    } else {
        lemma_byte_len_concat(a.drop_first(), b);
        assert((a + b).drop_first() =~= a.drop_first() + b);
        assert((a + b)[0] == a[0]);
    }
}

proof fn lemma_cuts_nonneg(s: Seq<char>, k: int)
    requires
        cuts_cleanly(s, k),
    ensures
        k >= 0,
{
}

proof fn lemma_cut_len(s: Seq<char>, k: int)
    requires
        k >= 0,
        cuts_cleanly(s, k),
    ensures
        byte_len(cut_bytes(s, k)) == byte_len(s) - k,
    decreases s.len(),
{
    if k > 0 {
        lemma_cuts_nonneg(s.drop_first(), k - char_width(s[0]));
        lemma_cut_len(s.drop_first(), k - char_width(s[0]));
    }
}

/// The number of bytes of the UTF-8 encoding of `s`.
fn byte_count(s: &str) -> (n: u128)
    ensures
        n == byte_len(s@),
        n <= 4 * (usize::MAX as u128),
{
    let v = chars_of(s);
    let mut n: u128 = 0;
    let mut i: usize = 0;
    assert(v@.take(0) =~= Seq::<char>::empty());
    while i < v.len()
        invariant
            i <= v.len(),
            n == byte_len(v@.take(i as int)),
            n <= 4 * i,
        decreases v.len() - i,
    {
        let w = width_of(v[i]);
        proof {
            lemma_encode_utf8_push(v@.take(i as int), v@[i as int]);
            assert(v@.take(i + 1) =~= v@.take(i as int).push(v@[i as int]));
            assert(seq![v@[i as int]].drop_first() =~= Seq::<char>::empty());
            assert(encode_utf8(Seq::<char>::empty()) =~= Seq::<u8>::empty());
            assert(encode_utf8(seq![v@[i as int]]).len() == char_width(v@[i as int]));
        }
        n = n + w as u128;
        i = i + 1;
    }
    assert(v@.take(v.len() as int) =~= v@);
    n
}

/// Output not yet consumed by a match, at most [`EXPECT_BUFFER_LIMIT`] bytes of it.
pub struct ExpectBuffer {
    text: String,
    bytes: u128,
}

impl View for ExpectBuffer {
    type V = Seq<char>;

    closed spec fn view(&self) -> Seq<char> {
        self.text@
    }
}

impl ExpectBuffer {
    #[verifier::type_invariant]
    closed spec fn counts_bytes(&self) -> bool {
        &&& self.bytes == byte_len(self.text@)
        &&& self.bytes <= EXPECT_BUFFER_LIMIT
    }
}

fn width_of(c: char) -> (w: usize)
    ensures
        w == char_width(c),
        1 <= w <= 4,
{
    let u = c as u32;
    assert(vstd::utf8::is_scalar(u));
    if u <= 0x7f {
        1
    } else if u <= 0x7ff {
        2
    } else if u <= 0xffff {
        3
    } else {
        4
    }
}

/// The characters of `s` after its first `k` bytes, when they end between two characters.
fn drop_bytes(s: &str, k: u128) -> (r: String)
    requires
        cuts_cleanly(s@, k as int),
    ensures
        r@ == cut_bytes(s@, k as int),
{
    let v = chars_of(s);
    let mut i: usize = 0;
    let mut left: u128 = k;
    assert(v@.skip(0) =~= v@);
    while left > 0
        invariant
            i <= v.len(),
            cuts_cleanly(v@.skip(i as int), left as int),
            cut_bytes(s@, k as int) == cut_bytes(v@.skip(i as int), left as int),
            v@ == s@,
        decreases v.len() - i,
    {
        assert(v@.skip(i as int).drop_first() =~= v@.skip(i + 1));
        assert(v@.skip(i as int)[0] == v@[i as int]);
        proof {
            lemma_cuts_nonneg(v@.skip(i + 1), left - char_width(v@[i as int]));
        }
        let w = width_of(v[i]);
        left = left - w as u128;
        i = i + 1;
    }
    let r = slice_chars(&v, i, v.len());
    assert(r@ =~= v@.skip(i as int));
    string_of(&r)
}

impl ExpectBuffer {
    /// An empty buffer.
    pub fn new() -> (b: ExpectBuffer)
        ensures
            b@ == Seq::<char>::empty(),
    {
        ExpectBuffer { text: String::new(), bytes: 0 }
    }

    /// The text held.
    pub fn as_str(&self) -> (s: &str)
        ensures
            s@ == self@,
    {
        self.text.as_str()
    }

    /// Adds `output`, then drops the oldest bytes beyond the limit. The
    /// limit must fall between two characters.
    pub fn push_output(&mut self, output: &str)
        requires
            byte_len(old(self)@ + output@) > EXPECT_BUFFER_LIMIT ==> cuts_cleanly(
                old(self)@ + output@,
                byte_len(old(self)@ + output@) - EXPECT_BUFFER_LIMIT,
            ),
        ensures
            final(self)@ == (if byte_len(old(self)@ + output@) > EXPECT_BUFFER_LIMIT {
                cut_bytes(old(self)@ + output@, byte_len(old(self)@ + output@) - EXPECT_BUFFER_LIMIT)
            } else {
                old(self)@ + output@
            }),
            byte_len(final(self)@) <= EXPECT_BUFFER_LIMIT,
    {
        let mut old_buffer = ExpectBuffer::new();
        std::mem::swap(&mut old_buffer, self);
        proof {
            use_type_invariant(&old_buffer);
        }
        let ExpectBuffer { text: mut text, bytes } = old_buffer;
        let added = byte_count(output);
        let ghost whole = text@ + output@;
        proof {
            lemma_byte_len_concat(text@, output@);
        }
        text.append(output);
        assert(text@ == whole);
        let total = bytes + added;
        if total > EXPECT_BUFFER_LIMIT as u128 {
            let k = total - EXPECT_BUFFER_LIMIT as u128;
            proof {
                lemma_cut_len(whole, k as int);
            }
            let rest = drop_bytes(text.as_str(), k);
            *self = ExpectBuffer { text: rest, bytes: EXPECT_BUFFER_LIMIT as u128 };
        } else {
            *self = ExpectBuffer { text, bytes: total };
        }
    }

    /// Looks for `pattern` in the text: when it matches, drops the text up
    /// to the end of the first match and reports `true`.
    fn take_match(&mut self, pattern: &str) -> (found: bool)
        requires
            regex_compiles(pattern@),
        ensures
            match regex_match_end(pattern@, old(self)@) {
                Some(e) => found && final(self)@ == cut_bytes(old(self)@, e as int),
                None => !found && final(self)@ == old(self)@,
            },
    {
        proof {
            use_type_invariant(&*self);
        }
        match regex_find_end(pattern, self.text.as_str()) {
            Some(e) => {
                proof {
                    lemma_cut_len(self.text@, e as int);
                }
                let rest = drop_bytes(self.text.as_str(), e as u128);
                let bytes = self.bytes - e as u128;
                *self = ExpectBuffer { text: rest, bytes };
                true
            },
            None => false,
        }
    }

    /// Looks for the regular expression `pattern` in the text, as `expect`
    /// does: `Err` when the regex crate does not compile the pattern, else
    /// whether it matched, the text up to the end of the first match dropped
    /// when it did.
    pub fn try_take_match(&mut self, pattern: &str) -> (r: Result<bool, InvalidPattern>)
        ensures
            !regex_compiles(pattern@) ==> r is Err && final(self)@ == old(self)@,
            regex_compiles(pattern@) ==> match regex_match_end(pattern@, old(self)@) {
                Some(e) => r == Ok::<bool, InvalidPattern>(true) && final(self)@ == cut_bytes(
                    old(self)@,
                    e as int,
                ),
                None => r == Ok::<bool, InvalidPattern>(false) && final(self)@ == old(self)@,
            },
    {
        if !crate::directive::regex_is_valid(pattern) {
            return Err(InvalidPattern);
        }
        Ok(self.take_match(pattern))
    }
}

/// A pattern that the regex crate does not compile.
#[derive(Clone, Copy, Debug, PartialEq, Eq, Structural)]
pub struct InvalidPattern;

} // verus!

verus! {

/// Cutting off the bytes of a prefix leaves exactly what follows it, and
/// the cut falls between two characters; any clean cut of `k` bytes
/// leaves `k` bytes fewer.
pub proof fn lemma_cut_prefix(a: Seq<char>, b: Seq<char>, s: Seq<char>, k: int)
    ensures
        cuts_cleanly(a + b, byte_len(a) as int),
        cut_bytes(a + b, byte_len(a) as int) == b,
        k >= 0 && cuts_cleanly(s, k) ==> byte_len(cut_bytes(s, k)) == byte_len(s) - k,
    decreases a.len(),
{
    if k >= 0 && cuts_cleanly(s, k) {
        lemma_cut_len(s, k);
    }
    if a.len() == 0 {
        assert(a + b =~= b);
        if b.len() > 0 {
            assert(byte_len(a) == 0);
        }
    } else {
        lemma_cut_prefix(a.drop_first(), b, s, k);
        assert((a + b).drop_first() =~= a.drop_first() + b);
        assert((a + b)[0] == a[0]);
        lemma_byte_len_first(a);
        assert(char_width(a[0]) >= 1);
    }
}

} // verus!

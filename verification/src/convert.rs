//! Converting a recording into another format: which encoder, which file,
//! whether to compress and whether an existing file may be replaced.

use vstd::prelude::*;

use crate::text::{chars_of, string_of};

verus! {

/// An output format.
#[derive(Clone, Copy, Debug, PartialEq, Eq, Structural)]
pub enum Format {
    AsciicastV3,
    AsciicastV2,
    Raw,
    Txt,
}

/// The encoder to build, with its settings.
#[derive(Clone, Copy, Debug, PartialEq, Eq, Structural)]
pub enum EncoderKind {
    /// asciicast v3, not appending to an existing recording.
    AsciicastV3 { append: bool },
    /// asciicast v2, not appending, with its timestamps shifted by this many microseconds.
    AsciicastV2 { append: bool, time_offset_micros: u64 },
    Raw,
    Txt,
}

/// The options of a conversion.
#[derive(Clone, Debug, PartialEq)]
pub struct Convert {
    /// The recording to read; `-` for standard input.
    pub input: String,
    /// The file to write; `-` for standard output.
    pub output: String,
    /// The format to write; inferred from `output` when absent.
    pub output_format: Option<Format>,
    /// Whether an existing non-empty output file may be replaced.
    pub overwrite: bool,
}

/// Why a conversion is refused.
#[derive(Clone, Copy, Debug, PartialEq, Eq, Structural)]
pub enum ConvertError {
    /// The output file exists, is not empty, and overwriting was not asked for.
    FileExists,
}

/// What a conversion reads, writes, and how.
#[derive(Clone, Debug, PartialEq)]
pub struct ConvertPlan {
    pub input_path: String,
    pub output_path: String,
    pub encoder: EncoderKind,
    /// Create or truncate the output file (otherwise create it, and fail if it exists).
    pub overwrite: bool,
    /// Compress the output with zstd.
    pub compressed: bool,
}

/// `c` with ASCII capitals made small.
pub open spec fn ascii_lower(c: char) -> char {
    if 'A' <= c <= 'Z' {
        ((c as u32) + 32) as char
    } else {
        c
    }
}

/// `s` ends with the lower-case ASCII text `p`, letters compared without
/// regard to case. For the suffixes used here this is what
/// `s.to_lowercase().ends_with(p)` decides: no character other than an
/// ASCII letter has a lower-case form that contains `.`, `t`, `x`, `z` or `s`.
pub open spec fn ends_with_ci(s: Seq<char>, p: Seq<char>) -> bool {
    p.len() <= s.len() && forall|i: int|
        0 <= i < p.len() ==> ascii_lower(#[trigger] s[s.len() - p.len() + i]) == p[i]
}

/// The format an output name calls for: text when the name ends in
/// `.txt`, before an optional `.zst`; asciicast v3 otherwise.
pub open spec fn inferred_format(s: Seq<char>) -> Format {
    let base = if ends_with_ci(s, ".zst"@) {
        s.take(s.len() - ".zst"@.len())
    } else {
        s
    };
    if ends_with_ci(base, ".txt"@) {
        Format::Txt
    } else {
        Format::AsciicastV3
    }
}

/// The format to write: the one asked for, else the one the output name calls for.
pub open spec fn format_model(c: Convert) -> Format {
    match c.output_format {
        Some(f) => f,
        None => inferred_format(c.output@),
    }
}

/// Compressing an output does not change the format its name calls for:
/// `name.zst` calls for the format of `name`, as long as `name` does not
/// itself end in `.zst`.
pub proof fn lemma_zst_suffix_keeps_format(s: Seq<char>)
    requires
        !ends_with_ci(s, ".zst"@),
    ensures
        inferred_format(s + ".zst"@) == inferred_format(s),
        ends_with_ci(s + ".zst"@, ".zst"@),
{
    reveal_strlit(".zst");
    let t = s + ".zst"@;
    assert forall|i: int| 0 <= i < 4 implies ascii_lower(#[trigger] t[t.len() - 4 + i])
        == ".zst"@[i] by {
        assert(t[t.len() - 4 + i] == ".zst"@[i]);
    }
    assert(t.take(t.len() - 4) =~= s);
}

/// A format given with the options is the one written, whatever the output
/// is called; only without one is it read off the output name. Its encoder
/// is the encoder of that format.
pub proof fn lemma_explicit_format_wins(c: Convert)
    ensures
        c.output_format matches Some(f) ==> format_model(c) == f,
        c.output_format is None ==> format_model(c) == inferred_format(c.output@),
        c.output_format == Some(Format::Txt) ==> encoder_model(format_model(c)) == EncoderKind::Txt,
        c.output_format == Some(Format::Raw) ==> encoder_model(format_model(c)) == EncoderKind::Raw,
        c.output_format == Some(Format::AsciicastV3) ==> encoder_model(format_model(c))
            == (EncoderKind::AsciicastV3 { append: false }),
        c.output_format == Some(Format::AsciicastV2) ==> encoder_model(format_model(c))
            == (EncoderKind::AsciicastV2 { append: false, time_offset_micros: 0 }),
{
}

/// A name ending in `.txt`, compressed or not, calls for text; a name
/// ending in neither `.txt` nor `.zst` calls for asciicast v3.
pub proof fn lemma_name_decides_format(s: Seq<char>)
    ensures
        inferred_format(s + ".txt"@) == Format::Txt,
        inferred_format(s + ".txt.zst"@) == Format::Txt,
        !ends_with_ci(s, ".txt"@) && !ends_with_ci(s, ".zst"@) ==> inferred_format(s)
            == Format::AsciicastV3,
{
    reveal_strlit(".txt");
    reveal_strlit(".zst");
    reveal_strlit(".txt.zst");
    let a = s + ".txt"@;
    assert forall|i: int| 0 <= i < 4 implies ascii_lower(#[trigger] a[a.len() - 4 + i])
        == ".txt"@[i] by {
        assert(a[a.len() - 4 + i] == ".txt"@[i]);
    }
    assert(!ends_with_ci(a, ".zst"@)) by {
        assert(ascii_lower(a[a.len() - 4 + 1]) != ".zst"@[1]);
    }
    let b = s + ".txt.zst"@;
    assert forall|i: int| 0 <= i < 4 implies ascii_lower(#[trigger] b[b.len() - 4 + i])
        == ".zst"@[i] by {
        assert(b[b.len() - 4 + i] == ".txt.zst"@[4 + i]);
    }
    let base = b.take(b.len() - 4);
    assert(base =~= a);
}

/// `-` names the standard stream and any other name the file itself; an
/// existing output is replaced only when it is empty or overwriting was
/// asked for, and a missing one is created.
pub proof fn lemma_paths_and_replacing(name: Seq<char>, dash: Seq<char>, overwrite: bool, len: u64)
    ensures
        name == "-"@ ==> path_model(name, dash) == dash,
        name != "-"@ ==> path_model(name, dash) == name,
        mode_model(overwrite, None) == Ok::<bool, ConvertError>(overwrite),
        mode_model(overwrite, Some(0)) == Ok::<bool, ConvertError>(true),
        len > 0 ==> (mode_model(overwrite, Some(len)) is Ok <==> overwrite),
        mode_model(overwrite, Some(len)) is Ok ==> mode_model(overwrite, Some(len)) == Ok::<
            bool,
            ConvertError,
        >(true),
{
}

/// The encoder for a format.
pub open spec fn encoder_model(f: Format) -> EncoderKind {
    match f {
        Format::AsciicastV3 => EncoderKind::AsciicastV3 { append: false },
        Format::AsciicastV2 => EncoderKind::AsciicastV2 { append: false, time_offset_micros: 0 },
        Format::Raw => EncoderKind::Raw,
        Format::Txt => EncoderKind::Txt,
    }
}

/// The path for a command-line file name, `-` standing for `dash_path`.
pub open spec fn path_model(name: Seq<char>, dash_path: Seq<char>) -> Seq<char> {
    if name == "-"@ {
        dash_path
    } else {
        name
    }
}

/// Whether the output may be written: given the length of the existing
/// output file, if there is one, the file is replaced (`Ok(true)`) when it
/// is empty or overwriting was asked for; a missing file is created, and
/// `Ok` then carries the overwrite option as given.
pub open spec fn mode_model(overwrite: bool, existing: Option<u64>) -> Result<bool, ConvertError> {
    match existing {
        None => Ok(overwrite),
        Some(len) => if len == 0 || overwrite {
            Ok(true)
        } else {
            Err(ConvertError::FileExists)
        },
    }
}

fn ends_with_ci_chars(s: &Vec<char>, n: usize, p: &Vec<char>) -> (r: bool)
    requires
        n <= s.len(),
    ensures
        r == ends_with_ci(s@.take(n as int), p@),
{
    if p.len() > n {
        return false;
    }
    let off = n - p.len();
    let mut i: usize = 0;
    while i < p.len()
        invariant
            p.len() <= n <= s.len(),
            off == n - p.len(),
            i <= p.len(),
            forall|j: int| 0 <= j < i ==> ascii_lower(s@.take(n as int)[off + j]) == p@[j],
        decreases p.len() - i,
    {
        let c = s[off + i];
        let lc = if 'A' <= c && c <= 'Z' {
            char_from_ascii((c as u8) + 32)
        } else {
            c
        };
        assert(lc == ascii_lower(c)) by {
            if 'A' <= c && c <= 'Z' {
                assert((c as u8) as u32 == c as u32);
            }
        }
        assert(s@.take(n as int)[off + i] == c);
        if lc != p[i] {
            return false;
        }
        i = i + 1;
    }
    true
}

/// The character of an ASCII code.
fn char_from_ascii(b: u8) -> (c: char)
    requires
        b < 128,
    ensures
        c == (b as u32) as char,
{
    b as char
}

impl Convert {
    /// The format to write.
    pub fn get_format(&self) -> (f: Format)
        ensures
            f == format_model(*self),
    {
        match self.output_format {
            Some(f) => f,
            None => {
                let s = chars_of(self.output.as_str());
                let zst = chars_of(".zst");
                let n = if ends_with_ci_chars(&s, s.len(), &zst) {
                    s.len() - zst.len()
                } else {
                    s.len()
                };
                proof {
                    assert(s@.take(s.len() as int) =~= s@);
                }
                if ends_with_ci_chars(&s, n, &chars_of(".txt")) {
                    Format::Txt
                } else {
                    Format::AsciicastV3
                }
            },
        }
    }

    /// The encoder to convert with.
    pub fn get_encoder(&self) -> (e: EncoderKind)
        ensures
            e == encoder_model(format_model(*self)),
    {
        match self.get_format() {
            Format::AsciicastV3 => EncoderKind::AsciicastV3 { append: false },
            Format::AsciicastV2 => EncoderKind::AsciicastV2 { append: false, time_offset_micros: 0 },
            Format::Raw => EncoderKind::Raw,
            Format::Txt => EncoderKind::Txt,
        }
    }

    /// The path to read from: standard input for `-`.
    pub fn get_input_path(&self) -> (p: String)
        ensures
            p@ == path_model(self.input@, "/dev/stdin"@),
    {
        if crate::text::same_chars(&chars_of(self.input.as_str()), &chars_of("-")) {
            string_of(&chars_of("/dev/stdin"))
        } else {
            string_of(&chars_of(self.input.as_str()))
        }
    }

    /// The path to write to: standard output for `-`.
    pub fn get_output_path(&self) -> (p: String)
        ensures
            p@ == path_model(self.output@, "/dev/stdout"@),
    {
        if crate::text::same_chars(&chars_of(self.output.as_str()), &chars_of("-")) {
            string_of(&chars_of("/dev/stdout"))
        } else {
            string_of(&chars_of(self.output.as_str()))
        }
    }

    /// Whether the output file may be written, given the length of the
    /// existing file at the output path, if there is one.
    pub fn get_mode(&self, existing: Option<u64>) -> (r: Result<bool, ConvertError>)
        ensures
            r == mode_model(self.overwrite, existing),
    {
        match existing {
            None => Ok(self.overwrite),
            Some(len) => {
                if len == 0 || self.overwrite {
                    Ok(true)
                } else {
                    Err(ConvertError::FileExists)
                }
            },
        }
    }

    /// Whether the output is compressed: its name ends in `.zst`, in any case.
    pub fn is_compressed(&self) -> (r: bool)
        ensures
            r == ends_with_ci(self.output@, ".zst"@),
    {
        let s = chars_of(self.output.as_str());
        assert(s@.take(s.len() as int) =~= s@);
        ends_with_ci_chars(&s, s.len(), &chars_of(".zst"))
    }

    /// Decides the whole conversion, given the length of the file that
    /// already stands at the output path, if one does.
    pub fn run(&self, existing: Option<u64>) -> (r: Result<ConvertPlan, ConvertError>)
        ensures
            match mode_model(self.overwrite, existing) {
                Ok(overwrite) => r matches Ok(p) && p.input_path@ == path_model(
                    self.input@,
                    "/dev/stdin"@,
                ) && p.output_path@ == path_model(self.output@, "/dev/stdout"@) && p.encoder
                    == encoder_model(format_model(*self)) && p.overwrite == overwrite
                    && p.compressed == ends_with_ci(self.output@, ".zst"@),
                Err(e) => r == Err::<ConvertPlan, ConvertError>(e),
            },
    {
        let input_path = self.get_input_path();
        let output_path = self.get_output_path();
        let encoder = self.get_encoder();
        let overwrite = match self.get_mode(existing) {
            Ok(o) => o,
            Err(e) => {
                return Err(e);
            },
        };
        let compressed = self.is_compressed();
        Ok(ConvertPlan { input_path, output_path, encoder, overwrite, compressed })
    }
}

} // verus!

//! Names of the media files that a recording is rendered into, and the
//! arguments handed to ffmpeg.

use vstd::prelude::*;

use crate::artifacts::BuildPaths;
use crate::paths::{join, join_chars};
use crate::text::{
    append_chars, chars_of, decimal, owned, push_decimal, push_string, slice_chars, string_of,
    string_views,
};

verus! {

/// A character that may stand in a snapshot file name as it is.
pub open spec fn is_safe_char(c: char) -> bool {
    ||| '0' <= c <= '9'
    ||| 'a' <= c <= 'z'
    ||| 'A' <= c <= 'Z'
    ||| c == '-'
    ||| c == '_'
}

/// `c`, or `-` in its place when it may not stand in a file name.
pub open spec fn safe_char(c: char) -> char {
    if is_safe_char(c) {
        c
    } else {
        '-'
    }
}

/// `s` without the copies of `c` it starts with.
pub open spec fn drop_leading(s: Seq<char>, c: char) -> Seq<char>
    decreases s.len(),
{
    if s.len() > 0 && s[0] == c {
        drop_leading(s.drop_first(), c)
    } else {
        s
    }
}

/// `s` without the copies of `c` it ends with.
pub open spec fn drop_trailing(s: Seq<char>, c: char) -> Seq<char>
    decreases s.len(),
{
    if s.len() > 0 && s.last() == c {
        drop_trailing(s.drop_last(), c)
    } else {
        s
    }
}

/// The file name (without extension) of the snapshot for the marker
/// `label`, the `index`-th one: the label with every character other than
/// an ASCII letter, digit, `-` or `_` turned into `-`, without leading and
/// trailing `-`; `marker-<index>` when nothing is left.
pub open spec fn marker_name_model(label: Seq<char>, index: nat) -> Seq<char> {
    let t = drop_leading(drop_trailing(label.map_values(|c: char| safe_char(c)), '-'), '-');
    if t.len() == 0 {
        "marker-"@ + decimal(index)
    } else {
        t
    }
}

/// A name that is safe as a file name: not empty, only ASCII letters,
/// digits, `-` and `_`, and neither starting nor ending with `-`.
pub open spec fn is_safe_name(s: Seq<char>) -> bool {
    &&& s.len() > 0
    &&& forall|i: int| 0 <= i < s.len() ==> is_safe_char(#[trigger] s[i])
    &&& s[0] != '-'
    &&& s.last() != '-'
}

pub proof fn lemma_decimal_digits(n: nat)
    ensures
        decimal(n).len() > 0,
        forall|i: int| 0 <= i < decimal(n).len() ==> '0' <= #[trigger] decimal(n)[i] <= '9',
    decreases n,
{
    if n >= 10 {
        lemma_decimal_digits(n / 10);
    }
}

/// The name for the `index`-th marker.
pub fn marker_name(label: &str, index: usize) -> (r: String)
    ensures
        r@ == marker_name_model(label@, index as nat),
        is_safe_name(r@),
{
    let l = chars_of(label);
    let mut v: Vec<char> = Vec::new();
    let mut i: usize = 0;
    while i < l.len()
        invariant
            i <= l.len(),
            v@ == l@.take(i as int).map_values(|c: char| safe_char(c)),
        decreases l.len() - i,
    {
        let c = l[i];
        let safe = ('0' <= c && c <= '9') || ('a' <= c && c <= 'z') || ('A' <= c && c <= 'Z') || c
            == '-' || c == '_';
        v.push(
            if safe {
                c
            } else {
                '-'
            },
        );
        assert(l@.take(i + 1).map_values(|c: char| safe_char(c)) =~= l@.take(i as int).map_values(
            |c: char| safe_char(c),
        ).push(safe_char(c)));
        i = i + 1;
    }
    assert(l@.take(l.len() as int) =~= l@);
    let ghost norm = v@;
    let mut b: usize = v.len();
    assert(norm.take(b as int) =~= norm);
    while b > 0 && v[b - 1] == '-'
        invariant
            b <= v.len(),
            v@ == norm,
            drop_trailing(norm, '-') == drop_trailing(norm.take(b as int), '-'),
        decreases b,
    {
        assert(norm.take(b as int).drop_last() =~= norm.take(b - 1));
        b = b - 1;
    }
    let mut a: usize = 0;
    assert(norm.take(b as int) =~= norm.subrange(0, b as int));
    while a < b && v[a] == '-'
        invariant
            a <= b <= v.len(),
            v@ == norm,
            b > 0 ==> norm[b - 1] != '-',
            drop_leading(drop_trailing(norm, '-'), '-') == drop_leading(
                norm.subrange(a as int, b as int),
                '-',
            ),
        decreases b - a,
    {
        assert(norm.subrange(a as int, b as int).drop_first() =~= norm.subrange(a + 1, b as int));
        a = a + 1;
    }
    let t = slice_chars(&v, a, b);
    if t.len() == 0 {
        let mut r = chars_of("marker-");
        push_decimal(&mut r, index as u64);
        proof {
            reveal_strlit("marker-");
            lemma_decimal_digits(index as nat);
            let d = decimal(index as nat);
            assert(r@ == "marker-"@ + d);
            assert forall|k: int| 0 <= k < r@.len() implies is_safe_char(#[trigger] r@[k]) by {
                if k >= 7 {
                    assert(r@[k] == d[k - 7]);
                }
            }
            assert(r@.last() == d[d.len() - 1]);
        }
        string_of(&r)
    } else {
        proof {
            assert forall|k: int| 0 <= k < t@.len() implies is_safe_char(#[trigger] t@[k]) by {
                assert(t@[k] == norm[a + k]);
                assert(norm[a + k] == safe_char(l@[a + k]));
            }
        }
        string_of(&t)
    }
}

/// Zero-padded decimal notation of `n`, at least `width` digits wide.
pub open spec fn zero_padded(n: nat, width: nat) -> Seq<char> {
    let d = decimal(n);
    if d.len() >= width {
        d
    } else {
        Seq::new((width - d.len()) as nat, |i: int| '0') + d
    }
}

/// Appends the zero-padded decimal notation of `n`, `width` wide.
pub fn push_zero_padded(out: &mut Vec<char>, n: u64, width: usize)
    ensures
        final(out)@ == old(out)@ + zero_padded(n as nat, width as nat),
{
    let mut d: Vec<char> = Vec::new();
    push_decimal(&mut d, n);
    assert(d@ =~= decimal(n as nat));
    if d.len() < width {
        let mut k: usize = 0;
        let ghost start = out@;
        while k < width - d.len()
            invariant
                d.len() < width,
                k <= width - d.len(),
                out@ == start + Seq::new(k as nat, |i: int| '0'),
            decreases width - d.len() - k,
        {
            out.push('0');
            assert(start + Seq::new((k + 1) as nat, |i: int| '0') =~= (start + Seq::new(
                k as nat,
                |i: int| '0',
            )).push('0'));
            k = k + 1;
        }
        append_chars(out, &d);
        assert(out@ =~= start + (Seq::new((width - d.len()) as nat, |i: int| '0') + d@));
    } else {
        append_chars(out, &d);
    }
}

/// The full argument list of an ffmpeg run: quiet, errors only, then `args`.
pub open spec fn ffmpeg_args_model(args: Seq<Seq<char>>) -> Seq<Seq<char>> {
    seq!["-hide_banner"@, "-loglevel"@, "error"@] + args
}

/// The full argument list of an ffmpeg run with the given arguments.
pub fn ffmpeg_args(args: Vec<String>) -> (r: Vec<String>)
    ensures
        string_views(r@) == ffmpeg_args_model(string_views(args@)),
{
    let mut r: Vec<String> = Vec::new();
    push_string(&mut r, owned("-hide_banner"));
    push_string(&mut r, owned("-loglevel"));
    push_string(&mut r, owned("error"));
    let ghost head = string_views(r@);
    let mut rest = args;
    let ghost all = string_views(rest@);
    let ghost mut done: int = 0;
    while rest.len() > 0
        invariant
            0 <= done <= all.len(),
            string_views(rest@) == all.skip(done),
            string_views(r@) == head + all.take(done),
            head == seq!["-hide_banner"@, "-loglevel"@, "error"@],
        decreases rest.len(),
    {
        let ghost before = rest@;
        let s = rest.remove(0);
        proof {
            assert(all.skip(done).len() == before.len());
            assert(done < all.len());
            assert(rest@ =~= before.subrange(1, before.len() as int));
            assert(s == before[0]);
            assert(string_views(before)[0] == before[0]@);
            assert(string_views(before)[0] == all.skip(done)[0]);
            assert(s@ == all[done]);
            assert forall|k: int| 0 <= k < rest@.len() implies (#[trigger] string_views(rest@)[k])
                == all.skip(done + 1)[k] by {
                assert(rest@[k] == before[k + 1]);
                assert(string_views(before)[k + 1] == all.skip(done)[k + 1]);
            }
            assert(string_views(rest@) =~= all.skip(done + 1));
            assert(all.take(done + 1) =~= all.take(done).push(all[done]));
        }
        push_string(&mut r, s);
        proof {
            assert(head + all.take(done + 1) =~= (head + all.take(done)).push(all[done]));
            done = done + 1;
        }
    }
    assert(all.take(done) =~= all);
    r
}

/// The ffmpeg arguments that turn the GIF `gif` into the MP4 `mp4`: no
/// audio, fast start, yuv420p, even dimensions, H.264.
pub open spec fn encode_mp4_model(gif: Seq<char>, mp4: Seq<char>) -> Seq<Seq<char>> {
    seq![
        "-y"@,
        "-i"@,
        gif,
        "-an"@,
        "-movflags"@,
        "faststart"@,
        "-pix_fmt"@,
        "yuv420p"@,
        "-vf"@,
        "scale=trunc(iw/2)*2:trunc(ih/2)*2"@,
        "-c:v"@,
        "libx264"@,
        mp4,
    ]
}

/// The ffmpeg arguments that turn the GIF `gif` into the MP4 `mp4`.
pub fn encode_mp4_args(gif: &str, mp4: &str) -> (r: Vec<String>)
    ensures
        string_views(r@) == encode_mp4_model(gif@, mp4@),
{
    let mut r: Vec<String> = Vec::new();
    push_string(&mut r, owned("-y"));
    push_string(&mut r, owned("-i"));
    push_string(&mut r, owned(gif));
    push_string(&mut r, owned("-an"));
    push_string(&mut r, owned("-movflags"));
    push_string(&mut r, owned("faststart"));
    push_string(&mut r, owned("-pix_fmt"));
    push_string(&mut r, owned("yuv420p"));
    push_string(&mut r, owned("-vf"));
    push_string(&mut r, owned("scale=trunc(iw/2)*2:trunc(ih/2)*2"));
    push_string(&mut r, owned("-c:v"));
    push_string(&mut r, owned("libx264"));
    push_string(&mut r, owned(mp4));
    assert(string_views(r@) =~= encode_mp4_model(gif@, mp4@));
    r
}

/// Where the snapshots of a recording are rendered and where they end up.
pub struct SnapshotPlan {
    /// The GIF of the marked frames only.
    pub marker_gif: String,
    /// The numbered frames that ffmpeg writes, in marker order.
    pub temporary_pngs: Vec<String>,
    /// The pattern ffmpeg numbers those frames by.
    pub temporary_pattern: String,
    /// The ffmpeg arguments that cut the marker GIF into the frames.
    pub ffmpeg_args: Vec<String>,
    /// Where each frame goes, in marker order.
    pub destinations: Vec<String>,
}

/// The `index`-th temporary frame (counting from 1) in `out` for `stem`.
pub open spec fn temporary_png_model(out: Seq<char>, stem: Seq<char>, index: nat) -> Seq<char> {
    join(out, "."@ + stem + "-snapshot-"@ + zero_padded(index, 2) + ".png"@)
}

/// `plan` is the snapshot plan for the output directory `out`, the
/// snapshot directory `snapshot_dir`, the stem `stem`, the marker labels
/// `labels` and the frame duration text `duration` (ffmpeg samples one
/// frame per `duration` seconds, as long as the GIF shows each marked frame).
pub open spec fn is_snapshot_plan(
    plan: SnapshotPlan,
    out: Seq<char>,
    snapshot_dir: Seq<char>,
    stem: Seq<char>,
    labels: Seq<Seq<char>>,
    duration: Seq<char>,
) -> bool {
    let marker_gif = join(out, "."@ + stem + "-snapshots.gif"@);
    let pattern = join(out, "."@ + stem + "-snapshot-%02d.png"@);
    &&& plan.marker_gif@ == marker_gif
    &&& plan.temporary_pattern@ == pattern
    &&& plan.temporary_pngs.len() == labels.len()
    &&& forall|i: int|
        0 <= i < labels.len() ==> (#[trigger] plan.temporary_pngs[i])@ == temporary_png_model(
            out,
            stem,
            (i + 1) as nat,
        )
    &&& string_views(plan.ffmpeg_args@) == seq![
        "-y"@,
        "-i"@,
        marker_gif,
        "-vf"@,
        "fps=1/"@ + duration,
        "-frames:v"@,
        decimal(labels.len()),
        pattern,
    ]
    &&& plan.destinations.len() == labels.len()
    &&& forall|i: int|
        0 <= i < labels.len() ==> (#[trigger] plan.destinations[i])@ == join(
            snapshot_dir,
            marker_name_model(labels[i], (i + 1) as nat) + ".png"@,
        )
}

fn hidden_file(out: &Vec<char>, stem: &Vec<char>, tail: &str) -> (r: String)
    ensures
        r@ == join(out@, "."@ + stem@ + tail@),
{
    let mut name = chars_of(".");
    append_chars(&mut name, stem);
    append_chars(&mut name, &chars_of(tail));
    string_of(&join_chars(out, &name))
}

/// The snapshot plan for the markers `labels` of the recording at `paths`,
/// with `last_frame_duration` the seconds the GIF shows each marked frame.
pub fn snapshot_plan(paths: &BuildPaths, labels: &Vec<String>, last_frame_duration: &str) -> (r:
    SnapshotPlan)
    ensures
        is_snapshot_plan(
            r,
            paths.output_dir@,
            paths.snapshot_dir@,
            paths.stem@,
            string_views(labels@),
            last_frame_duration@,
        ),
{
    let out = chars_of(paths.output_dir.as_str());
    let stem = chars_of(paths.stem.as_str());
    let dir = chars_of(paths.snapshot_dir.as_str());
    let marker_gif = hidden_file(&out, &stem, "-snapshots.gif");
    let pattern = hidden_file(&out, &stem, "-snapshot-%02d.png");
    let n = labels.len();
    let mut pngs: Vec<String> = Vec::new();
    let mut dests: Vec<String> = Vec::new();
    let mut i: usize = 0;
    while i < n
        invariant
            n == labels.len(),
            i <= n,
            out@ == paths.output_dir@,
            stem@ == paths.stem@,
            dir@ == paths.snapshot_dir@,
            pngs.len() == i,
            dests.len() == i,
            forall|k: int| 0 <= k < i ==> (#[trigger] pngs[k])@ == temporary_png_model(
                out@,
                stem@,
                (k + 1) as nat,
            ),
            forall|k: int| 0 <= k < i ==> (#[trigger] dests[k])@ == join(
                dir@,
                marker_name_model(labels[k]@, (k + 1) as nat) + ".png"@,
            ),
        decreases n - i,
    {
        let mut name = chars_of(".");
        append_chars(&mut name, &stem);
        append_chars(&mut name, &chars_of("-snapshot-"));
        push_zero_padded(&mut name, (i + 1) as u64, 2);
        append_chars(&mut name, &chars_of(".png"));
        assert(name@ =~= "."@ + stem@ + "-snapshot-"@ + zero_padded((i + 1) as nat, 2) + ".png"@);
        pngs.push(string_of(&join_chars(&out, &name)));
        let mut file = chars_of(marker_name(labels[i].as_str(), i + 1).as_str());
        append_chars(&mut file, &chars_of(".png"));
        dests.push(string_of(&join_chars(&dir, &file)));
        i = i + 1;
    }
    let mut args: Vec<String> = Vec::new();
    push_string(&mut args, owned("-y"));
    push_string(&mut args, owned("-i"));
    push_string(&mut args, owned(marker_gif.as_str()));
    push_string(&mut args, owned("-vf"));
    let mut fps = chars_of("fps=1/");
    append_chars(&mut fps, &chars_of(last_frame_duration));
    push_string(&mut args, string_of(&fps));
    push_string(&mut args, owned("-frames:v"));
    let mut count: Vec<char> = Vec::new();
    push_decimal(&mut count, n as u64);
    push_string(&mut args, string_of(&count));
    push_string(&mut args, owned(pattern.as_str()));
    let plan = SnapshotPlan {
        marker_gif,
        temporary_pngs: pngs,
        temporary_pattern: pattern,
        ffmpeg_args: args,
        destinations: dests,
    };
    proof {
        assert(string_views(plan.ffmpeg_args@) =~= seq![
            "-y"@,
            "-i"@,
            plan.marker_gif@,
            "-vf"@,
            "fps=1/"@ + last_frame_duration@,
            "-frames:v"@,
            decimal(n as nat),
            plan.temporary_pattern@,
        ]);
        assert forall|i: int| 0 <= i < n implies (#[trigger] plan.destinations[i])@ == join(
            paths.snapshot_dir@,
            marker_name_model(string_views(labels@)[i], (i + 1) as nat) + ".png"@,
        ) by {
            assert(string_views(labels@)[i] == labels[i]@);
        }
    }
    plan
}

} // verus!

verus! {

proof fn lemma_all_dashes_trailing(s: Seq<char>)
    requires
        forall|i: int| 0 <= i < s.len() ==> s[i] == '-',
    ensures
        drop_trailing(s, '-').len() == 0,
    decreases s.len(),
{
    if s.len() > 0 {
        lemma_all_dashes_trailing(s.drop_last());
    }
}

proof fn lemma_trailing_keeps(s: Seq<char>, k: int)
    requires
        0 <= k < s.len(),
        s[k] != '-',
    ensures
        drop_trailing(s, '-').len() > k,
        drop_trailing(s, '-').len() <= s.len(),
        drop_trailing(s, '-')[k] == s[k],
        drop_trailing(s, '-') == s.take(drop_trailing(s, '-').len() as int),
    decreases s.len(),
{
    if s.last() == '-' {
        assert(k < s.len() - 1);
        lemma_trailing_keeps(s.drop_last(), k);
        let t = drop_trailing(s.drop_last(), '-');
        assert(s.drop_last().take(t.len() as int) =~= s.take(t.len() as int));
    } else {
        assert(s.take(s.len() as int) =~= s);
    }
}

proof fn lemma_leading_nonempty(s: Seq<char>, k: int)
    requires
        0 <= k < s.len(),
        s[k] != '-',
    ensures
        drop_leading(s, '-').len() > 0,
    decreases s.len(),
{
    if s[0] == '-' {
        assert(k > 0);
        assert(s.drop_first()[k - 1] == s[k]);
        lemma_leading_nonempty(s.drop_first(), k - 1);
    }
}

/// A label that is already a safe name is used as it is; a label with no
/// ASCII letter, digit or `_` falls back to `marker-<index>`; a label with
/// one gives a name that does not depend on the index.
pub proof fn lemma_marker_names(label: Seq<char>, index: nat, other: nat)
    ensures
        is_safe_name(label) ==> marker_name_model(label, index) == label,
        (forall|i: int| 0 <= i < label.len() ==> !is_safe_char(#[trigger] label[i]) || label[i] == '-')
            ==> marker_name_model(label, index) == "marker-"@ + decimal(index),
        (exists|k: int| 0 <= k < label.len() && is_safe_char(#[trigger] label[k]) && label[k] != '-')
            ==> marker_name_model(label, index) == marker_name_model(label, other),
{
    let m = label.map_values(|c: char| safe_char(c));
    if is_safe_name(label) {
        assert(m =~= label);
    }
    if forall|i: int| 0 <= i < label.len() ==> !is_safe_char(#[trigger] label[i]) || label[i] == '-' {
        assert forall|i: int| 0 <= i < m.len() implies m[i] == '-' by {
            assert(!is_safe_char(label[i]) || label[i] == '-');
        }
        lemma_all_dashes_trailing(m);
    }
    if exists|k: int| 0 <= k < label.len() && is_safe_char(#[trigger] label[k]) && label[k] != '-' {
        let k = choose|k: int| 0 <= k < label.len() && is_safe_char(#[trigger] label[k]) && label[k] != '-';
        assert(m[k] == label[k]);
        lemma_trailing_keeps(m, k);
        let t = drop_trailing(m, '-');
        lemma_leading_nonempty(t, k);
    }
}

} // verus!

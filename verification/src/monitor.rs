//! The monitor: the live session in the upper part of the terminal and a
//! panel of the latest progress lines below it.

use vstd::prelude::*;

use std::collections::VecDeque;

use crate::session::Progress;
use crate::text::{append_chars, chars_of, decimal, push_decimal, slice_chars, string_of};

verus! {

broadcast use vstd::std_specs::vecdeque::group_vec_dequeue_axioms;

/// How many terminal rows the progress panel takes.
pub const STATUS_ROWS: u16 = 5;

/// A terminal size: columns, then rows.
#[derive(Clone, Copy, Debug, PartialEq, Eq, Structural)]
pub struct TtySize(pub u16, pub u16);

/// The first `n` characters of `s`, all of it when it is shorter.
pub open spec fn first_chars(s: Seq<char>, n: nat) -> Seq<char> {
    if s.len() <= n {
        s
    } else {
        s.take(n as int)
    }
}

/// The panel after `line` was added to `lines`: the oldest line goes when
/// there are more than `capacity`.
pub open spec fn panel_push(lines: Seq<Seq<char>>, line: Seq<char>, capacity: nat) -> Seq<
    Seq<char>,
> {
    if lines.len() + 1 > capacity {
        lines.push(line).drop_first()
    } else {
        lines.push(line)
    }
}

/// The latest progress lines, oldest first, at most `capacity` of them.
pub struct ProgressPanel {
    lines: VecDeque<String>,
    capacity: usize,
}

impl View for ProgressPanel {
    type V = Seq<Seq<char>>;

    closed spec fn view(&self) -> Seq<Seq<char>> {
        self.lines@.map_values(|s: String| s@)
    }
}

impl ProgressPanel {
    /// How many lines the panel keeps.
    pub closed spec fn capacity(&self) -> nat {
        self.capacity as nat
    }

    #[verifier::type_invariant]
    closed spec fn keeps_capacity(&self) -> bool {
        self.lines@.len() <= self.capacity
    }

    /// An empty panel that keeps `capacity` lines.
    pub fn new(capacity: usize) -> (p: ProgressPanel)
        ensures
            p@ == Seq::<Seq<char>>::empty(),
            p.capacity() == capacity,
    {
        let p = ProgressPanel { lines: VecDeque::with_capacity(capacity), capacity };
        assert(p@ =~= Seq::<Seq<char>>::empty());
        p
    }

    /// Adds `message`, cut to its first `cols` characters, as the newest line.
    pub fn push(&mut self, message: String, cols: usize)
        ensures
            final(self)@ == panel_push(old(self)@, first_chars(message@, cols as nat), old(self).capacity()),
            final(self).capacity() == old(self).capacity(),
            final(self)@.len() <= final(self).capacity(),
    {
        proof {
            use_type_invariant(&*self);
        }
        let m = chars_of(message.as_str());
        let n = if m.len() <= cols {
            m.len()
        } else {
            cols
        };
        let cut = slice_chars(&m, 0, n);
        assert(cut@ =~= first_chars(message@, cols as nat));
        let line = string_of(&cut);
        let ghost before = self.lines@;
        let ghost old_view = self@;
        let mut lines = VecDeque::new();
        std::mem::swap(&mut lines, &mut self.lines);
        lines.push_back(line);
        if lines.len() > self.capacity {
            lines.pop_front();
        }
        proof {
            let pushed = before.push(line);
            assert(pushed.map_values(|s: String| s@) =~= old_view.push(cut@));
            if pushed.len() > self.capacity {
                assert(lines@ == pushed.subrange(1, pushed.len() as int));
                assert(lines@.map_values(|s: String| s@) =~= old_view.push(cut@).drop_first());
            } else {
                assert(lines@ == pushed);
            }
        }
        self.lines = lines;
    }

    /// The line at `index`, counting from the oldest.
    pub fn get(&self, index: usize) -> (r: Option<&str>)
        ensures
            r matches Some(s) ==> index < self@.len() && s@ == self@[index as int],
            r is None ==> index >= self@.len(),
    {
        if index < self.lines.len() {
            Some(self.lines[index].as_str())
        } else {
            None
        }
    }

    /// How many lines the panel holds.
    pub fn len(&self) -> (n: usize)
        ensures
            n == self@.len(),
    {
        self.lines.len()
    }
}

/// A panel line is the start of its message: all of it when it fits in
/// the columns, else exactly as many characters as there are columns.
pub proof fn lemma_lines_fit_the_width(s: Seq<char>, cols: nat)
    ensures
        first_chars(s, cols).len() == (if s.len() <= cols {
            s.len()
        } else {
            cols
        }),
        forall|i: int| 0 <= i < first_chars(s, cols).len() ==> #[trigger] first_chars(s, cols)[i] == s[i],
{
}

/// The lines left in a panel of `capacity` lines after adding `msgs`, in order, to an empty one.
pub open spec fn panel_after(msgs: Seq<Seq<char>>, capacity: nat) -> Seq<Seq<char>>
    decreases msgs.len(),
{
    if msgs.len() == 0 {
        seq![]
    } else {
        panel_push(panel_after(msgs.drop_last(), capacity), msgs.last(), capacity)
    }
}

/// A progress panel holds the latest lines added to it: after any run of
/// additions to an empty panel it holds the last `capacity` of them (all of
/// them when there were fewer), oldest first.
pub proof fn lemma_panel_keeps_latest(msgs: Seq<Seq<char>>, capacity: nat)
    ensures
        panel_after(msgs, capacity) == (if msgs.len() > capacity {
            msgs.skip(msgs.len() - capacity)
        } else {
            msgs
        }),
    decreases msgs.len(),
{
    if msgs.len() > 0 {
        let p = msgs.drop_last();
        lemma_panel_keeps_latest(p, capacity);
        if p.len() > capacity {
            assert(p.skip(p.len() - capacity).push(msgs.last()).drop_first() =~= msgs.skip(
                msgs.len() - capacity,
            ));
        } else if msgs.len() > capacity {
            assert(p.push(msgs.last()) =~= msgs);
            assert(msgs.drop_first() =~= msgs.skip(msgs.len() - capacity));
        } else {
            assert(p.push(msgs.last()) =~= msgs);
        }
    }
}

/// `s` padded on the left with `c` to at least `w` characters.
pub open spec fn pad_left(s: Seq<char>, w: nat, c: char) -> Seq<char> {
    if s.len() >= w {
        s
    } else {
        Seq::new((w - s.len()) as nat, |i: int| c) + s
    }
}

/// `s` padded on the right with `c` to at least `w` characters.
pub open spec fn pad_right(s: Seq<char>, w: nat, c: char) -> Seq<char> {
    if s.len() >= w {
        s
    } else {
        s + Seq::new((w - s.len()) as nat, |i: int| c)
    }
}

fn push_padded(out: &mut Vec<char>, s: &Vec<char>, w: usize, c: char, left: bool)
    ensures
        final(out)@ == old(out)@ + (if left {
            pad_left(s@, w as nat, c)
        } else {
            pad_right(s@, w as nat, c)
        }),
{
    let ghost start = out@;
    let fill: usize = if s.len() >= w {
        0
    } else {
        w - s.len()
    };
    if !left {
        append_chars(out, s);
    }
    let ghost mid = out@;
    let mut k: usize = 0;
    while k < fill
        invariant
            k <= fill,
            out@ == mid + Seq::new(k as nat, |i: int| c),
        decreases fill - k,
    {
        out.push(c);
        assert(mid + Seq::new((k + 1) as nat, |i: int| c) =~= (mid + Seq::new(
            k as nat,
            |i: int| c,
        )).push(c));
        k = k + 1;
    }
    if left {
        append_chars(out, s);
    }
    proof {
        if s.len() >= w {
            assert(Seq::new(0, |i: int| c) =~= Seq::<char>::empty());
            assert(out@ =~= start + s@);
        } else if left {
            assert(out@ =~= start + (Seq::new((w - s.len()) as nat, |i: int| c) + s@));
        } else {
            assert(out@ =~= start + (s@ + Seq::new((w - s.len()) as nat, |i: int| c)));
        }
    }
}

/// The progress line: position right-aligned and total left-aligned in
/// three columns, the script line zero-padded to three digits, the label
/// left-aligned in thirteen columns, then the summary.
pub open spec fn progress_line(
    current: nat,
    total: nat,
    line: nat,
    label: Seq<char>,
    summary: Seq<char>,
) -> Seq<char> {
    "::: ["@ + pad_left(decimal(current), 3, ' ') + "/"@ + pad_right(decimal(total), 3, ' ')
        + "] L"@ + pad_left(decimal(line), 3, '0') + " ["@ + pad_right(label, 13, ' ') + "] "@
        + summary
}

/// The progress line for `p`.
pub fn progress_message(p: &Progress) -> (r: String)
    ensures
        r@ == progress_line(p.current as nat, p.total as nat, p.line as nat, p.label@, p.summary@),
{
    let mut v = chars_of("::: [");
    let mut d: Vec<char> = Vec::new();
    push_decimal(&mut d, p.current as u64);
    push_padded(&mut v, &d, 3, ' ', true);
    append_chars(&mut v, &chars_of("/"));
    let mut d: Vec<char> = Vec::new();
    push_decimal(&mut d, p.total as u64);
    push_padded(&mut v, &d, 3, ' ', false);
    append_chars(&mut v, &chars_of("] L"));
    let mut d: Vec<char> = Vec::new();
    push_decimal(&mut d, p.line as u64);
    push_padded(&mut v, &d, 3, '0', true);
    append_chars(&mut v, &chars_of(" ["));
    push_padded(&mut v, &chars_of(p.label), 13, ' ', false);
    append_chars(&mut v, &chars_of("] "));
    append_chars(&mut v, &chars_of(p.summary.as_str()));
    string_of(&v)
}

/// Why the monitor cannot run.
#[derive(Clone, Copy, Debug, PartialEq, Eq, Structural)]
pub enum MonitorError {
    /// The terminal has no columns, or fewer rows than the panel needs plus two.
    TooSmall,
}

/// The monitor's state.
pub struct Monitor {
    pub size: TtySize,
    pub active: bool,
    pub panel: ProgressPanel,
}

/// The row of the panel line at `offset`: cursor to the row's start, line
/// cleared, then the line, bold when it is the newest and dim otherwise.
pub open spec fn panel_row(panel: Seq<Seq<char>>, top: nat, offset: nat) -> Seq<char> {
    "\x1b["@ + decimal(top + offset) + ";1H\x1b[2K"@ + (if offset < panel.len() {
        (if offset + 1 == panel.len() {
            "\x1b[1;36m"@
        } else {
            "\x1b[2;36m"@
        }) + panel[offset as int] + "\x1b[0m"@
    } else {
        seq![]
    })
}

/// The first `n` panel rows, starting at terminal row `top`.
pub open spec fn panel_rows(panel: Seq<Seq<char>>, top: nat, n: nat) -> Seq<char>
    decreases n,
{
    if n == 0 {
        seq![]
    } else {
        panel_rows(panel, top, (n - 1) as nat) + panel_row(panel, top, (n - 1) as nat)
    }
}

/// The whole panel drawn below the session: cursor saved, the status rows, cursor restored.
pub open spec fn panel_frame(panel: Seq<Seq<char>>, top: nat) -> Seq<char> {
    "\x1b7"@ + panel_rows(panel, top, STATUS_ROWS as nat) + "\x1b8"@
}

impl Monitor {
    /// A monitor for a terminal of `cols` by `rows`, which must have a column
    /// and room for the session and the panel.
    pub fn new(cols: u16, rows: u16) -> (r: Result<Monitor, MonitorError>)
        ensures
            (cols == 0 || rows < STATUS_ROWS + 2) <==> r is Err,
            r matches Ok(m) ==> m.size == TtySize(cols, rows) && m.active && m.panel@.len() == 0
                && m.panel.capacity() == STATUS_ROWS,
    {
        if cols == 0 || rows < STATUS_ROWS + 2 {
            return Err(MonitorError::TooSmall);
        }
        Ok(
            Monitor {
                size: TtySize(cols, rows),
                active: true,
                panel: ProgressPanel::new(STATUS_ROWS as usize),
            },
        )
    }

    /// The size the recorded session gets: the terminal without the panel rows.
    pub fn capture_size(&self) -> (s: TtySize)
        requires
            self.size.1 >= STATUS_ROWS,
        ensures
            s == TtySize(self.size.0, (self.size.1 - STATUS_ROWS) as u16),
    {
        TtySize(self.size.0, self.size.1 - STATUS_ROWS)
    }

    /// What switches to the alternate screen and keeps the session above the panel.
    pub fn enter_sequence(&self) -> (r: String)
        requires
            self.size.1 >= STATUS_ROWS,
        ensures
            r@ == "\x1b[?1049h\x1b[2J\x1b[H\x1b[1;"@ + decimal((self.size.1 - STATUS_ROWS) as nat)
                + "r\x1b[1;1H"@,
    {
        let rows = self.capture_size().1;
        let mut v = chars_of("\x1b[?1049h\x1b[2J\x1b[H\x1b[1;");
        push_decimal(&mut v, rows as u64);
        append_chars(&mut v, &chars_of("r\x1b[1;1H"));
        string_of(&v)
    }

    /// Adds the progress line for `p` to the panel and draws the panel.
    pub fn render_progress(&mut self, p: &Progress) -> (r: String)
        requires
            old(self).size.1 >= STATUS_ROWS,
        ensures
            final(self).size == old(self).size,
            final(self).active == old(self).active,
            final(self).panel@ == panel_push(
                old(self).panel@,
                first_chars(
                    progress_line(
                        p.current as nat,
                        p.total as nat,
                        p.line as nat,
                        p.label@,
                        p.summary@,
                    ),
                    old(self).size.0 as nat,
                ),
                old(self).panel.capacity(),
            ),
            r@ == panel_frame(final(self).panel@, (old(self).size.1 - STATUS_ROWS + 1) as nat),
    {
        let message = progress_message(p);
        self.panel.push(message, self.size.0 as usize);
        let top: u16 = self.capture_size().1 + 1;
        let mut v = chars_of("\x1b7");
        let ghost start = v@;
        let mut offset: u16 = 0;
        while offset < STATUS_ROWS
            invariant
                offset <= STATUS_ROWS,
                top as int == self.size.1 - STATUS_ROWS + 1,
                self.size.1 >= STATUS_ROWS,
                v@ == start + panel_rows(self.panel@, top as nat, offset as nat),
            decreases STATUS_ROWS - offset,
        {
            let ghost before = v@;
            append_chars(&mut v, &chars_of("\x1b["));
            push_decimal(&mut v, (top + offset) as u64);
            append_chars(&mut v, &chars_of(";1H\x1b[2K"));
            let n = self.panel.len();
            match self.panel.get(offset as usize) {
                Some(message) => {
                    let color = if offset as usize + 1 == n {
                        "\x1b[1;36m"
                    } else {
                        "\x1b[2;36m"
                    };
                    append_chars(&mut v, &chars_of(color));
                    append_chars(&mut v, &chars_of(message));
                    append_chars(&mut v, &chars_of("\x1b[0m"));
                },
                None => {},
            }
            assert(v@ =~= before + panel_row(self.panel@, top as nat, offset as nat));
            offset = offset + 1;
        }
        append_chars(&mut v, &chars_of("\x1b8"));
        string_of(&v)
    }

    /// What leaves the alternate screen and resets the scrolling region, if
    /// the monitor is still showing.
    pub fn closing_sequence(&self) -> (r: Option<String>)
        ensures
            r matches Some(s) ==> self.active && s@ == "\x1b[r\x1b[?1049l"@,
            r is None ==> !self.active,
    {
        if self.active {
            Some(string_of(&chars_of("\x1b[r\x1b[?1049l")))
        } else {
            None
        }
    }

    /// Records that the monitor no longer shows.
    pub fn mark_closed(&mut self)
        ensures
            !final(self).active,
            final(self).size == old(self).size,
    {
        self.active = false;
    }
}

} // verus!

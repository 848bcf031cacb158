//! Recording a scenario: the terminal session it runs in, and what each
//! instruction makes the recorder do.

use vstd::prelude::*;
use vstd::utf8::{encode_utf8, encode_scalar};

use crate::cast::Header;
use crate::convert::ascii_lower;
use crate::paths::{parent, parent_of};
use crate::script::{Arrow, Instruction, InstructionModel};
use crate::summary::{instruction_summary, summary_model};
use crate::text::{append_chars, chars_of, owned, push_string, string_of, string_views};

verus! {

broadcast use vstd::utf8::char_is_scalar;

/// The UTF-8 encoding of one character.
pub fn utf8_of(c: char) -> (v: Vec<u8>)
    ensures
        v@ == encode_utf8(seq![c]),
{
    let u = c as u32;
    let mut v: Vec<u8> = Vec::new();
    if u <= 0x7f {
        v.push((u & 0x7f) as u8);
    } else if u <= 0x7ff {
        v.push(0xc0u8 | ((u >> 6) & 0x1f) as u8);
        v.push(0x80u8 | (u & 0x3f) as u8);
    } else if u <= 0xffff {
        v.push(0xe0u8 | ((u >> 12) & 0x0f) as u8);
        v.push(0x80u8 | ((u >> 6) & 0x3f) as u8);
        v.push(0x80u8 | (u & 0x3f) as u8);
    } else {
        v.push(0xf0u8 | ((u >> 18) & 0x7) as u8);
        v.push(0x80u8 | ((u >> 12) & 0x3f) as u8);
        v.push(0x80u8 | ((u >> 6) & 0x3f) as u8);
        v.push(0x80u8 | (u & 0x3f) as u8);
    }
    proof {
        assert(vstd::utf8::is_scalar(u));
        assert(seq![c].drop_first() =~= Seq::<char>::empty());
        assert(encode_utf8(Seq::<char>::empty()) =~= Seq::<u8>::empty());
        assert(v@ =~= encode_scalar(u));
        assert(encode_utf8(seq![c]) =~= encode_scalar(u));
    }
    v
}

/// What the recorder does.
#[derive(Clone, Debug, PartialEq)]
pub enum Action {
    /// Wait this many milliseconds.
    Pause(u64),
    /// Write these bytes to the terminal, and record them as input.
    Send(Vec<u8>),
    /// Wait until the terminal output matches this regular expression.
    AwaitOutput(String),
    /// Record a marker with this label.
    Marker(String),
    /// `presses` times: wait `pause_ms`, send `key`, then a newline when `enter` holds.
    Arrow { key: Vec<u8>, presses: usize, enter: bool, pause_ms: u64 },
}

/// The mathematical value of an [`Action`].
pub enum ActionModel {
    Pause(u64),
    Send(Seq<u8>),
    AwaitOutput(Seq<char>),
    Marker(Seq<char>),
    Arrow { key: Seq<u8>, presses: usize, enter: bool, pause_ms: u64 },
}

impl View for Action {
    type V = ActionModel;

    open spec fn view(&self) -> ActionModel {
        match self {
            Action::Pause(ms) => ActionModel::Pause(*ms),
            Action::Send(b) => ActionModel::Send(b@),
            Action::AwaitOutput(p) => ActionModel::AwaitOutput(p@),
            Action::Marker(l) => ActionModel::Marker(l@),
            Action::Arrow { key, presses, enter, pause_ms } => ActionModel::Arrow {
                key: key@,
                presses: *presses,
                enter: *enter,
                pause_ms: *pause_ms,
            },
        }
    }
}

pub open spec fn action_models(v: Seq<Action>) -> Seq<ActionModel> {
    v.map_values(|a: Action| a@)
}

/// Typing `text`: each character sent on its own, each followed by a pause of `delay` ms.
pub open spec fn typed(text: Seq<char>, delay: u64) -> Seq<ActionModel>
    decreases text.len(),
{
    if text.len() == 0 {
        seq![]
    } else {
        typed(text.drop_last(), delay) + seq![
            ActionModel::Send(encode_utf8(seq![text.last()])),
            ActionModel::Pause(delay),
        ]
    }
}

/// The escape sequence of an arrow key.
pub open spec fn arrow_key(a: Arrow) -> Seq<u8> {
    match a {
        Arrow::Down => seq![0x1bu8, 0x5bu8, 0x42u8],
        Arrow::Left => seq![0x1bu8, 0x5bu8, 0x44u8],
        Arrow::Right => seq![0x1bu8, 0x5bu8, 0x43u8],
        Arrow::Up => seq![0x1bu8, 0x5bu8, 0x41u8],
    }
}

impl Arrow {
    /// The bytes a terminal receives for this key.
    pub fn bytes(self) -> (b: Vec<u8>)
        ensures
            b@ == arrow_key(self),
    {
        let last: u8 = match self {
            Arrow::Down => 0x42,
            Arrow::Left => 0x44,
            Arrow::Right => 0x43,
            Arrow::Up => 0x41,
        };
        let b = vec![0x1bu8, 0x5bu8, last];
        assert(b@ =~= arrow_key(self));
        b
    }
}

/// The byte that Control with `c` sends, when `c` is an ASCII letter of either case.
pub open spec fn control_byte(c: char) -> Option<u8> {
    let l = ascii_lower(c);
    if 'a' <= l <= 'z' {
        Some((l as u32 - 'a' as u32 + 1) as u8)
    } else {
        None
    }
}

/// Why an instruction cannot be carried out.
#[derive(Clone, Copy, Debug, PartialEq, Eq, Structural)]
pub enum RecordError {
    /// `sendcontrol` with a character that is no ASCII letter.
    ControlNeedsLetter,
}

/// What carrying out `ins` does, with `delay` the current pause between typed characters.
pub open spec fn execute_model(ins: InstructionModel, delay: u64) -> Result<
    Seq<ActionModel>,
    RecordError,
> {
    match ins {
        InstructionModel::Command(c) => Ok(typed(c, delay) + seq![ActionModel::Send(seq![10u8])]),
        InstructionModel::Delay(_) => Ok(seq![]),
        InstructionModel::Expect(p) => Ok(seq![ActionModel::AwaitOutput(p)]),
        InstructionModel::Snapshot(l) => Ok(seq![ActionModel::Marker(l)]),
        InstructionModel::Send(t) => Ok(typed(t, delay)),
        InstructionModel::SendCharacter(t) => Ok(seq![ActionModel::Send(encode_utf8(t))]),
        InstructionModel::SendArrow { direction, count, enter } => Ok(
            seq![
                ActionModel::Arrow {
                    key: arrow_key(direction),
                    presses: count,
                    enter,
                    pause_ms: delay,
                },
            ],
        ),
        InstructionModel::SendControl(c) => match control_byte(c) {
            Some(b) => Ok(seq![ActionModel::Send(seq![b])]),
            None => Err(RecordError::ControlNeedsLetter),
        },
        InstructionModel::Wait(_) => Ok(seq![]),
    }
}

/// One line of progress: the instruction's position, its script line, its label and summary.
pub struct Progress {
    pub current: usize,
    pub total: usize,
    pub line: usize,
    pub label: &'static str,
    pub summary: String,
}

/// The state of a recording in progress.
pub struct Recorder {
    /// The pause, in ms, after each typed character and before each arrow press.
    pub delay_ms: u64,
    /// The pause, in ms, before each instruction.
    pub wait_ms: u64,
    /// How many instructions the scenario has.
    pub progress_total: usize,
    /// How many instructions were started so far.
    pub progress_index: usize,
    /// The labels of the markers recorded so far.
    pub snapshot_labels: Vec<String>,
}

fn type_text(text: &str, delay: u64) -> (r: Vec<Action>)
    ensures
        action_models(r@) == typed(text@, delay),
{
    let t = chars_of(text);
    let mut r: Vec<Action> = Vec::new();
    let mut i: usize = 0;
    while i < t.len()
        invariant
            i <= t.len(),
            action_models(r@) == typed(t@.take(i as int), delay),
        decreases t.len() - i,
    {
        let ghost before = r@;
        r.push(Action::Send(utf8_of(t[i])));
        r.push(Action::Pause(delay));
        proof {
            let s = t@.take(i + 1);
            assert(s.drop_last() =~= t@.take(i as int));
            assert(s.last() == t@[i as int]);
            assert(action_models(r@) =~= action_models(before) + seq![
                ActionModel::Send(encode_utf8(seq![t@[i as int]])),
                ActionModel::Pause(delay),
            ]);
        }
        i = i + 1;
    }
    assert(t@.take(t.len() as int) =~= t@);
    r
}

pub proof fn lemma_encode_utf8_push(s: Seq<char>, c: char)
    ensures
        encode_utf8(s.push(c)) == encode_utf8(s) + encode_utf8(seq![c]),
    decreases s.len(),
{
    if s.len() == 0 {
        assert(s.push(c) =~= seq![c]);
        assert(encode_utf8(s) =~= Seq::<u8>::empty());
        assert(Seq::<u8>::empty() + encode_utf8(seq![c]) =~= encode_utf8(seq![c]));
    } else {
        lemma_encode_utf8_push(s.drop_first(), c);
        assert(s.push(c).drop_first() =~= s.drop_first().push(c));
        assert(s.push(c)[0] == s[0]);
        let a = encode_scalar(s[0] as u32);
        assert(a + (encode_utf8(s.drop_first()) + encode_utf8(seq![c])) =~= (a + encode_utf8(
            s.drop_first(),
        )) + encode_utf8(seq![c]));
    }
}

/// The UTF-8 encoding of a string.
pub fn utf8_of_str(s: &str) -> (v: Vec<u8>)
    ensures
        v@ == encode_utf8(s@),
{
    let t = chars_of(s);
    let mut v: Vec<u8> = Vec::new();
    let mut i: usize = 0;
    assert(encode_utf8(t@.take(0)) =~= Seq::<u8>::empty()) by {
        assert(t@.take(0) =~= Seq::<char>::empty());
    }
    while i < t.len()
        invariant
            i <= t.len(),
            v@ == encode_utf8(t@.take(i as int)),
        decreases t.len() - i,
    {
        let b = utf8_of(t[i]);
        let mut k: usize = 0;
        let ghost start = v@;
        while k < b.len()
            invariant
                k <= b.len(),
                v@ == start + b@.take(k as int),
            decreases b.len() - k,
        {
            v.push(b[k]);
            assert(b@.take(k + 1) =~= b@.take(k as int).push(b@[k as int]));
            k = k + 1;
        }
        proof {
            assert(b@.take(b.len() as int) =~= b@);
            lemma_encode_utf8_push(t@.take(i as int), t@[i as int]);
            assert(t@.take(i + 1) =~= t@.take(i as int).push(t@[i as int]));
        }
        i = i + 1;
    }
    assert(t@.take(t.len() as int) =~= t@);
    v
}

/// The exit status of the shell: its own status when it exited, 128 plus
/// the signal when a signal ended it, and 1 otherwise.
#[derive(Clone, Copy, Debug, PartialEq, Eq, Structural)]
pub enum ExitKind {
    Exited(i32),
    Signaled(i32),
    Other,
}

/// The status number for how the shell ended.
pub open spec fn exit_status_model(kind: ExitKind) -> int {
    match kind {
        ExitKind::Exited(s) => s as int,
        ExitKind::Signaled(sig) => 128 + sig,
        ExitKind::Other => 1,
    }
}

/// A finished recording.
pub struct Recording {
    pub exit_status: i32,
    pub snapshot_labels: Vec<String>,
}

impl Recording {
    /// The status to report as a failure: the shell's when it is not 0.
    pub fn failure(&self) -> (r: Option<i32>)
        ensures
            r == (if self.exit_status != 0 {
                Some(self.exit_status)
            } else {
                None
            }),
    {
        if self.exit_status != 0 {
            Some(self.exit_status)
        } else {
            None
        }
    }
}

impl Recorder {
    /// A recorder for a scenario of `progress_total` instructions.
    pub fn new(progress_total: usize, delay_ms: u64, wait_ms: u64) -> (r: Recorder)
        ensures
            r.delay_ms == delay_ms,
            r.wait_ms == wait_ms,
            r.progress_total == progress_total,
            r.progress_index == 0,
            r.snapshot_labels@.len() == 0,
    {
        Recorder { delay_ms, wait_ms, progress_total, progress_index: 0, snapshot_labels: Vec::new() }
    }

    /// Counts the next instruction as started and describes it.
    pub fn show_progress(&mut self, line: usize, instruction: &Instruction) -> (p: Progress)
        requires
            old(self).progress_index < usize::MAX,
        ensures
            final(self).progress_index == old(self).progress_index + 1,
            final(self).progress_total == old(self).progress_total,
            final(self).delay_ms == old(self).delay_ms,
            final(self).wait_ms == old(self).wait_ms,
            final(self).snapshot_labels@ == old(self).snapshot_labels@,
            p.current == final(self).progress_index,
            p.total == final(self).progress_total,
            p.line == line,
            (p.label@, p.summary@) == summary_model(instruction@),
    {
        self.progress_index = self.progress_index + 1;
        let (label, summary) = instruction_summary(instruction);
        Progress {
            current: self.progress_index,
            total: self.progress_total,
            line,
            label,
            summary,
        }
    }

    /// Carries out an instruction: the actions it takes, with the pauses
    /// and the markers it sets changed as it says.
    pub fn execute(&mut self, instruction: Instruction) -> (r: Result<Vec<Action>, RecordError>)
        ensures
            match execute_model(instruction@, old(self).delay_ms) {
                Ok(acts) => r matches Ok(v) && action_models(v@) == acts,
                Err(e) => r == Err::<Vec<Action>, RecordError>(e),
            },
            final(self).delay_ms == (match instruction@ {
                InstructionModel::Delay(d) => d,
                _ => old(self).delay_ms,
            }),
            final(self).wait_ms == (match instruction@ {
                InstructionModel::Wait(w) => w,
                _ => old(self).wait_ms,
            }),
            string_views(final(self).snapshot_labels@) == (match instruction@ {
                InstructionModel::Snapshot(l) => string_views(old(self).snapshot_labels@).push(l),
                _ => string_views(old(self).snapshot_labels@),
            }),
            final(self).progress_index == old(self).progress_index,
            final(self).progress_total == old(self).progress_total,
    {
        match instruction {
            Instruction::Command(command) => {
                let mut acts = type_text(command.as_str(), self.delay_ms);
                let ghost before = acts@;
                let mut nl: Vec<u8> = Vec::new();
                nl.push(10u8);
                assert(nl@ =~= seq![10u8]);
                acts.push(Action::Send(nl));
                proof {
                    assert(action_models(acts@) =~= action_models(before) + seq![
                        ActionModel::Send(seq![10u8]),
                    ]);
                }
                Ok(acts)
            },
            Instruction::Delay(delay) => {
                self.delay_ms = delay;
                let acts: Vec<Action> = Vec::new();
                assert(action_models(acts@) =~= seq![]);
                Ok(acts)
            },
            Instruction::Expect(pattern) => {
                let acts = vec![Action::AwaitOutput(pattern)];
                assert(action_models(acts@) =~= seq![ActionModel::AwaitOutput(pattern@)]);
                Ok(acts)
            },
            Instruction::Snapshot(label) => {
                let copy = string_of(&chars_of(label.as_str()));
                push_string(&mut self.snapshot_labels, copy);
                let acts = vec![Action::Marker(label)];
                assert(action_models(acts@) =~= seq![ActionModel::Marker(label@)]);
                Ok(acts)
            },
            Instruction::Send(text) => Ok(type_text(text.as_str(), self.delay_ms)),
            Instruction::SendCharacter(text) => {
                let acts = vec![Action::Send(utf8_of_str(text.as_str()))];
                assert(action_models(acts@) =~= seq![ActionModel::Send(encode_utf8(text@))]);
                Ok(acts)
            },
            Instruction::SendArrow { direction, count, enter } => {
                let acts = vec![
                    Action::Arrow {
                        key: direction.bytes(),
                        presses: count,
                        enter,
                        pause_ms: self.delay_ms,
                    },
                ];
                assert(action_models(acts@) =~= seq![
                    ActionModel::Arrow {
                        key: arrow_key(direction),
                        presses: count,
                        enter,
                        pause_ms: self.delay_ms,
                    },
                ]);
                Ok(acts)
            },
            Instruction::SendControl(control) => {
                let l = if 'A' <= control && control <= 'Z' {
                    ((control as u8) + 32) as char
                } else {
                    control
                };
                assert(l == ascii_lower(control)) by {
                    if 'A' <= control && control <= 'Z' {
                        assert((control as u8) as u32 == control as u32);
                    }
                }
                if !('a' <= l && l <= 'z') {
                    return Err(RecordError::ControlNeedsLetter);
                }
                let b: u8 = (l as u8) - 0x61 + 1;
                assert(b == (l as u32 - 'a' as u32 + 1) as u8);
                let mut one: Vec<u8> = Vec::new();
                one.push(b);
                assert(one@ =~= seq![b]);
                let acts = vec![Action::Send(one)];
                assert(action_models(acts@) =~= seq![ActionModel::Send(seq![b])]);
                Ok(acts)
            },
            Instruction::Wait(wait) => {
                self.wait_ms = wait;
                let acts: Vec<Action> = Vec::new();
                assert(action_models(acts@) =~= seq![]);
                Ok(acts)
            },
        }
    }

    /// The finished recording, given how the shell ended.
    pub fn finish(self, kind: ExitKind) -> (r: Recording)
        requires
            kind matches ExitKind::Signaled(sig) ==> sig <= i32::MAX - 128,
        ensures
            r.exit_status == exit_status_model(kind),
            string_views(r.snapshot_labels@) == string_views(self.snapshot_labels@),
    {
        let exit_status = match kind {
            ExitKind::Exited(s) => s,
            ExitKind::Signaled(sig) => 128 + sig,
            ExitKind::Other => 1,
        };
        Recording { exit_status, snapshot_labels: self.snapshot_labels }
    }
}

/// The environment the scenario's shell starts with.
pub open spec fn env_model() -> Seq<(Seq<char>, Seq<char>)> {
    seq![
        ("HISTFILE"@, "/dev/null"@),
        ("PS1"@, "$ "@),
        ("TERM"@, "xterm-256color"@),
        ("ASCIINEMA_EXPECT"@, "1"@),
    ]
}

pub open spec fn pair_views(v: Seq<(String, String)>) -> Seq<(Seq<char>, Seq<char>)> {
    v.map_values(|p: (String, String)| (p.0@, p.1@))
}

/// The terminal session a scenario runs in.
pub struct SessionPlan {
    pub cols: u16,
    pub rows: u16,
    /// The shell and its arguments.
    pub command: Vec<String>,
    /// The command as one line.
    pub command_line: String,
    /// The directory the shell starts in.
    pub working_dir: String,
    /// The environment, in order.
    pub env: Vec<(String, String)>,
    pub term_type: String,
}

/// The directory a script runs in: its parent, or `.` when that is empty or missing.
pub open spec fn working_dir_model(script: Seq<char>) -> Seq<char> {
    match parent(script) {
        Some(p) => if p.len() > 0 {
            p
        } else {
            "."@
        },
        None => "."@,
    }
}

fn env_vars() -> (r: Vec<(String, String)>)
    ensures
        pair_views(r@) == env_model(),
{
    let mut r: Vec<(String, String)> = Vec::new();
    r.push((owned("HISTFILE"), owned("/dev/null")));
    r.push((owned("PS1"), owned("$ ")));
    r.push((owned("TERM"), owned("xterm-256color")));
    r.push((owned("ASCIINEMA_EXPECT"), owned("1")));
    assert(pair_views(r@) =~= env_model());
    r
}

impl SessionPlan {
    /// The session for running `script` with `shell`: the terminal size the
    /// monitor asks for when one runs, else `cols` by `rows`; the shell
    /// started without profile or rc files, in the script's directory.
    pub fn new(shell: &str, script: &str, cols: u16, rows: u16, monitor_size: Option<(u16, u16)>) -> (r:
        SessionPlan)
        ensures
            (r.cols, r.rows) == (match monitor_size {
                Some(s) => s,
                None => (cols, rows),
            }),
            string_views(r.command@) == seq![shell@, "--noprofile"@, "--norc"@],
            r.command_line@ == shell@ + " --noprofile --norc"@,
            r.working_dir@ == working_dir_model(script@),
            pair_views(r.env@) == env_model(),
            r.term_type@ == "xterm-256color"@,
    {
        let (c, w) = match monitor_size {
            Some(s) => s,
            None => (cols, rows),
        };
        let mut command: Vec<String> = Vec::new();
        push_string(&mut command, owned(shell));
        push_string(&mut command, owned("--noprofile"));
        push_string(&mut command, owned("--norc"));
        assert(string_views(command@) =~= seq![shell@, "--noprofile"@, "--norc"@]);
        let mut line = chars_of(shell);
        append_chars(&mut line, &chars_of(" --noprofile --norc"));
        let dir = match parent_of(&chars_of(script)) {
            Some(p) => if p.len() > 0 {
                string_of(&p)
            } else {
                owned(".")
            },
            None => owned("."),
        };
        SessionPlan {
            cols: c,
            rows: w,
            command,
            command_line: string_of(&line),
            working_dir: dir,
            env: env_vars(),
            term_type: owned("xterm-256color"),
        }
    }

    /// The header of the recording of this session, started at `timestamp` (Unix seconds).
    pub fn header(&self, timestamp: u64) -> (h: Header)
        ensures
            h.term_cols == self.cols,
            h.term_rows == self.rows,
            h.term_type matches Some(t) && t@ == "xterm-256color"@,
            h.timestamp == Some(timestamp),
            h.command matches Some(c) && c@ == self.command_line@,
            h.env matches Some(e) && pair_views(e@) == env_model(),
    {
        Header {
            term_cols: self.cols,
            term_rows: self.rows,
            term_type: Some(owned("xterm-256color")),
            timestamp: Some(timestamp),
            command: Some(self.command_line.clone()),
            env: Some(env_vars()),
        }
    }
}

} // verus!

verus! {

/// The bytes that a run of actions writes to the terminal with `Send`.
pub open spec fn sent(acts: Seq<ActionModel>) -> Seq<u8>
    decreases acts.len(),
{
    if acts.len() == 0 {
        seq![]
    } else {
        sent(acts.drop_last()) + match acts.last() {
            ActionModel::Send(b) => b,
            _ => seq![],
        }
    }
}

proof fn lemma_sent_concat(a: Seq<ActionModel>, b: Seq<ActionModel>)
    ensures
        sent(a + b) == sent(a) + sent(b),
    decreases b.len(),
{
    if b.len() == 0 {
        assert(a + b =~= a);
        assert(sent(a) + Seq::<u8>::empty() =~= sent(a));
    } else {
        lemma_sent_concat(a, b.drop_last());
        assert((a + b).drop_last() =~= a + b.drop_last());
        let tail = match b.last() {
            ActionModel::Send(x) => x,
            _ => seq![],
        };
        assert(sent(a) + sent(b.drop_last()) + tail =~= sent(a) + (sent(b.drop_last()) + tail));
    }
}

/// Typing text writes exactly its UTF-8 encoding.
pub proof fn lemma_typed_sends_text(t: Seq<char>, delay: u64)
    ensures
        sent(typed(t, delay)) == encode_utf8(t),
    decreases t.len(),
{
    if t.len() == 0 {
        assert(encode_utf8(t) =~= Seq::<u8>::empty());
    } else {
        lemma_typed_sends_text(t.drop_last(), delay);
        let pair = seq![ActionModel::Send(encode_utf8(seq![t.last()])), ActionModel::Pause(delay)];
        lemma_sent_concat(typed(t.drop_last(), delay), pair);
        assert(pair.drop_last() =~= seq![ActionModel::Send(encode_utf8(seq![t.last()]))]);
        assert(pair.drop_last().drop_last() =~= Seq::<ActionModel>::empty());
        let e = encode_utf8(seq![t.last()]);
        assert(sent(pair.drop_last().drop_last()) =~= Seq::<u8>::empty());
        assert(sent(pair.drop_last()) =~= Seq::<u8>::empty() + e);
        assert(sent(pair) =~= (Seq::<u8>::empty() + e) + Seq::<u8>::empty());
        assert(sent(pair) =~= e);
        lemma_encode_utf8_push(t.drop_last(), t.last());
        assert(t.drop_last().push(t.last()) =~= t);
    }
}

/// A command writes its text, then a newline; `send` and `sendcharacter`
/// write the same bytes for the same text, one character at a time or all
/// at once.
pub proof fn lemma_written_bytes(t: Seq<char>, delay: u64)
    ensures
        execute_model(InstructionModel::Command(t), delay) matches Ok(a) && sent(a) == encode_utf8(t)
            + seq![10u8],
        execute_model(InstructionModel::Send(t), delay) matches Ok(a) && sent(a) == encode_utf8(t),
        execute_model(InstructionModel::SendCharacter(t), delay) matches Ok(a) && sent(a)
            == encode_utf8(t),
{
    lemma_typed_sends_text(t, delay);
    let nl = seq![ActionModel::Send(seq![10u8])];
    lemma_sent_concat(typed(t, delay), nl);
    assert(nl.drop_last() =~= Seq::<ActionModel>::empty());
    assert(sent(nl.drop_last()) =~= Seq::<u8>::empty());
    assert(sent(nl) =~= Seq::<u8>::empty() + seq![10u8]);
    let one = seq![ActionModel::Send(encode_utf8(t))];
    assert(one.drop_last() =~= Seq::<ActionModel>::empty());
    assert(sent(one.drop_last()) =~= Seq::<u8>::empty());
    assert(sent(one) =~= Seq::<u8>::empty() + encode_utf8(t));
}

/// Control with a letter sends the same byte for its small and its
/// capital form, a byte from 1 (for `a`) to 26 (for `z`).
pub proof fn lemma_control_letters(c: char)
    requires
        'a' <= c <= 'z',
    ensures
        control_byte(c) == Some((c as u32 - 'a' as u32 + 1) as u8),
        control_byte(((c as u32) - 32) as char) == control_byte(c),
        1 <= (c as u32 - 'a' as u32 + 1) <= 26,
{
}


/// A shell that exited is reported with its own status, one that a signal
/// ended with 128 plus the signal, any other ending with 1; the status is 0
/// exactly when the shell exited with 0.
pub proof fn lemma_exit_status_reported(s: i32, sig: i32, kind: ExitKind)
    ensures
        exit_status_model(ExitKind::Exited(s)) == s,
        exit_status_model(ExitKind::Signaled(sig)) == 128 + sig,
        exit_status_model(ExitKind::Other) == 1,
        (kind matches ExitKind::Signaled(g) ==> g > 0) ==> (exit_status_model(kind) == 0 <==> kind
            == ExitKind::Exited(0)),
{
}


/// Typing sends each character on its own, in order, and pauses for the
/// delay after each one.
pub proof fn lemma_typing_order(t: Seq<char>, delay: u64)
    ensures
        typed(t, delay).len() == 2 * t.len(),
        forall|i: int| 0 <= i < t.len() ==> (#[trigger] typed(t, delay)[2 * i]) == ActionModel::Send(
            encode_utf8(seq![t[i]]),
        ) && typed(t, delay)[2 * i + 1] == ActionModel::Pause(delay),
    decreases t.len(),
{
    if t.len() > 0 {
        let p = t.drop_last();
        lemma_typing_order(p, delay);
        assert forall|i: int| 0 <= i < t.len() implies (#[trigger] typed(t, delay)[2 * i])
            == ActionModel::Send(encode_utf8(seq![t[i]])) && typed(t, delay)[2 * i + 1]
            == ActionModel::Pause(delay) by {
            if i < p.len() {
                assert(typed(p, delay)[2 * i] == ActionModel::Send(encode_utf8(seq![p[i]])));
                assert(p[i] == t[i]);
            }
        }
    }
}

} // verus!

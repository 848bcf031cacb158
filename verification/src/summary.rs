//! The one-line description of an instruction that progress reports show.

use vstd::prelude::*;

use crate::script::{Arrow, Instruction, InstructionModel};
use crate::text::{append_chars, chars_of, decimal, push_decimal, string_of};

verus! {

/// `s` with each newline turned into a space.
pub open spec fn newlines_to_spaces(s: Seq<char>) -> Seq<char> {
    s.map_values(|c: char| if c == '\n' { ' ' } else { c })
}

/// The word for an arrow.
pub open spec fn arrow_word(a: Arrow) -> Seq<char> {
    match a {
        Arrow::Down => "down"@,
        Arrow::Left => "left"@,
        Arrow::Right => "right"@,
        Arrow::Up => "up"@,
    }
}

/// The label (the directive's keyword, or `command`) and the summary of an instruction.
pub open spec fn summary_model(i: InstructionModel) -> (Seq<char>, Seq<char>) {
    match i {
        InstructionModel::Command(c) => ("command"@, newlines_to_spaces(c)),
        InstructionModel::Delay(d) => ("delay"@, decimal(d as nat) + " ms"@),
        InstructionModel::Expect(p) => ("expect"@, p),
        InstructionModel::Snapshot(l) => ("snapshot"@, l),
        InstructionModel::Send(t) => ("send"@, decimal(t.len()) + " character(s)"@),
        InstructionModel::SendCharacter(t) => (
            "sendcharacter"@,
            decimal(t.len()) + " character(s)"@,
        ),
        InstructionModel::SendArrow { direction, count, enter } => (
            if enter {
                "sendlinearrow"@
            } else {
                "sendarrow"@
            },
            arrow_word(direction) + " x"@ + decimal(count as nat),
        ),
        InstructionModel::SendControl(c) => ("sendcontrol"@, seq![c]),
        InstructionModel::Wait(w) => ("wait"@, decimal(w as nat) + " ms"@),
    }
}

fn spaces_for_newlines(s: &Vec<char>) -> (r: Vec<char>)
    ensures
        r@ == newlines_to_spaces(s@),
{
    let mut r: Vec<char> = Vec::new();
    let mut i: usize = 0;
    while i < s.len()
        invariant
            i <= s.len(),
            r@ == newlines_to_spaces(s@.take(i as int)),
        decreases s.len() - i,
    {
        let c = s[i];
        r.push(
            if c == '\n' {
                ' '
            } else {
                c
            },
        );
        assert(newlines_to_spaces(s@.take(i + 1)) =~= newlines_to_spaces(s@.take(i as int)).push(
            if c == '\n' {
                ' '
            } else {
                c
            },
        ));
        i = i + 1;
    }
    assert(s@.take(s.len() as int) =~= s@);
    r
}

fn number_then(n: u64, tail: &str) -> (r: String)
    ensures
        r@ == decimal(n as nat) + tail@,
{
    let mut v: Vec<char> = Vec::new();
    push_decimal(&mut v, n);
    append_chars(&mut v, &chars_of(tail));
    assert(v@ =~= decimal(n as nat) + tail@);
    string_of(&v)
}

/// The label and the one-line summary of an instruction.
pub fn instruction_summary(instruction: &Instruction) -> (r: (&'static str, String))
    ensures
        (r.0@, r.1@) == summary_model(instruction@),
{
    match instruction {
        Instruction::Command(command) => (
            "command",
            string_of(&spaces_for_newlines(&chars_of(command.as_str()))),
        ),
        Instruction::Delay(delay) => ("delay", number_then(*delay, " ms")),
        Instruction::Expect(pattern) => ("expect", string_of(&chars_of(pattern.as_str()))),
        Instruction::Snapshot(label) => ("snapshot", string_of(&chars_of(label.as_str()))),
        Instruction::Send(text) => {
            let n = chars_of(text.as_str()).len();
            ("send", number_then(n as u64, " character(s)"))
        },
        Instruction::SendCharacter(text) => {
            let n = chars_of(text.as_str()).len();
            ("sendcharacter", number_then(n as u64, " character(s)"))
        },
        Instruction::SendArrow { direction, count, enter } => {
            let word = match direction {
                Arrow::Down => "down",
                Arrow::Left => "left",
                Arrow::Right => "right",
                Arrow::Up => "up",
            };
            let mut v = chars_of(word);
            append_chars(&mut v, &chars_of(" x"));
            push_decimal(&mut v, *count as u64);
            let action = if *enter {
                "sendlinearrow"
            } else {
                "sendarrow"
            };
            (action, string_of(&v))
        },
        Instruction::SendControl(control) => {
            let mut v: Vec<char> = Vec::new();
            v.push(*control);
            ("sendcontrol", string_of(&v))
        },
        Instruction::Wait(wait) => ("wait", number_then(*wait, " ms")),
    }
}

} // verus!

verus! {

/// The label that progress shows for an instruction read from a directive
/// is the directive's keyword: the directive starts with the label and a space.
pub proof fn lemma_directive_label_is_keyword(d: Seq<char>, line: usize)
    requires
        crate::directive::directive_model(d, line) is Ok,
    ensures
        crate::text::has_prefix(
            d,
            summary_model(crate::directive::directive_model(d, line)->Ok_0).0 + " "@,
        ),
{
    reveal_strlit("delay ");
    reveal_strlit("delay");
    reveal_strlit("expect ");
    reveal_strlit("expect");
    reveal_strlit("snapshot ");
    reveal_strlit("snapshot");
    reveal_strlit("sendcharacter ");
    reveal_strlit("sendcharacter");
    reveal_strlit("send ");
    reveal_strlit("send");
    reveal_strlit("sendcontrol ");
    reveal_strlit("sendcontrol");
    reveal_strlit("sendarrow ");
    reveal_strlit("sendarrow");
    reveal_strlit("sendlinearrow ");
    reveal_strlit("sendlinearrow");
    reveal_strlit("wait ");
    reveal_strlit("wait");
    reveal_strlit(" ");
    let ins = crate::directive::directive_model(d, line)->Ok_0;
    let k = summary_model(ins).0 + " "@;
    if crate::text::has_prefix(d, "delay "@) {
        assert(k =~= "delay "@);
    } else if crate::text::has_prefix(d, "expect "@) {
        assert(k =~= "expect "@);
    } else if crate::text::has_prefix(d, "snapshot "@) {
        assert(k =~= "snapshot "@);
    } else if crate::text::has_prefix(d, "sendcharacter "@) {
        assert(k =~= "sendcharacter "@);
    } else if crate::text::has_prefix(d, "send "@) {
        assert(k =~= "send "@);
    } else if crate::text::has_prefix(d, "sendcontrol "@) {
        assert(k =~= "sendcontrol "@);
    } else if crate::text::has_prefix(d, "sendarrow "@) {
        assert(k =~= "sendarrow "@);
    } else if crate::text::has_prefix(d, "sendlinearrow "@) {
        assert(k =~= "sendlinearrow "@);
    } else {
        assert(k =~= "wait "@);
    }
}

} // verus!

verus! {

/// Progress summaries: a command shows on one line, each newline turned
/// into a space and every other character kept; `send` and
/// `sendcharacter` of the same text, and `delay` and `wait` of the same
/// time, read the same; `expect` and `snapshot` show their argument; an
/// arrow shows its direction word first.
pub proof fn lemma_summary_texts(t: Seq<char>, ms: u64, a: Arrow, n: usize, enter: bool)
    ensures
        summary_model(InstructionModel::Command(t)).1.len() == t.len(),
        forall|i: int| 0 <= i < t.len() ==> (#[trigger] summary_model(InstructionModel::Command(t)).1[i])
            == (if t[i] == '\n' {
            ' '
        } else {
            t[i]
        }),
        summary_model(InstructionModel::Send(t)).1 == summary_model(InstructionModel::SendCharacter(t)).1,
        summary_model(InstructionModel::Delay(ms)).1 == summary_model(InstructionModel::Wait(ms)).1,
        summary_model(InstructionModel::Expect(t)).1 == t,
        summary_model(InstructionModel::Snapshot(t)).1 == t,
        crate::text::has_prefix(
            summary_model(InstructionModel::SendArrow { direction: a, count: n, enter }).1,
            arrow_word(a),
        ),
        summary_model(InstructionModel::SendArrow { direction: a, count: n, enter }).0 == (if enter {
            "sendlinearrow"@
        } else {
            "sendarrow"@
        }),
{
    let x = summary_model(InstructionModel::SendArrow { direction: a, count: n, enter }).1;
    assert(x.take(arrow_word(a).len() as int) =~= arrow_word(a));
}

} // verus!

//! Reading a scenario script into instructions.
//!
//! A script is a shell script. Lines that start (after blanks) with `#$`
//! are directives; other lines that start with `#`, and blank lines, are
//! skipped; a line that opens a heredoc is sent as a command and the lines
//! up to and including its delimiter are sent as text; lines that end with
//! `\` continue onto the next line; every other line is a command.

use vstd::prelude::*;

use crate::directive::{directive_model, parse_directive_chars};
use crate::script::{
    Instruction, InstructionModel, ParsedScript, ScriptError, ScriptErrorModel,
};
use crate::text::{
    append_chars, chars_of, find_last_double_lt, has_prefix, last_double_lt, lines, same_chars,
    slice_chars, split_lines, split_words, starts_with, string_of, texts, trim, trim_chars,
    trim_end, trim_end_chars, trim_start, trim_start_chars, words,
};

verus! {

/// The text after the last `<<` of a line, trimmed, without one leading
/// `-`, when it is a single word.
pub open spec fn heredoc_candidate(line: Seq<char>) -> Option<Seq<char>> {
    match last_double_lt(line) {
        None => None,
        Some(i) => {
            let d0 = trim(line.skip(i + 2));
            let d1 = if d0.len() > 0 && d0[0] == '-' {
                d0.drop_first()
            } else {
                d0
            };
            if d1.len() == 0 || words(d1).len() != 1 {
                None
            } else {
                Some(d1)
            }
        },
    }
}

/// `d` starts and ends with the same kind of quote.
pub open spec fn is_quoted(d: Seq<char>) -> bool {
    d.len() > 0 && ((d[0] == '\'' && d.last() == '\'') || (d[0] == '"' && d.last() == '"'))
}

/// The heredoc word of `line` is a lone quote: taking the text between its
/// quotes slices out of range.
pub open spec fn heredoc_panics(line: Seq<char>) -> bool {
    match heredoc_candidate(line) {
        Some(d) => is_quoted(d) && d.len() == 1,
        None => false,
    }
}

/// The delimiter of the heredoc that `line` opens, quotes removed.
pub open spec fn heredoc_model(line: Seq<char>) -> Option<Seq<char>> {
    match heredoc_candidate(line) {
        None => None,
        Some(d) => {
            let e = if is_quoted(d) {
                d.subrange(1, d.len() - 1)
            } else {
                d
            };
            if e.len() == 0 {
                None
            } else {
                Some(e)
            }
        },
    }
}

fn heredoc_delimiter_chars(line: &Vec<char>) -> (r: Option<Vec<char>>)
    requires
        !heredoc_panics(line@),
    ensures
        r matches Some(d) ==> heredoc_model(line@) == Some(d@),
        r is None ==> heredoc_model(line@) is None,
{
    let i = match find_last_double_lt(line) {
        Some(i) => i,
        None => {
            return None;
        },
    };
    let rest = slice_chars(line, i + 2, line.len());
    assert(rest@ =~= line@.skip(i + 2));
    let d0 = trim_chars(&rest);
    let d1 = if d0.len() > 0 && d0[0] == '-' {
        let t = slice_chars(&d0, 1, d0.len());
        assert(t@ =~= d0@.drop_first());
        t
    } else {
        d0
    };
    if d1.len() == 0 || split_words(&d1).len() != 1 {
        return None;
    }
    let n = d1.len();
    let quoted = (d1[0] == '\'' && d1[n - 1] == '\'') || (d1[0] == '"' && d1[n - 1] == '"');
    let e = if quoted {
        slice_chars(&d1, 1, n - 1)
    } else {
        d1
    };
    if e.len() == 0 {
        None
    } else {
        Some(e)
    }
}

/// The delimiter of the heredoc that `line` opens, if it opens one.
pub fn heredoc_delimiter(line: &str) -> (r: Option<String>)
    requires
        !heredoc_panics(line@),
    ensures
        r matches Some(d) ==> heredoc_model(line@) == Some(d@),
        r is None ==> heredoc_model(line@) is None,
{
    match heredoc_delimiter_chars(&chars_of(line)) {
        Some(d) => Some(string_of(&d)),
        None => None,
    }
}

/// The first line at or after `from` that is exactly `d`.
pub open spec fn heredoc_end(ls: Seq<Seq<char>>, from: int, d: Seq<char>) -> Option<int>
    decreases ls.len() - from,
{
    if from < 0 || from >= ls.len() {
        None
    } else if ls[from] == d {
        Some(from)
    } else {
        heredoc_end(ls, from + 1, d)
    }
}

pub proof fn lemma_heredoc_end_bounds(ls: Seq<Seq<char>>, from: int, d: Seq<char>)
    ensures
        heredoc_end(ls, from, d) matches Some(j) ==> from <= j < ls.len() && ls[j] == d,
    decreases ls.len() - from,
{
    if 0 <= from < ls.len() && ls[from] != d {
        lemma_heredoc_end_bounds(ls, from + 1, d);
    }
}

/// The lines `from` up to `to` (excluded), each followed by a newline.
pub open spec fn heredoc_body(ls: Seq<Seq<char>>, from: int, to: int) -> Seq<char>
    decreases to - from,
{
    if to <= from {
        seq![]
    } else {
        heredoc_body(ls, from, to - 1) + ls[to - 1] + seq!['\n']
    }
}

/// The outcome of reading a script.
pub enum ParseModel {
    /// The instructions, each with its line.
    Parsed(Seq<(usize, InstructionModel)>),
    /// The script is refused.
    Failed(ScriptErrorModel),
    /// Reading the script slices a string out of range.
    Panics,
}

/// Reading the lines `ls` from index `i` on, after `acc` was read, with
/// `cont` the command continued so far and `cont_line` the line where it
/// started.
pub open spec fn parse_lines(
    ls: Seq<Seq<char>>,
    i: int,
    acc: Seq<(usize, InstructionModel)>,
    cont: Seq<char>,
    cont_line: Option<usize>,
) -> ParseModel
    decreases ls.len() - i,
{
    if i < 0 || i >= ls.len() {
        if cont.len() > 0 {
            ParseModel::Failed(
                ScriptErrorModel::UnfinishedCommand {
                    line: match cont_line {
                        Some(l) => l,
                        None => 0,
                    },
                },
            )
        } else {
            ParseModel::Parsed(acc)
        }
    } else {
        let n = (i + 1) as usize;
        let line = trim_end(ls[i]);
        let t = trim_start(line);
        if has_prefix(t, "#$"@) {
            if cont.len() > 0 {
                ParseModel::Failed(ScriptErrorModel::DirectiveInterruptsCommand { line: n })
            } else {
                match directive_model(trim_start(t.skip("#$"@.len() as int)), n) {
                    Ok(ins) => parse_lines(ls, i + 1, acc.push((n, ins)), cont, cont_line),
                    Err(e) => ParseModel::Failed(e),
                }
            }
        } else if t.len() == 0 || t[0] == '#' {
            parse_lines(ls, i + 1, acc, cont, cont_line)
        } else if heredoc_panics(line) {
            ParseModel::Panics
        } else if heredoc_model(line) is Some {
            let d = heredoc_model(line)->0;
            if cont.len() > 0 {
                ParseModel::Failed(ScriptErrorModel::HeredocInterruptsCommand { line: n })
            } else {
                match heredoc_end(ls, i + 1, d) {
                    None => ParseModel::Failed(
                        ScriptErrorModel::UnterminatedHeredoc { line: n, delimiter: d },
                    ),
                    Some(j) => {
                        proof {
                            lemma_heredoc_end_bounds(ls, i + 1, d);
                        }
                        parse_lines(
                            ls,
                            j + 1,
                            acc.push((n, InstructionModel::Command(line))).push(
                                (n, InstructionModel::Send(heredoc_body(ls, i + 1, j + 1))),
                            ),
                            cont,
                            cont_line,
                        )
                    },
                }
            }
        } else if line.len() > 0 && line.last() == '\\' {
            parse_lines(
                ls,
                i + 1,
                acc,
                cont + line + seq!['\n'],
                if cont.len() == 0 {
                    Some(n)
                } else {
                    cont_line
                },
            )
        } else {
            parse_lines(
                ls,
                i + 1,
                acc.push(
                    (
                        match cont_line {
                            Some(l) => l,
                            None => n,
                        },
                        InstructionModel::Command(cont + line),
                    ),
                ),
                seq![],
                None,
            )
        }
    }
}

/// The outcome of reading the script `content`.
pub open spec fn parse_model(content: Seq<char>) -> ParseModel {
    parse_lines(lines(content), 0, seq![], seq![], None)
}

/// The outcome that a run of the reader produced: `None` where reading
/// would slice out of range.
pub open spec fn outcome_model(r: Option<Result<ParsedScript, ScriptError>>) -> ParseModel {
    match r {
        None => ParseModel::Panics,
        Some(Ok(p)) => ParseModel::Parsed(p@),
        Some(Err(e)) => ParseModel::Failed(e@),
    }
}

fn find_heredoc_end(ls: &Vec<Vec<char>>, from: usize, d: &Vec<char>) -> (r: Option<usize>)
    requires
        from <= ls.len(),
    ensures
        r matches Some(j) ==> heredoc_end(texts(ls@), from as int, d@) == Some(j as int) && j
            < ls.len(),
        r is None ==> heredoc_end(texts(ls@), from as int, d@) is None,
{
    let mut k = from;
    while k < ls.len()
        invariant
            from <= k <= ls.len(),
            heredoc_end(texts(ls@), from as int, d@) == heredoc_end(texts(ls@), k as int, d@),
        decreases ls.len() - k,
    {
        if same_chars(&ls[k], d) {
            return Some(k);
        }
        k = k + 1;
    }
    None
}

fn build_heredoc_body(ls: &Vec<Vec<char>>, from: usize, to: usize) -> (r: Vec<char>)
    requires
        from <= to <= ls.len(),
    ensures
        r@ == heredoc_body(texts(ls@), from as int, to as int),
{
    let mut body: Vec<char> = Vec::new();
    let mut k = from;
    while k < to
        invariant
            from <= k <= to <= ls.len(),
            body@ == heredoc_body(texts(ls@), from as int, k as int),
        decreases to - k,
    {
        append_chars(&mut body, &ls[k]);
        body.push('\n');
        k = k + 1;
    }
    body
}

/// What one step of reading did.
enum Step {
    /// Go on at this line index.
    Next(usize),
    /// Reading ended with this outcome.
    Stop(Option<Result<ParsedScript, ScriptError>>),
}

/// Reads the line at index `i`, and the heredoc body it opens.
fn parse_step(
    ls: &Vec<Vec<char>>,
    i: usize,
    parsed: &mut ParsedScript,
    cont: &mut Vec<char>,
    cont_line: &mut Option<usize>,
) -> (r: Step)
    requires
        i < ls.len(),
    ensures
        match r {
            Step::Next(j) => i < j <= ls.len() && parse_lines(
                texts(ls@),
                i as int,
                old(parsed)@,
                old(cont)@,
                *old(cont_line),
            ) == parse_lines(texts(ls@), j as int, final(parsed)@, final(cont)@, *final(cont_line)),
            Step::Stop(o) => parse_lines(
                texts(ls@),
                i as int,
                old(parsed)@,
                old(cont)@,
                *old(cont_line),
            ) == outcome_model(o),
        },
{
    let ghost lsv = texts(ls@);
    let n = i + 1;
    assert(lsv[i as int] == ls[i as int]@);
    let line = trim_end_chars(&ls[i]);
    let t = trim_start_chars(&line);
    let marker = chars_of("#$");
    if starts_with(&t, &marker) {
        if cont.len() > 0 {
            return Step::Stop(Some(Err(ScriptError::DirectiveInterruptsCommand { line: n })));
        }
        let rest = slice_chars(&t, marker.len(), t.len());
        let d = trim_start_chars(&rest);
        proof {
            assert(rest@ =~= t@.skip("#$"@.len() as int));
        }
        return match parse_directive_chars(&d, n) {
            Ok(ins) => {
                parsed.push(n, ins);
                Step::Next(i + 1)
            },
            Err(e) => Step::Stop(Some(Err(e))),
        };
    }
    if t.len() == 0 || t[0] == '#' {
        return Step::Next(i + 1);
    }
    if heredoc_would_panic(&line) {
        return Step::Stop(None);
    }
    if let Some(d) = heredoc_delimiter_chars(&line) {
        if cont.len() > 0 {
            return Step::Stop(Some(Err(ScriptError::HeredocInterruptsCommand { line: n })));
        }
        return match find_heredoc_end(ls, i + 1, &d) {
            None => Step::Stop(
                Some(Err(ScriptError::UnterminatedHeredoc { line: n, delimiter: string_of(&d) })),
            ),
            Some(j) => {
                proof {
                    lemma_heredoc_end_bounds(lsv, i + 1, d@);
                }
                let body = build_heredoc_body(ls, i + 1, j + 1);
                parsed.push(n, Instruction::Command(string_of(&line)));
                parsed.push(n, Instruction::Send(string_of(&body)));
                Step::Next(j + 1)
            },
        };
    }
    if line.len() > 0 && line[line.len() - 1] == '\\' {
        if cont.len() == 0 {
            *cont_line = Some(n);
        }
        let ghost before = cont@;
        append_chars(cont, &line);
        cont.push('\n');
        assert(cont@ =~= before + line@ + seq!['\n']);
        return Step::Next(i + 1);
    }
    append_chars(cont, &line);
    let l = match *cont_line {
        Some(l) => l,
        None => n,
    };
    let command = string_of(cont);
    parsed.push(l, Instruction::Command(command));
    *cont = Vec::new();
    *cont_line = None;
    Step::Next(i + 1)
}

/// Whether the heredoc word of `line` is a lone quote.
fn heredoc_would_panic(line: &Vec<char>) -> (r: bool)
    ensures
        r == heredoc_panics(line@),
{
    let i = match find_last_double_lt(line) {
        Some(i) => i,
        None => {
            return false;
        },
    };
    let rest = slice_chars(line, i + 2, line.len());
    assert(rest@ =~= line@.skip(i + 2));
    let d0 = trim_chars(&rest);
    let d1 = if d0.len() > 0 && d0[0] == '-' {
        let t = slice_chars(&d0, 1, d0.len());
        assert(t@ =~= d0@.drop_first());
        t
    } else {
        d0
    };
    if d1.len() == 0 || split_words(&d1).len() != 1 {
        return false;
    }
    d1.len() == 1 && (d1[0] == '\'' || d1[0] == '"')
}

fn parse_core(content: &Vec<char>) -> (r: Option<Result<ParsedScript, ScriptError>>)
    ensures
        outcome_model(r) == parse_model(content@),
{
    let ls = split_lines(content);
    let mut parsed = ParsedScript { instructions: Vec::new() };
    let mut cont: Vec<char> = Vec::new();
    let mut cont_line: Option<usize> = None;
    let mut i: usize = 0;
    assert(parsed@ =~= seq![]);
    while i < ls.len()
        invariant
            i <= ls.len(),
            texts(ls@) == lines(content@),
            parse_model(content@) == parse_lines(texts(ls@), i as int, parsed@, cont@, cont_line),
        decreases ls.len() - i,
    {
        match parse_step(&ls, i, &mut parsed, &mut cont, &mut cont_line) {
            Step::Next(j) => {
                i = j;
            },
            Step::Stop(o) => {
                return o;
            },
        }
    }
    if cont.len() > 0 {
        let l = match cont_line {
            Some(l) => l,
            None => 0,
        };
        return Some(Err(ScriptError::UnfinishedCommand { line: l }));
    }
    Some(Ok(parsed))
}

/// Whether reading `content` would slice out of range (a heredoc whose
/// word is a lone quote).
pub fn parse_would_panic(content: &str) -> (r: bool)
    ensures
        r == (parse_model(content@) is Panics),
{
    parse_core(&chars_of(content)).is_none()
}

/// Reads a scenario script, keeping the line each instruction comes from.
pub fn parse_script_with_lines(content: &str) -> (r: Result<ParsedScript, ScriptError>)
    requires
        !(parse_model(content@) is Panics),
    ensures
        outcome_model(Some(r)) == parse_model(content@),
{
    match parse_core(&chars_of(content)) {
        Some(r) => r,
        None => Err(ScriptError::InvalidCodepoint),
    }
}

} // verus!

verus! {

/// The instructions of a sequence of numbered instructions.
pub open spec fn instructions_of(v: Seq<(usize, InstructionModel)>) -> Seq<InstructionModel> {
    v.map_values(|p: (usize, InstructionModel)| p.1)
}

/// The views of a sequence of instructions.
pub open spec fn instruction_models(v: Seq<Instruction>) -> Seq<InstructionModel> {
    v.map_values(|i: Instruction| i@)
}

/// Reads a scenario script into its instructions, without their lines.
pub fn parse_script_content(content: &str) -> (r: Result<Vec<Instruction>, ScriptError>)
    requires
        !(parse_model(content@) is Panics),
    ensures
        match parse_model(content@) {
            ParseModel::Parsed(v) => r matches Ok(x) && instruction_models(x@) == instructions_of(
                v,
            ),
            ParseModel::Failed(e) => r matches Err(x) && x@ == e,
            ParseModel::Panics => false,
        },
{
    let parsed = match parse_script_with_lines(content) {
        Ok(p) => p,
        Err(e) => {
            return Err(e);
        },
    };
    let ghost all = parsed@;
    let mut rest = parsed.instructions;
    let mut out: Vec<Instruction> = Vec::new();
    let ghost done: int = 0;
    while rest.len() > 0
        invariant
            0 <= done <= all.len(),
            crate::script::source_models(rest@) == all.skip(done),
            instruction_models(out@) == instructions_of(all.take(done)),
        decreases rest.len(),
    {
        let ghost before = rest@;
        let si = rest.remove(0);
        proof {
            assert(all.skip(done).len() == before.len());
            assert(done < all.len());
            assert(rest@ =~= before.subrange(1, before.len() as int));
            assert(si == before[0]);
            assert(crate::script::source_models(before)[0] == before[0]@);
            assert(crate::script::source_models(before)[0] == all.skip(done)[0]);
            assert(si@ == all[done]);
            assert forall|k: int| 0 <= k < rest@.len() implies (#[trigger] crate::script::source_models(
                rest@,
            )[k]) == all.skip(done + 1)[k] by {
                assert(rest@[k] == before[k + 1]);
                assert(crate::script::source_models(before)[k + 1] == all.skip(done)[k + 1]);
            }
            assert(crate::script::source_models(rest@) =~= all.skip(done + 1));
            assert(all.take(done + 1) =~= all.take(done).push(all[done]));
        }
        let ghost prev = out@;
        let ghost ins = si.instruction@;
        assert(ins == all[done].1);
        out.push(si.instruction);
        proof {
            assert(instruction_models(out@) =~= instruction_models(prev).push(ins));
            assert(instructions_of(all.take(done + 1)) =~= instructions_of(all.take(done)).push(
                all[done].1,
            ));
            assert(instruction_models(out@) =~= instructions_of(all.take(done + 1)));
            done = done + 1;
        }
    }
    assert(all.take(done) =~= all);
    Ok(out)
}

} // verus!

verus! {

/// Numbered instructions whose line numbers lie between 1 and `last` and
/// never go back.
pub open spec fn lines_ordered(v: Seq<(usize, InstructionModel)>, last: int) -> bool {
    &&& forall|k: int| 0 <= k < v.len() ==> 1 <= #[trigger] v[k].0 <= last
    &&& forall|j: int, k: int| 0 <= j < k < v.len() ==> v[j].0 <= v[k].0
}

proof fn lemma_lines_ordered_push(v: Seq<(usize, InstructionModel)>, last: int, x: (usize, InstructionModel), bound: int)
    requires
        lines_ordered(v, last),
        last <= bound,
        1 <= x.0 <= bound,
        forall|k: int| 0 <= k < v.len() ==> #[trigger] v[k].0 <= x.0,
    ensures
        lines_ordered(v.push(x), bound),
{
    let w = v.push(x);
    assert forall|k: int| 0 <= k < w.len() implies 1 <= #[trigger] w[k].0 <= bound by {
        if k < v.len() {
            assert(w[k] == v[k]);
        }
    }
    assert forall|j: int, k: int| 0 <= j < k < w.len() implies w[j].0 <= w[k].0 by {
        assert(w[j] == v[j]);
        if k < v.len() {
            assert(w[k] == v[k]);
        }
    }
}

proof fn lemma_parse_lines_ordered(
    ls: Seq<Seq<char>>,
    i: int,
    acc: Seq<(usize, InstructionModel)>,
    cont: Seq<char>,
    cont_line: Option<usize>,
)
    requires
        0 <= i <= ls.len(),
        ls.len() < usize::MAX,
        lines_ordered(acc, i),
        cont.len() == 0 ==> cont_line is None,
        cont.len() > 0 ==> (cont_line matches Some(l) && 1 <= l <= i && forall|k: int|
            0 <= k < acc.len() ==> #[trigger] acc[k].0 <= l),
    ensures
        parse_lines(ls, i, acc, cont, cont_line) matches ParseModel::Parsed(v) ==> lines_ordered(
            v,
            ls.len() as int,
        ),
    decreases ls.len() - i,
{
    if i >= ls.len() {
        return;
    }
    let n = (i + 1) as usize;
    let line = trim_end(ls[i]);
    let t = trim_start(line);
    if has_prefix(t, "#$"@) {
        if cont.len() == 0 {
            match directive_model(trim_start(t.skip("#$"@.len() as int)), n) {
                Ok(ins) => {
                    lemma_lines_ordered_push(acc, i, (n, ins), i + 1);
                    lemma_parse_lines_ordered(ls, i + 1, acc.push((n, ins)), cont, cont_line);
                },
                Err(e) => {},
            }
        }
    } else if t.len() == 0 || t[0] == '#' {
        assert(lines_ordered(acc, i + 1));
        lemma_parse_lines_ordered(ls, i + 1, acc, cont, cont_line);
    } else if heredoc_panics(line) {
    } else if heredoc_model(line) is Some {
        let d = heredoc_model(line)->0;
        if cont.len() == 0 {
            match heredoc_end(ls, i + 1, d) {
                None => {},
                Some(j) => {
                    lemma_heredoc_end_bounds(ls, i + 1, d);
                    let a1 = acc.push((n, InstructionModel::Command(line)));
                    let x2 = (n, InstructionModel::Send(heredoc_body(ls, i + 1, j + 1)));
                    lemma_lines_ordered_push(acc, i, (n, InstructionModel::Command(line)), i + 1);
                    assert forall|k: int| 0 <= k < a1.len() implies #[trigger] a1[k].0 <= x2.0 by {
                        if k < acc.len() {
                            assert(a1[k] == acc[k]);
                        }
                    }
                    lemma_lines_ordered_push(a1, i + 1, x2, j + 1);
                    lemma_parse_lines_ordered(ls, j + 1, a1.push(x2), cont, cont_line);
                },
            }
        }
    } else if line.len() > 0 && line.last() == '\\' {
        let c2 = cont + line + seq!['\n'];
        let l2 = if cont.len() == 0 {
            Some(n)
        } else {
            cont_line
        };
        assert(lines_ordered(acc, i + 1));
        lemma_parse_lines_ordered(ls, i + 1, acc, c2, l2);
    } else {
        let l = match cont_line {
            Some(l) => l,
            None => n,
        };
        lemma_lines_ordered_push(acc, i, (l, InstructionModel::Command(cont + line)), i + 1);
        lemma_parse_lines_ordered(
            ls,
            i + 1,
            acc.push((l, InstructionModel::Command(cont + line))),
            seq![],
            None,
        );
    }
}

/// The instructions of a script carry the numbers of the lines they come
/// from: each between 1 and the number of lines, and never smaller than
/// the one before.
pub proof fn lemma_instruction_lines_ordered(content: Seq<char>)
    requires
        lines(content).len() < usize::MAX,
    ensures
        parse_model(content) matches ParseModel::Parsed(v) ==> lines_ordered(
            v,
            lines(content).len() as int,
        ),
{
    lemma_parse_lines_ordered(lines(content), 0, seq![], seq![], None);
}

} // verus!

verus! {

/// A line that the reader takes as plain text: not empty, no blank at
/// either end, not a comment, no `<` (so no heredoc), no line break.
pub open spec fn plain_line(l: Seq<char>) -> bool {
    &&& l.len() > 0
    &&& !crate::text::is_ws(l[0])
    &&& !crate::text::is_ws(l.last())
    &&& l[0] != '#'
    &&& forall|i: int| 0 <= i < l.len() ==> l[i] != '<' && l[i] != '\n'
}

proof fn lemma_lines_split(l: Seq<char>, rest: Seq<char>, cur: Seq<char>)
    requires
        forall|i: int| 0 <= i < l.len() ==> l[i] != '\n',
    ensures
        crate::text::lines_from(l + seq!['\n'] + rest, cur) == seq![crate::text::strip_cr(cur + l)] + crate::text::lines_from(
            rest,
            seq![],
        ),
    decreases l.len(),
{
    let s = l + seq!['\n'] + rest;
    if l.len() == 0 {
        assert(s[0] == '\n');
        assert(s.drop_first() =~= rest);
        assert(cur + l =~= cur);
    } else {
        assert(s[0] == l[0]);
        assert(s.drop_first() =~= l.drop_first() + seq!['\n'] + rest);
        lemma_lines_split(l.drop_first(), rest, cur.push(l[0]));
        assert(cur.push(l[0]) + l.drop_first() =~= cur + l);
    }
}

proof fn lemma_no_double_lt(l: Seq<char>)
    requires
        forall|i: int| 0 <= i < l.len() ==> l[i] != '<',
    ensures
        last_double_lt(l) is None,
    decreases l.len(),
{
    if l.len() >= 2 {
        assert(l[l.len() - 1] != '<');
        lemma_no_double_lt(l.drop_last());
    }
}

proof fn lemma_line_is_kept(l: Seq<char>)
    requires
        l.len() > 0,
        !crate::text::is_ws(l[0]),
        !crate::text::is_ws(l.last()),
    ensures
        trim_end(l) == l,
        trim_start(l) == l,
{
}

proof fn lemma_plain_line_facts(l: Seq<char>)
    requires
        plain_line(l),
    ensures
        trim_end(l) == l,
        trim_start(l) == l,
        !has_prefix(l, "#$"@),
        heredoc_model(l) is None,
        !heredoc_panics(l),
        crate::text::strip_cr(l) == l,
{
    reveal_strlit("#$");
    lemma_line_is_kept(l);
    lemma_no_double_lt(l);
    if has_prefix(l, "#$"@) {
        assert(l.take(2)[0] == l[0]);
    }
}

/// A plain line is one command, numbered by its line; a comment line
/// before it is skipped but counted; a plain line ending in `\` continues
/// onto the next, and the command keeps the line break and the number of
/// its first line.
pub proof fn lemma_commands_of_plain_lines(l: Seq<char>, c: Seq<char>, m: Seq<char>)
    ensures
        plain_line(l) && l.last() != '\\' ==> parse_model(l + seq!['\n']) == ParseModel::Parsed(
            seq![(1usize, InstructionModel::Command(l))],
        ),
        plain_line(l) && l.last() != '\\' && c.len() > 0 && c[0] == '#' && (c.len() < 2 || c[1]
            != '$') && !crate::text::is_ws(c.last()) && (forall|i: int|
            0 <= i < c.len() ==> c[i] != '\n') ==> parse_model(c + seq!['\n'] + l + seq!['\n'])
            == ParseModel::Parsed(seq![(2usize, InstructionModel::Command(l))]),
        plain_line(m) && m.last() == '\\' && plain_line(l) && l.last() != '\\' ==> parse_model(
            m + seq!['\n'] + l + seq!['\n'],
        ) == ParseModel::Parsed(seq![(1usize, InstructionModel::Command(m + seq!['\n'] + l))]),
{
    reveal_strlit("#$");
    let e: Seq<char> = seq![];
    if plain_line(l) && l.last() != '\\' {
        lemma_plain_line_facts(l);
        lemma_lines_split(l, e, e);
        assert(l + seq!['\n'] + e =~= l + seq!['\n']);
        assert(e + l =~= l);
        assert(crate::text::lines_from(e, e) == Seq::<Seq<char>>::empty());
        let ls = lines(l + seq!['\n']);
        assert(ls =~= seq![l]);
        assert(e + l =~= l);
        assert(parse_lines(ls, 1, seq![(1usize, InstructionModel::Command(l))], e, None)
            == ParseModel::Parsed(seq![(1usize, InstructionModel::Command(l))]));
        if c.len() > 0 && c[0] == '#' && (c.len() < 2 || c[1] != '$') && !crate::text::is_ws(c.last())
            && (forall|i: int| 0 <= i < c.len() ==> c[i] != '\n') {
            lemma_line_is_kept(c);
            lemma_lines_split(c, l + seq!['\n'], e);
            lemma_lines_split(l, e, e);
            assert(c + seq!['\n'] + l + seq!['\n'] =~= c + seq!['\n'] + (l + seq!['\n']));
            assert(l + seq!['\n'] + e =~= l + seq!['\n']);
            assert(e + c =~= c);
            assert(crate::text::strip_cr(c) == c);
            let ls2 = lines(c + seq!['\n'] + l + seq!['\n']);
            assert(ls2 =~= seq![c, l]);
            if has_prefix(c, "#$"@) {
                assert(c.take(2)[1] == c[1]);
            }
            assert(ls2[1] == l);
            assert(parse_lines(ls2, 2, seq![(2usize, InstructionModel::Command(l))], e, None)
                == ParseModel::Parsed(seq![(2usize, InstructionModel::Command(l))]));
            assert(parse_lines(ls2, 1, seq![], e, None) == parse_lines(
                ls2,
                2,
                seq![(2usize, InstructionModel::Command(l))],
                e,
                None,
            ));
        }
    }
    if plain_line(m) && m.last() == '\\' && plain_line(l) && l.last() != '\\' {
        lemma_plain_line_facts(m);
        lemma_plain_line_facts(l);
        lemma_lines_split(m, l + seq!['\n'], e);
        lemma_lines_split(l, e, e);
        assert(m + seq!['\n'] + l + seq!['\n'] =~= m + seq!['\n'] + (l + seq!['\n']));
        assert(l + seq!['\n'] + e =~= l + seq!['\n']);
        assert(e + m =~= m);
        assert(e + l =~= l);
        let ls3 = lines(m + seq!['\n'] + l + seq!['\n']);
        assert(ls3 =~= seq![m, l]);
        assert(ls3[0] == m && ls3[1] == l);
        let cont = e + m + seq!['\n'];
        assert(cont =~= m + seq!['\n']);
        assert(cont + l =~= m + seq!['\n'] + l);
        assert(parse_lines(ls3, 2, seq![(1usize, InstructionModel::Command(cont + l))], e, None)
            == ParseModel::Parsed(seq![(1usize, InstructionModel::Command(cont + l))]));
        assert(parse_lines(ls3, 1, seq![], cont, Some(1usize)) == parse_lines(
            ls3,
            2,
            seq![(1usize, InstructionModel::Command(cont + l))],
            e,
            None,
        ));
    }
}

} // verus!

verus! {

proof fn lemma_lt_scan(q: Seq<char>, w: Seq<char>)
    requires
        q.len() >= 2,
        forall|i: int| 0 <= i < w.len() ==> w[i] != '<',
    ensures
        last_double_lt(q + w) == last_double_lt(q),
    decreases w.len(),
{
    if w.len() == 0 {
        assert(q + w =~= q);
    } else {
        let s = q + w;
        assert(s[s.len() - 1] == w.last());
        assert(s.drop_last() =~= q + w.drop_last());
        lemma_lt_scan(q, w.drop_last());
    }
}

/// A word without blanks, read from its start: one word.
proof fn lemma_one_word(w: Seq<char>, cur: Seq<char>)
    requires
        cur.len() + w.len() > 0,
        forall|i: int| 0 <= i < w.len() ==> !crate::text::is_ws(w[i]),
    ensures
        crate::text::words_from(w, cur) == seq![cur + w],
    decreases w.len(),
{
    if w.len() == 0 {
        assert(cur + w =~= cur);
    } else {
        lemma_one_word(w.drop_first(), cur.push(w[0]));
        assert(cur.push(w[0]) + w.drop_first() =~= cur + w);
    }
}

/// A word fit to close a heredoc: not empty, no blank, no `<`.
pub open spec fn heredoc_word(w: Seq<char>) -> bool {
    &&& w.len() > 0
    &&& forall|i: int| 0 <= i < w.len() ==> !crate::text::is_ws(w[i]) && w[i] != '<'
}

/// A line ending in `<<WORD`, `<<-WORD`, `<<'WORD'` or `<<"WORD"` opens a
/// heredoc closed by `WORD`, whatever stands before the `<<`.
pub proof fn lemma_heredoc_words(p: Seq<char>, w: Seq<char>)
    requires
        heredoc_word(w),
        w[0] != '-' && w[0] != '\'' && w[0] != '"',
    ensures
        heredoc_model(p + "<<"@ + w) == Some(w),
        heredoc_model(p + "<<-"@ + w) == Some(w),
        heredoc_model(p + "<<'"@ + w + "'"@) == Some(w),
        heredoc_model(p + "<<\""@ + w + "\""@) == Some(w),
{
    reveal_strlit("<<");
    reveal_strlit("<<-");
    reveal_strlit("<<'");
    reveal_strlit("'");
    reveal_strlit("<<\"");
    reveal_strlit("\"");
    let q = p + "<<"@;
    assert(q.len() >= 2 && q[q.len() - 2] == '<' && q[q.len() - 1] == '<');
    assert(last_double_lt(q) == Some(p.len() as int));
    let tails = seq![w, seq!['-'] + w, seq!['\''] + w + seq!['\''], seq!['"'] + w + seq!['"']];
    let cand = seq![p + "<<"@ + w, p + "<<-"@ + w, p + "<<'"@ + w + "'"@, p + "<<\""@ + w + "\""@];
    assert forall|k: int| 0 <= k < 4 implies cand[k] == q + #[trigger] tails[k] by {
        assert(cand[k] =~= q + tails[k]);
    }
    assert forall|k: int| 0 <= k < 4 implies heredoc_model(#[trigger] cand[k]) == Some(w) by {
        let t = tails[k];
        assert forall|i: int| 0 <= i < t.len() implies t[i] != '<' by {
            if k == 0 {
            } else if k == 1 {
                if i > 0 { assert(t[i] == w[i - 1]); }
            } else {
                if 0 < i < t.len() - 1 { assert(t[i] == w[i - 1]); }
            }
        }
        lemma_lt_scan(q, t);
        assert(cand[k].skip(p.len() as int + 2) =~= t);
        assert(!crate::text::is_ws(t[0]));
        assert(!crate::text::is_ws(t.last())) by {
            if k == 0 || k == 1 { assert(t.last() == w.last()); }
        }
        assert(trim(t) == t);
        assert forall|i: int| 0 <= i < t.len() implies !crate::text::is_ws(t[i]) by {
            if k == 0 {
            } else if k == 1 {
                if i > 0 { assert(t[i] == w[i - 1]); }
            } else {
                if 0 < i < t.len() - 1 { assert(t[i] == w[i - 1]); }
            }
        }
        let d1 = if k == 1 { w } else { t };
        if k == 1 {
            assert(t.drop_first() =~= w);
        }
        assert forall|i: int| 0 <= i < d1.len() implies !crate::text::is_ws(d1[i]) by {
            if k == 1 { assert(d1[i] == t[i + 1]); }
        }
        lemma_one_word(d1, seq![]);
        assert(Seq::<char>::empty() + d1 =~= d1);
        assert(heredoc_candidate(cand[k]) == Some(d1));
        if k == 2 || k == 3 {
            assert(t.subrange(1, t.len() - 1) =~= w);
        }
        if k == 0 || k == 1 {
            assert(!is_quoted(d1));
        }
    }
    assert(heredoc_model(cand[0]) == Some(w));
    assert(heredoc_model(cand[1]) == Some(w));
    assert(heredoc_model(cand[2]) == Some(w));
    assert(heredoc_model(cand[3]) == Some(w));
}

} // verus!

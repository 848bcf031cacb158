//! The instructions of a scenario script and the errors of reading one.

use vstd::prelude::*;

verus! {

/// An arrow key.
#[derive(Clone, Copy, Debug, PartialEq, Eq, Structural)]
pub enum Arrow {
    Down,
    Left,
    Right,
    Up,
}

/// One step of a scenario.
#[derive(Clone, Debug, PartialEq)]
pub enum Instruction {
    /// A shell command, typed character by character and ended with a newline.
    Command(String),
    /// The pause, in milliseconds, between typed characters from now on.
    Delay(u64),
    /// A pattern that the terminal output must match before the scenario goes on.
    Expect(String),
    /// A marker with this label in the recording.
    Snapshot(String),
    /// Text typed character by character.
    Send(String),
    /// Text sent in one write.
    SendCharacter(String),
    /// An arrow key pressed `count` times, each press followed by Enter when `enter` holds.
    SendArrow { direction: Arrow, count: usize, enter: bool },
    /// Control and the given letter.
    SendControl(char),
    /// The pause, in milliseconds, before each instruction from now on.
    Wait(u64),
}

/// The mathematical value of an [`Instruction`].
pub enum InstructionModel {
    Command(Seq<char>),
    Delay(u64),
    Expect(Seq<char>),
    Snapshot(Seq<char>),
    Send(Seq<char>),
    SendCharacter(Seq<char>),
    SendArrow { direction: Arrow, count: usize, enter: bool },
    SendControl(char),
    Wait(u64),
}

impl View for Instruction {
    type V = InstructionModel;

    open spec fn view(&self) -> InstructionModel {
        match self {
            Instruction::Command(s) => InstructionModel::Command(s@),
            Instruction::Delay(d) => InstructionModel::Delay(*d),
            Instruction::Expect(s) => InstructionModel::Expect(s@),
            Instruction::Snapshot(s) => InstructionModel::Snapshot(s@),
            Instruction::Send(s) => InstructionModel::Send(s@),
            Instruction::SendCharacter(s) => InstructionModel::SendCharacter(s@),
            Instruction::SendArrow { direction, count, enter } => InstructionModel::SendArrow {
                direction: *direction,
                count: *count,
                enter: *enter,
            },
            Instruction::SendControl(c) => InstructionModel::SendControl(*c),
            Instruction::Wait(w) => InstructionModel::Wait(*w),
        }
    }
}

/// An instruction with the number (from 1) of the script line it comes from.
#[derive(Clone, Debug, PartialEq)]
pub struct SourceInstruction {
    pub line: usize,
    pub instruction: Instruction,
}

impl View for SourceInstruction {
    type V = (usize, InstructionModel);

    open spec fn view(&self) -> (usize, InstructionModel) {
        (self.line, self.instruction@)
    }
}

/// The instructions of a script, in order.
#[derive(Clone, Debug, PartialEq)]
pub struct ParsedScript {
    pub instructions: Vec<SourceInstruction>,
}

/// The views of a sequence of source instructions.
pub open spec fn source_models(v: Seq<SourceInstruction>) -> Seq<(usize, InstructionModel)> {
    v.map_values(|s: SourceInstruction| s@)
}

impl View for ParsedScript {
    type V = Seq<(usize, InstructionModel)>;

    open spec fn view(&self) -> Seq<(usize, InstructionModel)> {
        source_models(self.instructions@)
    }
}

impl ParsedScript {
    /// Appends an instruction read from the given line.
    pub fn push(&mut self, line: usize, instruction: Instruction)
        ensures
            final(self)@ == old(self)@.push((line, instruction@)),
    {
        let ghost before = self.instructions@;
        self.instructions.push(SourceInstruction { line, instruction });
        assert(source_models(self.instructions@) =~= source_models(before).push(
            (line, instruction@),
        ));
    }
}

/// Why a script could not be read. `line` counts from 1.
#[derive(Clone, Debug, PartialEq)]
pub enum ScriptError {
    /// A directive stands between the lines of a command continued with `\`.
    DirectiveInterruptsCommand { line: usize },
    /// A heredoc starts between the lines of a command continued with `\`.
    HeredocInterruptsCommand { line: usize },
    /// No line closes the heredoc.
    UnterminatedHeredoc { line: usize, delimiter: String },
    /// The script ends in the middle of a continued command.
    UnfinishedCommand { line: usize },
    /// `delay` or `wait` without a number of milliseconds.
    ExpectedMilliseconds { line: usize },
    /// `expect` with a pattern that is no valid regular expression.
    InvalidRegex { line: usize },
    /// `sendcontrol` with other than one character.
    ControlArity { line: usize },
    /// An arrow other than down, left, right or up.
    UnknownArrow { line: usize },
    /// An arrow count that is no number.
    InvalidArrowCount { line: usize },
    /// An arrow directive with more than two arguments.
    TooManyArrowArguments { line: usize },
    /// A directive of no known kind.
    UnknownDirective { line: usize, directive: String },
    /// An escape that names no Unicode scalar value.
    InvalidCodepoint,
}

/// The mathematical value of a [`ScriptError`].
pub enum ScriptErrorModel {
    DirectiveInterruptsCommand { line: usize },
    HeredocInterruptsCommand { line: usize },
    UnterminatedHeredoc { line: usize, delimiter: Seq<char> },
    UnfinishedCommand { line: usize },
    ExpectedMilliseconds { line: usize },
    InvalidRegex { line: usize },
    ControlArity { line: usize },
    UnknownArrow { line: usize },
    InvalidArrowCount { line: usize },
    TooManyArrowArguments { line: usize },
    UnknownDirective { line: usize, directive: Seq<char> },
    InvalidCodepoint,
}

impl View for ScriptError {
    type V = ScriptErrorModel;

    open spec fn view(&self) -> ScriptErrorModel {
        match self {
            ScriptError::DirectiveInterruptsCommand { line } =>
                ScriptErrorModel::DirectiveInterruptsCommand { line: *line },
            ScriptError::HeredocInterruptsCommand { line } =>
                ScriptErrorModel::HeredocInterruptsCommand { line: *line },
            ScriptError::UnterminatedHeredoc { line, delimiter } =>
                ScriptErrorModel::UnterminatedHeredoc { line: *line, delimiter: delimiter@ },
            ScriptError::UnfinishedCommand { line } => ScriptErrorModel::UnfinishedCommand {
                line: *line,
            },
            ScriptError::ExpectedMilliseconds { line } =>
                ScriptErrorModel::ExpectedMilliseconds { line: *line },
            ScriptError::InvalidRegex { line } => ScriptErrorModel::InvalidRegex { line: *line },
            ScriptError::ControlArity { line } => ScriptErrorModel::ControlArity { line: *line },
            ScriptError::UnknownArrow { line } => ScriptErrorModel::UnknownArrow { line: *line },
            ScriptError::InvalidArrowCount { line } => ScriptErrorModel::InvalidArrowCount {
                line: *line,
            },
            ScriptError::TooManyArrowArguments { line } =>
                ScriptErrorModel::TooManyArrowArguments { line: *line },
            ScriptError::UnknownDirective { line, directive } =>
                ScriptErrorModel::UnknownDirective { line: *line, directive: directive@ },
            ScriptError::InvalidCodepoint => ScriptErrorModel::InvalidCodepoint,
        }
    }
}

/// The view of a result of reading.
pub open spec fn result_model<T: View>(r: Result<T, ScriptError>) -> Result<T::V, ScriptErrorModel> {
    match r {
        Ok(v) => Ok(v@),
        Err(e) => Err(e@),
    }
}

} // verus!

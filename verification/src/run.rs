use crate::error::{BlisprResult, Error, Failure};
use crate::lenv::Lenv;
use crate::lval::Value;
use crate::parse::{eval_str, eval_str_of};
use crate::semantics::Scopes;
use vstd::prelude::*;
use vstd::string::*;

verus! {

/// What the command line asks for.
pub struct Opt {
    /// Whether diagnostics are wanted.
    pub debug: bool,
    /// The file to evaluate; without one, lines are read from the prompt.
    pub input: Option<String>,
}

/// The prompt that asks for a line.
pub fn prompt() -> (s: &'static str)
    ensures
        s@ == "blispr> "@,
{
    "blispr> "
}

/// A line to show, and the stream that it goes to.
#[derive(Debug, PartialEq, Eq)]
pub enum Output {
    /// A line for the standard output.
    Plain(String),
    /// A line for the error stream.
    Complaint(String),
}

/// The mathematical content of an `Output`.
pub enum Shown {
    Plain(Seq<char>),
    Complaint(Seq<char>),
}

impl View for Output {
    type V = Shown;

    open spec fn view(&self) -> Shown {
        match self {
            Output::Plain(s) => Shown::Plain(s@),
            Output::Complaint(s) => Shown::Complaint(s@),
        }
    }
}

/// What is shown for the result of an evaluation: the printed value, or the word `Error`
/// with the message of the error.
pub open spec fn shown_for(r: Result<Value, Failure>) -> Shown {
    match r {
        Ok(v) => Shown::Plain(v.print()),
        Err(f) => Shown::Complaint("Error: "@ + f.message()),
    }
}

/// What is shown for the result of an evaluation.
pub fn print_eval_result(v: &BlisprResult) -> (out: Output)
    ensures
        out@ == shown_for(crate::error::outcome_of(*v)),
{
    match v {
        Ok(res) => Output::Plain(res.to_string()),
        Err(e) => {
            let mut s = String::from_str("Error: ");
            let msg = e.to_string();
            s.append(msg.as_str());
            Output::Complaint(s)
        },
    }
}

/// What reading a line at the prompt gave.
pub enum Input {
    /// A line of text.
    Line(String),
    /// The user interrupted the prompt.
    Interrupted,
    /// The input has ended.
    Eof,
    /// Reading failed.
    Failed,
}

/// What the session does next.
#[derive(Debug, PartialEq, Eq)]
pub enum Step {
    /// Show the line and ask for the next one.
    Show(Output),
    /// Show the line and end the session.
    Farewell(Output),
    /// End the session.
    Leave,
}

/// The mathematical content of a `Step`.
pub enum StepShown {
    Show(Shown),
    Farewell(Shown),
    Leave,
}

/// The line that is shown when a program asks to end.
pub open spec fn farewell() -> Shown {
    Shown::Plain("Goodbye!"@)
}

fn goodbye() -> (out: Output)
    ensures
        out@ == farewell(),
{
    Output::Plain(String::from_str("Goodbye!"))
}

impl View for Step {
    type V = StepShown;

    open spec fn view(&self) -> StepShown {
        match self {
            Step::Show(out) => StepShown::Show(out@),
            Step::Farewell(out) => StepShown::Farewell(out@),
            Step::Leave => StepShown::Leave,
        }
    }
}

/// What the session does with a line: it takes its leave where the line asks for the end,
/// and shows the result of the line otherwise.
pub open spec fn step_for(r: Result<Value, Failure>) -> StepShown {
    match r {
        Err(Failure::Exit) => StepShown::Farewell(farewell()),
        _ => StepShown::Show(shown_for(r)),
    }
}

/// One turn of the session: a line is evaluated in `e` and its result shown, with an error
/// the session goes on all the same; it ends when the line asks for that, and when no line
/// could be read.
pub fn repl(e: &mut Lenv, input: Input) -> (step: Step)
    ensures
        input matches Input::Line(line) ==> step@ == step_for(eval_str_of(old(e)@, line@).result)
            && final(e)@ == eval_str_of(old(e)@, line@).scopes,
        !(input is Line) ==> step == Step::Leave && final(e)@ == old(e)@,
{
    match input {
        Input::Line(line) => {
            let r = eval_str(e, line.as_str());
            match r {
                Err(Error::Exit) => Step::Farewell(goodbye()),
                _ => Step::Show(print_eval_result(&r)),
            }
        },
        _ => Step::Leave,
    }
}

/// What evaluating the program of a file ends with: what is shown, and the exit code.
pub struct Finish {
    pub shown: Output,
    pub code: u8,
}

/// What evaluating the program of a file ends with, for each result of the evaluation.
pub open spec fn finish_for(r: Result<Value, Failure>) -> (Shown, u8) {
    match r {
        Ok(_) => (shown_for(r), 0u8),
        Err(Failure::Exit) => (farewell(), 0u8),
        Err(_) => (shown_for(r), 1u8),
    }
}

/// Evaluates the text of a file in `e`: the result is shown and the exit code is 0; an error
/// is shown and the exit code is 1; where the program asks to end, the session takes its
/// leave and the exit code is 0.
pub fn run_file(e: &mut Lenv, text: &str) -> (finish: Finish)
    ensures
        final(e)@ == eval_str_of(old(e)@, text@).scopes,
        (finish.shown@, finish.code) == finish_for(eval_str_of(old(e)@, text@).result),
{
    let r = eval_str(e, text);
    match r {
        Ok(_) => Finish { shown: print_eval_result(&r), code: 0 },
        Err(Error::Exit) => Finish { shown: goodbye(), code: 0 },
        Err(_) => Finish { shown: print_eval_result(&r), code: 1 },
    }
}

} // verus!

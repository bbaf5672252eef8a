use crate::lval::Lval;
use crate::text::{decimal, push_decimal};
use vstd::prelude::*;
use vstd::string::*;

verus! {

/// Everything that can go wrong while reading or evaluating a program.
#[derive(Debug, PartialEq, Eq)]
pub enum Error {
    DivideByZero,
    EmptyList,
    FunctionFormat,
    NoChildren,
    NotANumber,
    NumArguments(usize, usize),
    Parse(String),
    Readline(String),
    WrongType(String, String),
    UnknownFunction(String),
    /// Evaluation nested deeper than the limit it was given.
    DepthExceeded,
    /// The program asked to end the session.
    Exit,
}

pub type BlisprResult = Result<Box<Lval>, Error>;

/// The mathematical content of an `Error`: strings are taken by their characters.
pub enum Failure {
    DivideByZero,
    EmptyList,
    FunctionFormat,
    NoChildren,
    NotANumber,
    NumArguments(usize, usize),
    Parse(Seq<char>),
    Readline(Seq<char>),
    WrongType(Seq<char>, Seq<char>),
    UnknownFunction(Seq<char>),
    DepthExceeded,
    Exit,
}

impl View for Error {
    type V = Failure;

    open spec fn view(&self) -> Failure {
        match self {
            Error::DivideByZero => Failure::DivideByZero,
            Error::EmptyList => Failure::EmptyList,
            Error::FunctionFormat => Failure::FunctionFormat,
            Error::NoChildren => Failure::NoChildren,
            Error::NotANumber => Failure::NotANumber,
            Error::NumArguments(expected, received) => Failure::NumArguments(*expected, *received),
            Error::Parse(s) => Failure::Parse(s@),
            Error::Readline(s) => Failure::Readline(s@),
            Error::WrongType(expected, received) => Failure::WrongType(expected@, received@),
            Error::UnknownFunction(name) => Failure::UnknownFunction(name@),
            Error::DepthExceeded => Failure::DepthExceeded,
            Error::Exit => Failure::Exit,
        }
    }
}

impl Failure {
    /// The text shown to the user for this failure.
    pub open spec fn message(self) -> Seq<char> {
        match self {
            Failure::DivideByZero => "Divide by zero"@,
            Failure::EmptyList => "Empty list"@,
            Failure::FunctionFormat => "Function format invalid.  Symbol '&' not followed by a single symbol"@,
            Failure::NoChildren => "Lval has no children"@,
            Failure::NotANumber => "NaN"@,
            Failure::NumArguments(expected, received) => "Wrong number of arguments: expected "@
                + decimal(expected as nat) + ", received "@ + decimal(received as nat),
            Failure::Parse(s) => "Parse error: "@ + s,
            Failure::Readline(s) => "Readline error: "@ + s,
            Failure::WrongType(expected, received) => "Wrong type: expected "@ + expected
                + ", received "@ + received,
            Failure::UnknownFunction(name) => "Unknown function "@ + name,
            Failure::DepthExceeded => "Evaluation nested too deeply"@,
            Failure::Exit => "Exit requested"@,
        }
    }
}

impl Error {
    /// The text shown to the user for this error.
    pub fn to_string(&self) -> (s: String)
        ensures
            s@ == self@.message(),
    {
        match self {
            Error::DivideByZero => String::from_str("Divide by zero"),
            Error::EmptyList => String::from_str("Empty list"),
            Error::FunctionFormat => String::from_str(
                "Function format invalid.  Symbol '&' not followed by a single symbol",
            ),
            Error::NoChildren => String::from_str("Lval has no children"),
            Error::NotANumber => String::from_str("NaN"),
            Error::NumArguments(expected, received) => {
                let mut s = String::from_str("Wrong number of arguments: expected ");
                push_decimal(&mut s, *expected as u64);
                s.append(", received ");
                push_decimal(&mut s, *received as u64);
                s
            },
            Error::Parse(msg) => {
                let mut s = String::from_str("Parse error: ");
                s.append(msg.as_str());
                s
            },
            Error::Readline(msg) => {
                let mut s = String::from_str("Readline error: ");
                s.append(msg.as_str());
                s
            },
            Error::WrongType(expected, received) => {
                let mut s = String::from_str("Wrong type: expected ");
                s.append(expected.as_str());
                s.append(", received ");
                s.append(received.as_str());
                s
            },
            Error::UnknownFunction(name) => {
                let mut s = String::from_str("Unknown function ");
                s.append(name.as_str());
                s
            },
            Error::DepthExceeded => String::from_str("Evaluation nested too deeply"),
            Error::Exit => String::from_str("Exit requested"),
        }
    }
}

/// The outcome of an operation, with the value or the error taken by its view.
pub open spec fn outcome_of(r: BlisprResult) -> Result<crate::lval::Value, Failure> {
    match r {
        Ok(v) => Ok(v@),
        Err(e) => Err(e@),
    }
}

} // verus!

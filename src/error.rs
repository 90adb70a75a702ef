//! The errors of parsing and of the surrounding program.
use vstd::prelude::*;
use crate::text::{decimal, push_decimal, push_str, text};

verus! {

/// What can go wrong while reading or compiling a program.
#[derive(Debug, PartialEq, Eq)]
pub enum Error {
    /// An input or output error, with its message.
    IO(String),
    /// The source ended while the `[` at this position was still open.
    UnmatchedLoopStart { lineno: usize, column: usize },
    /// A `]` at this position has no matching `[`.
    UnmatchedLoopEnd { lineno: usize, column: usize },
}

/// The line that reports error `e` for the input named `input`; for an
/// input or output error, `msg` stands for the bytes of its message.
pub open spec fn error_line(e: Error, input: Seq<u8>, msg: Seq<u8>) -> Seq<u8> {
    match e {
        Error::IO(_) => text("error:") + input + text(": ") + msg + text("\n"),
        Error::UnmatchedLoopStart { lineno, column } => text("error:") + input + text(":") + decimal(
            lineno as int,
        ) + text(":") + decimal(column as int) + text(": unmatched '['\n"),
        Error::UnmatchedLoopEnd { lineno, column } => text("error:") + input + text(":") + decimal(
            lineno as int,
        ) + text(":") + decimal(column as int) + text(": unmatched ']'\n"),
    }
}

impl Error {
    /// The line that reports this error for the input named `input`; for an
/// input or output error, its message is the UTF-8 text of the error's own
/// string.
    pub fn print(&self, input: &str) -> (r: Vec<u8>)
        ensures
            !(self is IO) ==> r@ == error_line(*self, text(input), Seq::empty()),
            self is IO ==> exists|m: &str|
                m@ == self->IO_0@ && r@ == error_line(*self, text(input), #[trigger] text(m)),
    {
        let mut out: Vec<u8> = Vec::new();
        push_str(&mut out, "error:");
        push_str(&mut out, input);
        match self {
            Error::IO(msg) => {
                push_str(&mut out, ": ");
                let m = msg.as_str();
                push_str(&mut out, m);
                push_str(&mut out, "\n");
                proof {
                    assert(out@ =~= error_line(*self, text(input), text(m)));
                    assert(m@ == msg@);
                }
            },
            Error::UnmatchedLoopStart { lineno, column } => {
                push_str(&mut out, ":");
                push_decimal(&mut out, *lineno as i128);
                push_str(&mut out, ":");
                push_decimal(&mut out, *column as i128);
                push_str(&mut out, ": unmatched '['\n");
            },
            Error::UnmatchedLoopEnd { lineno, column } => {
                push_str(&mut out, ":");
                push_decimal(&mut out, *lineno as i128);
                push_str(&mut out, ":");
                push_decimal(&mut out, *column as i128);
                push_str(&mut out, ": unmatched ']'\n");
            },
        }
        proof {
            if !(self is IO) {
                assert(out@ =~= error_line(*self, text(input), Seq::empty()));
            }
        }
        out
    }
}

} // verus!

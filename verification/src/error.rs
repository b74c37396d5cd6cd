//! What can go wrong while a file is analysed.

use vstd::prelude::*;
use vstd::string::StringExecFns;

use crate::tree::Point;

verus! {

/// The reason an analysis failed.
#[derive(Clone, Copy, Debug, PartialEq, Eq, Structural)]
pub enum ErrorMessage {
    /// A `derive` attribute carries no argument list.
    DeriveMacroExpectedTokenTree,
    /// An attribute that marks a macro definition is not followed by an
    /// item with an identifier. The place is where the attribute starts.
    FailedToFindMacroIdentifier(Point),
    /// A directory could not be read.
    FailedToReadDirectory,
    /// The grammar produced no syntax tree for the file.
    FailedToParseFile,
    /// What is left of the file after a deletion is not text.
    FailedToRewriteFile,
}

/// The text of a digit.
pub open spec fn digit_text(digit: int) -> Seq<char> {
    if digit == 0 {
        "0"@
    } else if digit == 1 {
        "1"@
    } else if digit == 2 {
        "2"@
    } else if digit == 3 {
        "3"@
    } else if digit == 4 {
        "4"@
    } else if digit == 5 {
        "5"@
    } else if digit == 6 {
        "6"@
    } else if digit == 7 {
        "7"@
    } else if digit == 8 {
        "8"@
    } else {
        "9"@
    }
}

/// The text of a number in decimal notation.
pub open spec fn decimal(n: nat) -> Seq<char>
    decreases n,
{
    if n < 10 {
        digit_text(n as int)
    } else {
        decimal(n / 10) + digit_text((n % 10) as int)
    }
}

/// The text of a place: its row and its column.
pub open spec fn point_text(point: Point) -> Seq<char> {
    "(Point { row: "@ + decimal(point.row as nat) + ", column: "@ + decimal(point.column as nat)
        + " })"@
}

/// The text of a digit.
fn digit_str(digit: usize) -> (text: &'static str)
    requires
        digit < 10,
    ensures
        text@ == digit_text(digit as int),
{
    if digit == 0 {
        "0"
    } else if digit == 1 {
        "1"
    } else if digit == 2 {
        "2"
    } else if digit == 3 {
        "3"
    } else if digit == 4 {
        "4"
    } else if digit == 5 {
        "5"
    } else if digit == 6 {
        "6"
    } else if digit == 7 {
        "7"
    } else if digit == 8 {
        "8"
    } else {
        "9"
    }
}

/// Puts the decimal notation of `n` behind `text`.
fn append_decimal(text: &mut String, n: usize)
    ensures
        final(text)@ == old(text)@ + decimal(n as nat),
    decreases n,
{
    if n >= 10 {
        append_decimal(text, n / 10);
    }
    text.append(digit_str(n % 10));
    proof {
        if n >= 10 {
            assert(old(text)@ + decimal((n / 10) as nat) + digit_text((n % 10) as int) =~= old(
                text,
            )@ + (decimal((n / 10) as nat) + digit_text((n % 10) as int)));
        }
    }
}

impl ErrorMessage {
    /// The text of the reason: its name, and behind it the place where it
    /// has one.
    pub open spec fn text(self) -> Seq<char> {
        match self {
            ErrorMessage::FailedToFindMacroIdentifier(point) => self.name() + point_text(point),
            _ => self.name(),
        }
    }

    /// Puts the text of the reason behind `text`.
    pub fn append_to(&self, text: &mut String)
        ensures
            final(text)@ == old(text)@ + self.text(),
    {
        text.append(self.as_str());
        match self {
            ErrorMessage::FailedToFindMacroIdentifier(point) => {
                text.append("(Point { row: ");
                append_decimal(text, point.row);
                text.append(", column: ");
                append_decimal(text, point.column);
                text.append(" })");
                proof {
                    assert(final(text)@ =~= old(text)@ + self.text());
                }
            },
            _ => {},
        }
    }

    /// The name of the reason.
    pub open spec fn name(self) -> Seq<char> {
        match self {
            ErrorMessage::DeriveMacroExpectedTokenTree => "DeriveMacroExpectedTokenTree"@,
            ErrorMessage::FailedToFindMacroIdentifier(_) => "FailedToFindMacroIdentifier"@,
            ErrorMessage::FailedToReadDirectory => "FailedToReadDirectory"@,
            ErrorMessage::FailedToParseFile => "FailedToParseFile"@,
            ErrorMessage::FailedToRewriteFile => "FailedToRewriteFile"@,
        }
    }

    /// The name of the reason, as text.
    pub fn as_str(&self) -> (text: &'static str)
        ensures
            text@ == self.name(),
    {
        match self {
            ErrorMessage::DeriveMacroExpectedTokenTree => "DeriveMacroExpectedTokenTree",
            ErrorMessage::FailedToFindMacroIdentifier(_) => "FailedToFindMacroIdentifier",
            ErrorMessage::FailedToReadDirectory => "FailedToReadDirectory",
            ErrorMessage::FailedToParseFile => "FailedToParseFile",
            ErrorMessage::FailedToRewriteFile => "FailedToRewriteFile",
        }
    }
}

/// A failed analysis: the reason, and the file or directory it concerns once
/// that is known.
#[derive(Debug)]
pub struct Error {
    pub path: Option<String>,
    pub message: ErrorMessage,
}

impl Error {
    /// An error that is not yet tied to a path.
    pub fn new(message: ErrorMessage) -> (error: Self)
        ensures
            error.message == message,
            error.path.is_none(),
    {
        Error { path: None, message }
    }

    /// The same error, tied to `path`.
    pub fn add_path(&self, path: &str) -> (error: Self)
        ensures
            error.message == self.message,
            error.path matches Some(p) && p@ == path@,
    {
        Error { message: self.message, path: Some(String::from_str(path)) }
    }

    /// The text shown for the error.
    pub open spec fn description(&self) -> Seq<char> {
        match self.path {
            Some(path) => "[Path: "@ + path@ + "] Error: "@ + self.message.text(),
            None => "Error: "@ + self.message.text(),
        }
    }

    /// The text shown for the error: the reason, after the path if there
    /// is one.
    pub fn describe(&self) -> (text: String)
        ensures
            text@ == self.description(),
    {
        match &self.path {
            Some(path) => {
                let mut text = String::from_str("[Path: ");
                text.append(path.as_str());
                text.append("] Error: ");
                self.message.append_to(&mut text);
                text
            },
            None => {
                let mut text = String::from_str("Error: ");
                self.message.append_to(&mut text);
                text
            },
        }
    }
}

} // verus!

//! Parse errors.

use vstd::prelude::*;
use vstd::string::*;
use crate::fmt::{debug_str, debug_text};

verus! {

/// Which parser reported an error.
#[derive(Debug, Clone, Copy, PartialEq, Eq, Structural)]
pub enum ErrorKind {
    Tag,
    Float,
}

impl ErrorKind {
    /// The variant's name, as `Debug` prints it.
    pub open spec fn spec_name(self) -> Seq<char> {
        match self {
            ErrorKind::Tag => seq!['T', 'a', 'g'],
            ErrorKind::Float => seq!['F', 'l', 'o', 'a', 't'],
        }
    }

    /// The variant's name, as `Debug` prints it.
    pub fn name(&self) -> (r: &'static str)
        ensures
            r@ == self.spec_name(),
    {
        match self {
            ErrorKind::Tag => {
                proof {
                    reveal_strlit("Tag");
                }
                "Tag"
            },
            ErrorKind::Float => {
                proof {
                    reveal_strlit("Float");
                }
                "Float"
            },
        }
    }
}

/// The input at which a parser failed, and which parser it was.
pub struct ErrorInfo<'a> {
    pub input: &'a str,
    pub code: ErrorKind,
}

/// A parse failure: `Error` lets an enclosing alternative try its next
/// branch, `Failure` does not.
pub enum ParseErr<'a> {
    Error(ErrorInfo<'a>),
    Failure(ErrorInfo<'a>),
}

/// The result of a parser: the remaining input and the output, or an error.
pub type IResult<'a, O> = Result<(&'a str, O), ParseErr<'a>>;

/// The text that `describe` produces for an error.
pub open spec fn describe_spec(failure: bool, input: Seq<char>, code: ErrorKind) -> Seq<char> {
    (if failure { seq!['F', 'a', 'i', 'l', 'u', 'r', 'e'] } else { seq!['E', 'r', 'r', 'o', 'r'] })
        + seq!['(', 'E', 'r', 'r', 'o', 'r', ' ', '{', ' ', 'i', 'n', 'p', 'u', 't', ':', ' ']
        + debug_str(input) + seq![',', ' ', 'c', 'o', 'd', 'e', ':', ' '] + code.spec_name()
        + seq![' ', '}', ')']
}

impl<'a> ParseErr<'a> {
    pub open spec fn is_failure(&self) -> bool {
        self is Failure
    }

    pub open spec fn info(&self) -> ErrorInfo<'a> {
        match self {
            ParseErr::Error(i) => *i,
            ParseErr::Failure(i) => *i,
        }
    }

    /// Renders the error the way `Debug` shows it, e.g.
    /// `Error(Error { input: "abc", code: Tag })`.
    pub fn describe(&self) -> (r: String)
        ensures
            r@ == describe_spec(self.is_failure(), self.info().input@, self.info().code),
    {
        let (mut out, info) = match self {
            ParseErr::Error(info) => {
                proof {
                    reveal_strlit("Error");
                }
                (String::from_str("Error"), info)
            },
            ParseErr::Failure(info) => {
                proof {
                    reveal_strlit("Failure");
                }
                (String::from_str("Failure"), info)
            },
        };
        proof {
            reveal_strlit("(Error { input: ");
            reveal_strlit(", code: ");
            reveal_strlit(" })");
        }
        out.append("(Error { input: ");
        let shown = debug_text(info.input);
        out.append(shown.as_str());
        out.append(", code: ");
        out.append(info.code.name());
        out.append(" })");
        out
    }
}

} // verus!

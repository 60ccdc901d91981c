use vstd::prelude::*;

verus! {

/// The matcher that rejected the input.
#[derive(Clone, Copy, Debug, PartialEq, Eq, Structural)]
pub enum ErrorKind {
    /// A run of one or more characters outside a stop set was expected.
    IsNot,
    /// A fixed octal escape body was expected.
    Tag,
    /// One fixed character was expected.
    Char,
    /// One or more spaces or tabs were expected.
    Space,
    /// The end of the input was expected.
    Eof,
    /// A backslash stands at the end of a token, with no escape body behind it.
    EscapedTransform,
}

/// What is wrong with a rejected line.
#[derive(Clone, Copy, Debug, PartialEq, Eq, Structural)]
pub enum Failure {
    /// A token is empty or missing: the input ends, or has a space or a
    /// tab, where the device, the mount point or the file system type has
    /// to start, or it ends right behind one of these three; or no option
    /// stands behind a comma of the option list.
    MalformedToken,
    /// A backslash in the device, in the mount point or in an option is
    /// followed by no escape body.
    UnescapeFailure,
    /// The input ends, or has a comma, where the first option has to start.
    EmptyOptionList,
    /// What follows the options is not a gap, `0`, a gap, `0` and the end
    /// of the line.
    GrammarMismatch,
}

/// A rejection: what is wrong, the matcher that failed, and the input that
/// was left unconsumed when it failed.
///
/// For an `UnescapeFailure` the unconsumed input is what is left of the token
/// that was being decoded; in every other case it is what is left of the line.
#[derive(Clone, Copy, Debug, PartialEq, Eq)]
pub struct ParseError<'a> {
    pub failure: Failure,
    pub code: ErrorKind,
    pub input: &'a str,
}

/// The mathematical value of a [`ParseError`].
pub struct ParseErrorView {
    pub failure: Failure,
    pub code: ErrorKind,
    pub input: Seq<char>,
}

impl<'a> View for ParseError<'a> {
    type V = ParseErrorView;

    open spec fn view(&self) -> ParseErrorView {
        ParseErrorView { failure: self.failure, code: self.code, input: self.input@ }
    }
}

} // verus!

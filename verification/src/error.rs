//! Error types for command-line argument parsing and text processing.
use vstd::prelude::*;

verus! {

/// Declares std's I/O error so that it can travel inside `ProcessError`.
#[verifier::external_type_specification]
#[verifier::external_body]
pub struct ExIoError(std::io::Error);

/// Name of a supported command associated with an argument parsing error.
#[derive(Debug)]
pub struct ValidCommand(pub String);

/// Parameter value that failed validation or parsing.
#[derive(Debug)]
pub struct InvalidParam(pub String);

/// Errors that can occur while parsing CLI arguments.
#[derive(Debug)]
pub enum ArgsError {
    /// No arguments were provided.
    NoArgs,
    /// An argument or command name is not supported.
    Invalid,
    /// A command argument was required but not provided.
    MissingCmd,
    /// A command option was required but not provided for the contained command.
    MissingOption(ValidCommand),
    /// A command option was provided for the contained command but could not be parsed.
    InvalidOption(ValidCommand, InvalidParam),
}

/// The abstract value of an `ArgsError`: its variant and the text it carries.
pub enum ArgsErrorView {
    NoArgs,
    Invalid,
    MissingCmd,
    MissingOption(Seq<char>),
    InvalidOption(Seq<char>, Seq<char>),
}

impl View for ArgsError {
    type V = ArgsErrorView;

    open spec fn view(&self) -> ArgsErrorView {
        match self {
            ArgsError::NoArgs => ArgsErrorView::NoArgs,
            ArgsError::Invalid => ArgsErrorView::Invalid,
            ArgsError::MissingCmd => ArgsErrorView::MissingCmd,
            ArgsError::MissingOption(c) => ArgsErrorView::MissingOption(c.0@),
            ArgsError::InvalidOption(c, p) => ArgsErrorView::InvalidOption(c.0@, p.0@),
        }
    }
}

/// The human-readable text of an argument error.
pub open spec fn args_error_text(e: ArgsErrorView) -> Seq<char> {
    match e {
        ArgsErrorView::NoArgs => "one argument required"@,
        ArgsErrorView::Invalid => "invalid argument"@,
        ArgsErrorView::MissingOption(cmd) => "Option required for command: "@ + cmd,
        ArgsErrorView::InvalidOption(cmd, param) => "invalid Option for command: "@ + cmd
            + " param: "@ + param,
        ArgsErrorView::MissingCmd => "command required"@,
    }
}

impl ArgsError {
    /// The human-readable description of this error.
    pub fn message(&self) -> (r: String)
        ensures
            r@ == args_error_text(self@),
    {
        match self {
            ArgsError::NoArgs => String::from_str("one argument required"),
            ArgsError::Invalid => String::from_str("invalid argument"),
            ArgsError::MissingOption(cmd) => {
                let mut r = String::from_str("Option required for command: ");
                r.append(cmd.0.as_str());
                r
            },
            ArgsError::InvalidOption(cmd, param) => {
                let mut r = String::from_str("invalid Option for command: ");
                r.append(cmd.0.as_str());
                r.append(" param: ");
                r.append(param.0.as_str());
                r
            },
            ArgsError::MissingCmd => String::from_str("command required"),
        }
    }
}

/// Errors that can occur while processing text.
#[derive(Debug)]
pub enum ProcessError {
    /// The input could not be read.
    FileError(std::io::Error),
    /// The input holds no lines.
    NoText,
}

} // verus!

//! Why a pattern cannot be compiled.

use crate::pattern::engine;
use regex_automata::meta::BuildError;
use vstd::prelude::*;
use vstd::string::StringExecFns;

verus! {

/// The kind of an error.
#[derive(Clone, Debug)]
#[non_exhaustive]
pub enum ErrorKind {
    /// The pattern has an error of syntax, or compiles to more than the
    /// size limit allows; the text says which.
    Regex(String),
    /// The pattern holds this literal, which it may not.
    NotAllowed(String),
    /// This byte was asked for as line terminator and is not ASCII.
    InvalidLineTerminator(u8),
    /// The pattern can only match this byte, which is banned.
    Banned(u8),
}

/// Why a pattern cannot be compiled.
#[derive(Clone, Debug)]
pub struct Error {
    kind: ErrorKind,
}

/// What `{:?}` shows of the text `s`.
pub uninterp spec fn debug_of_text(s: Seq<char>) -> Seq<char>;

/// `format!("{:?}", s)`: the `Debug` of `str`.
#[verifier::external_body]
fn text_debug(s: &str) -> (shown: String)
    ensures
        shown@ == debug_of_text(s@),
{
    format!("{:?}", s)
}

/// What `{:?}` shows of the byte string that holds `byte` alone.
pub uninterp spec fn debug_of_byte(byte: u8) -> Seq<char>;

/// `format!("{:?}", ..)` of `bstr::ByteSlice::as_bstr` on the one byte
/// `byte`: the `Debug` of `bstr::BStr`.
#[verifier::external_body]
fn byte_debug(byte: u8) -> (shown: String)
    ensures
        shown@ == debug_of_byte(byte),
{
    format!("{:?}", bstr::ByteSlice::as_bstr(&[byte][..]))
}

/// The decimal digit for `d`, which is less than 10.
pub open spec fn digit(d: nat) -> char {
    (0x30 + d) as u8 as char
}

/// `n` in decimal.
pub open spec fn decimal(n: nat) -> Seq<char>
    decreases n,
{
    if n < 10 {
        seq![digit(n)]
    } else {
        decimal(n / 10).push(digit(n % 10))
    }
}

/// `format!("{}", n)`: the `Display` of `usize`, which writes `n` in
/// decimal.
#[verifier::external_body]
fn number_display(n: usize) -> (shown: String)
    ensures
        shown@ == decimal(n as nat),
{
    format!("{}", n)
}

impl ErrorKind {
    /// The text shown to the user.
    pub open spec fn text(&self) -> Seq<char> {
        match self {
            ErrorKind::Regex(s) => s@,
            ErrorKind::NotAllowed(lit) => "the literal "@ + debug_of_text(lit@)
                + " is not allowed in a regex"@,
            ErrorKind::InvalidLineTerminator(byte) => "line terminators must be ASCII, but "@
                + debug_of_byte(*byte) + " is not"@,
            ErrorKind::Banned(byte) => "pattern contains "@ + debug_of_byte(*byte)
                + " but it is impossible to match"@,
        }
    }
}

/// The text of the error for a pattern that compiles to more than `limit`
/// allows.
pub open spec fn size_limit_message(limit: usize) -> Seq<char> {
    "compiled regex exceeds size limit of "@ + decimal(limit as nat)
}

/// What the error for `err` says: that the size limit is exceeded, or what
/// the syntax error behind `err` says, or what `err` itself says.
pub open spec fn message_of(err: BuildError) -> Seq<char> {
    if let Some(limit) = engine::exceeded_size_limit(err) {
        size_limit_message(limit)
    } else if let Some(text) = engine::syntax_error_message(err) {
        text
    } else {
        engine::build_error_message(err)
    }
}

impl Error {
    /// The kind of the error.
    pub closed spec fn spec_kind(&self) -> ErrorKind {
        self.kind
    }

    /// The text shown to the user.
    pub open spec fn text(&self) -> Seq<char> {
        self.spec_kind().text()
    }

    pub(crate) fn new(kind: ErrorKind) -> (err: Error)
        ensures
            err.spec_kind() == kind,
    {
        Error { kind }
    }

    /// The error for a pattern that `regex-automata` does not compile.
    pub(crate) fn regex(err: BuildError) -> (made: Error)
        ensures
            made.spec_kind() matches ErrorKind::Regex(s) && s@ == message_of(err),
    {
        if let Some(limit) = engine::size_limit(&err) {
            let mut text = String::from_str("compiled regex exceeds size limit of ");
            text.append(number_display(limit).as_str());
            Error { kind: ErrorKind::Regex(text) }
        } else if let Some(text) = engine::syntax_error_text(&err) {
            Error::generic(text)
        } else {
            Error::generic(engine::build_error_text(&err))
        }
    }

    /// The error that says `text`.
    pub(crate) fn generic(text: String) -> (made: Error)
        ensures
            made.spec_kind() matches ErrorKind::Regex(s) && s@ == text@,
    {
        Error { kind: ErrorKind::Regex(text) }
    }

    /// The kind of the error.
    pub fn kind(&self) -> (kind: &ErrorKind)
        ensures
            *kind == self.spec_kind(),
    {
        &self.kind
    }

    /// The text shown to the user.
    pub fn to_string(&self) -> (text: String)
        ensures
            text@ == self.text(),
    {
        match &self.kind {
            ErrorKind::Regex(s) => s.clone(),
            ErrorKind::NotAllowed(lit) => {
                let mut text = String::from_str("the literal ");
                text.append(text_debug(lit.as_str()).as_str());
                text.append(" is not allowed in a regex");
                text
            },
            ErrorKind::InvalidLineTerminator(byte) => {
                let mut text = String::from_str("line terminators must be ASCII, but ");
                text.append(byte_debug(*byte).as_str());
                text.append(" is not");
                text
            },
            ErrorKind::Banned(byte) => {
                let mut text = String::from_str("pattern contains ");
                text.append(byte_debug(*byte).as_str());
                text.append(" but it is impossible to match");
                text
            },
        }
    }
}

} // verus!

//! The token data model: token kinds, tokens, and lexical errors.

use vstd::prelude::*;

verus! {

/// A lexical error. Errors are identified purely by kind: no position,
/// message, or payload is attached.
#[derive(Debug, Copy, Clone, PartialEq, Eq, Structural)]
pub enum SyntaxError {
    /// A `/* ... */` comment reaches end of input before `*/`.
    UnclosedComment,
    /// A value is expected but input ends, or an unquoted scalar scan yields
    /// zero characters.
    MissingValue,
    /// A quoted string reaches end of input, a raw newline, or a trailing
    /// unescaped backslash before a closing quote.
    UnterminatedString,
    /// Array contents end without a closing `]`.
    UnterminatedArray,
    /// Object contents end without a closing `}`.
    UnterminatedObject,
    /// A member name is not followed by `:` or `=`, optionally `=>`.
    InvalidMemberValueDelimiter,
}

/// The classification of a token.
#[derive(Debug, Copy, Clone, PartialEq, Eq, Structural)]
pub enum JsonTokenKind {
    Null,
    True,
    False,
    Number,
    String,
    ArrayStart,
    ArrayEnd,
    ObjectStart,
    ObjectEnd,
    /// A member name token: the reader rewrites a string or scalar token's
    /// kind to `ObjectMember` when it was consumed as a member name. The text
    /// is the name token's text, unchanged.
    ObjectMember,
}

/// The mathematical value of a [`JsonToken`]: its kind together with its text
/// as a sequence of characters.
#[verifier::ext_equal]
pub ghost struct TokenModel {
    pub kind: JsonTokenKind,
    pub text: Seq<char>,
}

/// A classified, positioned lexeme: a kind together with an exact,
/// unmodified slice of the source buffer spanning the lexeme. No escape
/// decoding and no quote stripping is performed: for strings, the quote
/// characters are included in the span.
#[derive(Debug, Copy, Clone, PartialEq, Eq)]
pub struct JsonToken<'s> {
    kind: JsonTokenKind,
    text: &'s str,
}

impl<'s> View for JsonToken<'s> {
    type V = TokenModel;

    closed spec fn view(&self) -> TokenModel {
        TokenModel { kind: self.kind, text: self.text@ }
    }
}

impl<'s> JsonToken<'s> {
    /// Builds a token from a kind and a span of the source buffer.
    pub(crate) fn new(kind: JsonTokenKind, text: &'s str) -> (t: Self)
        ensures
            t@ == (TokenModel { kind, text: text@ }),
    {
        Self { kind, text }
    }

    /// The token's classification.
    pub fn kind(&self) -> (k: JsonTokenKind)
        ensures
            k == self@.kind,
    {
        self.kind
    }

    /// The token's text: an exact slice of the source buffer.
    pub fn text(&self) -> (t: &'s str)
        ensures
            t@ == self@.text,
    {
        self.text
    }
}

} // verus!

//! The mathematical model of the tokenizer.
//!
//! A [`Model`] is the abstract state of a [`crate::reader::JsonTextReader`]:
//! the source text as a sequence of characters, the cursor position (a
//! character index), the one-character pushback slot, and the stack of
//! pending continuations. The spec functions of this module form a
//! deterministic interpreter: [`spec_step`] maps a model to its successor
//! model and the result produced, and the executable reader is proved to
//! follow it exactly. Everything the reader does is therefore a function of
//! the source text alone.

use vstd::prelude::*;

use crate::classify::spec_classify;
use crate::token::JsonTokenKind;
use crate::token::SyntaxError;
use crate::token::TokenModel;

verus! {

/// A pending parse state: what structural context produces the next token.
#[derive(Debug, Copy, Clone, PartialEq, Eq, Structural)]
pub enum ReaderState {
    /// Produce one value token.
    Parse,
    /// After `[`: either `]` or the first element.
    ParseArrayFirst,
    /// After an array element: a separator and another element, or `]`.
    ParseArrayNext,
    /// After `{`: either `}` or a member name.
    ParseObjectMemberName,
    /// After a member name: the `:` or `=`/`=>` delimiter, then the value.
    ParseObjectMemberValue,
    /// After a member value: a separator and another member, or `}`.
    ParseObjectMemberNext,
}

/// The abstract state of a reader.
#[verifier::ext_equal]
pub ghost struct Model {
    /// The source text, as a sequence of characters.
    pub source: Seq<char>,
    /// The cursor: the index of the next character to read.
    pub pos: int,
    /// At most one (index, character) pair that was un-read.
    pub pushback: Option<(int, char)>,
    /// The pending continuations, last entry on top.
    pub stack: Seq<ReaderState>,
}

/// The state of a freshly constructed reader over `source`: cursor at the
/// start, empty pushback slot, and a single `Parse` continuation.
pub open spec fn init_model(source: Seq<char>) -> Model {
    Model { source, pos: 0, pushback: None, stack: seq![ReaderState::Parse] }
}

/// Well-formedness: the cursor lies within the source, and a buffered
/// pushback pair holds a real character of the source. The pair is the one
/// most recently read (`pos == i + 1`) except on the degenerate path where a
/// lone `/` is un-read over an already occupied slot, which loses the slot's
/// previous content; such a stale pair is always a `/`.
pub open spec fn wf_model(m: Model) -> bool {
    &&& 0 <= m.pos <= m.source.len()
    &&& match m.pushback {
        Some((i, c)) => 0 <= i < m.source.len() && m.source[i] == c && (m.pos == i + 1 || c
            == '/'),
        None => true,
    }
}

/// A significant character: anything above U+0020.
pub open spec fn is_significant(c: char) -> bool {
    (c as u32) > 32
}

/// The reserved delimiter characters that stop an unquoted scalar scan.
pub open spec fn is_reserved(c: char) -> bool {
    ||| c == ','
    ||| c == ':'
    ||| c == ']'
    ||| c == '}'
    ||| c == '/'
    ||| c == '\\'
    ||| c == '"'
    ||| c == '['
    ||| c == '{'
    ||| c == ';'
    ||| c == '='
    ||| c == '#'
}

/// The number of characters still available to read: what remains ahead of
/// the cursor, plus one for an occupied pushback slot. Every consuming step
/// strictly decreases it, which bounds all the recursions below.
pub open spec fn rem(m: Model) -> int {
    (if 0 <= m.pos <= m.source.len() {
        m.source.len() - m.pos
    } else {
        0
    }) + (if m.pushback is Some {
        1int
    } else {
        0int
    })
}

/// Consume one character: the pushback slot first if occupied, otherwise the
/// character under the cursor; `None` at end of input.
pub open spec fn spec_advance(m: Model) -> (Model, Option<(int, char)>) {
    match m.pushback {
        Some(p) => (Model { pushback: None, ..m }, Some(p)),
        None => if 0 <= m.pos < m.source.len() {
            (Model { pos: m.pos + 1, ..m }, Some((m.pos, m.source[m.pos])))
        } else {
            (m, None)
        },
    }
}

/// Store one pair to be returned by the next advance. A second store without
/// an intervening advance overwrites the slot.
pub open spec fn spec_back(m: Model, p: (int, char)) -> Model {
    Model { pushback: Some(p), ..m }
}

/// Push a continuation onto the stack.
pub open spec fn spec_push(m: Model, s: ReaderState) -> Model {
    Model { stack: m.stack.push(s), ..m }
}

/// Consume the remainder of a `//` or `#` line comment: everything up to and
/// including the next line break, or to end of input.
pub open spec fn spec_skip_line(m: Model) -> Model
    decreases rem(m),
{
    let (m1, c) = spec_advance(m);
    match c {
        None => m1,
        Some((_i, ch)) => if ch == '\n' || ch == '\r' {
            m1
        } else {
            spec_skip_line(m1)
        },
    }
}

/// Consume the remainder of a `/* ... */` block comment, the leading `/*`
/// already read. Returns the state after the closing `*/` and whether the
/// comment was closed before end of input.
pub open spec fn spec_skip_block(m: Model) -> (Model, bool)
    decreases rem(m),
{
    let (m1, c) = spec_advance(m);
    match c {
        None => (m1, false),
        Some((_i, ch)) => if ch == '*' {
            let (m2, c2) = spec_advance(m1);
            match c2 {
                None => (m2, false),
                Some((j, d)) => if d == '/' {
                    (m2, true)
                } else {
                    spec_skip_block(spec_back(m2, (j, d)))
                },
            }
        } else {
            spec_skip_block(m1)
        },
    }
}

/// Skip insignificant input: characters at or below U+0020, `//` and `#`
/// line comments, and `/* ... */` block comments. Returns the first
/// significant pair, `None` at end of input, or `UnclosedComment`. A lone
/// `/` not followed by `/` or `*` is itself significant.
pub open spec fn spec_next_clean(m: Model) -> (Model, Result<
    Option<(int, char)>,
    SyntaxError,
>)
    decreases rem(m),
    via spec_next_clean_decreases
{
    let (m1, c) = spec_advance(m);
    match c {
        None => (m1, Ok(None)),
        Some((i, ch)) => if ch == '/' {
            let (m2, c2) = spec_advance(m1);
            match c2 {
                None => (m2, Ok(Some((i, ch)))),
                Some((j, d)) => if d == '/' {
                    spec_next_clean(spec_skip_line(m2))
                } else if d == '*' {
                    let (m3, closed) = spec_skip_block(m2);
                    if closed {
                        spec_next_clean(m3)
                    } else {
                        (m3, Err(SyntaxError::UnclosedComment))
                    }
                } else {
                    (spec_back(m2, (j, d)), Ok(Some((i, ch))))
                },
            }
        } else if ch == '#' {
            spec_next_clean(spec_skip_line(m1))
        } else if is_significant(ch) {
            (m1, Ok(Some((i, ch))))
        } else {
            spec_next_clean(m1)
        },
    }
}

/// Skipping a line comment consumes characters and never refills the
/// pushback slot, so it cannot increase what remains to read.
pub proof fn lemma_skip_line_rem(m: Model)
    ensures
        rem(spec_skip_line(m)) <= rem(m),
    decreases rem(m),
{
    let (m1, c) = spec_advance(m);
    match c {
        None => {},
        Some((_i, ch)) => if ch == '\n' || ch == '\r' {
        } else {
            lemma_skip_line_rem(m1);
        },
    }
}

/// Skipping a block comment consumes at least the characters it reads, so it
/// cannot increase what remains to read.
pub proof fn lemma_skip_block_rem(m: Model)
    ensures
        rem(spec_skip_block(m).0) <= rem(m),
    decreases rem(m),
{
    let (m1, c) = spec_advance(m);
    match c {
        None => {},
        Some((_i, ch)) => if ch == '*' {
            let (m2, c2) = spec_advance(m1);
            match c2 {
                None => {},
                Some((j, d)) => if d == '/' {
                } else {
                    lemma_skip_block_rem(spec_back(m2, (j, d)));
                },
            }
        } else {
            lemma_skip_block_rem(m1);
        },
    }
}

#[via_fn]
proof fn spec_next_clean_decreases(m: Model) {
    let (m1, c) = spec_advance(m);
    match c {
        None => {},
        Some((i, ch)) => if ch == '/' {
            let (m2, c2) = spec_advance(m1);
            match c2 {
                None => {},
                Some((j, d)) => if d == '/' {
                    lemma_skip_line_rem(m2);
                } else if d == '*' {
                    lemma_skip_block_rem(m2);
                } else {
                },
            }
        } else if ch == '#' {
            lemma_skip_line_rem(m1);
        } else {
        },
    }
}

/// Scan a quoted string, the opening quote at `si` already read. Consumes
/// characters until a matching quote; a character right after a backslash is
/// accepted unconditionally. Returns the index of the closing quote, or
/// `UnterminatedString` on end of input, a raw line break, or a trailing
/// backslash.
pub open spec fn spec_parse_string(m: Model, quote: char) -> (Model, Result<int, SyntaxError>)
    decreases rem(m),
{
    let (m1, c) = spec_advance(m);
    match c {
        None => (m1, Err(SyntaxError::UnterminatedString)),
        Some((ei, ch)) => if ch == '\n' || ch == '\r' {
            (m1, Err(SyntaxError::UnterminatedString))
        } else if ch == '\\' {
            let (m2, c2) = spec_advance(m1);
            match c2 {
                None => (m2, Err(SyntaxError::UnterminatedString)),
                Some(_) => spec_parse_string(m2, quote),
            }
        } else if ch == quote {
            (m1, Ok(ei))
        } else {
            spec_parse_string(m1, quote)
        },
    }
}

/// Scan an unquoted scalar. `ei` is the exclusive end of the span
/// accumulated so far and `(pi, ch)` the character under consideration:
/// significant non-reserved characters extend the span; the first other
/// character is un-read and ends the scan, as does end of input. Returns the
/// exclusive end of the span.
pub open spec fn spec_scan(m: Model, ei: int, pi: int, ch: char) -> (Model, int)
    decreases rem(m),
{
    if is_significant(ch) && !is_reserved(ch) {
        let (m1, c) = spec_advance(m);
        match c {
            None => (m1, ei + 1),
            Some((pi2, ch2)) => spec_scan(m1, ei + 1, pi2, ch2),
        }
    } else {
        (spec_back(m, (pi, ch)), ei)
    }
}

/// Produce one value token: a quoted string, the start of an array or
/// object, or an unquoted scalar classified by [`spec_classify`]. End of
/// input, or a scan that accumulates nothing, is `MissingValue`.
pub open spec fn spec_parse(m: Model) -> (Model, Result<TokenModel, SyntaxError>) {
    let (m1, r) = spec_next_clean(m);
    match r {
        Err(e) => (m1, Err(e)),
        Ok(None) => (m1, Err(SyntaxError::MissingValue)),
        Ok(Some((i, ch))) => if ch == '"' || ch == '\'' {
            let (m2, r2) = spec_parse_string(m1, ch);
            match r2 {
                Err(e) => (m2, Err(e)),
                Ok(ei) => (
                    m2,
                    Ok(
                        TokenModel {
                            kind: JsonTokenKind::String,
                            text: m.source.subrange(i, ei + 1),
                        },
                    ),
                ),
            }
        } else if ch == '{' {
            (
                spec_push(m1, ReaderState::ParseObjectMemberName),
                Ok(
                    TokenModel {
                        kind: JsonTokenKind::ObjectStart,
                        text: m.source.subrange(i, i + 1),
                    },
                ),
            )
        } else if ch == '[' {
            (
                spec_push(m1, ReaderState::ParseArrayFirst),
                Ok(
                    TokenModel {
                        kind: JsonTokenKind::ArrayStart,
                        text: m.source.subrange(i, i + 1),
                    },
                ),
            )
        } else {
            let (m2, ei) = spec_scan(m1, i, i, ch);
            if ei == i {
                (m2, Err(SyntaxError::MissingValue))
            } else {
                let text = m.source.subrange(i, ei);
                (m2, Ok(TokenModel { kind: spec_classify(text), text }))
            }
        },
    }
}

/// After `{`: a `}` closes the object; otherwise the next value token is
/// read as the member name and re-wrapped as `ObjectMember`, with
/// `ParseObjectMemberValue` pending.
pub open spec fn spec_parse_object_member_name(m: Model) -> (Model, Result<
    TokenModel,
    SyntaxError,
>) {
    let (m1, r) = spec_next_clean(m);
    match r {
        Err(e) => (m1, Err(e)),
        Ok(None) => (m1, Err(SyntaxError::UnterminatedObject)),
        Ok(Some((i, ch))) => if ch == '}' {
            (
                m1,
                Ok(
                    TokenModel {
                        kind: JsonTokenKind::ObjectEnd,
                        text: m.source.subrange(i, i + 1),
                    },
                ),
            )
        } else {
            let m2 = spec_push(spec_back(m1, (i, ch)), ReaderState::ParseObjectMemberValue);
            let (m3, r3) = spec_parse(m2);
            match r3 {
                Err(e) => (m3, Err(e)),
                Ok(t) => (
                    m3,
                    Ok(TokenModel { kind: JsonTokenKind::ObjectMember, text: t.text }),
                ),
            }
        },
    }
}

/// After a member name: require `:`, or `=` optionally followed by `>` (the
/// `>` is consumed only if present, by lookahead then pushback); anything
/// else is `InvalidMemberValueDelimiter`. Then the member's value token is
/// read, with `ParseObjectMemberNext` pending.
pub open spec fn spec_parse_object_member_value(m: Model) -> (Model, Result<
    TokenModel,
    SyntaxError,
>) {
    let (m1, r) = spec_next_clean(m);
    match r {
        Err(e) => (m1, Err(e)),
        Ok(None) => (m1, Err(SyntaxError::InvalidMemberValueDelimiter)),
        Ok(Some((_i, ch))) => if ch == ':' {
            let (m3, r3) = spec_parse(spec_push(m1, ReaderState::ParseObjectMemberNext));
            (m3, r3)
        } else if ch == '=' {
            let (m2, c2) = spec_advance(m1);
            match c2 {
                None => (m2, Err(SyntaxError::InvalidMemberValueDelimiter)),
                Some((j, d)) => {
                    let m2b = if d == '>' {
                        m2
                    } else {
                        spec_back(m2, (j, d))
                    };
                    let (m3, r3) = spec_parse(spec_push(m2b, ReaderState::ParseObjectMemberNext));
                    (m3, r3)
                },
            }
        } else {
            (m1, Err(SyntaxError::InvalidMemberValueDelimiter))
        },
    }
}

/// After a member value: `,` or `;` leads to either `}` or the next member's
/// name token (with `ParseObjectMemberValue` pending); a direct `}` closes
/// the object; anything else is `UnterminatedObject`.
pub open spec fn spec_parse_object_member_next(m: Model) -> (Model, Result<
    TokenModel,
    SyntaxError,
>) {
    let (m1, r) = spec_next_clean(m);
    match r {
        Err(e) => (m1, Err(e)),
        Ok(None) => (m1, Err(SyntaxError::UnterminatedObject)),
        Ok(Some((i, ch))) => if ch == ';' || ch == ',' {
            let (m2, r2) = spec_next_clean(m1);
            match r2 {
                Err(e) => (m2, Err(e)),
                Ok(None) => (m2, Err(SyntaxError::UnterminatedObject)),
                Ok(Some((j, d))) => if d == '}' {
                    (
                        m2,
                        Ok(
                            TokenModel {
                                kind: JsonTokenKind::ObjectEnd,
                                text: m.source.subrange(j, j + 1),
                            },
                        ),
                    )
                } else {
                    let m3 = spec_push(
                        spec_back(m2, (j, d)),
                        ReaderState::ParseObjectMemberValue,
                    );
                    spec_parse(m3)
                },
            }
        } else if ch == '}' {
            (
                m1,
                Ok(
                    TokenModel {
                        kind: JsonTokenKind::ObjectEnd,
                        text: m.source.subrange(i, i + 1),
                    },
                ),
            )
        } else {
            (m1, Err(SyntaxError::UnterminatedObject))
        },
    }
}

/// After `[`: a `]` closes the array; otherwise the first element's token is
/// read, with `ParseArrayNext` pending.
pub open spec fn spec_parse_array_first(m: Model) -> (Model, Result<TokenModel, SyntaxError>) {
    let (m1, r) = spec_next_clean(m);
    match r {
        Err(e) => (m1, Err(e)),
        Ok(None) => (m1, Err(SyntaxError::UnterminatedArray)),
        Ok(Some((i, ch))) => if ch == ']' {
            (
                m1,
                Ok(
                    TokenModel { kind: JsonTokenKind::ArrayEnd, text: m.source.subrange(i, i + 1) },
                ),
            )
        } else {
            let m2 = spec_push(spec_back(m1, (i, ch)), ReaderState::ParseArrayNext);
            spec_parse(m2)
        },
    }
}

/// After an array element: `,` or `;` leads to either `]` or the next
/// element (with `ParseArrayNext` pending); a direct `]` closes the array;
/// anything else is `UnterminatedArray`.
pub open spec fn spec_parse_array_next(m: Model) -> (Model, Result<TokenModel, SyntaxError>) {
    let (m1, r) = spec_next_clean(m);
    match r {
        Err(e) => (m1, Err(e)),
        Ok(None) => (m1, Err(SyntaxError::UnterminatedArray)),
        Ok(Some((i, ch))) => if ch == ',' || ch == ';' {
            let (m2, r2) = spec_next_clean(m1);
            match r2 {
                Err(e) => (m2, Err(e)),
                Ok(None) => (m2, Err(SyntaxError::UnterminatedArray)),
                Ok(Some((j, d))) => if d == ']' {
                    (
                        m2,
                        Ok(
                            TokenModel {
                                kind: JsonTokenKind::ArrayEnd,
                                text: m.source.subrange(j, j + 1),
                            },
                        ),
                    )
                } else {
                    let m3 = spec_push(spec_back(m2, (j, d)), ReaderState::ParseArrayNext);
                    spec_parse(m3)
                },
            }
        } else if ch == ']' {
            (
                m1,
                Ok(
                    TokenModel { kind: JsonTokenKind::ArrayEnd, text: m.source.subrange(i, i + 1) },
                ),
            )
        } else {
            (m1, Err(SyntaxError::UnterminatedArray))
        },
    }
}

/// One request for the next token: pop the top continuation and execute it.
/// An empty stack signals the end of the sequence.
pub open spec fn spec_step(m: Model) -> (Model, Option<Result<TokenModel, SyntaxError>>) {
    if m.stack.len() == 0 {
        (m, None)
    } else {
        let st = m.stack.last();
        let m0 = Model { stack: m.stack.drop_last(), ..m };
        let (m1, r) = match st {
            ReaderState::Parse => spec_parse(m0),
            ReaderState::ParseArrayFirst => spec_parse_array_first(m0),
            ReaderState::ParseArrayNext => spec_parse_array_next(m0),
            ReaderState::ParseObjectMemberName => spec_parse_object_member_name(m0),
            ReaderState::ParseObjectMemberValue => spec_parse_object_member_value(m0),
            ReaderState::ParseObjectMemberNext => spec_parse_object_member_next(m0),
        };
        (m1, Some(r))
    }
}

/// The first `n` results of a run: repeated [`spec_step`]s from `m`.
pub open spec fn spec_run(m: Model, n: nat) -> Seq<Option<Result<TokenModel, SyntaxError>>>
    decreases n,
{
    if n == 0 {
        Seq::empty()
    } else {
        let (m1, r) = spec_step(m);
        seq![r] + spec_run(m1, (n - 1) as nat)
    }
}

} // verus!

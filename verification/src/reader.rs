//! The token-producing state machine.
//!
//! A [`JsonTextReader`] borrows a text buffer and produces one token per
//! request, driving an explicit stack of pending continuations instead of
//! call recursion, so arbitrarily deep structures are handled with bounded
//! call depth. Every operation is proved to follow the spec interpreter of
//! [`crate::model`] exactly: the state after a request and the result
//! produced are [`spec_step`] of the state before it.

use vstd::prelude::*;

use crate::classify::classify_scalar;
use crate::model::Model;
use crate::model::ReaderState;
use crate::model::init_model;
use crate::model::is_reserved;
use crate::model::is_significant;
use crate::model::rem;
use crate::model::spec_advance;
use crate::model::spec_back;
use crate::model::spec_next_clean;
use crate::model::spec_parse;
use crate::model::spec_parse_array_first;
use crate::model::spec_parse_array_next;
use crate::model::spec_parse_object_member_name;
use crate::model::spec_parse_object_member_next;
use crate::model::spec_parse_object_member_value;
use crate::model::spec_parse_string;
use crate::model::spec_scan;
use crate::model::spec_skip_block;
use crate::model::spec_skip_line;
use crate::model::spec_step;
use crate::model::wf_model;
use crate::token::JsonToken;
use crate::token::JsonTokenKind;
use crate::token::SyntaxError;
use crate::token::TokenModel;

verus! {

/// An executable cursor result measured against a spec one.
pub open spec fn opt_pair_matches(r: Option<(usize, char)>, s: Option<(int, char)>) -> bool {
    match (r, s) {
        (Option::None, Option::None) => true,
        (Option::Some((i, c)), Option::Some((j, d))) => i as int == j && c == d,
        _ => false,
    }
}

/// An executable skip result measured against a spec one.
pub open spec fn clean_matches(
    r: Result<Option<(usize, char)>, SyntaxError>,
    s: Result<Option<(int, char)>, SyntaxError>,
) -> bool {
    match (r, s) {
        (Result::Ok(a), Result::Ok(b)) => opt_pair_matches(a, b),
        (Result::Err(e1), Result::Err(e2)) => e1 == e2,
        _ => false,
    }
}

/// An executable token result measured against a spec one.
pub open spec fn tok_matches<'s>(
    r: Result<JsonToken<'s>, SyntaxError>,
    s: Result<TokenModel, SyntaxError>,
) -> bool {
    match (r, s) {
        (Result::Ok(t), Result::Ok(st)) => t@ == st,
        (Result::Err(e1), Result::Err(e2)) => e1 == e2,
        _ => false,
    }
}

/// Every token carries an exact, contiguous substring of the source.
pub open spec fn token_text_in<'s>(
    r: Result<JsonToken<'s>, SyntaxError>,
    src: Seq<char>,
) -> bool {
    match r {
        Result::Ok(t) => exists|a: int, b: int|
            0 <= a <= b <= src.len() && t@.text == #[trigger] src.subrange(a, b),
        Result::Err(_) => true,
    }
}

/// The streaming tokenizer over a borrowed text buffer.
pub struct JsonTextReader<'s> {
    source: &'s str,
    len: usize,
    pos: usize,
    pushback: Option<(usize, char)>,
    state_stack: Vec<ReaderState>,
}

impl<'s> View for JsonTextReader<'s> {
    type V = Model;

    closed spec fn view(&self) -> Model {
        Model {
            source: self.source@,
            pos: self.pos as int,
            pushback: match self.pushback {
                Some((i, c)) => Some((i as int, c)),
                None => None,
            },
            stack: self.state_stack@,
        }
    }
}

impl<'s> JsonTextReader<'s> {
    /// The reader is well formed: its cached length is the source's length
    /// and its abstract state is well formed.
    pub closed spec fn wf(self) -> bool {
        self.len == self.source@.len() && wf_model(self@)
    }

    /// Constructs a reader over `source`, ready to produce the first token.
    pub fn new(source: &'s str) -> (r: Self)
        ensures
            r.wf(),
            r@ == init_model(source@),
    {
        let len = source.unicode_len();
        let mut state_stack: Vec<ReaderState> = Vec::new();
        state_stack.push(ReaderState::Parse);
        let r = Self { source, len, pos: 0, pushback: None, state_stack };
        proof {
            assert(r@.stack =~= init_model(source@).stack);
            assert(r@ =~= init_model(source@));
        }
        r
    }

    /// Consume one character: the pushback slot first if occupied, then the
    /// character under the cursor; `None` at end of input.
    fn advance(&mut self) -> (r: Option<(usize, char)>)
        requires
            old(self).wf(),
        ensures
            final(self).wf(),
            final(self)@ == spec_advance(old(self)@).0,
            opt_pair_matches(r, spec_advance(old(self)@).1),
    {
        match self.pushback {
            Some(p) => {
                self.pushback = None;
                proof {
                    assert(self@ =~= spec_advance(old(self)@).0);
                }
                Some(p)
            },
            None => {
                if self.pos < self.len {
                    let i = self.pos;
                    let c = self.source.get_char(i);
                    self.pos = i + 1;
                    proof {
                        assert(self@ =~= spec_advance(old(self)@).0);
                    }
                    Some((i, c))
                } else {
                    proof {
                        assert(self@ =~= spec_advance(old(self)@).0);
                    }
                    None
                }
            },
        }
    }

    /// Store one pair to be returned by the next advance. The pair must be
    /// a real character of the source: the one just read, or a lone `/` on
    /// the degenerate path that overwrites the slot.
    fn back(&mut self, p: (usize, char))
        requires
            old(self).wf(),
            p.0 < old(self)@.source.len(),
            old(self)@.source[p.0 as int] == p.1,
            old(self)@.pos == p.0 + 1 || p.1 == '/',
        ensures
            final(self).wf(),
            final(self)@ == spec_back(old(self)@, (p.0 as int, p.1)),
    {
        self.pushback = Some(p);
        proof {
            assert(self@ =~= spec_back(old(self)@, (p.0 as int, p.1)));
        }
    }

    /// Consume the rest of a line comment, up to and including the next
    /// line break or to end of input.
    #[verifier::loop_isolation(false)]
    fn skip_line(&mut self)
        requires
            old(self).wf(),
        ensures
            final(self).wf(),
            final(self)@ == spec_skip_line(old(self)@),
            final(self)@.source == old(self)@.source,
            final(self)@.stack == old(self)@.stack,
    {
        loop
            invariant
                self.wf(),
                self@.source == old(self)@.source,
                self@.stack == old(self)@.stack,
                spec_skip_line(self@) == spec_skip_line(old(self)@),
            decreases rem(self@),
        {
            let c = self.advance();
            match c {
                None => {
                    return ;
                },
                Some((_i, ch)) => {
                    if ch == '\n' || ch == '\r' {
                        return ;
                    }
                },
            }
        }
    }

    /// Consume the rest of a `/* ... */` block comment, the leading `/*`
    /// already read; reports whether the comment was closed.
    #[verifier::loop_isolation(false)]
    fn skip_block(&mut self) -> (closed: bool)
        requires
            old(self).wf(),
        ensures
            final(self).wf(),
            final(self)@ == spec_skip_block(old(self)@).0,
            closed == spec_skip_block(old(self)@).1,
            final(self)@.source == old(self)@.source,
            final(self)@.stack == old(self)@.stack,
    {
        loop
            invariant
                self.wf(),
                self@.source == old(self)@.source,
                self@.stack == old(self)@.stack,
                spec_skip_block(self@) == spec_skip_block(old(self)@),
            decreases rem(self@),
        {
            let c = self.advance();
            match c {
                None => {
                    return false;
                },
                Some((_i, ch)) => {
                    if ch == '*' {
                        let c2 = self.advance();
                        match c2 {
                            None => {
                                return false;
                            },
                            Some((j, d)) => {
                                if d == '/' {
                                    return true;
                                } else {
                                    self.back((j, d));
                                }
                            },
                        }
                    }
                },
            }
        }
    }

    /// Skip insignificant input: characters at or below U+0020 and the
    /// three comment forms. Returns the first significant pair, `None` at
    /// end of input, or `UnclosedComment`. A lone `/` not followed by `/`
    /// or `*` is itself significant; any returned character other than `/`
    /// was read fresh, with the pushback slot left empty.
    #[verifier::loop_isolation(false)]
    fn next_clean(&mut self) -> (r: Result<Option<(usize, char)>, SyntaxError>)
        requires
            old(self).wf(),
        ensures
            final(self).wf(),
            final(self)@ == spec_next_clean(old(self)@).0,
            clean_matches(r, spec_next_clean(old(self)@).1),
            final(self)@.source == old(self)@.source,
            final(self)@.stack == old(self)@.stack,
            match r {
                Result::Ok(Some((i, c))) => i < old(self)@.source.len() && old(
                    self,
                )@.source[i as int] == c && is_significant(c) && (c != '/'
                    ==> final(self)@.pushback is None && final(self)@.pos == i + 1),
                _ => true,
            },
    {
        loop
            invariant
                self.wf(),
                self@.source == old(self)@.source,
                self@.stack == old(self)@.stack,
                spec_next_clean(self@) == spec_next_clean(old(self)@),
            decreases rem(self@),
        {
            let c = self.advance();
            match c {
                None => {
                    return Ok(None);
                },
                Some((i, ch)) => {
                    if ch == '/' {
                        let c2 = self.advance();
                        match c2 {
                            None => {
                                return Ok(Some((i, ch)));
                            },
                            Some((j, d)) => {
                                if d == '/' {
                                    let ghost mb = self@;
                                    self.skip_line();
                                    proof {
                                        crate::model::lemma_skip_line_rem(mb);
                                    }
                                } else if d == '*' {
                                    let ghost mb = self@;
                                    let closed = self.skip_block();
                                    proof {
                                        crate::model::lemma_skip_block_rem(mb);
                                    }
                                    if !closed {
                                        return Err(SyntaxError::UnclosedComment);
                                    }
                                } else {
                                    self.back((j, d));
                                    return Ok(Some((i, ch)));
                                }
                            },
                        }
                    } else if ch == '#' {
                        let ghost mb = self@;
                        self.skip_line();
                        proof {
                            crate::model::lemma_skip_line_rem(mb);
                        }
                    } else if (ch as u32) > 32 {
                        return Ok(Some((i, ch)));
                    }
                },
            }
        }
    }

    /// Scan a quoted string, the opening quote at `si` already consumed.
    /// Returns the index of the matching closing quote.
    #[verifier::loop_isolation(false)]
    fn parse_string(&mut self, si: usize, quote: char) -> (r: Result<usize, SyntaxError>)
        requires
            old(self).wf(),
            old(self)@.pushback is None,
            old(self)@.pos == si + 1,
            si < old(self)@.source.len(),
        ensures
            final(self).wf(),
            final(self)@ == spec_parse_string(old(self)@, quote).0,
            final(self)@.source == old(self)@.source,
            final(self)@.stack == old(self)@.stack,
            match (r, spec_parse_string(old(self)@, quote).1) {
                (Result::Ok(ei), Result::Ok(sei)) => ei as int == sei && si <= ei < old(
                    self,
                )@.source.len(),
                (Result::Err(e1), Result::Err(e2)) => e1 == e2,
                _ => false,
            },
    {
        loop
            invariant
                self.wf(),
                self@.source == old(self)@.source,
                self@.stack == old(self)@.stack,
                self@.pushback is None,
                si + 1 <= self@.pos <= self@.source.len(),
                spec_parse_string(self@, quote) == spec_parse_string(old(self)@, quote),
            decreases rem(self@),
        {
            let c = self.advance();
            match c {
                None => {
                    return Err(SyntaxError::UnterminatedString);
                },
                Some((ei, ch)) => {
                    if ch == '\n' || ch == '\r' {
                        return Err(SyntaxError::UnterminatedString);
                    } else if ch == '\\' {
                        let c2 = self.advance();
                        if c2.is_none() {
                            return Err(SyntaxError::UnterminatedString);
                        }
                    } else if ch == quote {
                        return Ok(ei);
                    }
                },
            }
        }
    }

    /// Produce one value token: a quoted string, the start of an array or
    /// object, or an unquoted scalar.
    #[verifier::loop_isolation(false)]
    fn parse(&mut self) -> (r: Result<JsonToken<'s>, SyntaxError>)
        requires
            old(self).wf(),
        ensures
            final(self).wf(),
            final(self)@ == spec_parse(old(self)@).0,
            tok_matches(r, spec_parse(old(self)@).1),
            token_text_in(r, old(self)@.source),
    {
        let nc = self.next_clean();
        let ich = match nc {
            Err(e) => {
                return Err(e);
            },
            Ok(None) => {
                return Err(SyntaxError::MissingValue);
            },
            Ok(Some(p)) => p,
        };
        let (i, ch) = ich;
        if ch == '"' || ch == '\'' {
            let ps = self.parse_string(i, ch);
            match ps {
                Err(e) => Err(e),
                Ok(ei) => {
                    let text = self.source.substring_char(i, ei + 1);
                    let t = JsonToken::new(JsonTokenKind::String, text);
                    proof {
                        assert(0 <= i as int <= ei + 1 <= self@.source.len() && t@.text
                            == self@.source.subrange(i as int, ei + 1));
                    }
                    Ok(t)
                },
            }
        } else if ch == '{' {
            self.state_stack.push(ReaderState::ParseObjectMemberName);
            let text = self.source.substring_char(i, i + 1);
            let t = JsonToken::new(JsonTokenKind::ObjectStart, text);
            proof {
                assert(self@ =~= spec_parse(old(self)@).0);
                assert(0 <= i as int <= i + 1 <= self@.source.len() && t@.text
                    == self@.source.subrange(i as int, i + 1));
            }
            Ok(t)
        } else if ch == '[' {
            self.state_stack.push(ReaderState::ParseArrayFirst);
            let text = self.source.substring_char(i, i + 1);
            let t = JsonToken::new(JsonTokenKind::ArrayStart, text);
            proof {
                assert(self@ =~= spec_parse(old(self)@).0);
                assert(0 <= i as int <= i + 1 <= self@.source.len() && t@.text
                    == self@.source.subrange(i as int, i + 1));
            }
            Ok(t)
        } else {
            // An unquoted scalar: accumulate significant, non-reserved
            // characters, then classify the accumulated text.
            let ghost m1 = self@;
            let mut ei = i;
            let mut pi = i;
            let mut cch = ch;
            #[verifier::loop_isolation(true)]
            loop
                invariant_except_break
                    i <= self@.source.len(),
                    self.wf(),
                    self@.source == m1.source,
                    self@.stack == m1.stack,
                    i <= ei,
                    ei == pi,
                    pi < self@.source.len(),
                    self@.source[pi as int] == cch,
                    self@.pos == pi + 1 || cch == '/',
                    (is_significant(cch) && !is_reserved(cch)) ==> (self@.pushback is None
                        && self@.pos == pi + 1),
                    spec_scan(self@, ei as int, pi as int, cch) == spec_scan(
                        m1,
                        i as int,
                        i as int,
                        ch,
                    ),
                ensures
                    self.wf(),
                    self@.source == m1.source,
                    self@.stack == m1.stack,
                    self@ == spec_scan(m1, i as int, i as int, ch).0,
                    ei as int == spec_scan(m1, i as int, i as int, ch).1,
                    i <= ei <= self@.source.len(),
                decreases rem(self@),
            {
                let sig = (cch as u32) > 32;
                let res = cch == ',' || cch == ':' || cch == ']' || cch == '}' || cch == '/' || cch
                    == '\\' || cch == '"' || cch == '[' || cch == '{' || cch == ';' || cch == '='
                    || cch == '#';
                if sig && !res {
                    ei = ei + 1;
                    let c2 = self.advance();
                    match c2 {
                        None => {
                            break ;
                        },
                        Some((pi2, cch2)) => {
                            pi = pi2;
                            cch = cch2;
                        },
                    }
                } else {
                    self.back((pi, cch));
                    proof {
                        assert(ei as int == spec_scan(m1, i as int, i as int, ch).1);
                    }
                    break ;
                }
            }
            if ei == i {
                return Err(SyntaxError::MissingValue);
            }
            let text = self.source.substring_char(i, ei);
            let kind = classify_scalar(text);
            let t = JsonToken::new(kind, text);
            proof {
                assert(0 <= i as int <= ei as int <= self@.source.len() && t@.text
                    == self@.source.subrange(i as int, ei as int));
            }
            Ok(t)
        }
    }

    /// After `{`: a `}` closes the object; otherwise the next value token
    /// is read as the member name and re-wrapped as `ObjectMember`.
    fn parse_object_member_name(&mut self) -> (r: Result<JsonToken<'s>, SyntaxError>)
        requires
            old(self).wf(),
        ensures
            final(self).wf(),
            final(self)@ == spec_parse_object_member_name(old(self)@).0,
            tok_matches(r, spec_parse_object_member_name(old(self)@).1),
            token_text_in(r, old(self)@.source),
    {
        let nc = self.next_clean();
        let ich = match nc {
            Err(e) => {
                return Err(e);
            },
            Ok(None) => {
                return Err(SyntaxError::UnterminatedObject);
            },
            Ok(Some(p)) => p,
        };
        let (i, ch) = ich;
        if ch == '}' {
            let text = self.source.substring_char(i, i + 1);
            let t = JsonToken::new(JsonTokenKind::ObjectEnd, text);
            proof {
                assert(0 <= i as int <= i + 1 <= self@.source.len() && t@.text
                    == self@.source.subrange(i as int, i + 1));
            }
            Ok(t)
        } else {
            self.back((i, ch));
            self.state_stack.push(ReaderState::ParseObjectMemberValue);
            let r = self.parse();
            match r {
                Err(e) => Err(e),
                Ok(t) => Ok(JsonToken::new(JsonTokenKind::ObjectMember, t.text())),
            }
        }
    }

    /// After a member name: require `:`, or `=` optionally followed by `>`,
    /// then read the member's value token.
    fn parse_object_member_value(&mut self) -> (r: Result<JsonToken<'s>, SyntaxError>)
        requires
            old(self).wf(),
        ensures
            final(self).wf(),
            final(self)@ == spec_parse_object_member_value(old(self)@).0,
            tok_matches(r, spec_parse_object_member_value(old(self)@).1),
            token_text_in(r, old(self)@.source),
    {
        let nc = self.next_clean();
        let ich = match nc {
            Err(e) => {
                return Err(e);
            },
            Ok(None) => {
                return Err(SyntaxError::InvalidMemberValueDelimiter);
            },
            Ok(Some(p)) => p,
        };
        let (_i, ch) = ich;
        if ch == ':' {
        } else if ch == '=' {
            let c2 = self.advance();
            match c2 {
                None => {
                    return Err(SyntaxError::InvalidMemberValueDelimiter);
                },
                Some((j, d)) => {
                    if d == '>' {
                    } else {
                        self.back((j, d));
                    }
                },
            }
        } else {
            return Err(SyntaxError::InvalidMemberValueDelimiter);
        }
        self.state_stack.push(ReaderState::ParseObjectMemberNext);
        self.parse()
    }

    /// After a member value: `,` or `;` leads to `}` or the next member's
    /// name; a direct `}` closes the object.
    fn parse_object_member_next(&mut self) -> (r: Result<JsonToken<'s>, SyntaxError>)
        requires
            old(self).wf(),
        ensures
            final(self).wf(),
            final(self)@ == spec_parse_object_member_next(old(self)@).0,
            tok_matches(r, spec_parse_object_member_next(old(self)@).1),
            token_text_in(r, old(self)@.source),
    {
        let nc = self.next_clean();
        let ich = match nc {
            Err(e) => {
                return Err(e);
            },
            Ok(None) => {
                return Err(SyntaxError::UnterminatedObject);
            },
            Ok(Some(p)) => p,
        };
        let (i, ch) = ich;
        if ch == ';' || ch == ',' {
            let nc2 = self.next_clean();
            let ich2 = match nc2 {
                Err(e) => {
                    return Err(e);
                },
                Ok(None) => {
                    return Err(SyntaxError::UnterminatedObject);
                },
                Ok(Some(p)) => p,
            };
            let (j, d) = ich2;
            if d == '}' {
                let text = self.source.substring_char(j, j + 1);
                let t = JsonToken::new(JsonTokenKind::ObjectEnd, text);
                proof {
                    assert(0 <= j as int <= j + 1 <= self@.source.len() && t@.text
                        == self@.source.subrange(j as int, j + 1));
                }
                Ok(t)
            } else {
                self.back((j, d));
                self.state_stack.push(ReaderState::ParseObjectMemberValue);
                self.parse()
            }
        } else if ch == '}' {
            let text = self.source.substring_char(i, i + 1);
            let t = JsonToken::new(JsonTokenKind::ObjectEnd, text);
            proof {
                assert(0 <= i as int <= i + 1 <= self@.source.len() && t@.text
                    == self@.source.subrange(i as int, i + 1));
            }
            Ok(t)
        } else {
            Err(SyntaxError::UnterminatedObject)
        }
    }

    /// After `[`: a `]` closes the array; otherwise read the first element.
    fn parse_array_first(&mut self) -> (r: Result<JsonToken<'s>, SyntaxError>)
        requires
            old(self).wf(),
        ensures
            final(self).wf(),
            final(self)@ == spec_parse_array_first(old(self)@).0,
            tok_matches(r, spec_parse_array_first(old(self)@).1),
            token_text_in(r, old(self)@.source),
    {
        let nc = self.next_clean();
        let ich = match nc {
            Err(e) => {
                return Err(e);
            },
            Ok(None) => {
                return Err(SyntaxError::UnterminatedArray);
            },
            Ok(Some(p)) => p,
        };
        let (i, ch) = ich;
        if ch == ']' {
            let text = self.source.substring_char(i, i + 1);
            let t = JsonToken::new(JsonTokenKind::ArrayEnd, text);
            proof {
                assert(0 <= i as int <= i + 1 <= self@.source.len() && t@.text
                    == self@.source.subrange(i as int, i + 1));
            }
            Ok(t)
        } else {
            self.back((i, ch));
            self.state_stack.push(ReaderState::ParseArrayNext);
            self.parse()
        }
    }

    /// After an array element: `,` or `;` leads to `]` or the next
    /// element; a direct `]` closes the array.
    fn parse_array_next(&mut self) -> (r: Result<JsonToken<'s>, SyntaxError>)
        requires
            old(self).wf(),
        ensures
            final(self).wf(),
            final(self)@ == spec_parse_array_next(old(self)@).0,
            tok_matches(r, spec_parse_array_next(old(self)@).1),
            token_text_in(r, old(self)@.source),
    {
        let nc = self.next_clean();
        let ich = match nc {
            Err(e) => {
                return Err(e);
            },
            Ok(None) => {
                return Err(SyntaxError::UnterminatedArray);
            },
            Ok(Some(p)) => p,
        };
        let (i, ch) = ich;
        if ch == ',' || ch == ';' {
            let nc2 = self.next_clean();
            let ich2 = match nc2 {
                Err(e) => {
                    return Err(e);
                },
                Ok(None) => {
                    return Err(SyntaxError::UnterminatedArray);
                },
                Ok(Some(p)) => p,
            };
            let (j, d) = ich2;
            if d == ']' {
                let text = self.source.substring_char(j, j + 1);
                let t = JsonToken::new(JsonTokenKind::ArrayEnd, text);
                proof {
                    assert(0 <= j as int <= j + 1 <= self@.source.len() && t@.text
                        == self@.source.subrange(j as int, j + 1));
                }
                Ok(t)
            } else {
                self.back((j, d));
                self.state_stack.push(ReaderState::ParseArrayNext);
                self.parse()
            }
        } else if ch == ']' {
            let text = self.source.substring_char(i, i + 1);
            let t = JsonToken::new(JsonTokenKind::ArrayEnd, text);
            proof {
                assert(0 <= i as int <= i + 1 <= self@.source.len() && t@.text
                    == self@.source.subrange(i as int, i + 1));
            }
            Ok(t)
        } else {
            Err(SyntaxError::UnterminatedArray)
        }
    }

    /// Produce the next token, or `None` once every pending continuation
    /// has been consumed. The new state and the result are exactly
    /// [`spec_step`] of the old state, and every emitted token's text is an
    /// exact, contiguous substring of the source buffer.
    pub fn next_token(&mut self) -> (r: Option<Result<JsonToken<'s>, SyntaxError>>)
        requires
            old(self).wf(),
        ensures
            final(self).wf(),
            final(self)@ == spec_step(old(self)@).0,
            match (r, spec_step(old(self)@).1) {
                (Option::None, Option::None) => true,
                (Option::Some(rr), Option::Some(sr)) => tok_matches(rr, sr) && token_text_in(
                    rr,
                    old(self)@.source,
                ),
                _ => false,
            },
    {
        let st = match self.state_stack.pop() {
            None => {
                return None;
            },
            Some(st) => st,
        };
        proof {
            assert(self@.stack =~= old(self)@.stack.drop_last());
            assert(self@ =~= (Model { stack: old(self)@.stack.drop_last(), ..old(self)@ }));
        }
        let res = match st {
            ReaderState::Parse => self.parse(),
            ReaderState::ParseArrayFirst => self.parse_array_first(),
            ReaderState::ParseArrayNext => self.parse_array_next(),
            ReaderState::ParseObjectMemberName => self.parse_object_member_name(),
            ReaderState::ParseObjectMemberValue => self.parse_object_member_value(),
            ReaderState::ParseObjectMemberNext => self.parse_object_member_next(),
        };
        Some(res)
    }
}

} // verus!

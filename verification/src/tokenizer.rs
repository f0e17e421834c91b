//! The tokenizer: a forward-only cursor over one line of text that produces
//! number and operator tokens, skipping whitespace, with one byte of
//! lookahead to tell `**` from `*`.
//!
//! The mathematical model is `token_stream`: the sequence of tokens that a
//! byte sequence denotes. An unrecognized byte, or a run of digits and dots
//! that is not a well-formed numeric literal, ends the stream silently: the
//! stream is empty from that point on, indistinguishable from end of input.

use vstd::prelude::*;

use crate::token::{OperatorType, Token, TokenType, TokenView};
use vstd::string::StringSliceAdditionalSpecFns;

verus! {

/// The byte values the tokenizer singles out: ASCII whitespace,
/// `+` (43), `-` (45), `*` (42), `/` (47), `.` (46), and the digits (48-57).
pub open spec fn is_whitespace_byte(c: u8) -> bool {
    c == 32 || (9 <= c && c <= 13)
}

pub open spec fn is_digit_byte(c: u8) -> bool {
    48 <= c && c <= 57
}

/// A byte that may stand in a numeric literal: a digit or a dot.
pub open spec fn is_number_byte(c: u8) -> bool {
    is_digit_byte(c) || c == 46
}

fn whitespace_byte(c: u8) -> (r: bool)
    ensures
        r == is_whitespace_byte(c),
{
    c == 32 || (9 <= c && c <= 13)
}

fn digit_byte(c: u8) -> (r: bool)
    ensures
        r == is_digit_byte(c),
{
    48 <= c && c <= 57
}

fn number_byte(c: u8) -> (r: bool)
    ensures
        r == is_number_byte(c),
{
    (48 <= c && c <= 57) || c == 46
}

/// The length of the maximal prefix of `s` made of digits and dots.
pub open spec fn number_run_len(s: Seq<u8>) -> nat
    decreases s.len(),
{
    if s.len() > 0 && is_number_byte(s[0]) {
        (1 + number_run_len(s.drop_first())) as nat
    } else {
        0
    }
}

pub proof fn lemma_number_run(s: Seq<u8>)
    ensures
        number_run_len(s) <= s.len(),
        forall|k: int| 0 <= k < number_run_len(s) ==> is_number_byte(s[k]),
        number_run_len(s) < s.len() ==> !is_number_byte(s[number_run_len(s) as int]),
    decreases s.len(),
{
    if s.len() > 0 && is_number_byte(s[0]) {
        lemma_number_run(s.drop_first());
        assert forall|k: int| 0 <= k < number_run_len(s) implies is_number_byte(s[k]) by {
            if k > 0 {
                assert(is_number_byte(s.drop_first()[k - 1]));
            }
        }
    }
}

/// The maximal digit-and-dot prefix is the unique cut `m` with number bytes
/// before it and a non-number byte (or the end) at it.
pub proof fn lemma_number_run_is(s: Seq<u8>, m: int)
    requires
        0 <= m <= s.len(),
        forall|k: int| 0 <= k < m ==> is_number_byte(s[k]),
        m < s.len() ==> !is_number_byte(s[m]),
    ensures
        number_run_len(s) == m,
    decreases m,
{
    if m == 0 {
    } else {
        assert(is_number_byte(s[0]));
        lemma_number_run_is(s.drop_first(), m - 1);
    }
}

/// How many dots a byte sequence holds.
pub open spec fn dot_count(s: Seq<u8>) -> nat
    decreases s.len(),
{
    if s.len() == 0 {
        0
    } else {
        dot_count(s.drop_last()) + if s.last() == 46 { 1nat } else { 0nat }
    }
}

pub open spec fn has_digit(s: Seq<u8>) -> bool {
    exists|k: int| 0 <= k < s.len() && is_digit_byte(s[k])
}

/// A run of digits and dots is a well-formed numeric literal exactly when it
/// has at least one digit and at most one dot: the success condition of
/// standard floating-point text parsing on such a run.
pub open spec fn valid_number_literal(s: Seq<u8>) -> bool {
    has_digit(s) && dot_count(s) <= 1
}

/// The token a single operator byte sequence denotes.
pub open spec fn op_token(op: OperatorType) -> TokenView {
    TokenView { kind: TokenType::Operator(op), literal: op.spec_symbol() }
}

/// The sequence of tokens a byte sequence denotes: skip whitespace; a digit
/// or dot starts a maximal digit-and-dot run, which must be a well-formed
/// numeric literal; `+ - /` are one-byte operators; `*` is `Power` when
/// followed by another `*`, else `Multiply`. Anything else ends the stream.
pub open spec fn token_stream(s: Seq<u8>) -> Seq<TokenView>
    decreases s.len(),
    via token_stream_decreases
{
    if s.len() == 0 {
        seq![]
    } else if is_whitespace_byte(s[0]) {
        token_stream(s.drop_first())
    } else if is_number_byte(s[0]) {
        let n = number_run_len(s) as int;
        if valid_number_literal(s.take(n)) {
            seq![TokenView { kind: TokenType::Number, literal: s.take(n) }] + token_stream(s.skip(n))
        } else {
            seq![]
        }
    } else if s[0] == 43 {
        seq![op_token(OperatorType::Add)] + token_stream(s.drop_first())
    } else if s[0] == 45 {
        seq![op_token(OperatorType::Subtract)] + token_stream(s.drop_first())
    } else if s[0] == 47 {
        seq![op_token(OperatorType::Divide)] + token_stream(s.drop_first())
    } else if s[0] == 42 {
        if s.len() >= 2 && s[1] == 42 {
            seq![op_token(OperatorType::Power)] + token_stream(s.skip(2))
        } else {
            seq![op_token(OperatorType::Multiply)] + token_stream(s.drop_first())
        }
    } else {
        seq![]
    }
}

#[via_fn]
proof fn token_stream_decreases(s: Seq<u8>) {
    if s.len() > 0 && !is_whitespace_byte(s[0]) && is_number_byte(s[0]) {
        lemma_number_run(s);
    }
}

/// A forward-only cursor over one line of text. The cursor only advances;
/// re-tokenizing the line takes a fresh `Tokenizer` over the same text.
pub struct Tokenizer {
    pub input: Vec<u8>,
    pub index: usize,
}

impl Tokenizer {
    pub open spec fn wf(&self) -> bool {
        self.index <= self.input.len()
    }

    /// The bytes the cursor has not yet consumed.
    pub open spec fn rest(&self) -> Seq<u8> {
        self.input@.skip(self.index as int)
    }

    /// The tokens still to come.
    pub open spec fn stream(&self) -> Seq<TokenView> {
        token_stream(self.rest())
    }

    /// A fresh cursor over `source`, at its start.
    pub fn tokenize(source: &str) -> (t: Tokenizer)
        ensures
            t.wf(),
            t.input@ == source.spec_bytes(),
            t.index == 0,
            t.stream() == token_stream(source.spec_bytes()),
    {
        let t = Tokenizer { input: vstd::slice::slice_to_vec(source.as_bytes()), index: 0 };
        proof {
            assert(t.rest() =~= t.input@);
        }
        t
    }

    /// The byte one past the cursor, if any: the lookahead that tells `**`
    /// from `*` while the cursor still stands on the first `*`.
    pub fn peek(&self) -> (r: Option<u8>)
        requires
            self.wf(),
        ensures
            r == if self.index + 1 < self.input@.len() {
                Some(self.input@[self.index + 1])
            } else {
                Option::<u8>::None
            },
    {
        if self.index < self.input.len() && self.index + 1 < self.input.len() {
            Some(self.input[self.index + 1])
        } else {
            None
        }
    }

    /// Produce the next token, advancing the cursor past it and any
    /// whitespace before it. `None` means the stream is over: end of input,
    /// an unrecognized byte, or a malformed numeric literal; the stream then
    /// stays empty on every later call.
    pub fn next(&mut self) -> (r: Option<Token>)
        requires
            old(self).wf(),
        ensures
            final(self).wf(),
            final(self).input@ == old(self).input@,
            old(self).index <= final(self).index,
            match r {
                Some(t) => {
                    &&& old(self).stream().len() > 0
                    &&& t@ == old(self).stream()[0]
                    &&& final(self).stream() == old(self).stream().drop_first()
                    &&& old(self).index <= t.start
                    &&& t.start <= t.end
                    &&& t.end == final(self).index
                    &&& t.literal@.len() == t.end - t.start
                    &&& t.literal@ == final(self).input@.subrange(t.start as int, t.end as int)
                    &&& forall|k: int|
                        old(self).index <= k < t.start ==> is_whitespace_byte(
                            final(self).input@[k],
                        )
                },
                None => old(self).stream().len() == 0 && final(self).stream().len() == 0,
            },
    {
        // Skip whitespace.
        while self.index < self.input.len() && whitespace_byte(self.input[self.index])
            invariant
                self.wf(),
                self.input@ == old(self).input@,
                old(self).index <= self.index,
                token_stream(self.rest()) == token_stream(old(self).rest()),
                forall|k: int|
                    old(self).index <= k < self.index ==> is_whitespace_byte(self.input@[k]),
            decreases self.input.len() - self.index,
        {
            proof {
                assert(self.rest().drop_first() =~= self.input@.skip(self.index + 1));
            }
            self.index = self.index + 1;
        }

        if self.index >= self.input.len() {
            proof {
                assert(self.rest() =~= Seq::<u8>::empty());
            }
            return None;
        }

        let ghost skipped = self.rest();
        let start = self.index;
        let c = self.input[start];

        if number_byte(c) {
            // Scan the maximal run of digits and dots, checking along the way
            // that it holds at least one digit and at most one dot.
            let mut j = start;
            let mut saw_digit = false;
            let mut dots: usize = 0;
            while j < self.input.len() && number_byte(self.input[j])
                invariant
                    start <= j <= self.input.len(),
                    self.input@ == old(self).input@,
                    forall|k: int| start <= k < j ==> is_number_byte(self.input@[k]),
                    saw_digit == has_digit(self.input@.subrange(start as int, j as int)),
                    dots == dot_count(self.input@.subrange(start as int, j as int)),
                    dots <= j - start,
                decreases self.input.len() - j,
            {
                proof {
                    let pre = self.input@.subrange(start as int, j as int);
                    let post = self.input@.subrange(start as int, j + 1int);
                    assert(post.drop_last() =~= pre);
                    assert(post.last() == self.input@[j as int]);
                    if is_digit_byte(self.input@[j as int]) {
                        assert(has_digit(post)) by {
                            assert(is_digit_byte(post[j - start]));
                        }
                    }
                    if has_digit(pre) {
                        let w = choose|k: int| 0 <= k < pre.len() && is_digit_byte(pre[k]);
                        assert(is_digit_byte(post[w]));
                    }
                    if !has_digit(pre) && !is_digit_byte(self.input@[j as int]) {
                        assert forall|k: int| 0 <= k < post.len() implies !is_digit_byte(post[k]) by {
                            if k < pre.len() {
                                assert(!is_digit_byte(pre[k]));
                            }
                        }
                    }
                }
                if digit_byte(self.input[j]) {
                    saw_digit = true;
                } else {
                    dots = dots + 1;
                }
                j = j + 1;
            }
            let ghost run = number_run_len(skipped);
            let ghost lit = skipped.take(run as int);
            proof {
                assert forall|k: int| 0 <= k < j - start implies is_number_byte(skipped[k]) by {
                    assert(is_number_byte(self.input@[start + k]));
                }
                if j < self.input.len() {
                    assert(!is_number_byte(skipped[j - start]));
                }
                lemma_number_run_is(skipped, j - start);
                assert(lit =~= self.input@.subrange(start as int, j as int));
            }
            if !(saw_digit && dots <= 1) {
                // The run is not a well-formed numeric literal: the stream
                // ends here; the cursor stays at the run, so it stays ended.
                return None;
            }
            let literal = vstd::slice::slice_to_vec(
                vstd::slice::slice_subrange(self.input.as_slice(), start, j),
            );
            self.index = j;
            let t = Token { type_: TokenType::Number, start, end: j, literal };
            proof {
                assert(self.rest() =~= skipped.skip(run as int));
                assert(token_stream(skipped) == seq![
                    TokenView { kind: TokenType::Number, literal: lit },
                ] + token_stream(skipped.skip(run as int)));
                assert(t@ == token_stream(skipped)[0]);
                assert(self.stream() =~= token_stream(skipped).drop_first());
            }
            return Some(t);
        }

        let type_: TokenType;
        if c == 43 {
            type_ = TokenType::Operator(OperatorType::Add);
            self.index = self.index + 1;
        } else if c == 45 {
            type_ = TokenType::Operator(OperatorType::Subtract);
            self.index = self.index + 1;
        } else if c == 47 {
            type_ = TokenType::Operator(OperatorType::Divide);
            self.index = self.index + 1;
        } else if c == 42 {
            let two = match self.peek() {
                Some(p) => p == 42,
                None => false,
            };
            if two {
                type_ = TokenType::Operator(OperatorType::Power);
                self.index = self.index + 2;
            } else {
                type_ = TokenType::Operator(OperatorType::Multiply);
                self.index = self.index + 1;
            }
        } else {
            // An unrecognized byte ends the stream; the cursor stays on it,
            // so the stream stays ended.
            return None;
        }

        let literal = vstd::slice::slice_to_vec(
            vstd::slice::slice_subrange(self.input.as_slice(), start, self.index),
        );
        let t = Token { type_, start, end: self.index, literal };
        proof {
            let op = type_->Operator_0;
            assert(self.rest() =~= skipped.skip(self.index - start));
            assert(t.literal@ =~= op.spec_symbol());
            assert(token_stream(skipped) == seq![op_token(op)] + token_stream(
                skipped.skip(self.index - start),
            )) by {
                assert(skipped.drop_first() =~= skipped.skip(1));
            }
            assert(t@ == token_stream(skipped)[0]);
            assert(self.stream() =~= token_stream(skipped).drop_first());
        }
        Some(t)
    }
}

} // verus!

//! The parser: consumes a tokenizer's stream through a one-token lookahead
//! buffer and builds an expression tree according to the grammar
//!
//! ```text
//! expression := term (("+" | "-") term)*
//! term       := exponent (("*" | "/") exponent)*
//! exponent   := factor ("**" factor)*
//! factor     := NUMBER
//! ```
//!
//! Precedence is encoded by the nesting (`exponent` binds tightest), and the
//! left-fold loop of each tier makes every operator left-associative,
//! including `**`: `2 ** 3 ** 2` parses as `(2 ** 3) ** 2`.
//!
//! The mathematical model is the `spec_expression` family below: each
//! parsing method returns exactly what its spec counterpart says for the
//! tokens that remained before the call.

use vstd::prelude::*;
use vstd::string::StringExecFns;

use crate::token::{OperatorType, Token, TokenType, TokenView};
use crate::tokenizer::Tokenizer;

verus! {

/// An expression tree: a numeric literal (its text, to be read in the
/// caller's numeric domain), or an operator applied to two subtrees.
#[derive(PartialEq, Debug)]
pub enum Expr {
    Number(Vec<u8>),
    BinaryOp { left: Box<Expr>, op: OperatorType, right: Box<Expr> },
}

/// The mathematical content of an expression tree.
pub ghost enum ExprView {
    Number(Seq<u8>),
    BinaryOp(Box<ExprView>, OperatorType, Box<ExprView>),
}

/// The mathematical content of an expression tree.
pub open spec fn expr_view(e: Expr) -> ExprView
    decreases e,
{
    match e {
        Expr::Number(lit) => ExprView::Number(lit@),
        Expr::BinaryOp { left, op, right } => ExprView::BinaryOp(
            Box::new(expr_view(*left)),
            op,
            Box::new(expr_view(*right)),
        ),
    }
}

impl View for Expr {
    type V = ExprView;

    open spec fn view(&self) -> ExprView {
        expr_view(*self)
    }
}

/// Why a parse failed: a grammar position required one token class but found
/// another, a number was required where an operator stood, or the token
/// stream ended while the grammar still required a token.
#[derive(PartialEq, Eq, Structural, Clone, Copy, Debug)]
pub enum ParseError {
    UnexpectedToken,
    ExpectedNumber(TokenType),
    UnexpectedEndOfInput,
}

impl ParseError {
    /// The error's human-readable description.
    pub open spec fn message_view(self) -> Seq<char> {
        match self {
            ParseError::UnexpectedToken => "unexpected token"@,
            ParseError::ExpectedNumber(t) => "expected number, got "@ + t.describe_view(),
            ParseError::UnexpectedEndOfInput => "unexpected end of input"@,
        }
    }

    /// The error's human-readable description.
    pub fn message(&self) -> (r: String)
        ensures
            r@ == self.message_view(),
    {
        match self {
            ParseError::UnexpectedToken => "unexpected token".to_owned(),
            ParseError::ExpectedNumber(t) => {
                let mut s = "expected number, got ".to_owned();
                let d = t.describe();
                s.append(d.as_str());
                s
            },
            ParseError::UnexpectedEndOfInput => "unexpected end of input".to_owned(),
        }
    }
}

/// What one grammar rule does to a token sequence: parse a tree and leave
/// the rest, or fail.
pub ghost enum Outcome {
    Parsed(ExprView, Seq<TokenView>),
    Failed(ParseError),
}

/// `factor := NUMBER`: one token, which must be a number.
pub open spec fn spec_factor(ts: Seq<TokenView>) -> Outcome {
    if ts.len() == 0 {
        Outcome::Failed(ParseError::UnexpectedEndOfInput)
    } else {
        match ts[0].kind {
            TokenType::Number => Outcome::Parsed(ExprView::Number(ts[0].literal), ts.drop_first()),
            TokenType::Operator(_) => Outcome::Failed(ParseError::ExpectedNumber(ts[0].kind)),
        }
    }
}

/// The left fold of `("**" factor)*` onto an already-parsed left operand.
pub open spec fn spec_exponent_rest(acc: ExprView, ts: Seq<TokenView>) -> Outcome
    decreases ts.len(),
{
    if ts.len() > 0 && ts[0].kind == TokenType::Operator(OperatorType::Power) {
        match spec_factor(ts.drop_first()) {
            Outcome::Parsed(right, rest) => spec_exponent_rest(
                ExprView::BinaryOp(Box::new(acc), OperatorType::Power, Box::new(right)),
                rest,
            ),
            failed => failed,
        }
    } else {
        Outcome::Parsed(acc, ts)
    }
}

/// `exponent := factor ("**" factor)*`.
pub open spec fn spec_exponent(ts: Seq<TokenView>) -> Outcome {
    match spec_factor(ts) {
        Outcome::Parsed(e, rest) => spec_exponent_rest(e, rest),
        failed => failed,
    }
}

pub proof fn lemma_exponent_rest_consumes(acc: ExprView, ts: Seq<TokenView>)
    ensures
        spec_exponent_rest(acc, ts) matches Outcome::Parsed(_, rest) ==> rest.len() <= ts.len(),
    decreases ts.len(),
{
    if ts.len() > 0 && ts[0].kind == TokenType::Operator(OperatorType::Power) {
        match spec_factor(ts.drop_first()) {
            Outcome::Parsed(right, rest) => {
                lemma_exponent_rest_consumes(
                    ExprView::BinaryOp(Box::new(acc), OperatorType::Power, Box::new(right)),
                    rest,
                );
            },
            _ => {},
        }
    }
}

/// A successful `exponent` consumes at least one token.
pub proof fn lemma_exponent_consumes(ts: Seq<TokenView>)
    ensures
        spec_exponent(ts) matches Outcome::Parsed(_, rest) ==> rest.len() < ts.len(),
{
    match spec_factor(ts) {
        Outcome::Parsed(e, rest) => {
            lemma_exponent_rest_consumes(e, rest);
        },
        _ => {},
    }
}

/// The left fold of `(("*" | "/") exponent)*` onto an already-parsed left
/// operand.
pub open spec fn spec_term_rest(acc: ExprView, ts: Seq<TokenView>) -> Outcome
    decreases ts.len(),
    via spec_term_rest_decreases
{
    if ts.len() > 0 && (ts[0].kind == TokenType::Operator(OperatorType::Multiply) || ts[0].kind
        == TokenType::Operator(OperatorType::Divide)) {
        match spec_exponent(ts.drop_first()) {
            Outcome::Parsed(right, rest) => spec_term_rest(
                ExprView::BinaryOp(Box::new(acc), ts[0].kind->Operator_0, Box::new(right)),
                rest,
            ),
            failed => failed,
        }
    } else {
        Outcome::Parsed(acc, ts)
    }
}

#[via_fn]
proof fn spec_term_rest_decreases(acc: ExprView, ts: Seq<TokenView>) {
    if ts.len() > 0 {
        lemma_exponent_consumes(ts.drop_first());
    }
}

/// `term := exponent (("*" | "/") exponent)*`.
pub open spec fn spec_term(ts: Seq<TokenView>) -> Outcome {
    match spec_exponent(ts) {
        Outcome::Parsed(e, rest) => spec_term_rest(e, rest),
        failed => failed,
    }
}

pub proof fn lemma_term_rest_consumes(acc: ExprView, ts: Seq<TokenView>)
    ensures
        spec_term_rest(acc, ts) matches Outcome::Parsed(_, rest) ==> rest.len() <= ts.len(),
    decreases ts.len(),
{
    if ts.len() > 0 && (ts[0].kind == TokenType::Operator(OperatorType::Multiply) || ts[0].kind
        == TokenType::Operator(OperatorType::Divide)) {
        lemma_exponent_consumes(ts.drop_first());
        match spec_exponent(ts.drop_first()) {
            Outcome::Parsed(right, rest) => {
                lemma_term_rest_consumes(
                    ExprView::BinaryOp(Box::new(acc), ts[0].kind->Operator_0, Box::new(right)),
                    rest,
                );
            },
            _ => {},
        }
    }
}

/// A successful `term` consumes at least one token.
pub proof fn lemma_term_consumes(ts: Seq<TokenView>)
    ensures
        spec_term(ts) matches Outcome::Parsed(_, rest) ==> rest.len() < ts.len(),
{
    lemma_exponent_consumes(ts);
    match spec_exponent(ts) {
        Outcome::Parsed(e, rest) => {
            lemma_term_rest_consumes(e, rest);
        },
        _ => {},
    }
}

/// The left fold of `(("+" | "-") term)*` onto an already-parsed left
/// operand.
pub open spec fn spec_expression_rest(acc: ExprView, ts: Seq<TokenView>) -> Outcome
    decreases ts.len(),
    via spec_expression_rest_decreases
{
    if ts.len() > 0 && (ts[0].kind == TokenType::Operator(OperatorType::Add) || ts[0].kind
        == TokenType::Operator(OperatorType::Subtract)) {
        match spec_term(ts.drop_first()) {
            Outcome::Parsed(right, rest) => spec_expression_rest(
                ExprView::BinaryOp(Box::new(acc), ts[0].kind->Operator_0, Box::new(right)),
                rest,
            ),
            failed => failed,
        }
    } else {
        Outcome::Parsed(acc, ts)
    }
}

#[via_fn]
proof fn spec_expression_rest_decreases(acc: ExprView, ts: Seq<TokenView>) {
    if ts.len() > 0 {
        lemma_term_consumes(ts.drop_first());
    }
}

/// `expression := term (("+" | "-") term)*`: the grammar's entry point.
/// Parsing stops at the first token no tier accepts; it does not demand that
/// the whole stream be consumed.
pub open spec fn spec_expression(ts: Seq<TokenView>) -> Outcome {
    match spec_term(ts) {
        Outcome::Parsed(e, rest) => spec_expression_rest(e, rest),
        failed => failed,
    }
}

/// Wraps a tokenizer behind a one-token lookahead buffer and walks the
/// grammar's three precedence tiers. A parser serves exactly one line.
pub struct Parser {
    pub tokenizer: Tokenizer,
    pub lookahead: Option<Token>,
}

impl Parser {
    pub open spec fn wf(&self) -> bool {
        self.tokenizer.wf()
    }

    /// The tokens not yet consumed: the lookahead buffer, then the
    /// tokenizer's stream.
    pub open spec fn remaining(&self) -> Seq<TokenView> {
        match self.lookahead {
            Some(t) => seq![t@] + self.tokenizer.stream(),
            None => self.tokenizer.stream(),
        }
    }

    /// A parser over `tokenizer`'s stream, with an empty lookahead buffer.
    pub fn new(tokenizer: Tokenizer) -> (p: Parser)
        requires
            tokenizer.wf(),
        ensures
            p.wf(),
            p.remaining() == tokenizer.stream(),
    {
        Parser { tokenizer, lookahead: None }
    }

    /// Fill the lookahead buffer from the tokenizer if it is empty.
    fn fill(&mut self)
        requires
            old(self).wf(),
        ensures
            final(self).wf(),
            final(self).remaining() == old(self).remaining(),
            final(self).lookahead is Some <==> final(self).remaining().len() > 0,
    {
        if self.lookahead.is_none() {
            let ghost before = self.tokenizer.stream();
            let t = self.tokenizer.next();
            self.lookahead = t;
            proof {
                if t is Some {
                    assert(seq![t->0@] + self.tokenizer.stream() =~= before);
                }
            }
        }
    }

    /// Consume and return the next token, if any.
    fn advance(&mut self) -> (r: Option<Token>)
        requires
            old(self).wf(),
        ensures
            final(self).wf(),
            match r {
                Some(t) => {
                    &&& old(self).remaining().len() > 0
                    &&& t@ == old(self).remaining()[0]
                    &&& final(self).remaining() == old(self).remaining().drop_first()
                },
                None => old(self).remaining().len() == 0 && final(self).remaining() == old(
                    self,
                ).remaining(),
            },
    {
        self.fill();
        let ghost rem = self.remaining();
        let r = self.lookahead.take();
        proof {
            if r is Some {
                assert((seq![r->0@] + self.tokenizer.stream()).drop_first()
                    =~= self.tokenizer.stream());
            }
        }
        r
    }

    /// Look at the next token; if it satisfies `check`, consume and return
    /// it, else leave the stream untouched and return `None` — which is not
    /// an error.
    pub fn accept<F: Fn(TokenType) -> bool>(&mut self, check: F) -> (r: Option<Token>)
        requires
            old(self).wf(),
            forall|t: TokenType| #[trigger] call_requires(check, (t,)),
        ensures
            final(self).wf(),
            match r {
                Some(t) => {
                    &&& old(self).remaining().len() > 0
                    &&& t@ == old(self).remaining()[0]
                    &&& final(self).remaining() == old(self).remaining().drop_first()
                    &&& call_ensures(check, (t.type_,), true)
                },
                None => {
                    &&& final(self).remaining() == old(self).remaining()
                    &&& old(self).remaining().len() > 0 ==> call_ensures(
                        check,
                        (old(self).remaining()[0].kind,),
                        false,
                    )
                },
            },
    {
        self.fill();
        let matched = match &self.lookahead {
            Some(t) => check(t.type_),
            None => false,
        };
        if matched {
            let r = self.lookahead.take();
            proof {
                if r is Some {
                    assert((seq![r->0@] + self.tokenizer.stream()).drop_first()
                        =~= self.tokenizer.stream());
                }
            }
            r
        } else {
            None
        }
    }

    /// Like `accept`, but failing to match is an `UnexpectedToken` error.
    pub fn except<F: Fn(TokenType) -> bool>(&mut self, check: F) -> (r: Result<Token, ParseError>)
        requires
            old(self).wf(),
            forall|t: TokenType| #[trigger] call_requires(check, (t,)),
        ensures
            final(self).wf(),
            match r {
                Ok(t) => {
                    &&& old(self).remaining().len() > 0
                    &&& t@ == old(self).remaining()[0]
                    &&& final(self).remaining() == old(self).remaining().drop_first()
                    &&& call_ensures(check, (t.type_,), true)
                },
                Err(e) => {
                    &&& e == ParseError::UnexpectedToken
                    &&& final(self).remaining() == old(self).remaining()
                    &&& old(self).remaining().len() > 0 ==> call_ensures(
                        check,
                        (old(self).remaining()[0].kind,),
                        false,
                    )
                },
            },
    {
        match self.accept(check) {
            Some(t) => Ok(t),
            None => Err(ParseError::UnexpectedToken),
        }
    }

    /// `factor := NUMBER`: consume one token, which must be a number; an
    /// operator there, or an exhausted stream, is a parse error.
    pub fn factor(&mut self) -> (r: Result<Expr, ParseError>)
        requires
            old(self).wf(),
        ensures
            final(self).wf(),
            match spec_factor(old(self).remaining()) {
                Outcome::Parsed(ev, rest) => r matches Ok(e) && e@ == ev && final(self).remaining()
                    == rest,
                Outcome::Failed(pe) => r matches Err(p) && p == pe && final(self).remaining() == (
                if old(self).remaining().len() == 0 {
                    old(self).remaining()
                } else {
                    old(self).remaining().drop_first()
                }),
            },
    {
        match self.advance() {
            Some(t) => match t.type_ {
                TokenType::Number => Ok(Expr::Number(t.literal)),
                TokenType::Operator(_) => Err(ParseError::ExpectedNumber(t.type_)),
            },
            None => Err(ParseError::UnexpectedEndOfInput),
        }
    }

    /// `exponent := factor ("**" factor)*`, folded left.
    pub fn expo(&mut self) -> (r: Result<Expr, ParseError>)
        requires
            old(self).wf(),
        ensures
            final(self).wf(),
            match spec_exponent(old(self).remaining()) {
                Outcome::Parsed(ev, rest) => r matches Ok(e) && e@ == ev && final(self).remaining()
                    == rest,
                Outcome::Failed(pe) => r matches Err(p) && p == pe,
            },
    {
        let ghost start = self.remaining();
        let mut base = match self.factor() {
            Ok(e) => e,
            Err(p) => {
                return Err(p);
            },
        };
        loop
            invariant
                self.wf(),
                start == old(self).remaining(),
                spec_exponent(start) == spec_exponent_rest(base@, self.remaining()),
            decreases self.remaining().len(),
        {
            let is_power = |t: TokenType| -> (b: bool)
                ensures
                    b == (t == TokenType::Operator(OperatorType::Power)),
                {
                    matches!(t, TokenType::Operator(OperatorType::Power))
                };
            let op = self.accept(is_power);
            match op {
                Some(_) => {
                    let right = match self.factor() {
                        Ok(e) => e,
                        Err(p) => {
                            return Err(p);
                        },
                    };
                    base = Expr::BinaryOp {
                        left: Box::new(base),
                        op: OperatorType::Power,
                        right: Box::new(right),
                    };
                },
                None => {
                    return Ok(base);
                },
            }
        }
    }

    /// `term := exponent (("*" | "/") exponent)*`, folded left.
    pub fn term(&mut self) -> (r: Result<Expr, ParseError>)
        requires
            old(self).wf(),
        ensures
            final(self).wf(),
            match spec_term(old(self).remaining()) {
                Outcome::Parsed(ev, rest) => r matches Ok(e) && e@ == ev && final(self).remaining()
                    == rest,
                Outcome::Failed(pe) => r matches Err(p) && p == pe,
            },
    {
        let ghost start = self.remaining();
        let mut base = match self.expo() {
            Ok(e) => e,
            Err(p) => {
                return Err(p);
            },
        };
        loop
            invariant
                self.wf(),
                start == old(self).remaining(),
                spec_term(start) == spec_term_rest(base@, self.remaining()),
            decreases self.remaining().len(),
        {
            let is_mul_div = |t: TokenType| -> (b: bool)
                ensures
                    b == (t == TokenType::Operator(OperatorType::Multiply) || t
                        == TokenType::Operator(OperatorType::Divide)),
                {
                    matches!(
                        t,
                        TokenType::Operator(OperatorType::Multiply) | TokenType::Operator(
                            OperatorType::Divide,
                        )
                    )
                };
            let op = self.accept(is_mul_div);
            match op {
                Some(tok) => {
                    let o = match tok.type_ {
                        TokenType::Operator(o) => o,
                        TokenType::Number => vstd::pervasive::unreached(),
                    };
                    let ghost rem = self.remaining();
                    let right = match self.expo() {
                        Ok(e) => e,
                        Err(p) => {
                            return Err(p);
                        },
                    };
                    proof {
                        lemma_exponent_consumes(rem);
                    }
                    base = Expr::BinaryOp { left: Box::new(base), op: o, right: Box::new(right) };
                },
                None => {
                    return Ok(base);
                },
            }
        }
    }

    /// `expression := term (("+" | "-") term)*`, folded left: the grammar's
    /// entry point. Parsing stops at the first token no tier accepts; it
    /// does not demand that the whole stream be consumed.
    pub fn expression(&mut self) -> (r: Result<Expr, ParseError>)
        requires
            old(self).wf(),
        ensures
            final(self).wf(),
            match spec_expression(old(self).remaining()) {
                Outcome::Parsed(ev, rest) => r matches Ok(e) && e@ == ev && final(self).remaining()
                    == rest,
                Outcome::Failed(pe) => r matches Err(p) && p == pe,
            },
    {
        let ghost start = self.remaining();
        let mut base = match self.term() {
            Ok(e) => e,
            Err(p) => {
                return Err(p);
            },
        };
        loop
            invariant
                self.wf(),
                start == old(self).remaining(),
                spec_expression(start) == spec_expression_rest(base@, self.remaining()),
            decreases self.remaining().len(),
        {
            let is_add_sub = |t: TokenType| -> (b: bool)
                ensures
                    b == (t == TokenType::Operator(OperatorType::Add) || t
                        == TokenType::Operator(OperatorType::Subtract)),
                {
                    matches!(
                        t,
                        TokenType::Operator(OperatorType::Add) | TokenType::Operator(
                            OperatorType::Subtract,
                        )
                    )
                };
            let op = self.accept(is_add_sub);
            match op {
                Some(tok) => {
                    let o = match tok.type_ {
                        TokenType::Operator(o) => o,
                        TokenType::Number => vstd::pervasive::unreached(),
                    };
                    let ghost rem = self.remaining();
                    let right = match self.term() {
                        Ok(e) => e,
                        Err(p) => {
                            return Err(p);
                        },
                    };
                    proof {
                        lemma_term_consumes(rem);
                    }
                    base = Expr::BinaryOp { left: Box::new(base), op: o, right: Box::new(right) };
                },
                None => {
                    return Ok(base);
                },
            }
        }
    }
}

} // verus!

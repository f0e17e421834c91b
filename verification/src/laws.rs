//! Laws the tokenizer and parser obey, beyond the contracts of the single
//! functions: every token sequence of the grammar's shape parses without
//! error and is consumed whole, and the token stream of a line does not
//! change when whitespace is inserted between its tokens.

use vstd::prelude::*;

use crate::token::{OperatorType, TokenType, TokenView};
use crate::tokenizer::{
    is_number_byte, is_whitespace_byte, lemma_number_run, number_run_len, token_stream,
    valid_number_literal,
};
use crate::parser::{
    lemma_exponent_consumes, lemma_term_consumes, spec_exponent, spec_exponent_rest,
    spec_expression, spec_expression_rest, spec_factor, spec_term, spec_term_rest, ExprView,
    Outcome,
};

verus! {

/// A sequence of operator-number pairs: what the grammar allows after the
/// expression's first number, through to the end of the line.
pub open spec fn operator_number_pairs(ts: Seq<TokenView>) -> bool
    decreases ts.len(),
{
    ts.len() == 0 || {
        &&& ts[0].kind matches TokenType::Operator(_)
        &&& ts.len() >= 2
        &&& ts[1].kind == TokenType::Number
        &&& operator_number_pairs(ts.skip(2))
    }
}

/// A whole line of the grammar's shape: a number, then operator-number pairs
/// to the end. Every such line is an expression: each tier of the grammar
/// accepts whichever operators it owns, and the three tiers own all five.
pub open spec fn matches_grammar(ts: Seq<TokenView>) -> bool {
    ts.len() > 0 && ts[0].kind == TokenType::Number && operator_number_pairs(ts.drop_first())
}

proof fn lemma_exponent_rest_total(acc: ExprView, ts: Seq<TokenView>)
    requires
        operator_number_pairs(ts),
    ensures
        spec_exponent_rest(acc, ts) matches Outcome::Parsed(_, rest) && operator_number_pairs(rest)
            && (rest.len() > 0 ==> rest[0].kind != TokenType::Operator(OperatorType::Power)),
    decreases ts.len(),
{
    if ts.len() > 0 && ts[0].kind == TokenType::Operator(OperatorType::Power) {
        assert(ts.drop_first().drop_first() =~= ts.skip(2));
        match spec_factor(ts.drop_first()) {
            Outcome::Parsed(right, rest) => {
                lemma_exponent_rest_total(
                    ExprView::BinaryOp(Box::new(acc), OperatorType::Power, Box::new(right)),
                    rest,
                );
            },
            _ => {},
        }
    }
}

proof fn lemma_exponent_total(ts: Seq<TokenView>)
    requires
        ts.len() > 0,
        ts[0].kind == TokenType::Number,
        operator_number_pairs(ts.drop_first()),
    ensures
        spec_exponent(ts) matches Outcome::Parsed(_, rest) && operator_number_pairs(rest) && (
        rest.len() > 0 ==> rest[0].kind != TokenType::Operator(OperatorType::Power)),
{
    match spec_factor(ts) {
        Outcome::Parsed(e, rest) => {
            lemma_exponent_rest_total(e, rest);
        },
        _ => {},
    }
}

proof fn lemma_term_rest_total(acc: ExprView, ts: Seq<TokenView>)
    requires
        operator_number_pairs(ts),
        ts.len() > 0 ==> ts[0].kind != TokenType::Operator(OperatorType::Power),
    ensures
        spec_term_rest(acc, ts) matches Outcome::Parsed(_, rest) && operator_number_pairs(rest) && (
        rest.len() > 0 ==> rest[0].kind != TokenType::Operator(OperatorType::Power) && rest[0].kind
            != TokenType::Operator(OperatorType::Multiply) && rest[0].kind
            != TokenType::Operator(OperatorType::Divide)),
    decreases ts.len(),
{
    if ts.len() > 0 && (ts[0].kind == TokenType::Operator(OperatorType::Multiply) || ts[0].kind
        == TokenType::Operator(OperatorType::Divide)) {
        assert(ts.drop_first().drop_first() =~= ts.skip(2));
        lemma_exponent_total(ts.drop_first());
        lemma_exponent_consumes(ts.drop_first());
        match spec_exponent(ts.drop_first()) {
            Outcome::Parsed(right, rest) => {
                lemma_term_rest_total(
                    ExprView::BinaryOp(Box::new(acc), ts[0].kind->Operator_0, Box::new(right)),
                    rest,
                );
            },
            _ => {},
        }
    }
}

proof fn lemma_term_total(ts: Seq<TokenView>)
    requires
        ts.len() > 0,
        ts[0].kind == TokenType::Number,
        operator_number_pairs(ts.drop_first()),
    ensures
        spec_term(ts) matches Outcome::Parsed(_, rest) && operator_number_pairs(rest) && (rest.len()
            > 0 ==> rest[0].kind != TokenType::Operator(OperatorType::Power) && rest[0].kind
            != TokenType::Operator(OperatorType::Multiply) && rest[0].kind
            != TokenType::Operator(OperatorType::Divide)),
{
    lemma_exponent_total(ts);
    match spec_exponent(ts) {
        Outcome::Parsed(e, rest) => {
            lemma_term_rest_total(e, rest);
        },
        _ => {},
    }
}

proof fn lemma_expression_rest_total(acc: ExprView, ts: Seq<TokenView>)
    requires
        operator_number_pairs(ts),
        ts.len() > 0 ==> ts[0].kind != TokenType::Operator(OperatorType::Power) && ts[0].kind
            != TokenType::Operator(OperatorType::Multiply) && ts[0].kind
            != TokenType::Operator(OperatorType::Divide),
    ensures
        spec_expression_rest(acc, ts) matches Outcome::Parsed(_, rest) && rest.len() == 0,
    decreases ts.len(),
{
    if ts.len() > 0 && (ts[0].kind == TokenType::Operator(OperatorType::Add) || ts[0].kind
        == TokenType::Operator(OperatorType::Subtract)) {
        assert(ts.drop_first().drop_first() =~= ts.skip(2));
        lemma_term_total(ts.drop_first());
        lemma_term_consumes(ts.drop_first());
        match spec_term(ts.drop_first()) {
            Outcome::Parsed(right, rest) => {
                lemma_expression_rest_total(
                    ExprView::BinaryOp(Box::new(acc), ts[0].kind->Operator_0, Box::new(right)),
                    rest,
                );
            },
            _ => {},
        }
    } else {
        if ts.len() > 0 {
            // The head is an operator none of the three tiers left behind:
            // there is no such operator.
            match ts[0].kind {
                TokenType::Operator(op) => {
                    match op {
                        OperatorType::Add => assert(false),
                        OperatorType::Subtract => assert(false),
                        OperatorType::Multiply => assert(false),
                        OperatorType::Divide => assert(false),
                        OperatorType::Power => assert(false),
                    }
                },
                TokenType::Number => assert(false),
            }
        }
    }
}

/// Every token sequence of the grammar's shape — a number, then
/// operator-number pairs to the end — parses without error, and the parse
/// consumes the whole sequence. With `Parser::expression`'s contract this
/// says: on grammar-shaped input, parsing always terminates with a tree and
/// never with an error, whatever the numbers and operators are.
pub proof fn lemma_grammar_input_parses(ts: Seq<TokenView>)
    requires
        matches_grammar(ts),
    ensures
        spec_expression(ts) matches Outcome::Parsed(_, rest) && rest.len() == 0,
{
    lemma_term_total(ts);
    match spec_term(ts) {
        Outcome::Parsed(e, rest) => {
            lemma_expression_rest_total(e, rest);
        },
        _ => {},
    }
}

/// A single leading whitespace byte never changes a token stream.
pub proof fn lemma_leading_whitespace(w: u8, b: Seq<u8>)
    requires
        is_whitespace_byte(w),
    ensures
        token_stream(seq![w] + b) == token_stream(b),
{
    assert((seq![w] + b).drop_first() =~= b);
}

proof fn lemma_number_run_concat(x: Seq<u8>, y: Seq<u8>)
    ensures
        number_run_len(x + y) == if number_run_len(x) < x.len() {
            number_run_len(x)
        } else {
            x.len() + number_run_len(y)
        },
    decreases x.len(),
{
    lemma_number_run(x);
    if x.len() == 0 {
        assert(x + y =~= y);
    } else if is_number_byte(x[0]) {
        assert((x + y).drop_first() =~= x.drop_first() + y);
        lemma_number_run_concat(x.drop_first(), y);
    }
}

/// Inserting one whitespace byte between `a` and `b` does not change the
/// token stream, provided the insertion point does not split a token: not
/// inside a run of digits and dots, and not inside a `**`. Since parsing is
/// a function of the token stream alone (`spec_expression`), two lines with
/// the same tokens parse, and so evaluate, identically.
pub proof fn lemma_whitespace_insensitive(a: Seq<u8>, w: u8, b: Seq<u8>)
    requires
        is_whitespace_byte(w),
        a.len() > 0 && b.len() > 0 ==> !(is_number_byte(a.last()) && is_number_byte(b[0])),
        a.len() > 0 && b.len() > 0 ==> !(a.last() == 42 && b[0] == 42),
    ensures
        token_stream(a + seq![w] + b) == token_stream(a + b),
        spec_expression(token_stream(a + seq![w] + b)) == spec_expression(token_stream(a + b)),
    decreases a.len(),
{
    let s1 = a + seq![w] + b;
    let s2 = a + b;
    if a.len() == 0 {
        assert(s1 =~= seq![w] + b);
        assert(s2 =~= b);
        lemma_leading_whitespace(w, b);
    } else if is_whitespace_byte(a[0]) {
        assert(s1.drop_first() =~= a.drop_first() + seq![w] + b);
        assert(s2.drop_first() =~= a.drop_first() + b);
        lemma_whitespace_insensitive(a.drop_first(), w, b);
    } else if is_number_byte(a[0]) {
        lemma_number_run(a);
        let na = number_run_len(a) as int;
        assert(s1 =~= a + (seq![w] + b));
        lemma_number_run_concat(a, seq![w] + b);
        lemma_number_run_concat(a, b);
        if na < a.len() {
            assert(number_run_len(s1) == na);
            assert(number_run_len(s2) == na);
            assert(s1.take(na) =~= a.take(na));
            assert(s2.take(na) =~= a.take(na));
            if valid_number_literal(a.take(na)) {
                assert(s1.skip(na) =~= a.skip(na) + seq![w] + b);
                assert(s2.skip(na) =~= a.skip(na) + b);
                lemma_whitespace_insensitive(a.skip(na), w, b);
            }
        } else {
            assert(is_number_byte(a.last()));
            assert((seq![w] + b).len() > 0 && !is_number_byte((seq![w] + b)[0]));
            if b.len() > 0 {
                assert(!is_number_byte(b[0]));
            }
            assert(number_run_len(seq![w] + b) == 0);
            assert(number_run_len(b) == 0);
            assert(number_run_len(s1) == a.len());
            assert(number_run_len(s2) == a.len());
            assert(s1.take(a.len() as int) =~= a);
            assert(s2.take(a.len() as int) =~= a);
            if valid_number_literal(a) {
                assert(s1.skip(a.len() as int) =~= seq![w] + b);
                assert(s2.skip(a.len() as int) =~= b);
                lemma_leading_whitespace(w, b);
            }
        }
    } else if a[0] == 43 || a[0] == 45 || a[0] == 47 {
        assert(s1.drop_first() =~= a.drop_first() + seq![w] + b);
        assert(s2.drop_first() =~= a.drop_first() + b);
        lemma_whitespace_insensitive(a.drop_first(), w, b);
    } else if a[0] == 42 {
        if a.len() >= 2 {
            assert(s1[1] == a[1] && s2[1] == a[1]);
            if a[1] == 42 {
                assert(s1.skip(2) =~= a.skip(2) + seq![w] + b);
                assert(s2.skip(2) =~= a.skip(2) + b);
                lemma_whitespace_insensitive(a.skip(2), w, b);
            } else {
                assert(s1.drop_first() =~= a.drop_first() + seq![w] + b);
                assert(s2.drop_first() =~= a.drop_first() + b);
                lemma_whitespace_insensitive(a.drop_first(), w, b);
            }
        } else {
            // `a` is a lone `*`; by the requires, `b` does not start with
            // another, so both sides read a `Multiply`.
            assert(s1[1] == w && w != 42);
            if b.len() > 0 {
                assert(s2[1] == b[0] && b[0] != 42);
            }
            assert(s1.drop_first() =~= seq![w] + b);
            assert(s2.drop_first() =~= b);
            lemma_leading_whitespace(w, b);
        }
    } else {
        assert(token_stream(s1) =~= Seq::<TokenView>::empty());
        assert(token_stream(s2) =~= Seq::<TokenView>::empty());
    }
}

} // verus!

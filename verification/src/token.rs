//! Tokens: the classified units of a source line. A token is either a number
//! or an operator, and records the half-open byte span of the source line it
//! came from together with the exact bytes of that span.

use vstd::prelude::*;
use vstd::string::StringExecFns;

verus! {

/// The five arithmetic operators the calculator knows.
#[derive(PartialEq, Eq, Structural, Clone, Copy, Debug)]
pub enum OperatorType {
    Add,
    Subtract,
    Multiply,
    Divide,
    Power,
}

impl OperatorType {
    /// The bytes an operator token's literal holds: `+ - * / **`.
    pub open spec fn spec_symbol(self) -> Seq<u8> {
        match self {
            OperatorType::Add => seq![43u8],
            OperatorType::Subtract => seq![45u8],
            OperatorType::Multiply => seq![42u8],
            OperatorType::Divide => seq![47u8],
            OperatorType::Power => seq![42u8, 42u8],
        }
    }

    /// The operator's canonical display form, as text.
    pub open spec fn symbol_view(self) -> Seq<char> {
        match self {
            OperatorType::Add => "+"@,
            OperatorType::Subtract => "-"@,
            OperatorType::Multiply => "*"@,
            OperatorType::Divide => "/"@,
            OperatorType::Power => "**"@,
        }
    }

    /// The operator's canonical display form, as text.
    pub fn symbol(&self) -> (r: &'static str)
        ensures
            r@ == self.symbol_view(),
    {
        match self {
            OperatorType::Add => "+",
            OperatorType::Subtract => "-",
            OperatorType::Multiply => "*",
            OperatorType::Divide => "/",
            OperatorType::Power => "**",
        }
    }
}

/// The classification of a token: a numeric literal or an operator.
/// A number's value is carried as the token's literal text; turning that
/// text into a machine number is the caller's step.
#[derive(PartialEq, Eq, Structural, Clone, Copy, Debug)]
pub enum TokenType {
    Number,
    Operator(OperatorType),
}

impl TokenType {
    /// The classification's display form: `Number`, or `Operator(+)` and so
    /// on, with the operator's canonical symbol.
    pub open spec fn describe_view(self) -> Seq<char> {
        match self {
            TokenType::Number => "Number"@,
            TokenType::Operator(op) => "Operator("@ + op.symbol_view() + ")"@,
        }
    }

    /// The classification's display form, for diagnostics.
    pub fn describe(&self) -> (r: String)
        ensures
            r@ == self.describe_view(),
    {
        match self {
            TokenType::Number => "Number".to_owned(),
            TokenType::Operator(op) => {
                let mut s = "Operator(".to_owned();
                s.append(op.symbol());
                s.append(")");
                s
            },
        }
    }
}

/// The mathematical content of a token: its classification and the exact
/// bytes of the source line that produced it. Source offsets are stated
/// separately, where a token is produced.
pub ghost struct TokenView {
    pub kind: TokenType,
    pub literal: Seq<u8>,
}

/// One token of a source line: its classification, the half-open byte span
/// `start..end` it came from, and the exact bytes of that span.
#[derive(PartialEq, Clone, Debug)]
pub struct Token {
    pub type_: TokenType,
    pub start: usize,
    pub end: usize,
    pub literal: Vec<u8>,
}

impl View for Token {
    type V = TokenView;

    open spec fn view(&self) -> TokenView {
        TokenView { kind: self.type_, literal: self.literal@ }
    }
}

} // verus!

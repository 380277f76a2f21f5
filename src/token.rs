use vstd::prelude::*;
use crate::syntax::Syntax;

verus! {

/// A numeric literal as written: its radix and its digits, without the
/// radix prefix. A decimal literal may hold one `.` between digits.
#[derive(Clone, Debug)]
pub struct Numeral {
    pub radix: u32,
    pub digits: String,
}

/// The payload a token may carry.
#[derive(Clone, Debug)]
pub enum PossibleTokenValue {
    Float(Numeral),
    String(String),
    Char(char),
    Type(String),
    Boolean(bool),
    NoneValue,
}

/// A classified lexical unit with its optional payload.
#[derive(Clone, Debug)]
pub struct Token {
    pub syntax_type: Syntax,
    pub value: Option<PossibleTokenValue>,
}

/// The mathematical content of a payload.
pub enum ValueModel {
    Float { radix: u32, digits: Seq<char> },
    Text(Seq<char>),
    Char(char),
    Type(Seq<char>),
    Boolean(bool),
    NoneValue,
}

/// The mathematical content of a token.
pub struct TokenModel {
    pub syntax: Syntax,
    pub value: Option<ValueModel>,
}

impl View for PossibleTokenValue {
    type V = ValueModel;

    open spec fn view(&self) -> ValueModel {
        match self {
            PossibleTokenValue::Float(n) => ValueModel::Float { radix: n.radix, digits: n.digits@ },
            PossibleTokenValue::String(s) => ValueModel::Text(s@),
            PossibleTokenValue::Char(c) => ValueModel::Char(*c),
            PossibleTokenValue::Type(s) => ValueModel::Type(s@),
            PossibleTokenValue::Boolean(b) => ValueModel::Boolean(*b),
            PossibleTokenValue::NoneValue => ValueModel::NoneValue,
        }
    }
}

impl View for Token {
    type V = TokenModel;

    open spec fn view(&self) -> TokenModel {
        TokenModel {
            syntax: self.syntax_type,
            value: match self.value {
                Some(v) => Some(v@),
                None => None,
            },
        }
    }
}

/// The tokens' models, in order.
pub open spec fn tokens_view(ts: Seq<Token>) -> Seq<TokenModel> {
    ts.map_values(|t: Token| t@)
}

} // verus!

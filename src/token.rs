use vstd::prelude::*;

verus! {

/// One lexical unit of an arithmetic expression.
#[derive(Debug, Clone, PartialEq, Eq, PartialOrd, Ord, Hash)]
pub enum Token {
    /// A maximal run of decimal digits, kept as text.
    Literal(String),
    Add,
    Sub,
    Mul,
    Div,
    Pow,
    LParen,
    RParen,
    /// A single space; the tokenizer drops it from its output.
    Whitespace,
}

/// The mathematical model of a token: literal text as a character sequence.
pub enum TokenModel {
    Literal(Seq<char>),
    Add,
    Sub,
    Mul,
    Div,
    Pow,
    LParen,
    RParen,
    Whitespace,
}

impl View for Token {
    type V = TokenModel;

    open spec fn view(&self) -> TokenModel {
        match self {
            Token::Literal(s) => TokenModel::Literal(s@),
            Token::Add => TokenModel::Add,
            Token::Sub => TokenModel::Sub,
            Token::Mul => TokenModel::Mul,
            Token::Div => TokenModel::Div,
            Token::Pow => TokenModel::Pow,
            Token::LParen => TokenModel::LParen,
            Token::RParen => TokenModel::RParen,
            Token::Whitespace => TokenModel::Whitespace,
        }
    }
}

/// The models of a sequence of tokens.
pub open spec fn tokens_model(ts: Seq<Token>) -> Seq<TokenModel> {
    ts.map_values(|t: Token| t@)
}

} // verus!

use vstd::prelude::*;
use crate::token::{Token, TokenModel, tokens_model};

verus! {

/// A character that no token can start with.
#[derive(Debug, Clone, Copy, PartialEq, Eq)]
pub struct LexError {
    pub ch: char,
    pub at: usize,
}

pub open spec fn is_digit(c: char) -> bool {
    '0' <= c && c <= '9'
}

/// The number of consecutive digits of `s` from index `p` on.
pub open spec fn digit_run(s: Seq<char>, p: int) -> nat
    decreases s.len() - p,
{
    if 0 <= p < s.len() && is_digit(s[p]) {
        1 + digit_run(s, p + 1)
    } else {
        0
    }
}

pub proof fn lemma_digit_run_bound(s: Seq<char>, p: int)
    requires
        p <= s.len(),
    ensures
        digit_run(s, p) <= s.len() - p,
    decreases s.len() - p,
{
    if 0 <= p < s.len() && is_digit(s[p]) {
        lemma_digit_run_bound(s, p + 1);
    }
}

/// The token that starts at index `p` of `s` and the index just past it;
/// `None` at the end of the input.
pub open spec fn token_at(s: Seq<char>, p: int) -> Result<Option<(TokenModel, int)>, LexError> {
    if p >= s.len() {
        Ok(None)
    } else {
        let c = s[p];
        if is_digit(c) {
            let q = p + 1 + digit_run(s, p + 1);
            Ok(Some((TokenModel::Literal(s.subrange(p, q)), q)))
        } else if c == '+' {
            Ok(Some((TokenModel::Add, p + 1)))
        } else if c == '-' {
            Ok(Some((TokenModel::Sub, p + 1)))
        } else if c == '*' {
            Ok(Some((TokenModel::Mul, p + 1)))
        } else if c == '/' {
            Ok(Some((TokenModel::Div, p + 1)))
        } else if c == '^' {
            Ok(Some((TokenModel::Pow, p + 1)))
        } else if c == '(' {
            Ok(Some((TokenModel::LParen, p + 1)))
        } else if c == ')' {
            Ok(Some((TokenModel::RParen, p + 1)))
        } else if c == ' ' {
            Ok(Some((TokenModel::Whitespace, p + 1)))
        } else {
            Err(LexError { ch: c, at: p as usize })
        }
    }
}

/// The tokens of `s` from index `p` on, spaces left out, or the first
/// character that starts no token.
pub open spec fn tokens_from(s: Seq<char>, p: int) -> Result<Seq<TokenModel>, LexError>
    decreases s.len() - p,
{
    match token_at(s, p) {
        Err(e) => Err(e),
        Ok(None) => Ok(Seq::empty()),
        Ok(Some((t, q))) => {
            proof {
                lemma_digit_run_bound(s, p + 1);
            }
            match tokens_from(s, q) {
                Err(e) => Err(e),
                Ok(rest) => if t is Whitespace {
                    Ok(rest)
                } else {
                    Ok(seq![t] + rest)
                },
            }
        },
    }
}

/// Every index in the digit run from `p` holds a digit.
pub proof fn lemma_digit_run_digits(s: Seq<char>, p: int, j: int)
    requires
        0 <= p <= j < p + digit_run(s, p),
    ensures
        j < s.len() && is_digit(s[j]),
    decreases s.len() - p,
{
    if j > p {
        lemma_digit_run_digits(s, p + 1, j);
    }
}

/// From an index on which only digits follow, the run reaches the end.
pub proof fn lemma_digit_run_to_end(s: Seq<char>, p: int)
    requires
        0 <= p <= s.len(),
        forall|i: int| p <= i < s.len() ==> is_digit(#[trigger] s[i]),
    ensures
        digit_run(s, p) == s.len() - p,
    decreases s.len() - p,
{
    if p < s.len() {
        lemma_digit_run_to_end(s, p + 1);
    }
}

/// A nonempty string of digits alone is one literal token holding the
/// whole string.
pub proof fn lemma_digits_are_one_literal(s: Seq<char>)
    requires
        s.len() > 0,
        forall|i: int| 0 <= i < s.len() ==> is_digit(#[trigger] s[i]),
    ensures
        tokens_from(s, 0) == Ok::<Seq<TokenModel>, LexError>(seq![TokenModel::Literal(s)]),
{
    lemma_digit_run_to_end(s, 1);
    assert(s.subrange(0, s.len() as int) =~= s);
    assert(tokens_from(s, s.len() as int) == Ok::<Seq<TokenModel>, LexError>(Seq::empty()));
    assert(seq![TokenModel::Literal(s)] + Seq::<TokenModel>::empty() =~= seq![TokenModel::Literal(s)]);
}

/// A character that starts no token: neither a digit, an operator, a
/// parenthesis nor a space.
pub open spec fn is_stray(c: char) -> bool {
    !is_digit(c) && c != '+' && c != '-' && c != '*' && c != '/' && c != '^' && c != '('
        && c != ')' && c != ' '
}

/// Tokenizing fails on any input that holds a character that starts no
/// token (a letter, a tab, a decimal point), at or after the start index.
pub proof fn lemma_stray_char_fails(s: Seq<char>, p: int, i: int)
    requires
        0 <= p <= i < s.len(),
        is_stray(s[i]),
    ensures
        tokens_from(s, p) is Err,
    decreases s.len() - p,
{
    if p < i {
        lemma_digit_run_bound(s, p + 1);
        if is_digit(s[p]) {
            if i < p + 1 + digit_run(s, p + 1) {
                lemma_digit_run_digits(s, p + 1, i);
            }
        }
        if let Ok(Some((_, q))) = token_at(s, p) {
            lemma_stray_char_fails(s, q, i);
        }
    }
}

/// Relies on String::push: appends one character to the text.
#[verifier::external_body]
fn push_char(s: &mut String, c: char)
    ensures
        final(s)@ == old(s)@.push(c),
{
    s.push(c)
}

/// Reads the token that starts at `*pos` and moves `*pos` past it.
pub fn next_token(source: &[char], pos: &mut usize) -> (r: Result<Option<Token>, LexError>)
    requires
        *old(pos) <= source@.len(),
    ensures
        *final(pos) <= source@.len(),
        match r {
            Ok(Some(t)) => token_at(source@, *old(pos) as int) == Ok::<Option<(TokenModel, int)>, LexError>(
                Some((t@, *final(pos) as int)),
            ),
            Ok(None) => token_at(source@, *old(pos) as int) == Ok::<Option<(TokenModel, int)>, LexError>(None)
                && *final(pos) == *old(pos),
            Err(e) => token_at(source@, *old(pos) as int) == Err::<Option<(TokenModel, int)>, LexError>(e)
                && *final(pos) == *old(pos),
        },
{
    let start = *pos;
    if start >= source.len() {
        return Ok(None);
    }
    let c = source[start];
    if '0' <= c && c <= '9' {
        let mut content = String::new();
        push_char(&mut content, c);
        let mut i: usize = start + 1;
        while i < source.len() && '0' <= source[i] && source[i] <= '9'
            invariant
                start < i <= source@.len(),
                content@ == source@.subrange(start as int, i as int),
                digit_run(source@, start as int + 1) == (i - start - 1) + digit_run(source@, i as int),
            decreases source@.len() - i,
        {
            push_char(&mut content, source[i]);
            assert(content@ =~= source@.subrange(start as int, i + 1));
            i = i + 1;
        }
        *pos = i;
        return Ok(Some(Token::Literal(content)));
    }
    let t = if c == '+' {
        Token::Add
    } else if c == '-' {
        Token::Sub
    } else if c == '*' {
        Token::Mul
    } else if c == '/' {
        Token::Div
    } else if c == '^' {
        Token::Pow
    } else if c == '(' {
        Token::LParen
    } else if c == ')' {
        Token::RParen
    } else if c == ' ' {
        Token::Whitespace
    } else {
        return Err(LexError { ch: c, at: start });
    };
    *pos = start + 1;
    Ok(Some(t))
}

/// Splits `source` into tokens, dropping spaces; fails on the first
/// character that starts no token.
pub fn tokenize(source: &[char]) -> (r: Result<Vec<Token>, LexError>)
    ensures
        match r {
            Ok(ts) => tokens_from(source@, 0) == Ok::<Seq<TokenModel>, LexError>(tokens_model(ts@)),
            Err(e) => tokens_from(source@, 0) == Err::<Seq<TokenModel>, LexError>(e),
        },
{
    let mut tokens: Vec<Token> = Vec::new();
    let mut pos: usize = 0;
    loop
        invariant
            pos <= source@.len(),
            tokens_from(source@, 0) == match tokens_from(source@, pos as int) {
                Ok(rest) => Ok::<Seq<TokenModel>, LexError>(tokens_model(tokens@) + rest),
                Err(e) => Err(e),
            },
        decreases source@.len() - pos,
    {
        let ghost p0 = pos;
        match next_token(source, &mut pos) {
            Err(e) => {
                return Err(e);
            },
            Ok(None) => {
                assert(tokens_model(tokens@) + Seq::<TokenModel>::empty() =~= tokens_model(tokens@));
                return Ok(tokens);
            },
            Ok(Some(t)) => {
                assert(pos > p0) by {
                    lemma_digit_run_bound(source@, p0 + 1);
                }
                match t {
                    Token::Whitespace => {},
                    _ => {
                        let ghost before = tokens@;
                        tokens.push(t);
                        assert(tokens_model(tokens@) =~= tokens_model(before) + seq![t@]);
                        assert forall|rest: Seq<TokenModel>|
                            tokens_model(before) + (seq![t@] + rest) =~= tokens_model(tokens@) + rest by {}
                    },
                }
            },
        }
    }
}

} // verus!

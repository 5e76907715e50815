use vstd::prelude::*;
use crate::token::{Token, TokenModel, tokens_model};
use crate::table::{AffixTable, Binding, Op};

verus! {

/// An expression tree; literals keep their digit text.
#[derive(Debug, PartialEq, Eq)]
pub enum Expr {
    Literal(String),
    /// A parenthesized subexpression.
    Group(Box<Expr>),
    /// Unary plus.
    Pos(Box<Expr>),
    /// Unary minus.
    Neg(Box<Expr>),
    Binary(Op, Box<Expr>, Box<Expr>),
}

/// The mathematical model of an expression tree.
pub enum ExprModel {
    Literal(Seq<char>),
    Group(Box<ExprModel>),
    Pos(Box<ExprModel>),
    Neg(Box<ExprModel>),
    Binary(Op, Box<ExprModel>, Box<ExprModel>),
}

pub open spec fn expr_model(e: Expr) -> ExprModel
    decreases e,
{
    match e {
        Expr::Literal(s) => ExprModel::Literal(s@),
        Expr::Group(x) => ExprModel::Group(Box::new(expr_model(*x))),
        Expr::Pos(x) => ExprModel::Pos(Box::new(expr_model(*x))),
        Expr::Neg(x) => ExprModel::Neg(Box::new(expr_model(*x))),
        Expr::Binary(op, l, r) => ExprModel::Binary(
            op,
            Box::new(expr_model(*l)),
            Box::new(expr_model(*r)),
        ),
    }
}

impl View for Expr {
    type V = ExprModel;

    open spec fn view(&self) -> ExprModel {
        expr_model(*self)
    }
}

/// Why a token sequence does not form an expression.
#[derive(Debug, Clone, Copy, PartialEq, Eq, Structural)]
pub enum ParseError {
    /// An operand was expected at this token index (or at the end).
    ExpectedOperand { at: usize },
    /// The closing parenthesis was expected at this token index.
    MissingRParen { at: usize },
}

/// The operator that a token stands for, if any.
pub open spec fn token_op(t: TokenModel) -> Option<Op> {
    match t {
        TokenModel::Add => Some(Op::Add),
        TokenModel::Sub => Some(Op::Sub),
        TokenModel::Mul => Some(Op::Mul),
        TokenModel::Div => Some(Op::Div),
        TokenModel::Pow => Some(Op::Pow),
        _ => None,
    }
}

/// The operand that starts at index `p`: a literal, a parenthesized
/// expression, or a prefix operator applied to what follows it; with the
/// index just past it.
pub open spec fn parse_operand(t: Seq<TokenModel>, tb: AffixTable, p: int) -> Result<
    (ExprModel, int),
    ParseError,
>
    decreases t.len() - p, 1int,
{
    if p < 0 || p >= t.len() {
        Err(ParseError::ExpectedOperand { at: p as usize })
    } else {
        match t[p] {
            TokenModel::LParen => match parse_from(t, tb, p + 1, 0) {
                Ok((e, q)) => if 0 <= q < t.len() && t[q] is RParen {
                    Ok((ExprModel::Group(Box::new(e)), q + 1))
                } else {
                    Err(ParseError::MissingRParen { at: q as usize })
                },
                Err(x) => Err(x),
            },
            TokenModel::Add => match tb.prefix.spec_get(Op::Add) {
                Some(b) => match parse_from(t, tb, p + 1, b.next_bp()) {
                    Ok((e, q)) => Ok((ExprModel::Pos(Box::new(e)), q)),
                    Err(x) => Err(x),
                },
                None => Err(ParseError::ExpectedOperand { at: p as usize }),
            },
            TokenModel::Sub => match tb.prefix.spec_get(Op::Sub) {
                Some(b) => match parse_from(t, tb, p + 1, b.next_bp()) {
                    Ok((e, q)) => Ok((ExprModel::Neg(Box::new(e)), q)),
                    Err(x) => Err(x),
                },
                None => Err(ParseError::ExpectedOperand { at: p as usize }),
            },
            TokenModel::Literal(s) => Ok((ExprModel::Literal(s), p + 1)),
            _ => Err(ParseError::ExpectedOperand { at: p as usize }),
        }
    }
}

/// The longest expression that starts at index `p` and whose infix
/// operators bind at `bp` or above, with the index just past it.
pub open spec fn parse_from(t: Seq<TokenModel>, tb: AffixTable, p: int, bp: int) -> Result<
    (ExprModel, int),
    ParseError,
>
    decreases t.len() - p, 2int,
{
    match parse_operand(t, tb, p) {
        Ok((e, q)) => if p < q <= t.len() {
            parse_infix(t, tb, e, q, bp)
        } else {
            Ok((e, q))
        },
        Err(x) => Err(x),
    }
}

/// The infix binding of the token at index `p`, if it is an operator with
/// an entry in the infix table.
pub open spec fn infix_binding(t: Seq<TokenModel>, tb: AffixTable, p: int) -> Option<Binding> {
    if 0 <= p < t.len() {
        match token_op(t[p]) {
            Some(op) => tb.infix.spec_get(op),
            None => None,
        }
    } else {
        None
    }
}

/// Extends `left`, which ends before index `p`, by the infix operators
/// from `p` on that bind at `bp` or above.
pub open spec fn parse_infix(t: Seq<TokenModel>, tb: AffixTable, left: ExprModel, p: int, bp: int) -> Result<
    (ExprModel, int),
    ParseError,
>
    decreases t.len() - p, 0int,
{
    match infix_binding(t, tb, p) {
        Some(b) => if b.prec < bp {
            Ok((left, p))
        } else {
            let op = token_op(t[p])->0;
            match parse_from(t, tb, p + 1, b.next_bp()) {
                Ok((r, q)) => {
                    let e = ExprModel::Binary(op, Box::new(left), Box::new(r));
                    if p < q <= t.len() {
                        parse_infix(t, tb, e, q, bp)
                    } else {
                        Ok((e, q))
                    }
                },
                Err(x) => Err(x),
            }
        },
        None => Ok((left, p)),
    }
}

/// The model of a parse result.
pub open spec fn parsed_model(r: Result<(Expr, usize), ParseError>) -> Result<(ExprModel, int), ParseError> {
    match r {
        Ok((e, q)) => Ok((e@, q as int)),
        Err(x) => Err(x),
    }
}

/// A parsed operand is not empty and ends within the tokens.
pub proof fn lemma_operand_advances(t: Seq<TokenModel>, tb: AffixTable, p: int)
    ensures
        parse_operand(t, tb, p) matches Ok((_, q)) ==> p < q <= t.len(),
    decreases t.len() - p, 1int,
{
    if 0 <= p < t.len() {
        lemma_parse_advances(t, tb, p + 1, 0);
        if let Some(b) = tb.prefix.spec_get(Op::Add) {
            lemma_parse_advances(t, tb, p + 1, b.next_bp());
        }
        if let Some(b) = tb.prefix.spec_get(Op::Sub) {
            lemma_parse_advances(t, tb, p + 1, b.next_bp());
        }
    }
}

/// A parsed expression is not empty and ends within the tokens.
pub proof fn lemma_parse_advances(t: Seq<TokenModel>, tb: AffixTable, p: int, bp: int)
    ensures
        parse_from(t, tb, p, bp) matches Ok((_, q)) ==> p < q <= t.len(),
    decreases t.len() - p, 2int,
{
    lemma_operand_advances(t, tb, p);
    if let Ok((e, q)) = parse_operand(t, tb, p) {
        lemma_infix_advances(t, tb, e, q, bp);
    }
}

/// The infix loop never moves back and ends within the tokens.
pub proof fn lemma_infix_advances(t: Seq<TokenModel>, tb: AffixTable, left: ExprModel, p: int, bp: int)
    requires
        p <= t.len(),
    ensures
        parse_infix(t, tb, left, p, bp) matches Ok((_, q)) ==> p <= q <= t.len(),
    decreases t.len() - p, 0int,
{
    if let Some(b) = infix_binding(t, tb, p) {
        if b.prec >= bp {
            lemma_parse_advances(t, tb, p + 1, b.next_bp());
            if let Ok((r, q)) = parse_from(t, tb, p + 1, b.next_bp()) {
                let op = token_op(t[p])->0;
                lemma_infix_advances(t, tb, ExprModel::Binary(op, Box::new(left), Box::new(r)), q, bp);
            }
        }
    }
}

/// A parenthesis opened at index `p` with no closing one anywhere after it
/// makes the parse from `p` fail, whatever the binding power.
pub proof fn lemma_unclosed_paren_fails(t: Seq<TokenModel>, tb: AffixTable, p: int, bp: int)
    requires
        0 <= p < t.len(),
        t[p] is LParen,
        forall|i: int| p < i < t.len() ==> !(#[trigger] t[i] is RParen),
    ensures
        parse_from(t, tb, p, bp) is Err,
{
    lemma_parse_advances(t, tb, p + 1, 0);
}

/// The token of an operator.
pub open spec fn op_token(op: Op) -> TokenModel {
    match op {
        Op::Add => TokenModel::Add,
        Op::Sub => TokenModel::Sub,
        Op::Mul => TokenModel::Mul,
        Op::Div => TokenModel::Div,
        Op::Pow => TokenModel::Pow,
    }
}

/// The tokens `x o1 y o2 z` for literal texts `x`, `y`, `z`.
pub open spec fn chain(x: Seq<char>, o1: Op, y: Seq<char>, o2: Op, z: Seq<char>) -> Seq<TokenModel> {
    seq![
        TokenModel::Literal(x),
        op_token(o1),
        TokenModel::Literal(y),
        op_token(o2),
        TokenModel::Literal(z),
    ]
}

pub open spec fn lit(s: Seq<char>) -> ExprModel {
    ExprModel::Literal(s)
}

pub open spec fn bin(op: Op, l: ExprModel, r: ExprModel) -> ExprModel {
    ExprModel::Binary(op, Box::new(l), Box::new(r))
}

/// A lone literal followed by nothing more is the whole expression.
proof fn lemma_last_literal(t: Seq<TokenModel>, tb: AffixTable, bp: int)
    requires
        t.len() == 5,
        t[4] is Literal,
    ensures
        parse_from(t, tb, 4, bp) == Ok::<(ExprModel, int), ParseError>((lit(t[4]->Literal_0), 5)),
{
    assert(parse_operand(t, tb, 4) == Ok::<(ExprModel, int), ParseError>((lit(t[4]->Literal_0), 5)));
    assert(infix_binding(t, tb, 5) is None);
}

/// Two infix operators of one precedence that are left-associative group
/// to the left: `x o1 y o2 z` is `(x o1 y) o2 z`.
pub proof fn lemma_left_assoc(tb: AffixTable, x: Seq<char>, o1: Op, y: Seq<char>, o2: Op, z: Seq<char>)
    requires
        tb.infix.wf(),
        tb.infix.spec_get(o1) is Some,
        tb.infix.spec_get(o2) == tb.infix.spec_get(o1),
        tb.infix.spec_get(o1)->0.assoc == 0,
        tb.infix.spec_get(o1)->0.prec >= 0,
    ensures
        parse_from(chain(x, o1, y, o2, z), tb, 0, 0) == Ok::<(ExprModel, int), ParseError>(
            (bin(o2, bin(o1, lit(x), lit(y)), lit(z)), 5),
        ),
{
    let t = chain(x, o1, y, o2, z);
    let b = tb.infix.spec_get(o1)->0;
    assert(token_op(t[1]) == Some(o1));
    assert(token_op(t[3]) == Some(o2));
    assert(parse_operand(t, tb, 0) == Ok::<(ExprModel, int), ParseError>((lit(x), 1)));
    assert(parse_operand(t, tb, 2) == Ok::<(ExprModel, int), ParseError>((lit(y), 3)));
    assert(parse_infix(t, tb, lit(y), 3, b.next_bp()) == Ok::<(ExprModel, int), ParseError>((lit(y), 3)));
    assert(parse_from(t, tb, 2, b.next_bp()) == Ok::<(ExprModel, int), ParseError>((lit(y), 3)));
    lemma_last_literal(t, tb, b.next_bp());
    let e = bin(o1, lit(x), lit(y));
    assert(parse_infix(t, tb, bin(o2, e, lit(z)), 5, 0) == Ok::<(ExprModel, int), ParseError>((bin(o2, e, lit(z)), 5)));
    assert(parse_infix(t, tb, e, 3, 0) == Ok::<(ExprModel, int), ParseError>((bin(o2, e, lit(z)), 5)));
    assert(parse_infix(t, tb, lit(x), 1, 0) == Ok::<(ExprModel, int), ParseError>((bin(o2, e, lit(z)), 5)));
}

/// Two infix operators of one precedence that are right-associative group
/// to the right: `x o1 y o2 z` is `x o1 (y o2 z)`.
pub proof fn lemma_right_assoc(tb: AffixTable, x: Seq<char>, o1: Op, y: Seq<char>, o2: Op, z: Seq<char>)
    requires
        tb.infix.wf(),
        tb.infix.spec_get(o1) is Some,
        tb.infix.spec_get(o2) == tb.infix.spec_get(o1),
        tb.infix.spec_get(o1)->0.assoc == 1,
        tb.infix.spec_get(o1)->0.prec >= 0,
    ensures
        parse_from(chain(x, o1, y, o2, z), tb, 0, 0) == Ok::<(ExprModel, int), ParseError>(
            (bin(o1, lit(x), bin(o2, lit(y), lit(z))), 5),
        ),
{
    let t = chain(x, o1, y, o2, z);
    let b = tb.infix.spec_get(o1)->0;
    assert(token_op(t[1]) == Some(o1));
    assert(token_op(t[3]) == Some(o2));
    assert(parse_operand(t, tb, 0) == Ok::<(ExprModel, int), ParseError>((lit(x), 1)));
    assert(parse_operand(t, tb, 2) == Ok::<(ExprModel, int), ParseError>((lit(y), 3)));
    lemma_last_literal(t, tb, b.next_bp());
    let e = bin(o2, lit(y), lit(z));
    assert(parse_infix(t, tb, e, 5, b.next_bp()) == Ok::<(ExprModel, int), ParseError>((e, 5)));
    assert(parse_infix(t, tb, lit(y), 3, b.next_bp()) == Ok::<(ExprModel, int), ParseError>((e, 5)));
    assert(parse_from(t, tb, 2, b.next_bp()) == Ok::<(ExprModel, int), ParseError>((e, 5)));
    let f = bin(o1, lit(x), e);
    assert(parse_infix(t, tb, f, 5, 0) == Ok::<(ExprModel, int), ParseError>((f, 5)));
    assert(parse_infix(t, tb, lit(x), 1, 0) == Ok::<(ExprModel, int), ParseError>((f, 5)));
}

/// An infix operator of higher precedence on the right binds tighter:
/// `x o1 y o2 z` is `x o1 (y o2 z)` when `o2` outranks `o1`.
pub proof fn lemma_higher_precedence_binds_tighter(
    tb: AffixTable,
    x: Seq<char>,
    o1: Op,
    y: Seq<char>,
    o2: Op,
    z: Seq<char>,
)
    requires
        tb.infix.wf(),
        tb.infix.spec_get(o1) is Some,
        tb.infix.spec_get(o2) is Some,
        0 <= tb.infix.spec_get(o1)->0.prec < tb.infix.spec_get(o2)->0.prec,
    ensures
        parse_from(chain(x, o1, y, o2, z), tb, 0, 0) == Ok::<(ExprModel, int), ParseError>(
            (bin(o1, lit(x), bin(o2, lit(y), lit(z))), 5),
        ),
{
    let t = chain(x, o1, y, o2, z);
    let b1 = tb.infix.spec_get(o1)->0;
    let b2 = tb.infix.spec_get(o2)->0;
    assert(token_op(t[1]) == Some(o1));
    assert(token_op(t[3]) == Some(o2));
    assert(parse_operand(t, tb, 0) == Ok::<(ExprModel, int), ParseError>((lit(x), 1)));
    assert(parse_operand(t, tb, 2) == Ok::<(ExprModel, int), ParseError>((lit(y), 3)));
    lemma_last_literal(t, tb, b2.next_bp());
    let e = bin(o2, lit(y), lit(z));
    assert(parse_infix(t, tb, e, 5, b1.next_bp()) == Ok::<(ExprModel, int), ParseError>((e, 5)));
    assert(parse_infix(t, tb, lit(y), 3, b1.next_bp()) == Ok::<(ExprModel, int), ParseError>((e, 5)));
    assert(parse_from(t, tb, 2, b1.next_bp()) == Ok::<(ExprModel, int), ParseError>((e, 5)));
    let f = bin(o1, lit(x), e);
    assert(parse_infix(t, tb, f, 5, 0) == Ok::<(ExprModel, int), ParseError>((f, 5)));
    assert(parse_infix(t, tb, lit(x), 1, 0) == Ok::<(ExprModel, int), ParseError>((f, 5)));
}

/// The operator that a token stands for, if any.
pub fn op_of(t: &Token) -> (r: Option<Op>)
    ensures
        r == token_op(t@),
{
    match t {
        Token::Add => Some(Op::Add),
        Token::Sub => Some(Op::Sub),
        Token::Mul => Some(Op::Mul),
        Token::Div => Some(Op::Div),
        Token::Pow => Some(Op::Pow),
        _ => None,
    }
}

/// Parses the operand that starts at `pos`.
fn parse_operand_at(tokens: &[Token], table: &AffixTable, pos: usize) -> (r: Result<(Expr, usize), ParseError>)
    requires
        pos <= tokens@.len(),
        table.wf(),
    ensures
        parsed_model(r) == parse_operand(tokens_model(tokens@), *table, pos as int),
        r matches Ok((_, q)) ==> pos < q <= tokens@.len(),
    decreases tokens@.len() - pos, 1int,
{
    let ghost t = tokens_model(tokens@);
    if pos >= tokens.len() {
        return Err(ParseError::ExpectedOperand { at: pos });
    }
    assert(t[pos as int] == tokens@[pos as int]@);
    match &tokens[pos] {
        Token::LParen => {
            let (e, q) = match parse(tokens, table, pos + 1, 0) {
                Ok(x) => x,
                Err(x) => {
                    return Err(x);
                },
            };
            if q < tokens.len() {
                if let Token::RParen = &tokens[q] {
                    return Ok((Expr::Group(Box::new(e)), q + 1));
                }
            }
            Err(ParseError::MissingRParen { at: q })
        },
        Token::Add => {
            let b = match table.prefix.get(Op::Add) {
                Some(b) => b,
                None => {
                    return Err(ParseError::ExpectedOperand { at: pos });
                },
            };
            assert(table.prefix.spec_get(Op::Add) is Some);
            match parse(tokens, table, pos + 1, b.prec + (1 - b.assoc)) {
                Ok((e, q)) => Ok((Expr::Pos(Box::new(e)), q)),
                Err(x) => Err(x),
            }
        },
        Token::Sub => {
            let b = match table.prefix.get(Op::Sub) {
                Some(b) => b,
                None => {
                    return Err(ParseError::ExpectedOperand { at: pos });
                },
            };
            assert(table.prefix.spec_get(Op::Sub) is Some);
            match parse(tokens, table, pos + 1, b.prec + (1 - b.assoc)) {
                Ok((e, q)) => Ok((Expr::Neg(Box::new(e)), q)),
                Err(x) => Err(x),
            }
        },
        Token::Literal(s) => Ok((Expr::Literal(s.clone()), pos + 1)),
        _ => Err(ParseError::ExpectedOperand { at: pos }),
    }
}

/// Parses, from index `pos`, the longest expression whose infix operators
/// bind at `bp` or above; returns it with the index of the first token
/// left unread.
pub fn parse(tokens: &[Token], table: &AffixTable, pos: usize, bp: i32) -> (r: Result<(Expr, usize), ParseError>)
    requires
        pos <= tokens@.len(),
        table.wf(),
    ensures
        parsed_model(r) == parse_from(tokens_model(tokens@), *table, pos as int, bp as int),
        r matches Ok((_, q)) ==> pos < q <= tokens@.len(),
    decreases tokens@.len() - pos, 2int,
{
    let ghost t = tokens_model(tokens@);
    let (mut left, mut p) = match parse_operand_at(tokens, table, pos) {
        Ok(x) => x,
        Err(x) => {
            return Err(x);
        },
    };
    loop
        invariant
            pos < p <= tokens@.len(),
            table.wf(),
            t == tokens_model(tokens@),
            parse_from(t, *table, pos as int, bp as int) == parse_infix(t, *table, left@, p as int, bp as int),
        decreases tokens@.len() - p,
    {
        if p >= tokens.len() {
            return Ok((left, p));
        }
        assert(t[p as int] == tokens@[p as int]@);
        let op = match op_of(&tokens[p]) {
            Some(op) => op,
            None => {
                return Ok((left, p));
            },
        };
        let b = match table.infix.get(op) {
            Some(b) => b,
            None => {
                return Ok((left, p));
            },
        };
        assert(table.infix.spec_get(op) is Some);
        if b.prec < bp {
            return Ok((left, p));
        }
        let (right, q) = match parse(tokens, table, p + 1, b.prec + (1 - b.assoc)) {
            Ok(x) => x,
            Err(x) => {
                return Err(x);
            },
        };
        left = Expr::Binary(op, Box::new(left), Box::new(right));
        p = q;
    }
}

/// Parses a whole expression from the first token, at the lowest binding
/// power. Tokens after the expression are left unread, as with `parse`.
pub fn parse_expression(tokens: &[Token], table: &AffixTable) -> (r: Result<Expr, ParseError>)
    requires
        table.wf(),
    ensures
        match parse_from(tokens_model(tokens@), *table, 0, 0) {
            Ok((e, _)) => r matches Ok(x) && x@ == e,
            Err(x) => r == Err::<Expr, ParseError>(x),
        },
{
    match parse(tokens, table, 0, 0) {
        Ok((e, _)) => Ok(e),
        Err(x) => Err(x),
    }
}

} // verus!

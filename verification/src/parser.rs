//! From tokens to an expression tree.
//!
//! The grammar, from the loosest binding to the tightest:
//!
//! ```text
//! statement := [ident "="] expr
//! expr      := term {("+" | "-") term}
//! term      := unary {("*" | "/" | "//" | "%") unary}
//! unary     := ("-" | "+") unary | power
//! power     := postfix ["^" unary]
//! postfix   := atom {"!"}
//! atom      := literal | ident | ident "(" [expr {"," expr}] ")" | "(" expr ")"
//! ```
//!
//! The binary operators of `expr` and `term` group to the left, `^` groups
//! to the right, and `-x` stands for `0 - x`.

use vstd::prelude::*;
use vstd::string::*;
use crate::ast::{Expr, ExprView, Operation};
use crate::error::{CalcError, CalcErrorType, ErrorView};
use crate::lexer::{
    lex, mark, marked, scan, starts, token_views, unexpected_character, Token, TokenView,
};

verus! {

/// A parsed line as contracts see it.
pub struct StatementView {
    pub target: Option<Seq<char>>,
    pub expr: ExprView,
}

/// A parsed line: an expression, and the name that its value is assigned
/// to if the line is an assignment.
#[derive(Debug)]
pub struct Statement {
    pub target: Option<String>,
    pub expr: Expr,
}

impl Statement {
    /// The statement as contracts see it.
    pub open spec fn view(&self) -> StatementView {
        StatementView {
            target: match self.target {
                Some(name) => Some(name@),
                None => None,
            },
            expr: self.expr.view(),
        }
    }
}

/// The token at `pos`, or `EOI` past the end.
pub open spec fn peek(ts: Seq<TokenView>, pos: int) -> TokenView {
    if 0 <= pos < ts.len() {
        ts[pos]
    } else {
        TokenView::EOI
    }
}

/// How far `pos` is from the end of the tokens.
pub open spec fn remaining(ts: Seq<TokenView>, pos: int) -> nat {
    if pos < ts.len() {
        (ts.len() - pos) as nat
    } else {
        0
    }
}

/// The place `to` that a parse reached from `from`. A parse consumes at
/// least one token (`lemma_expr_bounds` and the laws beside it), so this
/// is `to`.
pub open spec fn advance(from: int, to: int) -> int {
    if to > from {
        to
    } else {
        from + 1
    }
}

/// The operator that a token stands for between two terms.
pub open spec fn additive(t: TokenView) -> Option<Operation> {
    match t {
        TokenView::Plus => Some(Operation::Add),
        TokenView::Minus => Some(Operation::Sub),
        _ => None,
    }
}

/// The operator that a token stands for between two factors.
pub open spec fn multiplicative(t: TokenView) -> Option<Operation> {
    match t {
        TokenView::Multiply => Some(Operation::Mul),
        TokenView::Divide => Some(Operation::Div),
        TokenView::FloorDivide => Some(Operation::FloorDiv),
        TokenView::Percent => Some(Operation::Mod),
        _ => None,
    }
}

/// The tree of `lhs op rhs`.
pub open spec fn binary(lhs: ExprView, op: Operation, rhs: ExprView) -> ExprView {
    ExprView::Op(Box::new(lhs), op, Box::new(rhs))
}

/// The tree of `-operand`: zero minus the operand.
pub open spec fn negation(operand: ExprView) -> ExprView {
    binary(ExprView::Num("0"@), Operation::Sub, operand)
}

/// An atom at `pos`: the tree and the place after it, or the place of the
/// token that does not fit.
pub open spec fn atom(ts: Seq<TokenView>, pos: int) -> Result<(ExprView, int), int>
    decreases remaining(ts, pos), 0nat,
{
    match peek(ts, pos) {
        TokenView::Literal(text) => Ok((ExprView::Num(text), pos + 1)),
        TokenView::Ident(name) => if peek(ts, pos + 1) == TokenView::LParen {
            match arguments(ts, pos + 2) {
                Ok((args, next)) => Ok((ExprView::Func(name, args), next)),
                Err(at) => Err(at),
            }
        } else {
            Ok((ExprView::Var(name), pos + 1))
        },
        TokenView::LParen => match expr(ts, pos + 1) {
            Ok((inner, next)) => if peek(ts, next) == TokenView::RParen {
                Ok((inner, next + 1))
            } else {
                Err(next)
            },
            Err(at) => Err(at),
        },
        _ => Err(pos),
    }
}

/// The factorial signs that follow `operand` at `pos`.
pub open spec fn postfix_rest(ts: Seq<TokenView>, pos: int, operand: ExprView) -> (ExprView, int)
    decreases remaining(ts, pos), 0nat,
{
    if peek(ts, pos) == TokenView::Exclamation {
        postfix_rest(ts, pos + 1, ExprView::Fac(Box::new(operand)))
    } else {
        (operand, pos)
    }
}

/// An atom and the factorial signs that follow it.
pub open spec fn postfix(ts: Seq<TokenView>, pos: int) -> Result<(ExprView, int), int>
    decreases remaining(ts, pos), 1nat,
{
    match atom(ts, pos) {
        Ok((operand, next)) => Ok(postfix_rest(ts, next, operand)),
        Err(at) => Err(at),
    }
}

/// A base, and its exponent if `^` follows.
pub open spec fn power(ts: Seq<TokenView>, pos: int) -> Result<(ExprView, int), int>
    decreases remaining(ts, pos), 2nat,
{
    match postfix(ts, pos) {
        Ok((base, next)) => {
            let next = advance(pos, next);
            if peek(ts, next) == TokenView::Caret {
                match unary(ts, next + 1) {
                    Ok((exponent, end)) => Ok((binary(base, Operation::Exp, exponent), end)),
                    Err(at) => Err(at),
                }
            } else {
                Ok((base, next))
            }
        },
        Err(at) => Err(at),
    }
}

/// A power with the signs before it.
pub open spec fn unary(ts: Seq<TokenView>, pos: int) -> Result<(ExprView, int), int>
    decreases remaining(ts, pos), 3nat,
{
    match peek(ts, pos) {
        TokenView::Minus => match unary(ts, pos + 1) {
            Ok((operand, next)) => Ok((negation(operand), next)),
            Err(at) => Err(at),
        },
        TokenView::Plus => unary(ts, pos + 1),
        _ => power(ts, pos),
    }
}

/// The factors that follow `lhs` at `pos`, grouped to the left.
pub open spec fn term_rest(ts: Seq<TokenView>, pos: int, lhs: ExprView) -> Result<
    (ExprView, int),
    int,
>
    decreases remaining(ts, pos), 0nat,
{
    match multiplicative(peek(ts, pos)) {
        Some(op) => match unary(ts, pos + 1) {
            Ok((rhs, next)) => term_rest(ts, advance(pos + 1, next), binary(lhs, op, rhs)),
            Err(at) => Err(at),
        },
        None => Ok((lhs, pos)),
    }
}

/// A product of factors.
pub open spec fn term(ts: Seq<TokenView>, pos: int) -> Result<(ExprView, int), int>
    decreases remaining(ts, pos), 4nat,
{
    match unary(ts, pos) {
        Ok((lhs, next)) => term_rest(ts, advance(pos, next), lhs),
        Err(at) => Err(at),
    }
}

/// The terms that follow `lhs` at `pos`, grouped to the left.
pub open spec fn expr_rest(ts: Seq<TokenView>, pos: int, lhs: ExprView) -> Result<
    (ExprView, int),
    int,
>
    decreases remaining(ts, pos), 0nat,
{
    match additive(peek(ts, pos)) {
        Some(op) => match term(ts, pos + 1) {
            Ok((rhs, next)) => expr_rest(ts, advance(pos + 1, next), binary(lhs, op, rhs)),
            Err(at) => Err(at),
        },
        None => Ok((lhs, pos)),
    }
}

/// A sum of terms.
pub open spec fn expr(ts: Seq<TokenView>, pos: int) -> Result<(ExprView, int), int>
    decreases remaining(ts, pos), 5nat,
{
    match term(ts, pos) {
        Ok((lhs, next)) => expr_rest(ts, advance(pos, next), lhs),
        Err(at) => Err(at),
    }
}

/// The arguments that follow `args` at `pos`, up to the closing
/// parenthesis.
pub open spec fn arguments_rest(ts: Seq<TokenView>, pos: int, args: Seq<ExprView>) -> Result<
    (Seq<ExprView>, int),
    int,
>
    decreases remaining(ts, pos), 0nat,
{
    match peek(ts, pos) {
        TokenView::Comma => match expr(ts, pos + 1) {
            Ok((arg, next)) => arguments_rest(ts, advance(pos + 1, next), args.push(arg)),
            Err(at) => Err(at),
        },
        TokenView::RParen => Ok((args, pos + 1)),
        _ => Err(pos),
    }
}

/// The arguments of a call, from after the opening parenthesis to the
/// closing one.
pub open spec fn arguments(ts: Seq<TokenView>, pos: int) -> Result<(Seq<ExprView>, int), int>
    decreases remaining(ts, pos), 6nat,
{
    if peek(ts, pos) == TokenView::RParen {
        Ok((Seq::empty(), pos + 1))
    } else {
        match expr(ts, pos) {
            Ok((arg, next)) => arguments_rest(ts, advance(pos, next), seq![arg]),
            Err(at) => Err(at),
        }
    }
}

/// Where the expression of a line starts: after `name =`, if the line
/// starts so.
pub open spec fn expression_start(ts: Seq<TokenView>) -> int {
    if peek(ts, 0) is Ident && peek(ts, 1) == TokenView::Equals {
        2
    } else {
        0
    }
}

/// The statement that the tokens make, or the place of the first token
/// that does not fit.
pub open spec fn statement(ts: Seq<TokenView>) -> Result<StatementView, int> {
    let start = expression_start(ts);
    match expr(ts, start) {
        Ok((e, next)) => if next == ts.len() {
            Ok(
                StatementView {
                    target: if start == 2 {
                        Some(peek(ts, 0)->Ident_0)
                    } else {
                        None
                    },
                    expr: e,
                },
            )
        } else {
            Err(next)
        },
        Err(at) => Err(at),
    }
}

/// The error for a token at `at` that does not fit.
pub open spec fn unexpected_token(ts: Seq<TokenView>, at: int) -> ErrorView {
    ErrorView {
        kind: CalcErrorType::SyntaxError,
        msg: "Unexpected token "@ + peek(ts, at).rendering(),
    }
}

/// Where in the text the token at `at` starts; the end of the text, if
/// the tokens end before `at`.
pub open spec fn place_of(input: Seq<char>, at: int) -> int {
    if 0 <= at < starts(input, 0).len() {
        starts(input, 0)[at]
    } else {
        input.len() as int
    }
}

/// The error for a token at `at` that does not fit, with a mark at its
/// place in the text.
pub open spec fn misplaced_token(input: Seq<char>, ts: Seq<TokenView>, at: int) -> ErrorView {
    ErrorView {
        kind: CalcErrorType::SyntaxError,
        msg: marked(unexpected_token(ts, at).msg, input, place_of(input, at)),
    }
}

/// The statement that a line of text makes, or the syntax error in it.
pub open spec fn parse_text(input: Seq<char>) -> Result<StatementView, ErrorView> {
    match lex(input, 0) {
        Err(at) => Err(unexpected_character(input, at)),
        Ok(ts) => match statement(ts) {
            Err(at) => Err(misplaced_token(input, ts, at)),
            Ok(s) => Ok(s),
        },
    }
}

/// Whether a parse from `pos` ended after `pos` and inside the tokens, or
/// failed at a token from `pos` on.
pub open spec fn within(r: Result<(ExprView, int), int>, pos: int, len: nat) -> bool {
    match r {
        Ok((_, next)) => pos < next <= len,
        Err(at) => pos <= at <= len,
    }
}

/// Whether a parse of what follows an operand at `pos` ended at or after
/// `pos` and inside the tokens, or failed at a token from `pos` on.
pub open spec fn within_rest(r: Result<(ExprView, int), int>, pos: int, len: nat) -> bool {
    match r {
        Ok((_, next)) => pos <= next <= len,
        Err(at) => pos <= at <= len,
    }
}

/// Whether a parse of arguments from `pos` ended after `pos` and inside
/// the tokens, or failed at a token from `pos` on.
pub open spec fn within_all(r: Result<(Seq<ExprView>, int), int>, pos: int, len: nat) -> bool {
    match r {
        Ok((_, next)) => pos < next <= len,
        Err(at) => pos <= at <= len,
    }
}

/// An atom consumes at least one token and ends inside the tokens.
pub proof fn lemma_atom_bounds(ts: Seq<TokenView>, pos: int)
    requires
        0 <= pos <= ts.len(),
    ensures
        within(atom(ts, pos), pos, ts.len()),
    decreases remaining(ts, pos), 0nat,
{
    match peek(ts, pos) {
        TokenView::Ident(name) => {
            if peek(ts, pos + 1) == TokenView::LParen {
                lemma_arguments_bounds(ts, pos + 2);
            }
        },
        TokenView::LParen => {
            lemma_expr_bounds(ts, pos + 1);
        },
        _ => {},
    }
}

/// The factorial signs after an operand end inside the tokens.
pub proof fn lemma_postfix_rest_bounds(ts: Seq<TokenView>, pos: int, operand: ExprView)
    requires
        0 <= pos <= ts.len(),
    ensures
        pos <= postfix_rest(ts, pos, operand).1 <= ts.len(),
    decreases remaining(ts, pos), 0nat,
{
    if peek(ts, pos) == TokenView::Exclamation {
        lemma_postfix_rest_bounds(ts, pos + 1, ExprView::Fac(Box::new(operand)));
    }
}

/// A postfix expression consumes at least one token and ends inside the
/// tokens.
pub proof fn lemma_postfix_bounds(ts: Seq<TokenView>, pos: int)
    requires
        0 <= pos <= ts.len(),
    ensures
        within(postfix(ts, pos), pos, ts.len()),
    decreases remaining(ts, pos), 1nat,
{
    lemma_atom_bounds(ts, pos);
    match atom(ts, pos) {
        Ok((operand, next)) => {
            lemma_postfix_rest_bounds(ts, next, operand);
        },
        Err(_) => {},
    }
}

/// A power consumes at least one token and ends inside the tokens.
pub proof fn lemma_power_bounds(ts: Seq<TokenView>, pos: int)
    requires
        0 <= pos <= ts.len(),
    ensures
        within(power(ts, pos), pos, ts.len()),
    decreases remaining(ts, pos), 2nat,
{
    lemma_postfix_bounds(ts, pos);
    match postfix(ts, pos) {
        Ok((_, next)) => {
            if peek(ts, next) == TokenView::Caret {
                lemma_unary_bounds(ts, next + 1);
            }
        },
        Err(_) => {},
    }
}

/// A signed power consumes at least one token and ends inside the tokens.
pub proof fn lemma_unary_bounds(ts: Seq<TokenView>, pos: int)
    requires
        0 <= pos <= ts.len(),
    ensures
        within(unary(ts, pos), pos, ts.len()),
    decreases remaining(ts, pos), 3nat,
{
    match peek(ts, pos) {
        TokenView::Minus => {
            lemma_unary_bounds(ts, pos + 1);
        },
        TokenView::Plus => {
            lemma_unary_bounds(ts, pos + 1);
        },
        _ => {
            lemma_power_bounds(ts, pos);
        },
    }
}

/// The factors after an operand end inside the tokens.
pub proof fn lemma_term_rest_bounds(ts: Seq<TokenView>, pos: int, lhs: ExprView)
    requires
        0 <= pos <= ts.len(),
    ensures
        within_rest(term_rest(ts, pos, lhs), pos, ts.len()),
    decreases remaining(ts, pos), 0nat,
{
    match multiplicative(peek(ts, pos)) {
        Some(op) => {
            lemma_unary_bounds(ts, pos + 1);
            match unary(ts, pos + 1) {
                Ok((rhs, next)) => {
                    lemma_term_rest_bounds(ts, next, binary(lhs, op, rhs));
                },
                Err(_) => {},
            }
        },
        None => {},
    }
}

/// A term consumes at least one token and ends inside the tokens.
pub proof fn lemma_term_bounds(ts: Seq<TokenView>, pos: int)
    requires
        0 <= pos <= ts.len(),
    ensures
        within(term(ts, pos), pos, ts.len()),
    decreases remaining(ts, pos), 4nat,
{
    lemma_unary_bounds(ts, pos);
    match unary(ts, pos) {
        Ok((lhs, next)) => {
            lemma_term_rest_bounds(ts, next, lhs);
        },
        Err(_) => {},
    }
}

/// The terms after an operand end inside the tokens.
pub proof fn lemma_expr_rest_bounds(ts: Seq<TokenView>, pos: int, lhs: ExprView)
    requires
        0 <= pos <= ts.len(),
    ensures
        within_rest(expr_rest(ts, pos, lhs), pos, ts.len()),
    decreases remaining(ts, pos), 0nat,
{
    match additive(peek(ts, pos)) {
        Some(op) => {
            lemma_term_bounds(ts, pos + 1);
            match term(ts, pos + 1) {
                Ok((rhs, next)) => {
                    lemma_expr_rest_bounds(ts, next, binary(lhs, op, rhs));
                },
                Err(_) => {},
            }
        },
        None => {},
    }
}

/// An expression consumes at least one token and ends inside the tokens.
pub proof fn lemma_expr_bounds(ts: Seq<TokenView>, pos: int)
    requires
        0 <= pos <= ts.len(),
    ensures
        within(expr(ts, pos), pos, ts.len()),
    decreases remaining(ts, pos), 5nat,
{
    lemma_term_bounds(ts, pos);
    match term(ts, pos) {
        Ok((lhs, next)) => {
            lemma_expr_rest_bounds(ts, next, lhs);
        },
        Err(_) => {},
    }
}

/// The arguments after the first end with a closing parenthesis inside
/// the tokens.
pub proof fn lemma_arguments_rest_bounds(ts: Seq<TokenView>, pos: int, args: Seq<ExprView>)
    requires
        0 <= pos <= ts.len(),
    ensures
        within_all(arguments_rest(ts, pos, args), pos, ts.len()),
    decreases remaining(ts, pos), 0nat,
{
    match peek(ts, pos) {
        TokenView::Comma => {
            lemma_expr_bounds(ts, pos + 1);
            match expr(ts, pos + 1) {
                Ok((arg, next)) => {
                    lemma_arguments_rest_bounds(ts, next, args.push(arg));
                },
                Err(_) => {},
            }
        },
        _ => {},
    }
}

/// The arguments of a call end with a closing parenthesis inside the
/// tokens.
pub proof fn lemma_arguments_bounds(ts: Seq<TokenView>, pos: int)
    requires
        0 <= pos <= ts.len(),
    ensures
        within_all(arguments(ts, pos), pos, ts.len()),
    decreases remaining(ts, pos), 6nat,
{
    if peek(ts, pos) != TokenView::RParen {
        lemma_expr_bounds(ts, pos);
        match expr(ts, pos) {
            Ok((arg, next)) => {
                lemma_arguments_rest_bounds(ts, next, seq![arg]);
            },
            Err(_) => {},
        }
    }
}

/// Whether what a parsing function returned is what the grammar gives.
pub open spec fn fits(r: Result<(Expr, usize), usize>, s: Result<(ExprView, int), int>) -> bool {
    match s {
        Ok((tree, next)) => r is Ok && r->Ok_0.0.view() == tree && r->Ok_0.1 == next,
        Err(at) => r is Err && r->Err_0 == at,
    }
}

/// Whether the arguments that a parsing function returned are what the
/// grammar gives.
pub open spec fn fit_all(
    r: Result<(Vec<Box<Expr>>, usize), usize>,
    s: Result<(Seq<ExprView>, int), int>,
) -> bool {
    match s {
        Ok((trees, next)) => r is Ok && Expr::views(r->Ok_0.0@) == trees && r->Ok_0.1 == next,
        Err(at) => r is Err && r->Err_0 == at,
    }
}

/// The operator that a token stands for between two terms.
fn additive_operator(tokens: &Vec<Token>, pos: usize) -> (op: Option<Operation>)
    ensures
        op == additive(peek(token_views(tokens@), pos as int)),
        op is Some ==> pos < tokens.len(),
{
    if pos >= tokens.len() {
        return None;
    }
    match &tokens[pos] {
        Token::Plus => Some(Operation::Add),
        Token::Minus => Some(Operation::Sub),
        _ => None,
    }
}

/// The operator that a token stands for between two factors.
fn multiplicative_operator(tokens: &Vec<Token>, pos: usize) -> (op: Option<Operation>)
    ensures
        op == multiplicative(peek(token_views(tokens@), pos as int)),
        op is Some ==> pos < tokens.len(),
{
    if pos >= tokens.len() {
        return None;
    }
    match &tokens[pos] {
        Token::Multiply => Some(Operation::Mul),
        Token::Divide => Some(Operation::Div),
        Token::FloorDivide => Some(Operation::FloorDiv),
        Token::Percent => Some(Operation::Mod),
        _ => None,
    }
}

/// Parses an atom at `pos`: a literal, a name, a call, or an expression in
/// parentheses.
fn parse_atom(tokens: &Vec<Token>, pos: usize) -> (r: Result<(Expr, usize), usize>)
    ensures
        fits(r, atom(token_views(tokens@), pos as int)),
        r is Ok ==> pos < r->Ok_0.1 <= tokens.len(),
    decreases remaining(token_views(tokens@), pos as int), 0nat,
{
    if pos >= tokens.len() {
        return Err(pos);
    }
    match &tokens[pos] {
        Token::Literal(text) => Ok((Expr::Num(text.clone()), pos + 1)),
        Token::Ident(name) => {
            if pos + 1 < tokens.len() && matches!(tokens[pos + 1], Token::LParen) {
                match parse_arguments(tokens, pos + 2) {
                    Ok((args, next)) => Ok((Expr::Func(name.clone(), args), next)),
                    Err(at) => Err(at),
                }
            } else {
                Ok((Expr::Var(name.clone()), pos + 1))
            }
        },
        Token::LParen => match parse_expr(tokens, pos + 1) {
            Ok((inner, next)) => {
                if next < tokens.len() && matches!(tokens[next], Token::RParen) {
                    Ok((inner, next + 1))
                } else {
                    Err(next)
                }
            },
            Err(at) => Err(at),
        },
        _ => Err(pos),
    }
}

/// Parses an atom and the factorial signs that follow it.
fn parse_postfix(tokens: &Vec<Token>, pos: usize) -> (r: Result<(Expr, usize), usize>)
    ensures
        fits(r, postfix(token_views(tokens@), pos as int)),
        r is Ok ==> pos < r->Ok_0.1 <= tokens.len(),
    decreases remaining(token_views(tokens@), pos as int), 1nat,
{
    match parse_atom(tokens, pos) {
        Err(at) => Err(at),
        Ok((atom_tree, after)) => {
            let ghost ts = token_views(tokens@);
            let ghost goal = postfix_rest(ts, after as int, atom_tree.view());
            let mut operand = atom_tree;
            let mut next = after;
            while next < tokens.len() && matches!(tokens[next], Token::Exclamation)
                invariant
                    pos < next <= tokens.len(),
                    ts == token_views(tokens@),
                    postfix_rest(ts, next as int, operand.view()) == goal,
                decreases tokens.len() - next,
            {
                operand = Expr::Fac(Box::new(operand));
                next += 1;
            }
            Ok((operand, next))
        },
    }
}

/// Parses a base, and its exponent if `^` follows.
fn parse_power(tokens: &Vec<Token>, pos: usize) -> (r: Result<(Expr, usize), usize>)
    ensures
        fits(r, power(token_views(tokens@), pos as int)),
        r is Ok ==> pos < r->Ok_0.1 <= tokens.len(),
    decreases remaining(token_views(tokens@), pos as int), 2nat,
{
    match parse_postfix(tokens, pos) {
        Err(at) => Err(at),
        Ok((base, next)) => {
            if next < tokens.len() && matches!(tokens[next], Token::Caret) {
                match parse_unary(tokens, next + 1) {
                    Ok((exponent, end)) => Ok(
                        (Expr::Op(Box::new(base), Operation::Exp, Box::new(exponent)), end),
                    ),
                    Err(at) => Err(at),
                }
            } else {
                Ok((base, next))
            }
        },
    }
}

/// Parses a power with the signs before it.
fn parse_unary(tokens: &Vec<Token>, pos: usize) -> (r: Result<(Expr, usize), usize>)
    ensures
        fits(r, unary(token_views(tokens@), pos as int)),
        r is Ok ==> pos < r->Ok_0.1 <= tokens.len(),
    decreases remaining(token_views(tokens@), pos as int), 3nat,
{
    if pos >= tokens.len() {
        return parse_power(tokens, pos);
    }
    match &tokens[pos] {
        Token::Minus => match parse_unary(tokens, pos + 1) {
            Ok((operand, next)) => {
                let zero = Expr::Num(String::from_str("0"));
                assert(zero.view() == ExprView::Num("0"@));
                let tree = Expr::Op(Box::new(zero), Operation::Sub, Box::new(operand));
                Ok((tree, next))
            },
            Err(at) => Err(at),
        },
        Token::Plus => parse_unary(tokens, pos + 1),
        _ => parse_power(tokens, pos),
    }
}

/// Parses a product of factors, grouped to the left.
fn parse_term(tokens: &Vec<Token>, pos: usize) -> (r: Result<(Expr, usize), usize>)
    ensures
        fits(r, term(token_views(tokens@), pos as int)),
        r is Ok ==> pos < r->Ok_0.1 <= tokens.len(),
    decreases remaining(token_views(tokens@), pos as int), 4nat,
{
    match parse_unary(tokens, pos) {
        Err(at) => Err(at),
        Ok((first, after)) => {
            let ghost ts = token_views(tokens@);
            let ghost goal = term_rest(ts, after as int, first.view());
            let mut lhs = first;
            let mut next = after;
            loop
                invariant
                    pos < next <= tokens.len(),
                    ts == token_views(tokens@),
                    term_rest(ts, next as int, lhs.view()) == goal,
                    term(ts, pos as int) == goal,
                decreases tokens.len() - next,
            {
                match multiplicative_operator(tokens, next) {
                    None => {
                        return Ok((lhs, next));
                    },
                    Some(op) => match parse_unary(tokens, next + 1) {
                        Err(at) => {
                            return Err(at);
                        },
                        Ok((rhs, end)) => {
                            lhs = Expr::Op(Box::new(lhs), op, Box::new(rhs));
                            next = end;
                        },
                    },
                }
            }
        },
    }
}

/// Parses a sum of terms, grouped to the left.
fn parse_expr(tokens: &Vec<Token>, pos: usize) -> (r: Result<(Expr, usize), usize>)
    ensures
        fits(r, expr(token_views(tokens@), pos as int)),
        r is Ok ==> pos < r->Ok_0.1 <= tokens.len(),
    decreases remaining(token_views(tokens@), pos as int), 5nat,
{
    match parse_term(tokens, pos) {
        Err(at) => Err(at),
        Ok((first, after)) => {
            let ghost ts = token_views(tokens@);
            let ghost goal = expr_rest(ts, after as int, first.view());
            let mut lhs = first;
            let mut next = after;
            loop
                invariant
                    pos < next <= tokens.len(),
                    ts == token_views(tokens@),
                    expr_rest(ts, next as int, lhs.view()) == goal,
                    expr(ts, pos as int) == goal,
                decreases tokens.len() - next,
            {
                match additive_operator(tokens, next) {
                    None => {
                        return Ok((lhs, next));
                    },
                    Some(op) => match parse_term(tokens, next + 1) {
                        Err(at) => {
                            return Err(at);
                        },
                        Ok((rhs, end)) => {
                            lhs = Expr::Op(Box::new(lhs), op, Box::new(rhs));
                            next = end;
                        },
                    },
                }
            }
        },
    }
}

/// Parses the arguments of a call, from after the opening parenthesis to
/// the closing one.
fn parse_arguments(tokens: &Vec<Token>, pos: usize) -> (r: Result<(Vec<Box<Expr>>, usize), usize>)
    ensures
        fit_all(r, arguments(token_views(tokens@), pos as int)),
        r is Ok ==> pos < r->Ok_0.1 <= tokens.len(),
    decreases remaining(token_views(tokens@), pos as int), 6nat,
{
    let mut args: Vec<Box<Expr>> = Vec::new();
    if pos < tokens.len() && matches!(tokens[pos], Token::RParen) {
        assert(Expr::views(args@) =~= Seq::<ExprView>::empty());
        return Ok((args, pos + 1));
    }
    match parse_expr(tokens, pos) {
        Err(at) => Err(at),
        Ok((first, after)) => {
            let ghost ts = token_views(tokens@);
            let ghost goal = arguments_rest(ts, after as int, seq![first.view()]);
            args.push(Box::new(first));
            assert(Expr::views(args@) =~= seq![first.view()]);
            let mut next = after;
            loop
                invariant
                    pos < next <= tokens.len(),
                    ts == token_views(tokens@),
                    arguments_rest(ts, next as int, Expr::views(args@)) == goal,
                    arguments(ts, pos as int) == goal,
                decreases tokens.len() - next,
            {
                if next >= tokens.len() {
                    return Err(next);
                }
                match &tokens[next] {
                    Token::Comma => match parse_expr(tokens, next + 1) {
                        Err(at) => {
                            return Err(at);
                        },
                        Ok((arg, end)) => {
                            proof {
                                assert(Expr::views(args@.push(Box::new(arg))) =~= Expr::views(
                                    args@,
                                ).push(arg.view()));
                            }
                            args.push(Box::new(arg));
                            next = end;
                        },
                    },
                    Token::RParen => {
                        return Ok((args, next + 1));
                    },
                    _ => {
                        return Err(next);
                    },
                }
            }
        },
    }
}

/// The message for a token at `at` that does not fit.
fn unexpected(tokens: &Vec<Token>, at: usize) -> (msg: String)
    ensures
        msg@ == unexpected_token(token_views(tokens@), at as int).msg,
{
    let mut msg = String::from_str("Unexpected token ");
    let shown = if at < tokens.len() {
        tokens[at].to_string()
    } else {
        Token::EOI.to_string()
    };
    msg.append(shown.as_str());
    msg
}

/// Parses a line of tokens into a statement, or finds the first token
/// that does not fit.
fn parse_statement(tokens: &Vec<Token>) -> (r: Result<Statement, usize>)
    ensures
        match statement(token_views(tokens@)) {
            Ok(s) => r is Ok && r->Ok_0.view() == s,
            Err(at) => r is Err && r->Err_0 == at,
        },
{
    let mut target: Option<String> = None;
    let mut start: usize = 0;
    if tokens.len() >= 2 && matches!(tokens[1], Token::Equals) {
        match &tokens[0] {
            Token::Ident(name) => {
                target = Some(name.clone());
                start = 2;
            },
            _ => {},
        }
    }
    match parse_expr(tokens, start) {
        Err(at) => Err(at),
        Ok((expr, next)) => {
            if next == tokens.len() {
                Ok(Statement { target, expr })
            } else {
                Err(next)
            }
        },
    }
}

/// Parses a line of tokens into a statement.
///
/// Succeeds exactly when the tokens, all of them, make a statement of the
/// grammar; otherwise the error names the first token that does not fit.
pub fn parse(tokens: &Vec<Token>) -> (r: Result<Statement, CalcError>)
    ensures
        match statement(token_views(tokens@)) {
            Ok(s) => r is Ok && r->Ok_0.view() == s,
            Err(at) => r is Err && r->Err_0@ == unexpected_token(token_views(tokens@), at),
        },
{
    match parse_statement(tokens) {
        Ok(statement) => Ok(statement),
        Err(at) => Err(CalcError::new(CalcErrorType::SyntaxError, unexpected(tokens, at))),
    }
}

/// Reads a line of text as a statement.
///
/// Succeeds exactly when the text splits into tokens that make a
/// statement of the grammar. Otherwise the error shows the text with a
/// mark at the first character that starts no token, or else at the first
/// token that does not fit.
pub fn parse_input(input_str: &str) -> (r: Result<Statement, CalcError>)
    ensures
        match parse_text(input_str@) {
            Ok(s) => r is Ok && r->Ok_0.view() == s,
            Err(e) => r is Err && r->Err_0@ == e,
        },
{
    match scan(input_str) {
        Err(e) => Err(e),
        Ok((tokens, found)) => match parse_statement(&tokens) {
            Ok(statement) => Ok(statement),
            Err(at) => {
                let place = if at < found.len() {
                    found[at]
                } else {
                    input_str.unicode_len()
                };
                let msg = mark(unexpected(&tokens, at), input_str, place);
                Err(CalcError::new(CalcErrorType::SyntaxError, msg))
            },
        },
    }
}

} // verus!

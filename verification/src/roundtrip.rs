//! Every tree can be written down and read back.
//!
//! `tokens_of` writes a tree as tokens, with every binary operation in
//! parentheses. The laws of this file say that the parser reads these
//! tokens back as the tree they were written from.

use vstd::prelude::*;
use crate::ast::{render, render_list, ExprView, Operation};
use crate::lexer::{
    digit, digits_end, fraction_end, ident_char, ident_end, is_digits, is_ident, is_number,
    is_number_split, lemma_digits_end, lemma_ident_end, lemma_ident_token_is_longest,
    lemma_number_token_is_longest, lemma_token_at_bounds, letter, lex, number_end, sign,
    token_at, white_space, TokenView,
};
use crate::parser::{
    additive, advance, arguments, arguments_rest, atom, binary, expr, expr_rest,
    expression_start, multiplicative, parse_text, peek, postfix, postfix_rest, power, remaining,
    statement, term, term_rest, unary, StatementView,
};

verus! {

/// The token of a binary operator.
pub open spec fn operator_token(op: Operation) -> TokenView {
    match op {
        Operation::Add => TokenView::Plus,
        Operation::Sub => TokenView::Minus,
        Operation::Mul => TokenView::Multiply,
        Operation::Div => TokenView::Divide,
        Operation::FloorDiv => TokenView::FloorDivide,
        Operation::Mod => TokenView::Percent,
        Operation::Exp => TokenView::Caret,
    }
}

/// The tokens of a list of trees, each with a comma before it.
pub open spec fn tokens_after(args: Seq<ExprView>) -> Seq<TokenView>
    decreases args, 0nat,
{
    if args.len() == 0 {
        Seq::empty()
    } else {
        seq![TokenView::Comma] + tokens_of(args[0]) + tokens_after(args.drop_first())
    }
}

/// The tokens of a list of trees, with a comma between neighbours.
pub open spec fn tokens_of_all(args: Seq<ExprView>) -> Seq<TokenView>
    decreases args, 1nat,
{
    if args.len() == 0 {
        Seq::empty()
    } else {
        tokens_of(args[0]) + tokens_after(args.drop_first())
    }
}

/// The tokens of a tree, with every binary operation in parentheses.
pub open spec fn tokens_of(e: ExprView) -> Seq<TokenView>
    decreases e, 2nat,
{
    match e {
        ExprView::Num(text) => seq![TokenView::Literal(text)],
        ExprView::Var(name) => seq![TokenView::Ident(name)],
        ExprView::Op(lhs, op, rhs) => seq![TokenView::LParen] + tokens_of(*lhs)
            + seq![operator_token(op)] + tokens_of(*rhs) + seq![TokenView::RParen],
        ExprView::Fac(operand) => tokens_of(*operand) + seq![TokenView::Exclamation],
        ExprView::Func(name, args) => seq![TokenView::Ident(name), TokenView::LParen]
            + tokens_of_all(args) + seq![TokenView::RParen],
    }
}

/// Whether the tokens `piece` stand in `ts` from `pos` on.
pub open spec fn stands_at(ts: Seq<TokenView>, pos: int, piece: Seq<TokenView>) -> bool {
    &&& 0 <= pos
    &&& pos + piece.len() <= ts.len()
    &&& ts.subrange(pos, pos + piece.len()) == piece
}

/// Where two pieces in a row stand, each of them stands.
proof fn lemma_stands_at_split(
    ts: Seq<TokenView>,
    pos: int,
    first: Seq<TokenView>,
    second: Seq<TokenView>,
)
    requires
        stands_at(ts, pos, first + second),
    ensures
        stands_at(ts, pos, first),
        stands_at(ts, pos + first.len(), second),
{
    let whole = ts.subrange(pos, pos + (first + second).len());
    assert forall|k: int| 0 <= k < first.len() implies ts[pos + k] == first[k] by {
        assert(whole[k] == (first + second)[k]);
    }
    assert forall|k: int| 0 <= k < second.len() implies ts[pos + first.len() + k]
        == second[k] by {
        assert(whole[first.len() + k] == (first + second)[first.len() + k]);
    }
    assert(ts.subrange(pos, pos + first.len()) =~= first);
    assert(ts.subrange(pos + first.len(), pos + first.len() + second.len()) =~= second);
}

/// Where one token stands, it is the token at that place.
proof fn lemma_stands_at_one(ts: Seq<TokenView>, pos: int, t: TokenView)
    requires
        stands_at(ts, pos, seq![t]),
    ensures
        peek(ts, pos) == t,
        pos < ts.len(),
{
    assert(ts.subrange(pos, pos + 1)[0] == t);
}

/// Whether a token can start the tokens of a tree.
pub open spec fn opens(t: TokenView) -> bool {
    t is Literal || t is Ident || t == TokenView::LParen
}

/// The tokens of a tree start with a literal, an identifier or an opening
/// parenthesis.
pub proof fn lemma_tokens_of_first(e: ExprView)
    ensures
        tokens_of(e).len() > 0,
        opens(tokens_of(e)[0]),
    decreases e,
{
    match e {
        ExprView::Fac(operand) => {
            lemma_tokens_of_first(*operand);
        },
        _ => {},
    }
}

/// Whether a token ends an expression: it is none that goes on with one.
pub open spec fn closes(t: TokenView) -> bool {
    t == TokenView::RParen || t == TokenView::Comma || t == TokenView::EOI
}

/// The arguments after the first are read back, up to the closing
/// parenthesis.
proof fn lemma_read_arguments_rest(
    ts: Seq<TokenView>,
    pos: int,
    done: Seq<ExprView>,
    coming: Seq<ExprView>,
)
    requires
        stands_at(ts, pos, tokens_after(coming) + seq![TokenView::RParen]),
    ensures
        arguments_rest(ts, pos, done) == Ok::<(Seq<ExprView>, int), int>(
            (done + coming, pos + tokens_after(coming).len() + 1),
        ),
    decreases coming, 0nat,
{
    let close = seq![TokenView::RParen];
    if coming.len() == 0 {
        lemma_stands_at_one(ts, pos, TokenView::RParen);
    } else {
        let comma = seq![TokenView::Comma];
        let first = tokens_of(coming[0]);
        let rest = coming.drop_first();
        let tail = tokens_after(rest) + close;
        assert(tokens_after(coming) + close =~= comma + (first + tail));
        lemma_stands_at_split(ts, pos, comma, first + tail);
        lemma_stands_at_one(ts, pos, TokenView::Comma);
        lemma_stands_at_split(ts, pos + 1, first, tail);
        let next = pos + 1 + first.len();
        lemma_follows_arguments(ts, next, rest);
        lemma_read_closed(coming[0], ts, pos + 1);
        lemma_read_arguments_rest(ts, next, done.push(coming[0]), rest);
        assert(done.push(coming[0]) + rest =~= done + coming);
    }
}

/// What stands before the closing parenthesis of a call starts with a
/// comma or is empty: the token there ends an expression.
proof fn lemma_follows_arguments(ts: Seq<TokenView>, pos: int, rest: Seq<ExprView>)
    requires
        stands_at(ts, pos, tokens_after(rest) + seq![TokenView::RParen]),
    ensures
        closes(peek(ts, pos)),
{
    let piece = tokens_after(rest) + seq![TokenView::RParen];
    assert(ts.subrange(pos, pos + piece.len())[0] == piece[0]);
}

/// The arguments of a call are read back.
proof fn lemma_read_arguments(ts: Seq<TokenView>, pos: int, args: Seq<ExprView>)
    requires
        stands_at(ts, pos, tokens_of_all(args) + seq![TokenView::RParen]),
    ensures
        arguments(ts, pos) == Ok::<(Seq<ExprView>, int), int>(
            (args, pos + tokens_of_all(args).len() + 1),
        ),
    decreases args, 1nat,
{
    let close = seq![TokenView::RParen];
    if args.len() == 0 {
        lemma_stands_at_one(ts, pos, TokenView::RParen);
        assert(args =~= Seq::empty());
    } else {
        let first = tokens_of(args[0]);
        let rest = args.drop_first();
        let tail = tokens_after(rest) + close;
        assert(tokens_of_all(args) + close =~= first + tail);
        lemma_stands_at_split(ts, pos, first, tail);
        lemma_tokens_of_first(args[0]);
        let next = pos + first.len();
        lemma_follows_arguments(ts, next, rest);
        lemma_read_closed(args[0], ts, pos);
        lemma_read_arguments_rest(ts, next, seq![args[0]], rest);
        assert(seq![args[0]] + rest =~= args);
    }
}

/// Two operands with an operator between them and a closing parenthesis
/// after them are read as the operation, if each operand is read as
/// itself.
proof fn lemma_read_operation(
    lhs: ExprView,
    op: Operation,
    rhs: ExprView,
    ts: Seq<TokenView>,
    left_at: int,
    sign_at: int,
    close_at: int,
)
    requires
        0 <= left_at < sign_at < close_at - 1,
        opens(peek(ts, left_at)),
        postfix(ts, left_at) == Ok::<(ExprView, int), int>((lhs, sign_at)),
        peek(ts, sign_at) == operator_token(op),
        unary(ts, sign_at + 1) == Ok::<(ExprView, int), int>((rhs, close_at)),
        term(ts, sign_at + 1) == Ok::<(ExprView, int), int>((rhs, close_at)),
        peek(ts, close_at) == TokenView::RParen,
    ensures
        expr(ts, left_at) == Ok::<(ExprView, int), int>((binary(lhs, op, rhs), close_at)),
{
}

/// An expression between parentheses is an atom.
proof fn lemma_atom_in_parentheses(ts: Seq<TokenView>, pos: int, inner: ExprView, close: int)
    requires
        peek(ts, pos) == TokenView::LParen,
        expr(ts, pos + 1) == Ok::<(ExprView, int), int>((inner, close)),
        peek(ts, close) == TokenView::RParen,
    ensures
        atom(ts, pos) == Ok::<(ExprView, int), int>((inner, close + 1)),
{
}

/// A name with arguments between parentheses is an atom.
proof fn lemma_atom_call(
    ts: Seq<TokenView>,
    pos: int,
    name: Seq<char>,
    args: Seq<ExprView>,
    next: int,
)
    requires
        peek(ts, pos) == TokenView::Ident(name),
        peek(ts, pos + 1) == TokenView::LParen,
        arguments(ts, pos + 2) == Ok::<(Seq<ExprView>, int), int>((args, next)),
    ensures
        atom(ts, pos) == Ok::<(ExprView, int), int>((ExprView::Func(name, args), next)),
{
}

/// A binary operation is read back as an atom.
proof fn lemma_read_binary(
    lhs: ExprView,
    op: Operation,
    rhs: ExprView,
    ts: Seq<TokenView>,
    pos: int,
)
    requires
        stands_at(ts, pos, tokens_of(binary(lhs, op, rhs))),
    ensures
        atom(ts, pos) == Ok::<(ExprView, int), int>(
            (binary(lhs, op, rhs), pos + tokens_of(binary(lhs, op, rhs)).len()),
        ),
    decreases binary(lhs, op, rhs), 0nat,
{
    let e = binary(lhs, op, rhs);
    let open = seq![TokenView::LParen];
    let left = tokens_of(lhs);
    let sign = seq![operator_token(op)];
    let right = tokens_of(rhs);
    let close = seq![TokenView::RParen];
    assert(tokens_of(e) =~= open + (left + (sign + (right + close))));
    lemma_stands_at_split(ts, pos, open, left + (sign + (right + close)));
    lemma_stands_at_one(ts, pos, TokenView::LParen);
    let left_at = pos + 1;
    lemma_stands_at_split(ts, left_at, left, sign + (right + close));
    let sign_at = left_at + left.len();
    lemma_stands_at_split(ts, sign_at, sign, right + close);
    lemma_stands_at_one(ts, sign_at, operator_token(op));
    let right_at = sign_at + 1;
    lemma_stands_at_split(ts, right_at, right, close);
    let close_at = right_at + right.len();
    lemma_stands_at_one(ts, close_at, TokenView::RParen);
    lemma_tokens_of_first(lhs);
    lemma_tokens_of_first(rhs);
    lemma_read_postfix(lhs, ts, left_at);
    lemma_read_closed(rhs, ts, right_at);
    lemma_read_operation(lhs, op, rhs, ts, left_at, sign_at, close_at);
    lemma_atom_in_parentheses(ts, pos, e, close_at);
}

/// A call is read back as an atom.
proof fn lemma_read_call(name: Seq<char>, args: Seq<ExprView>, ts: Seq<TokenView>, pos: int)
    requires
        stands_at(ts, pos, tokens_of(ExprView::Func(name, args))),
    ensures
        atom(ts, pos) == Ok::<(ExprView, int), int>(
            (ExprView::Func(name, args), pos + tokens_of(ExprView::Func(name, args)).len()),
        ),
    decreases ExprView::Func(name, args), 0nat,
{
    let e = ExprView::Func(name, args);
    let head = seq![TokenView::Ident(name), TokenView::LParen];
    let tail = tokens_of_all(args) + seq![TokenView::RParen];
    assert(tokens_of(e) =~= head + tail);
    lemma_stands_at_split(ts, pos, head, tail);
    lemma_read_arguments(ts, pos + 2, args);
    lemma_atom_call(ts, pos, name, args, pos + 2 + tokens_of_all(args).len() + 1);
}

/// A tree that is no factorial is read back as an atom, if no opening
/// parenthesis follows it.
proof fn lemma_read_atom(e: ExprView, ts: Seq<TokenView>, pos: int)
    requires
        stands_at(ts, pos, tokens_of(e)),
        !(e is Fac),
        peek(ts, pos + tokens_of(e).len()) != TokenView::LParen,
    ensures
        atom(ts, pos) == Ok::<(ExprView, int), int>((e, pos + tokens_of(e).len())),
    decreases e, 1nat,
{
    match e {
        ExprView::Num(text) => {
            lemma_stands_at_one(ts, pos, TokenView::Literal(text));
        },
        ExprView::Var(name) => {
            lemma_stands_at_one(ts, pos, TokenView::Ident(name));
        },
        ExprView::Op(lhs, op, rhs) => {
            lemma_read_binary(*lhs, op, *rhs, ts, pos);
        },
        ExprView::Fac(_) => {},
        ExprView::Func(name, args) => {
            lemma_read_call(name, args, ts, pos);
        },
    }
}

/// A tree is read back as a postfix expression, with the factorial signs
/// that follow it, if no opening parenthesis follows it.
proof fn lemma_read_postfix_more(e: ExprView, ts: Seq<TokenView>, pos: int)
    requires
        stands_at(ts, pos, tokens_of(e)),
        peek(ts, pos + tokens_of(e).len()) != TokenView::LParen,
    ensures
        postfix(ts, pos) == Ok::<(ExprView, int), int>(
            postfix_rest(ts, pos + tokens_of(e).len(), e),
        ),
    decreases e, 2nat,
{
    match e {
        ExprView::Fac(operand) => {
            let inner = tokens_of(*operand);
            let bang = seq![TokenView::Exclamation];
            lemma_stands_at_split(ts, pos, inner, bang);
            lemma_stands_at_one(ts, pos + inner.len(), TokenView::Exclamation);
            lemma_read_postfix_more(*operand, ts, pos);
        },
        _ => {
            lemma_read_atom(e, ts, pos);
        },
    }
}

/// A tree is read back as a postfix expression, if neither a factorial
/// sign nor an opening parenthesis follows it.
proof fn lemma_read_postfix(e: ExprView, ts: Seq<TokenView>, pos: int)
    requires
        stands_at(ts, pos, tokens_of(e)),
        peek(ts, pos + tokens_of(e).len()) != TokenView::LParen,
        peek(ts, pos + tokens_of(e).len()) != TokenView::Exclamation,
    ensures
        postfix(ts, pos) == Ok::<(ExprView, int), int>((e, pos + tokens_of(e).len())),
    decreases e, 3nat,
{
    lemma_read_postfix_more(e, ts, pos);
}

/// A tree is read back at every level of the grammar, if a token follows
/// it that ends an expression.
proof fn lemma_read_closed(e: ExprView, ts: Seq<TokenView>, pos: int)
    requires
        stands_at(ts, pos, tokens_of(e)),
        closes(peek(ts, pos + tokens_of(e).len())),
    ensures
        unary(ts, pos) == Ok::<(ExprView, int), int>((e, pos + tokens_of(e).len())),
        term(ts, pos) == Ok::<(ExprView, int), int>((e, pos + tokens_of(e).len())),
        expr(ts, pos) == Ok::<(ExprView, int), int>((e, pos + tokens_of(e).len())),
    decreases e, 4nat,
{
    lemma_tokens_of_first(e);
    lemma_read_postfix(e, ts, pos);
}

/// The tokens of a tree make the statement that evaluates the tree.
pub proof fn lemma_read_expression(e: ExprView)
    ensures
        statement(tokens_of(e)) == Ok::<StatementView, int>(
            StatementView { target: None, expr: e },
        ),
{
    let ts = tokens_of(e);
    assert(ts.subrange(0, ts.len() as int) =~= ts);
    lemma_read_closed(e, ts, 0);
    lemma_tokens_of_second(e);
}

/// A name, an equals sign and the tokens of a tree make the statement
/// that assigns the tree's value to the name.
pub proof fn lemma_read_assignment(name: Seq<char>, e: ExprView)
    ensures
        statement(seq![TokenView::Ident(name), TokenView::Equals] + tokens_of(e)) == Ok::<
            StatementView,
            int,
        >(StatementView { target: Some(name), expr: e }),
{
    let head = seq![TokenView::Ident(name), TokenView::Equals];
    let ts = head + tokens_of(e);
    assert(ts.subrange(2, ts.len() as int) =~= tokens_of(e));
    lemma_read_closed(e, ts, 2);
}

/// After an identifier at the start of the tokens of a tree comes an
/// opening parenthesis, a factorial sign, or nothing.
proof fn lemma_tokens_of_second(e: ExprView)
    ensures
        tokens_of(e)[0] is Ident ==> tokens_of(e).len() == 1 || tokens_of(e)[1]
            == TokenView::LParen || tokens_of(e)[1] == TokenView::Exclamation,
    decreases e,
{
    match e {
        ExprView::Fac(operand) => {
            lemma_tokens_of_second(*operand);
            lemma_tokens_of_first(*operand);
        },
        _ => {},
    }
}

/// Whether the names in a tree are identifiers and its literals numbers.
pub open spec fn well_written(e: ExprView) -> bool
    decreases e, 1nat,
{
    match e {
        ExprView::Num(text) => is_number(text),
        ExprView::Var(name) => is_ident(name),
        ExprView::Op(lhs, _, rhs) => well_written(*lhs) && well_written(*rhs),
        ExprView::Fac(operand) => well_written(*operand),
        ExprView::Func(name, args) => is_ident(name) && all_well_written(args),
    }
}

/// Whether every tree of a list is well written.
pub open spec fn all_well_written(args: Seq<ExprView>) -> bool
    decreases args, 0nat,
{
    if args.len() == 0 {
        true
    } else {
        all_well_written(args.drop_last()) && well_written(args.last())
    }
}

/// The tokens `ts` before the tokens of `rest`.
pub open spec fn before(ts: Seq<TokenView>, rest: Result<Seq<TokenView>, int>) -> Result<
    Seq<TokenView>,
    int,
> {
    match rest {
        Ok(more) => Ok(ts + more),
        Err(at) => Err(at),
    }
}

/// Whether the characters `piece` stand in `s` from `i` on.
pub open spec fn written_at(s: Seq<char>, i: int, piece: Seq<char>) -> bool {
    &&& 0 <= i
    &&& i + piece.len() <= s.len()
    &&& s.subrange(i, i + piece.len()) == piece
}

/// Whether the text ends at `i`, or goes on with a character that no
/// identifier and no number holds.
pub open spec fn ends_word(s: Seq<char>, i: int) -> bool {
    i >= s.len() || !ident_char(s[i])
}

/// Where two pieces of text in a row stand, each of them stands.
proof fn lemma_written_at_split(s: Seq<char>, i: int, first: Seq<char>, second: Seq<char>)
    requires
        written_at(s, i, first + second),
    ensures
        written_at(s, i, first),
        written_at(s, i + first.len(), second),
{
    let whole = s.subrange(i, i + (first + second).len());
    assert forall|k: int| 0 <= k < first.len() implies s[i + k] == first[k] by {
        assert(whole[k] == (first + second)[k]);
    }
    assert forall|k: int| 0 <= k < second.len() implies s[i + first.len() + k] == second[k] by {
        assert(whole[first.len() + k] == (first + second)[first.len() + k]);
    }
    assert(s.subrange(i, i + first.len()) =~= first);
    assert(s.subrange(i + first.len(), i + first.len() + second.len()) =~= second);
}

/// Where one character stands, it is the character at that place.
proof fn lemma_written_at_one(s: Seq<char>, i: int, c: char)
    requires
        written_at(s, i, seq![c]),
    ensures
        0 <= i < s.len(),
        s[i] == c,
{
    assert(s.subrange(i, i + 1)[0] == c);
}

/// A run of identifier characters reaches at least as far as they stand.
proof fn lemma_ident_run(s: Seq<char>, from: int, to: int)
    requires
        0 <= from <= to <= s.len(),
        forall|k: int| from <= k < to ==> ident_char(#[trigger] s[k]),
    ensures
        ident_end(s, from) >= to,
    decreases to - from,
{
    if from < to {
        lemma_ident_run(s, from + 1, to);
    } else {
        lemma_ident_end(s, from);
    }
}

/// An identifier that stands in the text before the end of a word is one
/// token.
proof fn lemma_lex_ident(s: Seq<char>, i: int, name: Seq<char>)
    requires
        written_at(s, i, name),
        is_ident(name),
        ends_word(s, i + name.len()),
    ensures
        lex(s, i) == before(seq![TokenView::Ident(name)], lex(s, i + name.len())),
{
    let end = i + name.len();
    let piece = s.subrange(i, end);
    assert forall|k: int| i + 1 <= k < end implies ident_char(#[trigger] s[k]) by {
        assert(piece[k - i] == s[k]);
    }
    lemma_ident_run(s, i + 1, end);
    lemma_ident_end(s, i + 1);
}

/// The characters of a number token are digits, points and `e`.
proof fn lemma_number_chars(s: Seq<char>, i: int)
    requires
        0 <= i < s.len(),
    ensures
        i <= number_end(s, i) <= s.len(),
        forall|k: int| i <= k < number_end(s, i) ==> ident_char(#[trigger] s[k]),
{
    let a = digits_end(s, i);
    let b = fraction_end(s, a);
    lemma_digits_end(s, i);
    if a < s.len() {
        lemma_digits_end(s, a + 1);
    }
    if b < s.len() {
        lemma_digits_end(s, b + 1);
    }
}

/// A number that stands in the text before the end of a word is one
/// token.
proof fn lemma_lex_number(s: Seq<char>, i: int, text: Seq<char>)
    requires
        written_at(s, i, text),
        is_number(text),
        ends_word(s, i + text.len()),
    ensures
        lex(s, i) == before(seq![TokenView::Literal(text)], lex(s, i + text.len())),
{
    let (x, y) = choose|x: int, y: int| is_number_split(text, x, y);
    assert(text.subrange(0, x)[0] == text[0]);
    lemma_number_token_is_longest(s, i);
    lemma_number_chars(s, i);
}

/// A sign that stands in the text is one token, unless it is the first of
/// two slashes.
proof fn lemma_lex_sign(s: Seq<char>, i: int, c: char)
    requires
        0 <= i < s.len(),
        s[i] == c,
        sign(c) is Some,
        !(c == '/' && i + 1 < s.len() && s[i + 1] == '/'),
    ensures
        lex(s, i) == before(seq![sign(c)->Some_0], lex(s, i + 1)),
{
}

/// Two slashes that stand in the text are one token.
proof fn lemma_lex_two_slashes(s: Seq<char>, i: int)
    requires
        0 <= i,
        i + 1 < s.len(),
        s[i] == '/',
        s[i + 1] == '/',
    ensures
        lex(s, i) == before(seq![TokenView::FloorDivide], lex(s, i + 2)),
{
}

/// The text of a well-written tree starts with a letter, a digit or an
/// opening parenthesis.
proof fn lemma_render_first(e: ExprView)
    requires
        well_written(e),
    ensures
        render(e).len() > 0,
        letter(render(e)[0]) || digit(render(e)[0]) || render(e)[0] == '(',
    decreases e,
{
    reveal_strlit("(");
    match e {
        ExprView::Num(text) => {
            let (x, y) = choose|x: int, y: int| is_number_split(text, x, y);
            assert(text.subrange(0, x)[0] == text[0]);
        },
        ExprView::Fac(operand) => {
            lemma_render_first(*operand);
        },
        _ => {},
    }
}

/// The tokens of `first`, then those of `second`, then what `rest` holds.
proof fn lemma_before_twice(
    first: Seq<TokenView>,
    second: Seq<TokenView>,
    rest: Result<Seq<TokenView>, int>,
)
    ensures
        before(first, before(second, rest)) == before(first + second, rest),
{
    match rest {
        Ok(more) => {
            assert(first + (second + more) =~= (first + second) + more);
        },
        Err(_) => {},
    }
}

/// The sign of an operator is read as the operator's token, if an operand
/// follows it.
proof fn lemma_lex_operator(s: Seq<char>, i: int, op: Operation)
    requires
        written_at(s, i, op.symbol()),
        i + op.symbol().len() < s.len(),
        s[i + op.symbol().len()] != '/',
    ensures
        lex(s, i) == before(seq![operator_token(op)], lex(s, i + op.symbol().len())),
{
    reveal_strlit("+");
    reveal_strlit("-");
    reveal_strlit("*");
    reveal_strlit("/");
    reveal_strlit("//");
    reveal_strlit("%");
    reveal_strlit("^");
    let piece = s.subrange(i, i + op.symbol().len());
    assert(piece[0] == s[i]);
    if op == Operation::FloorDiv {
        assert(piece[1] == s[i + 1]);
        lemma_lex_two_slashes(s, i);
    } else {
        lemma_lex_sign(s, i, s[i]);
    }
}

/// The text of a list of well-written trees is read as their tokens, if
/// it stands before the end of a word.
proof fn lemma_lex_render_list(args: Seq<ExprView>, s: Seq<char>, i: int)
    requires
        all_well_written(args),
        written_at(s, i, render_list(args)),
        ends_word(s, i + render_list(args).len()),
    ensures
        lex(s, i) == before(tokens_of_all(args), lex(s, i + render_list(args).len())),
    decreases args, 0nat,
{
    if args.len() == 1 {
        lemma_lex_render(args[0], s, i);
    } else if args.len() > 1 {
        reveal_strlit(",");
        let front = args.drop_last();
        let head = render_list(front);
        let comma = ","@;
        let last = render(args.last());
        assert(render_list(args) =~= head + (comma + last));
        lemma_written_at_split(s, i, head, comma + last);
        let j = i + head.len();
        lemma_written_at_split(s, j, comma, last);
        assert(comma =~= seq![',']);
        lemma_written_at_one(s, j, ',');
        lemma_lex_render_list(front, s, i);
        lemma_lex_sign(s, j, ',');
        lemma_lex_render(args.last(), s, j + 1);
        lemma_tokens_of_all_last(args);
        let rest = lex(s, i + render_list(args).len());
        lemma_before_twice(seq![TokenView::Comma], tokens_of(args.last()), rest);
        lemma_before_twice(
            tokens_of_all(front),
            seq![TokenView::Comma] + tokens_of(args.last()),
            rest,
        );
        assert(tokens_of_all(front) + (seq![TokenView::Comma] + tokens_of(args.last()))
            =~= tokens_of_all(args));
    }
}

/// The tokens after the first tree of a list are those after the first
/// of its front, then a comma and the tokens of its last tree.
proof fn lemma_tokens_after_last(args: Seq<ExprView>)
    requires
        args.len() >= 1,
    ensures
        tokens_after(args) == tokens_after(args.drop_last()) + seq![TokenView::Comma]
            + tokens_of(args.last()),
    decreases args.len(),
{
    if args.len() == 1 {
        assert(tokens_after(args.drop_first()) =~= Seq::empty());
    } else {
        let rest = args.drop_first();
        lemma_tokens_after_last(rest);
        assert(rest.drop_last() =~= args.drop_last().drop_first());
    }
}

/// The tokens of a list of two trees or more are those of its front, then
/// a comma and the tokens of its last tree.
proof fn lemma_tokens_of_all_last(args: Seq<ExprView>)
    requires
        args.len() >= 2,
    ensures
        tokens_of_all(args) == tokens_of_all(args.drop_last()) + seq![TokenView::Comma]
            + tokens_of(args.last()),
{
    let rest = args.drop_first();
    lemma_tokens_after_last(rest);
    assert(rest.drop_last() =~= args.drop_last().drop_first());
}

/// The text of a well-written tree is read as its tokens, if it stands
/// before the end of a word.
proof fn lemma_lex_render(e: ExprView, s: Seq<char>, i: int)
    requires
        well_written(e),
        written_at(s, i, render(e)),
        ends_word(s, i + render(e).len()),
    ensures
        lex(s, i) == before(tokens_of(e), lex(s, i + render(e).len())),
    decreases e, 1nat,
{
    let rest = lex(s, i + render(e).len());
    match e {
        ExprView::Num(text) => {
            lemma_lex_number(s, i, text);
        },
        ExprView::Var(name) => {
            lemma_lex_ident(s, i, name);
        },
        ExprView::Op(lhs, op, rhs) => {
            lemma_lex_render_binary(*lhs, op, *rhs, s, i);
        },
        ExprView::Fac(operand) => {
            reveal_strlit("!");
            let inner = render(*operand);
            let bang = "!"@;
            assert(bang =~= seq!['!']);
            lemma_written_at_split(s, i, inner, bang);
            let j = i + inner.len();
            lemma_written_at_one(s, j, '!');
            lemma_lex_render(*operand, s, i);
            lemma_lex_sign(s, j, '!');
            lemma_before_twice(tokens_of(*operand), seq![TokenView::Exclamation], rest);
        },
        ExprView::Func(name, args) => {
            lemma_lex_render_call(name, args, s, i);
        },
    }
}

/// The text of a binary operation on well-written trees is read as its
/// tokens.
proof fn lemma_lex_render_binary(lhs: ExprView, op: Operation, rhs: ExprView, s: Seq<char>, i: int)
    requires
        well_written(lhs),
        well_written(rhs),
        written_at(s, i, render(binary(lhs, op, rhs))),
    ensures
        lex(s, i) == before(
            tokens_of(binary(lhs, op, rhs)),
            lex(s, i + render(binary(lhs, op, rhs)).len()),
        ),
    decreases binary(lhs, op, rhs), 0nat,
{
    reveal_strlit("(");
    reveal_strlit(")");
    reveal_strlit("+");
    reveal_strlit("-");
    reveal_strlit("*");
    reveal_strlit("/");
    reveal_strlit("//");
    reveal_strlit("%");
    reveal_strlit("^");
    let e = binary(lhs, op, rhs);
    let rest = lex(s, i + render(e).len());
    let open = "("@;
    let left = render(lhs);
    let symbol = op.symbol();
    let right = render(rhs);
    let close = ")"@;
    assert(open =~= seq!['(']);
    assert(close =~= seq![')']);
    assert(render(e) =~= open + (left + (symbol + (right + close))));
    lemma_written_at_split(s, i, open, left + (symbol + (right + close)));
    lemma_written_at_one(s, i, '(');
    let left_at = i + 1;
    lemma_written_at_split(s, left_at, left, symbol + (right + close));
    let sign_at = left_at + left.len();
    lemma_written_at_split(s, sign_at, symbol, right + close);
    let right_at = sign_at + symbol.len();
    lemma_written_at_split(s, right_at, right, close);
    let close_at = right_at + right.len();
    lemma_written_at_one(s, close_at, ')');
    lemma_render_first(rhs);
    assert(s.subrange(sign_at, sign_at + symbol.len())[0] == symbol[0]);
    lemma_lex_sign(s, i, '(');
    lemma_lex_render(lhs, s, left_at);
    lemma_lex_operator(s, sign_at, op);
    lemma_lex_render(rhs, s, right_at);
    lemma_lex_sign(s, close_at, ')');
    let t_open = seq![TokenView::LParen];
    let t_left = tokens_of(lhs);
    let t_sign = seq![operator_token(op)];
    let t_right = tokens_of(rhs);
    let t_close = seq![TokenView::RParen];
    lemma_before_twice(t_right, t_close, rest);
    lemma_before_twice(t_sign, t_right + t_close, rest);
    lemma_before_twice(t_left, t_sign + (t_right + t_close), rest);
    lemma_before_twice(t_open, t_left + (t_sign + (t_right + t_close)), rest);
    assert(t_open + (t_left + (t_sign + (t_right + t_close))) =~= tokens_of(e));
}

/// The text of a call with well-written arguments is read as its tokens.
proof fn lemma_lex_render_call(name: Seq<char>, args: Seq<ExprView>, s: Seq<char>, i: int)
    requires
        is_ident(name),
        all_well_written(args),
        written_at(s, i, render(ExprView::Func(name, args))),
    ensures
        lex(s, i) == before(
            tokens_of(ExprView::Func(name, args)),
            lex(s, i + render(ExprView::Func(name, args)).len()),
        ),
    decreases ExprView::Func(name, args), 0nat,
{
    reveal_strlit("(");
    reveal_strlit(")");
    let e = ExprView::Func(name, args);
    let rest = lex(s, i + render(e).len());
    let open = "("@;
    let list = render_list(args);
    let close = ")"@;
    assert(open =~= seq!['(']);
    assert(close =~= seq![')']);
    assert(render(e) =~= name + (open + (list + close)));
    lemma_written_at_split(s, i, name, open + (list + close));
    let open_at = i + name.len();
    lemma_written_at_split(s, open_at, open, list + close);
    lemma_written_at_one(s, open_at, '(');
    let list_at = open_at + 1;
    lemma_written_at_split(s, list_at, list, close);
    let close_at = list_at + list.len();
    lemma_written_at_one(s, close_at, ')');
    lemma_lex_ident(s, i, name);
    lemma_lex_sign(s, open_at, '(');
    lemma_lex_render_list(args, s, list_at);
    lemma_lex_sign(s, close_at, ')');
    let t_name = seq![TokenView::Ident(name)];
    let t_open = seq![TokenView::LParen];
    let t_args = tokens_of_all(args);
    let t_close = seq![TokenView::RParen];
    lemma_before_twice(t_args, t_close, rest);
    lemma_before_twice(t_open, t_args + t_close, rest);
    lemma_before_twice(t_name, t_open + (t_args + t_close), rest);
    assert(t_name + (t_open + (t_args + t_close)) =~= tokens_of(e));
}

/// The text of a well-written tree is split into the tokens of the tree.
pub proof fn lemma_lex_render_is_tokens_of(e: ExprView)
    requires
        well_written(e),
    ensures
        lex(render(e), 0) == Ok::<Seq<TokenView>, int>(tokens_of(e)),
{
    let s = render(e);
    assert(s.subrange(0, s.len() as int) =~= s);
    lemma_lex_render(e, s, 0);
}

/// A tree that is shown as text and read back is the same tree: parsing
/// undoes `Expr::to_string`, for every tree whose names are identifiers
/// and whose literals are numbers.
pub proof fn lemma_parse_render(e: ExprView)
    requires
        well_written(e),
    ensures
        parse_text(render(e)) == Ok::<StatementView, crate::error::ErrorView>(
            StatementView { target: None, expr: e },
        ),
{
    lemma_lex_render_is_tokens_of(e);
    lemma_read_expression(e);
}

/// Whether a token is one that the text of a line can give: an
/// identifier that is one, a literal that is a number, or a sign.
pub open spec fn well_written_token(t: TokenView) -> bool {
    match t {
        TokenView::EOI => false,
        TokenView::Ident(name) => is_ident(name),
        TokenView::Literal(text) => is_number(text),
        _ => true,
    }
}

/// Whether every token of a sequence is well written.
pub open spec fn well_written_tokens(ts: Seq<TokenView>) -> bool {
    forall|k: int| 0 <= k < ts.len() ==> well_written_token(#[trigger] ts[k])
}

/// The tokens of a text are well written: none is the end mark, every
/// identifier is one, and every literal is a number.
pub proof fn lemma_lex_well_written(s: Seq<char>, i: int)
    requires
        lex(s, i) is Ok,
    ensures
        well_written_tokens(lex(s, i)->Ok_0),
    decreases s.len() - i,
{
    if 0 <= i < s.len() {
        if white_space(s[i]) {
            lemma_lex_well_written(s, i + 1);
        } else {
            let j = token_at(s, i)->Some_0.1;
            lemma_token_at_bounds(s, i);
            lemma_lex_well_written(s, j);
            if letter(s[i]) {
                lemma_ident_token_is_longest(s, i);
            } else if digit(s[i]) {
                lemma_number_token_is_longest(s, i);
            }
        }
    }
}

/// Whether the tree of a parse is well written, if there is one.
pub open spec fn reads_well(r: Result<(ExprView, int), int>) -> bool {
    r is Ok ==> well_written(r->Ok_0.0)
}

/// Whether the trees of a parse of arguments are well written, if there
/// are any.
pub open spec fn read_well(r: Result<(Seq<ExprView>, int), int>) -> bool {
    r is Ok ==> all_well_written(r->Ok_0.0)
}

/// An atom of well-written tokens is a well-written tree.
proof fn lemma_atom_well_written(ts: Seq<TokenView>, pos: int)
    requires
        well_written_tokens(ts),
    ensures
        reads_well(atom(ts, pos)),
    decreases remaining(ts, pos), 0nat,
{
    match peek(ts, pos) {
        TokenView::Ident(name) => {
            if peek(ts, pos + 1) == TokenView::LParen {
                lemma_arguments_well_written(ts, pos + 2);
            }
        },
        TokenView::LParen => {
            lemma_expr_well_written(ts, pos + 1);
        },
        _ => {},
    }
}

/// Factorial signs keep a tree well written.
proof fn lemma_postfix_rest_well_written(ts: Seq<TokenView>, pos: int, operand: ExprView)
    requires
        well_written(operand),
    ensures
        well_written(postfix_rest(ts, pos, operand).0),
    decreases remaining(ts, pos), 0nat,
{
    if peek(ts, pos) == TokenView::Exclamation {
        lemma_postfix_rest_well_written(ts, pos + 1, ExprView::Fac(Box::new(operand)));
    }
}

/// A postfix expression of well-written tokens is a well-written tree.
proof fn lemma_postfix_well_written(ts: Seq<TokenView>, pos: int)
    requires
        well_written_tokens(ts),
    ensures
        reads_well(postfix(ts, pos)),
    decreases remaining(ts, pos), 1nat,
{
    lemma_atom_well_written(ts, pos);
    match atom(ts, pos) {
        Ok((operand, next)) => {
            lemma_postfix_rest_well_written(ts, next, operand);
        },
        Err(_) => {},
    }
}

/// A power of well-written tokens is a well-written tree.
proof fn lemma_power_well_written(ts: Seq<TokenView>, pos: int)
    requires
        well_written_tokens(ts),
    ensures
        reads_well(power(ts, pos)),
    decreases remaining(ts, pos), 2nat,
{
    lemma_postfix_well_written(ts, pos);
    match postfix(ts, pos) {
        Ok((_, next)) => {
            let next = advance(pos, next);
            if peek(ts, next) == TokenView::Caret {
                lemma_unary_well_written(ts, next + 1);
            }
        },
        Err(_) => {},
    }
}

/// The literal zero is a number.
proof fn lemma_zero_is_number()
    ensures
        is_number("0"@),
{
    reveal_strlit("0");
    let zero = "0"@;
    assert(is_digits(zero.subrange(0, 1)));
    assert(is_number_split(zero, 1, 1));
}

/// A signed power of well-written tokens is a well-written tree.
proof fn lemma_unary_well_written(ts: Seq<TokenView>, pos: int)
    requires
        well_written_tokens(ts),
    ensures
        reads_well(unary(ts, pos)),
    decreases remaining(ts, pos), 3nat,
{
    match peek(ts, pos) {
        TokenView::Minus => {
            lemma_unary_well_written(ts, pos + 1);
            lemma_zero_is_number();
            assert(well_written(ExprView::Num("0"@)));
        },
        TokenView::Plus => {
            lemma_unary_well_written(ts, pos + 1);
        },
        _ => {
            lemma_power_well_written(ts, pos);
        },
    }
}

/// The factors after a well-written operand make a well-written tree.
proof fn lemma_term_rest_well_written(ts: Seq<TokenView>, pos: int, lhs: ExprView)
    requires
        well_written_tokens(ts),
        well_written(lhs),
    ensures
        reads_well(term_rest(ts, pos, lhs)),
    decreases remaining(ts, pos), 0nat,
{
    match multiplicative(peek(ts, pos)) {
        Some(op) => {
            lemma_unary_well_written(ts, pos + 1);
            match unary(ts, pos + 1) {
                Ok((rhs, next)) => {
                    lemma_term_rest_well_written(
                        ts,
                        advance(pos + 1, next),
                        binary(lhs, op, rhs),
                    );
                },
                Err(_) => {},
            }
        },
        None => {},
    }
}

/// A term of well-written tokens is a well-written tree.
proof fn lemma_term_well_written(ts: Seq<TokenView>, pos: int)
    requires
        well_written_tokens(ts),
    ensures
        reads_well(term(ts, pos)),
    decreases remaining(ts, pos), 4nat,
{
    lemma_unary_well_written(ts, pos);
    match unary(ts, pos) {
        Ok((lhs, next)) => {
            lemma_term_rest_well_written(ts, advance(pos, next), lhs);
        },
        Err(_) => {},
    }
}

/// The terms after a well-written operand make a well-written tree.
proof fn lemma_expr_rest_well_written(ts: Seq<TokenView>, pos: int, lhs: ExprView)
    requires
        well_written_tokens(ts),
        well_written(lhs),
    ensures
        reads_well(expr_rest(ts, pos, lhs)),
    decreases remaining(ts, pos), 0nat,
{
    match additive(peek(ts, pos)) {
        Some(op) => {
            lemma_term_well_written(ts, pos + 1);
            match term(ts, pos + 1) {
                Ok((rhs, next)) => {
                    lemma_expr_rest_well_written(
                        ts,
                        advance(pos + 1, next),
                        binary(lhs, op, rhs),
                    );
                },
                Err(_) => {},
            }
        },
        None => {},
    }
}

/// An expression of well-written tokens is a well-written tree.
pub proof fn lemma_expr_well_written(ts: Seq<TokenView>, pos: int)
    requires
        well_written_tokens(ts),
    ensures
        reads_well(expr(ts, pos)),
    decreases remaining(ts, pos), 5nat,
{
    lemma_term_well_written(ts, pos);
    match term(ts, pos) {
        Ok((lhs, next)) => {
            lemma_expr_rest_well_written(ts, advance(pos, next), lhs);
        },
        Err(_) => {},
    }
}

/// The arguments after well-written ones are well written.
proof fn lemma_arguments_rest_well_written(ts: Seq<TokenView>, pos: int, args: Seq<ExprView>)
    requires
        well_written_tokens(ts),
        all_well_written(args),
    ensures
        read_well(arguments_rest(ts, pos, args)),
    decreases remaining(ts, pos), 0nat,
{
    match peek(ts, pos) {
        TokenView::Comma => {
            lemma_expr_well_written(ts, pos + 1);
            match expr(ts, pos + 1) {
                Ok((arg, next)) => {
                    assert(args.push(arg).drop_last() =~= args);
                    lemma_arguments_rest_well_written(
                        ts,
                        advance(pos + 1, next),
                        args.push(arg),
                    );
                },
                Err(_) => {},
            }
        },
        _ => {},
    }
}

/// The arguments of a call of well-written tokens are well written.
proof fn lemma_arguments_well_written(ts: Seq<TokenView>, pos: int)
    requires
        well_written_tokens(ts),
    ensures
        read_well(arguments(ts, pos)),
    decreases remaining(ts, pos), 6nat,
{
    if peek(ts, pos) != TokenView::RParen {
        lemma_expr_well_written(ts, pos);
        match expr(ts, pos) {
            Ok((arg, next)) => {
                assert(all_well_written(seq![arg].drop_last()));
                lemma_arguments_rest_well_written(ts, advance(pos, next), seq![arg]);
            },
            Err(_) => {},
        }
    }
}

/// The tree of a line that parses is well written, and so is its target.
pub proof fn lemma_parse_text_well_written(input: Seq<char>)
    requires
        parse_text(input) is Ok,
    ensures
        well_written(parse_text(input)->Ok_0.expr),
        parse_text(input)->Ok_0.target is Some ==> is_ident(parse_text(input)->Ok_0.target->Some_0),
{
    let ts = lex(input, 0)->Ok_0;
    lemma_lex_well_written(input, 0);
    lemma_expr_well_written(ts, expression_start(ts));
}

/// The tree of a line, shown as text and read back, is the same tree.
pub proof fn lemma_show_and_read_back(input: Seq<char>)
    requires
        parse_text(input) is Ok,
    ensures
        parse_text(render(parse_text(input)->Ok_0.expr)) == Ok::<
            StatementView,
            crate::error::ErrorView,
        >(StatementView { target: None, expr: parse_text(input)->Ok_0.expr }),
{
    lemma_parse_text_well_written(input);
    lemma_parse_render(parse_text(input)->Ok_0.expr);
}

} // verus!

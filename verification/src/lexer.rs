//! From text to tokens.
//!
//! A token is the longest piece of text, from where the last one ended, that
//! is an identifier, a number, or an operator sign. White space separates
//! tokens and is dropped.

use vstd::prelude::*;
use vstd::string::*;
use crate::error::{CalcError, CalcErrorType, ErrorView};

verus! {

/// A token as contracts see it.
pub enum TokenView {
    EOI,
    Ident(Seq<char>),
    Literal(Seq<char>),
    LParen,
    RParen,
    Plus,
    Minus,
    Multiply,
    Divide,
    Percent,
    Caret,
    Exclamation,
    Comma,
    FloorDivide,
    Equals,
}

/// A token. `EOI` stands for the end of the input; an identifier and a
/// literal keep their text.
#[derive(Debug, Clone, PartialEq)]
pub enum Token {
    EOI,
    Ident(String),
    Literal(String),
    LParen,
    RParen,
    Plus,
    Minus,
    Multiply,
    Divide,
    Percent,
    Caret,
    Exclamation,
    Comma,
    FloorDivide,
    Equals,
}

impl View for Token {
    type V = TokenView;

    open spec fn view(&self) -> TokenView {
        match self {
            Token::EOI => TokenView::EOI,
            Token::Ident(name) => TokenView::Ident(name@),
            Token::Literal(text) => TokenView::Literal(text@),
            Token::LParen => TokenView::LParen,
            Token::RParen => TokenView::RParen,
            Token::Plus => TokenView::Plus,
            Token::Minus => TokenView::Minus,
            Token::Multiply => TokenView::Multiply,
            Token::Divide => TokenView::Divide,
            Token::Percent => TokenView::Percent,
            Token::Caret => TokenView::Caret,
            Token::Exclamation => TokenView::Exclamation,
            Token::Comma => TokenView::Comma,
            Token::FloorDivide => TokenView::FloorDivide,
            Token::Equals => TokenView::Equals,
        }
    }
}

impl TokenView {
    /// What stands between the brackets when the token is shown.
    pub open spec fn content(self) -> Seq<char> {
        match self {
            TokenView::EOI => "EOI"@,
            TokenView::Ident(name) => "\""@ + name + "\""@,
            TokenView::Literal(text) => text,
            TokenView::LParen => "("@,
            TokenView::RParen => ")"@,
            TokenView::Plus => "+"@,
            TokenView::Minus => "-"@,
            TokenView::Multiply => "*"@,
            TokenView::Divide => "/"@,
            TokenView::Percent => "%"@,
            TokenView::Caret => "^"@,
            TokenView::Exclamation => "!"@,
            TokenView::Comma => ","@,
            TokenView::FloorDivide => "//"@,
            TokenView::Equals => "="@,
        }
    }

    /// The token as it is shown: its content in square brackets.
    pub open spec fn rendering(self) -> Seq<char> {
        "["@ + self.content() + "]"@
    }
}

impl Token {
    /// The token as text: its content in square brackets, an identifier in
    /// double quotes.
    pub fn to_string(&self) -> (s: String)
        ensures
            s@ == self@.rendering(),
    {
        let mut s = String::from_str("[");
        match self {
            Token::EOI => s.append("EOI"),
            Token::Ident(name) => {
                s.append("\"");
                s.append(name.as_str());
                s.append("\"");
            },
            Token::Literal(text) => s.append(text.as_str()),
            Token::LParen => s.append("("),
            Token::RParen => s.append(")"),
            Token::Plus => s.append("+"),
            Token::Minus => s.append("-"),
            Token::Multiply => s.append("*"),
            Token::Divide => s.append("/"),
            Token::Percent => s.append("%"),
            Token::Caret => s.append("^"),
            Token::Exclamation => s.append("!"),
            Token::Comma => s.append(","),
            Token::FloorDivide => s.append("//"),
            Token::Equals => s.append("="),
        }
        s.append("]");
        s
    }
}

/// The views of a sequence of tokens.
pub open spec fn token_views(tokens: Seq<Token>) -> Seq<TokenView> {
    tokens.map_values(|t: Token| t@)
}

/// Whether `c` is white space: a character that Unicode classes as
/// White_Space.
pub open spec fn white_space(c: char) -> bool {
    let n = c as u32;
    ||| 0x09 <= n <= 0x0D
    ||| n == 0x20
    ||| n == 0x85
    ||| n == 0xA0
    ||| n == 0x1680
    ||| 0x2000 <= n <= 0x200A
    ||| n == 0x2028
    ||| n == 0x2029
    ||| n == 0x202F
    ||| n == 0x205F
    ||| n == 0x3000
}

/// Whether `c` is one of the letters `a` to `z` and `A` to `Z`.
pub open spec fn letter(c: char) -> bool {
    ('a' <= c && c <= 'z') || ('A' <= c && c <= 'Z')
}

/// Whether `c` is one of the digits `0` to `9`.
pub open spec fn digit(c: char) -> bool {
    '0' <= c && c <= '9'
}

/// Whether `c` may stand in an identifier after its first letter.
pub open spec fn ident_char(c: char) -> bool {
    letter(c) || digit(c) || c == '_' || c == '.'
}

/// Whether `s` is an identifier: a letter, then letters, digits, `_` and `.`.
pub open spec fn is_ident(s: Seq<char>) -> bool {
    &&& s.len() > 0
    &&& letter(s[0])
    &&& forall|i: int| 1 <= i < s.len() ==> ident_char(#[trigger] s[i])
}

/// Whether `s` is made of digits, at least one.
pub open spec fn is_digits(s: Seq<char>) -> bool {
    &&& s.len() > 0
    &&& forall|i: int| 0 <= i < s.len() ==> digit(#[trigger] s[i])
}

/// Whether `s` is a number that ends its whole part at `i` and its
/// fraction at `j`.
pub open spec fn is_number_split(s: Seq<char>, i: int, j: int) -> bool {
    &&& 0 < i <= j <= s.len()
    &&& is_digits(s.subrange(0, i))
    &&& j == i || (s[i] == '.' && is_digits(s.subrange(i + 1, j)))
    &&& j == s.len() || (s[j] == 'e' && is_digits(s.subrange(j + 1, s.len() as int)))
}

/// Whether `s` is a number: digits, then optionally a point and digits,
/// then optionally `e` and digits.
pub open spec fn is_number(s: Seq<char>) -> bool {
    exists|i: int, j: int| is_number_split(s, i, j)
}

/// Where the run of digits that starts at `i` ends.
pub open spec fn digits_end(s: Seq<char>, i: int) -> int
    decreases s.len() - i,
{
    if 0 <= i < s.len() && digit(s[i]) {
        digits_end(s, i + 1)
    } else {
        i
    }
}

/// Where the run of identifier characters that starts at `i` ends.
pub open spec fn ident_end(s: Seq<char>, i: int) -> int
    decreases s.len() - i,
{
    if 0 <= i < s.len() && ident_char(s[i]) {
        ident_end(s, i + 1)
    } else {
        i
    }
}

/// Where the fraction ends, for a number whose whole part ends at `a`.
pub open spec fn fraction_end(s: Seq<char>, a: int) -> int {
    if 0 <= a < s.len() && s[a] == '.' && digits_end(s, a + 1) > a + 1 {
        digits_end(s, a + 1)
    } else {
        a
    }
}

/// Where the exponent ends, for a number whose fraction ends at `b`.
pub open spec fn exponent_end(s: Seq<char>, b: int) -> int {
    if 0 <= b < s.len() && s[b] == 'e' && digits_end(s, b + 1) > b + 1 {
        digits_end(s, b + 1)
    } else {
        b
    }
}

/// Where the longest number that starts at the digit at `i` ends.
pub open spec fn number_end(s: Seq<char>, i: int) -> int {
    exponent_end(s, fraction_end(s, digits_end(s, i)))
}

/// The token that a single sign stands for.
pub open spec fn sign(c: char) -> Option<TokenView> {
    if c == '(' {
        Some(TokenView::LParen)
    } else if c == ')' {
        Some(TokenView::RParen)
    } else if c == '+' {
        Some(TokenView::Plus)
    } else if c == '-' {
        Some(TokenView::Minus)
    } else if c == '*' {
        Some(TokenView::Multiply)
    } else if c == '/' {
        Some(TokenView::Divide)
    } else if c == '%' {
        Some(TokenView::Percent)
    } else if c == '^' {
        Some(TokenView::Caret)
    } else if c == '!' {
        Some(TokenView::Exclamation)
    } else if c == ',' {
        Some(TokenView::Comma)
    } else if c == '=' {
        Some(TokenView::Equals)
    } else {
        None
    }
}

/// The token that starts at `i`, with the place where it ends; `None` where
/// no token starts with the character at `i`.
pub open spec fn token_at(s: Seq<char>, i: int) -> Option<(TokenView, int)>
    recommends
        0 <= i < s.len(),
{
    let c = s[i];
    if letter(c) {
        Some((TokenView::Ident(s.subrange(i, ident_end(s, i + 1))), ident_end(s, i + 1)))
    } else if digit(c) {
        Some((TokenView::Literal(s.subrange(i, number_end(s, i))), number_end(s, i)))
    } else if c == '/' && i + 1 < s.len() && s[i + 1] == '/' {
        Some((TokenView::FloorDivide, i + 2))
    } else {
        match sign(c) {
            Some(t) => Some((t, i + 1)),
            None => None,
        }
    }
}

/// The tokens of `s` from `i` on, or the place of the first character with
/// which no token starts.
pub open spec fn lex(s: Seq<char>, i: int) -> Result<Seq<TokenView>, int>
    decreases s.len() - i,
{
    if !(0 <= i < s.len()) {
        Ok(Seq::empty())
    } else if white_space(s[i]) {
        lex(s, i + 1)
    } else {
        match token_at(s, i) {
            None => Err(i),
            Some((t, j)) => {
                proof {
                    lemma_token_at_bounds(s, i);
                }
                match lex(s, j) {
                    Ok(rest) => Ok(seq![t] + rest),
                    Err(at) => Err(at),
                }
            },
        }
    }
}

/// A run of digits ends at or after its start, inside the text, and holds
/// digits only; what follows it is no digit.
pub proof fn lemma_digits_end(s: Seq<char>, i: int)
    requires
        0 <= i <= s.len(),
    ensures
        i <= digits_end(s, i) <= s.len(),
        forall|k: int| i <= k < digits_end(s, i) ==> digit(#[trigger] s[k]),
        digits_end(s, i) < s.len() ==> !digit(s[digits_end(s, i)]),
    decreases s.len() - i,
{
    if i < s.len() && digit(s[i]) {
        lemma_digits_end(s, i + 1);
    }
}

/// A run of identifier characters ends at or after its start, inside the
/// text, and holds identifier characters only; what follows it is none.
pub proof fn lemma_ident_end(s: Seq<char>, i: int)
    requires
        0 <= i <= s.len(),
    ensures
        i <= ident_end(s, i) <= s.len(),
        forall|k: int| i <= k < ident_end(s, i) ==> ident_char(#[trigger] s[k]),
        ident_end(s, i) < s.len() ==> !ident_char(s[ident_end(s, i)]),
    decreases s.len() - i,
{
    if i < s.len() && ident_char(s[i]) {
        lemma_ident_end(s, i + 1);
    }
}

/// A token holds at least one character and ends inside the text.
pub proof fn lemma_token_at_bounds(s: Seq<char>, i: int)
    requires
        0 <= i < s.len(),
    ensures
        token_at(s, i) is Some ==> i < token_at(s, i)->Some_0.1 <= s.len(),
{
    lemma_ident_end(s, i + 1);
    lemma_digits_end(s, i);
    let a = digits_end(s, i);
    if a < s.len() {
        lemma_digits_end(s, a + 1);
    }
    let b = fraction_end(s, a);
    if b < s.len() {
        lemma_digits_end(s, b + 1);
    }
}

/// A run of digits reaches at least as far as digits stand.
pub proof fn lemma_digits_run(s: Seq<char>, from: int, to: int)
    requires
        0 <= from <= to <= s.len(),
        forall|k: int| from <= k < to ==> digit(#[trigger] s[k]),
    ensures
        digits_end(s, from) >= to,
    decreases to - from,
{
    if from < to {
        lemma_digits_run(s, from + 1, to);
    } else {
        lemma_digits_end(s, from);
    }
}

/// The identifier token that starts at a letter is an identifier, and no
/// longer piece of the text from there on is one.
pub proof fn lemma_ident_token_is_longest(s: Seq<char>, i: int)
    requires
        0 <= i < s.len(),
        letter(s[i]),
    ensures
        i < ident_end(s, i + 1) <= s.len(),
        is_ident(s.subrange(i, ident_end(s, i + 1))),
        forall|m: int|
            ident_end(s, i + 1) < m <= s.len() ==> !is_ident(#[trigger] s.subrange(i, m)),
{
    let end = ident_end(s, i + 1);
    lemma_ident_end(s, i + 1);
    assert forall|m: int| end < m <= s.len() implies !is_ident(#[trigger] s.subrange(i, m)) by {
        let longer = s.subrange(i, m);
        assert(longer[end - i] == s[end]);
    }
}

/// The number token that starts at a digit is a number, and no longer
/// piece of the text from there on is one.
pub proof fn lemma_number_token_is_longest(s: Seq<char>, i: int)
    requires
        0 <= i < s.len(),
        digit(s[i]),
    ensures
        i < number_end(s, i) <= s.len(),
        is_number(s.subrange(i, number_end(s, i))),
        forall|m: int| number_end(s, i) < m <= s.len() ==> !is_number(#[trigger] s.subrange(i, m)),
{
    let a = digits_end(s, i);
    let b = fraction_end(s, a);
    let c = exponent_end(s, b);
    lemma_digits_end(s, i);
    if a < s.len() {
        lemma_digits_end(s, a + 1);
    }
    if b < s.len() {
        lemma_digits_end(s, b + 1);
    }
    let token = s.subrange(i, c);
    assert(is_number_split(token, a - i, b - i));
    assert forall|m: int| c < m <= s.len() implies !is_number(#[trigger] s.subrange(i, m)) by {
        let longer = s.subrange(i, m);
        assert forall|x: int, y: int| !is_number_split(longer, x, y) by {
            if is_number_split(longer, x, y) {
                lemma_number_split_is_token(s, i, m, x, y);
            }
        }
    }
}

/// A piece of text that starts at `i` and is a number ends where the
/// number token at `i` ends, or before.
proof fn lemma_number_split_is_token(s: Seq<char>, i: int, m: int, x: int, y: int)
    requires
        0 <= i < m <= s.len(),
        is_number_split(s.subrange(i, m), x, y),
    ensures
        m <= number_end(s, i),
{
    let piece = s.subrange(i, m);
    let a = digits_end(s, i);
    let b = fraction_end(s, a);
    lemma_digits_end(s, i);
    if a < s.len() {
        lemma_digits_end(s, a + 1);
    }
    if b < s.len() {
        lemma_digits_end(s, b + 1);
    }
    // The whole part is the run of digits at `i`.
    let whole = piece.subrange(0, x);
    assert forall|k: int| i <= k < i + x implies digit(#[trigger] s[k]) by {
        assert(whole[k - i] == s[k]);
    }
    lemma_digits_run(s, i, i + x);
    if y > x {
        // The fraction is the run of digits after the point.
        let fraction = piece.subrange(x + 1, y);
        assert forall|k: int| a + 1 <= k < i + y implies digit(#[trigger] s[k]) by {
            assert(fraction[k - a - 1] == s[k]);
        }
        lemma_digits_run(s, a + 1, i + y);
    }
    if i + y < m {
        // The exponent is the run of digits after the `e`.
        let exponent = piece.subrange(y + 1, piece.len() as int);
        assert forall|k: int| i + y + 1 <= k < m implies digit(#[trigger] s[k]) by {
            assert(exponent[k - i - y - 1] == s[k]);
        }
        lemma_digits_run(s, i + y + 1, m);
    }
}

/// The characters that a token was read from.
pub open spec fn text_of(t: TokenView) -> Seq<char> {
    match t {
        TokenView::EOI => Seq::empty(),
        TokenView::Ident(name) => name,
        TokenView::Literal(text) => text,
        TokenView::LParen => seq!['('],
        TokenView::RParen => seq![')'],
        TokenView::Plus => seq!['+'],
        TokenView::Minus => seq!['-'],
        TokenView::Multiply => seq!['*'],
        TokenView::Divide => seq!['/'],
        TokenView::Percent => seq!['%'],
        TokenView::Caret => seq!['^'],
        TokenView::Exclamation => seq!['!'],
        TokenView::Comma => seq![','],
        TokenView::FloorDivide => seq!['/', '/'],
        TokenView::Equals => seq!['='],
    }
}

/// The characters that a sequence of tokens was read from, in a row.
pub open spec fn joined(ts: Seq<TokenView>) -> Seq<char>
    decreases ts.len(),
{
    if ts.len() == 0 {
        Seq::empty()
    } else {
        text_of(ts[0]) + joined(ts.drop_first())
    }
}

/// The text from `i` on without its white space.
pub open spec fn squeezed(s: Seq<char>, i: int) -> Seq<char>
    decreases s.len() - i,
{
    if !(0 <= i < s.len()) {
        Seq::empty()
    } else if white_space(s[i]) {
        squeezed(s, i + 1)
    } else {
        seq![s[i]] + squeezed(s, i + 1)
    }
}

/// A stretch of text without white space stays as it is when the text is
/// squeezed.
proof fn lemma_squeezed_run(s: Seq<char>, i: int, j: int)
    requires
        0 <= i <= j <= s.len(),
        forall|k: int| i <= k < j ==> !white_space(#[trigger] s[k]),
    ensures
        squeezed(s, i) == s.subrange(i, j) + squeezed(s, j),
    decreases j - i,
{
    if i < j {
        lemma_squeezed_run(s, i + 1, j);
    }
}

/// A token is read from the characters between its start and its end,
/// and none of them is white space.
proof fn lemma_token_text(s: Seq<char>, i: int)
    requires
        0 <= i < s.len(),
        token_at(s, i) is Some,
    ensures
        i < token_at(s, i)->Some_0.1 <= s.len(),
        text_of(token_at(s, i)->Some_0.0) == s.subrange(i, token_at(s, i)->Some_0.1),
        forall|k: int| i <= k < token_at(s, i)->Some_0.1 ==> !white_space(#[trigger] s[k]),
{
    lemma_token_at_bounds(s, i);
    if letter(s[i]) {
        lemma_ident_end(s, i + 1);
    } else if digit(s[i]) {
        lemma_digits_end(s, i);
        let a = digits_end(s, i);
        if a < s.len() {
            lemma_digits_end(s, a + 1);
        }
        let b = fraction_end(s, a);
        if b < s.len() {
            lemma_digits_end(s, b + 1);
        }
    }
}

/// The tokens of a text hold all of its characters but the white space,
/// in their order.
pub proof fn lemma_lex_keeps_text(s: Seq<char>, i: int)
    requires
        0 <= i,
        lex(s, i) is Ok,
    ensures
        joined(lex(s, i)->Ok_0) == squeezed(s, i),
    decreases s.len() - i,
{
    if i < s.len() {
        if white_space(s[i]) {
            lemma_lex_keeps_text(s, i + 1);
        } else {
            let (t, j) = token_at(s, i)->Some_0;
            lemma_token_text(s, i);
            lemma_lex_keeps_text(s, j);
            lemma_squeezed_run(s, i, j);
            let rest = lex(s, j)->Ok_0;
            assert((seq![t] + rest).drop_first() =~= rest);
        }
    }
}

/// `n` spaces.
pub open spec fn spaces(n: nat) -> Seq<char> {
    Seq::new(n, |i: int| ' ')
}

/// A message about a place in the input: the headline, then the input on
/// a line of its own, and under it a mark at the place `at`.
pub open spec fn marked(headline: Seq<char>, input: Seq<char>, at: int) -> Seq<char> {
    headline + "\n| \n| "@ + input + "\n| "@ + spaces(at as nat) + "└─ here"@
}

/// The error for a character at `at` with which no token starts.
pub open spec fn unexpected_character(input: Seq<char>, at: int) -> ErrorView {
    ErrorView {
        kind: CalcErrorType::SyntaxError,
        msg: marked("Unexpected token"@, input, at),
    }
}

/// Where the tokens of `s` from `i` on start, up to the first character
/// with which no token starts.
pub open spec fn starts(s: Seq<char>, i: int) -> Seq<int>
    decreases s.len() - i,
{
    if !(0 <= i < s.len()) {
        Seq::empty()
    } else if white_space(s[i]) {
        starts(s, i + 1)
    } else {
        match token_at(s, i) {
            None => Seq::empty(),
            Some((_, j)) => {
                proof {
                    lemma_token_at_bounds(s, i);
                }
                seq![i] + starts(s, j)
            },
        }
    }
}

/// The places of a sequence of tokens, as contracts see them.
pub open spec fn places(starts: Seq<usize>) -> Seq<int> {
    starts.map_values(|at: usize| at as int)
}

/// Every token of a text has its start: there the token begins, inside
/// the text, and the starts go up.
pub proof fn lemma_starts(s: Seq<char>, i: int)
    requires
        0 <= i,
        lex(s, i) is Ok,
    ensures
        starts(s, i).len() == lex(s, i)->Ok_0.len(),
        forall|k: int|
            0 <= k < starts(s, i).len() ==> {
                let at = #[trigger] starts(s, i)[k];
                &&& i <= at < s.len()
                &&& token_at(s, at) is Some
                &&& token_at(s, at)->Some_0.0 == lex(s, i)->Ok_0[k]
            },
        forall|k: int, l: int|
            0 <= k < l < starts(s, i).len() ==> starts(s, i)[k] < starts(s, i)[l],
    decreases s.len() - i,
{
    if i < s.len() {
        if white_space(s[i]) {
            lemma_starts(s, i + 1);
        } else {
            let j = token_at(s, i)->Some_0.1;
            lemma_token_at_bounds(s, i);
            lemma_starts(s, j);
        }
    }
}

/// Whether `c` is white space.
pub fn is_space(c: char) -> (b: bool)
    ensures
        b == white_space(c),
{
    let n: u32 = c as u32;
    (0x09 <= n && n <= 0x0D) || n == 0x20 || n == 0x85 || n == 0xA0 || n == 0x1680 || (0x2000 <= n
        && n <= 0x200A) || n == 0x2028 || n == 0x2029 || n == 0x202F || n == 0x205F || n == 0x3000
}

/// Whether `c` is a letter.
pub fn is_letter(c: char) -> (b: bool)
    ensures
        b == letter(c),
{
    ('a' <= c && c <= 'z') || ('A' <= c && c <= 'Z')
}

/// Whether `c` is a digit.
pub fn is_digit(c: char) -> (b: bool)
    ensures
        b == digit(c),
{
    '0' <= c && c <= '9'
}

/// Whether `c` may stand in an identifier after its first letter.
pub fn is_ident_char(c: char) -> (b: bool)
    ensures
        b == ident_char(c),
{
    is_letter(c) || is_digit(c) || c == '_' || c == '.'
}

/// Whether every character of `s` is white space.
pub fn is_whitespace(s: &String) -> (b: bool)
    ensures
        b == (forall|i: int| 0 <= i < s@.len() ==> white_space(#[trigger] s@[i])),
{
    let chars = characters(s.as_str());
    let mut i: usize = 0;
    while i < chars.len()
        invariant
            i <= chars.len(),
            chars@ == s@,
            forall|k: int| 0 <= k < i ==> white_space(#[trigger] s@[k]),
        decreases chars.len() - i,
    {
        if !is_space(chars[i]) {
            return false;
        }
        i += 1;
    }
    true
}

/// The characters of `s`, in order.
pub fn characters(s: &str) -> (v: Vec<char>)
    ensures
        v@ == s@,
{
    let mut v: Vec<char> = Vec::new();
    for c in it: s.chars()
        invariant
            v@ == it.seq().take(it.index() as int),
    {
        v.push(c);
    }
    v
}

/// Where the run of digits that starts at `i` ends.
fn scan_digits(chars: &Vec<char>, i: usize) -> (end: usize)
    requires
        i <= chars.len(),
    ensures
        end == digits_end(chars@, i as int),
        i <= end <= chars.len(),
{
    let mut k: usize = i;
    while k < chars.len() && is_digit(chars[k])
        invariant
            i <= k <= chars.len(),
            digits_end(chars@, k as int) == digits_end(chars@, i as int),
        decreases chars.len() - k,
    {
        k += 1;
    }
    k
}

/// Where the run of identifier characters that starts at `i` ends.
fn scan_ident(chars: &Vec<char>, i: usize) -> (end: usize)
    requires
        i <= chars.len(),
    ensures
        end == ident_end(chars@, i as int),
        i <= end <= chars.len(),
{
    let mut k: usize = i;
    while k < chars.len() && is_ident_char(chars[k])
        invariant
            i <= k <= chars.len(),
            ident_end(chars@, k as int) == ident_end(chars@, i as int),
        decreases chars.len() - k,
    {
        k += 1;
    }
    k
}

/// Where the longest number that starts at the digit at `i` ends.
fn scan_number(chars: &Vec<char>, i: usize) -> (end: usize)
    requires
        i < chars.len(),
    ensures
        end == number_end(chars@, i as int),
        i <= end <= chars.len(),
{
    let whole = scan_digits(chars, i);
    let mut end = whole;
    if end < chars.len() && chars[end] == '.' {
        let fraction = scan_digits(chars, end + 1);
        if fraction > end + 1 {
            end = fraction;
        }
    }
    if end < chars.len() && chars[end] == 'e' {
        let exponent = scan_digits(chars, end + 1);
        if exponent > end + 1 {
            end = exponent;
        }
    }
    end
}

/// The token that the sign `c` stands for.
fn sign_token(c: char) -> (t: Option<Token>)
    ensures
        match sign(c) {
            Some(v) => t is Some && t->Some_0@ == v,
            None => t is None,
        },
{
    if c == '(' {
        Some(Token::LParen)
    } else if c == ')' {
        Some(Token::RParen)
    } else if c == '+' {
        Some(Token::Plus)
    } else if c == '-' {
        Some(Token::Minus)
    } else if c == '*' {
        Some(Token::Multiply)
    } else if c == '/' {
        Some(Token::Divide)
    } else if c == '%' {
        Some(Token::Percent)
    } else if c == '^' {
        Some(Token::Caret)
    } else if c == '!' {
        Some(Token::Exclamation)
    } else if c == ',' {
        Some(Token::Comma)
    } else if c == '=' {
        Some(Token::Equals)
    } else {
        None
    }
}

/// The token that starts at `i`, with the place where it ends.
fn next_token(input_str: &str, chars: &Vec<char>, i: usize) -> (r: Option<(Token, usize)>)
    requires
        chars@ == input_str@,
        i < chars.len(),
    ensures
        match token_at(chars@, i as int) {
            Some((t, j)) => r is Some && r->Some_0.0@ == t && r->Some_0.1 == j,
            None => r is None,
        },
        r is Some ==> i < r->Some_0.1 <= chars.len(),
{
    let c = chars[i];
    proof {
        lemma_token_at_bounds(chars@, i as int);
    }
    if is_letter(c) {
        let end = scan_ident(chars, i + 1);
        let name = String::from_str(input_str.substring_char(i, end));
        Some((Token::Ident(name), end))
    } else if is_digit(c) {
        let end = scan_number(chars, i);
        let text = String::from_str(input_str.substring_char(i, end));
        Some((Token::Literal(text), end))
    } else if c == '/' && i + 1 < chars.len() && chars[i + 1] == '/' {
        Some((Token::FloorDivide, i + 2))
    } else {
        match sign_token(c) {
            Some(t) => Some((t, i + 1)),
            None => None,
        }
    }
}

/// A message about a place in the input.
pub fn mark(headline: String, input_str: &str, at: usize) -> (msg: String)
    ensures
        msg@ == marked(headline@, input_str@, at as int),
{
    let mut msg = headline;
    msg.append("\n| \n| ");
    msg.append(input_str);
    msg.append("\n| ");
    let ghost head = msg@;
    let mut k: usize = 0;
    while k < at
        invariant
            k <= at,
            msg@ == head + spaces(k as nat),
        decreases at - k,
    {
        msg.append(" ");
        proof {
            reveal_strlit(" ");
        }
        k += 1;
    }
    msg.append("└─ here");
    msg
}

/// Splits `input_str` into its tokens, and says where each of them
/// starts.
///
/// At each place the token is the longest that starts there; white space
/// between tokens is dropped. Fails with a syntax error at the first
/// character with which no token starts.
pub fn scan(input_str: &str) -> (r: Result<(Vec<Token>, Vec<usize>), CalcError>)
    ensures
        match lex(input_str@, 0) {
            Ok(tokens) => {
                &&& r is Ok
                &&& token_views(r->Ok_0.0@) == tokens
                &&& places(r->Ok_0.1@) == starts(input_str@, 0)
            },
            Err(at) => r is Err && r->Err_0@ == unexpected_character(input_str@, at),
        },
{
    let chars = characters(input_str);
    let mut tokens: Vec<Token> = Vec::new();
    let mut found: Vec<usize> = Vec::new();
    let mut i: usize = 0;
    while i < chars.len()
        invariant
            i <= chars.len(),
            chars@ == input_str@,
            match lex(chars@, i as int) {
                Ok(rest) => {
                    &&& lex(chars@, 0) == Ok::<Seq<TokenView>, int>(token_views(tokens@) + rest)
                    &&& starts(chars@, 0) == places(found@) + starts(chars@, i as int)
                },
                Err(at) => lex(chars@, 0) == Err::<Seq<TokenView>, int>(at),
            },
        decreases chars.len() - i,
    {
        if is_space(chars[i]) {
            i += 1;
        } else {
            match next_token(input_str, &chars, i) {
                None => {
                    let e = CalcError::new(
                        CalcErrorType::SyntaxError,
                        mark(String::from_str("Unexpected token"), input_str, i),
                    );
                    return Err(e);
                },
                Some((token, end)) => {
                    proof {
                        let rest = lex(chars@, end as int);
                        if rest is Ok {
                            assert(token_views(tokens@.push(token)) + rest->Ok_0 =~= token_views(
                                tokens@,
                            ) + (seq![token@] + rest->Ok_0));
                        }
                    }
                    tokens.push(token);
                    found.push(i);
                    i = end;
                },
            }
        }
    }
    Ok((tokens, found))
}

/// Splits `input_str` into its tokens.
///
/// At each place the token is the longest that starts there; white space
/// between tokens is dropped. Fails with a syntax error at the first
/// character with which no token starts.
pub fn tokenize(input_str: &str) -> (r: Result<Vec<Token>, CalcError>)
    ensures
        match lex(input_str@, 0) {
            Ok(tokens) => r is Ok && token_views(r->Ok_0@) == tokens,
            Err(at) => r is Err && r->Err_0@ == unexpected_character(input_str@, at),
        },
{
    match scan(input_str) {
        Ok((tokens, _)) => Ok(tokens),
        Err(e) => Err(e),
    }
}

} // verus!

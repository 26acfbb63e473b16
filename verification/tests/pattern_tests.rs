//! The tokens of the lexer, held against regular expressions for
//! identifiers and numbers.

use regex::Regex;
use scientific_calculator::lexer::tokenize;
use scientific_calculator::Token;

struct Patterns {
    ident: Regex,
    number: Regex,
}

fn patterns() -> Patterns {
    Patterns {
        ident: Regex::new(r"^[a-zA-Z][a-zA-Z0-9_.]*$").unwrap(),
        number: Regex::new(r"^[0-9]+(?:\.[0-9]+)?(?:e[0-9]+)?$").unwrap(),
    }
}

fn sign(text: &str) -> Option<Token> {
    match text {
        "(" => Some(Token::LParen),
        ")" => Some(Token::RParen),
        "+" => Some(Token::Plus),
        "-" => Some(Token::Minus),
        "*" => Some(Token::Multiply),
        "/" => Some(Token::Divide),
        "//" => Some(Token::FloorDivide),
        "%" => Some(Token::Percent),
        "^" => Some(Token::Caret),
        "!" => Some(Token::Exclamation),
        "," => Some(Token::Comma),
        "=" => Some(Token::Equals),
        _ => None,
    }
}

/// Splits a text by taking, again and again, the longest piece from the
/// front that matches a pattern, is a sign, or is white space.
fn longest_pieces(patterns: &Patterns, input: &str) -> Result<Vec<Token>, usize> {
    let mut tokens = Vec::new();
    let mut remaining = input;
    while !remaining.is_empty() {
        let mut piece = remaining.to_string();
        let mut found = false;
        while !piece.is_empty() {
            if patterns.ident.is_match(&piece) {
                tokens.push(Token::Ident(piece.clone()));
            } else if patterns.number.is_match(&piece) {
                tokens.push(Token::Literal(piece.clone()));
            } else if let Some(token) = sign(&piece) {
                tokens.push(token);
            } else if !piece.chars().all(char::is_whitespace) {
                piece.pop();
                continue;
            }
            found = true;
            break;
        }
        if !found {
            return Err(input.chars().count() - remaining.chars().count());
        }
        remaining = &remaining[piece.len()..];
    }
    Ok(tokens)
}

fn agree(patterns: &Patterns, input: &str) {
    let expected = longest_pieces(patterns, input);
    match tokenize(input) {
        Ok(tokens) => assert_eq!(Ok(tokens), expected, "{:?}", input),
        Err(e) => {
            let at = expected.expect_err(input);
            let marker = format!("\n| {}└─ here", " ".repeat(at));
            assert!(e.msg.ends_with(&marker), "{:?}: {:?}", input, e.msg);
        }
    }
}

#[test]
fn every_short_text_is_split_as_the_patterns_say() {
    let patterns = patterns();
    let alphabet = ['a', 'e', 'Z', '0', '7', '.', '_', '/', '+', ' ', '#'];
    let mut texts = vec![String::new()];
    for _ in 0..4 {
        let mut longer = Vec::new();
        for text in &texts {
            for c in alphabet {
                let mut next = text.clone();
                next.push(c);
                longer.push(next);
            }
        }
        for text in &longer {
            agree(&patterns, text);
        }
        texts = longer;
    }
}

#[test]
fn longer_texts_are_split_as_the_patterns_say() {
    let patterns = patterns();
    let alphabet: Vec<char> = "abexyzEXQ0123456789._()+-*/%^!,= \t\u{a0}\u{2003}é#$".chars().collect();
    let mut state: u64 = 0x9E37_79B9_7F4A_7C15;
    for _ in 0..3000 {
        let mut text = String::new();
        state = state.wrapping_mul(6364136223846793005).wrapping_add(1442695040888963407);
        let len = 1 + (state >> 59) as usize;
        for _ in 0..len {
            state = state.wrapping_mul(6364136223846793005).wrapping_add(1442695040888963407);
            text.push(alphabet[(state >> 33) as usize % alphabet.len()]);
        }
        agree(&patterns, &text);
    }
}

#[test]
fn a_whole_text_is_an_identifier_or_a_number_as_the_patterns_say() {
    let patterns = patterns();
    for text in [
        "a", "A", "z9", "a.b", "a_", "_a", ".a", "9a", "a b", "é", "e", "e5", "1", "12.5", "1.", ".5",
        "1e5", "1e", "1.5e10", "1.5e", "1e5.5", "1E5", "1e-5", "1.2.3", "0x1f", "", " ", "1 ",
    ] {
        let tokens = tokenize(text);
        let one_ident = tokens == Ok(vec![Token::Ident(String::from(text))]);
        let one_number = tokens == Ok(vec![Token::Literal(String::from(text))]);
        assert_eq!(one_ident, patterns.ident.is_match(text), "{:?}", text);
        assert_eq!(one_number, patterns.number.is_match(text), "{:?}", text);
    }
}

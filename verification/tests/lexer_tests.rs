//! Text to tokens.

use scientific_calculator::lexer::{
    characters, is_digit, is_ident_char, is_letter, is_space, is_whitespace, mark, scan,
    tokenize,
};
use scientific_calculator::{CalcErrorType, Token};

fn ident(name: &str) -> Token {
    Token::Ident(String::from(name))
}

fn literal(text: &str) -> Token {
    Token::Literal(String::from(text))
}

#[test]
fn every_sign_has_its_token() {
    assert_eq!(
        tokenize("()+-*/%^!,=//").unwrap(),
        vec![
            Token::LParen,
            Token::RParen,
            Token::Plus,
            Token::Minus,
            Token::Multiply,
            Token::Divide,
            Token::Percent,
            Token::Caret,
            Token::Exclamation,
            Token::Comma,
            Token::Equals,
            Token::FloorDivide,
        ]
    );
}

#[test]
fn slashes_pair_up_from_the_left() {
    assert_eq!(tokenize("/").unwrap(), vec![Token::Divide]);
    assert_eq!(tokenize("//").unwrap(), vec![Token::FloorDivide]);
    assert_eq!(tokenize("///").unwrap(), vec![Token::FloorDivide, Token::Divide]);
    assert_eq!(tokenize("/ /").unwrap(), vec![Token::Divide, Token::Divide]);
}

#[test]
fn white_space_is_dropped() {
    assert_eq!(tokenize("").unwrap(), vec![]);
    assert_eq!(tokenize(" \t\n\r ").unwrap(), vec![]);
    assert_eq!(tokenize("\u{a0}1\u{2003}+\u{3000}1 ").unwrap(), vec![
        literal("1"),
        Token::Plus,
        literal("1")
    ]);
    assert_eq!(tokenize("a b").unwrap(), vec![ident("a"), ident("b")]);
}

#[test]
fn identifiers_are_as_long_as_they_can_be() {
    assert_eq!(tokenize("x").unwrap(), vec![ident("x")]);
    assert_eq!(tokenize("Rate_2.max").unwrap(), vec![ident("Rate_2.max")]);
    assert_eq!(tokenize("a1+b_").unwrap(), vec![ident("a1"), Token::Plus, ident("b_")]);
    assert_eq!(tokenize("sqrt(x)").unwrap(), vec![
        ident("sqrt"),
        Token::LParen,
        ident("x"),
        Token::RParen
    ]);
    assert_eq!(tokenize("e10").unwrap(), vec![ident("e10")]);
}

#[test]
fn numbers_are_as_long_as_they_can_be() {
    assert_eq!(tokenize("5").unwrap(), vec![literal("5")]);
    assert_eq!(tokenize("0012").unwrap(), vec![literal("0012")]);
    assert_eq!(tokenize("4.5").unwrap(), vec![literal("4.5")]);
    assert_eq!(tokenize("1.2345e10").unwrap(), vec![literal("1.2345e10")]);
    assert_eq!(tokenize("2e3").unwrap(), vec![literal("2e3")]);
    assert_eq!(tokenize("2e3e4").unwrap(), vec![literal("2e3"), ident("e4")]);
    assert_eq!(tokenize("1e").unwrap(), vec![literal("1"), ident("e")]);
    assert_eq!(tokenize("1e+5").unwrap(), vec![
        literal("1"),
        ident("e"),
        Token::Plus,
        literal("5")
    ]);
    assert_eq!(tokenize("3x").unwrap(), vec![literal("3"), ident("x")]);
    assert_eq!(tokenize("1.5e2.5").is_err(), true);
}

#[test]
fn a_point_needs_digits_on_both_sides() {
    assert!(tokenize("1.").is_err());
    assert!(tokenize(".5").is_err());
    assert!(tokenize("1.e5").is_err());
    assert!(tokenize(".").is_err());
}

#[test]
fn the_error_marks_the_first_character_that_starts_no_token() {
    let e = tokenize("1 + $2 # 3").unwrap_err();
    assert_eq!(e.error_type, CalcErrorType::SyntaxError);
    assert_eq!(e.msg, "Unexpected token\n| \n| 1 + $2 # 3\n|     └─ here");
    let e = tokenize("?").unwrap_err();
    assert_eq!(e.msg, "Unexpected token\n| \n| ?\n| └─ here");
    let e = tokenize("é").unwrap_err();
    assert_eq!(e.msg, "Unexpected token\n| \n| é\n| └─ here");
    let e = tokenize("äb c&").unwrap_err();
    assert_eq!(e.msg, "Unexpected token\n| \n| äb c&\n| └─ here");
    let e = tokenize("ab ö").unwrap_err();
    assert_eq!(e.msg, "Unexpected token\n| \n| ab ö\n|    └─ here");
}

#[test]
fn letters_and_digits_are_the_ascii_ones() {
    for c in ['a', 'z', 'A', 'Z', 'm'] {
        assert!(is_letter(c) && is_ident_char(c) && !is_digit(c));
    }
    for c in ['0', '9', '5'] {
        assert!(is_digit(c) && is_ident_char(c) && !is_letter(c));
    }
    assert!(is_ident_char('_') && is_ident_char('.'));
    for c in ['é', 'λ', '٣', '@', '[', '`', '{', '/', ':', ' ', '-'] {
        assert!(!is_letter(c) && !is_digit(c) && !is_ident_char(c));
    }
}

#[test]
fn white_space_is_what_unicode_calls_so() {
    let mut c = '\0';
    loop {
        assert_eq!(is_space(c), c.is_whitespace(), "{:?}", c);
        if c == char::MAX {
            break;
        }
        c = char::from_u32(c as u32 + 1).unwrap_or('\u{e000}');
    }
}

#[test]
fn a_string_is_white_space_if_all_of_it_is() {
    assert!(is_whitespace(&String::from("")));
    assert!(is_whitespace(&String::from(" ")));
    assert!(is_whitespace(&String::from(" \t\r\n\u{2028}")));
    assert!(!is_whitespace(&String::from("a")));
    assert!(!is_whitespace(&String::from("  a")));
    assert!(!is_whitespace(&String::from("a  ")));
    assert!(!is_whitespace(&String::from(" \u{200b} ")));
}

#[test]
fn characters_of_a_string() {
    assert_eq!(characters(""), Vec::<char>::new());
    assert_eq!(characters("aé 1"), vec!['a', 'é', ' ', '1']);
}

#[test]
fn tokens_as_text() {
    assert_eq!(Token::EOI.to_string(), "[EOI]");
    assert_eq!(ident("abc").to_string(), "[\"abc\"]");
    assert_eq!(literal("1.5e3").to_string(), "[1.5e3]");
    assert_eq!(Token::LParen.to_string(), "[(]");
    assert_eq!(Token::RParen.to_string(), "[)]");
    assert_eq!(Token::Plus.to_string(), "[+]");
    assert_eq!(Token::Minus.to_string(), "[-]");
    assert_eq!(Token::Multiply.to_string(), "[*]");
    assert_eq!(Token::Divide.to_string(), "[/]");
    assert_eq!(Token::Percent.to_string(), "[%]");
    assert_eq!(Token::Caret.to_string(), "[^]");
    assert_eq!(Token::Exclamation.to_string(), "[!]");
    assert_eq!(Token::Comma.to_string(), "[,]");
    assert_eq!(Token::FloorDivide.to_string(), "[//]");
    assert_eq!(Token::Equals.to_string(), "[=]");
}

#[test]
fn tokens_hold_all_but_the_white_space() {
    for line in ["1 + 2", " f( x ,y)// 3e5 ", "a=b^c!%d", "\t2 *\u{2003}pi\n"] {
        let mut text = String::new();
        for token in tokenize(line).unwrap() {
            let shown = token.to_string();
            let inner = &shown[1..shown.len() - 1];
            text.push_str(inner.trim_matches('"'));
        }
        let squeezed: String = line.chars().filter(|c| !c.is_whitespace()).collect();
        assert_eq!(text, squeezed);
    }
}

#[test]
fn every_token_has_its_start() {
    let (tokens, found) = scan("  ab + 12.5//(x)\u{2003}!").unwrap();
    assert_eq!(tokens, tokenize("  ab + 12.5//(x)\u{2003}!").unwrap());
    assert_eq!(found, vec![2, 5, 7, 11, 13, 14, 15, 17]);
    assert_eq!(scan("").unwrap(), (vec![], vec![]));
    assert_eq!(scan("   ").unwrap(), (vec![], vec![]));
    assert_eq!(scan("a").unwrap(), (vec![ident("a")], vec![0]));
    assert_eq!(scan("é"), tokenize("é").map(|tokens| (tokens, vec![])));
}

#[test]
fn a_marked_message() {
    assert_eq!(mark(String::from("Here"), "abc", 0), "Here\n| \n| abc\n| └─ here");
    assert_eq!(mark(String::from("Here"), "abc", 2), "Here\n| \n| abc\n|   └─ here");
    assert_eq!(mark(String::new(), "", 1), "\n| \n| \n|  └─ here");
}

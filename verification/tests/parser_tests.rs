//! Tokens to trees. A tree is shown with every binary operation in
//! parentheses, so the text of a tree shows how the parser grouped.

use scientific_calculator::ast::{Expr, Operation};
use scientific_calculator::lexer::tokenize;
use scientific_calculator::parser::{parse, parse_input};
use scientific_calculator::{CalcErrorType, Token};

fn shown(line: &str) -> String {
    let statement = parse_input(line).unwrap();
    let tree = statement.expr.to_string();
    match statement.target {
        Some(name) => format!("{} = {}", name, tree),
        None => tree,
    }
}

/// The headline of the error for a line that does not parse.
fn refused(line: &str) -> String {
    let e = parse_input(line).unwrap_err();
    assert_eq!(e.error_type, CalcErrorType::SyntaxError);
    let (headline, rest) = e.msg.split_once('\n').unwrap();
    assert!(rest.starts_with(&format!("| \n| {}\n| ", line)), "{:?}", e.msg);
    assert!(rest.ends_with("└─ here"), "{:?}", e.msg);
    String::from(headline)
}

/// How far the mark stands from the left, for a line that does not parse.
fn marked_at(line: &str) -> usize {
    let e = parse_input(line).unwrap_err();
    let last = e.msg.rsplit('\n').next().unwrap();
    let pad = last.strip_prefix("| ").unwrap().strip_suffix("└─ here").unwrap();
    assert!(pad.chars().all(|c| c == ' '));
    pad.len()
}

#[test]
fn atoms() {
    assert_eq!(shown("5"), "5");
    assert_eq!(shown("1.2345e10"), "1.2345e10");
    assert_eq!(shown("x"), "x");
    assert_eq!(shown("(x)"), "x");
    assert_eq!(shown("((5))"), "5");
    assert_eq!(shown("f()"), "f()");
    assert_eq!(shown("f(1)"), "f(1)");
    assert_eq!(shown("f(1, x, g(2))"), "f(1,x,g(2))");
}

#[test]
fn products_bind_tighter_than_sums() {
    assert_eq!(shown("5 + 5 * 2"), "(5+(5*2))");
    assert_eq!(shown("5 * 5 + 2"), "((5*5)+2)");
    assert_eq!(shown("1 - 2 / 3"), "(1-(2/3))");
    assert_eq!(shown("1 + 2 // 3"), "(1+(2//3))");
    assert_eq!(shown("1 + 2 % 3"), "(1+(2%3))");
    assert_eq!(shown("(1 + 2) * 3"), "((1+2)*3)");
}

#[test]
fn sums_and_products_are_parsed_to_the_left() {
    assert_eq!(shown("1 - 2 - 3"), "((1-2)-3)");
    assert_eq!(shown("1 - 2 + 3 - 4"), "(((1-2)+3)-4)");
    assert_eq!(shown("8 / 4 / 2"), "((8/4)/2)");
    assert_eq!(shown("8 / 4 * 2 % 3 // 5"), "((((8/4)*2)%3)//5)");
}

#[test]
fn the_exponent_groups_to_the_right() {
    assert_eq!(shown("2 ^ 3 ^ 2"), "(2^(3^2))");
    assert_eq!(shown("2 * 3 ^ 2"), "(2*(3^2))");
    assert_eq!(shown("2 ^ 3 * 2"), "((2^3)*2)");
    assert_eq!(shown("(2 ^ 3) ^ 2"), "((2^3)^2)");
}

#[test]
fn the_factorial_binds_tightest() {
    assert_eq!(shown("3!"), "3!");
    assert_eq!(shown("3!!"), "3!!");
    assert_eq!(shown("2 ^ 3!"), "(2^3!)");
    assert_eq!(shown("2!^3"), "(2!^3)");
    assert_eq!(shown("(1 + 2)!"), "(1+2)!");
    assert_eq!(shown("f(3)!"), "f(3)!");
    assert_eq!(shown("1 + 3 - 2 * 2^2 / (3! - 1)"), "((1+3)-((2*(2^2))/(3!-1)))");
}

#[test]
fn a_minus_sign_is_zero_minus() {
    assert_eq!(shown("-5"), "(0-5)");
    assert_eq!(shown("--5"), "(0-(0-5))");
    assert_eq!(shown("+5"), "5");
    assert_eq!(shown("-+-5"), "(0-(0-5))");
    assert_eq!(shown("-2 ^ 2"), "(0-(2^2))");
    assert_eq!(shown("2 ^ -2"), "(2^(0-2))");
    assert_eq!(shown("-x!"), "(0-x!)");
    assert_eq!(shown("2 * -3"), "(2*(0-3))");
    assert_eq!(shown("2 - -3"), "(2-(0-3))");
    assert_eq!(shown("-2 * 3"), "((0-2)*3)");
    assert_eq!(shown("-((5 + (-5)) * 2 - (4.5 / 9))"), "(0-(((5+(0-5))*2)-(4.5/9)))");
}

#[test]
fn an_assignment_names_its_target() {
    assert_eq!(shown("a = 5 + 5"), "a = (5+5)");
    assert_eq!(shown("a = a"), "a = a");
    assert_eq!(shown("a=-1"), "a = (0-1)");
    assert!(parse_input("a").unwrap().target.is_none());
    assert_eq!(parse_input("ab.c = 1").unwrap().target, Some(String::from("ab.c")));
}

#[test]
fn an_assignment_stands_at_the_top_only() {
    assert_eq!(refused("a = b = 5"), "Unexpected token [=]");
    assert_eq!(refused("(a = 5)"), "Unexpected token [=]");
    assert_eq!(refused("1 + a = 5"), "Unexpected token [=]");
    assert_eq!(refused("5 = 5"), "Unexpected token [=]");
    assert_eq!(refused("= 5"), "Unexpected token [=]");
    assert_eq!(refused("a ="), "Unexpected token [EOI]");
    assert_eq!(refused("f(x) = 2"), "Unexpected token [=]");
}

#[test]
fn the_error_names_the_first_token_that_does_not_fit() {
    assert_eq!(refused(""), "Unexpected token [EOI]");
    assert_eq!(refused("5 +"), "Unexpected token [EOI]");
    assert_eq!(refused("(5"), "Unexpected token [EOI]");
    assert_eq!(refused("5)"), "Unexpected token [)]");
    assert_eq!(refused("()"), "Unexpected token [)]");
    assert_eq!(refused("5 5"), "Unexpected token [5]");
    assert_eq!(refused("5 x"), "Unexpected token [\"x\"]");
    assert_eq!(refused("* 5"), "Unexpected token [*]");
    assert_eq!(refused("5 * / 2"), "Unexpected token [/]");
    assert_eq!(refused("!5"), "Unexpected token [!]");
    assert_eq!(refused("f(1,)"), "Unexpected token [)]");
    assert_eq!(refused("f(,1)"), "Unexpected token [,]");
    assert_eq!(refused("f(1 2)"), "Unexpected token [2]");
    assert_eq!(refused("f(1"), "Unexpected token [EOI]");
    assert_eq!(refused("1, 2"), "Unexpected token [,]");
    assert_eq!(refused("2 ^"), "Unexpected token [EOI]");
    assert_eq!(refused("-"), "Unexpected token [EOI]");
}

#[test]
fn the_mark_stands_under_the_token_that_does_not_fit() {
    assert_eq!(marked_at(""), 0);
    assert_eq!(marked_at("5 +"), 3);
    assert_eq!(marked_at("5 +   "), 6);
    assert_eq!(marked_at("(5"), 2);
    assert_eq!(marked_at("5)"), 1);
    assert_eq!(marked_at("  5   5"), 6);
    assert_eq!(marked_at("a = b = 5"), 6);
    assert_eq!(marked_at("sqrt(1,, 2)"), 7);
    assert_eq!(marked_at("12.5e3 x12"), 7);
    assert_eq!(marked_at("\u{2003}1 // // 2"), 6);
    assert_eq!(marked_at("1 $ 2"), 2);
    assert_eq!(
        parse_input("2 * (3 + ) - 1").unwrap_err().msg,
        "Unexpected token [)]\n| \n| 2 * (3 + ) - 1\n|          └─ here"
    );
    assert_eq!(
        parse_input("mean(1, 2").unwrap_err().msg,
        "Unexpected token [EOI]\n| \n| mean(1, 2\n|          └─ here"
    );
}

#[test]
fn an_end_mark_among_the_tokens_does_not_fit() {
    let tokens = vec![Token::Literal(String::from("1")), Token::EOI];
    assert_eq!(parse(&tokens).unwrap_err().msg, "Unexpected token [EOI]");
    let tokens = vec![Token::EOI];
    assert!(parse(&tokens).is_err());
}

#[test]
fn parsing_tokens_is_parsing_text() {
    for line in ["1 + 2 * f(3, 4)!", "x = -1", "((", "2 ^ 3 ^ 4", "1 2"] {
        let by_tokens = parse(&tokenize(line).unwrap());
        let by_text = parse_input(line);
        let headline = |msg: String| String::from(msg.split('\n').next().unwrap());
        assert_eq!(
            by_tokens.map(|s| s.expr.to_string()).map_err(|e| headline(e.msg)),
            by_text.map(|s| s.expr.to_string()).map_err(|e| headline(e.msg))
        );
    }
}

#[test]
fn deep_nesting() {
    let mut line = String::new();
    for _ in 0..64 {
        line.push('(');
    }
    line.push('5');
    for _ in 0..64 {
        line.push(')');
    }
    assert_eq!(shown(&line), "5");
    line.pop();
    assert_eq!(refused(&line), "Unexpected token [EOI]");
}

#[test]
fn trees_as_text() {
    let five = || Box::new(Expr::Num(String::from("5")));
    let x = || Box::new(Expr::Var(String::from("x")));
    assert_eq!(Expr::Op(five(), Operation::Add, x()).to_string(), "(5+x)");
    assert_eq!(Expr::Fac(x()).to_string(), "x!");
    assert_eq!(Expr::Func(String::from("f"), vec![]).to_string(), "f()");
    assert_eq!(Expr::Func(String::from("f"), vec![five()]).to_string(), "f(5)");
    assert_eq!(Expr::Func(String::from("f"), vec![five(), x(), five()]).to_string(), "f(5,x,5)");
    assert_eq!(
        Expr::Op(Box::new(Expr::Fac(five())), Operation::FloorDiv, x()).to_string(),
        "(5!//x)"
    );
}

#[test]
fn operators_as_text() {
    assert_eq!(Operation::Add.to_string(), "+");
    assert_eq!(Operation::Sub.to_string(), "-");
    assert_eq!(Operation::Mul.to_string(), "*");
    assert_eq!(Operation::Div.to_string(), "/");
    assert_eq!(Operation::FloorDiv.to_string(), "//");
    assert_eq!(Operation::Mod.to_string(), "%");
    assert_eq!(Operation::Exp.to_string(), "^");
}

#[test]
fn a_tree_shown_and_read_back_is_the_same() {
    for line in [
        "1 + 3 - 2 * 2^2 / (3! - 1)",
        "-((5 + (-5)) * 2 - (4.5 / 9))",
        "f(g(1, 2)!, x.y_z) // 2e5 % k",
        "2 ^ 3 ^ 4!!",
        "mean()",
        "a / b / c",
    ] {
        let first = parse_input(line).unwrap().expr;
        let text = first.to_string();
        let second = parse_input(&text).unwrap();
        assert!(second.target.is_none());
        assert_eq!(second.expr.to_string(), text);
        assert_eq!(format!("{:?}", second.expr), format!("{:?}", first));
    }
    let built = Expr::Op(
        Box::new(Expr::Fac(Box::new(Expr::Var(String::from("n"))))),
        Operation::FloorDiv,
        Box::new(Expr::Func(
            String::from("max"),
            vec![
                Box::new(Expr::Num(String::from("1.5"))),
                Box::new(Expr::Num(String::from("2e3"))),
            ],
        )),
    );
    let read = parse_input(&built.to_string()).unwrap().expr;
    assert_eq!(format!("{:?}", read), format!("{:?}", built));
}

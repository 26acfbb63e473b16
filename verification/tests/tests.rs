//! Whole lines, evaluated against a context, with the arithmetic done in
//! double precision.

use scientific_calculator::ast::Operation;
use scientific_calculator::context::Context;
use scientific_calculator::evaluator::{evaluate as evaluate_with, Instr, Pending, Step};
use scientific_calculator::number::Number;
use scientific_calculator::request::{Builtin, Request};
use scientific_calculator::{calculate, CalcError, CalcErrorType};

fn number(x: f64) -> Number {
    Number::from_bits(x.to_bits())
}

fn float(n: Number) -> f64 {
    f64::from_bits(n.to_bits())
}

fn call(function: Builtin, args: &[f64]) -> f64 {
    match function {
        Builtin::Sqrt => f64::sqrt(args[0]),
        Builtin::Root => f64::powf(args[0], 1.0 / args[1]),
        Builtin::Fac => libm::tgamma(args[0] + 1.0),
        Builtin::Mean => {
            let mut sum = 0.0;
            for arg in args.iter() {
                sum += arg;
            }
            sum / (args.len() as f64)
        }
        Builtin::Stddev => {
            let n = args.len() as f64;
            let mut sum = 0.0;
            for arg in args.iter() {
                sum += arg;
            }
            let mean = sum.div_euclid(n);
            let mut dividend = 0.0;
            for arg in args.iter() {
                dividend += (arg - mean).powf(2.0);
            }
            f64::sqrt(dividend / n)
        }
        Builtin::Min => f64::min(args[0], args[1]),
        Builtin::Max => f64::max(args[0], args[1]),
        Builtin::Abs => args[0].abs(),
        Builtin::Round => args[0].round(),
        Builtin::Floor => args[0].floor(),
        Builtin::Ceil => args[0].ceil(),
        Builtin::Ln => f64::log(args[0], std::f64::consts::E),
        Builtin::Log10 => f64::log(args[0], 10.0),
        Builtin::Log => f64::log(args[0], args[1]),
        Builtin::Sin => f64::sin(args[0]),
        Builtin::Cos => f64::cos(args[0]),
        Builtin::Tan => f64::tan(args[0]),
        Builtin::Sinh => f64::sinh(args[0]),
        Builtin::Cosh => f64::cosh(args[0]),
        Builtin::Tanh => f64::tanh(args[0]),
        Builtin::Asin => f64::asin(args[0]),
        Builtin::Acos => f64::acos(args[0]),
        Builtin::Atan => f64::atan(args[0]),
        Builtin::Asinh => f64::asinh(args[0]),
        Builtin::Acosh => f64::acosh(args[0]),
        Builtin::Atanh => f64::atanh(args[0]),
    }
}

fn perform(request: &Request) -> Number {
    let value = match request {
        Request::Literal(text) => text.parse::<f64>().unwrap(),
        Request::Binary(op, lhs, rhs) => {
            let (a, b) = (float(*lhs), float(*rhs));
            match op {
                Operation::Add => a + b,
                Operation::Sub => a - b,
                Operation::Mul => a * b,
                Operation::Div => a / b,
                Operation::FloorDiv => (a / b).floor(),
                Operation::Mod => a % b,
                Operation::Exp => a.powf(b),
            }
        }
        Request::Factorial(operand) => libm::tgamma(float(*operand) + 1.0),
        Request::Call(function, args) => {
            let args: Vec<f64> = args.iter().map(|n| float(*n)).collect();
            call(*function, &args)
        }
    };
    number(value)
}

/// Evaluates a line to its end, and counts the requests on the way.
fn evaluate_counting(input: &str, ctx: &mut Context) -> (Result<f64, CalcError>, usize) {
    let mut requests = 0;
    let mut step = calculate(input, ctx);
    loop {
        match step {
            Step::Done(result) => return (result.map(float), requests),
            Step::Need(request, pending) => {
                requests += 1;
                let answer = perform(&request);
                step = pending.resume(answer, ctx);
            }
        }
    }
}

fn evaluate(input: &str, ctx: &mut Context) -> Result<f64, CalcError> {
    evaluate_with(input, ctx, perform).map(float)
}

fn kind(result: Result<f64, CalcError>) -> CalcErrorType {
    result.unwrap_err().error_type
}

fn ans(ctx: &Context) -> Option<Result<f64, CalcErrorType>> {
    ctx.lookup_var(&String::from("ans"))
        .map(|found| found.map(float).map_err(|e| e.error_type))
}

#[test]
fn test_simple_1() {
    let mut ctx = Context::new();
    assert_eq!(evaluate("1+1", &mut ctx).unwrap(), 2.0);
}

#[test]
fn test_simple_2() {
    let mut ctx = Context::new();
    assert_eq!(evaluate("5 * 10  / 25", &mut ctx).unwrap(), 2.0);
}

#[test]
fn test_simple_error() {
    let mut ctx = Context::new();
    assert!(evaluate("5 + ", &mut ctx).is_err());
}

#[test]
fn test_scientific_notation() {
    let mut ctx = Context::new();
    assert_eq!(evaluate("1.2345e10", &mut ctx).unwrap(), 12345000000.0);
}

#[test]
fn test_order_1() {
    let mut ctx = Context::new();
    assert_eq!(evaluate("5 + 5 * 2", &mut ctx).unwrap(), 15.0);
}

#[test]
fn test_order_2() {
    let mut ctx = Context::new();
    assert_eq!(evaluate("1 + 3 - 2 * 2^2 / (3! - 1)", &mut ctx).unwrap(), 2.4);
}

#[test]
fn test_paren_1() {
    let mut ctx = Context::new();
    assert_eq!(evaluate("(5)", &mut ctx).unwrap(), 5.0);
}

#[test]
fn test_paren_2() {
    let mut ctx = Context::new();
    assert_eq!(evaluate("-((5 + (-5)) * 2 - (4.5 / 9))", &mut ctx).unwrap(), 0.5);
}

#[test]
fn test_paren_3() {
    let mut ctx = Context::new();
    assert_eq!(evaluate("((((((((((((((((((((((((((((((((((((((((((((((((((((((((((((((((5))))))))))))))))))))))))))))))))))))))))))))))))))))))))))))))))", &mut ctx).unwrap(), 5.0);
}

#[test]
fn test_paren_error() {
    let mut ctx = Context::new();
    assert!(evaluate("(5", &mut ctx).is_err());
}

#[test]
fn test_var_assignment() {
    let mut ctx = Context::new();
    assert!(evaluate("a = 5 + 5", &mut ctx).is_ok());
    assert_eq!(evaluate("a", &mut ctx).unwrap(), 10.0);
}

#[test]
fn test_var_assignment_error() {
    let mut ctx = Context::new();
    assert!(evaluate("pi = 3.14", &mut ctx).is_err());
}

#[test]
fn test_var_const() {
    let mut ctx = Context::new();
    assert_eq!(evaluate("e", &mut ctx).unwrap(), std::f64::consts::E);
}

#[test]
fn test_function_1() {
    let mut ctx = Context::new();
    assert_eq!(evaluate("sqrt(4)", &mut ctx).unwrap(), 2.0);
}

#[test]
fn test_function_2() {
    let mut ctx = Context::new();
    assert_eq!(evaluate("root(243, 5)", &mut ctx).unwrap(), 3.0);
}

#[test]
fn test_function_3() {
    let mut ctx = Context::new();
    assert_eq!(evaluate("mean(2, 3, 4, 5)", &mut ctx).unwrap(), 3.5);
}

#[test]
fn test_function_error() {
    let mut ctx = Context::new();
    assert!(evaluate("sin(pi, 1)", &mut ctx).is_err());
}

#[test]
fn test_pythagorean() {
    let mut ctx = Context::new();
    let _ = evaluate("a = 2", &mut ctx);
    let _ = evaluate("b = 5", &mut ctx);
    assert_eq!(evaluate("sqrt(a^2 + b^2)", &mut ctx).unwrap(), (29f64).powf(0.5));
}

#[test]
fn test_create_context() {
    let _ctx = Context::new();
}

#[test]
fn test_lookup_var() {
    let ctx = Context::new();
    let res = ctx.lookup_var(&String::from("pi"));
    assert_eq!(float(res.unwrap().unwrap()), std::f64::consts::PI);
}

#[test]
fn test_lookup_var_failure() {
    let ctx = Context::new();
    let res = ctx.lookup_var(&String::from("smth"));
    assert!(res.is_none());
}

#[test]
fn test_lookup_var_ans_failure() {
    let ctx = Context::new();
    let res = ctx.lookup_var(&String::from("ans"));
    assert!(matches!(res.unwrap().unwrap_err().error_type, CalcErrorType::CalculationError));
}

#[test]
fn test_try_function() {
    let ctx = Context::new();
    let res = ctx.try_function(&String::from("sqrt"), vec![number(4.0)]);
    assert_eq!(float(perform(&res.unwrap().unwrap())), 2.0);
}

#[test]
fn test_try_function_invalid_args() {
    let ctx = Context::new();
    let res = ctx.try_function(&String::from("sqrt"), vec![number(4.0), number(5.0)]);
    assert!(matches!(res.unwrap().unwrap_err().error_type, CalcErrorType::ArgumentError));
}

#[test]
fn test_try_function_unknown_function() {
    let ctx = Context::new();
    let res = ctx.try_function(&String::from("bad_function"), vec![]);
    assert!(res.is_none());
}

#[test]
fn test_assign_var() {
    let mut ctx = Context::new();
    let name = String::from("a");
    assert!(ctx.assign_var(&name, number(5.0)).is_ok());
    let res = ctx.lookup_var(&name);
    assert_eq!(float(res.unwrap().unwrap()), 5.0)
}

#[test]
fn test_assign_var_const() {
    let mut ctx = Context::new();
    let res = ctx.assign_var(&String::from("pi"), number(5.0));
    assert!(matches!(res.unwrap_err().error_type, CalcErrorType::AssignmentError));
}

#[test]
fn stepping_and_the_loop_agree() {
    for line in ["1+1", "a = 2 ^ 3 ^ 2", "mean(1, 2, 3) * -2", "7 // 2 % 3", "nope + 1", "(5"] {
        let mut stepped = Context::new();
        let mut looped = Context::new();
        let by_steps = evaluate_counting(line, &mut stepped).0;
        let by_loop = evaluate(line, &mut looped);
        assert_eq!(by_steps, by_loop);
        assert_eq!(ans(&stepped), ans(&looped));
    }
}

#[test]
fn one_request_for_each_literal_and_operation() {
    let mut ctx = Context::new();
    assert_eq!(evaluate_counting("1 + 2 * 3", &mut ctx), (Ok(7.0), 5));
    assert_eq!(evaluate_counting("pi", &mut ctx), (Ok(std::f64::consts::PI), 0));
    assert_eq!(evaluate_counting("max(1, 2)!", &mut ctx), (Ok(2.0), 4));
    assert_eq!(evaluate_counting("1 + nope + 2", &mut ctx).1, 1);
}

#[test]
fn requests_come_from_left_to_right() {
    let mut ctx = Context::new();
    let mut seen = Vec::new();
    let mut step = calculate("8 - 2 * 3", &mut ctx);
    let result = loop {
        match step {
            Step::Done(result) => break result,
            Step::Need(request, pending) => {
                seen.push(format!("{:?}", request));
                let answer = perform(&request);
                step = pending.resume(answer, &mut ctx);
            }
        }
    };
    assert_eq!(float(result.unwrap()), 2.0);
    assert_eq!(seen.len(), 5);
    assert_eq!(seen[0], format!("{:?}", Request::Literal(String::from("8"))));
    assert_eq!(seen[1], format!("{:?}", Request::Literal(String::from("2"))));
    assert_eq!(seen[2], format!("{:?}", Request::Literal(String::from("3"))));
    assert_eq!(
        seen[3],
        format!("{:?}", Request::Binary(Operation::Mul, number(2.0), number(3.0)))
    );
    assert_eq!(
        seen[4],
        format!("{:?}", Request::Binary(Operation::Sub, number(8.0), number(6.0)))
    );
}

#[test]
fn operators_have_their_usual_values() {
    let mut ctx = Context::new();
    assert_eq!(evaluate("7 - 10", &mut ctx).unwrap(), -3.0);
    assert_eq!(evaluate("7 / 2", &mut ctx).unwrap(), 3.5);
    assert_eq!(evaluate("7 // 2", &mut ctx).unwrap(), 3.0);
    assert_eq!(evaluate("-7 // 2", &mut ctx).unwrap(), -4.0);
    assert_eq!(evaluate("7 % 3", &mut ctx).unwrap(), 1.0);
    assert_eq!(evaluate("2 ^ 10", &mut ctx).unwrap(), 1024.0);
    assert_eq!(evaluate("3!", &mut ctx).unwrap(), 6.0);
    assert_eq!(evaluate("0!", &mut ctx).unwrap(), 1.0);
    assert_eq!(evaluate("fac(4)", &mut ctx).unwrap(), 24.0);
}

#[test]
fn factorial_of_a_fraction_is_the_gamma_function() {
    let mut ctx = Context::new();
    let half = evaluate("0.5!", &mut ctx).unwrap();
    assert!((half - std::f64::consts::PI.sqrt() / 2.0).abs() < 1e-12);
    assert!(evaluate("(-1.5)!", &mut ctx).unwrap().is_finite());
}

#[test]
fn division_by_zero_is_no_error() {
    let mut ctx = Context::new();
    assert_eq!(evaluate("1 / 0", &mut ctx).unwrap(), f64::INFINITY);
    assert_eq!(evaluate("-1 / 0", &mut ctx).unwrap(), f64::NEG_INFINITY);
    assert!(evaluate("0 / 0", &mut ctx).unwrap().is_nan());
    assert_eq!(evaluate("ans", &mut ctx).map(f64::is_nan), Ok(true));
}

#[test]
fn exponent_groups_to_the_right_and_binds_after_factorial() {
    let mut ctx = Context::new();
    assert_eq!(evaluate("2 ^ 3 ^ 2", &mut ctx).unwrap(), 512.0);
    assert_eq!(evaluate("2 ^ 3!", &mut ctx).unwrap(), 64.0);
    assert_eq!(evaluate("-2 ^ 2", &mut ctx).unwrap(), -4.0);
    assert_eq!(evaluate("2 ^ -1", &mut ctx).unwrap(), 0.5);
    assert_eq!(evaluate("2 * 3 ^ 2", &mut ctx).unwrap(), 18.0);
}

#[test]
fn sums_and_products_group_to_the_left() {
    let mut ctx = Context::new();
    assert_eq!(evaluate("10 - 4 - 3", &mut ctx).unwrap(), 3.0);
    assert_eq!(evaluate("64 / 4 / 2", &mut ctx).unwrap(), 8.0);
    assert_eq!(evaluate("2 - -3", &mut ctx).unwrap(), 5.0);
    assert_eq!(evaluate("+5 - +2", &mut ctx).unwrap(), 3.0);
}

#[test]
fn constants_are_seeded() {
    let mut ctx = Context::new();
    assert_eq!(evaluate("pi", &mut ctx).unwrap(), std::f64::consts::PI);
    assert_eq!(evaluate("inf", &mut ctx).unwrap(), f64::INFINITY);
    assert!(evaluate("nan", &mut ctx).unwrap().is_nan());
    for name in ["pi", "e", "inf", "nan"] {
        let line = format!("{} = 1", name);
        assert_eq!(kind(evaluate(&line, &mut ctx)), CalcErrorType::AssignmentError);
    }
    assert_eq!(evaluate("pi", &mut ctx).unwrap(), std::f64::consts::PI);
}

#[test]
fn every_function_is_dispatched() {
    let mut ctx = Context::new();
    let close = |line: &str, expected: f64, ctx: &mut Context| {
        let value = evaluate(line, ctx).unwrap();
        assert!((value - expected).abs() < 1e-12, "{} gave {}", line, value);
    };
    close("sqrt(16)", 4.0, &mut ctx);
    close("root(27, 3)", 3.0, &mut ctx);
    close("fac(5)", 120.0, &mut ctx);
    close("mean(1, 2, 3, 4)", 2.5, &mut ctx);
    close("mean(7)", 7.0, &mut ctx);
    close("stddev(2, 2, 2)", 0.0, &mut ctx);
    close("min(3, 2)", 2.0, &mut ctx);
    close("max(3, 2)", 3.0, &mut ctx);
    close("abs(-3)", 3.0, &mut ctx);
    close("round(2.5)", 3.0, &mut ctx);
    close("floor(2.5)", 2.0, &mut ctx);
    close("ceil(2.5)", 3.0, &mut ctx);
    close("ln(e)", 1.0, &mut ctx);
    close("log10(1000)", 3.0, &mut ctx);
    close("log(8, 2)", 3.0, &mut ctx);
    close("sin(0)", 0.0, &mut ctx);
    close("cos(0)", 1.0, &mut ctx);
    close("tan(0)", 0.0, &mut ctx);
    close("sinh(0)", 0.0, &mut ctx);
    close("cosh(0)", 1.0, &mut ctx);
    close("tanh(0)", 0.0, &mut ctx);
    close("asin(1)", std::f64::consts::FRAC_PI_2, &mut ctx);
    close("acos(1)", 0.0, &mut ctx);
    close("atan(1)", std::f64::consts::FRAC_PI_4, &mut ctx);
    close("asinh(0)", 0.0, &mut ctx);
    close("acosh(1)", 0.0, &mut ctx);
    close("atanh(0)", 0.0, &mut ctx);
}

#[test]
fn a_function_of_any_count_takes_none() {
    let mut ctx = Context::new();
    assert!(evaluate("mean()", &mut ctx).unwrap().is_nan());
    assert_eq!(kind(evaluate("sqrt()", &mut ctx)), CalcErrorType::ArgumentError);
    assert_eq!(kind(evaluate("root(2)", &mut ctx)), CalcErrorType::ArgumentError);
}

#[test]
fn each_kind_of_error() {
    let mut ctx = Context::new();
    assert_eq!(kind(evaluate("5 + ", &mut ctx)), CalcErrorType::SyntaxError);
    assert_eq!(kind(evaluate("5 $ 2", &mut ctx)), CalcErrorType::SyntaxError);
    assert_eq!(kind(evaluate("", &mut ctx)), CalcErrorType::SyntaxError);
    assert_eq!(kind(evaluate("nope", &mut ctx)), CalcErrorType::UndefinedIdentifier);
    assert_eq!(kind(evaluate("nope(1)", &mut ctx)), CalcErrorType::UndefinedIdentifier);
    assert_eq!(kind(evaluate("sqrt", &mut ctx)), CalcErrorType::UndefinedIdentifier);
    assert_eq!(kind(evaluate("pi = 3.14", &mut ctx)), CalcErrorType::AssignmentError);
    assert_eq!(kind(evaluate("sin(pi, 1)", &mut ctx)), CalcErrorType::ArgumentError);
    assert_eq!(kind(evaluate("ans", &mut ctx)), CalcErrorType::CalculationError);
}

#[test]
fn instructions_that_no_expression_gives_are_a_parser_error() {
    let mut ctx = Context::new();
    let broken = Pending {
        input: String::from("+"),
        target: None,
        code: vec![Instr::Apply(Operation::Add)],
        pc: 0,
        stack: Vec::new(),
    };
    match broken.resume(number(1.0), &mut ctx) {
        Step::Done(Err(e)) => {
            assert_eq!(e.error_type, CalcErrorType::ParserError);
            assert_eq!(e.to_string(), "Parser error: Malformed expression\n");
        }
        other => panic!("{:?}", other),
    }
    let two_left = Pending {
        input: String::from("1 2"),
        target: None,
        code: Vec::new(),
        pc: 0,
        stack: vec![number(1.0)],
    };
    match two_left.resume(number(2.0), &mut ctx) {
        Step::Done(Err(e)) => assert_eq!(e.error_type, CalcErrorType::ParserError),
        other => panic!("{:?}", other),
    }
    assert_eq!(ans(&ctx), Some(Err(CalcErrorType::CalculationError)));
}

#[test]
fn the_first_error_from_the_left_wins() {
    let mut ctx = Context::new();
    let e = evaluate("first + second", &mut ctx).unwrap_err();
    assert_eq!(e.msg, "Undefined identifier 'first'");
    let e = evaluate("nope(missing)", &mut ctx).unwrap_err();
    assert_eq!(e.msg, "Undefined identifier 'missing'");
    let e = evaluate("sin(1, missing)", &mut ctx).unwrap_err();
    assert_eq!(e.msg, "Undefined identifier 'missing'");
    let e = evaluate("sin(1, 2) + missing", &mut ctx).unwrap_err();
    assert_eq!(e.error_type, CalcErrorType::ArgumentError);
    let e = evaluate("pi = missing", &mut ctx).unwrap_err();
    assert_eq!(e.error_type, CalcErrorType::UndefinedIdentifier);
}

#[test]
fn error_messages() {
    let mut ctx = Context::new();
    let e = evaluate("pi = 3.14", &mut ctx).unwrap_err();
    assert_eq!(e.to_string(), "Assignment error: Can't assign value to constant 'pi'\n");
    let e = evaluate("sin(pi, 1)", &mut ctx).unwrap_err();
    assert_eq!(e.to_string(), "Argument error: Invalid number of arguments\n");
    let e = evaluate("5 + ", &mut ctx).unwrap_err();
    assert_eq!(
        e.to_string(),
        "Syntax error: Unexpected token [EOI]\n| \n| 5 + \n|     └─ here\n"
    );
    let e = evaluate("(5", &mut ctx).unwrap_err();
    assert_eq!(e.msg, "Unexpected token [EOI]\n| \n| (5\n|   └─ here");
    let e = evaluate("5 5", &mut ctx).unwrap_err();
    assert_eq!(e.msg, "Unexpected token [5]\n| \n| 5 5\n|   └─ here");
    let e = evaluate("a = b = 5", &mut ctx).unwrap_err();
    assert_eq!(e.msg, "Unexpected token [=]\n| \n| a = b = 5\n|       └─ here");
    let e = evaluate("2 * x)", &mut ctx).unwrap_err();
    assert_eq!(e.msg, "Unexpected token [)]\n| \n| 2 * x)\n|      └─ here");
    let e = evaluate("12 # 3", &mut ctx).unwrap_err();
    assert_eq!(e.msg, "Unexpected token\n| \n| 12 # 3\n|    └─ here");
}

#[test]
fn assignment_adds_and_overwrites() {
    let mut ctx = Context::new();
    assert_eq!(evaluate("x = 2", &mut ctx).unwrap(), 2.0);
    assert_eq!(evaluate("y = x * 3", &mut ctx).unwrap(), 6.0);
    assert_eq!(evaluate("x = x + y", &mut ctx).unwrap(), 8.0);
    assert_eq!(evaluate("x", &mut ctx).unwrap(), 8.0);
    assert_eq!(evaluate("y", &mut ctx).unwrap(), 6.0);
    assert_eq!(kind(evaluate("X", &mut ctx)), CalcErrorType::UndefinedIdentifier);
    assert_eq!(evaluate("rate.of_change2 = 1.5", &mut ctx).unwrap(), 1.5);
    assert_eq!(evaluate("rate.of_change2 * 2", &mut ctx).unwrap(), 3.0);
}

#[test]
fn a_failed_assignment_assigns_nothing() {
    let mut ctx = Context::new();
    assert!(evaluate("x = 1", &mut ctx).is_ok());
    assert!(evaluate("x = nope", &mut ctx).is_err());
    assert!(evaluate("x = 2 +", &mut ctx).is_err());
    assert_eq!(evaluate("x", &mut ctx).unwrap(), 1.0);
    assert!(evaluate("fresh = nope", &mut ctx).is_err());
    assert_eq!(kind(evaluate("fresh", &mut ctx)), CalcErrorType::UndefinedIdentifier);
}

#[test]
fn a_line_without_assignment_gives_the_same_result_again() {
    let mut ctx = Context::new();
    assert!(evaluate("a = 2", &mut ctx).is_ok());
    for line in ["sqrt(a) + pi / 3", "a!", "mean(a, 1, 2) ^ 0.5", "nope", "sin(1, 2)", "1 +"] {
        let first = evaluate(line, &mut ctx).map(f64::to_bits);
        let second = evaluate(line, &mut ctx).map(f64::to_bits);
        assert_eq!(first, second);
        assert_eq!(evaluate("a", &mut ctx).unwrap(), 2.0);
    }
}

#[test]
fn a_line_that_reads_ans_need_not_repeat() {
    let mut ctx = Context::new();
    assert_eq!(evaluate("1", &mut ctx).unwrap(), 1.0);
    assert_eq!(evaluate("ans + 1", &mut ctx).unwrap(), 2.0);
    assert_eq!(evaluate("ans + 1", &mut ctx).unwrap(), 3.0);
}

#[test]
fn ans_fails_until_a_line_succeeds() {
    let mut ctx = Context::new();
    assert_eq!(ans(&ctx), Some(Err(CalcErrorType::CalculationError)));
    let e = ctx.lookup_var(&String::from("ans")).unwrap().unwrap_err();
    assert_eq!(e.msg, "Cannot use 'ans' without a previous equation");
    assert!(evaluate("nope", &mut ctx).is_err());
    assert!(evaluate("1 +", &mut ctx).is_err());
    assert!(evaluate("ans", &mut ctx).is_err());
    assert_eq!(ans(&ctx), Some(Err(CalcErrorType::CalculationError)));
    let e = ctx.lookup_var(&String::from("ans")).unwrap().unwrap_err();
    assert_eq!(e.msg, "Cannot use 'ans' without a previous valid solution");
}

#[test]
fn ans_is_the_last_result_and_passes_over_failures() {
    let mut ctx = Context::new();
    assert_eq!(evaluate("2 * 3", &mut ctx).unwrap(), 6.0);
    assert_eq!(ans(&ctx), Some(Ok(6.0)));
    assert!(evaluate("nope", &mut ctx).is_err());
    assert!(evaluate("((", &mut ctx).is_err());
    assert!(evaluate("pi = 1", &mut ctx).is_err());
    assert_eq!(ans(&ctx), Some(Ok(6.0)));
    assert_eq!(evaluate("ans + 1", &mut ctx).unwrap(), 7.0);
    assert_eq!(ans(&ctx), Some(Ok(7.0)));
    assert_eq!(evaluate("x = 10", &mut ctx).unwrap(), 10.0);
    assert_eq!(ans(&ctx), Some(Ok(10.0)));
}

#[test]
fn a_variable_called_ans_stays_behind_the_answer() {
    let mut ctx = Context::new();
    assert_eq!(evaluate("ans = 5", &mut ctx).unwrap(), 5.0);
    assert_eq!(evaluate("1", &mut ctx).unwrap(), 1.0);
    assert_eq!(evaluate("ans", &mut ctx).unwrap(), 1.0);
}

#[test]
fn a_line_that_does_not_parse_goes_to_the_history() {
    let mut ctx = Context::new();
    assert_eq!(kind(evaluate("1 +", &mut ctx)), CalcErrorType::SyntaxError);
    let e = ctx.lookup_var(&String::from("ans")).unwrap().unwrap_err();
    assert_eq!(e.msg, "Cannot use 'ans' without a previous valid solution");
    let mut ctx = Context::new();
    assert_eq!(kind(evaluate("1 # 2", &mut ctx)), CalcErrorType::SyntaxError);
    let e = ctx.lookup_var(&String::from("ans")).unwrap().unwrap_err();
    assert_eq!(e.msg, "Cannot use 'ans' without a previous valid solution");
}

#[test]
fn the_steps_of_an_assignment() {
    let mut ctx = Context::new();
    let step = calculate("x = 4", &mut ctx);
    let pending = match step {
        Step::Need(Request::Literal(text), pending) => {
            assert_eq!(text, "4");
            pending
        }
        other => panic!("{:?}", other),
    };
    assert_eq!(pending.input, "x = 4");
    assert_eq!(pending.target, Some(String::from("x")));
    assert!(ctx.lookup_var(&String::from("x")).is_none());
    assert_eq!(ans(&ctx), Some(Err(CalcErrorType::CalculationError)));
    match pending.resume(number(4.0), &mut ctx) {
        Step::Done(Ok(value)) => assert_eq!(float(value), 4.0),
        other => panic!("{:?}", other),
    }
    assert_eq!(ctx.lookup_var(&String::from("x")), Some(Ok(number(4.0))));
    assert_eq!(ans(&ctx), Some(Ok(4.0)));
}

#[test]
fn the_answers_decide_the_result() {
    let mut ctx = Context::new();
    let sevens = |_: &Request| number(7.0);
    assert_eq!(evaluate_with("1 + 1", &mut ctx, sevens).map(float), Ok(7.0));
    assert_eq!(evaluate_with("x = sqrt(2)", &mut ctx, sevens).map(float), Ok(7.0));
    assert_eq!(evaluate_with("x", &mut ctx, sevens).map(float), Ok(7.0));
    assert_eq!(evaluate_with("nope", &mut ctx, sevens).is_err(), true);
}

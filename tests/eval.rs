use slang::error::{EvalError, ParseError};
use slang::eval::eval_expr;
use slang::number::Number;
use slang::parser::{expr, Lexer};
use slang::scanner::scan_tokens;
use slang::statement::State;
use slang::token::TokenType;
use slang::tree::{Atom, Op, S};

fn parse(src: &str) -> S {
    expr(&mut Lexer::new(scan_tokens(src))).unwrap()
}

fn eval_in(src: &str, state: &mut State) -> Result<Atom, EvalError> {
    eval_expr(&parse(src), state)
}

fn value_of(n: &Number) -> f64 {
    n.numerator() as f64 / n.denominator() as f64
}

fn num(a: &Atom) -> f64 {
    match a {
        Atom::Num(n) => value_of(n),
        other => panic!("not a number: {:?}", other),
    }
}

fn close(a: f64, b: f64) -> bool {
    (a - b).abs() <= 1e-9 * b.abs().max(1.0)
}

#[test]
fn test_eval() {
    let mut top_state = State::default();
    let cases: Vec<(&str, f64, (i64, i64))> = vec![
        ("-2", -2.0, (-2, 1)),
        ("5 + 4", (5 + 4) as f64, (9, 1)),
        ("3 - 4 / 3", 3.0 - 4.0 / 3.0, (5, 3)),
        ("3 + 5 * 4", (3 + 5 * 4) as f64, (23, 1)),
        ("3 + 5 * 4 + -4 - -5", (3 + 5 * 4 + -4 - -5) as f64, (24, 1)),
        ("3 * (4 + 5 * 8)", (3 * (4 + 5 * 8)) as f64, (132, 1)),
        ("4.4 * (9 * 5 - 8 /     (3 - 4))", 4.4 * (9.0 * 5.0 - 8.0 / (3.0 - 4.0)), (1166, 5)),
        ("3.25/4 * 5", 3.25 / 4.0 * 5.0, (65, 16)),
        ("(4.0 * 12.5) + 6.0 / (12.5 + 3.0)", (4.0 * 12.5) + 6.0 / (12.5 + 3.0), (1562, 31)),
    ];
    for (src, expected, exact) in cases {
        let got = eval_in(src, &mut top_state).unwrap();
        match &got {
            Atom::Num(n) => assert_eq!((n.numerator(), n.denominator()), exact, "{}", src),
            other => panic!("{}: not a number: {:?}", src, other),
        }
        assert!(close(num(&got), expected), "{}: {:?} vs {}", src, got, expected);
    }
}

#[test]
fn parser_leaves_what_it_does_not_take() {
    let mut lexer = Lexer::new(scan_tokens("1 + 2) * 3"));
    let e = expr(&mut lexer).unwrap();
    assert_eq!(e.to_text(), "(+ 1 2)");
    let rest = expr(&mut lexer);
    assert!(matches!(rest, Err(ParseError { ty: TokenType::RParen, line: 1 })));
}

#[test]
fn precedence_of_multiplication() {
    let st = State::default();
    let a = eval_in("3 + 5 * 4", &mut State::default()).unwrap();
    match a {
        Atom::Num(n) => {
            assert_eq!(n.numerator(), 23);
            assert_eq!(n.denominator(), 1);
        },
        _ => panic!("not a number"),
    }
    assert_eq!(num(&eval_expr(&parse("3 * (4 + 5 * 8)"), &st).unwrap()), 132.0);
}

#[test]
fn left_associative_chain() {
    assert_eq!(num(&eval_in("3 + 5 * 4 + -4 - -5", &mut State::default()).unwrap()), 24.0);
    assert_eq!(num(&eval_in("10 - 4 - 3", &mut State::default()).unwrap()), 3.0);
    assert_eq!(num(&eval_in("64 / 4 / 2", &mut State::default()).unwrap()), 8.0);
}

#[test]
fn unary_and_binary_minus() {
    let t = parse("-2");
    match &t {
        S::Cons(Op::Minus, xs) => assert_eq!(xs.len(), 1),
        _ => panic!("expected negation"),
    }
    assert_eq!(num(&eval_expr(&t, &State::default()).unwrap()), -2.0);
    let t = parse("3 - 4 / 3");
    match &t {
        S::Cons(Op::Minus, xs) => assert_eq!(xs.len(), 2),
        _ => panic!("expected subtraction"),
    }
    match eval_expr(&t, &State::default()).unwrap() {
        Atom::Num(n) => {
            assert_eq!(n.numerator(), 5);
            assert_eq!(n.denominator(), 3);
        },
        _ => panic!("not a number"),
    }
}

#[test]
fn undefined_variable_is_an_error() {
    let st = State::default();
    match eval_expr(&parse("missing + 1"), &st) {
        Err(EvalError::Undefined(name)) => assert_eq!(name, "missing"),
        other => panic!("unexpected {:?}", other),
    }
}

#[test]
fn string_concatenation() {
    match eval_in("\"ab\" + \"cd\"", &mut State::default()).unwrap() {
        Atom::Str(s) => assert_eq!(s, "abcd"),
        other => panic!("unexpected {:?}", other),
    }
}

#[test]
fn comparisons_and_logic() {
    let cases: Vec<(&str, bool)> = vec![
        ("1 < 2", true),
        ("2 > 3", false),
        ("1 / 2 == 2 / 4", true),
        ("1 != 1", false),
        ("\"a\" == \"a\"", true),
        ("true and false", false),
        ("true or false", true),
        ("1 + 1 == 2 and 3 > 2", true),
        ("[1, 2] == [1, 2]", true),
        ("[1, 2] == [1, 3]", false),
        ("[1] == [1, 2]", false),
        ("[1] == [\"a\"]", false),
        ("[[1], 2] == [[1], 2]", true),
        ("[1, 2] != [2, 1]", true),
        ("[] == []", true),
    ];
    for (src, expected) in cases {
        match eval_in(src, &mut State::default()).unwrap() {
            Atom::Bool(b) => assert_eq!(b, expected, "{}", src),
            other => panic!("{}: {:?}", src, other),
        }
    }
}

#[test]
fn remainder_follows_the_dividend_sign() {
    assert_eq!(num(&eval_in("7 % 3", &mut State::default()).unwrap()), 1.0);
    assert_eq!(num(&eval_in("-7 % 3", &mut State::default()).unwrap()), -1.0);
    assert!(close(num(&eval_in("5.5 % 2", &mut State::default()).unwrap()), 1.5));
}

#[test]
fn arrays_index_and_length() {
    assert_eq!(num(&eval_in("[1, 2 + 3, 7][1]", &mut State::default()).unwrap()), 5.0);
    assert_eq!(num(&eval_in("[1, 2, 3].len", &mut State::default()).unwrap()), 3.0);
    assert_eq!(num(&eval_in("[].len", &mut State::default()).unwrap()), 0.0);
    assert!(matches!(eval_in("[1, 2][2]", &mut State::default()), Err(EvalError::Shape)));
    assert!(matches!(eval_in("[1, 2][1 / 2]", &mut State::default()), Err(EvalError::Shape)));
    assert!(matches!(eval_in("5[0]", &mut State::default()), Err(EvalError::Shape)));
    assert!(matches!(eval_in("[1].size", &mut State::default()), Err(EvalError::Shape)));
}

#[test]
fn each_error_kind() {
    assert!(matches!(eval_in("1 / 0", &mut State::default()), Err(EvalError::DivisionByZero)));
    assert!(matches!(eval_in("1 % (2 - 2)", &mut State::default()), Err(EvalError::DivisionByZero)));
    assert!(matches!(eval_in("1 + \"a\"", &mut State::default()), Err(EvalError::TypeMismatch)));
    assert!(matches!(eval_in("-true", &mut State::default()), Err(EvalError::TypeMismatch)));
    assert!(matches!(eval_in("1 and true", &mut State::default()), Err(EvalError::TypeMismatch)));
    assert!(matches!(eval_in("[1] == 1", &mut State::default()), Err(EvalError::TypeMismatch)));
    assert!(matches!(eval_in("\"a\" < \"b\"", &mut State::default()), Err(EvalError::TypeMismatch)));
    assert!(matches!(
        eval_in("9223372036854775807 + 1", &mut State::default()),
        Err(EvalError::Overflow)
    ));
    let three = S::Cons(Op::Plus, vec![S::Atom(Atom::Bool(true))]);
    assert!(matches!(eval_expr(&three, &State::default()), Err(EvalError::Shape)));
}

#[test]
fn parse_errors_name_the_token() {
    let r = expr(&mut Lexer::new(scan_tokens("(1 + 2")));
    assert!(matches!(r, Err(ParseError { ty: TokenType::EOF, line: 1 })));
    let r = expr(&mut Lexer::new(scan_tokens("(1 +\n\n")));
    assert!(matches!(r, Err(ParseError { ty: TokenType::NewLine, line: 1 })));
    let r = expr(&mut Lexer::new(scan_tokens("# note\n# more\n-")));
    assert!(matches!(r, Err(ParseError { ty: TokenType::NewLine, line: 1 })));
    let r = expr(&mut Lexer::new(vec![]));
    assert!(matches!(r, Err(ParseError { ty: TokenType::EOF, line: 0 })));
    let r = expr(&mut Lexer::new(scan_tokens("\n* 2")));
    assert!(matches!(r, Err(ParseError { ty: TokenType::NewLine, line: 1 })));
    let r = expr(&mut Lexer::new(scan_tokens("\n\n* 2")));
    assert!(matches!(r, Err(ParseError { ty: TokenType::NewLine, line: 1 })));
    let r = expr(&mut Lexer::new(scan_tokens("1 + \n\n*")));
    assert!(matches!(r, Err(ParseError { ty: TokenType::NewLine, line: 1 })));
    let r = expr(&mut Lexer::new(scan_tokens("[1, 2")));
    assert!(matches!(r, Err(ParseError { ty: TokenType::EOF, line: 1 })));
    let r = expr(&mut Lexer::new(scan_tokens("1 *")));
    assert!(matches!(r, Err(ParseError { ty: TokenType::EOF, line: 1 })));
    let r = expr(&mut Lexer::new(scan_tokens("1 + $")));
    assert!(matches!(r, Err(ParseError { ty: TokenType::Unknown, line: 1 })));
}

#[test]
fn parser_stops_before_a_non_operator() {
    let mut lexer = Lexer::new(scan_tokens("1 + 2 { 3 }"));
    let e = expr(&mut lexer).unwrap();
    assert_eq!(num(&eval_expr(&e, &State::default()).unwrap()), 3.0);
}

fn reparsed(src: &str) -> S {
    let tree = parse(src);
    let mut lexer = Lexer::new(tree.to_tokens());
    expr(&mut lexer).unwrap()
}

#[test]
fn printed_tokens_parse_back() {
    for src in [
        "3 + 5 * 4",
        "3 * (4 + 5 * 8)",
        "-(2 - 7) % 3",
        "1 < 2 and true or x == y",
        "\"s\" + t",
        "[1, [2, 3 * 4], \"s\"][1][1]",
        "[].len + [1, 2].len",
    ] {
        let tree = parse(src);
        let back = reparsed(src);
        let st = State::default();
        let a = eval_expr(&tree, &st).map(|v| format!("{:?}", v)).map_err(|e| format!("{:?}", e));
        let b = eval_expr(&back, &st).map(|v| format!("{:?}", v)).map_err(|e| format!("{:?}", e));
        assert_eq!(a, b, "{}", src);
        assert_eq!(format!("{:?}", tree), format!("{:?}", back), "{}", src);
    }
}

#[test]
fn printed_form_is_fully_parenthesised() {
    let kinds: Vec<TokenType> = parse("1 - -2").to_tokens().iter().map(|t| t.ty).collect();
    assert_eq!(
        kinds,
        vec![
            TokenType::LParen,
            TokenType::Number,
            TokenType::Minus,
            TokenType::LParen,
            TokenType::Minus,
            TokenType::Number,
            TokenType::RParen,
            TokenType::RParen,
        ]
    );
    let kinds: Vec<TokenType> = parse("[1, 2][0]").to_tokens().iter().map(|t| t.ty).collect();
    assert_eq!(kinds.len(), 10);
    assert_eq!(num(&eval_expr(&reparsed("[1, 2][0]"), &State::default()).unwrap()), 1.0);
}

#[test]
fn fractions_are_kept_in_lowest_terms() {
    match eval_in("4 / 6", &mut State::default()).unwrap() {
        Atom::Num(n) => assert_eq!((n.numerator(), n.denominator()), (2, 3)),
        other => panic!("unexpected {:?}", other),
    }
    match eval_in("0.5 + 0.25 + 0.25", &mut State::default()).unwrap() {
        Atom::Num(n) => assert_eq!((n.numerator(), n.denominator()), (1, 1)),
        other => panic!("unexpected {:?}", other),
    }
    let n = Number::new(-10, 4).unwrap();
    assert_eq!((n.numerator(), n.denominator()), (-5, 2));
    assert!(Number::new(1, 0).is_none());
    let m = Number::from_int(7);
    assert_eq!((m.numerator(), m.denominator()), (7, 1));
}

#[test]
fn text_forms() {
    assert_eq!(parse("3 + 5 * 4").to_text(), "(+ 3 (* 5 4))");
    assert_eq!(parse("-2").to_text(), "(- 2)");
    assert_eq!(parse("a[0] == \"s\" and true").to_text(), "(and (== ([] a 0) s) true)");
    assert_eq!(eval_in("-2", &mut State::default()).unwrap().to_text(), "-2");
    assert_eq!(eval_in("3 - 4 / 3", &mut State::default()).unwrap().to_text(), "5/3");
    assert_eq!(eval_in("[1, \"a\", 1 < 2, [0.5]]", &mut State::default()).unwrap().to_text(), "[1, a, true, [1/2]]");
    assert_eq!(eval_in("9223372036854775807 - 0", &mut State::default()).unwrap().to_text(), "9223372036854775807");
    assert_eq!(Op::NotEqual.to_text(), "!=");
    assert_eq!(Op::Or.to_text(), "or");
}

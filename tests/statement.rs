use slang::error::EvalError;
use slang::eval::eval_expr;
use slang::parser::{expr, Lexer};
use slang::scanner::scan_tokens;
use slang::statement::{Block, Declaration, If, State, Stmt, While};
use slang::tree::{Atom, S};

fn parse(src: &str) -> S {
    expr(&mut Lexer::new(scan_tokens(src))).unwrap()
}

fn dec(name: &str, src: &str, alias: bool) -> Stmt {
    Stmt::Dec(Declaration { lhs: name.to_string(), rhs: parse(src), alias })
}

fn read(state: &State, name: &str) -> Option<f64> {
    match state.get_variable(&name.to_string()) {
        Some(Atom::Num(n)) => Some(n.numerator() as f64 / n.denominator() as f64),
        Some(other) => panic!("not a number: {:?}", other),
        None => None,
    }
}

#[test]
fn redeclaration_keeps_the_kind() {
    let mut state = State::default();
    assert!(dec("x", "5", true).execute(&mut state, 100).is_ok());
    match dec("x", "\"s\"", false).execute(&mut state, 100) {
        Err(EvalError::Redeclared(name, Atom::Num(old), Atom::Str(new))) => {
            assert_eq!(name, "x");
            assert_eq!((old.numerator(), old.denominator()), (5, 1));
            assert_eq!(new, "s");
        },
        other => panic!("unexpected {:?}", other),
    }
    assert_eq!(read(&state, "x"), Some(5.0));
    assert!(matches!(dec("x", "6", false).execute(&mut state, 100), Ok(None)));
    assert_eq!(read(&state, "x"), Some(6.0));
    let v = eval_expr(&parse("x * 2"), &state).unwrap();
    assert!(matches!(v, Atom::Num(n) if n.numerator() == 12 && n.denominator() == 1));
}

#[test]
fn alias_flag_changes_the_kind() {
    let mut state = State::default();
    assert!(state.declare(Declaration { lhs: "x".to_string(), rhs: parse("5"), alias: true }).is_ok());
    assert!(state.declare(Declaration { lhs: "x".to_string(), rhs: parse("\"s\""), alias: true }).is_ok());
    assert!(matches!(state.get_variable(&"x".to_string()), Some(Atom::Str(s)) if s == "s"));
}

#[test]
fn assignment_to_an_unknown_name_fails() {
    let mut state = State::default();
    match state.declare(Declaration { lhs: "y".to_string(), rhs: parse("1"), alias: false }) {
        Err(EvalError::Uninitialized(name)) => assert_eq!(name, "y"),
        other => panic!("unexpected {:?}", other),
    }
    assert_eq!(read(&state, "y"), None);
}

#[test]
fn block_scopes_are_isolated() {
    let mut state = State::default();
    dec("outer", "1", true).execute(&mut state, 100).unwrap();
    let then_block = Block { stmts: vec![dec("inner", "2", true), dec("outer", "outer + 1", false)] };
    let stmt = Stmt::IfStmt(If { cond: parse("true"), then_block, else_block: Block { stmts: vec![] } });
    stmt.execute(&mut state, 100).unwrap();
    assert_eq!(read(&state, "inner"), None);
    assert_eq!(read(&state, "outer"), Some(2.0));
    assert!(matches!(eval_expr(&parse("inner"), &state), Err(EvalError::Undefined(_))));
}

#[test]
fn if_picks_one_branch_and_gives_no_value() {
    let mut state = State::default();
    dec("picked", "\"none\"", true).execute(&mut state, 100).unwrap();
    let stmt = Stmt::IfStmt(If {
        cond: parse("1 > 2"),
        then_block: Block { stmts: vec![dec("picked", "\"hello\"", false), Stmt::ExprStmt(parse("1"))] },
        else_block: Block { stmts: vec![dec("picked", "\"goodbye\"", false), Stmt::ExprStmt(parse("2"))] },
    });
    assert!(matches!(stmt.execute(&mut state, 100), Ok(None)));
    assert!(matches!(state.get_variable(&"picked".to_string()), Some(Atom::Str(s)) if s == "goodbye"));
    let bad = Stmt::IfStmt(If {
        cond: parse("1"),
        then_block: Block { stmts: vec![] },
        else_block: Block { stmts: vec![] },
    });
    assert!(matches!(bad.execute(&mut state, 100), Err(EvalError::TypeMismatch)));
}

#[test]
fn only_expression_statements_give_a_value() {
    let mut state = State::default();
    assert!(matches!(Stmt::ExprStmt(parse("1 + 1")).execute(&mut state, 100), Ok(Some(Atom::Num(_)))));
    assert!(matches!(dec("z", "1", true).execute(&mut state, 100), Ok(None)));
    let body = Block { stmts: vec![Stmt::ExprStmt(parse("z"))] };
    let stmt = Stmt::WhileStmt(While { cond: parse("false"), loop_block: body });
    assert!(matches!(stmt.execute(&mut state, 100), Ok(None)));
}

#[test]
fn while_counts_down_ten_times() {
    let mut state = State::default();
    dec("x", "10", true).execute(&mut state, 100).unwrap();
    dec("count", "0", true).execute(&mut state, 100).unwrap();
    let body = Block { stmts: vec![dec("x", "x - 1", false), dec("count", "count + 1", false)] };
    let stmt = Stmt::WhileStmt(While { cond: parse("x > 0"), loop_block: body });
    assert!(matches!(stmt.execute(&mut state, 100), Ok(None)));
    assert_eq!(read(&state, "x"), Some(0.0));
    assert_eq!(read(&state, "count"), Some(10.0));
}

#[test]
fn while_stops_when_out_of_fuel() {
    let mut state = State::default();
    dec("x", "0", true).execute(&mut state, 100).unwrap();
    let body = Block { stmts: vec![dec("x", "x + 1", false)] };
    let stmt = Stmt::WhileStmt(While { cond: parse("true"), loop_block: body });
    assert!(matches!(stmt.execute(&mut state, 5), Err(EvalError::OutOfFuel)));
    assert_eq!(read(&state, "x"), Some(5.0));
}

#[test]
fn error_inside_a_block_unwinds_its_scope() {
    let mut state = State::default();
    let body = Block { stmts: vec![dec("t", "1", true), Stmt::ExprStmt(parse("1 / 0"))] };
    let stmt = Stmt::IfStmt(If { cond: parse("true"), then_block: body, else_block: Block { stmts: vec![] } });
    assert!(matches!(stmt.execute(&mut state, 100), Err(EvalError::DivisionByZero)));
    assert_eq!(read(&state, "t"), None);
    dec("t", "3", true).execute(&mut state, 100).unwrap();
    assert_eq!(read(&state, "t"), Some(3.0));
}

#[test]
fn print_records_values_in_order() {
    let mut state = State::default();
    assert!(matches!(Stmt::PrintStmt(parse("1 + 1")).execute(&mut state, 100), Ok(None)));
    Stmt::PrintStmt(parse("\"done\"")).execute(&mut state, 100).unwrap();
    let out = state.printed();
    assert_eq!(out.len(), 2);
    assert!(matches!(&out[0], Atom::Num(n) if n.numerator() == 2));
    assert!(matches!(&out[1], Atom::Str(s) if s == "done"));
}

#[test]
fn aliased_declaration_updates_an_outer_binding() {
    let mut state = State::default();
    dec("v", "1", true).execute(&mut state, 100).unwrap();
    let inner = Block { stmts: vec![dec("v", "10", true), dec("v", "v + 5", false), dec("seen", "v", false)] };
    let outer = Block {
        stmts: vec![Stmt::IfStmt(If { cond: parse("true"), then_block: inner, else_block: Block { stmts: vec![] } })],
    };
    dec("seen", "0", true).execute(&mut state, 100).unwrap();
    let stmt = Stmt::IfStmt(If { cond: parse("true"), then_block: outer, else_block: Block { stmts: vec![] } });
    assert!(matches!(stmt.execute(&mut state, 100), Ok(None)));
    assert_eq!(read(&state, "v"), Some(15.0));
    assert_eq!(read(&state, "seen"), Some(15.0));
}

#[test]
fn long_fractional_loop_stays_exact() {
    let mut state = State::default();
    dec("i", "0", true).execute(&mut state, 10).unwrap();
    let body = Block { stmts: vec![dec("i", "i + 0.5", false)] };
    let stmt = Stmt::WhileStmt(While { cond: parse("i < 150"), loop_block: body });
    assert!(matches!(stmt.execute(&mut state, 1000), Ok(None)));
    assert_eq!(read(&state, "i"), Some(150.0));
}

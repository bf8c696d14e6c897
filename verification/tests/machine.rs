use lp::env::Env;
use lp::eval::{apply_operator, interpret_tree};
use lp::machine::interpret_insts;
use lp::types::{Expr, Inst, LpErr, Operator};

fn runtime_failure(message: &str) -> Result<i32, LpErr> {
    Err(LpErr::Runtime(message.to_string()))
}

fn interpret_failure(message: &str) -> Result<i32, LpErr> {
    Err(LpErr::Interpret(message.to_string()))
}

fn two_values(x: i32, y: i32, inst: Inst) -> Result<i32, LpErr> {
    let insts = vec![
        Inst::Store(x, 'a'),
        Inst::Store(y, 'b'),
        inst,
        Inst::Result('b'),
    ];
    interpret_insts(&insts, &Env::new())
}

#[test]
fn an_environment_binds_names() {
    let mut env = Env::new();
    assert_eq!(env.get("x"), None);
    env.insert("x", 1);
    env.insert("y", 2);
    assert_eq!(env.get("x"), Some(1));
    assert_eq!(env.get("y"), Some(2));
    assert_eq!(env.get("z"), None);
    env.insert("x", 3);
    assert_eq!(env.get("x"), Some(3));
    assert_eq!(env.get("y"), Some(2));
}

#[test]
fn the_second_register_is_changed() {
    assert_eq!(two_values(3, 10, Inst::Add('a', 'b')), Ok(13));
    assert_eq!(two_values(3, 10, Inst::Sub('a', 'b')), Ok(7));
    assert_eq!(two_values(3, 10, Inst::Mul('a', 'b')), Ok(30));
    assert_eq!(two_values(3, 10, Inst::Div('a', 'b')), Ok(3));
}

#[test]
fn the_first_register_is_kept() {
    let insts = vec![
        Inst::Store(3, 'a'),
        Inst::Store(10, 'b'),
        Inst::Sub('a', 'b'),
        Inst::Result('a'),
    ];
    assert_eq!(interpret_insts(&insts, &Env::new()), Ok(3));
}

#[test]
fn one_register_can_be_both_operands() {
    let insts = vec![Inst::Store(6, 'q'), Inst::Add('q', 'q'), Inst::Result('q')];
    assert_eq!(interpret_insts(&insts, &Env::new()), Ok(12));
    let insts = vec![Inst::Store(6, 'q'), Inst::Sub('q', 'q'), Inst::Result('q')];
    assert_eq!(interpret_insts(&insts, &Env::new()), Ok(0));
}

#[test]
fn a_store_replaces_a_value() {
    let insts = vec![Inst::Store(1, 'a'), Inst::Store(2, 'a'), Inst::Result('a')];
    assert_eq!(interpret_insts(&insts, &Env::new()), Ok(2));
}

#[test]
fn a_transfer_copies_a_variable() {
    let mut env = Env::new();
    env.insert("n", 41);
    let insts = vec![
        Inst::Transfer("n".to_string(), 'a'),
        Inst::Store(1, 'b'),
        Inst::Add('b', 'a'),
        Inst::Result('a'),
    ];
    assert_eq!(interpret_insts(&insts, &env), Ok(42));
}

#[test]
fn any_character_names_a_register() {
    let insts = vec![
        Inst::Store(2, 'é'),
        Inst::Store(5, '0'),
        Inst::Mul('é', '0'),
        Inst::Result('0'),
    ];
    assert_eq!(interpret_insts(&insts, &Env::new()), Ok(10));
}

#[test]
fn division_rounds_toward_zero() {
    assert_eq!(two_values(2, 7, Inst::Div('a', 'b')), Ok(3));
    assert_eq!(two_values(2, -7, Inst::Div('a', 'b')), Ok(-3));
    assert_eq!(two_values(-2, 7, Inst::Div('a', 'b')), Ok(-3));
    assert_eq!(two_values(-2, -7, Inst::Div('a', 'b')), Ok(3));
    assert_eq!(two_values(7, 2, Inst::Div('a', 'b')), Ok(0));
}

#[test]
fn the_machine_stops_at_the_first_result() {
    let insts = vec![
        Inst::Store(1, 'a'),
        Inst::Result('a'),
        Inst::Store(2, 'a'),
        Inst::Div('z', 'z'),
        Inst::Result('a'),
    ];
    assert_eq!(interpret_insts(&insts, &Env::new()), Ok(1));
}

#[test]
fn code_without_a_result_fails() {
    assert_eq!(interpret_insts(&[], &Env::new()), runtime_failure("no result"));
    assert_eq!(
        interpret_insts(&[Inst::Store(1, 'a')], &Env::new()),
        runtime_failure("no result")
    );
}

#[test]
fn an_unset_register_fails() {
    let env = Env::new();
    assert_eq!(
        interpret_insts(&[Inst::Result('a')], &env),
        runtime_failure("unset register")
    );
    assert_eq!(
        interpret_insts(&[Inst::Store(1, 'a'), Inst::Add('a', 'b')], &env),
        runtime_failure("unset register")
    );
    assert_eq!(
        interpret_insts(&[Inst::Store(1, 'b'), Inst::Add('a', 'b')], &env),
        runtime_failure("unset register")
    );
    assert_eq!(
        interpret_insts(&[Inst::Store(1, 'A'), Inst::Result('a')], &env),
        runtime_failure("unset register")
    );
}

#[test]
fn an_unbound_variable_fails_on_the_machine() {
    let mut env = Env::new();
    env.insert("y", 1);
    assert_eq!(
        interpret_insts(
            &[Inst::Transfer("x".to_string(), 'a'), Inst::Result('a')],
            &env
        ),
        runtime_failure("unbound variable")
    );
}

#[test]
fn a_division_by_zero_fails_on_the_machine() {
    assert_eq!(
        two_values(0, 4, Inst::Div('a', 'b')),
        runtime_failure("division by zero")
    );
    assert_eq!(two_values(4, 0, Inst::Div('a', 'b')), Ok(0));
}

#[test]
fn an_overflow_fails_on_the_machine() {
    let overflow = runtime_failure("integer overflow");
    assert_eq!(two_values(1, i32::MAX, Inst::Add('a', 'b')), overflow);
    assert_eq!(two_values(1, i32::MIN, Inst::Sub('a', 'b')), overflow);
    assert_eq!(two_values(2, 1 << 30, Inst::Mul('a', 'b')), overflow);
    assert_eq!(two_values(-1, i32::MIN, Inst::Div('a', 'b')), overflow);
    assert_eq!(two_values(-1, i32::MAX, Inst::Add('a', 'b')), Ok(i32::MAX - 1));
    assert_eq!(two_values(-1, i32::MIN, Inst::Mul('a', 'b')), overflow);
    assert_eq!(two_values(-1, i32::MAX, Inst::Div('a', 'b')), Ok(-i32::MAX));
}

#[test]
fn the_first_failure_of_the_machine_is_reported() {
    let insts = vec![
        Inst::Transfer("x".to_string(), 'a'),
        Inst::Add('b', 'c'),
        Inst::Result('a'),
    ];
    assert_eq!(
        interpret_insts(&insts, &Env::new()),
        runtime_failure("unbound variable")
    );
}

#[test]
fn operators_compute_in_32_bits() {
    assert_eq!(apply_operator(Operator::Add, 2, 3), Ok(5));
    assert_eq!(apply_operator(Operator::Sub, 2, 3), Ok(-1));
    assert_eq!(apply_operator(Operator::Mul, -2, 3), Ok(-6));
    assert_eq!(apply_operator(Operator::Div, 7, -2), Ok(-3));
    assert_eq!(
        apply_operator(Operator::Div, 7, 0),
        Err("division by zero".to_string())
    );
    assert_eq!(
        apply_operator(Operator::Div, i32::MIN, -1),
        Err("integer overflow".to_string())
    );
    assert_eq!(
        apply_operator(Operator::Sub, 0, i32::MIN),
        Err("integer overflow".to_string())
    );
    assert_eq!(apply_operator(Operator::Sub, -1, i32::MIN), Ok(i32::MAX));
}

#[test]
fn the_tree_is_evaluated_from_the_leaves() {
    let mut env = Env::new();
    env.insert("x", 6);
    let e = Expr::BinaryOp(
        Box::new(Expr::BinaryOp(
            Box::new(Expr::Var("x".to_string())),
            Operator::Sub,
            Box::new(Expr::Num(10)),
        )),
        Operator::Div,
        Box::new(Expr::UnaryOp(Operator::Sub, Box::new(Expr::Num(2)))),
    );
    assert_eq!(interpret_tree(&e, &env), Ok(2));
}

#[test]
fn an_unbound_variable_fails_in_the_tree() {
    assert_eq!(
        interpret_tree(&Expr::Var("x".to_string()), &Env::new()),
        interpret_failure("unbound variable")
    );
}

#[test]
fn the_negation_of_the_least_integer_overflows() {
    let e = Expr::UnaryOp(Operator::Sub, Box::new(Expr::Num(i32::MIN)));
    assert_eq!(
        interpret_tree(&e, &Env::new()),
        interpret_failure("integer overflow")
    );
}

#[test]
fn another_unary_operator_is_not_evaluated() {
    let e = Expr::UnaryOp(Operator::Add, Box::new(Expr::Var("x".to_string())));
    assert_eq!(
        interpret_tree(&e, &Env::new()),
        interpret_failure("unsupported unary operator")
    );
}

#[test]
fn the_left_operand_fails_first() {
    let e = Expr::BinaryOp(
        Box::new(Expr::Var("x".to_string())),
        Operator::Add,
        Box::new(Expr::BinaryOp(
            Box::new(Expr::Num(1)),
            Operator::Div,
            Box::new(Expr::Num(0)),
        )),
    );
    assert_eq!(
        interpret_tree(&e, &Env::new()),
        interpret_failure("unbound variable")
    );
    let mut env = Env::new();
    env.insert("x", 1);
    assert_eq!(interpret_tree(&e, &env), interpret_failure("division by zero"));
}

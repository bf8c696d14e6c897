use lp::ast::{build_ast, operator_from};
use lp::lexer::run_lexer;
use lp::reader::run_reader;
use lp::text::parse_number;
use lp::types::{Expr, LpErr, Operator, SExpr};

fn build_text(text: &str) -> Result<Expr, LpErr> {
    let tokens = run_lexer(text).unwrap();
    build_ast(&run_reader(&tokens).unwrap())
}

fn ir_failure(message: &str) -> Result<Expr, LpErr> {
    Err(LpErr::IR(message.to_string()))
}

fn var(name: &str) -> Expr {
    Expr::Var(name.to_string())
}

#[test]
fn an_integer_is_a_number() {
    assert_eq!(build_text("42"), Ok(Expr::Num(42)));
    assert_eq!(build_text("-42"), Ok(Expr::Num(-42)));
    assert_eq!(build_text("+42"), Ok(Expr::Num(42)));
    assert_eq!(build_text("007"), Ok(Expr::Num(7)));
    assert_eq!(build_text("0"), Ok(Expr::Num(0)));
    assert_eq!(build_text("-0"), Ok(Expr::Num(0)));
}

#[test]
fn the_limits_of_32_bits_are_numbers() {
    assert_eq!(build_text("2147483647"), Ok(Expr::Num(i32::MAX)));
    assert_eq!(build_text("-2147483648"), Ok(Expr::Num(i32::MIN)));
    assert_eq!(build_text("+0000002147483647"), Ok(Expr::Num(i32::MAX)));
}

#[test]
fn what_is_no_integer_is_a_variable() {
    assert_eq!(build_text("x"), Ok(var("x")));
    assert_eq!(build_text("2147483648"), Ok(var("2147483648")));
    assert_eq!(build_text("-2147483649"), Ok(var("-2147483649")));
    assert_eq!(
        build_text("99999999999999999999999999"),
        Ok(var("99999999999999999999999999"))
    );
    assert_eq!(build_text("12a"), Ok(var("12a")));
    assert_eq!(build_text("1.5"), Ok(var("1.5")));
    assert_eq!(build_text("--1"), Ok(var("--1")));
    assert_eq!(build_text("-"), Ok(var("-")));
    assert_eq!(build_text("+"), Ok(var("+")));
    assert_eq!(build_text("١٢"), Ok(var("١٢")));
}

#[test]
fn integers_are_read_as_std_reads_them() {
    for text in [
        "0", "-0", "+0", "1", "-1", "+1", "10", "0010", "2147483647", "2147483648",
        "-2147483648", "-2147483649", "+2147483647", "21474836470", "", "+", "-", "+-1", "1+",
        "1 ", " 1", "1_000", "0x10", "a", "१",
    ] {
        assert_eq!(parse_number(text), text.parse::<i32>().ok(), "{:?}", text);
    }
}

#[test]
fn the_four_operators_are_recognised() {
    assert_eq!(operator_from("+"), Some(Operator::Add));
    assert_eq!(operator_from("-"), Some(Operator::Sub));
    assert_eq!(operator_from("*"), Some(Operator::Mul));
    assert_eq!(operator_from("/"), Some(Operator::Div));
    assert_eq!(operator_from(""), None);
    assert_eq!(operator_from("++"), None);
    assert_eq!(operator_from("%"), None);
    assert_eq!(operator_from("add"), None);
}

#[test]
fn a_list_of_two_is_a_negation() {
    assert_eq!(
        build_text("(- 7)"),
        Ok(Expr::UnaryOp(Operator::Sub, Box::new(Expr::Num(7))))
    );
}

#[test]
fn a_list_of_three_is_a_binary_operation() {
    for (text, op) in [
        ("(+ a 1)", Operator::Add),
        ("(- a 1)", Operator::Sub),
        ("(* a 1)", Operator::Mul),
        ("(/ a 1)", Operator::Div),
    ] {
        assert_eq!(
            build_text(text),
            Ok(Expr::BinaryOp(Box::new(var("a")), op, Box::new(Expr::Num(1))))
        );
    }
}

#[test]
fn operations_nest() {
    assert_eq!(
        build_text("(* (- x) (+ 1 (/ y 2)))"),
        Ok(Expr::BinaryOp(
            Box::new(Expr::UnaryOp(Operator::Sub, Box::new(var("x")))),
            Operator::Mul,
            Box::new(Expr::BinaryOp(
                Box::new(Expr::Num(1)),
                Operator::Add,
                Box::new(Expr::BinaryOp(
                    Box::new(var("y")),
                    Operator::Div,
                    Box::new(Expr::Num(2)),
                )),
            )),
        ))
    );
}

#[test]
fn an_empty_list_is_a_failure() {
    assert_eq!(build_text("()"), ir_failure("empty list"));
}

#[test]
fn other_unary_operators_are_a_failure() {
    for text in ["(+ 1)", "(* 1)", "(/ 1)", "(foo 1)", "((-) 1)", "(1 2)"] {
        assert_eq!(build_text(text), ir_failure("unsupported unary operator"));
    }
}

#[test]
fn other_binary_operators_are_a_failure() {
    for text in ["(foo 1 2)", "(% 1 2)", "(1 2 3)", "((+) 1 2)", "(++ 1 2)"] {
        assert_eq!(build_text(text), ir_failure("unsupported operator"));
    }
}

#[test]
fn other_lengths_are_a_failure() {
    for text in ["(+)", "(-)", "(x)", "(+ 1 2 3)", "(- 1 2 3 4)"] {
        assert_eq!(build_text(text), ir_failure("wrong number of operands"));
    }
}

#[test]
fn a_failure_inside_is_a_failure_of_the_whole() {
    assert_eq!(build_text("(+ 1 (foo 2 3))"), ir_failure("unsupported operator"));
    assert_eq!(build_text("(- (+ 1 ()))"), ir_failure("empty list"));
}

#[test]
fn the_shape_is_judged_before_the_operands() {
    assert_eq!(build_text("(foo () 1)"), ir_failure("unsupported operator"));
    assert_eq!(
        build_text("(+ (* 1) ())"),
        ir_failure("unsupported unary operator")
    );
    assert_eq!(build_text("(+ () (* 1))"), ir_failure("empty list"));
}

#[test]
fn the_builder_takes_any_s_expression() {
    let odd = SExpr::List(vec![
        SExpr::Sym("-".to_string()),
        SExpr::Sym("a b".to_string()),
    ]);
    assert_eq!(
        build_ast(&odd),
        Ok(Expr::UnaryOp(Operator::Sub, Box::new(var("a b"))))
    );
}

#[test]
fn a_number_in_base_ten_is_read_back() {
    for n in [0, 1, -1, 9, 10, -10, 99, 100, 12345, -67890, i32::MAX, i32::MIN] {
        let mut text = String::new();
        lp::text::append_decimal(&mut text, n);
        assert_eq!(parse_number(&text), Some(n));
        assert_eq!(build_ast(&SExpr::Sym(text)), Ok(Expr::Num(n)));
    }
}

#[test]
fn the_text_of_an_operator_names_it() {
    for op in [Operator::Add, Operator::Sub, Operator::Mul, Operator::Div] {
        assert_eq!(operator_from(&op.to_string()), Some(op));
    }
}

#[test]
fn what_is_built_can_be_compiled() {
    for text in ["1", "x", "(- 1)", "(- (- x))", "(/ (- a) (* b (- c)))"] {
        let expr = build_text(text).unwrap();
        assert!(lp::compiler::compile(&expr).is_ok());
    }
}

use lp::lexer::run_lexer;
use lp::reader::run_reader;
use lp::text::append_decimal;
use lp::types::{Expr, Inst, LpErr, Operator, SExpr, Token};

fn leaf(text: &str) -> SExpr {
    SExpr::Sym(text.to_string())
}

#[test]
fn operators_print_as_one_character() {
    assert_eq!(Operator::Add.to_string(), "+");
    assert_eq!(Operator::Sub.to_string(), "-");
    assert_eq!(Operator::Mul.to_string(), "*");
    assert_eq!(Operator::Div.to_string(), "/");
}

#[test]
fn instructions_print_as_sentences() {
    assert_eq!(Inst::Add('a', 'b').to_string(), "add register a to register b");
    assert_eq!(
        Inst::Sub('a', 'b').to_string(),
        "subtract register a from register b"
    );
    assert_eq!(
        Inst::Mul('c', 'd').to_string(),
        "multiply register c by register d"
    );
    assert_eq!(
        Inst::Div('y', 'z').to_string(),
        "divide register y by register z"
    );
    assert_eq!(
        Inst::Store(5, 'a').to_string(),
        "store the number 5 in register a"
    );
    assert_eq!(
        Inst::Transfer("speed".to_string(), 'q').to_string(),
        "transfer variable speed to register q"
    );
    assert_eq!(Inst::Result('c').to_string(), "the result is in register c");
}

#[test]
fn stored_numbers_print_in_base_ten() {
    for n in [0, 1, -1, 9, 10, 11, 99, 100, -100, 12345, i32::MAX, i32::MIN] {
        assert_eq!(
            Inst::Store(n, 'r').to_string(),
            format!("store the number {} in register r", n)
        );
    }
}

#[test]
fn a_number_is_appended_to_what_is_there() {
    let mut out = "n = ".to_string();
    append_decimal(&mut out, -2040);
    assert_eq!(out, "n = -2040");
    append_decimal(&mut out, 7);
    assert_eq!(out, "n = -20407");
}

#[test]
fn failures_print_with_their_stage() {
    let m = || "it broke".to_string();
    assert_eq!(LpErr::SExpr(m()).to_string(), "it broke (s-expr)");
    assert_eq!(LpErr::Parse(m()).to_string(), "it broke (parse)");
    assert_eq!(LpErr::IR(m()).to_string(), "it broke (ir gen)");
    assert_eq!(LpErr::Interpret(m()).to_string(), "it broke (interpreter)");
    assert_eq!(LpErr::Compile(m()).to_string(), "it broke (compile)");
    assert_eq!(LpErr::Runtime(m()).to_string(), "it broke (runtime)");
    assert_eq!(LpErr::Parse(String::new()).to_string(), " (parse)");
}

#[test]
fn an_atom_prints_as_its_text() {
    assert_eq!(leaf("x").to_string(), "x");
    assert_eq!(leaf("").to_string(), "");
}

#[test]
fn a_list_prints_between_parentheses() {
    assert_eq!(SExpr::List(vec![]).to_string(), "()");
    assert_eq!(SExpr::List(vec![leaf("a")]).to_string(), "(a)");
    assert_eq!(
        SExpr::List(vec![leaf("+"), leaf("1"), leaf("2")]).to_string(),
        "(+ 1 2)"
    );
    assert_eq!(
        SExpr::List(vec![
            SExpr::List(vec![]),
            SExpr::List(vec![leaf("a"), SExpr::List(vec![leaf("b")])]),
            leaf("c"),
        ])
        .to_string(),
        "(() (a (b)) c)"
    );
}

#[test]
fn printing_then_reading_gives_the_expression_back() {
    let samples = vec![
        leaf("x"),
        leaf("-12"),
        SExpr::List(vec![]),
        SExpr::List(vec![SExpr::List(vec![]), SExpr::List(vec![])]),
        SExpr::List(vec![
            leaf("*"),
            SExpr::List(vec![leaf("+"), leaf("1"), leaf("é")]),
            SExpr::List(vec![leaf("-"), SExpr::List(vec![leaf("f"), leaf("[x]")])]),
        ]),
    ];
    for sample in samples {
        let text = sample.to_string();
        let tokens = run_lexer(&text).unwrap();
        assert_eq!(run_reader(&tokens), Ok(sample));
    }
}

#[test]
fn a_symbol_with_a_space_does_not_come_back() {
    let odd = SExpr::List(vec![leaf("a b")]);
    let tokens = run_lexer(&odd.to_string()).unwrap();
    assert_eq!(
        run_reader(&tokens),
        Ok(SExpr::List(vec![leaf("a"), leaf("b")]))
    );
}

#[test]
fn reading_then_printing_normalises_the_spaces() {
    let tokens = run_lexer("  ( +\t1\n(  - x ) )  ").unwrap();
    assert_eq!(run_reader(&tokens).unwrap().to_string(), "(+ 1 (- x))");
}

#[test]
fn clones_are_equal() {
    let s = SExpr::List(vec![leaf("a"), SExpr::List(vec![leaf("b"), leaf("c")])]);
    assert_eq!(s.clone(), s);
    let e = Expr::BinaryOp(
        Box::new(Expr::UnaryOp(Operator::Sub, Box::new(Expr::Var("x".to_string())))),
        Operator::Mul,
        Box::new(Expr::Num(3)),
    );
    assert_eq!(e.clone(), e);
    let t = Token::Sym("t".to_string());
    assert_eq!(t.clone(), t);
    let i = Inst::Transfer("v".to_string(), 'a');
    assert_eq!(i.clone(), i);
    let f = LpErr::Runtime("no result".to_string());
    assert_eq!(f.clone(), f);
}

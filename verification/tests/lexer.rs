use lp::lexer::run_lexer;
use lp::types::Token;

fn sym(text: &str) -> Token {
    Token::Sym(text.to_string())
}

#[test]
fn empty_text_has_no_tokens() {
    assert_eq!(run_lexer(""), Ok(vec![]));
}

#[test]
fn whitespace_alone_has_no_tokens() {
    assert_eq!(run_lexer(" \t\r\n\x0B\x0C "), Ok(vec![]));
}

#[test]
fn parentheses_are_tokens_of_their_own() {
    assert_eq!(
        run_lexer("(()"),
        Ok(vec![Token::Open, Token::Open, Token::Close])
    );
}

#[test]
fn a_symbol_is_a_maximal_run() {
    assert_eq!(run_lexer("hello"), Ok(vec![sym("hello")]));
    assert_eq!(run_lexer("  foo-bar_1  "), Ok(vec![sym("foo-bar_1")]));
}

#[test]
fn a_parenthesis_ends_a_symbol() {
    assert_eq!(
        run_lexer("ab(cd)ef"),
        Ok(vec![
            sym("ab"),
            Token::Open,
            sym("cd"),
            Token::Close,
            sym("ef"),
        ])
    );
}

#[test]
fn every_kind_of_whitespace_separates() {
    assert_eq!(
        run_lexer("a b\tc\nd\re\x0Bf\x0Cg"),
        Ok(vec![
            sym("a"),
            sym("b"),
            sym("c"),
            sym("d"),
            sym("e"),
            sym("f"),
            sym("g"),
        ])
    );
}

#[test]
fn numbers_are_symbols_to_the_lexer() {
    assert_eq!(
        run_lexer("(+ 12 -3)"),
        Ok(vec![
            Token::Open,
            sym("+"),
            sym("12"),
            sym("-3"),
            Token::Close,
        ])
    );
}

#[test]
fn any_other_character_belongs_to_a_symbol() {
    assert_eq!(
        run_lexer("a\"b' [x] é;"),
        Ok(vec![sym("a\"b'"), sym("[x]"), sym("é;")])
    );
}

#[test]
fn the_lexer_never_fails() {
    for text in [")", "((((", "a)b(c", ") ) (", "\u{0}"] {
        assert!(run_lexer(text).is_ok());
    }
}

fn spelled(tokens: &[Token]) -> String {
    let mut out = String::new();
    for token in tokens {
        match token {
            Token::Open => out.push('('),
            Token::Close => out.push(')'),
            Token::Sym(s) => out.push_str(s),
        }
    }
    out
}

fn is_blank(c: char) -> bool {
    matches!(c, ' ' | '\t' | '\n' | '\r' | '\x0B' | '\x0C')
}

#[test]
fn the_lexer_loses_nothing_but_whitespace() {
    for text in [
        "",
        "   ",
        "(+ 1 2)",
        " ( * (+ 1\t2)\n3 ) ",
        "a)b(c d",
        "((()))",
        "x\x0By\x0Cz",
        "é (ü) ß",
    ] {
        let tokens = run_lexer(text).unwrap();
        let kept: String = text.chars().filter(|c| !is_blank(*c)).collect();
        assert_eq!(spelled(&tokens), kept);
    }
}

#[test]
fn every_symbol_token_is_a_symbol() {
    for text in ["", " a  bc (d)e) ((f ", "()()", "\t\tlong-symbol_1!\n"] {
        for token in run_lexer(text).unwrap() {
            if let Token::Sym(s) = token {
                assert!(!s.is_empty());
                assert!(s.chars().all(|c| !is_blank(c) && c != '(' && c != ')'));
            }
        }
    }
}

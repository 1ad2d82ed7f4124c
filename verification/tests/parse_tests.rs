use std::collections::VecDeque;

use lambda::error::Error;
use lambda::lex::Token;
use lambda::lex::TokenStream;
use lambda::parse::parse;
use lambda::parse::Expr;

#[test]
fn parse_identity() -> () {
    let f = Box::new(Expr::Fun(
        "x".to_owned(),
        Box::new(Expr::Var("x".to_owned())),
    ));
    let tokens = VecDeque::from(vec![
        Token::Lambda,
        Token::Ident("x".to_owned()),
        Token::Dot,
        Token::Ident("x".to_owned()),
    ]);
    let mut stm = TokenStream { tokens };
    assert_eq!(Ok(f), parse(&mut stm));
}

#[test]
fn parse_0() -> () {
    // \s.\z.z
    let f = Box::new(Expr::Fun(
        "s".to_owned(),
        Box::new(Expr::Fun(
            "z".to_owned(),
            Box::new(Expr::Var("z".to_owned())),
        )),
    ));
    let tokens = VecDeque::from(vec![
        Token::Lambda,
        Token::Ident("s".to_owned()),
        Token::Dot,
        Token::Lambda,
        Token::Ident("z".to_owned()),
        Token::Dot,
        Token::Ident("z".to_owned()),
    ]);
    let mut stm = TokenStream { tokens };
    assert_eq!(Ok(f), parse(&mut stm));
}

#[test]
fn parse_1() -> () {
    // \s.\z.s(z)
    let f = Box::new(Expr::Fun(
        "s".to_owned(),
        Box::new(Expr::Fun(
            "z".to_owned(),
            Box::new(Expr::App(
                Box::new(Expr::Var("s".to_owned())),
                Box::new(Expr::Var("z".to_owned())),
            )),
        )),
    ));
    let tokens = VecDeque::from(vec![
        Token::Lambda,
        Token::Ident("s".to_owned()),
        Token::Dot,
        Token::Lambda,
        Token::Ident("z".to_owned()),
        Token::Dot,
        Token::Ident("s".to_owned()),
        Token::Lpar,
        Token::Ident("z".to_owned()),
        Token::Rpar,
    ]);
    let mut stm = TokenStream { tokens };
    assert_eq!(Ok(f), parse(&mut stm));
}

#[test]
fn parse_2() -> () {
    // \s.\z.s(s(z))
    let f = Box::new(Expr::Fun(
        "s".to_owned(),
        Box::new(Expr::Fun(
            "z".to_owned(),
            Box::new(Expr::App(
                Box::new(Expr::Var("s".to_owned())),
                Box::new(Expr::App(
                    Box::new(Expr::Var("s".to_owned())),
                    Box::new(Expr::Var("z".to_owned())),
                )),
            )),
        )),
    ));
    let tokens = VecDeque::from(vec![
        Token::Lambda,
        Token::Ident("s".to_owned()),
        Token::Dot,
        Token::Lambda,
        Token::Ident("z".to_owned()),
        Token::Dot,
        Token::Ident("s".to_owned()),
        Token::Lpar,
        Token::Ident("s".to_owned()),
        Token::Lpar,
        Token::Ident("z".to_owned()),
        Token::Rpar,
        Token::Rpar,
    ]);
    let mut stm = TokenStream { tokens };
    assert_eq!(Ok(f), parse(&mut stm));
}

#[test]
fn parse_abc() -> () {
    // \a.\b.\c.a b c
    // (To make sure associativity is working properly)
    let f = Box::new(Expr::Fun(
        "a".to_owned(),
        Box::new(Expr::Fun(
            "b".to_owned(),
            Box::new(Expr::Fun(
                "c".to_owned(),
                Box::new(Expr::App(
                    Box::new(Expr::App(
                        Box::new(Expr::Var("a".to_owned())),
                        Box::new(Expr::Var("b".to_owned())),
                    )),
                    Box::new(Expr::Var("c".to_owned())),
                )),
            )),
        )),
    ));
    let tokens = VecDeque::from(vec![
        Token::Lambda,
        Token::Ident("a".to_owned()),
        Token::Dot,
        Token::Lambda,
        Token::Ident("b".to_owned()),
        Token::Dot,
        Token::Lambda,
        Token::Ident("c".to_owned()),
        Token::Dot,
        Token::Ident("a".to_owned()),
        Token::Ident("b".to_owned()),
        Token::Ident("c".to_owned()),
    ]);
    let mut stm = TokenStream { tokens };
    assert_eq!(Ok(f), parse(&mut stm));
}

#[test]
fn parse_too_many_rparens() -> () {
    // (x))
    let tokens = VecDeque::from(vec![
        Token::Lpar,
        Token::Ident("x".to_owned()),
        Token::Rpar,
        Token::Rpar,
    ]);
    let mut stm = TokenStream { tokens };
    assert_eq!(
        Err(Error::SyntaxError(
            "unexpected trailing token \")\"".to_owned()
        )),
        parse(&mut stm)
    );
}

#[test]
fn parse_unclosed_lparen() -> () {
    // ((x)
    let tokens = VecDeque::from(vec![
        Token::Lpar,
        Token::Lpar,
        Token::Ident("x".to_owned()),
        Token::Rpar,
    ]);
    let mut stm = TokenStream { tokens };
    assert_eq!(
        Err(Error::SyntaxError("unclosed parenthesis".to_owned())),
        parse(&mut stm)
    );
}

#[test]
fn parse_with_decls() -> () {
    // x y where x = y y (\y.y) where y = \z.z z
    let e = Box::new(Expr::App(
        Box::new(Expr::App(
            Box::new(Expr::App(
                Box::new(Expr::Fun(
                    "z".to_owned(),
                    Box::new(Expr::App(
                        Box::new(Expr::Var("z".to_owned())),
                        Box::new(Expr::Var("z".to_owned())),
                    )),
                )),
                Box::new(Expr::Fun(
                    "z".to_owned(),
                    Box::new(Expr::App(
                        Box::new(Expr::Var("z".to_owned())),
                        Box::new(Expr::Var("z".to_owned())),
                    )),
                )),
            )),
            Box::new(Expr::Fun(
                "y".to_owned(),
                Box::new(Expr::Var("y".to_owned())),
            )),
        )),
        Box::new(Expr::Fun(
            "z".to_owned(),
            Box::new(Expr::App(
                Box::new(Expr::Var("z".to_owned())),
                Box::new(Expr::Var("z".to_owned())),
            )),
        )),
    ));
    let tokens = VecDeque::from(vec![
        Token::Ident("x".to_owned()),
        Token::Ident("y".to_owned()),
        Token::Where,
        Token::Ident("x".to_owned()),
        Token::Def,
        Token::Ident("y".to_owned()),
        Token::Ident("y".to_owned()),
        Token::Lpar,
        Token::Lambda,
        Token::Ident("y".to_owned()),
        Token::Dot,
        Token::Ident("y".to_owned()),
        Token::Rpar,
        Token::Where,
        Token::Ident("y".to_owned()),
        Token::Def,
        Token::Lambda,
        Token::Ident("z".to_owned()),
        Token::Dot,
        Token::Ident("z".to_owned()),
        Token::Ident("z".to_owned()),
    ]);
    let mut stm = TokenStream { tokens };
    assert_eq!(Ok(e), parse(&mut stm));
}

use lambda::debruijn::choose_ident;
use lambda::debruijn::to_debruijn;
use lambda::debruijn::to_named;
use lambda::debruijn::DBExpr;
use lambda::parse::Expr;

#[test]
fn test_choose_ident() -> () {
    assert_eq!("a".to_owned(), choose_ident(0));
    assert_eq!("b".to_owned(), choose_ident(1));
    assert_eq!("c".to_owned(), choose_ident(2));
    assert_eq!("aa".to_owned(), choose_ident(26));
    assert_eq!("bb".to_owned(), choose_ident(27));
    assert_eq!("cc".to_owned(), choose_ident(28));
}

#[test]
fn identity_to_debruijn() -> () {
    let e = Box::new(Expr::Fun(
        "x".to_owned(),
        Box::new(Expr::Var("x".to_owned())),
    ));
    let expected = Box::new(DBExpr::Fun(Box::new(DBExpr::Var(0))));
    assert_eq!(expected, to_debruijn(&e));
}

#[test]
fn identity_to_named() -> () {
    let e = Box::new(DBExpr::Fun(Box::new(DBExpr::Var(0))));
    let expected = Box::new(Expr::Fun(
        "a".to_owned(),
        Box::new(Expr::Var("a".to_owned())),
    ));
    assert_eq!(expected, to_named(&e));
}

#[test]
fn one_to_debruijn() -> () {
    // \s.\z.s(z)
    let e = Box::new(Expr::Fun(
        "s".to_owned(),
        Box::new(Expr::Fun(
            "z".to_owned(),
            Box::new(Expr::App(
                Box::new(Expr::Var("s".to_owned())),
                Box::new(Expr::Var("z".to_owned())),
            )),
        )),
    ));
    // \.\.1(0)
    let expected = Box::new(DBExpr::Fun(Box::new(DBExpr::Fun(Box::new(DBExpr::App(
        Box::new(DBExpr::Var(1)),
        Box::new(DBExpr::Var(0)),
    ))))));
    assert_eq!(expected, to_debruijn(&e));
}

#[test]
fn one_to_named() -> () {
    // \.\.1(0)
    let e = Box::new(DBExpr::Fun(Box::new(DBExpr::Fun(Box::new(DBExpr::App(
        Box::new(DBExpr::Var(1)),
        Box::new(DBExpr::Var(0)),
    ))))));
    // \a.\b.a(b)
    let expected = Box::new(Expr::Fun(
        "a".to_owned(),
        Box::new(Expr::Fun(
            "b".to_owned(),
            Box::new(Expr::App(
                Box::new(Expr::Var("a".to_owned())),
                Box::new(Expr::Var("b".to_owned())),
            )),
        )),
    ));
    assert_eq!(expected, to_named(&e));
}

#[test]
fn deeply_nested_to_debruijn() -> () {
    // \x.\y.y (\x.x) (y x)
    let e = Box::new(Expr::Fun(
        "x".to_owned(),
        Box::new(Expr::Fun(
            "y".to_owned(),
            Box::new(Expr::App(
                Box::new(Expr::App(
                    Box::new(Expr::Var("y".to_owned())),
                    Box::new(Expr::Fun(
                        "x".to_owned(),
                        Box::new(Expr::Var("x".to_owned())),
                    )),
                )),
                Box::new(Expr::App(
                    Box::new(Expr::Var("y".to_owned())),
                    Box::new(Expr::Var("x".to_owned())),
                )),
            )),
        )),
    ));
    // \.\.0 (\.0) (0 1)
    let expected = Box::new(DBExpr::Fun(Box::new(DBExpr::Fun(Box::new(DBExpr::App(
        Box::new(DBExpr::App(
            Box::new(DBExpr::Var(0)),
            Box::new(DBExpr::Fun(Box::new(DBExpr::Var(0)))),
        )),
        Box::new(DBExpr::App(
            Box::new(DBExpr::Var(0)),
            Box::new(DBExpr::Var(1)),
        )),
    ))))));
    assert_eq!(expected, to_debruijn(&e));
}

#[test]
fn deeply_nested_to_named() -> () {
    // \.\.0 (\.0) (0 1)
    let e = Box::new(DBExpr::Fun(Box::new(DBExpr::Fun(Box::new(DBExpr::App(
        Box::new(DBExpr::App(
            Box::new(DBExpr::Var(0)),
            Box::new(DBExpr::Fun(Box::new(DBExpr::Var(0)))),
        )),
        Box::new(DBExpr::App(
            Box::new(DBExpr::Var(0)),
            Box::new(DBExpr::Var(1)),
        )),
    ))))));
    // \a.\b.b (\c.c) (b a)
    let expected = Box::new(Expr::Fun(
        "a".to_owned(),
        Box::new(Expr::Fun(
            "b".to_owned(),
            Box::new(Expr::App(
                Box::new(Expr::App(
                    Box::new(Expr::Var("b".to_owned())),
                    Box::new(Expr::Fun(
                        "c".to_owned(),
                        Box::new(Expr::Var("c".to_owned())),
                    )),
                )),
                Box::new(Expr::App(
                    Box::new(Expr::Var("b".to_owned())),
                    Box::new(Expr::Var("a".to_owned())),
                )),
            )),
        )),
    ));
    assert_eq!(expected, to_named(&e));
}

#[test]
fn flat_to_debruijn() -> () {
    // \a.(\b.b) (\b.b) a
    let e = Box::new(Expr::Fun(
        "a".to_owned(),
        Box::new(Expr::App(
            Box::new(Expr::App(
                Box::new(Expr::Fun(
                    "b".to_owned(),
                    Box::new(Expr::Var("b".to_owned())),
                )),
                Box::new(Expr::Fun(
                    "b".to_owned(),
                    Box::new(Expr::Var("b".to_owned())),
                )),
            )),
            Box::new(Expr::Var("a".to_owned())),
        )),
    ));
    // \.(\.0) (\.0) 0
    let expected = Box::new(DBExpr::Fun(Box::new(DBExpr::App(
        Box::new(DBExpr::App(
            Box::new(DBExpr::Fun(Box::new(DBExpr::Var(0)))),
            Box::new(DBExpr::Fun(Box::new(DBExpr::Var(0)))),
        )),
        Box::new(DBExpr::Var(0)),
    ))));
    assert_eq!(expected, to_debruijn(&e));
}

#[test]
fn flat_to_named() -> () {
    // \.(\.0) (\.0) 0
    let e = Box::new(DBExpr::Fun(Box::new(DBExpr::App(
        Box::new(DBExpr::App(
            Box::new(DBExpr::Fun(Box::new(DBExpr::Var(0)))),
            Box::new(DBExpr::Fun(Box::new(DBExpr::Var(0)))),
        )),
        Box::new(DBExpr::Var(0)),
    ))));
    // \a.(\b.b) (\b.b) a
    // (Can reuse b here!)
    let expected = Box::new(Expr::Fun(
        "a".to_owned(),
        Box::new(Expr::App(
            Box::new(Expr::App(
                Box::new(Expr::Fun(
                    "b".to_owned(),
                    Box::new(Expr::Var("b".to_owned())),
                )),
                Box::new(Expr::Fun(
                    "b".to_owned(),
                    Box::new(Expr::Var("b".to_owned())),
                )),
            )),
            Box::new(Expr::Var("a".to_owned())),
        )),
    ));
    assert_eq!(expected, to_named(&e));
}

use lambda::parse::Expr;

#[test]
fn emit_var() -> () {
    let e = Expr::Var("x".to_owned());
    assert_eq!("x", e.to_string());
}

#[test]
fn emit_identity() -> () {
    let e = Expr::Fun("z".to_owned(), Box::new(Expr::Var("z".to_owned())));
    assert_eq!("\\z.z", e.to_string());
}

#[test]
fn emit_app_var_var() -> () {
    let e = Expr::App(
        Box::new(Expr::Var("s".to_owned())),
        Box::new(Expr::Var("z".to_owned())),
    );
    assert_eq!("s z", e.to_string());
}

#[test]
fn emit_app_var_fun() -> () {
    let e = Expr::App(
        Box::new(Expr::Var("f".to_owned())),
        Box::new(Expr::Fun(
            "x".to_owned(),
            Box::new(Expr::Var("x".to_owned())),
        )),
    );
    assert_eq!("f (\\x.x)", e.to_string());
}

#[test]
fn emit_app_var_app() -> () {
    let e = Expr::App(
        Box::new(Expr::Var("s".to_owned())),
        Box::new(Expr::App(
            Box::new(Expr::Var("s".to_owned())),
            Box::new(Expr::Var("z".to_owned())),
        )),
    );
    assert_eq!("s (s z)", e.to_string());
}

#[test]
fn emit_app_fun_var() -> () {
    let e = Expr::App(
        Box::new(Expr::Fun(
            "x".to_owned(),
            Box::new(Expr::Var("x".to_owned())),
        )),
        Box::new(Expr::Var("y".to_owned())),
    );
    assert_eq!("(\\x.x) y", e.to_string());
}

#[test]
fn emit_app_fun_fun() -> () {
    let e = Expr::App(
        Box::new(Expr::Fun(
            "x".to_owned(),
            Box::new(Expr::Var("x".to_owned())),
        )),
        Box::new(Expr::Fun(
            "y".to_owned(),
            Box::new(Expr::Var("y".to_owned())),
        )),
    );
    assert_eq!("(\\x.x) (\\y.y)", e.to_string());
}

#[test]
fn emit_app_fun_app() -> () {
    let e = Expr::App(
        Box::new(Expr::Fun(
            "x".to_owned(),
            Box::new(Expr::Var("x".to_owned())),
        )),
        Box::new(Expr::App(
            Box::new(Expr::Var("a".to_owned())),
            Box::new(Expr::Var("b".to_owned())),
        )),
    );
    assert_eq!("(\\x.x) (a b)", e.to_string());
}

#[test]
fn emit_app_app_var() -> () {
    let e = Expr::App(
        Box::new(Expr::App(
            Box::new(Expr::Var("x".to_owned())),
            Box::new(Expr::Var("y".to_owned())),
        )),
        Box::new(Expr::Var("z".to_owned())),
    );
    assert_eq!("x y z", e.to_string());
}

#[test]
fn emit_app_app_fun() -> () {
    let e = Expr::App(
        Box::new(Expr::App(
            Box::new(Expr::Var("x".to_owned())),
            Box::new(Expr::Var("y".to_owned())),
        )),
        Box::new(Expr::Fun(
            "z".to_owned(),
            Box::new(Expr::Var("z".to_owned())),
        )),
    );
    assert_eq!("x y (\\z.z)", e.to_string());
}

#[test]
fn emit_app_app_app() -> () {
    let e = Expr::App(
        Box::new(Expr::App(
            Box::new(Expr::Var("x".to_owned())),
            Box::new(Expr::Var("y".to_owned())),
        )),
        Box::new(Expr::App(
            Box::new(Expr::Var("z".to_owned())),
            Box::new(Expr::Var("w".to_owned())),
        )),
    );
    assert_eq!("x y (z w)", e.to_string());
}

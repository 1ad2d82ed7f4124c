use lambda::debruijn::find_free_variable;
use lambda::debruijn::is_closed;
use lambda::debruijn::to_debruijn;
use lambda::debruijn::DBExpr;
use lambda::error::Error;
use lambda::eval_lambda;
use lambda::lex::lex;
use lambda::lex::Token;
use lambda::parse::find_type_annotation;
use lambda::parse::is_valid;
use lambda::parse::is_valid_identifier;
use lambda::parse::parse;
use lambda::parse::Expr;

// Scenario: identity at type `expr`.  The pipeline passes through the
// nameless form, so binders come back with canonical names in entry order:
// the output is the identity with its binder renamed to `a`.
#[test]
fn pipeline_identity_expr() {
    assert_eq!(eval_lambda("\\x.x {:: expr}"), Ok("\\a.a".to_owned()));
}

// The annotation defaults to `expr` when no comment designates one.
#[test]
fn pipeline_identity_default_annotation() {
    assert_eq!(eval_lambda("\\x.x"), Ok("\\a.a".to_owned()));
}

// Scenario: Church true at type `bool`.
#[test]
fn pipeline_true_bool() {
    assert_eq!(eval_lambda("\\t.\\f.t {:: bool}"), Ok("true".to_owned()));
}

// Scenario: the Church numeral two at type `church`.
#[test]
fn pipeline_two_church() {
    assert_eq!(
        eval_lambda("\\s.\\z.s(s(z)) {:: church}"),
        Ok("2".to_owned())
    );
}

// Scenario: a pair of a boolean and a numeral at a tuple type.
#[test]
fn pipeline_pair_bool_church() {
    assert_eq!(
        eval_lambda("\\t.t (\\t.\\f.t) (\\s.\\z.s(s(z))) {:: tuple[bool, church]}"),
        Ok("(true, 2)".to_owned())
    );
}

// Scenario: a `where` chain applying successor twice to zero.
#[test]
fn pipeline_where_chain_church() {
    assert_eq!(
        eval_lambda("{:: church} succ (succ (\\s.\\z.z)) where succ = \\n.\\s.\\z.s(n s z)"),
        Ok("2".to_owned())
    );
}

// Scenario: a trailing right parenthesis is a syntax error.
#[test]
fn pipeline_trailing_rparen() {
    assert_eq!(
        eval_lambda("(x))"),
        Err(Error::SyntaxError(
            "unexpected trailing token \")\"".to_owned()
        ))
    );
}

// The annotation comment is recognized after trimming its content.
#[test]
fn pipeline_annotation_trimmed() {
    assert_eq!(
        eval_lambda("\\t.\\f.t {  :: bool  }"),
        Ok("true".to_owned())
    );
}

// A normal form that does not have the requested shape is a type error
// naming the annotation.
#[test]
fn pipeline_type_error() {
    assert_eq!(
        eval_lambda("\\x.x {:: bool}"),
        Err(Error::TypeError("bool".to_owned()))
    );
}

// A bad annotation is a malformed-type error.
#[test]
fn pipeline_malformed_annotation() {
    assert_eq!(
        eval_lambda("\\x.x {:: boo}"),
        Err(Error::MalformedType(
            "invalid type identifier: \"boo\"".to_owned()
        ))
    );
}

// An unclosed comment is a syntax error.
#[test]
fn pipeline_unclosed_comment() {
    assert_eq!(
        eval_lambda("\\x.x { oops"),
        Err(Error::SyntaxError("unclosed comment".to_owned()))
    );
}

// Substitution is capture-avoiding: reducing `(\x.\y.x) y` under a binder for
// `y` must keep the argument pointing at that outer binder, never at the
// inner abstraction, so the result prints with two distinct names.
#[test]
fn capture_avoidance_pipeline() {
    assert_eq!(
        eval_lambda("\\y.(\\x.\\y.x) y {:: expr}"),
        Ok("\\a.\\b.a".to_owned())
    );
}

// The same reduction on the nameless form: the free variable is re-indexed
// past the surviving binder rather than captured by it.
#[test]
fn capture_avoidance_nameless() {
    // (\.\.1) 0  ->  \.1   (never \.0, which would capture)
    let e = Box::new(DBExpr::App(
        Box::new(DBExpr::Fun(Box::new(DBExpr::Fun(Box::new(DBExpr::Var(1)))))),
        Box::new(DBExpr::Var(0)),
    ));
    let expected = Box::new(DBExpr::Fun(Box::new(DBExpr::Var(1))));
    assert_eq!(expected, e.eval());
}

// Evaluation is idempotent on concrete terms: a second evaluation returns the
// first result unchanged.
#[test]
fn evaluate_idempotent_concrete() {
    let mut stream = lex("(\\x.x x) (\\y.y)").unwrap();
    let e = parse(&mut stream).unwrap();
    let first = to_debruijn(&e).eval();
    let second = first.eval();
    assert_eq!(first, second);
}

// Index conversion is its own inverse on concrete closed terms: converting a
// term to nameless form, back, and to nameless form again gives the same
// nameless term.
#[test]
fn index_conversion_inverse_concrete() {
    let mut stream = lex("\\first.\\second.second (\\first.first) (second first)").unwrap();
    let e = parse(&mut stream).unwrap();
    let db = to_debruijn(&e);
    let named = lambda::debruijn::to_named(&db);
    assert_eq!(db, to_debruijn(&named));
    // The canonical names are assigned in abstraction-entry order.
    assert_eq!("\\a.\\b.b (\\c.c) (b a)", named.to_string());
}

// Round trip on concrete valid terms: printing and re-parsing gives the term
// back.
#[test]
fn round_trip_concrete() {
    let t = Box::new(Expr::Fun(
        "x".to_owned(),
        Box::new(Expr::Fun(
            "y1".to_owned(),
            Box::new(Expr::App(
                Box::new(Expr::App(
                    Box::new(Expr::Var("y1".to_owned())),
                    Box::new(Expr::Fun(
                        "z".to_owned(),
                        Box::new(Expr::Var("z".to_owned())),
                    )),
                )),
                Box::new(Expr::App(
                    Box::new(Expr::Var("y1".to_owned())),
                    Box::new(Expr::Var("x".to_owned())),
                )),
            )),
        )),
    ));
    assert!(is_valid(&t));
    let printed = t.to_string();
    let mut stream = lex(&printed).unwrap();
    assert_eq!(Ok(t), parse(&mut stream));
}

// Round trip of an application whose function side is itself an application.
#[test]
fn round_trip_left_nested() {
    let t = Box::new(Expr::App(
        Box::new(Expr::App(
            Box::new(Expr::Var("a".to_owned())),
            Box::new(Expr::Var("b".to_owned())),
        )),
        Box::new(Expr::Var("c".to_owned())),
    ));
    assert!(is_valid(&t));
    let printed = t.to_string();
    assert_eq!("a b c", printed);
    let mut stream = lex(&printed).unwrap();
    assert_eq!(Ok(t), parse(&mut stream));
}

#[test]
fn valid_identifiers() {
    assert!(is_valid_identifier("abc123"));
    assert!(is_valid_identifier("X"));
    assert!(is_valid_identifier("++"));
    assert!(is_valid_identifier("<$>"));
    assert!(!is_valid_identifier("where"));
    assert!(!is_valid_identifier(""));
    assert!(!is_valid_identifier("a b"));
    assert!(!is_valid_identifier("(x)"));
}

// Round trip of a term whose identifiers are symbol characters.
#[test]
fn round_trip_symbol_identifiers() {
    let t = Box::new(Expr::Fun(
        "++".to_owned(),
        Box::new(Expr::App(
            Box::new(Expr::Var("++".to_owned())),
            Box::new(Expr::Var("++".to_owned())),
        )),
    ));
    assert!(is_valid(&t));
    let printed = t.to_string();
    assert_eq!("\\++.++ ++", printed);
    let mut stream = lex(&printed).unwrap();
    assert_eq!(Ok(t), parse(&mut stream));
}

#[test]
fn free_variable_witness() {
    let mut stream = lex("\\x.x y").unwrap();
    let open = parse(&mut stream).unwrap();
    assert_eq!(Some("y".to_owned()), find_free_variable(&open));
    let mut stream2 = lex("\\x.x x").unwrap();
    let closed = parse(&mut stream2).unwrap();
    assert_eq!(None, find_free_variable(&closed));
}

#[test]
fn closedness() {
    let mut stream = lex("\\x.x x").unwrap();
    let closed = parse(&mut stream).unwrap();
    assert!(is_closed(&closed));
    let mut stream2 = lex("\\x.x y").unwrap();
    let open = parse(&mut stream2).unwrap();
    assert!(!is_closed(&open));
}

#[test]
fn find_annotation_first_match() {
    let mut stream = lex("{ just a note } {:: bool} {:: church} x").unwrap();
    assert_eq!(Some("bool".to_owned()), find_type_annotation(&mut stream));
}

#[test]
fn find_annotation_none() {
    let mut stream = lex("{ just a note } x").unwrap();
    assert_eq!(None, find_type_annotation(&mut stream));
}

#[test]
fn remove_comments_drops_only_comments() {
    let mut stream = lex("{ one } x { two } y").unwrap();
    stream.remove_comments();
    assert_eq!(
        vec![Token::Ident("x".to_owned()), Token::Ident("y".to_owned())],
        stream.all()
    );
}

#[test]
fn parse_empty_input() {
    let mut stream = lex("").unwrap();
    assert_eq!(
        Err(Error::SyntaxError("unexpected token \"<END>\"".to_owned())),
        parse(&mut stream)
    );
}

#[test]
fn parse_lambda_missing_name() {
    let mut stream = lex("\\").unwrap();
    assert_eq!(
        Err(Error::SyntaxError(
            "expected an identifier but got \"<END>\"".to_owned()
        )),
        parse(&mut stream)
    );
}

#[test]
fn parse_lambda_missing_dot() {
    let mut stream = lex("\\x x").unwrap();
    assert_eq!(
        Err(Error::SyntaxError(
            "expected \".\" but got \"x\"".to_owned()
        )),
        parse(&mut stream)
    );
}

#[test]
fn error_messages() {
    assert_eq!(
        "Syntax error: unclosed comment",
        Error::SyntaxError("unclosed comment".to_owned()).to_message()
    );
    assert_eq!(
        "Type error: could not interpret result as bool",
        Error::TypeError("bool".to_owned()).to_message()
    );
    assert_eq!(
        "Malformed type: unexpected end of type",
        Error::MalformedType("unexpected end of type".to_owned()).to_message()
    );
}

// A Church numeral with two decimal digits prints both digits.
#[test]
fn church_twelve() {
    assert_eq!(
        eval_lambda("{:: church} \\s.\\z.s(s(s(s(s(s(s(s(s(s(s(s(z))))))))))))"),
        Ok("12".to_owned())
    );
}

// A list of booleans through the whole pipeline, with the tail built by
// `where` declarations.
#[test]
fn pipeline_list_of_bools() {
    assert_eq!(
        eval_lambda(
            "{:: list[bool]} cons true (cons false nil) \
             where cons = \\h.\\t.\\s.s h t \
             where true = \\t.\\f.t \
             where false = \\t.\\f.f \
             where nil = \\_.(\\t.\\f.t)"
        ),
        Ok("[true, false]".to_owned())
    );
}

// The evaluator reduces under abstractions to reach the normal form.
#[test]
fn pipeline_normalizes_under_binder() {
    assert_eq!(
        eval_lambda("\\a.(\\b.b) a"),
        Ok("\\a.a".to_owned())
    );
}

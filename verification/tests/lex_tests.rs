use lambda::error::Error;
use lambda::lex::lex;
use lambda::lex::lex_type;
use lambda::lex::Token;
use lambda::lex::TypeToken;

#[test]
fn test_lex_expr() {
    assert_eq!(lex_type("expr"), Ok(vec![TypeToken::Expr]));
}

#[test]
fn test_lex_bool() {
    assert_eq!(lex_type("bool"), Ok(vec![TypeToken::Bool]));
}

#[test]
fn test_lex_church() {
    assert_eq!(lex_type("church"), Ok(vec![TypeToken::Church]));
}

#[test]
fn test_lex_1_tuple() {
    assert_eq!(
        lex_type("tuple[expr]"),
        Ok(vec![
            TypeToken::Tuple,
            TypeToken::LeftSquareBracket,
            TypeToken::Expr,
            TypeToken::RightSquareBracket
        ])
    );
}

#[test]
fn test_lex_2_tuple() {
    assert_eq!(
        lex_type("tuple [ bool , church ]"),
        Ok(vec![
            TypeToken::Tuple,
            TypeToken::LeftSquareBracket,
            TypeToken::Bool,
            TypeToken::Comma,
            TypeToken::Church,
            TypeToken::RightSquareBracket
        ])
    );
}

#[test]
fn test_lex_empty_tuple() {
    assert_eq!(
        lex_type("tuple[]"),
        Ok(vec![
            TypeToken::Tuple,
            TypeToken::LeftSquareBracket,
            TypeToken::RightSquareBracket
        ])
    );
}

#[test]
fn test_lex_nested_tuple() {
    assert_eq!(
        lex_type("tuple[expr, tuple[bool, tuple[church]]]"),
        Ok(vec![
            TypeToken::Tuple,
            TypeToken::LeftSquareBracket,
            TypeToken::Expr,
            TypeToken::Comma,
            TypeToken::Tuple,
            TypeToken::LeftSquareBracket,
            TypeToken::Bool,
            TypeToken::Comma,
            TypeToken::Tuple,
            TypeToken::LeftSquareBracket,
            TypeToken::Church,
            TypeToken::RightSquareBracket,
            TypeToken::RightSquareBracket,
            TypeToken::RightSquareBracket
        ])
    );
}

#[test]
fn test_lex_list() {
    assert_eq!(
        lex_type("list[church]"),
        Ok(vec![
            TypeToken::List,
            TypeToken::LeftSquareBracket,
            TypeToken::Church,
            TypeToken::RightSquareBracket
        ])
    );
}

#[test]
fn test_lex_invalid_type_identifier() {
    assert_eq!(
        lex_type("boo"),
        Err(Error::MalformedType(
            "invalid type identifier: \"boo\"".to_owned()
        ))
    );
}

#[test]
fn test_lex_invalid_character() {
    assert_eq!(
        lex_type("bool()"),
        Err(Error::MalformedType(
            "invalid character in type: '('".to_owned()
        ))
    );
}

#[test]
fn lex_comment() -> () {
    assert_eq!(
        vec![Token::Comment(" Hello there! ".to_owned()), Token::Lambda],
        lex(r#"{ Hello there! } \"#).unwrap().all()
    )
}

#[test]
fn lex_nested_comments() -> () {
    assert_eq!(
        vec![
            Token::Comment(" Outside { Inside } Outside ".to_owned()),
            Token::Lambda
        ],
        lex(r#"{ Outside { Inside } Outside } \"#).unwrap().all()
    )
}

#[test]
fn lex_unclosed_comment() -> () {
    assert_eq!(
        lex(r#"{ Hello there!"#),
        Err(Error::SyntaxError("unclosed comment".to_owned()))
    );
}

#[test]
fn lex_unclosed_nested_comment() -> () {
    assert_eq!(
        lex(r#"{ { Hello there! }"#),
        Err(Error::SyntaxError("unclosed comment".to_owned()))
    );
}

#[test]
fn lex_invalid_char() -> () {
    assert_eq!(
        lex(r#"λx.x"#),
        Err(Error::SyntaxError("invalid character: 'λ'".to_owned()))
    )
}

#[test]
fn lex_lambda() -> () {
    assert_eq!(vec![Token::Lambda], lex(r#"\"#).unwrap().all());
}

#[test]
fn lex_simple_ident() -> () {
    assert_eq!(vec![Token::Ident("a".to_owned())], lex("a").unwrap().all());
}

#[test]
fn lex_long_ident() -> () {
    assert_eq!(
        vec![Token::Ident("aa".to_owned()), Token::Ident("bb".to_owned())],
        lex("aa bb").unwrap().all()
    );
}

#[test]
fn test_all_ident_chars() -> () {
    assert_eq!(
        vec![
            Token::Ident("ab".to_owned()),
            Token::Ident("CD".to_owned()),
            Token::Ident("12".to_owned()),
            Token::Ident("~~".to_owned()),
            Token::Ident("``".to_owned()),
            Token::Ident("!!".to_owned()),
            Token::Ident("@@".to_owned()),
            Token::Ident("##".to_owned()),
            Token::Ident("$$".to_owned()),
            Token::Ident("%%".to_owned()),
            Token::Ident("^^".to_owned()),
            Token::Ident("&&".to_owned()),
            Token::Ident("**".to_owned()),
            Token::Ident("--".to_owned()),
            Token::Ident("__".to_owned()),
            Token::Ident("++".to_owned()),
            Token::Ident("[[".to_owned()),
            Token::Ident("]]".to_owned()),
            Token::Ident("||".to_owned()),
            Token::Ident("::".to_owned()),
            Token::Ident(";;".to_owned()),
            Token::Ident("''".to_owned()),
            Token::Ident("\"\"".to_owned()),
            Token::Ident(",,".to_owned()),
            Token::Ident("<<".to_owned()),
            Token::Ident(">>".to_owned()),
            Token::Ident("//".to_owned()),
            Token::Ident("??".to_owned()),
            Token::Dot,
        ],
        lex("ab CD 12 ~~ `` !! @@ ## $$ %% ^^ && ** -- __ ++ [[ ]] || :: ;; '' \"\" ,, << >> // ?? .").unwrap().all(),
    );
}

#[test]
fn lex_dot() -> () {
    assert_eq!(vec![Token::Dot], lex(".").unwrap().all());
}

#[test]
fn lex_lpar() -> () {
    assert_eq!(vec![Token::Lpar], lex("(").unwrap().all());
}

#[test]
fn lex_rpar() -> () {
    assert_eq!(vec![Token::Rpar], lex(")").unwrap().all());
}

#[test]
fn lex_where() -> () {
    assert_eq!(vec![Token::Where], lex("where").unwrap().all());
}

#[test]
fn lex_def() -> () {
    assert_eq!(vec![Token::Def], lex("=").unwrap().all());
}

#[test]
fn lex_identity() -> () {
    assert_eq!(
        vec![
            Token::Lambda,
            Token::Ident("x".to_owned()),
            Token::Dot,
            Token::Ident("x".to_owned()),
        ],
        lex(r#"\x.x"#).unwrap().all()
    )
}

#[test]
fn lex_0() -> () {
    assert_eq!(
        vec![
            Token::Lambda,
            Token::Ident("s".to_owned()),
            Token::Dot,
            Token::Lambda,
            Token::Ident("z".to_owned()),
            Token::Dot,
            Token::Ident("z".to_owned()),
        ],
        lex(r#"\s.\z.z"#).unwrap().all()
    )
}

#[test]
fn lex_1() -> () {
    assert_eq!(
        vec![
            Token::Lambda,
            Token::Ident("s".to_owned()),
            Token::Dot,
            Token::Lambda,
            Token::Ident("z".to_owned()),
            Token::Dot,
            Token::Ident("s".to_owned()),
            Token::Lpar,
            Token::Ident("z".to_owned()),
            Token::Rpar
        ],
        lex(r#"\s.\z.s(z)"#).unwrap().all()
    )
}

#[test]
fn lex_2() -> () {
    assert_eq!(
        vec![
            Token::Lambda,
            Token::Ident("s".to_owned()),
            Token::Dot,
            Token::Lambda,
            Token::Ident("z".to_owned()),
            Token::Dot,
            Token::Ident("s".to_owned()),
            Token::Lpar,
            Token::Ident("s".to_owned()),
            Token::Lpar,
            Token::Ident("z".to_owned()),
            Token::Rpar,
            Token::Rpar,
        ],
        lex(r#"\s.\z.s(s(z))"#).unwrap().all()
    )
}

#[test]
fn lex_with_whitespace() -> () {
    assert_eq!(
        vec![
            Token::Lambda,
            Token::Ident("a".to_owned()),
            Token::Dot,
            Token::Lambda,
            Token::Ident("b".to_owned()),
            Token::Dot,
            Token::Ident("a".to_owned()),
            Token::Lpar,
            Token::Ident("a".to_owned()),
            Token::Ident("b".to_owned()),
            Token::Rpar,
        ],
        lex("\\a.\\b.\n\ta (a b)").unwrap().all()
    );
}

#[test]
fn lex_with_decls() -> () {
    assert_eq!(
        vec![
            Token::Ident("f".to_owned()),
            Token::Ident("x".to_owned()),
            Token::Where,
            Token::Ident("f".to_owned()),
            Token::Def,
            Token::Lambda,
            Token::Ident("z".to_owned()),
            Token::Dot,
            Token::Ident("z".to_owned()),
            Token::Where,
            Token::Ident("x".to_owned()),
            Token::Def,
            Token::Lambda,
            Token::Ident("a".to_owned()),
            Token::Dot,
            Token::Ident("a".to_owned())
        ],
        lex(r#"f x where f = \z.z where x = \a.a"#).unwrap().all()
    );
}

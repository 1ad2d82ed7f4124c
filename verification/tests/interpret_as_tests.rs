use lambda::error::Error;
use lambda::interpret_as::interpret_as;
use lambda::interpret_as::DataType;
use lambda::parse::Expr;

#[test]
fn test_parse_expr() {
    assert_eq!(DataType::try_from("expr"), Ok(DataType::Expr));
}

#[test]
fn test_parse_bool() {
    assert_eq!(DataType::try_from("bool"), Ok(DataType::Boolean));
}

#[test]
fn test_parse_church() {
    assert_eq!(DataType::try_from("church"), Ok(DataType::ChurchNumeral));
}

#[test]
fn test_parse_empty_tuple() {
    assert_eq!(
        DataType::try_from("tuple[]"),
        Ok(DataType::Tuple(Vec::new()))
    );
}

#[test]
fn test_parse_1_tuple() {
    assert_eq!(
        DataType::try_from("tuple[expr]"),
        Ok(DataType::Tuple(vec![DataType::Expr]))
    );
}

#[test]
fn test_parse_2_tuple() {
    assert_eq!(
        DataType::try_from("tuple[bool, church]"),
        Ok(DataType::Tuple(vec![
            DataType::Boolean,
            DataType::ChurchNumeral
        ]))
    );
}

#[test]
fn test_parse_3_tuple() {
    assert_eq!(
        DataType::try_from("tuple [ expr , bool , church ]"),
        Ok(DataType::Tuple(vec![
            DataType::Expr,
            DataType::Boolean,
            DataType::ChurchNumeral
        ]))
    );
}

#[test]
fn test_parse_nested_tuple() {
    assert_eq!(
        DataType::try_from("tuple[expr, tuple[bool, tuple[church]]]"),
        Ok(DataType::Tuple(vec![
            DataType::Expr,
            DataType::Tuple(vec![
                DataType::Boolean,
                DataType::Tuple(vec![DataType::ChurchNumeral])
            ])
        ]))
    );
}

#[test]
fn test_parse_list_bool() {
    assert_eq!(
        DataType::try_from("list[bool]"),
        Ok(DataType::List(Box::new(DataType::Boolean)))
    );
}

#[test]
fn test_parse_list_church() {
    assert_eq!(
        DataType::try_from("list[church]"),
        Ok(DataType::List(Box::new(DataType::ChurchNumeral)))
    );
}

#[test]
fn test_parse_empty() {
    assert_eq!(
        DataType::try_from(""),
        Err(Error::MalformedType("unexpected end of type".to_owned()))
    );
}

#[test]
fn test_parse_bool_bool() {
    assert_eq!(
        DataType::try_from("bool bool"),
        Err(Error::MalformedType(
            "unexpected token after end of type: \"bool\"".to_owned()
        ))
    );
}

#[test]
fn test_parse_tuple_missing_types() {
    assert_eq!(
        DataType::try_from("tuple"),
        Err(Error::MalformedType(
            "expected next token in tuple type to be \"[\" but found nothing".to_owned()
        ))
    )
}

#[test]
fn test_parse_tuple_unclosed_brackets() {
    assert_eq!(
        DataType::try_from("tuple[bool, church"),
        Err(Error::MalformedType(
            "expected next token in tuple type to be \",\" or \"]\" but found nothing"
                .to_owned()
        ))
    );
}

#[test]
fn test_parse_tuple_missing_comma() {
    assert_eq!(
        DataType::try_from("tuple[bool church]"),
        Err(Error::MalformedType(
            "expected next token in tuple type to be \",\" or \"]\" but found \"church\""
                .to_owned()
        ))
    );
}

#[test]
fn test_parse_extra_bracket() {
    assert_eq!(
        DataType::try_from("tuple[bool, bool]]"),
        Err(Error::MalformedType(
            "unexpected token after end of type: \"]\"".to_owned()
        ))
    );
}

fn parse(e: &str) -> Box<Expr> {
    let mut stream = lambda::lex::lex(e).unwrap();
    lambda::parse::parse(&mut stream).unwrap()
}

#[test]
fn test_interpret_id_as_expr() {
    assert_eq!(
        interpret_as(&parse("\\x.x"), &DataType::Expr),
        Ok("\\x.x".to_owned())
    );
}

#[test]
fn test_interpret_as_bool_false() {
    assert_eq!(
        interpret_as(&parse("\\a.\\b.b"), &DataType::Boolean),
        Ok("false".to_owned())
    );
}

#[test]
fn test_interpret_as_bool_true() {
    assert_eq!(
        interpret_as(&parse("\\a.\\b.a"), &DataType::Boolean),
        Ok("true".to_owned())
    );
}

#[test]
fn test_interpret_as_bool_free_var() {
    assert_eq!(
        interpret_as(&parse("\\a.\\b.c"), &DataType::Boolean),
        Err(())
    );
}

#[test]
fn test_interpret_as_bool_invalid_structure_1() {
    assert_eq!(interpret_as(&parse("a"), &DataType::Boolean), Err(()));
}

#[test]
fn test_interpret_as_bool_invalid_structure_2() {
    assert_eq!(interpret_as(&parse("\\a.a"), &DataType::Boolean), Err(()));
}

#[test]
fn test_interpret_as_bool_invalid_structure_3() {
    assert_eq!(
        interpret_as(&parse("\\a.\\b.a b"), &DataType::Boolean),
        Err(())
    );
}

#[test]
fn test_interpret_as_church_zero() {
    assert_eq!(
        interpret_as(&parse("\\s.\\z.z"), &DataType::ChurchNumeral),
        Ok("0".to_owned())
    );
}

#[test]
fn test_interpret_as_church_one() {
    assert_eq!(
        interpret_as(&parse("\\s.\\z.s(z)"), &DataType::ChurchNumeral),
        Ok("1".to_owned())
    );
}

#[test]
fn test_interpret_as_church_two() {
    assert_eq!(
        interpret_as(&parse("\\s.\\z.s(s(z))"), &DataType::ChurchNumeral),
        Ok("2".to_owned())
    );
}

#[test]
fn test_interpret_as_church_three() {
    assert_eq!(
        interpret_as(&parse("\\s.\\z.s(s(s(z)))"), &DataType::ChurchNumeral),
        Ok("3".to_owned())
    );
}

#[test]
fn test_interpret_as_church_four() {
    assert_eq!(
        interpret_as(&parse("\\s.\\z.s(s(s(s(z))))"), &DataType::ChurchNumeral),
        Ok("4".to_owned())
    );
}

#[test]
fn test_interpret_as_church_invalid_structure_1() {
    assert_eq!(interpret_as(&parse("a"), &DataType::ChurchNumeral), Err(()));
}

#[test]
fn test_interpret_as_church_invalid_structure_2() {
    assert_eq!(
        interpret_as(&parse("\\a.a"), &DataType::ChurchNumeral),
        Err(())
    );
}

#[test]
fn test_interpret_as_church_invalid_structure_3() {
    assert_eq!(
        interpret_as(&parse("\\a.\\b.b a"), &DataType::ChurchNumeral),
        Err(())
    );
}

#[test]
fn test_interpret_as_empty_tuple() {
    assert_eq!(
        interpret_as(&parse("\\t.t"), &DataType::Tuple(Vec::new())),
        Ok("()".to_owned())
    );
}

#[test]
fn test_interpret_as_1_tuple() {
    assert_eq!(
        interpret_as(
            &parse("\\t.t (\\t.\\f.f)"),
            &DataType::Tuple(vec![DataType::Boolean])
        ),
        Ok("(false)".to_owned())
    );
}

#[test]
fn test_interpret_as_2_tuple() {
    assert_eq!(
        interpret_as(
            &parse("\\t.t (\\t.\\f.t) (\\s.\\z.s(s(z)))"),
            &DataType::Tuple(vec![DataType::Boolean, DataType::ChurchNumeral])
        ),
        Ok("(true, 2)".to_owned())
    );
}

#[test]
fn test_interpret_nested_tuple() {
    let e = parse("\\s.s (\\t.\\f.t) (\\s.s (\\s.s) (\\s.s (\\x.x x))) (\\s.\\z.s(s(s(z))))");
    let dt = DataType::Tuple(vec![
        DataType::Boolean,
        DataType::Tuple(vec![
            DataType::Tuple(vec![]),
            DataType::Tuple(vec![DataType::Expr]),
        ]),
        DataType::ChurchNumeral,
    ]);
    assert_eq!(
        interpret_as(&e, &dt),
        Ok("(true, ((), (\\x.x x)), 3)".to_owned())
    );
}

#[test]
fn test_interpret_as_tuple_wrong_element_types() {
    let e = parse("\\s.s (\\t.\\f.f) (\\s.\\z.s(s(z)))");
    let dt = DataType::Tuple(vec![DataType::Boolean, DataType::Boolean]);
    assert_eq!(interpret_as(&e, &dt), Err(()));
}

#[test]
fn test_interpret_as_tuple_too_few_elements() {
    let e = parse("\\s.s (\\s.\\z.z)");
    let dt = DataType::Tuple(vec![DataType::ChurchNumeral, DataType::Boolean]);
    assert_eq!(interpret_as(&e, &dt), Err(()));
}

#[test]
fn test_interpret_as_tuple_too_many_elements() {
    let e = parse("\\s.s (\\t.\\f.f) (\\t.\\f.t)");
    let dt = DataType::Tuple(vec![DataType::Boolean]);
    assert_eq!(interpret_as(&e, &dt), Err(()));
}

#[test]
fn test_interpret_as_list_nil() {
    assert_eq!(
        interpret_as(
            &parse("\\_.T where T = \\t.\\f.t"),
            &DataType::List(Box::new(DataType::Expr))
        ),
        Ok("[]".to_owned())
    );
}

#[test]
fn test_interpret_as_list_bool() {
    let dt = DataType::List(Box::new(DataType::Boolean));
    let t = "\\t.\\f.t";
    let f = "\\t.\\f.f";
    let mut e = format!("\\_.{t}");
    assert_eq!(interpret_as(&parse(&e), &dt), Ok("[]".to_owned()));
    e = format!("\\s.s ({t}) ({e})");
    assert_eq!(interpret_as(&parse(&e), &dt), Ok("[true]".to_owned()));
    e = format!("\\s.s ({f}) ({e})");
    assert_eq!(
        interpret_as(&parse(&e), &dt),
        Ok("[false, true]".to_owned())
    );
    e = format!("\\s.s ({t}) ({e})");
    assert_eq!(
        interpret_as(&parse(&e), &dt),
        Ok("[true, false, true]".to_owned())
    );
    e = format!("\\s.s ({t}) ({e})");
    assert_eq!(
        interpret_as(&parse(&e), &dt),
        Ok("[true, true, false, true]".to_owned())
    );
}

#[test]
fn test_interpret_as_list_church() {
    let dt = DataType::List(Box::new(DataType::ChurchNumeral));
    let mut e = format!("\\_.(\\t.\\f.t)");
    assert_eq!(interpret_as(&parse(&e), &dt), Ok("[]".to_owned()));
    e = format!("\\s.s (\\s.\\z.s(s(z))) ({e})");
    assert_eq!(interpret_as(&parse(&e), &dt), Ok("[2]".to_owned()));
    e = format!("\\s.s (\\s.\\z.s(z)) ({e})");
    assert_eq!(interpret_as(&parse(&e), &dt), Ok("[1, 2]".to_owned()));
    e = format!("\\s.s (\\s.\\z.z) ({e})");
    assert_eq!(interpret_as(&parse(&e), &dt), Ok("[0, 1, 2]".to_owned()));
    e = format!("\\s.s (\\s.\\z.s(z)) ({e})");
    assert_eq!(interpret_as(&parse(&e), &dt), Ok("[1, 0, 1, 2]".to_owned()));
    e = format!("\\s.s (\\s.\\z.s(s(z))) ({e})");
    assert_eq!(
        interpret_as(&parse(&e), &dt),
        Ok("[2, 1, 0, 1, 2]".to_owned())
    );
}

// When the two boolean binders share a name, the body variable denotes the
// inner (false) binder, which shadows the outer one.
#[test]
fn interpret_shadowed_bool_is_false() {
    assert_eq!(
        interpret_as(&parse("\\x.\\x.x"), &DataType::Boolean),
        Ok("false".to_owned())
    );
}

// When the successor and zero binders share a name, the body variable denotes
// the zero binder: the term is the numeral zero.
#[test]
fn interpret_shadowed_church_zero() {
    assert_eq!(
        interpret_as(&parse("\\x.\\x.x"), &DataType::ChurchNumeral),
        Ok("0".to_owned())
    );
}

// An application head named like both binders denotes the zero binder, not
// the successor, so the term is not a numeral.
#[test]
fn interpret_shadowed_church_head_fails() {
    assert_eq!(
        interpret_as(&parse("\\x.\\x.x(x)"), &DataType::ChurchNumeral),
        Err(())
    );
}

// A would-be nil whose innermost binder shadows the true binder wraps a
// false-shaped constant, so it is neither nil nor a cons.
#[test]
fn interpret_shadowed_nil_fails() {
    assert_eq!(
        interpret_as(
            &parse("\\a.\\x.\\x.x"),
            &DataType::List(Box::new(DataType::Expr))
        ),
        Err(())
    );
}

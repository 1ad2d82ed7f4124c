//! The type-annotation grammar and the structural decoder.
//!
//! `DataType` is parsed from annotation text (`expr`, `bool`, `church`,
//! `tuple[T, …]`, `list[T]`); `interpret_as` reads an already-normalized
//! named term at such a type: Church booleans become `true`/`false`, Church
//! numerals their decimal value, tuples and lists their element renderings in
//! brackets, and `expr` falls back to the canonical printer.

use vstd::prelude::*;
use vstd::string::StringExecFns;

use crate::chars::decimal_string;
use crate::chars::spec_decimal;
use crate::emit::spec_print;
use crate::error::Error;
use crate::lex::lex_type;
use crate::lex::spec_lex_type;
use crate::lex::spec_type_lex_message;
use crate::lex::spec_type_token_text;
use crate::lex::type_token_text;
use crate::lex::TypeToken;
use crate::parse::term_size;
use crate::parse::trim;
use crate::parse::Expr;
use crate::parse::TermView;

verus! {

broadcast use vstd::std_specs::vec::group_vec_axioms;

// ---------------------------------------------------------------------------
// Data types
// ---------------------------------------------------------------------------
#[derive(Debug, PartialEq)]
pub enum DataType {
    Expr,
    Boolean,
    ChurchNumeral,
    Tuple(Vec<DataType>),
    List(Box<DataType>),
}

/// The mathematical form of a data type.
pub enum DataTypeView {
    Expr,
    Boolean,
    ChurchNumeral,
    Tuple(Seq<DataTypeView>),
    List(Box<DataTypeView>),
}

/// The view of a data type.
pub open spec fn dt_view(d: DataType) -> DataTypeView
    decreases d,
    via dt_view_decreases
{
    match d {
        DataType::Expr => DataTypeView::Expr,
        DataType::Boolean => DataTypeView::Boolean,
        DataType::ChurchNumeral => DataTypeView::ChurchNumeral,
        DataType::Tuple(v) => DataTypeView::Tuple(
            Seq::new(
                v@.len(),
                |i: int|
                    if 0 <= i < v@.len() {
                        dt_view(v@[i])
                    } else {
                        DataTypeView::Expr
                    },
            ),
        ),
        DataType::List(b) => DataTypeView::List(Box::new(dt_view(*b))),
    }
}

#[via_fn]
proof fn dt_view_decreases(d: DataType) {
    broadcast use vstd::std_specs::vec::group_vec_axioms;

    match d {
        DataType::Tuple(v) => {
            assert forall|i: int| 0 <= i < v@.len() implies decreases_to!(d => v@[i]) by {
                assert(decreases_to!(d => v));
                assert(decreases_to!(v => v@[i]));
            }
        },
        _ => {},
    }
}

impl View for DataType {
    type V = DataTypeView;

    open spec fn view(&self) -> DataTypeView {
        dt_view(*self)
    }
}

/// The views of a sequence of data types.
pub open spec fn dts_view(s: Seq<DataType>) -> Seq<DataTypeView> {
    s.map_values(|d: DataType| dt_view(d))
}

/// The view of a tuple type is the tuple of its element views.
pub proof fn lemma_dt_view_tuple(d: DataType)
    requires
        d is Tuple,
    ensures
        dt_view(d) == DataTypeView::Tuple(dts_view(d->Tuple_0@)),
{
    let v = d->Tuple_0;
    assert(dt_view(d) is Tuple);
    assert(dt_view(d)->Tuple_0 =~= dts_view(v@));
}

// ---------------------------------------------------------------------------
// The specification of the type parser
// ---------------------------------------------------------------------------
/// How parsing a type can fail.
pub enum TypeParseFail {
    /// The tokens ended where a type was required.
    EndOfType,
    /// A bracket or comma where a type was required.
    UnexpectedTok(TypeToken),
    /// What followed `tuple` was not `[` (`None`: nothing followed).
    TupleLbr(Option<TypeToken>),
    /// What followed a tuple element was neither `,` nor `]`.
    TupleSep(Option<TypeToken>),
    /// What followed `list` was not `[`.
    ListLbr(Option<TypeToken>),
    /// What followed the list element was not `]`.
    ListRbr(Option<TypeToken>),
}

/// The message carried by the malformed-type error for each parse failure.
pub open spec fn spec_type_parse_message(f: TypeParseFail) -> Seq<char> {
    match f {
        TypeParseFail::EndOfType => "unexpected end of type"@,
        TypeParseFail::UnexpectedTok(t) => "unexpected character: \""@ + spec_type_token_text(t)
            + seq!['"'],
        TypeParseFail::TupleLbr(o) => match o {
            Some(t) => "expected next token in tuple type to be \"[\" but found \""@
                + spec_type_token_text(t) + seq!['"'],
            None => "expected next token in tuple type to be \"[\" but found nothing"@,
        },
        TypeParseFail::TupleSep(o) => match o {
            Some(t) => "expected next token in tuple type to be \",\" or \"]\" but found \""@
                + spec_type_token_text(t) + seq!['"'],
            None => "expected next token in tuple type to be \",\" or \"]\" but found nothing"@,
        },
        TypeParseFail::ListLbr(o) => match o {
            Some(t) => "expected next token in list type to be \"[\" but found \""@
                + spec_type_token_text(t) + seq!['"'],
            None => "expected next token in list type to be \"[\" but found nothing"@,
        },
        TypeParseFail::ListRbr(o) => match o {
            Some(t) => "expected next token in list type to be \"]\" but found \""@
                + spec_type_token_text(t) + seq!['"'],
            None => "expected next token in list type to be \"]\" but found nothing"@,
        },
    }
}

/// Parses one type at position `i`.
pub open spec fn spec_parse_type(s: Seq<TypeToken>, i: nat) -> (
    Result<DataTypeView, TypeParseFail>,
    nat,
)
    decreases s.len() - i, 0int,
{
    if i >= s.len() {
        (Err(TypeParseFail::EndOfType), i)
    } else {
        match s[i as int] {
            TypeToken::LeftSquareBracket => (
                Err(TypeParseFail::UnexpectedTok(TypeToken::LeftSquareBracket)),
                i + 1,
            ),
            TypeToken::RightSquareBracket => (
                Err(TypeParseFail::UnexpectedTok(TypeToken::RightSquareBracket)),
                i + 1,
            ),
            TypeToken::Comma => (Err(TypeParseFail::UnexpectedTok(TypeToken::Comma)), i + 1),
            TypeToken::Expr => (Ok(DataTypeView::Expr), i + 1),
            TypeToken::Bool => (Ok(DataTypeView::Boolean), i + 1),
            TypeToken::Church => (Ok(DataTypeView::ChurchNumeral), i + 1),
            TypeToken::Tuple => spec_parse_tuple_contents(s, (i + 1) as nat),
            TypeToken::List => spec_parse_list_contents(s, (i + 1) as nat),
        }
    }
}

/// Parses `[ type, … ]` after the `tuple` keyword.
pub open spec fn spec_parse_tuple_contents(s: Seq<TypeToken>, i: nat) -> (
    Result<DataTypeView, TypeParseFail>,
    nat,
)
    decreases s.len() - i, 2int,
{
    if i >= s.len() {
        (Err(TypeParseFail::TupleLbr(None)), i)
    } else if !(s[i as int] is LeftSquareBracket) {
        (Err(TypeParseFail::TupleLbr(Some(s[i as int]))), i + 1)
    } else {
        let j = (i + 1) as nat;
        if j < s.len() && s[j as int] is RightSquareBracket {
            (Ok(DataTypeView::Tuple(Seq::empty())), j + 1)
        } else {
            spec_parse_tuple_items(s, j, Seq::empty())
        }
    }
}

/// Parses the remaining `type {(, type)} ]` of a non-empty tuple, with the
/// element types read so far.
pub open spec fn spec_parse_tuple_items(
    s: Seq<TypeToken>,
    i: nat,
    acc: Seq<DataTypeView>,
) -> (Result<DataTypeView, TypeParseFail>, nat)
    decreases s.len() - i, 1int,
{
    let (r, j) = spec_parse_type(s, i);
    match r {
        Err(f) => (Err(f), j),
        Ok(d) => {
            let acc2 = acc.push(d);
            if j < s.len() {
                match s[j as int] {
                    TypeToken::Comma => if i < j + 1 {
                        spec_parse_tuple_items(s, j + 1, acc2)
                    } else {
                        (Err(TypeParseFail::TupleSep(None)), j)
                    },
                    TypeToken::RightSquareBracket => (Ok(DataTypeView::Tuple(acc2)), j + 1),
                    t => (Err(TypeParseFail::TupleSep(Some(t))), j + 1),
                }
            } else {
                (Err(TypeParseFail::TupleSep(None)), j)
            }
        },
    }
}

/// Parses `[ type ]` after the `list` keyword.
pub open spec fn spec_parse_list_contents(s: Seq<TypeToken>, i: nat) -> (
    Result<DataTypeView, TypeParseFail>,
    nat,
)
    decreases s.len() - i, 2int,
{
    if i >= s.len() {
        (Err(TypeParseFail::ListLbr(None)), i)
    } else if !(s[i as int] is LeftSquareBracket) {
        (Err(TypeParseFail::ListLbr(Some(s[i as int]))), i + 1)
    } else {
        let (r, j) = spec_parse_type(s, (i + 1) as nat);
        match r {
            Err(f) => (Err(f), j),
            Ok(d) => if j < s.len() {
                match s[j as int] {
                    TypeToken::RightSquareBracket => (Ok(DataTypeView::List(Box::new(d))), j + 1),
                    t => (Err(TypeParseFail::ListRbr(Some(t))), j + 1),
                }
            } else {
                (Err(TypeParseFail::ListRbr(None)), j)
            },
        }
    }
}

/// The data type an annotation text denotes, or the message of the
/// malformed-type error: the mathematical contract of `DataType::try_from`.
pub open spec fn spec_datatype_of(text: Seq<char>) -> Result<DataTypeView, Seq<char>> {
    match spec_lex_type(text) {
        Err(f) => Err(spec_type_lex_message(f)),
        Ok(ts) => {
            let (r, j) = spec_parse_type(ts, 0);
            match r {
                Err(f) => Err(spec_type_parse_message(f)),
                Ok(d) => if j < ts.len() {
                    Err(
                        "unexpected token after end of type: \""@ + spec_type_token_text(
                            ts[j as int],
                        ) + seq!['"'],
                    )
                } else {
                    Ok(d)
                },
            }
        },
    }
}

// ---------------------------------------------------------------------------
// Position lemmas for the type parser
// ---------------------------------------------------------------------------
pub proof fn lemma_parse_type_pos(s: Seq<TypeToken>, i: nat)
    requires
        i <= s.len(),
    ensures
        i <= spec_parse_type(s, i).1 <= s.len(),
        spec_parse_type(s, i).0 is Ok ==> i < spec_parse_type(s, i).1,
    decreases s.len() - i, 0int,
{
    if i < s.len() {
        match s[i as int] {
            TypeToken::Tuple => {
                lemma_parse_tuple_contents_pos(s, (i + 1) as nat);
            },
            TypeToken::List => {
                lemma_parse_list_contents_pos(s, (i + 1) as nat);
            },
            _ => {},
        }
    }
}

pub proof fn lemma_parse_tuple_contents_pos(s: Seq<TypeToken>, i: nat)
    requires
        i <= s.len(),
    ensures
        i <= spec_parse_tuple_contents(s, i).1 <= s.len(),
    decreases s.len() - i, 2int,
{
    if i < s.len() && s[i as int] is LeftSquareBracket {
        let j = (i + 1) as nat;
        if !(j < s.len() && s[j as int] is RightSquareBracket) {
            lemma_parse_tuple_items_pos(s, j, Seq::empty());
        }
    }
}

pub proof fn lemma_parse_tuple_items_pos(s: Seq<TypeToken>, i: nat, acc: Seq<DataTypeView>)
    requires
        i <= s.len(),
    ensures
        i <= spec_parse_tuple_items(s, i, acc).1 <= s.len(),
    decreases s.len() - i, 1int,
{
    lemma_parse_type_pos(s, i);
    let (r, j) = spec_parse_type(s, i);
    match r {
        Ok(d) => {
            if j < s.len() && s[j as int] is Comma {
                lemma_parse_tuple_items_pos(s, j + 1, acc.push(d));
            }
        },
        Err(_) => {},
    }
}

pub proof fn lemma_parse_list_contents_pos(s: Seq<TypeToken>, i: nat)
    requires
        i <= s.len(),
    ensures
        i <= spec_parse_list_contents(s, i).1 <= s.len(),
    decreases s.len() - i, 2int,
{
    if i < s.len() && s[i as int] is LeftSquareBracket {
        lemma_parse_type_pos(s, (i + 1) as nat);
    }
}

// ---------------------------------------------------------------------------
// The executable type parser
// ---------------------------------------------------------------------------
/// The malformed-type error whose message names the found token.
fn malformed_found(prefix: &str, t: &TypeToken) -> (r: Error)
    ensures
        r matches Error::MalformedType(m) && m@ == prefix@ + spec_type_token_text(*t) + seq!['"'],
{
    let mut m = prefix.to_owned();
    let text = type_token_text(t);
    m.append(text.as_str());
    m.push('"');
    proof {
        assert(m@ =~= prefix@ + spec_type_token_text(*t) + seq!['"']);
    }
    Error::MalformedType(m)
}

/// Parses one type at position `i`.
fn parse_type(toks: &Vec<TypeToken>, i: usize) -> (r: (Result<DataType, Error>, usize))
    requires
        i <= toks@.len(),
    ensures
        ({
            let (sr, sj) = spec_parse_type(toks@, i as nat);
            &&& r.1 == sj
            &&& match sr {
                Ok(d) => r.0 matches Ok(out) && out@ == d,
                Err(f) => r.0 matches Err(err) && err matches Error::MalformedType(m) && m@
                    == spec_type_parse_message(f),
            }
        }),
    decreases toks@.len() - i, 0int,
{
    proof {
        assert(toks@.len() == toks.len());
    }
    if i >= toks.len() {
        return (Err(Error::MalformedType("unexpected end of type".to_owned())), i);
    }
    match &toks[i] {
        TypeToken::LeftSquareBracket => (
            Err(malformed_found("unexpected character: \"", &TypeToken::LeftSquareBracket)),
            i + 1,
        ),
        TypeToken::RightSquareBracket => (
            Err(malformed_found("unexpected character: \"", &TypeToken::RightSquareBracket)),
            i + 1,
        ),
        TypeToken::Comma => (
            Err(malformed_found("unexpected character: \"", &TypeToken::Comma)),
            i + 1,
        ),
        TypeToken::Expr => (Ok(DataType::Expr), i + 1),
        TypeToken::Bool => (Ok(DataType::Boolean), i + 1),
        TypeToken::Church => (Ok(DataType::ChurchNumeral), i + 1),
        TypeToken::Tuple => parse_tuple_contents(toks, i + 1),
        TypeToken::List => parse_list_contents(toks, i + 1),
    }
}

/// Parses `[ type, … ]` after the `tuple` keyword.
fn parse_tuple_contents(toks: &Vec<TypeToken>, i: usize) -> (r: (Result<DataType, Error>, usize))
    requires
        i <= toks@.len(),
    ensures
        ({
            let (sr, sj) = spec_parse_tuple_contents(toks@, i as nat);
            &&& r.1 == sj
            &&& match sr {
                Ok(d) => r.0 matches Ok(out) && out@ == d,
                Err(f) => r.0 matches Err(err) && err matches Error::MalformedType(m) && m@
                    == spec_type_parse_message(f),
            }
        }),
    decreases toks@.len() - i, 2int,
{
    proof {
        assert(toks@.len() == toks.len());
    }
    if i >= toks.len() {
        return (
            Err(
                Error::MalformedType(
                    "expected next token in tuple type to be \"[\" but found nothing".to_owned(),
                ),
            ),
            i,
        );
    }
    match &toks[i] {
        TypeToken::LeftSquareBracket => {},
        other => {
            return (
                Err(malformed_found("expected next token in tuple type to be \"[\" but found \"", other)),
                i + 1,
            );
        },
    }
    let j = i + 1;
    if j < toks.len() {
        match &toks[j] {
            TypeToken::RightSquareBracket => {
                let empty: Vec<DataType> = Vec::new();
                proof {
                    lemma_dt_view_tuple(DataType::Tuple(empty));
                    assert(dts_view(empty@) =~= Seq::<DataTypeView>::empty());
                }
                return (Ok(DataType::Tuple(empty)), j + 1);
            },
            _ => {},
        }
    }
    let mut elems: Vec<DataType> = Vec::new();
    let mut k = j;
    proof {
        assert(dts_view(elems@) =~= Seq::<DataTypeView>::empty());
    }
    loop
        invariant
            i < j,
            j as nat <= k as nat <= toks@.len(),
            spec_parse_tuple_contents(toks@, i as nat) == spec_parse_tuple_items(
                toks@,
                k as nat,
                dts_view(elems@),
            ),
        decreases toks@.len() - k, 1int,
    {
        proof {
            assert(toks@.len() == toks.len());
            lemma_parse_type_pos(toks@, k as nat);
        }
        let (r0, k2) = parse_type(toks, k);
        let d = match r0 {
            Ok(d) => d,
            Err(err) => {
                return (Err(err), k2);
            },
        };
        let ghost pre = dts_view(elems@);
        let ghost dv = d@;
        elems.push(d);
        proof {
            assert(dts_view(elems@) =~= pre.push(dv));
        }
        if k2 < toks.len() {
            match &toks[k2] {
                TypeToken::Comma => {
                    k = k2 + 1;
                },
                TypeToken::RightSquareBracket => {
                    proof {
                        lemma_dt_view_tuple(DataType::Tuple(elems));
                    }
                    return (Ok(DataType::Tuple(elems)), k2 + 1);
                },
                other => {
                    return (
                        Err(
                            malformed_found(
                                "expected next token in tuple type to be \",\" or \"]\" but found \"",
                                other,
                            ),
                        ),
                        k2 + 1,
                    );
                },
            }
        } else {
            return (
                Err(
                    Error::MalformedType(
                        "expected next token in tuple type to be \",\" or \"]\" but found nothing".to_owned(),
                    ),
                ),
                k2,
            );
        }
    }
}

/// Parses `[ type ]` after the `list` keyword.
fn parse_list_contents(toks: &Vec<TypeToken>, i: usize) -> (r: (Result<DataType, Error>, usize))
    requires
        i <= toks@.len(),
    ensures
        ({
            let (sr, sj) = spec_parse_list_contents(toks@, i as nat);
            &&& r.1 == sj
            &&& match sr {
                Ok(d) => r.0 matches Ok(out) && out@ == d,
                Err(f) => r.0 matches Err(err) && err matches Error::MalformedType(m) && m@
                    == spec_type_parse_message(f),
            }
        }),
    decreases toks@.len() - i, 2int,
{
    proof {
        assert(toks@.len() == toks.len());
    }
    if i >= toks.len() {
        return (
            Err(
                Error::MalformedType(
                    "expected next token in list type to be \"[\" but found nothing".to_owned(),
                ),
            ),
            i,
        );
    }
    match &toks[i] {
        TypeToken::LeftSquareBracket => {},
        other => {
            return (
                Err(malformed_found("expected next token in list type to be \"[\" but found \"", other)),
                i + 1,
            );
        },
    }
    let (r0, j) = parse_type(toks, i + 1);
    let d = match r0 {
        Ok(d) => d,
        Err(err) => {
            return (Err(err), j);
        },
    };
    proof {
        lemma_parse_type_pos(toks@, (i + 1) as nat);
    }
    if j < toks.len() {
        match &toks[j] {
            TypeToken::RightSquareBracket => (Ok(DataType::List(Box::new(d))), j + 1),
            other => (
                Err(malformed_found("expected next token in list type to be \"]\" but found \"", other)),
                j + 1,
            ),
        }
    } else {
        (
            Err(
                Error::MalformedType(
                    "expected next token in list type to be \"]\" but found nothing".to_owned(),
                ),
            ),
            j,
        )
    }
}

impl DataType {
    /// Parses annotation text into a data type: the whole text must be one
    /// type.
    pub fn try_from(value: &str) -> (r: Result<DataType, Error>)
        ensures
            match spec_datatype_of(value@) {
                Ok(dv) => r matches Ok(d) && d@ == dv,
                Err(m) => r matches Err(e) && e matches Error::MalformedType(mm) && mm@ == m,
            },
    {
        let token_vec = match lex_type(value) {
            Ok(v) => v,
            Err(e) => {
                return Err(e);
            },
        };
        proof {
            lemma_parse_type_pos(token_vec@, 0);
        }
        let (r0, j) = parse_type(&token_vec, 0);
        let d = match r0 {
            Ok(d) => d,
            Err(e) => {
                return Err(e);
            },
        };
        if j < token_vec.len() {
            Err(malformed_found("unexpected token after end of type: \"", &token_vec[j]))
        } else {
            Ok(d)
        }
    }
}

// ---------------------------------------------------------------------------
// The specification of the decoder
// ---------------------------------------------------------------------------
/// Reading a term as a Church boolean: it must be `\t.\f.v` with `v` the
/// binder it denotes under scoping — the `t` binder (`true`) or the `f`
/// binder (`false`).  When the two binders share a name, the inner `f` binder
/// shadows the outer one, so the variable denotes `f`.
pub open spec fn spec_as_bool(t: TermView) -> Option<Seq<char>> {
    match t {
        TermView::Fun(tn, b1) => match *b1 {
            TermView::Fun(fn2, b2) => match *b2 {
                TermView::Var(c) => if c == fn2 {
                    Some("false"@)
                } else if c == tn {
                    Some("true"@)
                } else {
                    None
                },
                _ => None,
            },
            _ => None,
        },
        _ => None,
    }
}

/// The number of nested applications of the `s` binder ending at the `z`
/// binder, if the body has exactly that shape.  A variable denotes the binder
/// scoping says: the inner `z` binder shadows `s` when the two share a name,
/// so a head variable is the successor only when it is named `s` and not `z`,
/// and the terminal variable is the zero binder whenever it is named `z`.
pub open spec fn spec_church_count(e: TermView, s: Seq<char>, z: Seq<char>) -> Option<nat>
    decreases e,
{
    match e {
        TermView::Var(x) => if x == z {
            Some(0)
        } else {
            None
        },
        TermView::App(a, b) => match *a {
            TermView::Var(x) => if x == s && x != z {
                match spec_church_count(*b, s, z) {
                    Some(n) => Some(n + 1),
                    None => None,
                }
            } else {
                None
            },
            _ => None,
        },
        _ => None,
    }
}

/// Reading a term as a Church numeral: `\s.\z.s(…s(z)…)`, rendered in
/// decimal.
pub open spec fn spec_as_church(t: TermView) -> Option<Seq<char>> {
    match t {
        TermView::Fun(s, b1) => match *b1 {
            TermView::Fun(z, body) => match spec_church_count(*body, s, z) {
                Some(n) => Some(spec_decimal(n)),
                None => None,
            },
            _ => None,
        },
        _ => None,
    }
}

/// The nil list: a Church-true constant wrapped in one extra ignored-argument
/// abstraction.  The body variable must denote the true binder, so an inner
/// binder of the same name, which would shadow it, disqualifies the shape.
pub open spec fn spec_is_nil(t: TermView) -> bool {
    match t {
        TermView::Fun(_, b1) => match *b1 {
            TermView::Fun(t2, b2) => match *b2 {
                TermView::Fun(x3, b3) => match *b3 {
                    TermView::Var(c) => c == t2 && c != x3,
                    _ => false,
                },
                _ => false,
            },
            _ => false,
        },
        _ => false,
    }
}

/// Reading a term at a data type, as a character sequence: the mathematical
/// contract of `interpret_as`.  `None` is the decode failure.
pub open spec fn spec_interpret(t: TermView, dt: DataTypeView) -> Option<Seq<char>>
    decreases t, 2int,
{
    match dt {
        DataTypeView::Expr => Some(spec_print(t)),
        DataTypeView::Boolean => spec_as_bool(t),
        DataTypeView::ChurchNumeral => spec_as_church(t),
        DataTypeView::Tuple(ets) => match t {
            TermView::Fun(p, body) => match spec_tuple_inner(*body, p, ets) {
                Some(inner) => Some(seq!['('] + inner + seq![')']),
                None => None,
            },
            _ => None,
        },
        DataTypeView::List(et) => match spec_list_inner(t, *et) {
            Some(inner) => Some(seq!['['] + inner + seq![']']),
            None => None,
        },
    }
}

/// The joined element renderings of a tuple body: a left-nested application
/// chain ending at the tuple's binder, one argument per element type, the
/// innermost argument belonging to the last type.
pub open spec fn spec_tuple_inner(
    e: TermView,
    p: Seq<char>,
    ets: Seq<DataTypeView>,
) -> Option<Seq<char>>
    decreases e, 0int,
{
    if ets.len() == 0 {
        match e {
            TermView::Var(x) => if x == p {
                Some(Seq::empty())
            } else {
                None
            },
            _ => None,
        }
    } else {
        match e {
            TermView::App(lhs, rhs) => match spec_interpret(*rhs, ets.last()) {
                None => None,
                Some(elem) => match spec_tuple_inner(*lhs, p, ets.drop_last()) {
                    None => None,
                    Some(pre) => if ets.len() == 1 {
                        Some(elem)
                    } else {
                        Some(pre + ", "@ + elem)
                    },
                },
            },
            _ => None,
        }
    }
}

/// The joined element renderings of a list term: nil renders as nothing, and
/// a cons `\s.s HEAD TAIL` renders its head at the element type, then the
/// tail.
pub open spec fn spec_list_inner(t: TermView, et: DataTypeView) -> Option<Seq<char>>
    decreases t, 1int,
{
    if spec_is_nil(t) {
        Some(Seq::empty())
    } else {
        match t {
            TermView::Fun(s, b) => match *b {
                TermView::App(lhs, tail) => match *lhs {
                    TermView::App(p, head) => match *p {
                        TermView::Var(pv) => if pv == s {
                            match spec_interpret(*head, et) {
                                None => None,
                                Some(hs) => match spec_list_inner(*tail, et) {
                                    None => None,
                                    Some(ts) => if trim(ts).len() == 0 {
                                        Some(hs)
                                    } else {
                                        Some(hs + ", "@ + ts)
                                    },
                                },
                            }
                        } else {
                            None
                        },
                        _ => None,
                    },
                    _ => None,
                },
                _ => None,
            },
            _ => None,
        }
    }
}

// ---------------------------------------------------------------------------
// The executable decoder
// ---------------------------------------------------------------------------
proof fn lemma_church_count_bound(e: TermView, s: Seq<char>, z: Seq<char>)
    ensures
        spec_church_count(e, s, z) matches Some(n) ==> n < term_size(e),
    decreases e,
{
    match e {
        TermView::App(a, b) => {
            lemma_church_count_bound(*b, s, z);
        },
        _ => {},
    }
}

/// Counts the nested applications of `s` ending at `z`.
fn church_count(e: &Expr, s: &String, z: &String) -> (r: Option<usize>)
    requires
        term_size(e@) <= usize::MAX,
    ensures
        match spec_church_count(e@, s@, z@) {
            Some(n) => r matches Some(out) && out as nat == n,
            None => r is None,
        },
    decreases e,
{
    match e {
        Expr::Var(x) => {
            proof {
                assert(e@ == TermView::Var(x@));
            }
            if String::eq(x, z) {
                Some(0)
            } else {
                None
            }
        },
        Expr::App(a, b) => {
            match &**a {
                Expr::Var(x) => {
                    proof {
                        assert(e@ == TermView::App(Box::new(a@), Box::new(b@)));
                        assert(a@ == TermView::Var(x@));
                        assert(term_size(e@) == 1 + term_size(a@) + term_size(b@));
                        lemma_church_count_bound(b@, s@, z@);
                    }
                    if String::eq(x, s) && !String::eq(x, z) {
                        match church_count(b, s, z) {
                            Some(n) => Some(n + 1),
                            None => None,
                        }
                    } else {
                        None
                    }
                },
                _ => {
                    proof {
                        assert(e@ == TermView::App(Box::new(a@), Box::new(b@)));
                    }
                    None
                },
            }
        },
        _ => None,
    }
}

/// Reads a term as a Church boolean.
fn interpret_as_bool(e: &Expr) -> (r: Result<String, ()>)
    ensures
        match spec_as_bool(e@) {
            Some(s) => r matches Ok(out) && out@ == s,
            None => r matches Err(u),
        },
{
    match e {
        Expr::Fun(t, body) => match &**body {
            Expr::Fun(f, body2) => match &**body2 {
                Expr::Var(c) => {
                    proof {
                        assert(e@ == TermView::Fun(t@, Box::new(body@)));
                        assert(body@ == TermView::Fun(f@, Box::new(body2@)));
                        assert(body2@ == TermView::Var(c@));
                    }
                    if String::eq(c, f) {
                        Ok("false".to_owned())
                    } else if String::eq(c, t) {
                        Ok("true".to_owned())
                    } else {
                        Err(())
                    }
                },
                _ => Err(()),
            },
            _ => Err(()),
        },
        _ => Err(()),
    }
}

/// Reads a term as a Church numeral, rendered in decimal.
fn interpret_as_church(e: &Expr) -> (r: Result<String, ()>)
    requires
        term_size(e@) <= usize::MAX,
    ensures
        match spec_as_church(e@) {
            Some(s) => r matches Ok(out) && out@ == s,
            None => r matches Err(u),
        },
{
    match e {
        Expr::Fun(s, body) => match &**body {
            Expr::Fun(z, body2) => {
                proof {
                    assert(e@ == TermView::Fun(s@, Box::new(body@)));
                    assert(term_size(e@) == 1 + term_size(body@));
                    assert(body@ == TermView::Fun(z@, Box::new(body2@)));
                    assert(term_size(body@) == 1 + term_size(body2@));
                }
                match church_count(body2, s, z) {
                    Some(n) => Ok(decimal_string(n)),
                    None => Err(()),
                }
            },
            _ => Err(()),
        },
        _ => Err(()),
    }
}

/// The nil list shape.
fn is_nil(e: &Expr) -> (r: bool)
    ensures
        r == spec_is_nil(e@),
{
    match e {
        Expr::Fun(x0, body) => match &**body {
            // Check whether the body is the Church-true constant.
            Expr::Fun(t, body2) => match &**body2 {
                Expr::Fun(x2, body3) => match &**body3 {
                    Expr::Var(c) => {
                        proof {
                            assert(e@ == TermView::Fun(x0@, Box::new(body@)));
                            assert(body@ == TermView::Fun(t@, Box::new(body2@)));
                            assert(body2@ == TermView::Fun(x2@, Box::new(body3@)));
                            assert(body3@ == TermView::Var(c@));
                        }
                        String::eq(c, t) && !String::eq(c, x2)
                    },
                    _ => false,
                },
                _ => false,
            },
            _ => false,
        },
        _ => false,
    }
}

/// Reads a normalized term at a data type, rendering it as text; fails when
/// the term does not have the shape the type asks for.
pub fn interpret_as(e: &Expr, dt: &DataType) -> (r: Result<String, ()>)
    requires
        term_size(e@) <= usize::MAX,
    ensures
        match spec_interpret(e@, dt@) {
            Some(s) => r matches Ok(out) && out@ == s,
            None => r matches Err(u),
        },
    decreases e, 2int,
{
    match dt {
        DataType::Expr => Ok(e.to_string()),
        DataType::Boolean => interpret_as_bool(e),
        DataType::ChurchNumeral => interpret_as_church(e),
        DataType::Tuple(elem_types) => {
            proof {
                lemma_dt_view_tuple(*dt);
            }
            interpret_as_tuple(e, elem_types)
        },
        DataType::List(t) => {
            proof {
                assert(dt@ == DataTypeView::List(Box::new(dt_view(**t))));
            }
            interpret_as_list(e, t)
        },
    }
}

/// Reads a term as a tuple of the given element types.
fn interpret_as_tuple(e: &Expr, elem_types: &Vec<DataType>) -> (r: Result<String, ()>)
    requires
        term_size(e@) <= usize::MAX,
    ensures
        ({
            let dtv = DataTypeView::Tuple(dts_view(elem_types@));
            match spec_interpret(e@, dtv) {
                Some(s) => r matches Ok(out) && out@ == s,
                None => r matches Err(u),
            }
        }),
    decreases e, 1int,
{
    proof {
        lemma_dt_view_tuple(DataType::Tuple(*elem_types));
    }
    match e {
        Expr::Fun(s, body) => {
            proof {
                assert(e@ == TermView::Fun(s@, Box::new(body@)));
                assert(term_size(e@) == 1 + term_size(body@));
                assert(dts_view(elem_types@).take(elem_types@.len() as int) =~= dts_view(
                    elem_types@,
                ));
            }
            match tuple_inner(body, s, elem_types, elem_types.len()) {
                Ok(inner) => {
                    let mut out = String::new();
                    out.push('(');
                    out.append(inner.as_str());
                    out.push(')');
                    proof {
                        assert(out@ =~= seq!['('] + inner@ + seq![')']);
                    }
                    Ok(out)
                },
                Err(u) => Err(u),
            }
        },
        _ => Err(()),
    }
}

/// Reads a left-nested application chain ending at `p` against the first `k`
/// element types, rendering the elements joined by `, `.
fn tuple_inner(e: &Expr, p: &String, ets: &Vec<DataType>, k: usize) -> (r: Result<String, ()>)
    requires
        term_size(e@) <= usize::MAX,
        k <= ets@.len(),
    ensures
        match spec_tuple_inner(e@, p@, dts_view(ets@).take(k as int)) {
            Some(s) => r matches Ok(out) && out@ == s,
            None => r matches Err(u),
        },
    decreases e, 0int,
{
    let ghost sub = dts_view(ets@).take(k as int);
    if k == 0 {
        match e {
            Expr::Var(x) => {
                if String::eq(x, p) {
                    Ok(String::new())
                } else {
                    Err(())
                }
            },
            _ => Err(()),
        }
    } else {
        proof {
            assert(sub.last() == dt_view(ets@[k as int - 1]));
            assert(sub.drop_last() =~= dts_view(ets@).take(k as int - 1));
        }
        match e {
            Expr::App(lhs, rhs) => {
                proof {
                    assert(e@ == TermView::App(Box::new(lhs@), Box::new(rhs@)));
                    assert(term_size(e@) == 1 + term_size(lhs@) + term_size(rhs@));
                }
                let elem = match interpret_as(rhs, &ets[k - 1]) {
                    Ok(elem) => elem,
                    Err(u) => {
                        return Err(u);
                    },
                };
                let pre = match tuple_inner(lhs, p, ets, k - 1) {
                    Ok(pre) => pre,
                    Err(u) => {
                        return Err(u);
                    },
                };
                if k == 1 {
                    Ok(elem)
                } else {
                    let mut out = pre;
                    out.append(", ");
                    out.append(elem.as_str());
                    proof {
                        assert(out@ =~= spec_tuple_inner(e@, p@, sub)->Some_0);
                    }
                    Ok(out)
                }
            },
            _ => Err(()),
        }
    }
}

/// Reads a term as a list of the given element type, in brackets.
fn interpret_as_list(e: &Expr, dt: &DataType) -> (r: Result<String, ()>)
    requires
        term_size(e@) <= usize::MAX,
    ensures
        ({
            let dtv = DataTypeView::List(Box::new(dt_view(*dt)));
            match spec_interpret(e@, dtv) {
                Some(s) => r matches Ok(out) && out@ == s,
                None => r matches Err(u),
            }
        }),
    decreases e, 1int,
{
    match interpret_as_list_without_brackets(e, dt) {
        Ok(inner) => {
            let mut out = String::new();
            out.push('[');
            out.append(inner.as_str());
            out.push(']');
            proof {
                assert(out@ =~= seq!['['] + inner@ + seq![']']);
            }
            Ok(out)
        },
        Err(u) => Err(u),
    }
}

/// Reads a list term, rendering the elements joined by `, ` without the
/// surrounding brackets.
fn interpret_as_list_without_brackets(e: &Expr, dt: &DataType) -> (r: Result<String, ()>)
    requires
        term_size(e@) <= usize::MAX,
    ensures
        match spec_list_inner(e@, dt@) {
            Some(s) => r matches Ok(out) && out@ == s,
            None => r matches Err(u),
        },
    decreases e, 0int,
{
    if is_nil(e) {
        return Ok(String::new());
    }
    match e {
        Expr::Fun(s, body) => match &**body {
            Expr::App(lhs, tail) => match &**lhs {
                Expr::App(p, head) => match &**p {
                    Expr::Var(pv) => {
                        proof {
                            assert(e@ == TermView::Fun(s@, Box::new(body@)));
                            assert(term_size(e@) == 1 + term_size(body@));
                            assert(body@ == TermView::App(Box::new(lhs@), Box::new(tail@)));
                            assert(term_size(body@) == 1 + term_size(lhs@) + term_size(tail@));
                            assert(lhs@ == TermView::App(Box::new(p@), Box::new(head@)));
                            assert(term_size(lhs@) == 1 + term_size(p@) + term_size(head@));
                            assert(p@ == TermView::Var(pv@));
                        }
                        if String::eq(pv, s) {
                            let head_str = match interpret_as(head, dt) {
                                Ok(h) => h,
                                Err(u) => {
                                    return Err(u);
                                },
                            };
                            let tail_str = match interpret_as_list_without_brackets(tail, dt) {
                                Ok(t) => t,
                                Err(u) => {
                                    return Err(u);
                                },
                            };
                            if tail_is_blank(&tail_str) {
                                Ok(head_str)
                            } else {
                                let mut out = head_str;
                                out.append(", ");
                                out.append(tail_str.as_str());
                                proof {
                                    assert(out@ =~= spec_list_inner(e@, dt@)->Some_0);
                                }
                                Ok(out)
                            }
                        } else {
                            Err(())
                        }
                    },
                    _ => Err(()),
                },
                _ => Err(()),
            },
            _ => Err(()),
        },
        _ => Err(()),
    }
}

/// Whether a rendered tail is blank (the tail list was nil).
fn tail_is_blank(s: &String) -> (r: bool)
    ensures
        r == (trim(s@).len() == 0),
{
    let v = crate::chars::chars_of(s.as_str());
    let n = v.len();
    let mut i: usize = 0;
    let mut all_ws = true;
    while i < n
        invariant
            n == v@.len(),
            v@ == s@,
            i <= n,
            all_ws == (forall|j: int| 0 <= j < i ==> crate::chars::is_whitespace_char(s@[j])),
        decreases n - i,
    {
        if !crate::chars::exec_is_whitespace(v[i]) {
            all_ws = false;
        }
        i = i + 1;
    }
    proof {
        crate::parse::lemma_trim_blank(s@);
    }
    all_ws
}

} // verus!

//! The term parser and desugarer.
//!
//! Grammar (one-token lookahead, applications associate to the left):
//!
//! ```text
//! term    := term' { term' }
//! term'   := '\' IDENT '.' term | IDENT | '(' term ')'
//! program := term { 'where' IDENT '=' term }
//! ```
//!
//! Trailing `where` declarations are resolved by textual substitution, last
//! declaration first, so a declaration may use the meaning of a later one but
//! never itself.  `spec_parse` defines the whole program parse over a token
//! sequence; the executable `parse` is proved to return exactly that.

use vstd::prelude::*;

use crate::chars::chars_of;
use crate::chars::spec_ident_char;
use crate::chars::exec_is_whitespace;
use crate::chars::is_whitespace_char;
use crate::chars::range_matches;
use crate::chars::string_of_range;
use crate::error::Error;
use crate::lex::is_ident_char;
use crate::lex::spec_token_text;
use crate::lex::token_text;
use crate::lex::tokens_view;
use crate::lex::Token;
use crate::lex::TokenStream;
use crate::lex::TokenView;

verus! {

// ---------------------------------------------------------------------------
// Named terms
// ---------------------------------------------------------------------------
#[derive(Debug, PartialEq)]
pub enum Expr {
    Fun(String, Box<Expr>),
    App(Box<Expr>, Box<Expr>),
    Var(String),
}

/// The mathematical form of a named term: names as character sequences.
pub enum TermView {
    Fun(Seq<char>, Box<TermView>),
    App(Box<TermView>, Box<TermView>),
    Var(Seq<char>),
}

/// The view of a named term.
pub open spec fn term_view(e: Expr) -> TermView
    decreases e,
{
    match e {
        Expr::Fun(x, body) => TermView::Fun(x@, Box::new(term_view(*body))),
        Expr::App(f, a) => TermView::App(Box::new(term_view(*f)), Box::new(term_view(*a))),
        Expr::Var(x) => TermView::Var(x@),
    }
}

impl View for Expr {
    type V = TermView;

    open spec fn view(&self) -> TermView {
        term_view(*self)
    }
}

impl Clone for Expr {
    fn clone(&self) -> (r: Expr)
        ensures
            r == *self,
        decreases self,
    {
        match self {
            Expr::Fun(x, body) => Expr::Fun(x.clone(), Box::new((**body).clone())),
            Expr::App(f, a) => Expr::App(Box::new((**f).clone()), Box::new((**a).clone())),
            Expr::Var(x) => Expr::Var(x.clone()),
        }
    }
}

// ---------------------------------------------------------------------------
// Valid round-trip terms
// ---------------------------------------------------------------------------
/// An identifier that the lexer reads back as one `Ident` token: not the
/// keyword `where`, not blank, made of identifier characters only (ASCII
/// alphanumerics and the symbol characters).
pub open spec fn spec_valid_ident(s: Seq<char>) -> bool {
    &&& s != "where"@
    &&& crate::parse::trim(s).len() != 0
    &&& forall|i: int| 0 <= i < s.len() ==> spec_ident_char(s[i])
}

/// The number of nodes of a term.
pub open spec fn term_size(t: TermView) -> nat
    decreases t,
{
    match t {
        TermView::Var(_) => 1,
        TermView::Fun(_, b) => 1 + term_size(*b),
        TermView::App(f, a) => 1 + term_size(*f) + term_size(*a),
    }
}

/// A term whose identifiers all satisfy `spec_valid_ident`: printing such a
/// term and parsing the result gives the term back.
pub open spec fn spec_valid_term(t: TermView) -> bool
    decreases t,
{
    match t {
        TermView::Var(x) => spec_valid_ident(x),
        TermView::Fun(x, body) => spec_valid_ident(x) && spec_valid_term(*body),
        TermView::App(f, a) => spec_valid_term(*f) && spec_valid_term(*a),
    }
}

proof fn lemma_trim_start_all_ws(s: Seq<char>)
    ensures
        trim_start(s).len() == 0 <==> (forall|i: int| 0 <= i < s.len() ==> is_whitespace_char(
            s[i],
        )),
    decreases s.len(),
{
    if s.len() > 0 && is_whitespace_char(s[0]) {
        lemma_trim_start_all_ws(s.drop_first());
        assert(forall|i: int|
            0 <= i < s.drop_first().len() ==> s.drop_first()[i] == s[i + 1]);
        if trim_start(s).len() == 0 {
            assert forall|i: int| 0 <= i < s.len() implies is_whitespace_char(s[i]) by {
                if i > 0 {
                    assert(s[i] == s.drop_first()[i - 1]);
                }
            }
        }
    } else if s.len() > 0 {
        assert(!is_whitespace_char(s[0]));
    }
}

/// A valid identifier, as the round-trip law understands it: a run of
/// identifier characters, not blank, and not the keyword `where`.
pub fn is_valid_identifier(s: &str) -> (r: bool)
    ensures
        r == spec_valid_ident(s@),
{
    let v = chars_of(s);
    let n = v.len();
    if range_matches(&v, 0, n, "where") {
        proof {
            assert(v@.subrange(0, n as int) =~= s@);
        }
        return false;
    }
    proof {
        assert(v@.subrange(0, n as int) =~= s@);
    }
    let mut i: usize = 0;
    let mut all_ws = true;
    let mut all_ident = true;
    while i < n
        invariant
            n == v@.len(),
            v@ == s@,
            i <= n,
            all_ws == (forall|j: int| 0 <= j < i ==> is_whitespace_char(s@[j])),
            all_ident == (forall|j: int| 0 <= j < i ==> spec_ident_char(s@[j])),
        decreases n - i,
    {
        let c = v[i];
        if !exec_is_whitespace(c) {
            all_ws = false;
        }
        if !is_ident_char(&c) {
            all_ident = false;
        }
        i = i + 1;
    }
    if all_ws {
        proof {
            lemma_trim_blank(s@);
        }
        return false;
    }
    proof {
        lemma_trim_blank(s@);
    }
    all_ident
}

proof fn lemma_trim_start_head(s: Seq<char>)
    ensures
        trim_start(s).len() > 0 ==> !is_whitespace_char(trim_start(s)[0]),
    decreases s.len(),
{
    if s.len() > 0 && is_whitespace_char(s[0]) {
        lemma_trim_start_head(s.drop_first());
    }
}

/// A sequence trims to nothing exactly when it is all whitespace.
pub proof fn lemma_trim_blank(s: Seq<char>)
    ensures
        trim(s).len() == 0 <==> (forall|i: int| 0 <= i < s.len() ==> is_whitespace_char(s[i])),
    decreases s.len(),
{
    lemma_trim_start_all_ws(s);
    if trim_start(s).len() == 0 {
        assert(trim_end(trim_start(s)).len() == 0);
    } else {
        lemma_trim_start_head(s);
        lemma_trim_end_keeps_head(trim_start(s));
    }
}

proof fn lemma_trim_end_keeps_head(s: Seq<char>)
    requires
        s.len() > 0,
        !is_whitespace_char(s[0]),
    ensures
        trim_end(s).len() > 0,
    decreases s.len(),
{
    if is_whitespace_char(s.last()) {
        assert(s.len() > 1);
        assert(s.drop_last()[0] == s[0]);
        lemma_trim_end_keeps_head(s.drop_last());
    }
}

/// A term that prints and re-parses as itself: every identifier in it is
/// valid.
pub fn is_valid(e: &Expr) -> (r: bool)
    ensures
        r == spec_valid_term(e@),
    decreases e,
{
    match e {
        Expr::Var(s) => is_valid_identifier(s.as_str()),
        Expr::Fun(x, body) => is_valid_identifier(x.as_str()) && is_valid(body),
        Expr::App(e1, e2) => is_valid(e1) && is_valid(e2),
    }
}

// ---------------------------------------------------------------------------
// Trimming (for the annotation comment and blank-identifier checks)
// ---------------------------------------------------------------------------
/// The sequence without its leading whitespace.
pub open spec fn trim_start(s: Seq<char>) -> Seq<char>
    decreases s.len(),
{
    if s.len() > 0 && is_whitespace_char(s[0]) {
        trim_start(s.drop_first())
    } else {
        s
    }
}

/// The sequence without its trailing whitespace.
pub open spec fn trim_end(s: Seq<char>) -> Seq<char>
    decreases s.len(),
{
    if s.len() > 0 && is_whitespace_char(s.last()) {
        trim_end(s.drop_last())
    } else {
        s
    }
}

/// The sequence without leading and trailing whitespace.
pub open spec fn trim(s: Seq<char>) -> Seq<char> {
    trim_end(trim_start(s))
}

// ---------------------------------------------------------------------------
// The type annotation comment
// ---------------------------------------------------------------------------
/// The annotation a comment designates: its trimmed content must begin with
/// `::`, and the rest, trimmed, is the annotation text.
pub open spec fn annotation_of(c: Seq<char>) -> Option<Seq<char>> {
    let t = trim(c);
    if t.len() >= 2 && t[0] == ':' && t[1] == ':' {
        Some(trim(t.skip(2)))
    } else {
        None
    }
}

/// Scanning a token stream for the first annotation comment: the result and
/// what remains of the stream afterwards.
pub open spec fn spec_scan_annotation(s: Seq<TokenView>) -> (Option<Seq<char>>, Seq<TokenView>)
    decreases s.len(),
{
    if s.len() == 0 {
        (None, s)
    } else {
        match s[0] {
            TokenView::End => (None, s.drop_first()),
            TokenView::Comment(c) => match annotation_of(c) {
                Some(a) => (Some(a), s.drop_first()),
                None => spec_scan_annotation(s.drop_first()),
            },
            _ => spec_scan_annotation(s.drop_first()),
        }
    }
}

/// The bounds of `trim` of `v[from..to]`: the subrange between the returned
/// indices is that trimmed sequence.
fn trim_indices(v: &Vec<char>, from: usize, to: usize) -> (r: (usize, usize))
    requires
        from <= to <= v@.len(),
    ensures
        from <= r.0 <= r.1 <= to,
        v@.subrange(r.0 as int, r.1 as int) == trim(v@.subrange(from as int, to as int)),
{
    let mut a = from;
    while a < to && exec_is_whitespace(v[a])
        invariant
            from <= a <= to <= v@.len(),
            trim_start(v@.subrange(from as int, to as int)) == trim_start(
                v@.subrange(a as int, to as int),
            ),
        decreases to - a,
    {
        proof {
            let s = v@.subrange(a as int, to as int);
            assert(s[0] == v@[a as int]);
            assert(s.drop_first() =~= v@.subrange(a as int + 1, to as int));
        }
        a = a + 1;
    }
    proof {
        let s = v@.subrange(a as int, to as int);
        if a < to {
            assert(s[0] == v@[a as int]);
        }
        assert(trim_start(s) == s);
    }
    if a == to {
        proof {
            assert(v@.subrange(a as int, a as int) =~= trim(
                v@.subrange(from as int, to as int),
            ));
        }
        return (a, a);
    }
    let mut b = to;
    while b > a && exec_is_whitespace(v[b - 1])
        invariant
            from <= a < b || b == a,
            b <= to <= v@.len(),
            a <= b,
            trim_end(v@.subrange(a as int, to as int)) == trim_end(v@.subrange(a as int, b as int)),
        decreases b - a,
    {
        proof {
            let s = v@.subrange(a as int, b as int);
            assert(s.last() == v@[b as int - 1]);
            assert(s.drop_last() =~= v@.subrange(a as int, b as int - 1));
        }
        b = b - 1;
    }
    proof {
        let s = v@.subrange(a as int, b as int);
        if b > a {
            assert(s.last() == v@[b as int - 1]);
        }
        assert(trim_end(s) == s);
    }
    (a, b)
}

/// Scans the stream for the first comment whose trimmed content begins with
/// `::`; returns the rest of that content, trimmed, consuming the stream up
/// to and including that comment.
pub fn find_type_annotation(tokens: &mut TokenStream) -> (r: Option<String>)
    ensures
        ({
            let (a, rest) = spec_scan_annotation(old(tokens)@);
            &&& final(tokens)@ == rest
            &&& match a {
                Some(x) => r matches Some(s) && s@ == x,
                None => r is None,
            }
        }),
{
    loop
        invariant
            spec_scan_annotation(old(tokens)@) == spec_scan_annotation(tokens@),
        decreases tokens@.len(),
    {
        let ghost pre = tokens@;
        if tokens.tokens.len() == 0 {
            return None;
        }
        proof {
            assert(pre.drop_first() =~= tokens_view(tokens.tokens@.drop_first()));
        }
        let t = tokens.next();
        match t {
            Token::End => {
                return None;
            },
            Token::Comment(s) => {
                let v = chars_of(s.as_str());
                let (a, b) = trim_indices(&v, 0, v.len());
                proof {
                    assert(v@.subrange(0, v@.len() as int) =~= s@);
                }
                if b - a >= 2 && v[a] == ':' && v[a + 1] == ':' {
                    proof {
                        let t0 = trim(s@);
                        assert(t0 == v@.subrange(a as int, b as int));
                        assert(t0[0] == v@[a as int]);
                        assert(t0[1] == v@[a as int + 1]);
                    }
                    let (a2, b2) = trim_indices(&v, a + 2, b);
                    proof {
                        let t0 = trim(s@);
                        assert(t0.skip(2) =~= v@.subrange(a as int + 2, b as int));
                    }
                    let out = string_of_range(&v, a2, b2);
                    return Some(out);
                } else {
                    proof {
                        let t0 = trim(s@);
                        assert(t0 == v@.subrange(a as int, b as int));
                        if t0.len() >= 2 {
                            assert(t0[0] == v@[a as int]);
                            assert(t0[1] == v@[a as int + 1]);
                        }
                        assert(annotation_of(s@) is None);
                    }
                }
            },
            _ => {},
        }
    }
}

// ---------------------------------------------------------------------------
// The specification of the parser
// ---------------------------------------------------------------------------
/// How parsing can fail.
pub enum ParseFail {
    /// A token that cannot start a `term'`.
    Unexpected(TokenView),
    /// An identifier was required (after `\` or `where`).
    ExpectedIdent(TokenView),
    /// A specific token was required.
    Expected(TokenView, TokenView),
    /// The input ended inside parentheses.
    UnclosedParen,
    /// Tokens remained after the program.
    Trailing(TokenView),
}

/// The message carried by the syntax error for each parse failure.
pub open spec fn spec_parse_message(f: ParseFail) -> Seq<char> {
    match f {
        ParseFail::Unexpected(t) => "unexpected token \""@ + spec_token_text(t) + seq!['"'],
        ParseFail::ExpectedIdent(t) => "expected an identifier but got \""@ + spec_token_text(t)
            + seq!['"'],
        ParseFail::Expected(w, t) => "expected \""@ + spec_token_text(w) + "\" but got \""@
            + spec_token_text(t) + seq!['"'],
        ParseFail::UnclosedParen => "unclosed parenthesis"@,
        ParseFail::Trailing(t) => "unexpected trailing token \""@ + spec_token_text(t) + seq!['"'],
    }
}

/// The token at position `i`, or `End` past the end.
pub open spec fn tok_at(s: Seq<TokenView>, i: nat) -> TokenView {
    if i < s.len() {
        s[i as int]
    } else {
        TokenView::End
    }
}

/// The position after consuming one token at `i`.
pub open spec fn adv(s: Seq<TokenView>, i: nat) -> nat {
    if i < s.len() {
        i + 1
    } else {
        i
    }
}

/// A token that can start a `term'`.
pub open spec fn is_term_start(t: TokenView) -> bool {
    t is Lambda || t is Ident || t is Lpar
}

/// Parses one `term'` at position `i`: an abstraction, a variable, or a
/// parenthesized term.  Returns the result and the position after the tokens
/// consumed, which advances even on failure (the parenthesis rule reads on
/// after a failed inner term, as `spec_parse_eprime`'s `Lpar` case shows).
pub open spec fn spec_parse_eprime(s: Seq<TokenView>, i: nat) -> (Result<TermView, ParseFail>, nat)
    decreases s.len() - i, 0int,
{
    let t = tok_at(s, i);
    match t {
        TokenView::Lambda => {
            let i1 = (i + 1) as nat;
            let t2 = tok_at(s, i1);
            let i2 = adv(s, i1);
            match t2 {
                TokenView::Ident(x) => {
                    let t3 = tok_at(s, i2);
                    let i3 = adv(s, i2);
                    if t3 is Dot {
                        if i < i3 && i3 <= s.len() {
                            let (r, j) = spec_parse_e(s, i3);
                            match r {
                                Ok(b) => (Ok(TermView::Fun(x, Box::new(b))), j),
                                Err(f) => (Err(f), j),
                            }
                        } else {
                            (Err(ParseFail::UnclosedParen), i3)
                        }
                    } else {
                        (Err(ParseFail::Expected(TokenView::Dot, t3)), i3)
                    }
                },
                _ => (Err(ParseFail::ExpectedIdent(t2)), i2),
            }
        },
        TokenView::Ident(x) => (Ok(TermView::Var(x)), (i + 1) as nat),
        TokenView::Lpar => {
            let i1 = (i + 1) as nat;
            if i < i1 && i1 <= s.len() {
                let (r, j) = spec_parse_e(s, i1);
                let t2 = tok_at(s, j);
                let j2 = adv(s, j);
                match t2 {
                    TokenView::Rpar => (r, j2),
                    TokenView::End => (Err(ParseFail::UnclosedParen), j2),
                    _ => (Err(ParseFail::Expected(TokenView::Rpar, t2)), j2),
                }
            } else {
                (Err(ParseFail::UnclosedParen), i1)
            }
        },
        _ => (Err(ParseFail::Unexpected(t)), i),
    }
}

/// Parses a full `term` at position `i`: one `term'`, then as many more as
/// the lookahead allows, folded into left-nested applications.
///
/// The position guards on the recursive calls keep the definition
/// well-founded; they always hold, as `lemma_parse_eprime_pos` and its
/// companions show, so the error branches under them never bind.
pub open spec fn spec_parse_e(s: Seq<TokenView>, i: nat) -> (Result<TermView, ParseFail>, nat)
    decreases s.len() - i, 2int,
{
    let (r, j) = spec_parse_eprime(s, i);
    match r {
        Ok(e) => if i < j && j <= s.len() {
            spec_parse_e_loop(s, j, e)
        } else {
            (Err(ParseFail::UnclosedParen), j)
        },
        Err(f) => (Err(f), j),
    }
}

/// The application-folding loop of `spec_parse_e`, with `e` parsed so far.
pub open spec fn spec_parse_e_loop(s: Seq<TokenView>, i: nat, e: TermView) -> (
    Result<TermView, ParseFail>,
    nat,
)
    decreases s.len() - i, 1int,
{
    if is_term_start(tok_at(s, i)) {
        let (r, j) = spec_parse_eprime(s, i);
        match r {
            Ok(e2) => if i < j && j <= s.len() {
                spec_parse_e_loop(s, j, TermView::App(Box::new(e), Box::new(e2)))
            } else {
                (Err(ParseFail::UnclosedParen), j)
            },
            Err(f) => (Err(f), j),
        }
    } else {
        (Ok(e), i)
    }
}

/// Parses one `where IDENT = term` declaration at position `i`.
pub open spec fn spec_parse_decl(s: Seq<TokenView>, i: nat) -> (
    Result<(Seq<char>, TermView), ParseFail>,
    nat,
)
    decreases s.len() - i, 0int,
{
    let t1 = tok_at(s, i);
    let i1 = adv(s, i);
    if !(t1 is Where) {
        (Err(ParseFail::Expected(TokenView::Where, t1)), i1)
    } else {
        let t2 = tok_at(s, i1);
        let i2 = adv(s, i1);
        match t2 {
            TokenView::Ident(x) => {
                let t3 = tok_at(s, i2);
                let i3 = adv(s, i2);
                if t3 is Def {
                    if i < i3 && i3 <= s.len() {
                        let (r, j) = spec_parse_e(s, i3);
                        match r {
                            Ok(e) => (Ok((x, e)), j),
                            Err(f) => (Err(f), j),
                        }
                    } else {
                        (Err(ParseFail::UnclosedParen), i3)
                    }
                } else {
                    (Err(ParseFail::Expected(TokenView::Def, t3)), i3)
                }
            },
            _ => (Err(ParseFail::ExpectedIdent(t2)), i2),
        }
    }
}

/// Parses the trailing declaration list at position `i`, in textual order.
pub open spec fn spec_parse_decls(s: Seq<TokenView>, i: nat) -> (
    Result<Seq<(Seq<char>, TermView)>, ParseFail>,
    nat,
)
    decreases s.len() - i, 1int,
{
    if tok_at(s, i) is Where {
        let (r, j) = spec_parse_decl(s, i);
        match r {
            Ok(d) => if i < j && j <= s.len() {
                let (rs, k) = spec_parse_decls(s, j);
                match rs {
                    Ok(ds) => (Ok(seq![d] + ds), k),
                    Err(f) => (Err(f), k),
                }
            } else {
                (Err(ParseFail::UnclosedParen), j)
            },
            Err(f) => (Err(f), j),
        }
    } else {
        (Ok(Seq::empty()), i)
    }
}

// ---------------------------------------------------------------------------
// Declaration inlining (the desugarer)
// ---------------------------------------------------------------------------
/// Looks a name up among resolved declarations; the latest entry wins.
pub open spec fn decls_lookup(ds: Seq<(Seq<char>, TermView)>, x: Seq<char>) -> Option<TermView>
    decreases ds.len(),
{
    if ds.len() == 0 {
        None
    } else if ds.last().0 == x {
        Some(ds.last().1)
    } else {
        decls_lookup(ds.drop_last(), x)
    }
}

/// Substitutes resolved declarations for free occurrences of their names.
/// A name bound by an enclosing abstraction shadows any declaration of the
/// same name and is left untouched.
pub open spec fn spec_inline(
    t: TermView,
    ds: Seq<(Seq<char>, TermView)>,
    bound: Seq<Seq<char>>,
) -> TermView
    decreases t,
{
    match t {
        TermView::Var(x) => if bound.contains(x) {
            TermView::Var(x)
        } else {
            match decls_lookup(ds, x) {
                Some(e) => e,
                None => TermView::Var(x),
            }
        },
        TermView::Fun(x, b) => TermView::Fun(x, Box::new(spec_inline(*b, ds, bound.push(x)))),
        TermView::App(f, a) => TermView::App(
            Box::new(spec_inline(*f, ds, bound)),
            Box::new(spec_inline(*a, ds, bound)),
        ),
    }
}

/// Resolves declarations in reverse textual order: each declaration's body is
/// inlined using the declarations after it, so a declaration may use a later
/// name's meaning but cannot refer to itself.
pub open spec fn spec_resolve_decls(decls: Seq<(Seq<char>, TermView)>) -> Seq<
    (Seq<char>, TermView),
>
    decreases decls.len(),
{
    if decls.len() == 0 {
        Seq::empty()
    } else {
        let rest = spec_resolve_decls(decls.drop_first());
        rest.push((decls[0].0, spec_inline(decls[0].1, rest, Seq::empty())))
    }
}

/// The program a token stream parses to: the main term with all declarations
/// inlined.  This is the mathematical contract of `parse`.
pub open spec fn spec_parse(s: Seq<TokenView>) -> Result<TermView, ParseFail> {
    let (r, i) = spec_parse_e(s, 0);
    match r {
        Ok(e) => {
            let (rd, j) = spec_parse_decls(s, i);
            match rd {
                Ok(ds) => {
                    let t = tok_at(s, j);
                    if t is End {
                        Ok(spec_inline(e, spec_resolve_decls(ds), Seq::empty()))
                    } else {
                        Err(ParseFail::Trailing(t))
                    }
                },
                Err(f) => Err(f),
            }
        },
        Err(f) => Err(f),
    }
}

// ---------------------------------------------------------------------------
// Position lemmas: the parser moves forward and stays in bounds
// ---------------------------------------------------------------------------
pub proof fn lemma_parse_eprime_pos(s: Seq<TokenView>, i: nat)
    requires
        i <= s.len(),
    ensures
        i <= spec_parse_eprime(s, i).1 <= s.len(),
        spec_parse_eprime(s, i).0 is Ok ==> i < spec_parse_eprime(s, i).1,
    decreases s.len() - i, 0int,
{
    let t = tok_at(s, i);
    match t {
        TokenView::Lambda => {
            let i1 = (i + 1) as nat;
            let t2 = tok_at(s, i1);
            let i2 = adv(s, i1);
            match t2 {
                TokenView::Ident(_) => {
                    let t3 = tok_at(s, i2);
                    let i3 = adv(s, i2);
                    if t3 is Dot {
                        lemma_parse_e_pos(s, i3);
                    }
                },
                _ => {},
            }
        },
        TokenView::Lpar => {
            let i1 = (i + 1) as nat;
            lemma_parse_e_pos(s, i1);
        },
        _ => {},
    }
}

pub proof fn lemma_parse_e_pos(s: Seq<TokenView>, i: nat)
    requires
        i <= s.len(),
    ensures
        i <= spec_parse_e(s, i).1 <= s.len(),
        spec_parse_e(s, i).0 is Ok ==> i < spec_parse_e(s, i).1,
    decreases s.len() - i, 2int,
{
    lemma_parse_eprime_pos(s, i);
    let (r, j) = spec_parse_eprime(s, i);
    match r {
        Ok(e) => {
            lemma_parse_e_loop_pos(s, j, e);
        },
        Err(_) => {},
    }
}

pub proof fn lemma_parse_e_loop_pos(s: Seq<TokenView>, i: nat, e: TermView)
    requires
        i <= s.len(),
    ensures
        i <= spec_parse_e_loop(s, i, e).1 <= s.len(),
    decreases s.len() - i, 1int,
{
    if is_term_start(tok_at(s, i)) {
        lemma_parse_eprime_pos(s, i);
        let (r, j) = spec_parse_eprime(s, i);
        match r {
            Ok(e2) => {
                lemma_parse_e_loop_pos(s, j, TermView::App(Box::new(e), Box::new(e2)));
            },
            Err(_) => {},
        }
    }
}

pub proof fn lemma_parse_decl_pos(s: Seq<TokenView>, i: nat)
    requires
        i <= s.len(),
    ensures
        i <= spec_parse_decl(s, i).1 <= s.len(),
        spec_parse_decl(s, i).0 is Ok ==> i < spec_parse_decl(s, i).1,
    decreases s.len() - i, 0int,
{
    let t1 = tok_at(s, i);
    if t1 is Where {
        let i1 = adv(s, i);
        let t2 = tok_at(s, i1);
        let i2 = adv(s, i1);
        match t2 {
            TokenView::Ident(_) => {
                let t3 = tok_at(s, i2);
                let i3 = adv(s, i2);
                if t3 is Def {
                    lemma_parse_e_pos(s, i3);
                }
            },
            _ => {},
        }
    }
}

pub proof fn lemma_parse_decls_pos(s: Seq<TokenView>, i: nat)
    requires
        i <= s.len(),
    ensures
        i <= spec_parse_decls(s, i).1 <= s.len(),
    decreases s.len() - i, 1int,
{
    if tok_at(s, i) is Where {
        lemma_parse_decl_pos(s, i);
        let (r, j) = spec_parse_decl(s, i);
        match r {
            Ok(_) => {
                lemma_parse_decls_pos(s, j);
            },
            Err(_) => {},
        }
    }
}

// ---------------------------------------------------------------------------
// The executable parser
// ---------------------------------------------------------------------------
/// The views of a sequence of declaration pairs.
pub open spec fn pairs_view(s: Seq<(String, Box<Expr>)>) -> Seq<(Seq<char>, TermView)> {
    s.map_values(|p: (String, Box<Expr>)| (p.0@, p.1@))
}

/// The views of a stack of binder names.
pub open spec fn names_view(s: Seq<String>) -> Seq<Seq<char>> {
    s.map_values(|x: String| x@)
}

/// The token at `i`, or `End` past the end of the vector.
fn peek_at<'a>(toks: &'a Vec<Token>, i: usize) -> (t: &'a Token)
    ensures
        t@ == tok_at(tokens_view(toks@), i as nat),
{
    if i < toks.len() {
        &toks[i]
    } else {
        &Token::End
    }
}

/// Whether the token at `i` can start a `term'`.
fn term_starts_at(toks: &Vec<Token>, i: usize) -> (r: bool)
    ensures
        r == is_term_start(tok_at(tokens_view(toks@), i as nat)),
{
    match peek_at(toks, i) {
        Token::Lambda => true,
        Token::Ident(_) => true,
        Token::Lpar => true,
        _ => false,
    }
}

/// The syntax error for a parse failure, with its message.
fn syntax_fail(f: &ParseFailExec) -> (r: Error)
    ensures
        r matches Error::SyntaxError(m) && m@ == spec_parse_message(f@),
{
    match f {
        ParseFailExec::Unexpected(t) => {
            let mut m = "unexpected token \"".to_owned();
            vstd::string::StringExecFns::append(&mut m, token_text(t).as_str());
            m.push('"');
            proof {
                assert(m@ =~= spec_parse_message(f@));
            }
            Error::SyntaxError(m)
        },
        ParseFailExec::ExpectedIdent(t) => {
            let mut m = "expected an identifier but got \"".to_owned();
            vstd::string::StringExecFns::append(&mut m, token_text(t).as_str());
            m.push('"');
            proof {
                assert(m@ =~= spec_parse_message(f@));
            }
            Error::SyntaxError(m)
        },
        ParseFailExec::Expected(w, t) => {
            let mut m = "expected \"".to_owned();
            vstd::string::StringExecFns::append(&mut m, token_text(w).as_str());
            vstd::string::StringExecFns::append(&mut m, "\" but got \"");
            vstd::string::StringExecFns::append(&mut m, token_text(t).as_str());
            m.push('"');
            proof {
                assert(m@ =~= spec_parse_message(f@));
            }
            Error::SyntaxError(m)
        },
        ParseFailExec::UnclosedParen => Error::SyntaxError("unclosed parenthesis".to_owned()),
        ParseFailExec::Trailing(t) => {
            let mut m = "unexpected trailing token \"".to_owned();
            vstd::string::StringExecFns::append(&mut m, token_text(t).as_str());
            m.push('"');
            proof {
                assert(m@ =~= spec_parse_message(f@));
            }
            Error::SyntaxError(m)
        },
    }
}

/// The executable form of a parse failure, carrying tokens rather than views.
pub enum ParseFailExec {
    Unexpected(Token),
    ExpectedIdent(Token),
    Expected(Token, Token),
    UnclosedParen,
    Trailing(Token),
}

impl View for ParseFailExec {
    type V = ParseFail;

    open spec fn view(&self) -> ParseFail {
        match self {
            ParseFailExec::Unexpected(t) => ParseFail::Unexpected(t@),
            ParseFailExec::ExpectedIdent(t) => ParseFail::ExpectedIdent(t@),
            ParseFailExec::Expected(w, t) => ParseFail::Expected(w@, t@),
            ParseFailExec::UnclosedParen => ParseFail::UnclosedParen,
            ParseFailExec::Trailing(t) => ParseFail::Trailing(t@),
        }
    }
}

/// Parses one `term'` starting at `i`.
fn parse_eprime(toks: &Vec<Token>, i: usize) -> (r: (Result<Box<Expr>, Error>, usize))
    requires
        i <= toks@.len(),
    ensures
        ({
            let (sr, sj) = spec_parse_eprime(tokens_view(toks@), i as nat);
            &&& r.1 == sj
            &&& match sr {
                Ok(t) => r.0 matches Ok(e) && e@ == t,
                Err(f) => r.0 matches Err(err) && err matches Error::SyntaxError(m) && m@
                    == spec_parse_message(f),
            }
        }),
    decreases toks@.len() - i, 1int,
{
    let t = peek_at(toks, i);
    match t {
        Token::Lambda => parse_fun(toks, i),
        Token::Ident(_) => parse_var(toks, i),
        Token::Lpar => parse_parenthesized(toks, i),
        _ => {
            let bad = peek_at(toks, i).clone();
            (Err(syntax_fail(&ParseFailExec::Unexpected(bad))), i)
        },
    }
}

/// Parses an abstraction `\x.term` starting at `i`.
fn parse_fun(toks: &Vec<Token>, i: usize) -> (r: (Result<Box<Expr>, Error>, usize))
    requires
        i <= toks@.len(),
        tok_at(tokens_view(toks@), i as nat) is Lambda,
    ensures
        ({
            let (sr, sj) = spec_parse_eprime(tokens_view(toks@), i as nat);
            &&& r.1 == sj
            &&& match sr {
                Ok(t) => r.0 matches Ok(e) && e@ == t,
                Err(f) => r.0 matches Err(err) && err matches Error::SyntaxError(m) && m@
                    == spec_parse_message(f),
            }
        }),
    decreases toks@.len() - i, 0int,
{
    let ghost s = tokens_view(toks@);
    proof {
        assert(toks@.len() == toks.len());
        assert(i < toks@.len());
        assert(tok_at(s, i as nat) == toks@[i as int]@);
    }
    // the Lambda token itself
    let i1 = i + 1;
    // the parameter name
    let x: String;
    let i2: usize;
    if i1 < toks.len() {
        proof {
            assert(tok_at(s, i1 as nat) == toks@[i1 as int]@);
        }
        match &toks[i1] {
            Token::Ident(name) => {
                x = name.clone();
                i2 = i1 + 1;
            },
            other => {
                let bad = other.clone();
                return (Err(syntax_fail(&ParseFailExec::ExpectedIdent(bad))), i1 + 1);
            },
        }
    } else {
        return (Err(syntax_fail(&ParseFailExec::ExpectedIdent(Token::End))), i1);
    }
    // the dot
    let i3: usize;
    if i2 < toks.len() {
        proof {
            assert(tok_at(s, i2 as nat) == toks@[i2 as int]@);
        }
        match &toks[i2] {
            Token::Dot => {
                i3 = i2 + 1;
            },
            other => {
                let bad = other.clone();
                return (Err(syntax_fail(&ParseFailExec::Expected(Token::Dot, bad))), i2 + 1);
            },
        }
    } else {
        return (Err(syntax_fail(&ParseFailExec::Expected(Token::Dot, Token::End))), i2);
    }
    // the body
    proof {
        lemma_parse_e_pos(s, i3 as nat);
    }
    let (rb, j) = parse_e(toks, i3);
    match rb {
        Ok(b) => (Ok(Box::new(Expr::Fun(x, b))), j),
        Err(err) => (Err(err), j),
    }
}

/// Parses a variable starting at `i`.
fn parse_var(toks: &Vec<Token>, i: usize) -> (r: (Result<Box<Expr>, Error>, usize))
    requires
        i <= toks@.len(),
        tok_at(tokens_view(toks@), i as nat) is Ident,
    ensures
        ({
            let (sr, sj) = spec_parse_eprime(tokens_view(toks@), i as nat);
            &&& r.1 == sj
            &&& match sr {
                Ok(t) => r.0 matches Ok(e) && e@ == t,
                Err(f) => r.0 matches Err(err) && err matches Error::SyntaxError(m) && m@
                    == spec_parse_message(f),
            }
        }),
{
    proof {
        assert(toks@.len() == toks.len());
        assert(i < toks@.len());
        assert(tok_at(tokens_view(toks@), i as nat) == toks@[i as int]@);
    }
    match &toks[i] {
        Token::Ident(name) => (Ok(Box::new(Expr::Var(name.clone()))), i + 1),
        _ => {
            proof {
                assert(false);
            }
            (Err(Error::SyntaxError(String::new())), i)
        },
    }
}

/// Parses a parenthesized term starting at `i`.  The closing token is read
/// even when the inner term failed, and an end of input there overrides the
/// inner failure with "unclosed parenthesis".
fn parse_parenthesized(toks: &Vec<Token>, i: usize) -> (r: (Result<Box<Expr>, Error>, usize))
    requires
        i <= toks@.len(),
        tok_at(tokens_view(toks@), i as nat) is Lpar,
    ensures
        ({
            let (sr, sj) = spec_parse_eprime(tokens_view(toks@), i as nat);
            &&& r.1 == sj
            &&& match sr {
                Ok(t) => r.0 matches Ok(e) && e@ == t,
                Err(f) => r.0 matches Err(err) && err matches Error::SyntaxError(m) && m@
                    == spec_parse_message(f),
            }
        }),
    decreases toks@.len() - i, 0int,
{
    let ghost s = tokens_view(toks@);
    proof {
        assert(toks@.len() == toks.len());
        assert(i < toks@.len());
    }
    let i1 = i + 1;
    proof {
        lemma_parse_e_pos(s, i1 as nat);
    }
    let (re, j) = parse_e(toks, i1);
    if j < toks.len() {
        proof {
            assert(tok_at(s, j as nat) == toks@[j as int]@);
        }
        match &toks[j] {
            Token::Rpar => (re, j + 1),
            Token::End => (Err(syntax_fail(&ParseFailExec::UnclosedParen)), j + 1),
            other => {
                let bad = other.clone();
                (Err(syntax_fail(&ParseFailExec::Expected(Token::Rpar, bad))), j + 1)
            },
        }
    } else {
        (Err(syntax_fail(&ParseFailExec::UnclosedParen)), j)
    }
}

/// Parses a full `term` starting at `i`: left-associated applications of
/// `term'`s.
fn parse_e(toks: &Vec<Token>, i: usize) -> (r: (Result<Box<Expr>, Error>, usize))
    requires
        i <= toks@.len(),
    ensures
        ({
            let (sr, sj) = spec_parse_e(tokens_view(toks@), i as nat);
            &&& r.1 == sj
            &&& match sr {
                Ok(t) => r.0 matches Ok(e) && e@ == t,
                Err(f) => r.0 matches Err(err) && err matches Error::SyntaxError(m) && m@
                    == spec_parse_message(f),
            }
        }),
    decreases toks@.len() - i, 2int,
{
    let ghost s = tokens_view(toks@);
    proof {
        lemma_parse_eprime_pos(s, i as nat);
    }
    let (r0, mut j) = parse_eprime(toks, i);
    let mut e = match r0 {
        Ok(e) => e,
        Err(err) => {
            return (Err(err), j);
        },
    };
    while term_starts_at(toks, j)
        invariant
            i as nat <= j as nat <= s.len(),
            s == tokens_view(toks@),
            spec_parse_e(s, i as nat) == spec_parse_e_loop(s, j as nat, e@),
        decreases s.len() - j,
    {
        proof {
            lemma_parse_eprime_pos(s, j as nat);
        }
        let (r2, j2) = parse_eprime(toks, j);
        match r2 {
            Ok(e2) => {
                e = Box::new(Expr::App(e, e2));
                j = j2;
            },
            Err(err) => {
                return (Err(err), j2);
            },
        }
    }
    (Ok(e), j)
}

/// Parses the trailing declaration list starting at `i`.
fn parse_decls(toks: &Vec<Token>, i: usize) -> (r: (
    Result<Vec<(String, Box<Expr>)>, Error>,
    usize,
))
    requires
        i <= toks@.len(),
    ensures
        ({
            let (sr, sj) = spec_parse_decls(tokens_view(toks@), i as nat);
            &&& r.1 == sj
            &&& match sr {
                Ok(ds) => r.0 matches Ok(out) && pairs_view(out@) == ds,
                Err(f) => r.0 matches Err(err) && err matches Error::SyntaxError(m) && m@
                    == spec_parse_message(f),
            }
        }),
    decreases toks@.len() - i, 1int,
{
    let ghost s = tokens_view(toks@);
    let mut out: Vec<(String, Box<Expr>)> = Vec::new();
    let mut j = i;
    proof {
        assert(pairs_view(out@) =~= Seq::<(Seq<char>, TermView)>::empty());
    }
    while is_where_at(toks, j)
        invariant
            i as nat <= j as nat <= s.len(),
            s == tokens_view(toks@),
            ({
                let (sr, sj) = spec_parse_decls(s, i as nat);
                let (sr2, sj2) = spec_parse_decls(s, j as nat);
                sj == sj2 && match sr2 {
                    Ok(ds2) => sr matches Ok(ds) && ds == pairs_view(out@) + ds2,
                    Err(f2) => sr matches Err(f) && f == f2,
                }
            }),
        decreases s.len() - j,
    {
        proof {
            lemma_parse_decl_pos(s, j as nat);
        }
        let (rd, j2) = parse_decl(toks, j);
        match rd {
            Ok(d) => {
                let ghost pre = pairs_view(out@);
                let ghost dv = (d.0@, d.1@);
                out.push(d);
                proof {
                    assert(pairs_view(out@) =~= pre.push(dv));
                    let (sr2, sj2) = spec_parse_decls(s, j as nat);
                    let (sr3, sj3) = spec_parse_decls(s, j2 as nat);
                    match sr3 {
                        Ok(ds3) => {
                            assert(pre + (seq![dv] + ds3) =~= pre.push(dv) + ds3);
                        },
                        Err(_) => {},
                    }
                }
                j = j2;
            },
            Err(err) => {
                return (Err(err), j2);
            },
        }
    }
    proof {
        let (sr2, sj2) = spec_parse_decls(s, j as nat);
        assert(sr2 == Ok::<_, ParseFail>(Seq::<(Seq<char>, TermView)>::empty()));
        assert(pairs_view(out@) + Seq::<(Seq<char>, TermView)>::empty() =~= pairs_view(out@));
    }
    (Ok(out), j)
}

/// Whether the token at `i` is the `where` keyword.
fn is_where_at(toks: &Vec<Token>, i: usize) -> (r: bool)
    ensures
        r == (tok_at(tokens_view(toks@), i as nat) is Where),
{
    match peek_at(toks, i) {
        Token::Where => true,
        _ => false,
    }
}

/// Parses one `where IDENT = term` declaration starting at `i`.
fn parse_decl(toks: &Vec<Token>, i: usize) -> (r: (Result<(String, Box<Expr>), Error>, usize))
    requires
        i <= toks@.len(),
        tok_at(tokens_view(toks@), i as nat) is Where,
    ensures
        ({
            let (sr, sj) = spec_parse_decl(tokens_view(toks@), i as nat);
            &&& r.1 == sj
            &&& match sr {
                Ok(d) => r.0 matches Ok(p) && p.0@ == d.0 && p.1@ == d.1,
                Err(f) => r.0 matches Err(err) && err matches Error::SyntaxError(m) && m@
                    == spec_parse_message(f),
            }
        }),
    decreases toks@.len() - i, 0int,
{
    let ghost s = tokens_view(toks@);
    proof {
        assert(toks@.len() == toks.len());
        assert(i < toks@.len());
        assert(tok_at(s, i as nat) == toks@[i as int]@);
    }
    // the `where` keyword itself
    let i1 = i + 1;
    // the declared name
    let x: String;
    let i2: usize;
    if i1 < toks.len() {
        proof {
            assert(tok_at(s, i1 as nat) == toks@[i1 as int]@);
        }
        match &toks[i1] {
            Token::Ident(name) => {
                x = name.clone();
                i2 = i1 + 1;
            },
            other => {
                let bad = other.clone();
                return (Err(syntax_fail(&ParseFailExec::ExpectedIdent(bad))), i1 + 1);
            },
        }
    } else {
        return (Err(syntax_fail(&ParseFailExec::ExpectedIdent(Token::End))), i1);
    }
    // the definition marker
    let i3: usize;
    if i2 < toks.len() {
        proof {
            assert(tok_at(s, i2 as nat) == toks@[i2 as int]@);
        }
        match &toks[i2] {
            Token::Def => {
                i3 = i2 + 1;
            },
            other => {
                let bad = other.clone();
                return (Err(syntax_fail(&ParseFailExec::Expected(Token::Def, bad))), i2 + 1);
            },
        }
    } else {
        return (Err(syntax_fail(&ParseFailExec::Expected(Token::Def, Token::End))), i2);
    }
    // the right-hand side
    proof {
        lemma_parse_e_pos(s, i3 as nat);
    }
    let (rb, j) = parse_e(toks, i3);
    match rb {
        Ok(b) => (Ok((x, b)), j),
        Err(err) => (Err(err), j),
    }
}

/// Whether a name is on the stack of enclosing binders.
pub(crate) fn stack_contains(stack: &Vec<String>, x: &String) -> (r: bool)
    ensures
        r == names_view(stack@).contains(x@),
{
    let n = stack.len();
    let mut i: usize = 0;
    while i < n
        invariant
            n == stack@.len(),
            i <= n,
            forall|k: int| 0 <= k < i ==> stack@[k]@ != x@,
        decreases n - i,
    {
        if String::eq(&stack[i], x) {
            proof {
                assert(names_view(stack@)[i as int] == x@);
                assert(names_view(stack@).contains(x@));
            }
            return true;
        }
        i = i + 1;
    }
    proof {
        if names_view(stack@).contains(x@) {
            let k = choose|k: int| 0 <= k < names_view(stack@).len() && names_view(stack@)[k]
                == x@;
            assert(stack@[k]@ == x@);
        }
    }
    false
}

/// Looks a name up among resolved declarations; the latest entry wins.
fn decls_get(decls: &Vec<(String, Box<Expr>)>, x: &String) -> (r: Option<Box<Expr>>)
    ensures
        match decls_lookup(pairs_view(decls@), x@) {
            Some(t) => r matches Some(e) && e@ == t,
            None => r is None,
        },
{
    let mut k = decls.len();
    proof {
        assert(pairs_view(decls@).take(decls@.len() as int) =~= pairs_view(decls@));
    }
    while k > 0
        invariant
            k <= decls@.len(),
            decls_lookup(pairs_view(decls@), x@) == decls_lookup(
                pairs_view(decls@).take(k as int),
                x@,
            ),
        decreases k,
    {
        let ghost sub = pairs_view(decls@).take(k as int);
        proof {
            assert(sub.last() == pairs_view(decls@)[k as int - 1]);
            assert(sub.drop_last() =~= pairs_view(decls@).take(k as int - 1));
        }
        if String::eq(&decls[k - 1].0, x) {
            let t = &decls[k - 1].1;
            return Some(Box::new((**t).clone()));
        }
        k = k - 1;
    }
    proof {
        assert(pairs_view(decls@).take(0).len() == 0);
    }
    None
}

/// Rebuilds a term with declarations substituted for their free occurrences;
/// `stack` holds the binders enclosing the current position, whose names
/// shadow declarations.
fn inline_at(e: &Expr, decls: &Vec<(String, Box<Expr>)>, stack: &mut Vec<String>) -> (r: Box<Expr>)
    ensures
        final(stack)@ == old(stack)@,
        r@ == spec_inline(e@, pairs_view(decls@), names_view(old(stack)@)),
    decreases e,
{
    match e {
        Expr::Var(x) => {
            if stack_contains(stack, x) {
                Box::new(Expr::Var(x.clone()))
            } else {
                match decls_get(decls, x) {
                    Some(t) => t,
                    None => Box::new(Expr::Var(x.clone())),
                }
            }
        },
        Expr::Fun(x, body) => {
            stack.push(x.clone());
            proof {
                assert(names_view(stack@) =~= names_view(old(stack)@).push(x@));
            }
            let b = inline_at(body, decls, stack);
            let popped = stack.pop();
            proof {
                assert(stack@ =~= old(stack)@);
            }
            Box::new(Expr::Fun(x.clone(), b))
        },
        Expr::App(f, a) => {
            let nf = inline_at(f, decls, stack);
            let na = inline_at(a, decls, stack);
            Box::new(Expr::App(nf, na))
        },
    }
}

/// Substitutes resolved declarations into a term, honouring binder shadowing.
fn inline(e: &Expr, decls: &Vec<(String, Box<Expr>)>) -> (r: Box<Expr>)
    ensures
        r@ == spec_inline(e@, pairs_view(decls@), Seq::empty()),
{
    let mut stack: Vec<String> = Vec::new();
    proof {
        assert(names_view(stack@) =~= Seq::<Seq<char>>::empty());
    }
    inline_at(e, decls, &mut stack)
}

/// Resolves the declarations in reverse textual order, then substitutes them
/// into the main term.
fn inline_decls(e: &Expr, decls: &Vec<(String, Box<Expr>)>) -> (r: Box<Expr>)
    ensures
        r@ == spec_inline(e@, spec_resolve_decls(pairs_view(decls@)), Seq::empty()),
{
    let mut resolved: Vec<(String, Box<Expr>)> = Vec::new();
    let mut k = decls.len();
    proof {
        assert(pairs_view(decls@).skip(decls@.len() as int).len() == 0);
        assert(pairs_view(resolved@) =~= spec_resolve_decls(
            pairs_view(decls@).skip(decls@.len() as int),
        ));
    }
    while k > 0
        invariant
            k <= decls@.len(),
            pairs_view(resolved@) == spec_resolve_decls(pairs_view(decls@).skip(k as int)),
        decreases k,
    {
        let ghost sub = pairs_view(decls@).skip(k as int - 1);
        proof {
            assert(sub[0] == pairs_view(decls@)[k as int - 1]);
            assert(sub.drop_first() =~= pairs_view(decls@).skip(k as int));
        }
        let name = decls[k - 1].0.clone();
        let body = &decls[k - 1].1;
        let t = inline(body, &resolved);
        let ghost pre = pairs_view(resolved@);
        resolved.push((name, t));
        proof {
            assert(pairs_view(resolved@) =~= pre.push(
                (pairs_view(decls@)[k as int - 1].0, spec_inline(
                    pairs_view(decls@)[k as int - 1].1,
                    pre,
                    Seq::empty(),
                )),
            ));
        }
        k = k - 1;
    }
    proof {
        assert(pairs_view(decls@).skip(0) =~= pairs_view(decls@));
    }
    inline(e, &resolved)
}

/// Parses a whole program from the stream: a term, then any `where`
/// declarations, which are inlined into it; fails if anything else follows.
/// The stream is consumed entirely.
pub fn parse(tokens: &mut TokenStream) -> (r: Result<Box<Expr>, Error>)
    ensures
        final(tokens)@.len() == 0,
        match spec_parse(old(tokens)@) {
            Ok(t) => r matches Ok(e) && e@ == t,
            Err(f) => r matches Err(err) && err matches Error::SyntaxError(m) && m@
                == spec_parse_message(f),
        },
{
    // Take the remaining tokens out of the stream.
    let mut toks: Vec<Token> = Vec::new();
    proof {
        assert(toks@ + tokens.tokens@ =~= old(tokens).tokens@);
    }
    while tokens.tokens.len() > 0
        invariant
            toks@ + tokens.tokens@ == old(tokens).tokens@,
        decreases tokens.tokens@.len(),
    {
        match tokens.tokens.pop_front() {
            Some(t) => {
                toks.push(t);
                proof {
                    assert(toks@ + tokens.tokens@ =~= old(tokens).tokens@);
                }
            },
            None => {},
        }
    }
    proof {
        assert(toks@ + tokens.tokens@ =~= toks@);
        assert(toks@ =~= old(tokens).tokens@);
        assert(tokens_view(toks@) == old(tokens)@);
    }
    let ghost s = tokens_view(toks@);
    proof {
        lemma_parse_e_pos(s, 0);
    }
    let (r0, i) = parse_e(&toks, 0);
    let e = match r0 {
        Ok(e) => e,
        Err(err) => {
            return Err(err);
        },
    };
    proof {
        lemma_parse_decls_pos(s, i as nat);
    }
    let (rd, j) = parse_decls(&toks, i);
    let ds = match rd {
        Ok(ds) => ds,
        Err(err) => {
            return Err(err);
        },
    };
    let trailing: bool;
    match peek_at(&toks, j) {
        Token::End => {
            trailing = false;
        },
        _ => {
            trailing = true;
        },
    }
    if trailing {
        let bad = peek_at(&toks, j).clone();
        return Err(syntax_fail(&ParseFailExec::Trailing(bad)));
    }
    Ok(inline_decls(&e, &ds))
}

} // verus!

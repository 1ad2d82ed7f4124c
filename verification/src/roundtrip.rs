//! The round-trip law: printing a term whose identifiers are valid and
//! lexing and parsing the result gives the term back.
//!
//! `lemma_lex_print` shows the lexer turns a printed term into exactly its
//! token sequence (`print_tokens`); `lemma_parse_print` shows the parser
//! turns that token sequence back into the term; `lemma_round_trip` puts the
//! two together.  Since `lex` and `parse` are proved to compute `spec_lex`
//! and `spec_parse`, the law holds of the executable pipeline as well.

use vstd::prelude::*;

use crate::chars::is_whitespace_char;
use crate::chars::spec_ident_char;
use crate::emit::spec_print;
use crate::lex::ident_run;
use crate::lex::lex_concat;
use crate::lex::lex_cons;
use crate::lex::spec_lex;
use crate::lex::LexFail;
use crate::lex::TokenView;
use crate::parse::decls_lookup;
use crate::parse::is_term_start;
use crate::parse::spec_inline;
use crate::parse::spec_parse;
use crate::parse::spec_parse_decls;
use crate::parse::spec_parse_e;
use crate::parse::spec_parse_e_loop;
use crate::parse::spec_parse_eprime;
use crate::parse::spec_resolve_decls;
use crate::parse::spec_valid_ident;
use crate::parse::spec_valid_term;
use crate::parse::tok_at;
use crate::parse::trim;
use crate::parse::trim_end;
use crate::parse::trim_start;
use crate::parse::ParseFail;
use crate::parse::TermView;

verus! {

// ---------------------------------------------------------------------------
// The token sequence of a printed term
// ---------------------------------------------------------------------------
/// The tokens the canonical rendering of a term lexes to.
pub open spec fn print_tokens(t: TermView) -> Seq<TokenView>
    decreases t,
{
    match t {
        TermView::Var(x) => seq![TokenView::Ident(x)],
        TermView::Fun(x, b) => seq![TokenView::Lambda, TokenView::Ident(x), TokenView::Dot]
            + print_tokens(*b),
        TermView::App(f, a) => {
            let lhs = if *f is Fun {
                seq![TokenView::Lpar] + print_tokens(*f) + seq![TokenView::Rpar]
            } else {
                print_tokens(*f)
            };
            let rhs = if *a is Var {
                print_tokens(*a)
            } else {
                seq![TokenView::Lpar] + print_tokens(*a) + seq![TokenView::Rpar]
            };
            lhs + rhs
        },
    }
}

// ---------------------------------------------------------------------------
// Small facts about identifiers
// ---------------------------------------------------------------------------
proof fn lemma_valid_ident_facts(x: Seq<char>)
    requires
        spec_valid_ident(x),
    ensures
        x.len() > 0,
{
    if x.len() == 0 {
        assert(trim_start(x) == x);
        assert(trim_end(x) == x);
        assert(trim(x).len() == 0);
    }
}

/// The maximal identifier run of a valid identifier followed by a
/// non-identifier character is exactly the identifier.
proof fn lemma_ident_run_prefix(x: Seq<char>, rest: Seq<char>)
    requires
        forall|i: int| 0 <= i < x.len() ==> spec_ident_char(x[i]),
        rest.len() > 0 ==> !spec_ident_char(rest[0]),
    ensures
        ident_run(x + rest) == x.len(),
    decreases x.len(),
{
    if x.len() == 0 {
        assert(x + rest =~= rest);
    } else {
        assert((x + rest)[0] == x[0]);
        assert((x + rest).drop_first() =~= x.drop_first() + rest);
        lemma_ident_run_prefix(x.drop_first(), rest);
    }
}

// ---------------------------------------------------------------------------
// Composing lexed prefixes
// ---------------------------------------------------------------------------
proof fn lemma_cons_as_concat(t: TokenView, r: Result<Seq<TokenView>, LexFail>)
    ensures
        lex_cons(t, r) == lex_concat(seq![t], r),
{
    match r {
        Ok(ts) => {
            assert(seq![t] + ts =~= seq![t] + ts);
        },
        Err(_) => {},
    }
}

proof fn lemma_concat_assoc(p1: Seq<TokenView>, p2: Seq<TokenView>, r: Result<
    Seq<TokenView>,
    LexFail,
>)
    ensures
        lex_concat(p1, lex_concat(p2, r)) == lex_concat(p1 + p2, r),
{
    match r {
        Ok(ts) => {
            assert(p1 + (p2 + ts) =~= (p1 + p2) + ts);
        },
        Err(_) => {},
    }
}

// ---------------------------------------------------------------------------
// Lexing a printed term
// ---------------------------------------------------------------------------
/// Lexing the rendering of a valid term, followed by anything that does not
/// extend its last identifier, yields its tokens followed by the lexing of
/// the rest.
#[verifier::rlimit(100)]
#[verifier::spinoff_prover]
proof fn lemma_lex_print(t: TermView, rest: Seq<char>)
    requires
        spec_valid_term(t),
        rest.len() > 0 ==> !spec_ident_char(rest[0]),
    ensures
        spec_lex(spec_print(t) + rest) == lex_concat(print_tokens(t), spec_lex(rest)),
    decreases t,
{
    match t {
        TermView::Var(x) => {
            lemma_valid_ident_facts(x);
            let s = spec_print(t) + rest;
            assert(s =~= x + rest);
            assert(s[0] == x[0]);
            lemma_ident_run_prefix(x, rest);
            assert(ident_run(s) == x.len());
            assert(s.take(x.len() as int) =~= x);
            assert(s.skip(x.len() as int) =~= rest);
            assert(spec_lex(s) == lex_cons(TokenView::Ident(x), spec_lex(rest)));
            lemma_cons_as_concat(TokenView::Ident(x), spec_lex(rest));
        },
        TermView::Fun(x, b) => {
            lemma_valid_ident_facts(x);
            let pb = spec_print(*b);
            let s = spec_print(t) + rest;
            assert(s =~= seq!['\\'] + (x + (seq!['.'] + (pb + rest))));
            assert(s[0] == '\\');
            let s1 = s.drop_first();
            assert(s1 =~= x + (seq!['.'] + (pb + rest)));
            assert(spec_lex(s) == lex_cons(TokenView::Lambda, spec_lex(s1)));
            // the identifier
            assert(s1[0] == x[0]);
            lemma_ident_run_prefix(x, seq!['.'] + (pb + rest));
            assert(ident_run(s1) == x.len());
            assert(s1.take(x.len() as int) =~= x);
            let s2 = s1.skip(x.len() as int);
            assert(s2 =~= seq!['.'] + (pb + rest));
            assert(spec_lex(s1) == lex_cons(TokenView::Ident(x), spec_lex(s2)));
            // the dot
            assert(s2[0] == '.');
            assert(s2.drop_first() =~= pb + rest);
            assert(spec_lex(s2) == lex_cons(TokenView::Dot, spec_lex(pb + rest)));
            // the body
            lemma_lex_print(*b, rest);
            // assemble
            lemma_cons_as_concat(TokenView::Dot, spec_lex(pb + rest));
            lemma_concat_assoc(seq![TokenView::Dot], print_tokens(*b), spec_lex(rest));
            lemma_cons_as_concat(
                TokenView::Ident(x),
                lex_concat(seq![TokenView::Dot] + print_tokens(*b), spec_lex(rest)),
            );
            lemma_concat_assoc(
                seq![TokenView::Ident(x)],
                seq![TokenView::Dot] + print_tokens(*b),
                spec_lex(rest),
            );
            lemma_cons_as_concat(
                TokenView::Lambda,
                lex_concat(
                    seq![TokenView::Ident(x)] + (seq![TokenView::Dot] + print_tokens(*b)),
                    spec_lex(rest),
                ),
            );
            lemma_concat_assoc(
                seq![TokenView::Lambda],
                seq![TokenView::Ident(x)] + (seq![TokenView::Dot] + print_tokens(*b)),
                spec_lex(rest),
            );
            assert(seq![TokenView::Lambda] + (seq![TokenView::Ident(x)] + (seq![TokenView::Dot]
                + print_tokens(*b))) =~= print_tokens(t));
        },
        TermView::App(f, a) => {
            let pf = spec_print(*f);
            let pa = spec_print(*a);
            // What follows the function side: the space, the argument side,
            // and the rest.
            let rhs_chars = if *a is Var {
                pa
            } else {
                seq!['('] + pa + seq![')']
            };
            let rhs_toks = if *a is Var {
                print_tokens(*a)
            } else {
                seq![TokenView::Lpar] + print_tokens(*a) + seq![TokenView::Rpar]
            };
            let after_f = seq![' '] + (rhs_chars + rest);
            // Lexing the argument side: rhs_chars + rest lexes to rhs_toks
            // then the rest.
            if *a is Var {
                lemma_lex_print(*a, rest);
                assert(spec_lex(rhs_chars + rest) == lex_concat(rhs_toks, spec_lex(rest)));
            } else {
                assert(rhs_chars + rest =~= seq!['('] + (pa + (seq![')'] + rest)));
                let u = rhs_chars + rest;
                assert(u[0] == '(');
                assert(u.drop_first() =~= pa + (seq![')'] + rest));
                assert(spec_lex(u) == lex_cons(TokenView::Lpar, spec_lex(pa + (seq![')'] + rest))));
                lemma_lex_print(*a, seq![')'] + rest);
                let v = seq![')'] + rest;
                assert(v[0] == ')');
                assert(v.drop_first() =~= rest);
                assert(spec_lex(v) == lex_cons(TokenView::Rpar, spec_lex(rest)));
                lemma_cons_as_concat(TokenView::Rpar, spec_lex(rest));
                lemma_concat_assoc(print_tokens(*a), seq![TokenView::Rpar], spec_lex(rest));
                lemma_cons_as_concat(
                    TokenView::Lpar,
                    lex_concat(print_tokens(*a) + seq![TokenView::Rpar], spec_lex(rest)),
                );
                lemma_concat_assoc(
                    seq![TokenView::Lpar],
                    print_tokens(*a) + seq![TokenView::Rpar],
                    spec_lex(rest),
                );
                assert(seq![TokenView::Lpar] + (print_tokens(*a) + seq![TokenView::Rpar])
                    =~= rhs_toks);
                assert(spec_lex(rhs_chars + rest) == lex_concat(rhs_toks, spec_lex(rest)));
            }
            // The space before the argument side.
            assert(after_f[0] == ' ');
            assert(is_whitespace_char(' '));
            assert(after_f.drop_first() =~= rhs_chars + rest);
            assert(spec_lex(after_f) == spec_lex(rhs_chars + rest));
            // Lexing the function side.
            if *f is Fun {
                let s = spec_print(t) + rest;
                assert(s =~= seq!['('] + (pf + (seq![')'] + after_f)));
                assert(s[0] == '(');
                assert(s.drop_first() =~= pf + (seq![')'] + after_f));
                assert(spec_lex(s) == lex_cons(TokenView::Lpar, spec_lex(pf + (seq![')'] + after_f))));
                lemma_lex_print(*f, seq![')'] + after_f);
                let w = seq![')'] + after_f;
                assert(w[0] == ')');
                assert(w.drop_first() =~= after_f);
                assert(spec_lex(w) == lex_cons(TokenView::Rpar, spec_lex(after_f)));
                // assemble
                lemma_cons_as_concat(TokenView::Rpar, spec_lex(after_f));
                lemma_concat_assoc(print_tokens(*f), seq![TokenView::Rpar], spec_lex(after_f));
                lemma_cons_as_concat(
                    TokenView::Lpar,
                    lex_concat(print_tokens(*f) + seq![TokenView::Rpar], spec_lex(after_f)),
                );
                lemma_concat_assoc(
                    seq![TokenView::Lpar],
                    print_tokens(*f) + seq![TokenView::Rpar],
                    spec_lex(after_f),
                );
                lemma_concat_assoc(
                    seq![TokenView::Lpar] + (print_tokens(*f) + seq![TokenView::Rpar]),
                    rhs_toks,
                    spec_lex(rest),
                );
                assert((seq![TokenView::Lpar] + (print_tokens(*f) + seq![TokenView::Rpar]))
                    + rhs_toks =~= print_tokens(t));
            } else {
                let s = spec_print(t) + rest;
                assert(s =~= pf + after_f);
                lemma_lex_print(*f, after_f);
                assert(spec_lex(s) == lex_concat(print_tokens(*f), spec_lex(after_f)));
                lemma_concat_assoc(print_tokens(*f), rhs_toks, spec_lex(rest));
                assert(print_tokens(*f) + rhs_toks =~= print_tokens(t));
            }
        },
    }
}

// ---------------------------------------------------------------------------
// Parsing the tokens of a printed term
// ---------------------------------------------------------------------------
/// The tokens `p` lie in `s` starting at `i`.
pub open spec fn toks_at(s: Seq<TokenView>, i: nat, p: Seq<TokenView>) -> bool {
    &&& i + p.len() <= s.len()
    &&& s.subrange(i as int, (i + p.len()) as int) == p
}

proof fn lemma_toks_at_index(s: Seq<TokenView>, i: nat, p: Seq<TokenView>, k: nat)
    requires
        toks_at(s, i, p),
        k < p.len(),
    ensures
        tok_at(s, (i + k) as nat) == p[k as int],
{
    assert(s.subrange(i as int, (i + p.len()) as int)[k as int] == s[(i + k) as int]);
}

proof fn lemma_toks_at_split(s: Seq<TokenView>, i: nat, p1: Seq<TokenView>, p2: Seq<TokenView>)
    requires
        toks_at(s, i, p1 + p2),
    ensures
        toks_at(s, i, p1),
        toks_at(s, (i + p1.len()) as nat, p2),
{
    assert(s.subrange(i as int, (i + p1.len()) as int) =~= (p1 + p2).subrange(0, p1.len() as int));
    assert((p1 + p2).subrange(0, p1.len() as int) =~= p1);
    assert(s.subrange((i + p1.len()) as int, (i + p1.len() + p2.len()) as int) =~= (p1
        + p2).subrange(p1.len() as int, (p1 + p2).len() as int));
    assert((p1 + p2).subrange(p1.len() as int, (p1 + p2).len() as int) =~= p2);
}

/// Parsing a parenthesized printed term as one `term'` yields the term and
/// stops after the closing parenthesis.
proof fn lemma_parse_atom_paren(t: TermView, s: Seq<TokenView>, i: nat)
    requires
        spec_valid_term(t),
        toks_at(s, i, seq![TokenView::Lpar] + print_tokens(t) + seq![TokenView::Rpar]),
    ensures
        spec_parse_eprime(s, i) == (
            Ok::<TermView, ParseFail>(t),
            (i + print_tokens(t).len() + 2) as nat,
        ),
    decreases t, 2int,
{
    let n = print_tokens(t).len();
    let whole = seq![TokenView::Lpar] + print_tokens(t) + seq![TokenView::Rpar];
    lemma_toks_at_index(s, i, whole, 0);
    lemma_toks_at_index(s, i, whole, (n + 1) as nat);
    assert(whole[0] == TokenView::Lpar);
    assert(whole[n as int + 1] == TokenView::Rpar);
    assert(whole.subrange(1, n as int + 1) =~= print_tokens(t));
    assert(s.subrange((i + 1) as int, (i + 1 + n) as int) =~= s.subrange(
        i as int,
        (i + whole.len()) as int,
    ).subrange(1, n as int + 1));
    assert(toks_at(s, (i + 1) as nat, print_tokens(t)));
    assert(tok_at(s, (i + 1 + n) as nat) == TokenView::Rpar);
    assert(!is_term_start(tok_at(s, (i + 1 + n) as nat)));
    lemma_parse_print(t, s, (i + 1) as nat);
    assert(spec_parse_e(s, (i + 1) as nat) == (Ok::<TermView, ParseFail>(t), (i + 1 + n) as nat));
}

/// Parsing from the tokens of a printed variable or application behaves as
/// the application loop continued with that term accumulated.
proof fn lemma_parse_spine(t: TermView, s: Seq<TokenView>, i: nat)
    requires
        spec_valid_term(t),
        t is Var || t is App,
        toks_at(s, i, print_tokens(t)),
    ensures
        spec_parse_e(s, i) == spec_parse_e_loop(s, (i + print_tokens(t).len()) as nat, t),
    decreases t, 0int,
{
    let n = print_tokens(t).len();
    match t {
        TermView::Var(x) => {
            lemma_toks_at_index(s, i, print_tokens(t), 0);
            assert(tok_at(s, i) == TokenView::Ident(x));
            assert(spec_parse_eprime(s, i) == (
                Ok::<TermView, ParseFail>(TermView::Var(x)),
                (i + 1) as nat,
            ));
        },
        TermView::App(f, a) => {
            let lhs = if *f is Fun {
                seq![TokenView::Lpar] + print_tokens(*f) + seq![TokenView::Rpar]
            } else {
                print_tokens(*f)
            };
            let rhs = if *a is Var {
                print_tokens(*a)
            } else {
                seq![TokenView::Lpar] + print_tokens(*a) + seq![TokenView::Rpar]
            };
            lemma_toks_at_split(s, i, lhs, rhs);
            let m = (i + lhs.len()) as nat;
            // After the function side, the loop sees the argument atom and
            // folds it in.
            lemma_toks_at_index(s, m, rhs, 0);
            if *a is Var {
                assert(rhs[0] == TokenView::Ident(a->Var_0));
            } else {
                assert(rhs[0] == TokenView::Lpar);
            }
            assert(is_term_start(tok_at(s, m)));
            let m2 = (m + rhs.len()) as nat;
            if *a is Var {
                assert(spec_parse_eprime(s, m) == (Ok::<TermView, ParseFail>(*a), m2));
            } else {
                lemma_parse_atom_paren(*a, s, m);
                assert(spec_parse_eprime(s, m) == (Ok::<TermView, ParseFail>(*a), m2));
            }
            assert(m < m2 <= s.len());
            assert(spec_parse_e_loop(s, m, *f) == spec_parse_e_loop(s, m2, t));
            // The function side itself.
            if *f is Fun {
                lemma_parse_atom_paren(*f, s, i);
                assert(spec_parse_eprime(s, i) == (Ok::<TermView, ParseFail>(*f), m));
                assert(i < m <= s.len());
                assert(spec_parse_e(s, i) == spec_parse_e_loop(s, m, *f));
            } else {
                lemma_parse_spine(*f, s, i);
                assert(spec_parse_e(s, i) == spec_parse_e_loop(s, m, *f));
            }
        },
        _ => {},
    }
}

/// Parsing a full `term` from the tokens of a printed valid term, with a
/// follower that cannot start another `term'`, yields exactly the term.
proof fn lemma_parse_print(t: TermView, s: Seq<TokenView>, i: nat)
    requires
        spec_valid_term(t),
        toks_at(s, i, print_tokens(t)),
        !is_term_start(tok_at(s, (i + print_tokens(t).len()) as nat)),
    ensures
        spec_parse_e(s, i) == (Ok::<TermView, ParseFail>(t), (i + print_tokens(t).len()) as nat),
    decreases t, 1int,
{
    let n = print_tokens(t).len();
    match t {
        TermView::Fun(x, b) => {
            let hdr = seq![TokenView::Lambda, TokenView::Ident(x), TokenView::Dot];
            assert(print_tokens(t) == hdr + print_tokens(*b));
            lemma_toks_at_split(s, i, hdr, print_tokens(*b));
            lemma_toks_at_index(s, i, hdr, 0);
            lemma_toks_at_index(s, i, hdr, 1);
            lemma_toks_at_index(s, i, hdr, 2);
            assert(tok_at(s, i) == TokenView::Lambda);
            assert(tok_at(s, (i + 1) as nat) == TokenView::Ident(x));
            assert(tok_at(s, (i + 2) as nat) == TokenView::Dot);
            lemma_parse_print(*b, s, (i + 3) as nat);
            assert(spec_parse_e(s, (i + 3) as nat) == (
                Ok::<TermView, ParseFail>(*b),
                (i + n) as nat,
            ));
            assert(spec_parse_eprime(s, i) == (Ok::<TermView, ParseFail>(t), (i + n) as nat));
            assert(spec_parse_e_loop(s, (i + n) as nat, t) == (
                Ok::<TermView, ParseFail>(t),
                (i + n) as nat,
            ));
        },
        _ => {
            lemma_parse_spine(t, s, i);
            assert(spec_parse_e_loop(s, (i + n) as nat, t) == (
                Ok::<TermView, ParseFail>(t),
                (i + n) as nat,
            ));
        },
    }
}

/// Inlining with no declarations leaves a term unchanged.
pub proof fn lemma_inline_empty(t: TermView, bound: Seq<Seq<char>>)
    ensures
        spec_inline(t, Seq::empty(), bound) == t,
    decreases t,
{
    match t {
        TermView::Var(x) => {
            assert(decls_lookup(Seq::empty(), x) is None);
        },
        TermView::Fun(x, b) => {
            lemma_inline_empty(*b, bound.push(x));
        },
        TermView::App(f, a) => {
            lemma_inline_empty(*f, bound);
            lemma_inline_empty(*a, bound);
        },
    }
}

// ---------------------------------------------------------------------------
// The round-trip law
// ---------------------------------------------------------------------------
/// Round trip: for every term whose identifiers are valid under the
/// identifier grammar, lexing its canonical rendering yields its token
/// sequence, and parsing that sequence yields the term itself — so
/// `parse(lex(print(t)))` returns `t`.
pub proof fn lemma_round_trip(t: TermView)
    requires
        spec_valid_term(t),
    ensures
        spec_lex(spec_print(t)) == Ok::<Seq<TokenView>, LexFail>(print_tokens(t)),
        spec_parse(print_tokens(t)) == Ok::<TermView, ParseFail>(t),
{
    // The lexer half.
    lemma_lex_print(t, Seq::empty());
    assert(spec_print(t) + Seq::<char>::empty() =~= spec_print(t));
    assert(spec_lex(Seq::<char>::empty()) == Ok::<Seq<TokenView>, LexFail>(Seq::empty()));
    assert(print_tokens(t) + Seq::<TokenView>::empty() =~= print_tokens(t));
    // The parser half.
    let s = print_tokens(t);
    let n = s.len();
    assert(s.subrange(0, n as int) =~= s);
    assert(toks_at(s, 0, s));
    assert(tok_at(s, n) == TokenView::End);
    lemma_parse_print(t, s, 0);
    assert(spec_parse_e(s, 0) == (Ok::<TermView, ParseFail>(t), n));
    assert(spec_parse_decls(s, n) == (
        Ok::<Seq<(Seq<char>, TermView)>, ParseFail>(Seq::empty()),
        n,
    ));
    assert(spec_resolve_decls(Seq::empty()) =~= Seq::<(Seq<char>, TermView)>::empty());
    lemma_inline_empty(t, Seq::empty());
}

} // verus!

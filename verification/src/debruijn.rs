//! Conversion between named terms and nameless (de Bruijn) terms.
//!
//! Forward, a variable becomes the distance to its binder on the stack of
//! enclosing abstractions; a term with a free variable has no nameless form
//! and is rejected by `requires`.  Backward, binders get canonical names by
//! entry order — `a, b, …, z, aa, bb, …` — so all simultaneously-live names
//! are distinct, and converting the result forward again gives the very
//! nameless term back (`lemma_index_conversion_inverse`).

use vstd::prelude::*;

use crate::parse::names_view;
use crate::parse::stack_contains;
use crate::parse::Expr;
use crate::parse::TermView;

verus! {

// ---------------------------------------------------------------------------
// Nameless terms
// ---------------------------------------------------------------------------
#[derive(Debug, PartialEq)]
pub enum DBExpr {
    Fun(Box<DBExpr>),
    App(Box<DBExpr>, Box<DBExpr>),
    Var(usize),
}

/// The mathematical form of a nameless term: indices as unbounded naturals.
pub enum DbView {
    Fun(Box<DbView>),
    App(Box<DbView>, Box<DbView>),
    Var(nat),
}

/// The view of a nameless term.
pub open spec fn db_view(e: DBExpr) -> DbView
    decreases e,
{
    match e {
        DBExpr::Fun(b) => DbView::Fun(Box::new(db_view(*b))),
        DBExpr::App(f, a) => DbView::App(Box::new(db_view(*f)), Box::new(db_view(*a))),
        DBExpr::Var(i) => DbView::Var(i as nat),
    }
}

impl View for DBExpr {
    type V = DbView;

    open spec fn view(&self) -> DbView {
        db_view(*self)
    }
}

impl Clone for DBExpr {
    fn clone(&self) -> (r: DBExpr)
        ensures
            r == *self,
        decreases self,
    {
        match self {
            DBExpr::Fun(b) => DBExpr::Fun(Box::new((**b).clone())),
            DBExpr::App(f, a) => DBExpr::App(Box::new((**f).clone()), Box::new((**a).clone())),
            DBExpr::Var(i) => DBExpr::Var(*i),
        }
    }
}

/// Well-formedness of a nameless term under `depth` enclosing binders: every
/// index refers to one of them.
pub open spec fn db_wf(d: DbView, depth: nat) -> bool
    decreases d,
{
    match d {
        DbView::Var(i) => i < depth,
        DbView::Fun(b) => db_wf(*b, depth + 1),
        DbView::App(f, a) => db_wf(*f, depth) && db_wf(*a, depth),
    }
}

/// The height of a nameless term.
pub open spec fn db_height(d: DbView) -> nat
    decreases d,
{
    match d {
        DbView::Var(_) => 0,
        DbView::Fun(b) => 1 + db_height(*b),
        DbView::App(f, a) => 1 + if db_height(*f) >= db_height(*a) {
            db_height(*f)
        } else {
            db_height(*a)
        },
    }
}

// ---------------------------------------------------------------------------
// The forward conversion: named to nameless
// ---------------------------------------------------------------------------
/// A named term is closed under a stack of binder names when every variable
/// is bound by one of them.
pub open spec fn term_closed(t: TermView, ctx: Seq<Seq<char>>) -> bool
    decreases t,
{
    match t {
        TermView::Var(x) => ctx.contains(x),
        TermView::Fun(x, b) => term_closed(*b, ctx.push(x)),
        TermView::App(f, a) => term_closed(*f, ctx) && term_closed(*a, ctx),
    }
}

/// The distance, counting inward from the top of the stack, to the nearest
/// binder of the given name (meaningful only when the stack holds the name).
pub open spec fn dist_to(ctx: Seq<Seq<char>>, x: Seq<char>) -> nat
    decreases ctx.len(),
{
    if ctx.len() == 0 {
        0
    } else if ctx.last() == x {
        0
    } else {
        1 + dist_to(ctx.drop_last(), x)
    }
}

/// The nameless form of a named term under a stack of binder names
/// (meaningful only when the term is closed under that stack).
pub open spec fn spec_to_db(t: TermView, ctx: Seq<Seq<char>>) -> DbView
    decreases t,
{
    match t {
        TermView::Var(x) => DbView::Var(dist_to(ctx, x)),
        TermView::Fun(x, b) => DbView::Fun(Box::new(spec_to_db(*b, ctx.push(x)))),
        TermView::App(f, a) => DbView::App(
            Box::new(spec_to_db(*f, ctx)),
            Box::new(spec_to_db(*a, ctx)),
        ),
    }
}

pub proof fn lemma_dist_to_bound(ctx: Seq<Seq<char>>, x: Seq<char>)
    requires
        ctx.contains(x),
    ensures
        dist_to(ctx, x) < ctx.len(),
    decreases ctx.len(),
{
    if ctx.last() != x {
        let k = choose|k: int| 0 <= k < ctx.len() && ctx[k] == x;
        assert(ctx.drop_last()[k] == x);
        assert(ctx.drop_last().contains(x));
        lemma_dist_to_bound(ctx.drop_last(), x);
    }
}

/// A closed term converts to a well-formed nameless term.
pub proof fn lemma_to_db_wf(t: TermView, ctx: Seq<Seq<char>>)
    requires
        term_closed(t, ctx),
    ensures
        db_wf(spec_to_db(t, ctx), ctx.len()),
    decreases t,
{
    match t {
        TermView::Var(x) => {
            lemma_dist_to_bound(ctx, x);
        },
        TermView::Fun(x, b) => {
            lemma_to_db_wf(*b, ctx.push(x));
        },
        TermView::App(f, a) => {
            lemma_to_db_wf(*f, ctx);
            lemma_to_db_wf(*a, ctx);
        },
    }
}

/// The first free variable of a term under a stack of binder names, function
/// sides before argument sides; `None` exactly when the term is closed under
/// that stack (`lemma_first_free_closed`).
pub open spec fn spec_first_free(t: TermView, ctx: Seq<Seq<char>>) -> Option<Seq<char>>
    decreases t,
{
    match t {
        TermView::Var(x) => if ctx.contains(x) {
            None
        } else {
            Some(x)
        },
        TermView::Fun(x, b) => spec_first_free(*b, ctx.push(x)),
        TermView::App(f, a) => match spec_first_free(*f, ctx) {
            Some(x) => Some(x),
            None => spec_first_free(*a, ctx),
        },
    }
}

/// A term has no first free variable exactly when it is closed.
pub proof fn lemma_first_free_closed(t: TermView, ctx: Seq<Seq<char>>)
    ensures
        (spec_first_free(t, ctx) is None) <==> term_closed(t, ctx),
    decreases t,
{
    match t {
        TermView::Var(_) => {},
        TermView::Fun(x, b) => {
            lemma_first_free_closed(*b, ctx.push(x));
        },
        TermView::App(f, a) => {
            lemma_first_free_closed(*f, ctx);
            lemma_first_free_closed(*a, ctx);
        },
    }
}

/// The name of the first free variable in the term, or `None` when the term
/// is closed: the witness behind `is_closed`, for error reporting.
pub fn find_free_variable(e: &Expr) -> (r: Option<String>)
    ensures
        match spec_first_free(e@, Seq::empty()) {
            Some(x) => r matches Some(n) && n@ == x,
            None => r is None,
        },
        (r is None) == term_closed(e@, Seq::empty()),
{
    let mut stack: Vec<String> = Vec::new();
    proof {
        assert(names_view(stack@) =~= Seq::<Seq<char>>::empty());
        lemma_first_free_closed(e@, Seq::empty());
    }
    find_free_at(e, &mut stack)
}

fn find_free_at(e: &Expr, stack: &mut Vec<String>) -> (r: Option<String>)
    ensures
        final(stack)@ == old(stack)@,
        match spec_first_free(e@, names_view(old(stack)@)) {
            Some(x) => r matches Some(n) && n@ == x,
            None => r is None,
        },
    decreases e,
{
    match e {
        Expr::Var(x) => {
            if stack_contains(stack, x) {
                None
            } else {
                Some(x.clone())
            }
        },
        Expr::Fun(x, body) => {
            stack.push(x.clone());
            proof {
                assert(names_view(stack@) =~= names_view(old(stack)@).push(x@));
            }
            let r = find_free_at(body, stack);
            let popped = stack.pop();
            proof {
                assert(stack@ =~= old(stack)@);
            }
            r
        },
        Expr::App(f, a) => {
            match find_free_at(f, stack) {
                Some(n) => Some(n),
                None => find_free_at(a, stack),
            }
        },
    }
}

/// Whether a named term is closed: exactly the terms `to_debruijn` accepts.
pub fn is_closed(e: &Expr) -> (r: bool)
    ensures
        r == term_closed(e@, Seq::empty()),
{
    let mut stack: Vec<String> = Vec::new();
    proof {
        assert(names_view(stack@) =~= Seq::<Seq<char>>::empty());
    }
    closed_at(e, &mut stack)
}

fn closed_at(e: &Expr, stack: &mut Vec<String>) -> (r: bool)
    ensures
        final(stack)@ == old(stack)@,
        r == term_closed(e@, names_view(old(stack)@)),
    decreases e,
{
    match e {
        Expr::Var(x) => stack_contains(stack, x),
        Expr::Fun(x, body) => {
            stack.push(x.clone());
            proof {
                assert(names_view(stack@) =~= names_view(old(stack)@).push(x@));
            }
            let r = closed_at(body, stack);
            let popped = stack.pop();
            proof {
                assert(stack@ =~= old(stack)@);
            }
            r
        },
        Expr::App(f, a) => {
            let rf = closed_at(f, stack);
            if rf {
                closed_at(a, stack)
            } else {
                false
            }
        },
    }
}

/// Converts a closed named term to its nameless (de Bruijn) form.
pub fn to_debruijn(expr: &Expr) -> (r: Box<DBExpr>)
    requires
        term_closed(expr@, Seq::empty()),
    ensures
        r@ == spec_to_db(expr@, Seq::empty()),
{
    let mut stack: Vec<String> = Vec::new();
    proof {
        assert(names_view(stack@) =~= Seq::<Seq<char>>::empty());
    }
    to_db_at(expr, &mut stack)
}

fn to_db_at(e: &Expr, stack: &mut Vec<String>) -> (r: Box<DBExpr>)
    requires
        term_closed(e@, names_view(old(stack)@)),
    ensures
        final(stack)@ == old(stack)@,
        r@ == spec_to_db(e@, names_view(old(stack)@)),
    decreases e,
{
    match e {
        Expr::Var(x) => {
            let ghost ctx = names_view(stack@);
            let n = stack.len();
            let mut d: usize = 0;
            proof {
                assert(ctx.take(n as int) =~= ctx);
            }
            while d < n
                invariant
                    n == stack@.len(),
                    d <= n,
                    ctx == names_view(stack@),
                    e@ == TermView::Var(x@),
                    term_closed(e@, ctx),
                    dist_to(ctx, x@) == d + dist_to(ctx.take((n - d) as int), x@),
                    forall|k: int| 0 <= k < d ==> #[trigger] stack@[n - 1 - k]@ != x@,
                decreases n - d,
            {
                let ghost sub = ctx.take((n - d) as int);
                proof {
                    assert(sub.last() == stack@[n - 1 - d]@);
                    assert(sub.drop_last() =~= ctx.take((n - d - 1) as int));
                }
                if String::eq(&stack[n - 1 - d], x) {
                    proof {
                        assert(dist_to(sub, x@) == 0);
                    }
                    return Box::new(DBExpr::Var(d));
                }
                d = d + 1;
            }
            proof {
                assert(ctx.contains(x@));
                let k = choose|k: int| 0 <= k < ctx.len() && ctx[k] == x@;
                assert(stack@[k]@ == x@);
                assert(0 <= n - 1 - k < n);
                assert(stack@[n - 1 - (n - 1 - k)]@ != x@);
                assert(false);
            }
            Box::new(DBExpr::Var(0))
        },
        Expr::Fun(x, body) => {
            stack.push(x.clone());
            proof {
                assert(names_view(stack@) =~= names_view(old(stack)@).push(x@));
            }
            let b = to_db_at(body, stack);
            let popped = stack.pop();
            proof {
                assert(stack@ =~= old(stack)@);
            }
            Box::new(DBExpr::Fun(b))
        },
        Expr::App(f, a) => {
            let nf = to_db_at(f, stack);
            let na = to_db_at(a, stack);
            Box::new(DBExpr::App(nf, na))
        },
    }
}

// ---------------------------------------------------------------------------
// Canonical names
// ---------------------------------------------------------------------------
/// The letter used for the `k`-th canonical name.
pub open spec fn alpha_char(k: nat) -> char {
    if k == 0 { 'a' } else if k == 1 { 'b' } else if k == 2 { 'c' } else if k == 3 { 'd' }
    else if k == 4 { 'e' } else if k == 5 { 'f' } else if k == 6 { 'g' } else if k == 7 { 'h' }
    else if k == 8 { 'i' } else if k == 9 { 'j' } else if k == 10 { 'k' } else if k == 11 { 'l' }
    else if k == 12 { 'm' } else if k == 13 { 'n' } else if k == 14 { 'o' } else if k == 15 { 'p' }
    else if k == 16 { 'q' } else if k == 17 { 'r' } else if k == 18 { 's' } else if k == 19 { 't' }
    else if k == 20 { 'u' } else if k == 21 { 'v' } else if k == 22 { 'w' } else if k == 23 { 'x' }
    else if k == 24 { 'y' } else { 'z' }
}

/// The `i`-th canonical binder name: letter `i mod 26`, repeated
/// `1 + i div 26` times — `a, b, …, z, aa, bb, …`.
pub open spec fn canon_name(i: nat) -> Seq<char> {
    Seq::new(1 + i / 26, |j: int| alpha_char(i % 26))
}

fn exec_alpha_char(k: usize) -> (r: char)
    requires
        k < 26,
    ensures
        r == alpha_char(k as nat),
{
    (97 + k as u8) as char
}

/// The `i`-th canonical binder name.
pub fn choose_ident(i: usize) -> (r: String)
    ensures
        r@ == canon_name(i as nat),
{
    let letter = exec_alpha_char(i % 26);
    let reps = 1 + i / 26;
    let mut r = String::new();
    let mut j: usize = 0;
    while j < reps
        invariant
            j <= reps,
            r@.len() == j,
            forall|k: int| 0 <= k < j ==> r@[k] == letter,
        decreases reps - j,
    {
        r.push(letter);
        j = j + 1;
    }
    proof {
        assert(r@ =~= canon_name(i as nat));
    }
    r
}

/// Canonical names are pairwise distinct.
pub proof fn lemma_canon_name_injective(a: nat, b: nat)
    requires
        canon_name(a) == canon_name(b),
    ensures
        a == b,
{
    assert(canon_name(a).len() == 1 + a / 26);
    assert(canon_name(b).len() == 1 + b / 26);
    assert(a / 26 == b / 26);
    assert(canon_name(a)[0] == alpha_char(a % 26));
    assert(canon_name(b)[0] == alpha_char(b % 26));
    assert(a % 26 == b % 26);
    vstd::arithmetic::div_mod::lemma_fundamental_div_mod(a as int, 26);
    vstd::arithmetic::div_mod::lemma_fundamental_div_mod(b as int, 26);
}

// ---------------------------------------------------------------------------
// The backward conversion: nameless to named
// ---------------------------------------------------------------------------
/// The named form of a nameless term under `depth` enclosing binders, with
/// canonical names assigned by abstraction-entry order.
pub open spec fn spec_to_named(d: DbView, depth: nat) -> TermView
    decreases d,
{
    match d {
        DbView::Var(i) => TermView::Var(canon_name((depth - 1 - i) as nat)),
        DbView::Fun(b) => TermView::Fun(canon_name(depth), Box::new(spec_to_named(*b, depth + 1))),
        DbView::App(f, a) => TermView::App(
            Box::new(spec_to_named(*f, depth)),
            Box::new(spec_to_named(*a, depth)),
        ),
    }
}

/// Converts a well-formed nameless term back to a named term, assigning
/// canonical names by abstraction-entry order.
pub fn to_named(expr: &DBExpr) -> (r: Box<Expr>)
    requires
        db_wf(expr@, 0),
        db_height(expr@) <= usize::MAX,
    ensures
        r@ == spec_to_named(expr@, 0),
{
    to_named_at(expr, 0)
}

fn to_named_at(e: &DBExpr, depth: usize) -> (r: Box<Expr>)
    requires
        db_wf(e@, depth as nat),
        depth + db_height(e@) <= usize::MAX,
    ensures
        r@ == spec_to_named(e@, depth as nat),
    decreases e,
{
    match e {
        DBExpr::Var(i) => Box::new(Expr::Var(choose_ident(depth - 1 - *i))),
        DBExpr::Fun(b) => {
            let name = choose_ident(depth);
            let body = to_named_at(b, depth + 1);
            Box::new(Expr::Fun(name, body))
        },
        DBExpr::App(f, a) => {
            let nf = to_named_at(f, depth);
            let na = to_named_at(a, depth);
            Box::new(Expr::App(nf, na))
        },
    }
}

// ---------------------------------------------------------------------------
// The conversions invert each other
// ---------------------------------------------------------------------------
/// The stack of canonical names for `depth` enclosing binders.
pub open spec fn canon_ctx(depth: nat) -> Seq<Seq<char>> {
    Seq::new(depth, |j: int| canon_name(j as nat))
}

/// Looking a canonical name up on the canonical stack gives back its depth.
pub proof fn lemma_dist_to_canon(depth: nat, k: nat)
    requires
        k < depth,
    ensures
        dist_to(canon_ctx(depth), canon_name(k)) == depth - 1 - k,
    decreases depth,
{
    let ctx = canon_ctx(depth);
    assert(ctx.last() == canon_name((depth - 1) as nat));
    if k == depth - 1 {
    } else {
        lemma_canon_name_injective_contra((depth - 1) as nat, k);
        assert(ctx.drop_last() =~= canon_ctx((depth - 1) as nat));
        lemma_dist_to_canon((depth - 1) as nat, k);
    }
}

proof fn lemma_canon_name_injective_contra(a: nat, b: nat)
    requires
        a != b,
    ensures
        canon_name(a) != canon_name(b),
{
    if canon_name(a) == canon_name(b) {
        lemma_canon_name_injective(a, b);
    }
}

/// Converting a well-formed nameless term to named form and back gives the
/// term itself; the named form is closed under the canonical name stack.
pub proof fn lemma_to_named_to_db(d: DbView, depth: nat)
    requires
        db_wf(d, depth),
    ensures
        term_closed(spec_to_named(d, depth), canon_ctx(depth)),
        spec_to_db(spec_to_named(d, depth), canon_ctx(depth)) == d,
    decreases d,
{
    match d {
        DbView::Var(i) => {
            let k = (depth - 1 - i) as nat;
            assert(canon_ctx(depth)[k as int] == canon_name(k));
            assert(canon_ctx(depth).contains(canon_name(k)));
            lemma_dist_to_canon(depth, k);
        },
        DbView::Fun(b) => {
            assert(canon_ctx(depth).push(canon_name(depth)) =~= canon_ctx(depth + 1));
            lemma_to_named_to_db(*b, depth + 1);
        },
        DbView::App(f, a) => {
            lemma_to_named_to_db(*f, depth);
            lemma_to_named_to_db(*a, depth);
        },
    }
}

/// Index-conversion inverse: for a closed named term, converting to nameless
/// form, back to named form, and to nameless form once more reproduces the
/// first nameless form — the named form `to_named` rebuilds is alpha-equivalent
/// to the term it started from, with canonical names assigned by entry order.
pub proof fn lemma_index_conversion_inverse(t: TermView)
    requires
        term_closed(t, Seq::empty()),
    ensures
        term_closed(spec_to_named(spec_to_db(t, Seq::empty()), 0), Seq::empty()),
        spec_to_db(spec_to_named(spec_to_db(t, Seq::empty()), 0), Seq::empty()) == spec_to_db(
            t,
            Seq::empty(),
        ),
{
    lemma_to_db_wf(t, Seq::empty());
    let d = spec_to_db(t, Seq::empty());
    assert(canon_ctx(0) =~= Seq::<Seq<char>>::empty());
    lemma_to_named_to_db(d, 0);
}

} // verus!

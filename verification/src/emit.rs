//! The canonical printer for named terms.
//!
//! A variable prints as its name; an abstraction as `\NAME.BODY`; an
//! application as `LHS RHS`, where the left side is parenthesized exactly when
//! it is an abstraction and the right side exactly when it is an abstraction
//! or an application.  The parser reads this form back (see `roundtrip`).

use vstd::prelude::*;
use vstd::string::StringExecFns;

use crate::parse::Expr;
use crate::parse::TermView;

verus! {

/// The canonical rendering of a term.
pub open spec fn spec_print(t: TermView) -> Seq<char>
    decreases t,
{
    match t {
        TermView::Var(x) => x,
        TermView::Fun(x, body) => seq!['\\'] + x + seq!['.'] + spec_print(*body),
        TermView::App(f, a) => {
            let lhs = if *f is Fun {
                seq!['('] + spec_print(*f) + seq![')']
            } else {
                spec_print(*f)
            };
            let rhs = if *a is Var {
                spec_print(*a)
            } else {
                seq!['('] + spec_print(*a) + seq![')']
            };
            lhs + seq![' '] + rhs
        },
    }
}

impl Expr {
    /// Renders the term in canonical lambda notation.
    pub fn to_string(&self) -> (r: String)
        ensures
            r@ == spec_print(self@),
        decreases self,
    {
        match self {
            Expr::Var(name) => name.clone(),
            Expr::Fun(x, body) => {
                let mut r = String::new();
                r.push('\\');
                r.append(x.as_str());
                r.push('.');
                let b = body.to_string();
                r.append(b.as_str());
                proof {
                    assert(r@ =~= spec_print(self@));
                }
                r
            },
            Expr::App(f, a) => {
                let mut r = String::new();
                match &**f {
                    Expr::Fun(_, _) => {
                        r.push('(');
                        let fs = f.to_string();
                        r.append(fs.as_str());
                        r.push(')');
                    },
                    _ => {
                        let fs = f.to_string();
                        r.append(fs.as_str());
                    },
                }
                r.push(' ');
                match &**a {
                    Expr::Var(_) => {
                        let rs = a.to_string();
                        r.append(rs.as_str());
                    },
                    _ => {
                        r.push('(');
                        let rs = a.to_string();
                        r.append(rs.as_str());
                        r.push(')');
                    },
                }
                proof {
                    assert(r@ =~= spec_print(self@));
                }
                r
            },
        }
    }
}

} // verus!

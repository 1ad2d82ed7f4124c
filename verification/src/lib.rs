//! An untyped lambda-calculus interpreter: a lexer and recursive-descent
//! parser for lambda terms with trailing `where` declarations, a conversion
//! between named terms and de Bruijn (nameless) terms, a normal-order
//! beta-reduction evaluator, and a type-directed decoder that renders a
//! normal form as a boolean, a Church numeral, a tuple or a list.

use vstd::prelude::*;

pub mod chars;
pub mod debruijn;
pub mod emit;
pub mod error;
pub mod eval;
pub mod interpret_as;
pub mod lex;
pub mod parse;
pub mod roundtrip;

verus! {

/// The normal form that evaluating `d` reaches; meaningful when `d`
/// normalizes, and then unique (`lemma_evaluate_deterministic`).
pub open spec fn spec_normal_form_of(d: crate::debruijn::DbView) -> crate::debruijn::DbView {
    choose|r: crate::debruijn::DbView| crate::eval::is_evaluation(d, r)
}

/// The annotation text governing the output: the first annotation comment in
/// the token stream, or `expr` when there is none.
pub open spec fn spec_annotation(ts: Seq<crate::lex::TokenView>) -> Seq<char> {
    match crate::parse::spec_scan_annotation(ts).0 {
        Some(a) => a,
        None => "expr"@,
    }
}

/// What `eval_lambda` requires of its source text, beyond being text: if it
/// lexes and parses, the desugared term must be closed (a free variable is an
/// internal-consistency failure, not an input error), its reduction must
/// reach a normal form (the reduction loop must terminate), and the terms the
/// pipeline builds must fit the machine.  Any source whose evaluation
/// physically completes satisfies all of this.
pub open spec fn eval_lambda_safe(src: Seq<char>) -> bool {
    match crate::lex::spec_lex(src) {
        Err(_) => true,
        Ok(ts) => match crate::parse::spec_parse(crate::lex::strip_comments(ts)) {
            Err(_) => true,
            Ok(t) => {
                let d = crate::debruijn::spec_to_db(t, Seq::empty());
                &&& crate::debruijn::term_closed(t, Seq::empty())
                &&& crate::eval::eval_safe(d)
                &&& crate::debruijn::db_height(spec_normal_form_of(d)) <= usize::MAX
                &&& crate::parse::term_size(
                    crate::debruijn::spec_to_named(spec_normal_form_of(d), 0),
                ) <= usize::MAX
            },
        },
    }
}

/// What `eval_lambda` returns for a source text: each stage's failure becomes
/// its error, and on success the normal form is decoded at the annotated type.
pub open spec fn eval_lambda_matches(src: Seq<char>, r: Result<String, crate::error::Error>) -> bool {
    match crate::lex::spec_lex(src) {
        Err(f) => r matches Err(e) && e matches crate::error::Error::SyntaxError(m) && m@
            == crate::lex::spec_lex_message(f),
        Ok(ts) => match crate::parse::spec_parse(crate::lex::strip_comments(ts)) {
            Err(f) => r matches Err(e) && e matches crate::error::Error::SyntaxError(m) && m@
                == crate::parse::spec_parse_message(f),
            Ok(t) => {
                let named = crate::debruijn::spec_to_named(
                    spec_normal_form_of(crate::debruijn::spec_to_db(t, Seq::empty())),
                    0,
                );
                let ann = spec_annotation(ts);
                match crate::interpret_as::spec_datatype_of(ann) {
                    Err(m) => r matches Err(e) && e matches crate::error::Error::MalformedType(mm)
                        && mm@ == m,
                    Ok(dt) => match crate::interpret_as::spec_interpret(named, dt) {
                        Some(sout) => r matches Ok(out) && out@ == sout,
                        None => r matches Err(e) && e matches crate::error::Error::TypeError(mm)
                            && mm@ == ann,
                    },
                }
            },
        },
    }
}

/// The whole pipeline on one source text: lex, strip comments, parse and
/// desugar, convert to nameless form, normalize, convert back, and decode the
/// normal form at the type the annotation comment names (`expr` when absent).
pub fn eval_lambda(src: &str) -> (r: Result<String, crate::error::Error>)
    requires
        eval_lambda_safe(src@),
    ensures
        eval_lambda_matches(src@, r),
{
    let mut stream = match crate::lex::lex(src) {
        Ok(s) => s,
        Err(e) => {
            return Err(e);
        },
    };
    stream.remove_comments();
    let e = match crate::parse::parse(&mut stream) {
        Ok(e) => e,
        Err(err) => {
            return Err(err);
        },
    };
    let ghost d = crate::debruijn::spec_to_db(e@, Seq::empty());
    let db = crate::debruijn::to_debruijn(&e);
    let evaluated = db.eval();
    proof {
        assert(crate::eval::is_evaluation(d, evaluated@));
        let c = spec_normal_form_of(d);
        assert(crate::eval::is_evaluation(d, c));
        crate::eval::lemma_evaluate_deterministic(d, c, evaluated@);
        crate::debruijn::lemma_to_db_wf(e@, Seq::empty());
        let n = choose|n: nat| evaluated@ == crate::eval::spec_steps(d, n);
        crate::eval::lemma_steps_wf(d, n, 0);
    }
    let named = crate::debruijn::to_named(&evaluated);
    let mut stream2 = match crate::lex::lex(src) {
        Ok(s) => s,
        Err(e) => {
            return Err(e);
        },
    };
    let datatype_str = match crate::parse::find_type_annotation(&mut stream2) {
        Some(s) => s,
        None => "expr".to_owned(),
    };
    let datatype = match crate::interpret_as::DataType::try_from(datatype_str.as_str()) {
        Ok(d) => d,
        Err(err) => {
            return Err(err);
        },
    };
    match crate::interpret_as::interpret_as(&named, &datatype) {
        Ok(s) => Ok(s),
        Err(u) => Err(crate::error::Error::TypeError(datatype_str)),
    }
}

} // verus!

//! The two lexers: one for the term language (lambda, identifiers, dots,
//! parentheses, `where`, `=`, nestable `{ ... }` comments), and one for the
//! small type-annotation language (`expr`, `bool`, `church`, `tuple`, `list`,
//! brackets and commas).
//!
//! `spec_lex` and `spec_lex_type` define token streams mathematically over
//! `Seq<char>`; the executable `lex` and `lex_type` are proved to return
//! exactly what those definitions say.

use vstd::prelude::*;

use std::collections::VecDeque;

use crate::chars::chars_of;
use crate::chars::is_ascii_alphabetic_char;
use crate::chars::is_whitespace_char;
use crate::chars::exec_is_ascii_alphabetic;
use crate::chars::exec_is_ascii_alphanumeric;
use crate::chars::exec_is_whitespace;
use crate::chars::range_matches;
use crate::chars::string_of_range;
use crate::error::Error;

verus! {

// ---------------------------------------------------------------------------
// Tokens of the type-annotation language
// ---------------------------------------------------------------------------
#[derive(Debug, PartialEq)]
pub enum TypeToken {
    Expr,
    Bool,
    Church,
    Tuple,
    List,
    LeftSquareBracket,
    RightSquareBracket,
    Comma,
}

/// The surface text of a type token, as error messages print it.
pub open spec fn spec_type_token_text(t: TypeToken) -> Seq<char> {
    match t {
        TypeToken::Expr => "expr"@,
        TypeToken::Bool => "bool"@,
        TypeToken::Church => "church"@,
        TypeToken::Tuple => "tuple"@,
        TypeToken::List => "list"@,
        TypeToken::LeftSquareBracket => "["@,
        TypeToken::RightSquareBracket => "]"@,
        TypeToken::Comma => ","@,
    }
}

/// The surface text of a type token, for embedding in error messages.
pub fn type_token_text(t: &TypeToken) -> (r: String)
    ensures
        r@ == spec_type_token_text(*t),
{
    match t {
        TypeToken::Expr => "expr".to_owned(),
        TypeToken::Bool => "bool".to_owned(),
        TypeToken::Church => "church".to_owned(),
        TypeToken::Tuple => "tuple".to_owned(),
        TypeToken::List => "list".to_owned(),
        TypeToken::LeftSquareBracket => "[".to_owned(),
        TypeToken::RightSquareBracket => "]".to_owned(),
        TypeToken::Comma => ",".to_owned(),
    }
}

// ---------------------------------------------------------------------------
// Tokens of the term language
// ---------------------------------------------------------------------------
#[derive(Debug, PartialEq)]
pub enum Token {
    Lambda,
    Ident(String),
    Dot,
    Lpar,
    Rpar,
    Where,
    Def,
    End,
    Comment(String),
}

/// The mathematical form of a token: identifier and comment payloads as
/// character sequences.
pub enum TokenView {
    Lambda,
    Ident(Seq<char>),
    Dot,
    Lpar,
    Rpar,
    Where,
    Def,
    End,
    Comment(Seq<char>),
}

impl View for Token {
    type V = TokenView;

    open spec fn view(&self) -> TokenView {
        match self {
            Token::Lambda => TokenView::Lambda,
            Token::Ident(s) => TokenView::Ident(s@),
            Token::Dot => TokenView::Dot,
            Token::Lpar => TokenView::Lpar,
            Token::Rpar => TokenView::Rpar,
            Token::Where => TokenView::Where,
            Token::Def => TokenView::Def,
            Token::End => TokenView::End,
            Token::Comment(s) => TokenView::Comment(s@),
        }
    }
}

impl Clone for Token {
    fn clone(&self) -> (r: Token)
        ensures
            r == *self,
    {
        match self {
            Token::Lambda => Token::Lambda,
            Token::Ident(s) => Token::Ident(s.clone()),
            Token::Dot => Token::Dot,
            Token::Lpar => Token::Lpar,
            Token::Rpar => Token::Rpar,
            Token::Where => Token::Where,
            Token::Def => Token::Def,
            Token::End => Token::End,
            Token::Comment(s) => Token::Comment(s.clone()),
        }
    }
}

/// The surface text of a token, as error messages print it.
pub open spec fn spec_token_text(t: TokenView) -> Seq<char> {
    match t {
        TokenView::Lambda => "\\"@,
        TokenView::Ident(s) => s,
        TokenView::Dot => "."@,
        TokenView::Lpar => "("@,
        TokenView::Rpar => ")"@,
        TokenView::Where => "where"@,
        TokenView::Def => "="@,
        TokenView::End => "<END>"@,
        TokenView::Comment(s) => "{"@ + s + "}"@,
    }
}

/// The surface text of a token, for embedding in error messages.
pub fn token_text(t: &Token) -> (r: String)
    ensures
        r@ == spec_token_text(t@),
{
    match t {
        Token::Lambda => "\\".to_owned(),
        Token::Ident(s) => s.clone(),
        Token::Dot => ".".to_owned(),
        Token::Lpar => "(".to_owned(),
        Token::Rpar => ")".to_owned(),
        Token::Where => "where".to_owned(),
        Token::Def => "=".to_owned(),
        Token::End => "<END>".to_owned(),
        Token::Comment(s) => {
            let mut r = "{".to_owned();
            vstd::string::StringExecFns::append(&mut r, s.as_str());
            vstd::string::StringExecFns::append(&mut r, "}");
            proof {
                assert(r@ =~= "{"@ + s@ + "}"@);
            }
            r
        },
    }
}

/// The views of a sequence of tokens.
pub open spec fn tokens_view(s: Seq<Token>) -> Seq<TokenView> {
    s.map_values(|t: Token| t@)
}

// ---------------------------------------------------------------------------
// Token streams
// ---------------------------------------------------------------------------
#[derive(Debug, PartialEq)]
pub struct TokenStream {
    pub tokens: VecDeque<Token>,
}

impl View for TokenStream {
    type V = Seq<TokenView>;

    open spec fn view(&self) -> Seq<TokenView> {
        tokens_view(self.tokens@)
    }
}

impl TokenStream {
    /// Removes and returns the first token, or `End` once the stream is
    /// exhausted.
    pub fn next(&mut self) -> (t: Token)
        ensures
            old(self)@.len() == 0 ==> t == Token::End && final(self).tokens@ == old(
                self,
            ).tokens@ && final(self)@ == old(self)@,
            old(self)@.len() > 0 ==> t == old(self).tokens@[0] && final(self).tokens@ == old(
                self,
            ).tokens@.drop_first() && t@ == old(self)@[0] && final(self)@ == old(self)@.drop_first(),
    {
        match self.tokens.pop_front() {
            None => Token::End,
            Some(tok) => {
                proof {
                    assert(self.tokens@ =~= old(self).tokens@.drop_first());
                    assert(tokens_view(self.tokens@) =~= old(self)@.drop_first());
                }
                tok
            },
        }
    }

    /// The first token, without removing it; `End` once the stream is
    /// exhausted.
    pub fn peek(&self) -> (t: &Token)
        ensures
            self@.len() == 0 ==> t@ == TokenView::End,
            self@.len() > 0 ==> *t == self.tokens@[0] && t@ == self@[0],
    {
        if self.tokens.len() == 0 {
            &Token::End
        } else {
            &self.tokens[0]
        }
    }

    /// All remaining tokens, as a vector.
    pub fn all(&self) -> (r: Vec<Token>)
        ensures
            r@ == self.tokens@,
    {
        let mut r: Vec<Token> = Vec::new();
        let n = self.tokens.len();
        let mut i: usize = 0;
        while i < n
            invariant
                n == self.tokens@.len(),
                i <= n,
                r@ == self.tokens@.take(i as int),
            decreases n - i,
        {
            r.push(self.tokens[i].clone());
            i = i + 1;
            proof {
                assert(r@ =~= self.tokens@.take(i as int));
            }
        }
        proof {
            assert(self.tokens@.take(n as int) =~= self.tokens@);
        }
        r
    }

    /// Drops every comment token, keeping the rest in order.
    pub fn remove_comments(&mut self)
        ensures
            final(self)@ == strip_comments(old(self)@),
    {
        let n = self.tokens.len();
        let mut out: VecDeque<Token> = VecDeque::new();
        let mut i: usize = 0;
        proof {
            assert(tokens_view(out@) =~= Seq::<TokenView>::empty());
            assert(tokens_view(self.tokens@).skip(0) =~= tokens_view(self.tokens@));
            assert(tokens_view(out@) + strip_comments(tokens_view(self.tokens@)) =~= strip_comments(
                tokens_view(self.tokens@),
            ));
        }
        while i < n
            invariant
                n == self.tokens@.len(),
                i <= n,
                self.tokens@ == old(self).tokens@,
                strip_comments(old(self)@) == tokens_view(out@) + strip_comments(
                    tokens_view(self.tokens@).skip(i as int),
                ),
            decreases n - i,
        {
            let ghost pre = tokens_view(self.tokens@).skip(i as int);
            proof {
                assert(pre[0] == self.tokens@[i as int]@);
                assert(pre.drop_first() =~= tokens_view(self.tokens@).skip(i as int + 1));
            }
            let t = self.tokens[i].clone();
            match t {
                Token::Comment(_) => {},
                other => {
                    proof {
                        assert(tokens_view(out@.push(other)) =~= tokens_view(out@).push(other@));
                        assert(tokens_view(out@) + (seq![pre[0]] + strip_comments(
                            pre.drop_first(),
                        )) =~= tokens_view(out@.push(other)) + strip_comments(pre.drop_first()));
                    }
                    out.push_back(other);
                },
            }
            i = i + 1;
        }
        proof {
            assert(tokens_view(self.tokens@).skip(n as int).len() == 0);
            assert(tokens_view(out@) + strip_comments(tokens_view(self.tokens@).skip(n as int))
                =~= tokens_view(out@));
        }
        self.tokens = out;
    }
}

/// The stream with every comment token removed.
pub open spec fn strip_comments(s: Seq<TokenView>) -> Seq<TokenView>
    decreases s.len(),
{
    if s.len() == 0 {
        Seq::empty()
    } else if s[0] is Comment {
        strip_comments(s.drop_first())
    } else {
        seq![s[0]] + strip_comments(s.drop_first())
    }
}

// ---------------------------------------------------------------------------
// The specification of the term lexer
// ---------------------------------------------------------------------------
/// How lexing the term language can fail.
pub enum LexFail {
    UnclosedComment,
    InvalidChar(char),
}

/// The message carried by the syntax error for each lexing failure.
pub open spec fn spec_lex_message(f: LexFail) -> Seq<char> {
    match f {
        LexFail::UnclosedComment => "unclosed comment"@,
        LexFail::InvalidChar(c) => "invalid character: '"@ + seq![c] + seq!['\''],
    }
}

/// A character that may be part of an identifier.
pub fn is_ident_char(c: &char) -> (r: bool)
    ensures
        r == crate::chars::spec_ident_char(*c),
{
    exec_is_ascii_alphanumeric(*c) || *c == '~' || *c == '`' || *c == '!' || *c == '@' || *c == '#'
        || *c == '$' || *c == '%' || *c == '^' || *c == '&' || *c == '*' || *c == '-' || *c == '_'
        || *c == '+' || *c == '[' || *c == ']' || *c == '|' || *c == ':' || *c == ';' || *c == '\''
        || *c == '"' || *c == ',' || *c == '<' || *c == '>' || *c == '/' || *c == '?'
}

/// The length of the longest prefix of identifier characters.
pub open spec fn ident_run(s: Seq<char>) -> nat
    decreases s.len(),
{
    if s.len() > 0 && crate::chars::spec_ident_char(s[0]) {
        1 + ident_run(s.drop_first())
    } else {
        0
    }
}

/// The index, within `s`, of the `}` that closes a comment already `depth + 1`
/// braces deep; `None` if the comment never closes.
pub open spec fn comment_close(s: Seq<char>, depth: nat) -> Option<nat>
    decreases s.len(),
{
    if s.len() == 0 {
        None
    } else if s[0] == '}' {
        if depth == 0 {
            Some(0)
        } else {
            match comment_close(s.drop_first(), (depth - 1) as nat) {
                Some(j) => Some(1 + j),
                None => None,
            }
        }
    } else if s[0] == '{' {
        match comment_close(s.drop_first(), depth + 1) {
            Some(j) => Some(1 + j),
            None => None,
        }
    } else {
        match comment_close(s.drop_first(), depth) {
            Some(j) => Some(1 + j),
            None => None,
        }
    }
}

pub proof fn lemma_comment_close_bound(s: Seq<char>, depth: nat)
    ensures
        comment_close(s, depth) matches Some(j) ==> j < s.len(),
    decreases s.len(),
{
    if s.len() > 0 {
        if s[0] == '}' {
            if depth > 0 {
                lemma_comment_close_bound(s.drop_first(), (depth - 1) as nat);
            }
        } else if s[0] == '{' {
            lemma_comment_close_bound(s.drop_first(), depth + 1);
        } else {
            lemma_comment_close_bound(s.drop_first(), depth);
        }
    }
}

/// Prepends a token to the result of lexing the rest of the input.
pub open spec fn lex_cons(t: TokenView, rest: Result<Seq<TokenView>, LexFail>) -> Result<
    Seq<TokenView>,
    LexFail,
> {
    match rest {
        Ok(ts) => Ok(seq![t] + ts),
        Err(f) => Err(f),
    }
}

/// The token stream of a source text: the mathematical contract of `lex`.
///
/// The two bound guards (on the comment length and the identifier run) keep
/// the recursion well-founded; `lemma_comment_close_bound` and the definition
/// of `ident_run` show they always hold, so their error branches never bind.
pub open spec fn spec_lex(s: Seq<char>) -> Result<Seq<TokenView>, LexFail>
    decreases s.len(),
{
    if s.len() == 0 {
        Ok(Seq::empty())
    } else {
        let c = s[0];
        if c == '\\' {
            lex_cons(TokenView::Lambda, spec_lex(s.drop_first()))
        } else if c == '.' {
            lex_cons(TokenView::Dot, spec_lex(s.drop_first()))
        } else if c == '(' {
            lex_cons(TokenView::Lpar, spec_lex(s.drop_first()))
        } else if c == ')' {
            lex_cons(TokenView::Rpar, spec_lex(s.drop_first()))
        } else if c == '=' {
            lex_cons(TokenView::Def, spec_lex(s.drop_first()))
        } else if c == '{' {
            match comment_close(s.drop_first(), 0) {
                None => Err(LexFail::UnclosedComment),
                Some(j) => if j + 2 <= s.len() {
                    lex_cons(
                        TokenView::Comment(s.subrange(1, 1 + j as int)),
                        spec_lex(s.skip(2 + j as int)),
                    )
                } else {
                    Err(LexFail::UnclosedComment)
                },
            }
        } else if crate::chars::spec_ident_char(c) {
            let k = ident_run(s);
            if 1 <= k <= s.len() {
                let w = s.take(k as int);
                lex_cons(
                    if w == "where"@ {
                        TokenView::Where
                    } else {
                        TokenView::Ident(w)
                    },
                    spec_lex(s.skip(k as int)),
                )
            } else {
                Err(LexFail::UnclosedComment)
            }
        } else if is_whitespace_char(c) {
            spec_lex(s.drop_first())
        } else {
            Err(LexFail::InvalidChar(c))
        }
    }
}

/// Appends already-lexed tokens in front of the result of lexing the rest.
pub open spec fn lex_concat(pre: Seq<TokenView>, rest: Result<Seq<TokenView>, LexFail>) -> Result<
    Seq<TokenView>,
    LexFail,
> {
    match rest {
        Ok(ts) => Ok(pre + ts),
        Err(f) => Err(f),
    }
}

proof fn lemma_lex_concat_nil(rest: Result<Seq<TokenView>, LexFail>)
    ensures
        lex_concat(Seq::empty(), rest) == rest,
{
    match rest {
        Ok(ts) => {
            assert(Seq::<TokenView>::empty() + ts =~= ts);
        },
        Err(_) => {},
    }
}

proof fn lemma_concat_cons(pre: Seq<TokenView>, t: TokenView, rest: Result<Seq<TokenView>, LexFail>)
    ensures
        lex_concat(pre, lex_cons(t, rest)) == lex_concat(pre.push(t), rest),
{
    match rest {
        Ok(ts) => {
            assert(pre + (seq![t] + ts) =~= pre.push(t) + ts);
        },
        Err(_) => {},
    }
}

// ---------------------------------------------------------------------------
// The executable term lexer
// ---------------------------------------------------------------------------
/// Turns source text into tokens, or fails on an unclosed comment or a
/// character that belongs to no token.
pub fn lex(code: &str) -> (r: Result<TokenStream, Error>)
    ensures
        match spec_lex(code@) {
            Ok(ts) => r matches Ok(stm) && stm@ == ts,
            Err(f) => r matches Err(e) && e matches Error::SyntaxError(m) && m@ == spec_lex_message(
                f,
            ),
        },
{
    let v = chars_of(code);
    let n = v.len();
    let mut tokens: VecDeque<Token> = VecDeque::new();
    let mut i: usize = 0;
    proof {
        assert(code@.skip(0) =~= code@);
        assert(tokens_view(tokens@) =~= Seq::<TokenView>::empty());
        lemma_lex_concat_nil(spec_lex(code@));
    }
    while i < n
        invariant
            v@ == code@,
            n == v@.len(),
            i <= n,
            spec_lex(code@) == lex_concat(tokens_view(tokens@), spec_lex(code@.skip(i as int))),
        decreases n - i,
    {
        let ghost rest = code@.skip(i as int);
        proof {
            assert(rest[0] == v@[i as int]);
            assert(rest.drop_first() =~= code@.skip(i as int + 1));
        }
        let c = v[i];
        if c == '\\' {
            push_token(&mut tokens, Token::Lambda, Ghost(rest), Ghost(code@));
            i = i + 1;
        } else if c == '.' {
            push_token(&mut tokens, Token::Dot, Ghost(rest), Ghost(code@));
            i = i + 1;
        } else if c == '(' {
            push_token(&mut tokens, Token::Lpar, Ghost(rest), Ghost(code@));
            i = i + 1;
        } else if c == ')' {
            push_token(&mut tokens, Token::Rpar, Ghost(rest), Ghost(code@));
            i = i + 1;
        } else if c == '=' {
            push_token(&mut tokens, Token::Def, Ghost(rest), Ghost(code@));
            i = i + 1;
        } else if c == '{' {
            let mut depth: usize = 0;
            let mut j = i + 1;
            while j < n && !(v[j] == '}' && depth == 0)
                invariant
                    v@ == code@,
                    n == v@.len(),
                    i + 1 <= j <= n,
                    depth <= j - i - 1,
                    comment_close(code@.skip(i as int + 1), 0) == shift_close(
                        comment_close(code@.skip(j as int), depth as nat),
                        (j - i - 1) as nat,
                    ),
                decreases n - j,
            {
                let ghost tail = code@.skip(j as int);
                proof {
                    assert(tail[0] == v@[j as int]);
                    assert(tail.drop_first() =~= code@.skip(j as int + 1));
                }
                let c2 = v[j];
                if c2 == '}' {
                    depth = depth - 1;
                } else if c2 == '{' {
                    depth = depth + 1;
                }
                j = j + 1;
            }
            if j == n {
                proof {
                    assert(code@.skip(n as int).len() == 0);
                    assert(comment_close(code@.skip(i as int + 1), 0) is None);
                }
                return Err(Error::SyntaxError("unclosed comment".to_owned()));
            }
            let ghost tail = code@.skip(j as int);
            proof {
                assert(tail[0] == v@[j as int]);
                assert(comment_close(tail, 0) == Some(0nat));
                assert(comment_close(code@.skip(i as int + 1), 0) == Some((j - i - 1) as nat));
                lemma_comment_close_bound(code@.skip(i as int + 1), 0);
            }
            let content = string_of_range(&v, i + 1, j);
            proof {
                assert(rest.subrange(1, 1 + (j - i - 1) as int) =~= code@.subrange(
                    i as int + 1,
                    j as int,
                ));
                assert(rest.skip(2 + (j - i - 1) as int) =~= code@.skip(j as int + 1));
            }
            push_token(&mut tokens, Token::Comment(content), Ghost(rest), Ghost(code@));
            i = j + 1;
        } else if is_ident_char(&c) {
            let mut j = i + 1;
            proof {
                assert(code@.skip(i as int).drop_first() =~= code@.skip(i as int + 1));
            }
            while j < n && is_ident_char(&v[j])
                invariant
                    v@ == code@,
                    n == v@.len(),
                    i < j <= n,
                    ident_run(code@.skip(i as int)) == (j - i) + ident_run(code@.skip(j as int)),
                decreases n - j,
            {
                proof {
                    assert(code@.skip(j as int)[0] == v@[j as int]);
                    assert(code@.skip(j as int).drop_first() =~= code@.skip(j as int + 1));
                }
                j = j + 1;
            }
            proof {
                if j < n {
                    assert(code@.skip(j as int)[0] == v@[j as int]);
                }
                assert(ident_run(code@.skip(j as int)) == 0);
                assert(ident_run(rest) == j - i);
                assert(rest.take((j - i) as int) =~= code@.subrange(i as int, j as int));
            }
            let tok = if range_matches(&v, i, j, "where") {
                Token::Where
            } else {
                Token::Ident(string_of_range(&v, i, j))
            };
            proof {
                assert(rest.skip((j - i) as int) =~= code@.skip(j as int));
            }
            push_token(&mut tokens, tok, Ghost(rest), Ghost(code@));
            i = j;
        } else if exec_is_whitespace(c) {
            i = i + 1;
        } else {
            let mut m = "invalid character: '".to_owned();
            m.push(c);
            m.push('\'');
            proof {
                assert(m@ =~= "invalid character: '"@ + seq![c] + seq!['\'']);
            }
            return Err(Error::SyntaxError(m));
        }
    }
    proof {
        assert(code@.skip(n as int).len() == 0);
        match spec_lex(code@) {
            Ok(ts) => {
                assert(ts =~= tokens_view(tokens@));
            },
            Err(_) => {},
        }
    }
    Ok(TokenStream { tokens })
}

/// Shifts a relative closing-brace position to an absolute one.
pub open spec fn shift_close(o: Option<nat>, d: nat) -> Option<nat> {
    match o {
        Some(k) => Some(k + d),
        None => None,
    }
}

/// Appends one token, keeping the lexing invariant: what remains to lex is one
/// token shorter.
fn push_token(
    tokens: &mut VecDeque<Token>,
    t: Token,
    Ghost(rest): Ghost<Seq<char>>,
    Ghost(whole): Ghost<Seq<char>>,
)
    requires
        spec_lex(whole) == lex_concat(tokens_view(old(tokens)@), spec_lex(rest)),
        spec_lex(rest) == lex_cons(t@, spec_lex(lex_rest_after(rest, t@))),
    ensures
        final(tokens)@ == old(tokens)@.push(t),
        spec_lex(whole) == lex_concat(tokens_view(final(tokens)@), spec_lex(lex_rest_after(rest, t@))),
{
    proof {
        lemma_concat_cons(tokens_view(tokens@), t@, spec_lex(lex_rest_after(rest, t@)));
        assert(tokens_view(tokens@.push(t)) =~= tokens_view(tokens@).push(t@));
    }
    tokens.push_back(t);
}

/// What remains to be lexed after taking the given token from the front of
/// `rest`.
pub open spec fn lex_rest_after(rest: Seq<char>, t: TokenView) -> Seq<char> {
    match t {
        TokenView::Comment(s) => rest.skip(2 + s.len() as int),
        TokenView::Where => rest.skip("where"@.len() as int),
        TokenView::Ident(s) => rest.skip(s.len() as int),
        _ => rest.drop_first(),
    }
}

// ---------------------------------------------------------------------------
// The type-annotation lexer
// ---------------------------------------------------------------------------
/// How lexing a type annotation can fail.
pub enum TypeLexFail {
    BadIdent(Seq<char>),
    BadChar(char),
}

/// The message carried by the malformed-type error for each failure.
pub open spec fn spec_type_lex_message(f: TypeLexFail) -> Seq<char> {
    match f {
        TypeLexFail::BadIdent(s) => "invalid type identifier: \""@ + s + seq!['"'],
        TypeLexFail::BadChar(c) => "invalid character in type: '"@ + seq![c] + seq!['\''],
    }
}

/// The length of the longest prefix of ASCII letters.
pub open spec fn alpha_run(s: Seq<char>) -> nat
    decreases s.len(),
{
    if s.len() > 0 && is_ascii_alphabetic_char(s[0]) {
        1 + alpha_run(s.drop_first())
    } else {
        0
    }
}

/// The keyword token for a type identifier, if it is one.
pub open spec fn type_keyword(w: Seq<char>) -> Option<TypeToken> {
    if w == "expr"@ {
        Some(TypeToken::Expr)
    } else if w == "bool"@ {
        Some(TypeToken::Bool)
    } else if w == "church"@ {
        Some(TypeToken::Church)
    } else if w == "tuple"@ {
        Some(TypeToken::Tuple)
    } else if w == "list"@ {
        Some(TypeToken::List)
    } else {
        None
    }
}

/// Prepends a type token to the result of lexing the rest.
pub open spec fn type_lex_cons(t: TypeToken, rest: Result<Seq<TypeToken>, TypeLexFail>) -> Result<
    Seq<TypeToken>,
    TypeLexFail,
> {
    match rest {
        Ok(ts) => Ok(seq![t] + ts),
        Err(f) => Err(f),
    }
}

/// The token sequence of a type annotation: the mathematical contract of
/// `lex_type`.
pub open spec fn spec_lex_type(s: Seq<char>) -> Result<Seq<TypeToken>, TypeLexFail>
    decreases s.len(),
{
    if s.len() == 0 {
        Ok(Seq::empty())
    } else {
        let c = s[0];
        if c == '[' {
            type_lex_cons(TypeToken::LeftSquareBracket, spec_lex_type(s.drop_first()))
        } else if c == ']' {
            type_lex_cons(TypeToken::RightSquareBracket, spec_lex_type(s.drop_first()))
        } else if c == ',' {
            type_lex_cons(TypeToken::Comma, spec_lex_type(s.drop_first()))
        } else if is_whitespace_char(c) {
            spec_lex_type(s.drop_first())
        } else if is_ascii_alphabetic_char(c) {
            let k = alpha_run(s);
            if 1 <= k <= s.len() {
                let w = s.take(k as int);
                match type_keyword(w) {
                    Some(t) => type_lex_cons(t, spec_lex_type(s.skip(k as int))),
                    None => Err(TypeLexFail::BadIdent(w)),
                }
            } else {
                Err(TypeLexFail::BadChar(c))
            }
        } else {
            Err(TypeLexFail::BadChar(c))
        }
    }
}

/// Appends already-lexed type tokens in front of the rest.
pub open spec fn type_lex_concat(
    pre: Seq<TypeToken>,
    rest: Result<Seq<TypeToken>, TypeLexFail>,
) -> Result<Seq<TypeToken>, TypeLexFail> {
    match rest {
        Ok(ts) => Ok(pre + ts),
        Err(f) => Err(f),
    }
}

proof fn lemma_type_lex_concat_nil(rest: Result<Seq<TypeToken>, TypeLexFail>)
    ensures
        type_lex_concat(Seq::empty(), rest) == rest,
{
    match rest {
        Ok(ts) => {
            assert(Seq::<TypeToken>::empty() + ts =~= ts);
        },
        Err(_) => {},
    }
}

proof fn lemma_type_concat_cons(
    pre: Seq<TypeToken>,
    t: TypeToken,
    rest: Result<Seq<TypeToken>, TypeLexFail>,
)
    ensures
        type_lex_concat(pre, type_lex_cons(t, rest)) == type_lex_concat(pre.push(t), rest),
{
    match rest {
        Ok(ts) => {
            assert(pre + (seq![t] + ts) =~= pre.push(t) + ts);
        },
        Err(_) => {},
    }
}

/// Turns type-annotation text into type tokens, or fails on an unknown
/// keyword or a character that belongs to no token.
pub fn lex_type(dt: &str) -> (r: Result<Vec<TypeToken>, Error>)
    ensures
        match spec_lex_type(dt@) {
            Ok(ts) => r matches Ok(out) && out@ == ts,
            Err(f) => r matches Err(e) && e matches Error::MalformedType(m) && m@
                == spec_type_lex_message(f),
        },
{
    let v = chars_of(dt);
    let n = v.len();
    let mut tokens: Vec<TypeToken> = Vec::new();
    let mut i: usize = 0;
    proof {
        assert(dt@.skip(0) =~= dt@);
        lemma_type_lex_concat_nil(spec_lex_type(dt@));
    }
    while i < n
        invariant
            v@ == dt@,
            n == v@.len(),
            i <= n,
            spec_lex_type(dt@) == type_lex_concat(tokens@, spec_lex_type(dt@.skip(i as int))),
        decreases n - i,
    {
        let ghost rest = dt@.skip(i as int);
        proof {
            assert(rest[0] == v@[i as int]);
            assert(rest.drop_first() =~= dt@.skip(i as int + 1));
        }
        let c = v[i];
        if c == '[' {
            proof {
                lemma_type_concat_cons(
                    tokens@,
                    TypeToken::LeftSquareBracket,
                    spec_lex_type(rest.drop_first()),
                );
            }
            tokens.push(TypeToken::LeftSquareBracket);
            i = i + 1;
        } else if c == ']' {
            proof {
                lemma_type_concat_cons(
                    tokens@,
                    TypeToken::RightSquareBracket,
                    spec_lex_type(rest.drop_first()),
                );
            }
            tokens.push(TypeToken::RightSquareBracket);
            i = i + 1;
        } else if c == ',' {
            proof {
                lemma_type_concat_cons(tokens@, TypeToken::Comma, spec_lex_type(rest.drop_first()));
            }
            tokens.push(TypeToken::Comma);
            i = i + 1;
        } else if exec_is_whitespace(c) {
            i = i + 1;
        } else if exec_is_ascii_alphabetic(c) {
            let mut j = i + 1;
            proof {
                assert(dt@.skip(i as int).drop_first() =~= dt@.skip(i as int + 1));
            }
            while j < n && exec_is_ascii_alphabetic(v[j])
                invariant
                    v@ == dt@,
                    n == v@.len(),
                    i < j <= n,
                    alpha_run(dt@.skip(i as int)) == (j - i) + alpha_run(dt@.skip(j as int)),
                decreases n - j,
            {
                proof {
                    assert(dt@.skip(j as int)[0] == v@[j as int]);
                    assert(dt@.skip(j as int).drop_first() =~= dt@.skip(j as int + 1));
                }
                j = j + 1;
            }
            proof {
                if j < n {
                    assert(dt@.skip(j as int)[0] == v@[j as int]);
                }
                assert(alpha_run(dt@.skip(j as int)) == 0);
                assert(alpha_run(rest) == j - i);
                assert(rest.take((j - i) as int) =~= dt@.subrange(i as int, j as int));
                assert(rest.skip((j - i) as int) =~= dt@.skip(j as int));
            }
            let tok = if range_matches(&v, i, j, "expr") {
                TypeToken::Expr
            } else if range_matches(&v, i, j, "bool") {
                TypeToken::Bool
            } else if range_matches(&v, i, j, "church") {
                TypeToken::Church
            } else if range_matches(&v, i, j, "tuple") {
                TypeToken::Tuple
            } else if range_matches(&v, i, j, "list") {
                TypeToken::List
            } else {
                let word = string_of_range(&v, i, j);
                let mut m = "invalid type identifier: \"".to_owned();
                vstd::string::StringExecFns::append(&mut m, word.as_str());
                m.push('"');
                proof {
                    assert(m@ =~= "invalid type identifier: \""@ + rest.take((j - i) as int)
                        + seq!['"']);
                }
                return Err(Error::MalformedType(m));
            };
            proof {
                lemma_type_concat_cons(tokens@, tok, spec_lex_type(dt@.skip(j as int)));
            }
            tokens.push(tok);
            i = j;
        } else {
            let mut m = "invalid character in type: '".to_owned();
            m.push(c);
            m.push('\'');
            proof {
                assert(m@ =~= "invalid character in type: '"@ + seq![c] + seq!['\'']);
            }
            return Err(Error::MalformedType(m));
        }
    }
    proof {
        assert(dt@.skip(n as int).len() == 0);
        match spec_lex_type(dt@) {
            Ok(ts) => {
                assert(ts =~= tokens@);
            },
            Err(_) => {},
        }
    }
    Ok(tokens)
}

} // verus!

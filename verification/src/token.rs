//! The abstract token stream: the input alphabet of the markup tokenizer.
//!
//! A `Token` is one unit handed over by the upstream lexer: an identifier, a
//! literal, a single punctuation character (with an adjacency flag), or a
//! delimited group carrying its inner tokens verbatim. The parser never looks
//! inside a group: groups are opaque expression tokens.

use vstd::prelude::*;

verus! {

broadcast use vstd::std_specs::vec::group_vec_axioms;

/// The delimiter kind of a `Token::Group`.
#[derive(Debug, Clone, Copy, PartialEq, Eq, Structural)]
pub enum Delimiter {
    Parenthesis,
    Brace,
    Bracket,
    NoDelim,
}

/// One unit of the abstract token stream produced by the upstream lexer.
#[derive(Debug)]
pub enum Token {
    /// An identifier, by its name.
    Ident(String),
    /// A literal, by its raw source text.
    Literal(String),
    /// A punctuation character, with a flag that says whether the next token
    /// is adjacent to it in the source.
    Punct(char, bool),
    /// A delimited group: the delimiter kind and the inner token sequence,
    /// carried verbatim and never interpreted here.
    Group(Delimiter, Vec<Token>),
}

/// The mathematical model of a `Token`: strings become character sequences
/// and a group's inner tokens become a `Seq` of models.
pub enum SpecToken {
    Ident(Seq<char>),
    Literal(Seq<char>),
    Punct(char, bool),
    Group(Delimiter, Seq<SpecToken>),
}

/// The model of one token.
pub open spec fn token_view(t: Token) -> SpecToken
    decreases t,
{
    match t {
        Token::Ident(s) => SpecToken::Ident(s@),
        Token::Literal(s) => SpecToken::Literal(s@),
        Token::Punct(c, joint) => SpecToken::Punct(c, joint),
        Token::Group(d, inner) => SpecToken::Group(d, tokens_view(inner@)),
    }
}

/// The model of a token sequence, element by element.
pub open spec fn tokens_view(ts: Seq<Token>) -> Seq<SpecToken>
    decreases ts,
{
    if ts.len() == 0 {
        Seq::empty()
    } else {
        tokens_view(ts.drop_last()).push(token_view(ts.last()))
    }
}

impl View for Token {
    type V = SpecToken;

    open spec fn view(&self) -> SpecToken {
        token_view(*self)
    }
}

/// A token sequence and its model have the same length.
pub broadcast proof fn lemma_tokens_view_len(ts: Seq<Token>)
    ensures
        (#[trigger] tokens_view(ts)).len() == ts.len(),
    decreases ts,
{
    if ts.len() > 0 {
        lemma_tokens_view_len(ts.drop_last());
    }
}

/// The model of a token sequence is the model of each of its tokens in turn.
pub broadcast proof fn lemma_tokens_view_index(ts: Seq<Token>, i: int)
    requires
        0 <= i < ts.len(),
    ensures
        #[trigger] tokens_view(ts)[i] == token_view(ts[i]),
    decreases ts,
{
    lemma_tokens_view_len(ts.drop_last());
    if i < ts.len() - 1 {
        lemma_tokens_view_index(ts.drop_last(), i);
    }
}

impl vstd::std_specs::cmp::PartialEqSpecImpl for Token {
    open spec fn obeys_eq_spec() -> bool {
        true
    }

    open spec fn eq_spec(&self, other: &Token) -> bool {
        token_view(*self) == token_view(*other)
    }
}

impl PartialEq for Token {
    /// Two tokens are equal when their models are: same variant, same text,
    /// and, for groups, the same delimiter and pairwise-equal inner tokens.
    fn eq(&self, other: &Self) -> (r: bool)
        decreases *self,
    {
        match (self, other) {
            (Token::Ident(a), Token::Ident(b)) => *a == *b,
            (Token::Literal(a), Token::Literal(b)) => *a == *b,
            (Token::Punct(c1, j1), Token::Punct(c2, j2)) => *c1 == *c2 && *j1 == *j2,
            (Token::Group(d1, v1), Token::Group(d2, v2)) => *d1 == *d2 && tokens_eq(v1, v2),
            _ => false,
        }
    }
}

/// Pairwise equality of two token sequences, by their models.
fn tokens_eq(a: &Vec<Token>, b: &Vec<Token>) -> (r: bool)
    ensures
        r == (tokens_view(a@) == tokens_view(b@)),
    decreases a@,
{
    if a.len() != b.len() {
        proof {
            lemma_tokens_view_len(a@);
            lemma_tokens_view_len(b@);
        }
        return false;
    }
    let mut i: usize = 0;
    while i < a.len()
        invariant
            i <= a.len(),
            a@.len() == b@.len(),
            forall|j: int| 0 <= j < i ==> token_view(a@[j]) == token_view(b@[j]),
        decreases a.len() - i,
    {
        if !(a[i] == b[i]) {
            proof {
                lemma_tokens_view_len(a@);
                lemma_tokens_view_len(b@);
                lemma_tokens_view_index(a@, i as int);
                lemma_tokens_view_index(b@, i as int);
            }
            return false;
        }
        i += 1;
    }
    proof {
        lemma_tokens_view_len(a@);
        lemma_tokens_view_len(b@);
        assert forall|j: int| 0 <= j < tokens_view(a@).len() implies tokens_view(a@)[j]
            == tokens_view(b@)[j] by {
            lemma_tokens_view_index(a@, j);
            lemma_tokens_view_index(b@, j);
        }
        assert(tokens_view(a@) =~= tokens_view(b@));
    }
    true
}

impl Clone for Token {
    /// A clone is a token with the same model.
    fn clone(&self) -> (r: Token)
        ensures
            r@ == self@,
        decreases *self,
    {
        match self {
            Token::Ident(s) => Token::Ident(s.clone()),
            Token::Literal(s) => Token::Literal(s.clone()),
            Token::Punct(c, joint) => Token::Punct(*c, *joint),
            Token::Group(d, inner) => Token::Group(*d, clone_tokens(inner)),
        }
    }
}

/// Clones a token sequence; the result has the same model.
fn clone_tokens(v: &Vec<Token>) -> (r: Vec<Token>)
    ensures
        tokens_view(r@) == tokens_view(v@),
    decreases v@,
{
    let mut out: Vec<Token> = Vec::new();
    let mut i: usize = 0;
    while i < v.len()
        invariant
            i <= v.len(),
            out@.len() == i as int,
            forall|j: int| 0 <= j < i ==> token_view(out@[j]) == token_view(v@[j]),
        decreases v.len() - i,
    {
        out.push(v[i].clone());
        i += 1;
    }
    proof {
        lemma_tokens_view_len(out@);
        lemma_tokens_view_len(v@);
        assert forall|j: int| 0 <= j < tokens_view(out@).len() implies tokens_view(out@)[j]
            == tokens_view(v@)[j] by {
            lemma_tokens_view_index(out@, j);
            lemma_tokens_view_index(v@, j);
        }
        assert(tokens_view(out@) =~= tokens_view(v@));
    }
    out
}

} // verus!

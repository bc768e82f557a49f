//! The tokens of an expression, and the names among them.

use vstd::prelude::*;
use crate::schema::{Expression, ExpressionModel};
use crate::text::texts;

verus! {

/// One token, or a delimited group of tokens.
#[derive(Debug, PartialEq, Eq)]
pub enum Token {
    /// An identifier or a keyword.
    Ident(String),
    /// One character of punctuation.
    Punct(char),
    /// A literal, as it is written.
    Literal(String),
    /// The tokens between two delimiters.
    Group(Vec<Token>),
}

/// The identifiers among the tokens and within their groups, in the order in which they
/// are written.
pub open spec fn names_in(tokens: Seq<Token>) -> Seq<Seq<char>>
    decreases tokens,
{
    if tokens.len() == 0 {
        Seq::empty()
    } else {
        names_in(tokens.drop_last()) + names_under(tokens.last())
    }
}

/// The identifiers that a token is or holds.
pub open spec fn names_under(token: Token) -> Seq<Seq<char>>
    decreases token,
{
    match token {
        Token::Ident(name) => seq![name@],
        Token::Punct(_) => Seq::empty(),
        Token::Literal(_) => Seq::empty(),
        Token::Group(inner) => names_in(inner@),
    }
}

/// Appends to `names` the identifiers among the tokens and within their groups.
pub fn gather(tokens: &Vec<Token>, names: &mut Vec<String>)
    ensures
        texts(final(names)@) == texts(old(names)@) + names_in(tokens@),
    decreases tokens,
{
    let ghost start = texts(names@);
    let mut i: usize = 0;
    assert(tokens@.take(0) =~= Seq::<Token>::empty());
    assert(texts(names@) =~= start + names_in(tokens@.take(0)));
    while i < tokens.len()
        invariant
            i <= tokens.len(),
            texts(names@) == start + names_in(tokens@.take(i as int)),
        decreases tokens.len() - i,
    {
        let ghost before = names@;
        assert(tokens@.take(i + 1).drop_last() =~= tokens@.take(i as int));
        assert(tokens@.take(i + 1).last() == tokens@[i as int]);
        assert(names_in(tokens@.take(i + 1)) == names_in(tokens@.take(i as int)) + names_under(
            tokens@[i as int],
        ));
        match &tokens[i] {
            Token::Ident(name) => {
                names.push(name.clone());
                assert(texts(names@) =~= texts(before) + seq![name@]);
            },
            Token::Group(inner) => {
                gather(inner, names);
                assert(texts(names@) == texts(before) + names_in(inner@));
            },
            Token::Punct(_) => {
                assert(names_under(tokens@[i as int]) =~= Seq::<Seq<char>>::empty());
            },
            Token::Literal(_) => {
                assert(names_under(tokens@[i as int]) =~= Seq::<Seq<char>>::empty());
            },
        }
        assert(texts(names@) =~= start + names_in(tokens@.take(i + 1)));
        i = i + 1;
    }
    assert(tokens@.take(tokens.len() as int) =~= tokens@);
}

/// The token stream of `proc_macro2`, which this library only hands on.
#[verifier::external_type_specification]
#[verifier::external_body]
pub struct ExTokenStream(proc_macro2::TokenStream);

/// What a token stream holds: its trees in their order, each as a token of this library.
pub uninterp spec fn trees(stream: proc_macro2::TokenStream) -> Seq<Token>;

/// Hands out the trees of a stream, which `proc_macro2`'s `TokenStream::into_iter` walks, as
/// tokens of this library: an identifier and a literal as `to_string` prints them, a
/// punctuation mark as `Punct::as_char` gives it, a group as the tokens of `Group::stream`.
/// The contract claims that what comes out is what the stream holds, whole and in order.
#[verifier::external_body]
fn tokens_of(stream: proc_macro2::TokenStream) -> (r: Vec<Token>)
    ensures
        r@ == trees(stream),
{
    stream.into_iter().map(|tree| match tree {
        proc_macro2::TokenTree::Ident(i) => Token::Ident(i.to_string()),
        proc_macro2::TokenTree::Punct(p) => Token::Punct(p.as_char()),
        proc_macro2::TokenTree::Literal(l) => Token::Literal(l.to_string()),
        proc_macro2::TokenTree::Group(g) => Token::Group(tokens_of(g.stream())),
    }).collect()
}

/// The tokens that a token stream holds, in their order.
pub fn tokenize(stream: proc_macro2::TokenStream) -> (r: Vec<Token>)
    ensures
        r@ == trees(stream),
{
    tokens_of(stream)
}

impl Expression {
    /// The expression that `text` holds, where `stream` is what the text was broken into:
    /// it mentions the identifiers among the tokens of the stream and within their groups.
    pub fn parse(text: &str, stream: proc_macro2::TokenStream) -> (r: Expression)
        ensures
            r@ == (ExpressionModel { text: text@, names: names_in(trees(stream)) }),
    {
        let tokens = tokenize(stream);
        Expression::from_tokens(text, &tokens)
    }

    /// The expression of the given text and tokens: it mentions the identifiers among the
    /// tokens and within their groups.
    pub fn from_tokens(text: &str, tokens: &Vec<Token>) -> (r: Expression)
        ensures
            r@ == (ExpressionModel { text: text@, names: names_in(tokens@) }),
    {
        let mut names: Vec<String> = Vec::new();
        gather(tokens, &mut names);
        assert(texts(names@) =~= names_in(tokens@));
        Expression { text: text.to_owned(), names }
    }
}
} // verus!

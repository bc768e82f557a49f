use nom_derive::schema::Expression;
use nom_derive::text::{copy_texts, holds_text, same_text};
use nom_derive::token::{gather, tokenize, Token};

fn ident(name: &str) -> Token {
    Token::Ident(name.to_string())
}

fn lit(text: &str) -> Token {
    Token::Literal(text.to_string())
}

fn strings(list: &[&str]) -> Vec<String> {
    list.iter().map(|s| s.to_string()).collect()
}

fn stream(text: &str) -> proc_macro2::TokenStream {
    text.parse().expect("the text lexes")
}

#[test]
fn trees_of_a_stream_become_tokens() {
    let tokens = tokenize(stream("a + f(b, 1)"));
    assert_eq!(
        tokens,
        vec![
            ident("a"),
            Token::Punct('+'),
            ident("f"),
            Token::Group(vec![ident("b"), Token::Punct(','), lit("1")]),
        ]
    );
}

#[test]
fn groups_nest() {
    let tokens = tokenize(stream("[(x){y}]"));
    assert_eq!(
        tokens,
        vec![Token::Group(vec![Token::Group(vec![ident("x")]), Token::Group(vec![ident("y")])])]
    );
}

#[test]
fn empty_stream_has_no_tokens() {
    assert_eq!(tokenize(proc_macro2::TokenStream::new()), vec![]);
    assert_eq!(tokenize(stream("  \n ")), vec![]);
}

#[test]
fn expression_mentions_the_names_in_its_stream() {
    let text = "a + (b * c[d]) - f(1, \"g\")";
    let e = Expression::parse(text, stream(text));
    assert_eq!(e.text, text);
    assert_eq!(e.names, strings(&["a", "b", "c", "d", "f"]));
}

#[test]
fn expression_of_literals_mentions_nothing() {
    let e = Expression::parse("1 + 0x2 - 'c'", stream("1 + 0x2 - 'c'"));
    assert_eq!(e.names, strings(&[]));
    let wildcard = Expression::parse("_", stream("_"));
    assert_eq!(wildcard.text, "_");
}

#[test]
fn expression_keeps_the_text_it_is_given() {
    let e = Expression::parse("as written", stream("x + y"));
    assert_eq!(e.text, "as written");
    assert_eq!(e.names, strings(&["x", "y"]));
}

#[test]
fn names_are_gathered_in_order_and_through_groups() {
    let tokens = vec![
        ident("x"),
        Token::Group(vec![lit("2"), Token::Group(vec![ident("y"), Token::Punct('.'), ident("x")])]),
        Token::Punct(';'),
        ident("z"),
    ];
    let mut names = strings(&["first"]);
    gather(&tokens, &mut names);
    assert_eq!(names, strings(&["first", "x", "y", "x", "z"]));
    let e = Expression::from_tokens("any text", &tokens);
    assert_eq!(e.text, "any text");
    assert_eq!(e.names, strings(&["x", "y", "x", "z"]));
    assert_eq!(e.clone(), e);
}

#[test]
fn texts_are_compared_and_copied() {
    assert!(same_text("Selector", "Selector"));
    assert!(!same_text("Selector", "selector"));
    assert!(!same_text("", "_"));
    let list = strings(&["a", "b"]);
    assert!(holds_text(&list, "b"));
    assert!(!holds_text(&list, "c"));
    assert!(!holds_text(&vec![], "a"));
    assert_eq!(copy_texts(&list), list);
}

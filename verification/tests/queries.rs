//! End-to-end scenarios: whole query strings against their expected
//! requirement forests or errors.

use tagfilter_lang::parser::parse as parse_tokens;
use tagfilter_lang::tokenizer::{tokenize, Token};
use tagfilter_lang::{parse, FnCall, ParseError, Requirement};

#[test]
fn whitespace_only_parses_empty() {
    assert_eq!(parse(""), Ok(vec![]));
    assert_eq!(parse(" "), Ok(vec![]));
    assert_eq!(parse("   \t\n\r  "), Ok(vec![]));
}

#[test]
fn single_tag_round_trip() {
    let tokens = tokenize("foo");
    assert_eq!(&tokens, &[Token::Tag("foo")]);
    assert_eq!(
        parse_tokens(&tokens).as_deref(),
        Ok(&[Requirement::Tag("foo")][..])
    );
    assert_eq!(parse("foo").as_deref(), Ok(&[Requirement::Tag("foo")][..]));
}

#[test]
fn negation_binds_tightly() {
    assert_eq!(
        parse("!foo").as_deref(),
        Ok(&[Requirement::Not(Box::new(Requirement::Tag("foo")))][..])
    );
    assert_eq!(
        parse("!@all[foo bar]").as_deref(),
        Ok(&[Requirement::Not(Box::new(Requirement::FnCall(FnCall {
            name: "all",
            params: vec![Requirement::Tag("foo"), Requirement::Tag("bar")],
        })))][..])
    );
    // Another negation is itself a requirement, so `!` wraps it too.
    assert_eq!(
        parse("!!foo").as_deref(),
        Ok(&[Requirement::Not(Box::new(Requirement::Not(Box::new(
            Requirement::Tag("foo")
        ))))][..])
    );
}

#[test]
fn zero_arg_call() {
    assert_eq!(
        parse("@untagged").as_deref(),
        Ok(&[Requirement::FnCall(FnCall {
            name: "untagged",
            params: vec![],
        })][..])
    );
    // An empty bracket pair is also an empty parameter list.
    assert_eq!(
        parse("@untagged[]").as_deref(),
        Ok(&[Requirement::FnCall(FnCall {
            name: "untagged",
            params: vec![],
        })][..])
    );
}

#[test]
fn nested_calls() {
    assert_eq!(
        parse("@any[cat @all[dog stick]]").as_deref(),
        Ok(&[Requirement::FnCall(FnCall {
            name: "any",
            params: vec![
                Requirement::Tag("cat"),
                Requirement::FnCall(FnCall {
                    name: "all",
                    params: vec![Requirement::Tag("dog"), Requirement::Tag("stick")],
                }),
            ],
        })][..])
    );
}

#[test]
fn exact_tags_are_kept_distinct() {
    assert_eq!(
        &tokenize("$foo bar $baz"),
        &[
            Token::TagExact("foo"),
            Token::Tag("bar"),
            Token::TagExact("baz")
        ]
    );
    assert_eq!(
        parse("$foo bar $baz").as_deref(),
        Ok(&[
            Requirement::TagExact("foo"),
            Requirement::Tag("bar"),
            Requirement::TagExact("baz")
        ][..])
    );
}

#[test]
fn multiple_top_level_requirements() {
    assert_eq!(
        parse("@any[foo bar] baz").as_deref(),
        Ok(&[
            Requirement::FnCall(FnCall {
                name: "any",
                params: vec![Requirement::Tag("foo"), Requirement::Tag("bar")],
            }),
            Requirement::Tag("baz")
        ][..])
    );
}

#[test]
fn unterminated_bracket_is_unexpected_end() {
    assert_eq!(parse("@foo["), Err(ParseError::UnexpectedEnd));
    assert_eq!(parse("@foo[bar"), Err(ParseError::UnexpectedEnd));
    assert_eq!(parse("@any[@all[x]"), Err(ParseError::UnexpectedEnd));
}

#[test]
fn dangling_negation_is_unexpected_end() {
    assert_eq!(parse("!"), Err(ParseError::UnexpectedEnd));
    assert_eq!(parse("@all[!]"), Err(ParseError::UnexpectedToken(Token::RBracket)));
}

#[test]
fn stray_brackets_are_unexpected_tokens() {
    assert_eq!(parse("]"), Err(ParseError::UnexpectedToken(Token::RBracket)));
    assert_eq!(parse("["), Err(ParseError::UnexpectedToken(Token::LBracket)));
    assert_eq!(
        parse("foo]"),
        Err(ParseError::UnexpectedToken(Token::RBracket))
    );
    assert_eq!(
        parse("! [x]"),
        Err(ParseError::UnexpectedToken(Token::LBracket))
    );
}

//! Tokenizer tests over raw query text.

use tagfilter_lang::tokenizer::{tokenize, Token};

#[test]
fn exact() {
    assert_eq!(&tokenize("$foo"), &[Token::TagExact("foo")]);
    assert_eq!(&tokenize("!$foo"), &[Token::Not, Token::TagExact("foo")]);
    assert_eq!(
        &tokenize("$foo $bar $baz"),
        &[
            Token::TagExact("foo"),
            Token::TagExact("bar"),
            Token::TagExact("baz")
        ]
    );
    assert_eq!(
        &tokenize("$foo bar $baz"),
        &[
            Token::TagExact("foo"),
            Token::Tag("bar"),
            Token::TagExact("baz")
        ]
    );
}

#[test]
fn tok() {
    assert_eq!(&tokenize("foo"), &[Token::Tag("foo")]);
    assert_eq!(&tokenize("!foo"), &[Token::Not, Token::Tag("foo")]);
    assert_eq!(
        &tokenize("foo bar baz"),
        &[Token::Tag("foo"), Token::Tag("bar"), Token::Tag("baz")]
    );
    assert_eq!(
        &tokenize("foo !bar baz"),
        &[
            Token::Tag("foo"),
            Token::Not,
            Token::Tag("bar"),
            Token::Tag("baz")
        ]
    );
    assert_eq!(&tokenize("@any"), &[Token::FunIdent("any")]);
    assert_eq!(
        &tokenize("@all[foo bar]"),
        &[
            Token::FunIdent("all"),
            Token::LBracket,
            Token::Tag("foo"),
            Token::Tag("bar"),
            Token::RBracket
        ]
    );
    assert_eq!(
        &tokenize("@any[foo @all[bar baz] @special] ["),
        &[
            Token::FunIdent("any"),
            Token::LBracket,
            Token::Tag("foo"),
            Token::FunIdent("all"),
            Token::LBracket,
            Token::Tag("bar"),
            Token::Tag("baz"),
            Token::RBracket,
            Token::FunIdent("special"),
            Token::RBracket,
            Token::LBracket,
        ]
    );
}

#[test]
fn empty_and_whitespace_tokenize_to_nothing() {
    assert_eq!(&tokenize(""), &[] as &[Token]);
    assert_eq!(&tokenize(" "), &[] as &[Token]);
    assert_eq!(&tokenize(" \t\r\n\x0c "), &[] as &[Token]);
}

#[test]
fn empty_names_are_flushed() {
    // `@` or `$` at the end of input opens a name that is flushed empty.
    assert_eq!(&tokenize("@"), &[Token::FunIdent("")]);
    assert_eq!(&tokenize("$"), &[Token::TagExact("")]);
    // A delimiter right after the opener closes the name empty as well.
    assert_eq!(&tokenize("@["), &[Token::FunIdent(""), Token::LBracket]);
    assert_eq!(&tokenize("$ x"), &[Token::TagExact(""), Token::Tag("x")]);
}

#[test]
fn brackets_close_names_in_the_same_step() {
    assert_eq!(&tokenize("foo]"), &[Token::Tag("foo"), Token::RBracket]);
    assert_eq!(&tokenize("@fun[x]"), &[
        Token::FunIdent("fun"),
        Token::LBracket,
        Token::Tag("x"),
        Token::RBracket
    ]);
}

#[test]
fn non_ascii_text_extends_a_tag() {
    assert_eq!(&tokenize("h\u{e9}llo"), &[Token::Tag("h\u{e9}llo")]);
    assert_eq!(
        &tokenize("caf\u{e9} $th\u{e9}"),
        &[Token::Tag("caf\u{e9}"), Token::TagExact("th\u{e9}")]
    );
}

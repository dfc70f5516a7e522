//! The worked examples from the crate documentation, parsed end to end.

use tagfilter_lang::parse;
use tagfilter_lang::FnCall as Fc;
use tagfilter_lang::Requirement::{FnCall, Not, Tag};

#[test]
fn test_readme_examples() {
    // == tag examples ==

    assert_eq!(parse("hello-world").as_deref(), Ok(&[Tag("hello-world")][..]));
    assert_eq!(
        parse("hello@i@am@a@tag").as_deref(),
        Ok(&[Tag("hello@i@am@a@tag")][..])
    );
    assert_eq!(
        parse("brick(character)").as_deref(),
        Ok(&[Tag("brick(character)")][..])
    );
    assert_eq!(parse("2").as_deref(), Ok(&[Tag("2")][..]));

    // == negation examples ==

    // Matches anything that isn't tagged foo
    assert_eq!(parse("!foo").as_deref(), Ok(&[Not(Box::new(Tag("foo")))][..]));
    // Matches anything that isn't tagged both foo and bar
    assert_eq!(
        parse("!@all[foo bar]").as_deref(),
        Ok(&[Not(Box::new(FnCall(Fc {
            name: "all",
            params: vec![Tag("foo"), Tag("bar")],
        })))][..])
    );

    // == main examples at the end ==

    // Matches the tag bicycle
    assert_eq!(parse("bicycle").as_deref(), Ok(&[Tag("bicycle")][..]));
    // Matches everything that isn't tagged bicycle
    assert_eq!(
        parse("!bicycle").as_deref(),
        Ok(&[Not(Box::new(Tag("bicycle")))][..])
    );
    // Must match either foo or bar, and also it has to match baz
    assert_eq!(
        parse("@any[foo bar] baz").as_deref(),
        Ok(&[
            FnCall(Fc {
                name: "any",
                params: vec![Tag("foo"), Tag("bar")],
            }),
            Tag("baz")
        ][..])
    );
    // Matches either a cat, or a dog with a stick
    assert_eq!(
        parse("@any[cat @all[dog stick]]").as_deref(),
        Ok(&[FnCall(Fc {
            name: "any",
            params: vec![
                Tag("cat"),
                FnCall(Fc {
                    name: "all",
                    params: vec![Tag("dog"), Tag("stick")],
                }),
            ],
        })][..])
    );
    // Matches things that are not tagged
    assert_eq!(
        parse("@untagged").as_deref(),
        Ok(&[FnCall(Fc {
            name: "untagged",
            params: vec![],
        })][..])
    );
}

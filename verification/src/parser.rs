//! Recursive-descent parser for the query language.
//!
//! [`parse`] consumes a token sequence with single-token lookahead and
//! produces the ordered forest of top-level requirements, or the first error
//! met. The spec-level parser [`spec_parse`] pins down, token by token, which
//! result that is.

use vstd::prelude::*;

verus! {

use crate::tokenizer::{Token, TokenView, tokens_view};

/// Error that can happen when parsing a requirements string
#[derive(Debug, PartialEq)]
pub enum ParseError<'a> {
    /// An unexpected token was encountered
    UnexpectedToken(Token<'a>),
    /// Expected a specific token, but got another one (or none)
    Mismatch {
        /// The token we expected
        expected: Token<'a>,
        /// The token we actually got
        got: Option<Token<'a>>,
    },
    /// Unexpected end when we were expecting more tokens
    UnexpectedEnd,
}

/// A requirement for how to match tags
#[derive(Debug, PartialEq)]
pub enum Requirement<'a> {
    /// Tag requirement like `foo`
    Tag(&'a str),
    /// `$mytag` should be matched exactly (no implies-relationship)
    TagExact(&'a str),
    /// Function call requirement like `@myfun[param1 param2]`
    FnCall(FnCall<'a>),
    /// Negate the results of the child requirement
    Not(Box<Requirement<'a>>),
}

/// A function call requirement
#[derive(Debug, PartialEq)]
pub struct FnCall<'a> {
    /// The name of the function
    pub name: &'a str,
    /// The list of parameters
    pub params: Vec<Requirement<'a>>,
}

/// Spec-level image of a [`ParseError`], over token views.
pub enum ParseErrorView {
    /// Image of [`ParseError::UnexpectedToken`].
    UnexpectedToken(TokenView),
    /// Image of [`ParseError::Mismatch`].
    Mismatch {
        /// Image of the expected token.
        expected: TokenView,
        /// Image of the token actually got.
        got: Option<TokenView>,
    },
    /// Image of [`ParseError::UnexpectedEnd`].
    UnexpectedEnd,
}

/// Spec-level image of a [`FnCall`].
pub struct FnCallView {
    /// The name of the function.
    pub name: Seq<char>,
    /// The ordered parameter list.
    pub params: Seq<ReqView>,
}

/// Spec-level image of a [`Requirement`].
pub enum ReqView {
    /// Image of [`Requirement::Tag`].
    Tag(Seq<char>),
    /// Image of [`Requirement::TagExact`].
    TagExact(Seq<char>),
    /// Image of [`Requirement::FnCall`].
    FnCall(FnCallView),
    /// Image of [`Requirement::Not`].
    Not(Box<ReqView>),
}

/// The spec-level image of a parse error.
pub open spec fn error_view(e: ParseError) -> ParseErrorView {
    match e {
        ParseError::UnexpectedToken(t) => ParseErrorView::UnexpectedToken(t@),
        ParseError::Mismatch { expected, got } => ParseErrorView::Mismatch {
            expected: expected@,
            got: match got {
                Some(t) => Some(t@),
                None => None,
            },
        },
        ParseError::UnexpectedEnd => ParseErrorView::UnexpectedEnd,
    }
}

/// The spec-level image of a requirement node.
pub open spec fn req_view(r: Requirement) -> ReqView
    decreases r,
{
    match r {
        Requirement::Tag(name) => ReqView::Tag(name@),
        Requirement::TagExact(name) => ReqView::TagExact(name@),
        Requirement::FnCall(fc) => ReqView::FnCall(fn_call_view(fc)),
        Requirement::Not(inner) => ReqView::Not(Box::new(req_view(*inner))),
    }
}

/// The spec-level image of a function call node.
pub open spec fn fn_call_view(fc: FnCall) -> FnCallView
    decreases fc,
{
    FnCallView { name: fc.name@, params: reqs_view(fc.params@) }
}

/// The spec-level images of a requirement sequence, element by element.
pub open spec fn reqs_view(s: Seq<Requirement>) -> Seq<ReqView>
    decreases s,
{
    if s.len() == 0 {
        seq![]
    } else {
        seq![req_view(s[0])] + reqs_view(s.skip(1))
    }
}

/// [`reqs_view`] maps element by element: it keeps the length and views
/// each position.
pub proof fn lemma_reqs_view_index(s: Seq<Requirement>)
    ensures
        reqs_view(s).len() == s.len(),
        forall|j: int| 0 <= j < s.len() ==> reqs_view(s)[j] == req_view(s[j]),
    decreases s,
{
    if s.len() > 0 {
        lemma_reqs_view_index(s.skip(1));
    }
}

/// Appending one requirement appends its view.
pub proof fn lemma_reqs_view_push(s: Seq<Requirement>, r: Requirement)
    ensures
        reqs_view(s.push(r)) == reqs_view(s) + seq![req_view(r)],
{
    lemma_reqs_view_index(s.push(r));
    lemma_reqs_view_index(s);
    assert(reqs_view(s.push(r)) =~= reqs_view(s) + seq![req_view(r)]);
}

/// What parsing one requirement from the front of `toks` yields: the node
/// and the remaining tokens, or the first error.
///
/// A leading `!` wraps exactly one following requirement; a function
/// identifier hands over to [`spec_parse_fn_call`]; a tag is a leaf; a
/// bracket where a requirement is expected is `UnexpectedToken`, and an empty
/// sequence is `UnexpectedEnd`.
pub open spec fn spec_parse_requirement(toks: Seq<TokenView>) -> Result<
    (ReqView, Seq<TokenView>),
    ParseErrorView,
>
    decreases toks.len(), 0int,
{
    if toks.len() == 0 {
        Err(ParseErrorView::UnexpectedEnd)
    } else {
        match toks[0] {
            TokenView::FunIdent(name) => match spec_parse_fn_call(name, toks.skip(1)) {
                Ok((fc, rest)) => Ok((ReqView::FnCall(fc), rest)),
                Err(e) => Err(e),
            },
            TokenView::Tag(name) => Ok((ReqView::Tag(name), toks.skip(1))),
            TokenView::TagExact(name) => Ok((ReqView::TagExact(name), toks.skip(1))),
            TokenView::Not => match spec_parse_requirement(toks.skip(1)) {
                Ok((inner, rest)) => Ok((ReqView::Not(Box::new(inner)), rest)),
                Err(e) => Err(e),
            },
            TokenView::LBracket => Err(ParseErrorView::UnexpectedToken(toks[0])),
            TokenView::RBracket => Err(ParseErrorView::UnexpectedToken(toks[0])),
        }
    }
}

/// What a function call named `name` yields when its identifier has been
/// consumed and `toks` follows: a bracketed parameter list if a `[` is next,
/// else a zero-argument call consuming nothing.
pub open spec fn spec_parse_fn_call(name: Seq<char>, toks: Seq<TokenView>) -> Result<
    (FnCallView, Seq<TokenView>),
    ParseErrorView,
>
    decreases toks.len(), 1int,
{
    if toks.len() > 0 && toks[0] == TokenView::LBracket {
        match spec_parse_fn_params(toks.skip(1)) {
            Ok((params, rest)) => Ok((FnCallView { name, params }, rest)),
            Err(e) => Err(e),
        }
    } else {
        Ok((FnCallView { name, params: seq![] }, toks))
    }
}

/// What a bracketed parameter list yields once its `[` has been consumed:
/// requirements in order up to the matching `]` (which is consumed), or
/// `UnexpectedEnd` if the tokens run out first.
///
/// The inner branch recurses on the tokens a requirement leaves over; a
/// requirement always consumes at least one token, so the fallback arm of
/// the measure guard is never the one taken.
pub open spec fn spec_parse_fn_params(toks: Seq<TokenView>) -> Result<
    (Seq<ReqView>, Seq<TokenView>),
    ParseErrorView,
>
    decreases toks.len(), 1int,
{
    if toks.len() == 0 {
        Err(ParseErrorView::UnexpectedEnd)
    } else if toks[0] == TokenView::RBracket {
        Ok((seq![], toks.skip(1)))
    } else {
        match spec_parse_requirement(toks) {
            Ok((req, rest)) => {
                let next = if rest.len() < toks.len() {
                    rest
                } else {
                    toks.skip(1)
                };
                match spec_parse_fn_params(next) {
                    Ok((params, rest2)) => Ok((seq![req] + params, rest2)),
                    Err(e) => Err(e),
                }
            },
            Err(e) => Err(e),
        }
    }
}

/// What parsing a whole token sequence yields: top-level requirements in
/// order until the tokens are exhausted, or the first error.
///
/// As in [`spec_parse_fn_params`], the fallback arm of the measure guard is
/// never the one taken.
pub open spec fn spec_parse(toks: Seq<TokenView>) -> Result<Seq<ReqView>, ParseErrorView>
    decreases toks.len(),
{
    if toks.len() == 0 {
        Ok(seq![])
    } else {
        match spec_parse_requirement(toks) {
            Ok((req, rest)) => {
                let next = if rest.len() < toks.len() {
                    rest
                } else {
                    toks.skip(1)
                };
                match spec_parse(next) {
                    Ok(reqs) => Ok(seq![req] + reqs),
                    Err(e) => Err(e),
                }
            },
            Err(e) => Err(e),
        }
    }
}

/// How many tokens of `s` equal `t`.
pub open spec fn count_token(s: Seq<TokenView>, t: TokenView) -> int
    decreases s,
{
    if s.len() == 0 {
        0
    } else {
        (if s[0] == t {
            1int
        } else {
            0int
        }) + count_token(s.skip(1), t)
    }
}

/// Facts about one parsed requirement: it consumes at least one token, the
/// consumed segment holds as many `[` as `]`, and a failure is always
/// `UnexpectedEnd` or `UnexpectedToken`.
pub proof fn lemma_requirement_facts(toks: Seq<TokenView>)
    ensures
        spec_parse_requirement(toks) matches Ok((req, rest)) ==> {
            &&& rest.len() < toks.len()
            &&& count_token(toks, TokenView::LBracket) - count_token(rest, TokenView::LBracket)
                == count_token(toks, TokenView::RBracket) - count_token(
                rest,
                TokenView::RBracket,
            )
        },
        spec_parse_requirement(toks) matches Err(e) ==> (e is UnexpectedEnd
            || e is UnexpectedToken),
    decreases toks.len(), 0int,
{
    if toks.len() > 0 {
        match toks[0] {
            TokenView::FunIdent(name) => {
                lemma_fn_call_facts(name, toks.skip(1));
            },
            TokenView::Not => {
                lemma_requirement_facts(toks.skip(1));
            },
            _ => {},
        }
    }
}

/// Facts about a parsed call tail: it consumes nothing, or a `[`, a
/// parameter list and the matching `]`, so its consumed segment holds as
/// many `[` as `]`; a failure is `UnexpectedEnd` or `UnexpectedToken`.
pub proof fn lemma_fn_call_facts(name: Seq<char>, toks: Seq<TokenView>)
    ensures
        spec_parse_fn_call(name, toks) matches Ok((fc, rest)) ==> {
            &&& rest.len() <= toks.len()
            &&& count_token(toks, TokenView::LBracket) - count_token(rest, TokenView::LBracket)
                == count_token(toks, TokenView::RBracket) - count_token(
                rest,
                TokenView::RBracket,
            )
        },
        spec_parse_fn_call(name, toks) matches Err(e) ==> (e is UnexpectedEnd
            || e is UnexpectedToken),
    decreases toks.len(), 1int,
{
    if toks.len() > 0 && toks[0] == TokenView::LBracket {
        lemma_fn_params_facts(toks.skip(1));
    }
}

/// Facts about a parsed parameter list: it consumes through the matching
/// `]`, so its consumed segment holds exactly one more `]` than `[`; a
/// failure is `UnexpectedEnd` or `UnexpectedToken`.
pub proof fn lemma_fn_params_facts(toks: Seq<TokenView>)
    ensures
        spec_parse_fn_params(toks) matches Ok((params, rest)) ==> {
            &&& rest.len() < toks.len()
            &&& count_token(toks, TokenView::RBracket) - count_token(rest, TokenView::RBracket)
                == count_token(toks, TokenView::LBracket) - count_token(rest, TokenView::LBracket)
                + 1
        },
        spec_parse_fn_params(toks) matches Err(e) ==> (e is UnexpectedEnd
            || e is UnexpectedToken),
    decreases toks.len(), 1int,
{
    if toks.len() == 0 {
    } else if toks[0] == TokenView::RBracket {
    } else {
        lemma_requirement_facts(toks);
        if spec_parse_requirement(toks) is Ok {
            let (req, rest1) = spec_parse_requirement(toks)->Ok_0;
            lemma_fn_params_facts(rest1);
        }
    }
}

/// Law: brackets pair up. A token sequence that parses successfully holds
/// as many `[` tokens as `]` tokens; one whose counts differ is rejected,
/// and any parse failure is `UnexpectedEnd` (tokens ran out mid-construct)
/// or `UnexpectedToken` (a bracket where a requirement was expected) —
/// never anything else.
pub proof fn lemma_brackets_balanced(toks: Seq<TokenView>)
    ensures
        spec_parse(toks) is Ok ==> count_token(toks, TokenView::LBracket) == count_token(
            toks,
            TokenView::RBracket,
        ),
        spec_parse(toks) matches Err(e) ==> (e is UnexpectedEnd || e is UnexpectedToken),
        count_token(toks, TokenView::LBracket) != count_token(toks, TokenView::RBracket)
            ==> spec_parse(toks) is Err,
    decreases toks.len(),
{
    if toks.len() > 0 {
        lemma_requirement_facts(toks);
        if spec_parse_requirement(toks) is Ok {
            let (req, rest) = spec_parse_requirement(toks)->Ok_0;
            lemma_brackets_balanced(rest);
        }
    }
}

/// Law: negation binds to exactly one following requirement. Parsing a
/// requirement from a sequence that opens with `!` parses one requirement
/// from what follows and wraps just that node, leaving the same remainder;
/// a failure passes through unchanged.
pub proof fn lemma_negation_binds_one(toks: Seq<TokenView>)
    ensures
        spec_parse_requirement(seq![TokenView::Not] + toks) == (
        match spec_parse_requirement(toks) {
            Ok((inner, rest)) => Ok::<_, ParseErrorView>((ReqView::Not(Box::new(inner)), rest)),
            Err(e) => Err::<(ReqView, Seq<TokenView>), _>(e),
        }),
{
    let s = seq![TokenView::Not] + toks;
    assert(s[0] == TokenView::Not);
    assert(s.skip(1) =~= toks);
}

/// Parse a token sequence into the forest of top-level requirements, or the
/// first error encountered.
pub fn parse<'tvec, 'src: 'tvec>(tokens: &'tvec [Token<'src>]) -> (r: Result<
    Vec<Requirement<'src>>,
    ParseError<'src>,
>)
    ensures
        match r {
            Ok(reqs) => spec_parse(tokens_view(tokens@)) == Ok::<_, ParseErrorView>(
                reqs_view(reqs@),
            ),
            Err(e) => spec_parse(tokens_view(tokens@)) == Err::<Seq<ReqView>, _>(error_view(e)),
        },
{
    let ghost tv = tokens_view(tokens@);
    let n = tokens.len();
    let mut i: usize = 0;
    let mut reqs: Vec<Requirement<'src>> = Vec::new();
    proof {
        assert(tv.skip(0) =~= tv);
        assert(reqs_view(reqs@) =~= Seq::<ReqView>::empty());
    }
    while i < n
        invariant
            n == tokens@.len(),
            i <= n,
            tv == tokens_view(tokens@),
            spec_parse(tv) == (match spec_parse(tv.skip(i as int)) {
                Ok(rs) => Ok::<_, ParseErrorView>(reqs_view(reqs@) + rs),
                Err(e) => Err::<Seq<ReqView>, _>(e),
            }),
        decreases n - i,
    {
        let ghost i0: int = i as int;
        match parse_requirement(tokens, &mut i) {
            Ok(req) => {
                proof {
                    lemma_step_parse(tv, i0, i as int, req_view(req));
                    lemma_reqs_view_push(reqs@, req);
                    if spec_parse(tv.skip(i as int)) is Ok {
                        let rs = spec_parse(tv.skip(i as int))->Ok_0;
                        assert((reqs_view(reqs@) + seq![req_view(req)]) + rs =~= reqs_view(reqs@)
                            + (seq![req_view(req)] + rs));
                    }
                }
                reqs.push(req);
            },
            Err(e) => {
                return Err(e);
            },
        }
    }
    proof {
        assert(tv.skip(n as int) =~= Seq::<TokenView>::empty());
        assert(reqs_view(reqs@) + Seq::<ReqView>::empty() =~= reqs_view(reqs@));
    }
    Ok(reqs)
}

/// One unfolding of [`spec_parse`] at a non-empty suffix, with the measure
/// guard resolved: when a requirement parses and leaves the strictly shorter
/// suffix at `i1`, the remaining forest continues there.
proof fn lemma_step_parse(tv: Seq<TokenView>, i0: int, i1: int, rv: ReqView)
    requires
        0 <= i0 < i1 <= tv.len(),
        spec_parse_requirement(tv.skip(i0)) == Ok::<_, ParseErrorView>((rv, tv.skip(i1))),
    ensures
        spec_parse(tv.skip(i0)) == (match spec_parse(tv.skip(i1)) {
            Ok(rs) => Ok::<_, ParseErrorView>(seq![rv] + rs),
            Err(e) => Err::<Seq<ReqView>, _>(e),
        }),
{
    assert(tv.skip(i0).len() == tv.len() - i0);
    assert(tv.skip(i1).len() == tv.len() - i1);
}

/// Parse one requirement starting at `*i`, advancing `*i` past it.
fn parse_requirement<'tvec, 'src: 'tvec>(tokens: &'tvec [Token<'src>], i: &mut usize) -> (r:
    Result<Requirement<'src>, ParseError<'src>>)
    requires
        *old(i) <= tokens@.len(),
    ensures
        *old(i) <= *final(i) <= tokens@.len(),
        match r {
            Ok(req) => *old(i) < *final(i) && spec_parse_requirement(
                tokens_view(tokens@).skip(*old(i) as int),
            ) == Ok::<_, ParseErrorView>(
                (req_view(req), tokens_view(tokens@).skip(*final(i) as int)),
            ),
            Err(e) => spec_parse_requirement(tokens_view(tokens@).skip(*old(i) as int))
                == Err::<(ReqView, Seq<TokenView>), _>(error_view(e)),
        },
    decreases tokens@.len() - *old(i), 0int,
{
    let ghost tv = tokens_view(tokens@);
    let ghost i0: int = *i as int;
    if *i >= tokens.len() {
        proof {
            assert(tv.skip(i0).len() == 0);
        }
        return Err(ParseError::UnexpectedEnd);
    }
    let tok = tokens[*i];
    *i += 1;
    proof {
        assert(tv.skip(i0)[0] == tv[i0]);
        assert(tv.skip(i0).skip(1) =~= tv.skip(i0 + 1));
        assert(tv.skip(i0).len() == tv.len() - i0);
    }
    match tok {
        Token::FunIdent(name) => {
            match parse_fn_call(name, tokens, i) {
                Ok(fc) => Ok(Requirement::FnCall(fc)),
                Err(e) => Err(e),
            }
        },
        Token::Tag(name) => Ok(Requirement::Tag(name)),
        Token::TagExact(name) => Ok(Requirement::TagExact(name)),
        Token::Not => {
            match parse_requirement(tokens, i) {
                Ok(inner) => Ok(Requirement::Not(Box::new(inner))),
                Err(e) => Err(e),
            }
        },
        Token::LBracket => Err(ParseError::UnexpectedToken(tok)),
        Token::RBracket => Err(ParseError::UnexpectedToken(tok)),
    }
}

/// Parse what follows a function identifier: a bracketed parameter list if a
/// `[` is next (consuming through the matching `]`), else nothing.
fn parse_fn_call<'tvec, 'src: 'tvec>(
    name: &'src str,
    tokens: &'tvec [Token<'src>],
    i: &mut usize,
) -> (r: Result<FnCall<'src>, ParseError<'src>>)
    requires
        *old(i) <= tokens@.len(),
    ensures
        *old(i) <= *final(i) <= tokens@.len(),
        match r {
            Ok(fc) => spec_parse_fn_call(name@, tokens_view(tokens@).skip(*old(i) as int))
                == Ok::<_, ParseErrorView>(
                (fn_call_view(fc), tokens_view(tokens@).skip(*final(i) as int)),
            ),
            Err(e) => spec_parse_fn_call(name@, tokens_view(tokens@).skip(*old(i) as int))
                == Err::<(FnCallView, Seq<TokenView>), _>(error_view(e)),
        },
    decreases tokens@.len() - *old(i), 1int,
{
    let ghost tv = tokens_view(tokens@);
    let ghost i0: int = *i as int;
    proof {
        assert(tv.skip(i0).len() == tv.len() - i0);
    }
    if *i < tokens.len() {
        let tok = tokens[*i];
        proof {
            assert(tv.skip(i0)[0] == tv[i0]);
            assert(tv.skip(i0).skip(1) =~= tv.skip(i0 + 1));
        }
        match tok {
            Token::LBracket => {
                *i += 1;
                match parse_fn_params(tokens, i) {
                    Ok(params) => {
                        let fc = FnCall { name, params };
                        proof {
                            assert(fn_call_view(fc).params == reqs_view(fc.params@));
                        }
                        Ok(fc)
                    },
                    Err(e) => Err(e),
                }
            },
            _ => {
                let fc = FnCall { name, params: Vec::new() };
                proof {
                    assert(reqs_view(fc.params@) =~= Seq::<ReqView>::empty());
                    assert(fn_call_view(fc) == (FnCallView { name: name@, params: seq![] }));
                }
                Ok(fc)
            },
        }
    } else {
        let fc = FnCall { name, params: Vec::new() };
        proof {
            assert(reqs_view(fc.params@) =~= Seq::<ReqView>::empty());
            assert(fn_call_view(fc) == (FnCallView { name: name@, params: seq![] }));
        }
        Ok(fc)
    }
}

/// Parse the parameters of a bracketed call up to and including the matching
/// `]`, starting just past the `[`.
fn parse_fn_params<'tvec, 'src: 'tvec>(tokens: &'tvec [Token<'src>], i: &mut usize) -> (r: Result<
    Vec<Requirement<'src>>,
    ParseError<'src>,
>)
    requires
        *old(i) <= tokens@.len(),
    ensures
        *old(i) <= *final(i) <= tokens@.len(),
        match r {
            Ok(params) => spec_parse_fn_params(tokens_view(tokens@).skip(*old(i) as int))
                == Ok::<_, ParseErrorView>(
                (reqs_view(params@), tokens_view(tokens@).skip(*final(i) as int)),
            ),
            Err(e) => spec_parse_fn_params(tokens_view(tokens@).skip(*old(i) as int))
                == Err::<(Seq<ReqView>, Seq<TokenView>), _>(error_view(e)),
        },
    decreases tokens@.len() - *old(i), 1int,
{
    let ghost tv = tokens_view(tokens@);
    let ghost i0: int = *i as int;
    proof {
        assert(tv.skip(i0).len() == tv.len() - i0);
    }
    if *i >= tokens.len() {
        return Err(ParseError::UnexpectedEnd);
    }
    let tok = tokens[*i];
    proof {
        assert(tv.skip(i0)[0] == tv[i0]);
        assert(tv.skip(i0).skip(1) =~= tv.skip(i0 + 1));
    }
    match tok {
        Token::RBracket => {
            *i += 1;
            let params: Vec<Requirement<'src>> = Vec::new();
            proof {
                assert(reqs_view(params@) =~= Seq::<ReqView>::empty());
                assert(Seq::<ReqView>::empty() =~= seq![]);
            }
            Ok(params)
        },
        _ => {
            let req = match parse_requirement(tokens, i) {
                Ok(q) => q,
                Err(e) => {
                    return Err(e);
                },
            };
            let ghost i1: int = *i as int;
            let mut rest = match parse_fn_params(tokens, i) {
                Ok(p) => p,
                Err(e) => {
                    proof {
                        assert(tv.skip(i1).len() < tv.skip(i0).len());
                    }
                    return Err(e);
                },
            };
            proof {
                assert(tv.skip(i1).len() < tv.skip(i0).len());
            }
            let ghost rest0 = rest@;
            rest.insert(0, req);
            proof {
                assert(rest@.skip(1) =~= rest0);
                assert(rest@[0] == req);
                assert(reqs_view(rest@) == seq![req_view(req)] + reqs_view(rest0));
            }
            Ok(rest)
        },
    }
}

} // verus!

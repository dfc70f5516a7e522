//! Lexical scanner for the query language.
//!
//! [`tokenize`] runs a three-state machine over the characters of the input
//! and never fails: every input yields some token sequence. The spec-level
//! scanner [`spec_tokenize`] states, character by character, which sequence
//! that is.

use vstd::prelude::*;

verus! {

/// A lexical unit of the query language.
///
/// Name-carrying tokens borrow their text from the input; the borrowed span
/// never includes the delimiter (`@`, `$`, `[`, `]`, whitespace) that opened
/// or closed it.
#[derive(PartialEq, Debug, Clone, Copy)]
pub enum Token<'a> {
    /// Function identifier e.g. `@any`.
    ///
    /// The payload is the identifier without the `@` part.
    FunIdent(&'a str),
    /// A tag, e.g. `forest` or `cool-stuff`
    Tag(&'a str),
    /// `$mytag` should be matched exactly (no implies-relationship)
    TagExact(&'a str),
    /// `[`
    LBracket,
    /// `]`
    RBracket,
    /// `!`
    Not,
}

/// Spec-level image of a [`Token`]: the same shape over `Seq<char>`.
pub enum TokenView {
    /// Image of [`Token::FunIdent`].
    FunIdent(Seq<char>),
    /// Image of [`Token::Tag`].
    Tag(Seq<char>),
    /// Image of [`Token::TagExact`].
    TagExact(Seq<char>),
    /// Image of [`Token::LBracket`].
    LBracket,
    /// Image of [`Token::RBracket`].
    RBracket,
    /// Image of [`Token::Not`].
    Not,
}

impl<'a> View for Token<'a> {
    type V = TokenView;

    open spec fn view(&self) -> TokenView {
        match *self {
            Token::FunIdent(name) => TokenView::FunIdent(name@),
            Token::Tag(name) => TokenView::Tag(name@),
            Token::TagExact(name) => TokenView::TagExact(name@),
            Token::LBracket => TokenView::LBracket,
            Token::RBracket => TokenView::RBracket,
            Token::Not => TokenView::Not,
        }
    }
}

/// The views of a token sequence, element by element.
pub open spec fn tokens_view(tokens: Seq<Token>) -> Seq<TokenView> {
    tokens.map_values(|t: Token| t@)
}

/// The ASCII whitespace characters, as the scanner classifies them.
pub open spec fn is_lex_whitespace(c: char) -> bool {
    c == ' ' || c == '\t' || c == '\n' || c == '\x0c' || c == '\r'
}

/// A character that ends a name in progress: whitespace or a bracket.
pub open spec fn is_delimiter(c: char) -> bool {
    c == '[' || c == ']' || is_lex_whitespace(c)
}

/// Scanner state, with the start position of any name in progress.
pub enum LexState {
    /// No token in progress.
    Init,
    /// Scanning a function identifier begun (after its `@`) at `begin`.
    FunIdent {
        /// First character position of the identifier text.
        begin: int,
    },
    /// Scanning a plain (`exact == false`) or `$`-prefixed tag begun at `begin`.
    Tag {
        /// Whether the tag was opened by `$`.
        exact: bool,
        /// First character position of the tag text.
        begin: int,
    },
}

/// The token emitted when scanning ends at `end` in state `st`: nothing from
/// `Init`, otherwise the buffered name covering `[begin, end)`.
pub open spec fn spec_flush(text: Seq<char>, end: int, st: LexState) -> Seq<TokenView> {
    match st {
        LexState::Init => seq![],
        LexState::FunIdent { begin } => seq![TokenView::FunIdent(text.subrange(begin, end))],
        LexState::Tag { exact, begin } => if exact {
            seq![TokenView::TagExact(text.subrange(begin, end))]
        } else {
            seq![TokenView::Tag(text.subrange(begin, end))]
        },
    }
}

/// Rank used to order scanner states in the termination measure: a state
/// with a name in progress may flush and re-read the same character in
/// `Init`, so `Init` must rank below the other states.
pub open spec fn lex_rank(st: LexState) -> int {
    match st {
        LexState::Init => 0,
        _ => 1,
    }
}

/// The tokens produced from position `pos` onward, starting in state `st`.
///
/// This is the scanner's transition table: in `Init`, `@` and `$` open a
/// name, brackets and `!` are emitted at once, whitespace is skipped and any
/// other character opens a plain tag; a name in progress is closed by
/// whitespace or a bracket (the delimiter is then re-read in `Init`, so a
/// closing bracket is still emitted) and extended by anything else.
pub open spec fn spec_scan(text: Seq<char>, pos: int, st: LexState) -> Seq<TokenView>
    decreases text.len() - pos, lex_rank(st),
{
    if pos < 0 || pos >= text.len() {
        spec_flush(text, text.len() as int, st)
    } else {
        let c = text[pos];
        match st {
            LexState::Init => {
                if c == '@' {
                    spec_scan(text, pos + 1, LexState::FunIdent { begin: pos + 1 })
                } else if c == '[' {
                    seq![TokenView::LBracket] + spec_scan(text, pos + 1, LexState::Init)
                } else if c == ']' {
                    seq![TokenView::RBracket] + spec_scan(text, pos + 1, LexState::Init)
                } else if c == '!' {
                    seq![TokenView::Not] + spec_scan(text, pos + 1, LexState::Init)
                } else if c == '$' {
                    spec_scan(text, pos + 1, LexState::Tag { exact: true, begin: pos + 1 })
                } else if is_lex_whitespace(c) {
                    spec_scan(text, pos + 1, LexState::Init)
                } else {
                    spec_scan(text, pos + 1, LexState::Tag { exact: false, begin: pos })
                }
            },
            _ => {
                if is_delimiter(c) {
                    spec_flush(text, pos, st) + spec_scan(text, pos, LexState::Init)
                } else {
                    spec_scan(text, pos + 1, st)
                }
            },
        }
    }
}

/// The full token sequence of a text: scanning from the start in `Init`.
pub open spec fn spec_tokenize(text: Seq<char>) -> Seq<TokenView> {
    spec_scan(text, 0, LexState::Init)
}

/// Law: from any position at which only whitespace is left, scanning in
/// `Init` yields no tokens at all. With `pos == 0` this says that an input
/// of nothing but whitespace (or nothing at all) has an empty token
/// sequence.
pub proof fn lemma_whitespace_scans_empty(text: Seq<char>, pos: int)
    requires
        0 <= pos <= text.len(),
        forall|j: int| pos <= j < text.len() ==> is_lex_whitespace(text[j]),
    ensures
        spec_scan(text, pos, LexState::Init) == Seq::<TokenView>::empty(),
    decreases text.len() - pos,
{
    if pos < text.len() {
        assert(is_lex_whitespace(text[pos]));
        lemma_whitespace_scans_empty(text, pos + 1);
    }
}

/// Runtime scanner state; `begin` is tracked beside it, as a position into
/// the input.
enum Status {
    Init,
    FunIdent,
    Tag { exact: bool },
}

/// Whether `c` is one of the ASCII whitespace characters.
fn is_whitespace_char(c: char) -> (r: bool)
    ensures
        r == is_lex_whitespace(c),
{
    c == ' ' || c == '\t' || c == '\n' || c == '\x0c' || c == '\r'
}

/// The spec state that runtime state `status` with start position `begin`
/// stands for.
spec fn status_view(status: Status, begin: int) -> LexState {
    match status {
        Status::Init => LexState::Init,
        Status::FunIdent => LexState::FunIdent { begin },
        Status::Tag { exact } => LexState::Tag { exact, begin },
    }
}

/// Scan `input` into its token sequence. Never fails: malformed syntax is
/// left to the parser.
pub fn tokenize<'a>(input: &'a str) -> (tokens: Vec<Token<'a>>)
    ensures
        tokens_view(tokens@) == spec_tokenize(input@),
{
    let n = input.unicode_len();
    let mut tokens: Vec<Token<'a>> = Vec::new();
    let mut status = Status::Init;
    let mut begin: usize = 0;
    let mut pos: usize = 0;
    proof {
        assert(tokens_view(tokens@) =~= seq![]);
    }
    while pos < n
        invariant
            n == input@.len(),
            pos <= n,
            begin <= pos,
            spec_tokenize(input@) == tokens_view(tokens@) + spec_scan(
                input@,
                pos as int,
                status_view(status, begin as int),
            ),
        decreases n - pos,
    {
        let c = input.get_char(pos);
        let ghost st = status_view(status, begin as int);
        match status {
            Status::Init => {
                if c == '@' {
                    begin = pos + 1;
                    status = Status::FunIdent;
                } else if c == '[' {
                    push_token(Ghost(input@), &mut tokens, Token::LBracket, Ghost(pos as int + 1), Ghost(LexState::Init));
                } else if c == ']' {
                    push_token(Ghost(input@), &mut tokens, Token::RBracket, Ghost(pos as int + 1), Ghost(LexState::Init));
                } else if c == '!' {
                    push_token(Ghost(input@), &mut tokens, Token::Not, Ghost(pos as int + 1), Ghost(LexState::Init));
                } else if c == '$' {
                    begin = pos + 1;
                    status = Status::Tag { exact: true };
                } else if is_whitespace_char(c) {
                    // insignificant between tokens
                } else {
                    begin = pos;
                    status = Status::Tag { exact: false };
                }
            },
            Status::FunIdent => {
                if c == '[' || c == ']' || is_whitespace_char(c) {
                    let name = input.substring_char(begin, pos);
                    proof {
                        assert(spec_scan(input@, pos as int, st) =~= spec_flush(input@, pos as int, st)
                            + spec_scan(input@, pos as int, LexState::Init));
                    }
                    push_token(Ghost(input@), &mut tokens, Token::FunIdent(name), Ghost(pos as int), Ghost(LexState::Init));
                    status = Status::Init;
                    if c == '[' {
                        push_token(Ghost(input@), &mut tokens, Token::LBracket, Ghost(pos as int + 1), Ghost(LexState::Init));
                    } else if c == ']' {
                        push_token(Ghost(input@), &mut tokens, Token::RBracket, Ghost(pos as int + 1), Ghost(LexState::Init));
                    }
                }
            },
            Status::Tag { exact } => {
                if c == '[' || c == ']' || is_whitespace_char(c) {
                    let name = input.substring_char(begin, pos);
                    let tok = if exact {
                        Token::TagExact(name)
                    } else {
                        Token::Tag(name)
                    };
                    proof {
                        assert(spec_scan(input@, pos as int, st) =~= spec_flush(input@, pos as int, st)
                            + spec_scan(input@, pos as int, LexState::Init));
                    }
                    push_token(Ghost(input@), &mut tokens, tok, Ghost(pos as int), Ghost(LexState::Init));
                    status = Status::Init;
                    if c == '[' {
                        push_token(Ghost(input@), &mut tokens, Token::LBracket, Ghost(pos as int + 1), Ghost(LexState::Init));
                    } else if c == ']' {
                        push_token(Ghost(input@), &mut tokens, Token::RBracket, Ghost(pos as int + 1), Ghost(LexState::Init));
                    }
                }
            },
        }
        pos = pos + 1;
    }
    // End of input: a name in progress is flushed as a final token.
    match status {
        Status::Init => {},
        Status::FunIdent => {
            let name = input.substring_char(begin, n);
            push_token(Ghost(input@), &mut tokens, Token::FunIdent(name), Ghost(n as int), Ghost(LexState::Init));
        },
        Status::Tag { exact } => {
            let name = input.substring_char(begin, n);
            let tok = if exact {
                Token::TagExact(name)
            } else {
                Token::Tag(name)
            };
            push_token(Ghost(input@), &mut tokens, tok, Ghost(n as int), Ghost(LexState::Init));
        },
    }
    proof {
        assert(spec_scan(input@, input@.len() as int, LexState::Init) =~= seq![]);
        assert(tokens_view(tokens@) =~= spec_tokenize(input@));
    }
    tokens
}

/// Append `tok` to `tokens`, keeping the running scan equation: before the
/// call the remaining scan starts with `tok@`, afterwards it resumes at
/// `pos` in state `st`.
fn push_token<'a>(
    Ghost(text): Ghost<Seq<char>>,
    tokens: &mut Vec<Token<'a>>,
    tok: Token<'a>,
    Ghost(pos): Ghost<int>,
    Ghost(st): Ghost<LexState>,
)
    requires
        spec_tokenize(text) == tokens_view(old(tokens)@) + (seq![tok@] + spec_scan(
            text,
            pos,
            st,
        )),
    ensures
        spec_tokenize(text) == tokens_view(final(tokens)@) + spec_scan(text, pos, st),
        final(tokens)@ == old(tokens)@.push(tok),
{
    proof {
        assert(tokens_view(old(tokens)@.push(tok)) =~= tokens_view(old(tokens)@) + seq![tok@]);
        assert((tokens_view(old(tokens)@) + seq![tok@]) + spec_scan(text, pos, st) =~= tokens_view(
            old(tokens)@,
        ) + (seq![tok@] + spec_scan(text, pos, st)));
    }
    tokens.push(tok);
}

} // verus!

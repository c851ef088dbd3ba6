//! The lexer: source text to tokens. Positions and spans count characters.
use vstd::prelude::*;

use crate::vec_deque::VecDeque;

verus! {

/// Whether `c` has Unicode's `White_Space` property.
pub uninterp spec fn whitespace_class(c: char) -> bool;

/// Whether `c` is alphabetic or numeric in Unicode.
pub uninterp spec fn alphanumeric_class(c: char) -> bool;

/// Whether `c` is a control character.
pub uninterp spec fn control_class(c: char) -> bool;

/// Whether `c` may start a Unicode identifier (`XID_Start`).
pub uninterp spec fn xid_start_class(c: char) -> bool;

/// Whether `c` may continue a Unicode identifier (`XID_Continue`).
pub uninterp spec fn xid_continue_class(c: char) -> bool;

/// Relies on `char::is_whitespace`.
#[verifier::external_body]
fn is_whitespace(c: char) -> (r: bool)
    ensures
        r == whitespace_class(c),
{
    c.is_whitespace()
}

/// Relies on `char::is_alphanumeric`.
#[verifier::external_body]
fn is_alphanumeric(c: char) -> (r: bool)
    ensures
        r == alphanumeric_class(c),
{
    c.is_alphanumeric()
}

/// Relies on `char::is_control`.
#[verifier::external_body]
fn is_control(c: char) -> (r: bool)
    ensures
        r == control_class(c),
{
    c.is_control()
}

/// Relies on `unicode_ident::is_xid_start`.
#[verifier::external_body]
fn is_xid_start(c: char) -> (r: bool)
    ensures
        r == xid_start_class(c),
{
    unicode_ident::is_xid_start(c)
}

/// Relies on `unicode_ident::is_xid_continue`.
#[verifier::external_body]
fn is_xid_continue(c: char) -> (r: bool)
    ensures
        r == xid_continue_class(c),
{
    unicode_ident::is_xid_continue(c)
}

/// A range of character positions.
#[derive(Clone, Copy, Debug, PartialEq, Eq, Structural)]
pub struct Span {
    pub start: usize,
    pub end: usize,
}

/// A bracket pair; `Empty` is the invisible group that wraps a template.
#[derive(Clone, Copy, Debug, PartialEq, Eq, Structural)]
pub enum Delimiter {
    Parenthesis,
    Brace,
    Bracket,
    Empty,
}

/// The base of a number literal.
#[derive(Clone, Copy, Debug, PartialEq, Eq, Structural)]
pub enum NumberBase {
    Decimal,
    Hex,
    Binary,
    Octal,
}

/// Identifiers that the lexer makes up for the tokens it synthesises.
#[derive(Clone, Copy, Debug, PartialEq, Eq, Structural)]
pub enum BuiltIn {
    Doc,
    BuiltIn,
    Literal,
    Template,
}

/// Reserved words.
#[derive(Clone, Copy, Debug, PartialEq, Eq, Structural)]
pub enum Keyword {
    As,
    Async,
    Await,
    Break,
    Const,
    Continue,
    Else,
    Enum,
    False,
    Fn,
    For,
    If,
    Impl,
    In,
    Is,
    Let,
    Loop,
    Match,
    Mod,
    Pub,
    Return,
    SelfValue,
    Struct,
    True,
    Use,
    While,
    Yield,
}

/// What a token is.
#[derive(Clone, Copy, Debug, PartialEq, Eq, Structural)]
pub enum Kind {
    Whitespace,
    Comment,
    /// A block comment; whether it was closed.
    MultilineComment(bool),
    Shebang,
    Ident,
    BuiltInIdent(BuiltIn),
    Keyword(Keyword),
    Underscore,
    Number { base: NumberBase, is_fractional: bool, number: Span, suffix: Span },
    Char,
    Label,
    Byte,
    Str { escaped: bool, wrapped: bool },
    ByteStr { escaped: bool },
    TemplateString,
    Open(Delimiter),
    Close(Delimiter),
    PlusEq,
    DashEq,
    StarEq,
    SlashEq,
    PercEq,
    AmpEq,
    CaretEq,
    PipeEq,
    ColonColon,
    LtEq,
    GtEq,
    EqEq,
    BangEq,
    AmpAmp,
    PipePipe,
    LtLt,
    LtLtEq,
    GtGt,
    GtGtEq,
    DotDot,
    DotDotEq,
    Rocket,
    Arrow,
    Comma,
    Colon,
    Pound,
    Dot,
    SemiColon,
    Eq,
    Plus,
    Dash,
    Div,
    Star,
    Amp,
    Gt,
    Lt,
    Bang,
    QuestionMark,
    Pipe,
    Perc,
    Caret,
    At,
    Dollar,
    Tilde,
}

/// A token and the characters it covers.
#[derive(Clone, Copy, Debug, PartialEq, Eq, Structural)]
pub struct Token {
    pub kind: Kind,
    pub span: Span,
}

/// What the lexer is inside of: code, with the number of braces open in a
/// template expression, or a template string, with the number of its parts
/// so far.
#[derive(Clone, Copy, Debug, PartialEq, Eq, Structural)]
pub enum LexerMode {
    Default(usize),
    Template(usize),
}

/// Why lexing failed.
#[derive(Clone, Copy, Debug, PartialEq, Eq, Structural)]
pub enum ErrorKind {
    ExpectedEscape,
    UnterminatedStrLit,
    UnterminatedByteStrLit,
    UnterminatedCharLit,
    UnterminatedByteLit,
    ExpectedCharClose,
    ExpectedCharOrLabel,
    ExpectedByteClose,
    UnexpectedChar { c: char },
    UnexpectedEof,
    BadLexerMode { actual: LexerMode, expected: LexerMode },
    /// The token queue could not grow.
    Alloc,
}

/// A lexing failure and where it happened.
#[derive(Clone, Copy, Debug, PartialEq, Eq, Structural)]
pub struct LexError {
    pub span: Span,
    pub kind: ErrorKind,
}

/// The text of a punctuation kind.
pub open spec fn punct_text(k: Kind) -> Option<Seq<char>> {
    match k {
        Kind::PlusEq => Some(seq!['+', '=']),
        Kind::DashEq => Some(seq!['-', '=']),
        Kind::StarEq => Some(seq!['*', '=']),
        Kind::SlashEq => Some(seq!['/', '=']),
        Kind::PercEq => Some(seq!['%', '=']),
        Kind::AmpEq => Some(seq!['&', '=']),
        Kind::CaretEq => Some(seq!['^', '=']),
        Kind::PipeEq => Some(seq!['|', '=']),
        Kind::ColonColon => Some(seq![':', ':']),
        Kind::LtEq => Some(seq!['<', '=']),
        Kind::GtEq => Some(seq!['>', '=']),
        Kind::EqEq => Some(seq!['=', '=']),
        Kind::BangEq => Some(seq!['!', '=']),
        Kind::AmpAmp => Some(seq!['&', '&']),
        Kind::PipePipe => Some(seq!['|', '|']),
        Kind::LtLt => Some(seq!['<', '<']),
        Kind::LtLtEq => Some(seq!['<', '<', '=']),
        Kind::GtGt => Some(seq!['>', '>']),
        Kind::GtGtEq => Some(seq!['>', '>', '=']),
        Kind::DotDot => Some(seq!['.', '.']),
        Kind::DotDotEq => Some(seq!['.', '.', '=']),
        Kind::Rocket => Some(seq!['=', '>']),
        Kind::Arrow => Some(seq!['-', '>']),
        Kind::Open(Delimiter::Parenthesis) => Some(seq!['(']),
        Kind::Close(Delimiter::Parenthesis) => Some(seq![')']),
        Kind::Open(Delimiter::Brace) => Some(seq!['{']),
        Kind::Close(Delimiter::Brace) => Some(seq!['}']),
        Kind::Open(Delimiter::Bracket) => Some(seq!['[']),
        Kind::Close(Delimiter::Bracket) => Some(seq![']']),
        Kind::Comma => Some(seq![',']),
        Kind::Colon => Some(seq![':']),
        Kind::Pound => Some(seq!['#']),
        Kind::Dot => Some(seq!['.']),
        Kind::SemiColon => Some(seq![';']),
        Kind::Eq => Some(seq!['=']),
        Kind::Plus => Some(seq!['+']),
        Kind::Dash => Some(seq!['-']),
        Kind::Div => Some(seq!['/']),
        Kind::Star => Some(seq!['*']),
        Kind::Amp => Some(seq!['&']),
        Kind::Gt => Some(seq!['>']),
        Kind::Lt => Some(seq!['<']),
        Kind::Bang => Some(seq!['!']),
        Kind::QuestionMark => Some(seq!['?']),
        Kind::Pipe => Some(seq!['|']),
        Kind::Perc => Some(seq!['%']),
        Kind::Caret => Some(seq!['^']),
        Kind::At => Some(seq!['@']),
        Kind::Dollar => Some(seq!['$']),
        Kind::Tilde => Some(seq!['~']),
        _ => None,
    }
}

/// Whether `c` is an ASCII digit.
pub open spec fn is_digit(c: char) -> bool {
    '0' <= c <= '9'
}

/// Whether the text `t` is a token of kind `k`, read from source.
pub open spec fn fits(k: Kind, t: Seq<char>) -> bool {
    match k {
        Kind::Whitespace => t.len() >= 1 && forall|i: int| 0 <= i < t.len() ==> whitespace_class(#[trigger] t[i]),
        Kind::Comment => t.len() >= 2 && t[0] == '/' && t[1] == '/' && forall|i: int| 0 <= i < t.len() ==> #[trigger] t[i] != '\n',
        Kind::Shebang => t.len() >= 2 && t[0] == '#' && t[1] == '!' && forall|i: int| 0 <= i < t.len() ==> #[trigger] t[i] != '\n',
        Kind::MultilineComment(closed) => t.len() >= 2 && t[0] == '/' && t[1] == '*' && (closed ==> t.len() >= 4
            && t[t.len() - 2] == '*' && t[t.len() - 1] == '/'),
        Kind::Ident => t.len() >= 1 && (t[0] == '_' || xid_start_class(t[0])) && (forall|i: int|
            1 <= i < t.len() ==> xid_continue_class(#[trigger] t[i])) && t != seq!['_'],
        Kind::Underscore => t == seq!['_'],
        Kind::Keyword(w) => t == keyword_text(w),
        Kind::Number { .. } => t.len() >= 1 && is_digit(t[0]),
        Kind::Char => t.len() >= 2 && t[0] == '\'',
        Kind::Label => t.len() >= 2 && t[0] == '\'',
        Kind::Byte => t.len() >= 3 && t[0] == 'b' && t[1] == '\'' && t[t.len() - 1] == '\'',
        Kind::Str { .. } => t.len() >= 2 && t[0] == '"' && t[t.len() - 1] == '"',
        Kind::ByteStr { .. } => t.len() >= 3 && t[0] == 'b' && t[1] == '"' && t[t.len() - 1] == '"',
        Kind::TemplateString => t.len() >= 1 && t[0] == '`',
        _ => punct_text(k) == Some(t),
    }
}

/// Whether the token of kind `k` over `start..end` of `src` is the
/// longest one there: the character after it cannot continue it.
pub open spec fn maximal(k: Kind, src: Seq<char>, start: int, end: int) -> bool {
    end >= src.len() || match k {
        Kind::Whitespace => !whitespace_class(src[end]),
        Kind::Comment | Kind::Shebang => src[end] == '\n',
        Kind::Ident | Kind::Keyword(_) | Kind::Underscore => !xid_continue_class(src[end]),
        Kind::Number { .. } => src[end] == '.' || (!alphanumeric_class(src[end]) && src[end] != '_'),
        Kind::LtLt | Kind::GtGt | Kind::DotDot => src[end] != '=',
        _ => (end - start == 1 && punct_text(k) is Some) ==> (forall|j: Kind|
            #[trigger] punct_text(j) != Some(seq![src[start], src[end]])) && !(src[start] == '/' && (src[end]
            == '/' || src[end] == '*')),
    }
}

/// Whether `c` starts no token: no whitespace, punctuation, identifier,
/// number, quote or backtick.
pub open spec fn starts_no_token(c: char) -> bool {
    &&& !whitespace_class(c)
    &&& forall|k: Kind| #[trigger] punct_text(k) != Some(seq![c])
    &&& c != '_'
    &&& !xid_start_class(c)
    &&& !is_digit(c)
    &&& c != '"'
    &&& c != '\''
    &&& c != '`'
}

/// Why reading a token that starts with `c` at `start` in `src` (in code
/// `level` braces deep, with `queued` tokens waiting) may fail, having
/// read up to `end`.
pub open spec fn scan_error(k: ErrorKind, c: char, level: usize, src: Seq<char>, start: int, end: int, queued: nat) -> bool {
    match k {
        ErrorKind::UnexpectedChar { c: d } => d == c && (starts_no_token(c) || (c == '{' && level == usize::MAX)),
        ErrorKind::ExpectedEscape | ErrorKind::UnterminatedStrLit | ErrorKind::UnterminatedByteStrLit
        | ErrorKind::ExpectedByteClose => end == src.len(),
        ErrorKind::UnterminatedCharLit | ErrorKind::UnterminatedByteLit => exists|p: int|
            start < p < src.len() && control_class(#[trigger] src[p]),
        ErrorKind::ExpectedCharOrLabel => c == '\'' && start + 1 == src.len(),
        ErrorKind::ExpectedCharClose => c == '\'' && start + 1 < src.len() && src[start + 1] == '\'',
        ErrorKind::BadLexerMode { .. } => c == '}' && level > 0,
        ErrorKind::Alloc => queued + 11 >= usize::MAX || (c == '}' && level == 1),
        ErrorKind::UnexpectedEof => false,
    }
}

/// Whether `t` is one of the tokens a template's text produces.
pub open spec fn template_part(t: Token) -> bool {
    t.kind == Kind::Comma || t.kind matches Kind::Str { wrapped: false, .. } || t.kind == Kind::Close(
        Delimiter::Parenthesis,
    ) || t.kind == Kind::Close(Delimiter::Empty)
}

/// Whether every token of `buf` from position `n` on is a template part
/// starting at or after `from`.
pub open spec fn parts_since(buf: Seq<Token>, n: int, from: int) -> bool {
    forall|i: int| n <= i < buf.len() ==> template_part(#[trigger] buf[i]) && buf[i].span.start >= from
}

/// Why reading template text may fail, having read `src` up to `end`, in
/// mode `mode`: the text ends before `${` or the closing backtick, a `$` is
/// not followed by `{`, the lexer is not in a template, or the queue is
/// full.
pub open spec fn template_error(k: ErrorKind, src: Seq<char>, end: int, mode: LexerMode) -> bool {
    match k {
        ErrorKind::UnexpectedEof | ErrorKind::ExpectedEscape => end == src.len(),
        ErrorKind::UnexpectedChar { c } => c != '{' && 2 <= end <= src.len() && src[end - 2] == '$' && src[end - 1] == c,
        ErrorKind::BadLexerMode { .. } => !(mode is Template),
        ErrorKind::Alloc => true,
        _ => false,
    }
}

/// The text of a keyword.
pub open spec fn keyword_text(w: Keyword) -> Seq<char> {
    match w {
        Keyword::As => seq!['a', 's'],
        Keyword::Async => seq!['a', 's', 'y', 'n', 'c'],
        Keyword::Await => seq!['a', 'w', 'a', 'i', 't'],
        Keyword::Break => seq!['b', 'r', 'e', 'a', 'k'],
        Keyword::Const => seq!['c', 'o', 'n', 's', 't'],
        Keyword::Continue => seq!['c', 'o', 'n', 't', 'i', 'n', 'u', 'e'],
        Keyword::Else => seq!['e', 'l', 's', 'e'],
        Keyword::Enum => seq!['e', 'n', 'u', 'm'],
        Keyword::False => seq!['f', 'a', 'l', 's', 'e'],
        Keyword::Fn => seq!['f', 'n'],
        Keyword::For => seq!['f', 'o', 'r'],
        Keyword::If => seq!['i', 'f'],
        Keyword::Impl => seq!['i', 'm', 'p', 'l'],
        Keyword::In => seq!['i', 'n'],
        Keyword::Is => seq!['i', 's'],
        Keyword::Let => seq!['l', 'e', 't'],
        Keyword::Loop => seq!['l', 'o', 'o', 'p'],
        Keyword::Match => seq!['m', 'a', 't', 'c', 'h'],
        Keyword::Mod => seq!['m', 'o', 'd'],
        Keyword::Pub => seq!['p', 'u', 'b'],
        Keyword::Return => seq!['r', 'e', 't', 'u', 'r', 'n'],
        Keyword::SelfValue => seq!['s', 'e', 'l', 'f'],
        Keyword::Struct => seq!['s', 't', 'r', 'u', 'c', 't'],
        Keyword::True => seq!['t', 'r', 'u', 'e'],
        Keyword::Use => seq!['u', 's', 'e'],
        Keyword::While => seq!['w', 'h', 'i', 'l', 'e'],
        Keyword::Yield => seq!['y', 'i', 'e', 'l', 'd'],
    }
}

/// The keyword spelled by `t`, if any.
pub open spec fn keyword_of(t: Seq<char>) -> Option<Keyword> {
    if t == keyword_text(Keyword::As) { Some(Keyword::As) }
    else if t == keyword_text(Keyword::Async) { Some(Keyword::Async) }
    else if t == keyword_text(Keyword::Await) { Some(Keyword::Await) }
    else if t == keyword_text(Keyword::Break) { Some(Keyword::Break) }
    else if t == keyword_text(Keyword::Const) { Some(Keyword::Const) }
    else if t == keyword_text(Keyword::Continue) { Some(Keyword::Continue) }
    else if t == keyword_text(Keyword::Else) { Some(Keyword::Else) }
    else if t == keyword_text(Keyword::Enum) { Some(Keyword::Enum) }
    else if t == keyword_text(Keyword::False) { Some(Keyword::False) }
    else if t == keyword_text(Keyword::Fn) { Some(Keyword::Fn) }
    else if t == keyword_text(Keyword::For) { Some(Keyword::For) }
    else if t == keyword_text(Keyword::If) { Some(Keyword::If) }
    else if t == keyword_text(Keyword::Impl) { Some(Keyword::Impl) }
    else if t == keyword_text(Keyword::In) { Some(Keyword::In) }
    else if t == keyword_text(Keyword::Is) { Some(Keyword::Is) }
    else if t == keyword_text(Keyword::Let) { Some(Keyword::Let) }
    else if t == keyword_text(Keyword::Loop) { Some(Keyword::Loop) }
    else if t == keyword_text(Keyword::Match) { Some(Keyword::Match) }
    else if t == keyword_text(Keyword::Mod) { Some(Keyword::Mod) }
    else if t == keyword_text(Keyword::Pub) { Some(Keyword::Pub) }
    else if t == keyword_text(Keyword::Return) { Some(Keyword::Return) }
    else if t == keyword_text(Keyword::SelfValue) { Some(Keyword::SelfValue) }
    else if t == keyword_text(Keyword::Struct) { Some(Keyword::Struct) }
    else if t == keyword_text(Keyword::True) { Some(Keyword::True) }
    else if t == keyword_text(Keyword::Use) { Some(Keyword::Use) }
    else if t == keyword_text(Keyword::While) { Some(Keyword::While) }
    else if t == keyword_text(Keyword::Yield) { Some(Keyword::Yield) }
    else { None }
}

/// The kind of a two-character operator starting with `a`, `b`.
pub fn punct2(a: char, b: char) -> (r: Option<Kind>)
    ensures
        r matches Some(k) ==> punct_text(k) == Some(seq![a, b]),
        r is None ==> forall|k: Kind| #[trigger] punct_text(k) != Some(seq![a, b]),
{
    match (a, b) {
        ('+', '=') => Some(Kind::PlusEq),
        ('-', '=') => Some(Kind::DashEq),
        ('*', '=') => Some(Kind::StarEq),
        ('/', '=') => Some(Kind::SlashEq),
        ('%', '=') => Some(Kind::PercEq),
        ('&', '=') => Some(Kind::AmpEq),
        ('^', '=') => Some(Kind::CaretEq),
        ('|', '=') => Some(Kind::PipeEq),
        (':', ':') => Some(Kind::ColonColon),
        ('<', '=') => Some(Kind::LtEq),
        ('>', '=') => Some(Kind::GtEq),
        ('=', '=') => Some(Kind::EqEq),
        ('!', '=') => Some(Kind::BangEq),
        ('&', '&') => Some(Kind::AmpAmp),
        ('|', '|') => Some(Kind::PipePipe),
        ('<', '<') => Some(Kind::LtLt),
        ('>', '>') => Some(Kind::GtGt),
        ('.', '.') => Some(Kind::DotDot),
        ('=', '>') => Some(Kind::Rocket),
        ('-', '>') => Some(Kind::Arrow),
        _ => {
            proof {
                assert forall|k: Kind| #[trigger] punct_text(k) != Some(seq![a, b]) by {
                    if punct_text(k) == Some(seq![a, b]) {
                        let t = punct_text(k)->0;
                        assert(t.len() == 2 && t[0] == a && t[1] == b);
                    }
                }
            }
            None
        },
    }
}

/// The kind of a one-character token `c`.
pub fn punct1(c: char) -> (r: Option<Kind>)
    ensures
        r matches Some(k) ==> punct_text(k) == Some(seq![c]),
        r is None ==> forall|k: Kind| #[trigger] punct_text(k) != Some(seq![c]),
{
    match c {
        '(' => Some(Kind::Open(Delimiter::Parenthesis)),
        ')' => Some(Kind::Close(Delimiter::Parenthesis)),
        '{' => Some(Kind::Open(Delimiter::Brace)),
        '}' => Some(Kind::Close(Delimiter::Brace)),
        '[' => Some(Kind::Open(Delimiter::Bracket)),
        ']' => Some(Kind::Close(Delimiter::Bracket)),
        ',' => Some(Kind::Comma),
        ':' => Some(Kind::Colon),
        '#' => Some(Kind::Pound),
        '.' => Some(Kind::Dot),
        ';' => Some(Kind::SemiColon),
        '=' => Some(Kind::Eq),
        '+' => Some(Kind::Plus),
        '-' => Some(Kind::Dash),
        '/' => Some(Kind::Div),
        '*' => Some(Kind::Star),
        '&' => Some(Kind::Amp),
        '>' => Some(Kind::Gt),
        '<' => Some(Kind::Lt),
        '!' => Some(Kind::Bang),
        '?' => Some(Kind::QuestionMark),
        '|' => Some(Kind::Pipe),
        '%' => Some(Kind::Perc),
        '^' => Some(Kind::Caret),
        '@' => Some(Kind::At),
        '$' => Some(Kind::Dollar),
        '~' => Some(Kind::Tilde),
        _ => {
            proof {
                assert forall|k: Kind| #[trigger] punct_text(k) != Some(seq![c]) by {
                    if punct_text(k) == Some(seq![c]) {
                        let t = punct_text(k)->0;
                        assert(t.len() == 1 && t[0] == c);
                    }
                }
            }
            None
        },
    }
}

/// The lexer's mode stack; an empty stack reads as `Default(0)`.
pub struct LexerModes {
    modes: Vec<LexerMode>,
}

impl LexerModes {
    pub closed spec fn stack(&self) -> Seq<LexerMode> {
        self.modes@
    }

    /// The innermost mode, as contracts see it.
    pub open spec fn last_spec(&self) -> LexerMode {
        if self.stack().len() == 0 {
            LexerMode::Default(0)
        } else {
            self.stack().last()
        }
    }

    /// An empty stack.
    pub fn new() -> (r: Self)
        ensures
            r.stack() == Seq::<LexerMode>::empty(),
    {
        LexerModes { modes: Vec::new() }
    }

    /// The innermost mode.
    pub fn last(&self) -> (r: LexerMode)
        ensures
            r == self.last_spec(),
    {
        if self.modes.len() == 0 {
            LexerMode::Default(0)
        } else {
            self.modes[self.modes.len() - 1]
        }
    }

    /// Enters `mode`.
    pub fn push(&mut self, mode: LexerMode)
        ensures
            final(self).stack() == old(self).stack().push(mode),
    {
        self.modes.push(mode);
    }

    /// Leaves the innermost mode, which must be `expected`.
    pub fn pop(&mut self, at: usize, expected: LexerMode) -> (r: Result<(), LexError>)
        ensures
            final(self).stack() == (if old(self).stack().len() == 0 {
                old(self).stack()
            } else {
                old(self).stack().drop_last()
            }),
            r is Ok <==> old(self).last_spec() == expected,
            r matches Err(e) ==> e == (LexError {
                span: Span { start: at, end: at },
                kind: ErrorKind::BadLexerMode { actual: old(self).last_spec(), expected },
            }),
    {
        let actual = match self.modes.pop() {
            Some(m) => m,
            None => LexerMode::Default(0),
        };
        if actual != expected {
            return Err(
                LexError {
                    span: Span { start: at, end: at },
                    kind: ErrorKind::BadLexerMode { actual, expected },
                },
            );
        }
        Ok(())
    }

    /// Adds one to the part count of the innermost template; fails outside
    /// a template, reporting `span`.
    pub fn expression_count_add(&mut self, span: Span) -> (r: Result<usize, LexError>)
        ensures
            old(self).last_spec() matches LexerMode::Template(n) ==> (n < usize::MAX ==> r == Ok::<usize, LexError>((n + 1) as usize)
                && final(self).stack() == old(self).stack().drop_last().push(LexerMode::Template((n + 1) as usize))),
            r matches Err(e) ==> e.kind is BadLexerMode || e.kind == ErrorKind::Alloc,
            old(self).last_spec() is Template ==> (r matches Err(e) ==> e.kind == ErrorKind::Alloc),
            old(self).last_spec() matches LexerMode::Template(n) ==> (n == usize::MAX ==> r is Err),
            !(old(self).last_spec() is Template) ==> r == Err::<usize, LexError>(LexError {
                span,
                kind: ErrorKind::BadLexerMode { actual: LexerMode::Default(0), expected: LexerMode::Template(0) },
            }) && final(self).stack() == old(self).stack(),
    {
        let n = self.modes.len();
        if n > 0 {
            match self.modes[n - 1] {
                LexerMode::Template(count) => {
                    if count == usize::MAX {
                        return Err(LexError { span, kind: ErrorKind::Alloc });
                    }
                    self.modes.set(n - 1, LexerMode::Template(count + 1));
                    proof {
                        assert(self.modes@ =~= old(self).stack().drop_last().push(LexerMode::Template((count + 1) as usize)));
                    }
                    return Ok(count + 1);
                },
                LexerMode::Default(_) => {},
            }
        }
        Err(
            LexError {
                span,
                kind: ErrorKind::BadLexerMode {
                    actual: LexerMode::Default(0),
                    expected: LexerMode::Template(0),
                },
            },
        )
    }

    /// The part count of the innermost template; fails outside a template.
    pub fn expression_count(&self, span: Span) -> (r: Result<usize, LexError>)
        ensures
            self.last_spec() matches LexerMode::Template(n) ==> r == Ok::<usize, LexError>(n),
            !(self.last_spec() is Template) ==> r is Err,
            r matches Err(e) ==> e.kind is BadLexerMode,
    {
        match self.last() {
            LexerMode::Template(n) => Ok(n),
            LexerMode::Default(_) => Err(
                LexError {
                    span,
                    kind: ErrorKind::BadLexerMode {
                        actual: LexerMode::Default(0),
                        expected: LexerMode::Template(0),
                    },
                },
            ),
        }
    }
}

/// What one scan in code mode produced.
pub enum Scanned {
    /// A token read from the source.
    Token(Token),
    /// Tokens were queued, or the mode changed; the lexer reads on.
    Queued,
}

/// The lexer over one source.
pub struct Lexer {
    src: Vec<char>,
    cursor: usize,
    modes: LexerModes,
    buffer: VecDeque<Token>,
    shebang: bool,
    process: bool,
}

impl Lexer {
    /// The source's characters.
    pub closed spec fn source(&self) -> Seq<char> {
        self.src@
    }

    /// The position of the next character to read.
    pub closed spec fn pos(&self) -> nat {
        self.cursor as nat
    }

    /// The number of synthesised tokens waiting to be handed out.
    pub closed spec fn queued(&self) -> nat {
        self.buffer@.len()
    }

    /// The synthesised tokens waiting to be handed out.
    pub closed spec fn queued_tokens(&self) -> Seq<Token> {
        self.buffer@
    }

    /// The innermost mode.
    pub closed spec fn mode(&self) -> LexerMode {
        self.modes.last_spec()
    }

    pub closed spec fn wf(&self) -> bool {
        &&& self.cursor <= self.src@.len()
        &&& self.buffer.wf()
        &&& forall|i: int| 0 <= i < self.buffer@.len() ==> (#[trigger] self.buffer@[i]).span.start
            <= self.buffer@[i].span.end <= self.src@.len()
    }

    /// A lexer at the start of `source`; with `shebang`, a leading `#!` line
    /// is read as one token.
    pub fn new(source: &str, shebang: bool) -> (r: Self)
        ensures
            r.wf(),
            r.source() == source@,
            r.pos() == 0,
            r.queued() == 0,
            r.mode() == LexerMode::Default(0),
    {
        let mut src: Vec<char> = Vec::new();
        for c in it: source.chars()
            invariant
                src@.len() == it.index(),
                forall|i: int| 0 <= i < src@.len() ==> src@[i] == it.seq()[i],
        {
            src.push(c);
        }
        proof {
            assert(src@ =~= source@);
        }
        Lexer {
            src,
            cursor: 0,
            modes: LexerModes::new(),
            buffer: VecDeque::new(),
            shebang,
            process: true,
        }
    }

    /// The same lexer, reading doc comments and templates as plain tokens.
    pub fn without_processing(self) -> (r: Self)
        requires
            self.wf(),
        ensures
            r.wf(),
            r.source() == self.source(),
            r.pos() == self.pos(),
    {
        Lexer { process: false, ..self }
    }

    /// The span of the whole source.
    pub fn span(&self) -> (r: Span)
        ensures
            r.start == 0,
            r.end == self.source().len(),
    {
        Span { start: 0, end: self.src.len() }
    }

    fn peek(&self) -> (r: Option<char>)
        ensures
            self.cursor < self.src@.len() ==> r == Some(self.src@[self.cursor as int]),
            self.cursor >= self.src@.len() ==> r is None,
    {
        if self.cursor < self.src.len() {
            Some(self.src[self.cursor])
        } else {
            None
        }
    }

    fn peek2(&self) -> (r: Option<char>)
        ensures
            self.cursor + 1 < self.src@.len() ==> r == Some(self.src@[self.cursor + 1]),
            self.cursor + 1 >= self.src@.len() ==> r is None,
    {
        if self.cursor < self.src.len() && self.cursor + 1 < self.src.len() {
            Some(self.src[self.cursor + 1])
        } else {
            None
        }
    }

    /// Skips whitespace.
    fn consume_whitespace(&mut self)
        requires
            old(self).wf(),
        ensures
            final(self).wf(),
            same_but_cursor(*old(self), *final(self)),
            final(self).cursor >= old(self).cursor,
            forall|i: int| old(self).cursor <= i < final(self).cursor ==> whitespace_class(#[trigger] final(self).src@[i]),
            final(self).cursor == final(self).src@.len() || !whitespace_class(final(self).src@[final(self).cursor as int]),
    {
        while self.cursor < self.src.len() && is_whitespace(self.src[self.cursor])
            invariant
                self.wf(),
                same_but_cursor(*old(self), *self),
                self.cursor >= old(self).cursor,
                forall|i: int| old(self).cursor <= i < self.cursor ==> whitespace_class(#[trigger] self.src@[i]),
            decreases self.src@.len() - self.cursor,
        {
            self.cursor = self.cursor + 1;
        }
    }

    /// Skips to the end of the line, not past it.
    fn consume_line(&mut self)
        requires
            old(self).wf(),
        ensures
            final(self).wf(),
            same_but_cursor(*old(self), *final(self)),
            final(self).cursor >= old(self).cursor,
            forall|i: int| old(self).cursor <= i < final(self).cursor ==> #[trigger] final(self).src@[i] != '\n',
            final(self).cursor == final(self).src@.len() || final(self).src@[final(self).cursor as int] == '\n',
    {
        while self.cursor < self.src.len() && self.src[self.cursor] != '\n'
            invariant
                self.wf(),
                same_but_cursor(*old(self), *self),
                self.cursor >= old(self).cursor,
                forall|i: int| old(self).cursor <= i < self.cursor ==> #[trigger] self.src@[i] != '\n',
            decreases self.src@.len() - self.cursor,
        {
            self.cursor = self.cursor + 1;
        }
    }

    /// Skips a block comment's body, just after its `/*`; whether its `*/`
    /// was found.
    fn consume_multiline_comment(&mut self) -> (r: bool)
        requires
            old(self).wf(),
        ensures
            final(self).wf(),
            same_but_cursor(*old(self), *final(self)),
            final(self).cursor >= old(self).cursor,
            r ==> final(self).cursor >= old(self).cursor + 2 && final(self).src@[final(self).cursor - 2] == '*'
                && final(self).src@[final(self).cursor - 1] == '/',
    {
        while self.cursor < self.src.len()
            invariant
                self.wf(),
                same_but_cursor(*old(self), *self),
                self.cursor >= old(self).cursor,
            decreases self.src@.len() - self.cursor,
        {
            let c = self.src[self.cursor];
            self.cursor = self.cursor + 1;
            if c == '*' && self.cursor < self.src.len() && self.src[self.cursor] == '/' {
                self.cursor = self.cursor + 1;
                return true;
            }
        }
        false
    }

    /// Whether a comment opened with `//` or `/*` (the cursor just after
    /// it) is a doc comment, and whether an inner one: `ch` once more, not
    /// twice, or `!`.
    fn check_doc_comment(&self, ch: char) -> (r: (bool, bool))
        ensures
            r.1 ==> r.0,
    {
        match self.peek() {
            Some(c) => {
                if c == ch {
                    match self.peek2() {
                        Some(c2) => {
                            if c2 == ch {
                                (false, false)
                            } else {
                                (true, false)
                            }
                        },
                        None => (true, false),
                    }
                } else if c == '!' {
                    (true, true)
                } else {
                    (false, false)
                }
            },
            None => (false, false),
        }
    }

    fn queue(&mut self, kind: Kind, span: Span) -> (r: Result<(), LexError>)
        requires
            old(self).wf(),
            span.start <= span.end <= old(self).src@.len(),
        ensures
            final(self).wf(),
            r is Ok ==> final(self).buffer@ == old(self).buffer@.push((Token { kind, span })),
            r is Ok <==> old(self).buffer@.len() < usize::MAX,
            r matches Err(e) ==> e.kind == ErrorKind::Alloc,
            final(self).cursor == old(self).cursor,
            final(self).src == old(self).src,
            final(self).modes == old(self).modes,
            final(self).process == old(self).process,
            final(self).shebang == old(self).shebang,
    {
        match self.buffer.try_push_back(Token { kind, span }) {
            Ok(()) => Ok(()),
            Err(_) => Err(LexError { span, kind: ErrorKind::Alloc }),
        }
    }

    /// The text between `start` and `end`.
    pub closed spec fn text(&self, start: int, end: int) -> Seq<char> {
        self.src@.subrange(start, end)
    }

    /// Whether the source between `start` and `end` spells `w`.
    fn word_is(&self, start: usize, end: usize, w: &Vec<char>) -> (r: bool)
        requires
            start <= end <= self.src@.len(),
        ensures
            r == (self.src@.subrange(start as int, end as int) == w@),
    {
        if end - start != w.len() {
            return false;
        }
        let mut i: usize = 0;
        while i < w.len()
            invariant
                start <= end <= self.src@.len(),
                end - start == w@.len(),
                i <= w@.len(),
                forall|j: int| 0 <= j < i ==> self.src@[start + j] == w@[j],
            decreases w.len() - i,
        {
            if self.src[start + i] != w[i] {
                proof {
                    assert(self.src@.subrange(start as int, end as int)[i as int] != w@[i as int]);
                }
                return false;
            }
            i += 1;
        }
        proof {
            assert(self.src@.subrange(start as int, end as int) =~= w@);
        }
        true
    }

    /// The keyword spelled between `start` and `end`, if any.
    fn keyword_at(&self, start: usize, end: usize) -> (r: Option<Keyword>)
        requires
            start <= end <= self.src@.len(),
        ensures
            r == keyword_of(self.src@.subrange(start as int, end as int)),
    {
        if self.word_is(start, end, &vec!['a', 's']) { return Some(Keyword::As); }
        if self.word_is(start, end, &vec!['a', 's', 'y', 'n', 'c']) { return Some(Keyword::Async); }
        if self.word_is(start, end, &vec!['a', 'w', 'a', 'i', 't']) { return Some(Keyword::Await); }
        if self.word_is(start, end, &vec!['b', 'r', 'e', 'a', 'k']) { return Some(Keyword::Break); }
        if self.word_is(start, end, &vec!['c', 'o', 'n', 's', 't']) { return Some(Keyword::Const); }
        if self.word_is(start, end, &vec!['c', 'o', 'n', 't', 'i', 'n', 'u', 'e']) { return Some(Keyword::Continue); }
        if self.word_is(start, end, &vec!['e', 'l', 's', 'e']) { return Some(Keyword::Else); }
        if self.word_is(start, end, &vec!['e', 'n', 'u', 'm']) { return Some(Keyword::Enum); }
        if self.word_is(start, end, &vec!['f', 'a', 'l', 's', 'e']) { return Some(Keyword::False); }
        if self.word_is(start, end, &vec!['f', 'n']) { return Some(Keyword::Fn); }
        if self.word_is(start, end, &vec!['f', 'o', 'r']) { return Some(Keyword::For); }
        if self.word_is(start, end, &vec!['i', 'f']) { return Some(Keyword::If); }
        if self.word_is(start, end, &vec!['i', 'm', 'p', 'l']) { return Some(Keyword::Impl); }
        if self.word_is(start, end, &vec!['i', 'n']) { return Some(Keyword::In); }
        if self.word_is(start, end, &vec!['i', 's']) { return Some(Keyword::Is); }
        if self.word_is(start, end, &vec!['l', 'e', 't']) { return Some(Keyword::Let); }
        if self.word_is(start, end, &vec!['l', 'o', 'o', 'p']) { return Some(Keyword::Loop); }
        if self.word_is(start, end, &vec!['m', 'a', 't', 'c', 'h']) { return Some(Keyword::Match); }
        if self.word_is(start, end, &vec!['m', 'o', 'd']) { return Some(Keyword::Mod); }
        if self.word_is(start, end, &vec!['p', 'u', 'b']) { return Some(Keyword::Pub); }
        if self.word_is(start, end, &vec!['r', 'e', 't', 'u', 'r', 'n']) { return Some(Keyword::Return); }
        if self.word_is(start, end, &vec!['s', 'e', 'l', 'f']) { return Some(Keyword::SelfValue); }
        if self.word_is(start, end, &vec!['s', 't', 'r', 'u', 'c', 't']) { return Some(Keyword::Struct); }
        if self.word_is(start, end, &vec!['t', 'r', 'u', 'e']) { return Some(Keyword::True); }
        if self.word_is(start, end, &vec!['u', 's', 'e']) { return Some(Keyword::Use); }
        if self.word_is(start, end, &vec!['w', 'h', 'i', 'l', 'e']) { return Some(Keyword::While); }
        if self.word_is(start, end, &vec!['y', 'i', 'e', 'l', 'd']) { return Some(Keyword::Yield); }
        None
    }

    /// An identifier, keyword or `_`, whose first character at `start` was
    /// just read.
    fn next_ident(&mut self, start: usize) -> (r: Token)
        requires
            old(self).wf(),
            old(self).cursor == start + 1,
            start < old(self).src@.len(),
            old(self).src@[start as int] == '_' || xid_start_class(old(self).src@[start as int]),
        ensures
            final(self).wf(),
            same_but_cursor(*old(self), *final(self)),
            r.span == (Span { start, end: final(self).cursor }),
            fits(r.kind, final(self).src@.subrange(start as int, final(self).cursor as int)),
            final(self).cursor == final(self).src@.len() || !xid_continue_class(final(self).src@[final(self).cursor as int]),
            r.kind == Kind::Ident || r.kind is Keyword || r.kind == Kind::Underscore,
    {
        while self.cursor < self.src.len() && is_xid_continue(self.src[self.cursor])
            invariant
                self.wf(),
                same_but_cursor(*old(self), *self),
                self.cursor > start,
                forall|i: int| start < i < self.cursor ==> xid_continue_class(#[trigger] self.src@[i]),
            decreases self.src@.len() - self.cursor,
        {
            self.cursor = self.cursor + 1;
        }
        let end = self.cursor;
        let span = Span { start, end };
        let ghost t = self.src@.subrange(start as int, end as int);
        if end == start + 1 && self.src[start] == '_' {
            proof {
                assert(t =~= seq!['_']);
            }
            return Token { kind: Kind::Underscore, span };
        }
        proof {
            if t == seq!['_'] {
                assert(t.len() == 1 && t[0] == '_');
            }
        }
        match self.keyword_at(start, end) {
            Some(k) => Token { kind: Kind::Keyword(k), span },
            None => Token { kind: Kind::Ident, span },
        }
    }

    /// A number literal whose first digit `c` at `start` was just read: an
    /// optional `0x`, `0b` or `0o` base, digits with `_` separators, a
    /// fraction and an exponent, and a suffix from the first `u`, `i` (or,
    /// in decimal, `f`) on.
    fn next_number_literal(&mut self, c: char, start: usize) -> (r: Token)
        requires
            old(self).wf(),
            old(self).cursor == start + 1,
            start < old(self).src@.len(),
            old(self).src@[start as int] == c,
            is_digit(c),
        ensures
            final(self).wf(),
            same_but_cursor(*old(self), *final(self)),
            r.span == (Span { start, end: final(self).cursor }),
            fits(r.kind, final(self).src@.subrange(start as int, final(self).cursor as int)),
            r.kind matches Kind::Number { number, suffix, .. } && start <= number.start <= number.end
                == suffix.start <= suffix.end == final(self).cursor,
            maximal(r.kind, final(self).src@, start as int, final(self).cursor as int),
    {
        let mut base = NumberBase::Decimal;
        let mut number_start = start;
        if c == '0' && self.cursor < self.src.len() {
            let m = self.src[self.cursor];
            if m == 'x' || m == 'b' || m == 'o' {
                base = if m == 'x' {
                    NumberBase::Hex
                } else if m == 'b' {
                    NumberBase::Binary
                } else {
                    NumberBase::Octal
                };
                self.cursor = self.cursor + 1;
                number_start = self.cursor;
            }
        }
        let mut is_fractional = false;
        let mut has_exponent = false;
        let mut split: Option<usize> = None;
        while self.cursor < self.src.len()
            invariant
                self.wf(),
                same_but_cursor(*old(self), *self),
                start < number_start <= self.cursor || number_start == start,
                number_start <= self.cursor,
                self.cursor > start,
                split matches Some(p) ==> number_start <= p <= self.cursor,
            ensures
                self.wf(),
                same_but_cursor(*old(self), *self),
                start < number_start <= self.cursor || number_start == start,
                number_start <= self.cursor,
                self.cursor > start,
                split matches Some(p) ==> number_start <= p <= self.cursor,
                self.cursor == self.src@.len() || self.src@[self.cursor as int] == '.' || (!alphanumeric_class(
                    self.src@[self.cursor as int],
                ) && self.src@[self.cursor as int] != '_'),
            decreases self.src@.len() - self.cursor,
        {
            let ch = self.src[self.cursor];
            if ch == 'e' && !has_exponent && base != NumberBase::Hex {
                self.cursor = self.cursor + 1;
                has_exponent = true;
                is_fractional = true;
                match self.peek() {
                    Some('-') | Some('+') => {
                        self.cursor = self.cursor + 1;
                    },
                    _ => {},
                }
            } else if ch == '.' && !is_fractional {
                match self.peek2() {
                    Some(p2) => {
                        if ('a' <= p2 && p2 <= 'z') || ('A' <= p2 && p2 <= 'Z') || p2 == '_' || p2 == '.' {
                            break;
                        }
                    },
                    None => {},
                }
                self.cursor = self.cursor + 1;
                is_fractional = true;
            } else if ch == '_' {
                self.cursor = self.cursor + 1;
            } else if is_alphanumeric(ch) {
                if split.is_none() && (ch == 'u' || ch == 'i' || (ch == 'f' && base == NumberBase::Decimal)) {
                    split = Some(self.cursor);
                }
                self.cursor = self.cursor + 1;
            } else {
                break;
            }
        }
        let end = match split {
            Some(p) => p,
            None => self.cursor,
        };
        Token {
            kind: Kind::Number {
                base,
                is_fractional,
                number: Span { start: number_start, end },
                suffix: Span { start: end, end: self.cursor },
            },
            span: Span { start, end: self.cursor },
        }
    }

    /// A character literal or a label, whose `'` at `start` was just read.
    /// A label is `'` and one or more of `0-9a-z` with no closing `'`.
    fn next_char_or_label(&mut self, start: usize) -> (r: Result<Token, LexError>)
        requires
            old(self).wf(),
            old(self).cursor == start + 1,
            start < old(self).src@.len(),
            old(self).src@[start as int] == '\'',
        ensures
            final(self).wf(),
            same_but_cursor(*old(self), *final(self)),
            r matches Ok(t) ==> t.span == (Span { start, end: final(self).cursor }) && (t.kind == Kind::Char
                || t.kind == Kind::Label) && fits(t.kind, final(self).src@.subrange(start as int, final(self).cursor as int)),
            r matches Err(e) ==> scan_error(e.kind, '\'', 0, final(self).src@, start as int, final(self).cursor as int, 0),
    {
        let mut is_label = true;
        let mut count: usize = 0;
        while self.cursor < self.src.len()
            invariant_except_break
                count == 0 ==> self.cursor == start + 1 && is_label,
            invariant
                self.wf(),
                same_but_cursor(*old(self), *self),
                self.cursor > start,
                count <= self.cursor - start - 1,
            ensures
                self.wf(),
                same_but_cursor(*old(self), *self),
                self.cursor > start,
                count <= self.cursor - start - 1,
                count == 0 && is_label ==> self.cursor == start + 1 && self.cursor >= self.src@.len(),
                count == 0 && !is_label ==> start + 1 < self.src@.len() && self.src@[start + 1] == '\'',
            decreases self.src@.len() - self.cursor,
        {
            let s = self.cursor;
            let c = self.src[self.cursor];
            if c == '\\' {
                self.cursor = self.cursor + 1;
                if self.cursor >= self.src.len() {
                    return Err(LexError { span: Span { start: s, end: self.cursor }, kind: ErrorKind::ExpectedEscape });
                }
                self.cursor = self.cursor + 1;
                is_label = false;
                count = count + 1;
            } else if c == '\'' {
                is_label = false;
                self.cursor = self.cursor + 1;
                break;
            } else if ('0' <= c && c <= '9') || ('a' <= c && c <= 'z') {
                self.cursor = self.cursor + 1;
                count = count + 1;
            } else if is_control(c) {
                assert(control_class(self.src@[self.cursor as int]));
                return Err(LexError { span: Span { start, end: self.cursor }, kind: ErrorKind::UnterminatedCharLit });
            } else if is_label && count > 0 {
                break;
            } else {
                is_label = false;
                self.cursor = self.cursor + 1;
                count = count + 1;
            }
        }
        if count == 0 {
            let span = Span { start, end: self.src.len() };
            if !is_label {
                return Err(LexError { span, kind: ErrorKind::ExpectedCharClose });
            }
            return Err(LexError { span, kind: ErrorKind::ExpectedCharOrLabel });
        }
        let span = Span { start, end: self.cursor };
        proof {
            assert(self.src@.subrange(start as int, self.cursor as int)[0] == '\'');
        }
        if is_label {
            Ok(Token { kind: Kind::Label, span })
        } else {
            Ok(Token { kind: Kind::Char, span })
        }
    }

    /// A byte literal, whose `b'` starting at `start` was just read.
    fn next_lit_byte(&mut self, start: usize) -> (r: Result<Token, LexError>)
        requires
            old(self).wf(),
            old(self).cursor == start + 2,
            start + 1 < old(self).src@.len(),
            old(self).src@[start as int] == 'b',
            old(self).src@[start + 1] == '\'',
        ensures
            final(self).wf(),
            same_but_cursor(*old(self), *final(self)),
            r matches Ok(t) ==> t.span == (Span { start, end: final(self).cursor }) && t.kind == Kind::Byte
                && fits(t.kind, final(self).src@.subrange(start as int, final(self).cursor as int)),
            r matches Err(e) ==> scan_error(e.kind, 'b', 0, final(self).src@, start as int, final(self).cursor as int, 0),
    {
        loop
            invariant
                self.wf(),
                same_but_cursor(*old(self), *self),
                self.cursor >= start + 2,
            ensures
                self.wf(),
                same_but_cursor(*old(self), *self),
                self.cursor >= start + 3,
                self.src@[self.cursor - 1] == '\'',
            decreases self.src@.len() - self.cursor,
        {
            if self.cursor >= self.src.len() {
                return Err(LexError { span: Span { start, end: self.cursor }, kind: ErrorKind::ExpectedByteClose });
            }
            let s = self.cursor;
            let c = self.src[self.cursor];
            self.cursor = self.cursor + 1;
            if c == '\\' {
                if self.cursor >= self.src.len() {
                    return Err(LexError { span: Span { start: s, end: self.cursor }, kind: ErrorKind::ExpectedEscape });
                }
                self.cursor = self.cursor + 1;
            } else if c == '\'' {
                break;
            } else if is_control(c) {
                assert(control_class(self.src@[self.cursor - 1]));
                return Err(LexError { span: Span { start, end: self.cursor }, kind: ErrorKind::UnterminatedByteLit });
            }
        }
        proof {
            let t = self.src@.subrange(start as int, self.cursor as int);
            assert(t[0] == 'b' && t[1] == '\'' && t[t.len() - 1] == '\'');
        }
        Ok(Token { kind: Kind::Byte, span: Span { start, end: self.cursor } })
    }

    /// A string literal (`byte`: a byte string) whose opening `"` ends at
    /// `open_end`; `unterminated` is the error for a missing closing `"`.
    fn next_str(&mut self, start: usize, open_end: usize, byte: bool, unterminated: ErrorKind) -> (r: Result<Token, LexError>)
        requires
            old(self).wf(),
            old(self).cursor == open_end,
            open_end <= old(self).src@.len(),
            byte ==> open_end == start + 2 && old(self).src@[start as int] == 'b' && old(self).src@[start + 1] == '"',
            !byte ==> open_end == start + 1 && old(self).src@[start as int] == '"',
        ensures
            final(self).wf(),
            same_but_cursor(*old(self), *final(self)),
            r matches Ok(t) ==> t.span == (Span { start, end: final(self).cursor }) && (if byte {
                t.kind is ByteStr
            } else {
                t.kind is Str
            }) && fits(t.kind, final(self).src@.subrange(start as int, final(self).cursor as int)),
            r matches Err(e) ==> (e.kind == unterminated || e.kind == ErrorKind::ExpectedEscape) && final(self).cursor == final(self).src@.len(),
    {
        let mut escaped = false;
        loop
            invariant
                self.wf(),
                same_but_cursor(*old(self), *self),
                self.cursor >= open_end,
            ensures
                self.wf(),
                same_but_cursor(*old(self), *self),
                self.cursor >= open_end + 1,
                self.src@[self.cursor - 1] == '"',
            decreases self.src@.len() - self.cursor,
        {
            if self.cursor >= self.src.len() {
                return Err(LexError { span: Span { start, end: self.cursor }, kind: unterminated });
            }
            let s = self.cursor;
            let c = self.src[self.cursor];
            self.cursor = self.cursor + 1;
            if c == '"' {
                break;
            } else if c == '\\' {
                if self.cursor >= self.src.len() {
                    return Err(LexError { span: Span { start: s, end: self.cursor }, kind: ErrorKind::ExpectedEscape });
                }
                self.cursor = self.cursor + 1;
                escaped = true;
            }
        }
        let span = Span { start, end: self.cursor };
        proof {
            let t = self.src@.subrange(start as int, self.cursor as int);
            assert(t[0] == self.src@[start as int] && t[t.len() - 1] == '"');
            if byte {
                assert(t[1] == '"');
            }
        }
        if byte {
            Ok(Token { kind: Kind::ByteStr { escaped }, span })
        } else {
            Ok(Token { kind: Kind::Str { escaped, wrapped: true }, span })
        }
    }

    /// Queues the tokens of `#[doc = "..."]` (`#![doc = "..."]` when
    /// `inner`) for a doc comment over `span`, whose text is `doc`.
    fn emit_doc_attribute(&mut self, inner: bool, span: Span, doc: Span) -> (r: Result<(), LexError>)
        requires
            old(self).wf(),
            span.start <= span.end <= old(self).src@.len(),
            doc.start <= doc.end <= old(self).src@.len(),
        ensures
            final(self).wf(),
            final(self).cursor == old(self).cursor,
            final(self).src == old(self).src,
            final(self).modes == old(self).modes,
            final(self).process == old(self).process,
            final(self).shebang == old(self).shebang,
            r is Ok ==> final(self).buffer@ == old(self).buffer@ + doc_attribute(inner, span, doc),
            r matches Err(e) ==> e.kind == ErrorKind::Alloc && old(self).buffer@.len() + 7 >= usize::MAX,
    {
        let ghost b = self.buffer@;
        self.queue(Kind::Pound, span)?;
        if inner {
            self.queue(Kind::Bang, span)?;
        }
        self.queue(Kind::Open(Delimiter::Bracket), span)?;
        self.queue(Kind::BuiltInIdent(BuiltIn::Doc), span)?;
        self.queue(Kind::Eq, span)?;
        self.queue(Kind::Str { escaped: false, wrapped: false }, doc)?;
        self.queue(Kind::Close(Delimiter::Bracket), span)?;
        proof {
            assert(self.buffer@ =~= b + doc_attribute(inner, span, doc));
        }
        Ok(())
    }

    /// Queues the tokens of `#[builtin(literal)]` over `span`.
    fn emit_builtin_attribute(&mut self, span: Span) -> (r: Result<(), LexError>)
        requires
            old(self).wf(),
            span.start <= span.end <= old(self).src@.len(),
        ensures
            final(self).wf(),
            final(self).cursor == old(self).cursor,
            final(self).src == old(self).src,
            final(self).modes == old(self).modes,
            final(self).process == old(self).process,
            final(self).shebang == old(self).shebang,
            r is Ok ==> final(self).buffer@.len() == old(self).buffer@.len() + 7,
            r matches Err(e) ==> e.kind == ErrorKind::Alloc && old(self).buffer@.len() + 7 >= usize::MAX,
    {
        self.queue(Kind::Pound, span)?;
        self.queue(Kind::Open(Delimiter::Bracket), span)?;
        self.queue(Kind::BuiltInIdent(BuiltIn::BuiltIn), span)?;
        self.queue(Kind::Open(Delimiter::Parenthesis), span)?;
        self.queue(Kind::BuiltInIdent(BuiltIn::Literal), span)?;
        self.queue(Kind::Close(Delimiter::Parenthesis), span)?;
        self.queue(Kind::Close(Delimiter::Bracket), span)?;
        Ok(())
    }

    /// Reads one token in code mode (`level` braces deep in a template
    /// expression), the character `c` at `start` having just been read; a
    /// `#!` line counts as a token when `shebang`. A token read from the
    /// source covers exactly the characters read, and they have its form.
    #[verifier::rlimit(60)]
    pub fn scan_token(&mut self, c: char, start: usize, level: usize, shebang: bool) -> (r: Result<Scanned, LexError>)
        requires
            old(self).wf(),
            old(self).pos() == start + 1,
            start < old(self).source().len(),
            old(self).source()[start as int] == c,
        ensures
            final(self).wf(),
            final(self).source() == old(self).source(),
            final(self).pos() >= old(self).pos(),
            r matches Ok(Scanned::Token(t)) ==> t.span == (Span { start, end: final(self).pos() as usize })
                && fits(t.kind, final(self).text(start as int, final(self).pos() as int))
                && maximal(t.kind, final(self).source(), start as int, final(self).pos() as int),
            r matches Err(e) ==> scan_error(e.kind, c, level, final(self).source(), start as int, final(self).pos() as int, old(self).queued()),
            r matches Ok(Scanned::Queued) ==> final(self).queued() >= old(self).queued() + 2 || final(self).queued_tokens() == old(self).queued_tokens(),
    {
        if shebang && c == '#' && self.cursor < self.src.len() && self.src[self.cursor] == '!' {
            self.cursor = self.cursor + 1;
            self.consume_line();
            proof {
                let t = self.src@.subrange(start as int, self.cursor as int);
                assert forall|i: int| 0 <= i < t.len() implies #[trigger] t[i] != '\n' by {
                    assert(t[i] == self.src@[start + i]);
                }
            }
            return Ok(Scanned::Token(Token { kind: Kind::Shebang, span: Span { start, end: self.cursor } }));
        }
        if is_whitespace(c) {
            self.consume_whitespace();
            proof {
                let t = self.src@.subrange(start as int, self.cursor as int);
                assert forall|i: int| 0 <= i < t.len() implies whitespace_class(#[trigger] t[i]) by {
                    assert(t[i] == self.src@[start + i]);
                }
            }
            return Ok(Scanned::Token(Token { kind: Kind::Whitespace, span: Span { start, end: self.cursor } }));
        }
        if self.cursor < self.src.len() {
            let c2 = self.src[self.cursor];
            if c == '/' && c2 == '/' {
                self.cursor = self.cursor + 1;
                let (doc, inner) = self.check_doc_comment('/');
                self.consume_line();
                let span = Span { start, end: self.cursor };
                if self.process && doc {
                    let doc_start = if self.cursor - start >= 3 { start + 3 } else { self.cursor };
                    self.emit_doc_attribute(inner, span, Span { start: doc_start, end: self.cursor })?;
                    return Ok(Scanned::Queued);
                }
                proof {
                    let t = self.src@.subrange(start as int, self.cursor as int);
                    assert forall|i: int| 0 <= i < t.len() implies #[trigger] t[i] != '\n' by {
                        assert(t[i] == self.src@[start + i]);
                    }
                }
                return Ok(Scanned::Token(Token { kind: Kind::Comment, span }));
            }
            if c == '/' && c2 == '*' {
                self.cursor = self.cursor + 1;
                let (doc, inner) = self.check_doc_comment('*');
                let closed = self.consume_multiline_comment();
                let span = Span { start, end: self.cursor };
                if closed && self.process && doc {
                    let doc_start = if self.cursor - start >= 3 { start + 3 } else { self.cursor };
                    let doc_end = if self.cursor - 2 >= doc_start { self.cursor - 2 } else { doc_start };
                    self.emit_doc_attribute(inner, span, Span { start: doc_start, end: doc_end })?;
                    return Ok(Scanned::Queued);
                }
                return Ok(Scanned::Token(Token { kind: Kind::MultilineComment(closed), span }));
            }
            if c == 'b' && c2 == '\'' {
                self.cursor = self.cursor + 1;
                let t = self.next_lit_byte(start)?;
                return Ok(Scanned::Token(t));
            }
            if c == 'b' && c2 == '"' {
                self.cursor = self.cursor + 1;
                let t = self.next_str(start, start + 2, true, ErrorKind::UnterminatedByteStrLit)?;
                return Ok(Scanned::Token(t));
            }
            match punct2(c, c2) {
                Some(k) => {
                    self.cursor = self.cursor + 1;
                    let third = self.cursor < self.src.len() && self.src[self.cursor] == '=';
                    let k3 = if third {
                        match k {
                            Kind::LtLt => Some(Kind::LtLtEq),
                            Kind::GtGt => Some(Kind::GtGtEq),
                            Kind::DotDot => Some(Kind::DotDotEq),
                            _ => None,
                        }
                    } else {
                        None
                    };
                    let kind = match k3 {
                        Some(k3) => {
                            self.cursor = self.cursor + 1;
                            k3
                        },
                        None => k,
                    };
                    proof {
                        let t = self.src@.subrange(start as int, self.cursor as int);
                        if k3 is Some {
                            assert(t =~= seq![c, c2, '=']);
                        } else {
                            assert(t =~= seq![c, c2]);
                        }
                    }
                    return Ok(Scanned::Token(Token { kind, span: Span { start, end: self.cursor } }));
                },
                None => {},
            }
        }
        let span = Span { start, end: self.cursor };
        proof {
            assert(self.src@.subrange(start as int, self.cursor as int) =~= seq![c]);
        }
        if c == '{' && level > 0 {
            if level == usize::MAX {
                return Err(LexError { span, kind: ErrorKind::UnexpectedChar { c } });
            }
            self.modes.push(LexerMode::Default(level + 1));
            return Ok(Scanned::Token(Token { kind: Kind::Open(Delimiter::Brace), span }));
        }
        if c == '}' && level > 0 {
            self.modes.pop(start, LexerMode::Default(level))?;
            if level == 1 {
                self.modes.expression_count_add(span)?;
                return Ok(Scanned::Queued);
            }
            return Ok(Scanned::Token(Token { kind: Kind::Close(Delimiter::Brace), span }));
        }
        match punct1(c) {
            Some(k) => {
                return Ok(Scanned::Token(Token { kind: k, span }));
            },
            None => {},
        }
        if c == '_' || is_xid_start(c) {
            let t = self.next_ident(start);
            proof {
                assert(maximal(t.kind, self.src@, start as int, self.cursor as int));
            }
            return Ok(Scanned::Token(t));
        }
        if '0' <= c && c <= '9' {
            return Ok(Scanned::Token(self.next_number_literal(c, start)));
        }
        if c == '"' {
            let t = self.next_str(start, start + 1, false, ErrorKind::UnterminatedStrLit)?;
            return Ok(Scanned::Token(t));
        }
        if c == '\'' {
            let t = self.next_char_or_label(start)?;
            return Ok(Scanned::Token(t));
        }
        if c == '`' {
            if self.process {
                self.queue(Kind::Open(Delimiter::Empty), span)?;
                self.emit_builtin_attribute(span)?;
                self.queue(Kind::BuiltInIdent(BuiltIn::Template), span)?;
                self.queue(Kind::Bang, span)?;
                self.queue(Kind::Open(Delimiter::Parenthesis), span)?;
                self.modes.push(LexerMode::Template(0));
                return Ok(Scanned::Queued);
            }
            let mut depth: usize = 0;
            while self.cursor < self.src.len()
                invariant
                    self.wf(),
                    same_but_cursor(*old(self), *self),
                    self.cursor > start,
                decreases self.src@.len() - self.cursor,
            {
                let ch = self.src[self.cursor];
                self.cursor = self.cursor + 1;
                if ch == '{' {
                    depth = if depth == usize::MAX { 0 } else { depth + 1 };
                } else if ch == '}' {
                    depth = if depth == 0 { usize::MAX } else { depth - 1 };
                } else if ch == '\\' {
                    if self.cursor < self.src.len() {
                        self.cursor = self.cursor + 1;
                    }
                } else if ch == '`' && depth == 0 {
                    break;
                }
            }
            proof {
                assert(self.src@.subrange(start as int, self.cursor as int)[0] == '`');
            }
            return Ok(Scanned::Token(Token { kind: Kind::TemplateString, span: Span { start, end: self.cursor } }));
        }
        Err(LexError { span, kind: ErrorKind::UnexpectedChar { c } })
    }

    /// Reads template text up to the next `${` or the closing backtick,
    /// queueing the string part, the separating commas and, at the end, the
    /// closing tokens.
    /// Queues a template part, keeping every part queued since position
    /// `n` of the queue one that starts at or after `from`.
    fn queue_part(&mut self, kind: Kind, span: Span, n: usize, from: usize) -> (r: Result<(), LexError>)
        requires
            old(self).wf(),
            span.start <= span.end <= old(self).src@.len(),
            from <= span.start,
            template_part(Token { kind, span }),
            n <= old(self).buffer@.len(),
            parts_since(old(self).buffer@, n as int, from as int),
        ensures
            final(self).wf(),
            final(self).cursor == old(self).cursor,
            final(self).src == old(self).src,
            final(self).modes == old(self).modes,
            final(self).process == old(self).process,
            final(self).shebang == old(self).shebang,
            r is Ok ==> parts_since(final(self).buffer@, n as int, from as int) && final(self).buffer@.len() == old(self).buffer@.len() + 1
                && final(self).buffer@.subrange(0, n as int) == old(self).buffer@.subrange(0, n as int),
            r matches Err(e) ==> e.kind == ErrorKind::Alloc,
    {
        let ghost b = self.buffer@;
        let r = self.queue(kind, span);
        proof {
            if r is Ok {
                assert(self.buffer@.subrange(0, n as int) =~= b.subrange(0, n as int));
                assert forall|i: int| n <= i < self.buffer@.len() implies template_part(#[trigger] self.buffer@[i])
                    && self.buffer@[i].span.start >= from by {
                    if i < b.len() {
                        assert(self.buffer@[i] == b[i]);
                    }
                }
            }
        }
        r
    }

    pub fn template_next(&mut self) -> (r: Result<(), LexError>)
        requires
            old(self).wf(),
        ensures
            final(self).wf(),
            final(self).source() == old(self).source(),
            final(self).pos() >= old(self).pos(),
            r is Ok ==> final(self).pos() > old(self).pos() && ((final(self).pos() >= 2 && final(self).source()[final(self).pos() - 2] == '$'
                && final(self).source()[final(self).pos() - 1] == '{' && final(self).mode() == LexerMode::Default(1))
                || final(self).source()[final(self).pos() - 1] == '`'),
            r is Ok ==> final(self).queued() >= old(self).queued()
                && final(self).queued_tokens().subrange(0, old(self).queued() as int) == old(self).queued_tokens()
                && parts_since(final(self).queued_tokens(), old(self).queued() as int, old(self).pos() as int),
            r matches Err(e) ==> template_error(e.kind, final(self).source(), final(self).pos() as int, old(self).mode()),
    {
        let start = self.cursor;
        let queued = self.buffer.len();
        let mut escaped = false;
        while self.cursor < self.src.len()
            invariant
                self.wf(),
                self.src == old(self).src,
                self.modes == old(self).modes,
                self.buffer == old(self).buffer,
                queued == self.buffer@.len(),
                self.cursor >= start == old(self).cursor,
            decreases self.src@.len() - self.cursor,
        {
            let s = self.cursor;
            let c = self.src[self.cursor];
            if c == '$' {
                let span = Span { start, end: self.cursor };
                let had_string = start != self.cursor;
                let dollar = self.cursor;
                let mut expressions = self.modes.expression_count(span)?;
                self.cursor = self.cursor + 1;
                if self.cursor >= self.src.len() {
                    return Err(LexError { span: Span { start: dollar, end: self.src.len() }, kind: ErrorKind::UnexpectedEof });
                }
                let open = self.src[self.cursor];
                self.cursor = self.cursor + 1;
                if open != '{' {
                    return Err(LexError { span: Span { start: dollar + 1, end: self.cursor }, kind: ErrorKind::UnexpectedChar { c: open } });
                }
                if had_string {
                    if expressions > 0 {
                        self.queue_part(Kind::Comma, span, queued, start)?;
                    }
                    self.queue_part(Kind::Str { escaped, wrapped: false }, span, queued, start)?;
                    expressions = self.modes.expression_count_add(span)?;
                }
                if expressions > 0 {
                    self.queue_part(Kind::Comma, Span { start: dollar, end: self.cursor }, queued, start)?;
                }
                self.modes.push(LexerMode::Default(1));
                return Ok(());
            } else if c == '\\' {
                self.cursor = self.cursor + 1;
                if self.cursor >= self.src.len() {
                    return Err(LexError { span: Span { start: s, end: self.cursor }, kind: ErrorKind::ExpectedEscape });
                }
                self.cursor = self.cursor + 1;
                escaped = true;
            } else if c == '`' {
                let span = Span { start, end: self.cursor };
                let had_string = start != self.cursor;
                let tick = self.cursor;
                self.cursor = self.cursor + 1;
                let mut expressions = self.modes.expression_count(span)?;
                assert(self.modes.last_spec() == LexerMode::Template(expressions));
                if had_string {
                    if expressions > 0 {
                        self.queue_part(Kind::Comma, span, queued, start)?;
                    }
                    self.queue_part(Kind::Str { escaped, wrapped: false }, span, queued, start)?;
                    let ghost before = self.modes.stack();
                    expressions = self.modes.expression_count_add(span)?;
                    assert(self.modes.stack() == before.drop_last().push(LexerMode::Template(expressions)));
                    assert(self.modes.stack().last() == LexerMode::Template(expressions));
                }
                let close = Span { start: tick, end: self.cursor };
                self.queue_part(Kind::Close(Delimiter::Parenthesis), close, queued, start)?;
                self.queue_part(Kind::Close(Delimiter::Empty), close, queued, start)?;
                assert(self.modes.last_spec() == LexerMode::Template(expressions));
                self.modes.pop(self.cursor, LexerMode::Template(expressions))?;
                return Ok(());
            } else {
                self.cursor = self.cursor + 1;
            }
        }
        Err(LexError { span: Span { start: self.cursor, end: self.cursor }, kind: ErrorKind::UnexpectedEof })
    }

    /// The next token: first those queued, then, in a template, the
    /// template's parts, else one read from the source. `None` at the end
    /// of the source, where no template or brace may be left open.
    pub fn next(&mut self) -> (r: Result<Option<Token>, LexError>)
        requires
            old(self).wf(),
        ensures
            final(self).wf(),
            final(self).source() == old(self).source(),
            final(self).pos() >= old(self).pos(),
            r matches Ok(Some(t)) ==> t.span.start <= t.span.end <= final(self).source().len(),
            r matches Ok(None) ==> final(self).pos() == final(self).source().len() && final(self).queued() == 0,
            old(self).queued() > 0 ==> r == Ok::<Option<Token>, LexError>(Some(old(self).queued_tokens()[0])) && final(self).pos() == old(self).pos(),
            old(self).queued() == 0 && old(self).mode() == LexerMode::Default(0) && old(self).pos() == old(self).source().len()
                ==> r == Ok::<Option<Token>, LexError>(None),
            r matches Ok(Some(t)) ==> ((old(self).queued() == 0 && old(self).mode() is Default && final(self).queued() == 0
                && t.span.start == old(self).pos()) ==> t.span.end == final(self).pos()
                && fits(t.kind, final(self).text(t.span.start as int, t.span.end as int))
                && maximal(t.kind, final(self).source(), t.span.start as int, t.span.end as int)),
    {
        loop
            invariant
                self.wf(),
                self.src@ == old(self).src@,
                self.cursor >= old(self).cursor,
                old(self).queued() > 0 ==> self.buffer == old(self).buffer && self.cursor == old(self).cursor,
                old(self).queued() == 0 && old(self).mode() is Default ==> ((self.cursor == old(self).cursor
                    && self.buffer@.len() == 0 && self.modes == old(self).modes) || (self.cursor > old(self).cursor
                    && (self.buffer@.len() >= 2 || forall|i: int| 0 <= i < self.buffer@.len() ==> (#[trigger] self.buffer@[i]).span.start
                    > old(self).cursor))),
            decreases self.src@.len() - self.cursor,
        {
            if !self.buffer.is_empty() {
                let ghost b = self.buffer@;
                let t = self.buffer.pop_front();
                match t {
                    Some(t) => {
                        proof {
                            assert(b[0] == t);
                            assert forall|i: int| 0 <= i < self.buffer@.len() implies (#[trigger] self.buffer@[i]).span.start
                                <= self.buffer@[i].span.end <= self.src@.len() by {
                                assert(self.buffer@[i] == b[i + 1]);
                            }
                        }
                        return Ok(Some(t));
                    },
                    None => {},
                }
            }
            let level = match self.modes.last() {
                LexerMode::Template(_) => {
                    self.template_next()?;
                    continue;
                },
                LexerMode::Default(level) => level,
            };
            if self.cursor >= self.src.len() {
                self.modes.pop(self.cursor, LexerMode::Default(0))?;
                return Ok(None);
            }
            let start = self.cursor;
            let c = self.src[self.cursor];
            self.cursor = self.cursor + 1;
            let shebang = self.shebang;
            self.shebang = false;
            match self.scan_token(c, start, level, shebang)? {
                Scanned::Token(t) => {
                    return Ok(Some(t));
                },
                Scanned::Queued => {},
            }
        }
    }
}

/// The tokens of `#[doc = "..."]`, or `#![doc = "..."]` when `inner`, for a
/// doc comment over `span` whose text is `doc`.
pub open spec fn doc_attribute(inner: bool, span: Span, doc: Span) -> Seq<Token> {
    seq![Token { kind: Kind::Pound, span }] + (if inner {
        seq![Token { kind: Kind::Bang, span }]
    } else {
        Seq::empty()
    }) + seq![
        Token { kind: Kind::Open(Delimiter::Bracket), span },
        Token { kind: Kind::BuiltInIdent(BuiltIn::Doc), span },
        Token { kind: Kind::Eq, span },
        Token { kind: Kind::Str { escaped: false, wrapped: false }, span: doc },
        Token { kind: Kind::Close(Delimiter::Bracket), span },
    ]
}

/// `b` is `a` with the cursor moved forward, if at all.
spec fn same_but_cursor(a: Lexer, b: Lexer) -> bool {
    &&& a.cursor <= b.cursor
    &&& a.src == b.src
    &&& a.modes == b.modes
    &&& a.buffer == b.buffer
    &&& a.process == b.process
    &&& a.shebang == b.shebang
}

} // verus!

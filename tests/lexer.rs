use rune::lexer::{Delimiter, ErrorKind, Keyword, Kind, LexError, Lexer, LexerMode, Span, Token};

fn lex_all(source: &str) -> Result<Vec<Token>, LexError> {
    let mut lexer = Lexer::new(source, true);
    let mut out = Vec::new();
    while let Some(t) = lexer.next()? {
        out.push(t);
    }
    Ok(out)
}

fn kinds(source: &str) -> Vec<Kind> {
    lex_all(source)
        .unwrap()
        .into_iter()
        .map(|t| t.kind)
        .filter(|k| *k != Kind::Whitespace)
        .collect()
}

#[test]
fn function_header() {
    assert_eq!(
        kinds("pub fn main() { 2 + 3 * 4 }")[..6],
        [
            Kind::Keyword(Keyword::Pub),
            Kind::Keyword(Keyword::Fn),
            Kind::Ident,
            Kind::Open(Delimiter::Parenthesis),
            Kind::Close(Delimiter::Parenthesis),
            Kind::Open(Delimiter::Brace),
        ]
    );
}

#[test]
fn spans_tile_the_source() {
    let source = "let x = a <<= b..=c; // done";
    let tokens = lex_all(source).unwrap();
    let mut pos = 0;
    for t in &tokens {
        assert_eq!(t.span.start, pos);
        pos = t.span.end;
    }
    assert_eq!(pos, source.chars().count());
    let k: Vec<Kind> = tokens.iter().map(|t| t.kind).filter(|k| *k != Kind::Whitespace).collect();
    assert_eq!(
        k,
        vec![
            Kind::Keyword(Keyword::Let),
            Kind::Ident,
            Kind::Eq,
            Kind::Ident,
            Kind::LtLtEq,
            Kind::Ident,
            Kind::DotDotEq,
            Kind::Ident,
            Kind::SemiColon,
            Kind::Comment,
        ]
    );
}

#[test]
fn numbers() {
    let tokens = lex_all("0x1f 1_000u32 2.5e-3 1..2").unwrap();
    match tokens[0].kind {
        Kind::Number { base, number, suffix, .. } => {
            assert_eq!(base, rune::lexer::NumberBase::Hex);
            assert_eq!(number, Span { start: 2, end: 4 });
            assert_eq!(suffix, Span { start: 4, end: 4 });
        }
        k => panic!("{k:?}"),
    }
    match tokens[2].kind {
        Kind::Number { suffix, .. } => assert_eq!(suffix, Span { start: 10, end: 13 }),
        k => panic!("{k:?}"),
    }
    match tokens[4].kind {
        Kind::Number { is_fractional, .. } => assert!(is_fractional),
        k => panic!("{k:?}"),
    }
    assert!(matches!(tokens[6].kind, Kind::Number { is_fractional: false, .. }));
    assert_eq!(tokens[7].kind, Kind::DotDot);
}

#[test]
fn chars_labels_bytes_strings() {
    assert_eq!(
        kinds("'a' 'label b'x' \"s\\\"t\" b\"x\""),
        vec![
            Kind::Char,
            Kind::Label,
            Kind::Byte,
            Kind::Str { escaped: true, wrapped: true },
            Kind::ByteStr { escaped: false },
        ]
    );
    assert_eq!(kinds("_ _x"), vec![Kind::Underscore, Kind::Ident]);
}

#[test]
fn errors() {
    assert_eq!(lex_all("\"abc").unwrap_err().kind, ErrorKind::UnterminatedStrLit);
    assert_eq!(lex_all("b\"abc").unwrap_err().kind, ErrorKind::UnterminatedByteStrLit);
    assert_eq!(lex_all("b'a").unwrap_err().kind, ErrorKind::ExpectedByteClose);
    assert_eq!(lex_all("'").unwrap_err().kind, ErrorKind::ExpectedCharOrLabel);
    assert_eq!(lex_all("\"\\").unwrap_err().kind, ErrorKind::ExpectedEscape);
    assert_eq!(lex_all("'\n'").unwrap_err().kind, ErrorKind::UnterminatedCharLit);
    assert_eq!(lex_all("\u{7f}").unwrap_err().kind, ErrorKind::UnexpectedChar { c: '\u{7f}' });
}

#[test]
fn doc_comments_become_attributes() {
    assert_eq!(
        kinds("/// hi\n"),
        vec![
            Kind::Pound,
            Kind::Open(Delimiter::Bracket),
            Kind::BuiltInIdent(rune::lexer::BuiltIn::Doc),
            Kind::Eq,
            Kind::Str { escaped: false, wrapped: false },
            Kind::Close(Delimiter::Bracket),
        ]
    );
    let tokens = lex_all("//! inner").unwrap();
    assert_eq!(tokens[1].kind, Kind::Bang);
    assert_eq!(tokens[5].span, Span { start: 3, end: 9 });
    assert_eq!(kinds("//// plain"), vec![Kind::Comment]);
    assert_eq!(kinds("/* a */"), vec![Kind::MultilineComment(true)]);
    assert_eq!(kinds("/* a"), vec![Kind::MultilineComment(false)]);
}

#[test]
fn shebang_only_at_the_start() {
    let tokens = lex_all("#!/usr/bin/env rune\nx").unwrap();
    assert_eq!(tokens[0].kind, Kind::Shebang);
    assert_eq!(tokens[0].span, Span { start: 0, end: 19 });
    assert_eq!(kinds("x #!"), vec![Kind::Ident, Kind::Pound, Kind::Bang]);
}

#[test]
fn template_strings_expand_to_a_call() {
    let k = kinds("`a${x}b`");
    assert_eq!(
        k,
        vec![
            Kind::Open(Delimiter::Empty),
            Kind::Pound,
            Kind::Open(Delimiter::Bracket),
            Kind::BuiltInIdent(rune::lexer::BuiltIn::BuiltIn),
            Kind::Open(Delimiter::Parenthesis),
            Kind::BuiltInIdent(rune::lexer::BuiltIn::Literal),
            Kind::Close(Delimiter::Parenthesis),
            Kind::Close(Delimiter::Bracket),
            Kind::BuiltInIdent(rune::lexer::BuiltIn::Template),
            Kind::Bang,
            Kind::Open(Delimiter::Parenthesis),
            Kind::Str { escaped: false, wrapped: false },
            Kind::Comma,
            Kind::Ident,
            Kind::Comma,
            Kind::Str { escaped: false, wrapped: false },
            Kind::Close(Delimiter::Parenthesis),
            Kind::Close(Delimiter::Empty),
        ]
    );
}

#[test]
fn unbalanced_template_is_an_error() {
    let err = lex_all("`a${x").unwrap_err();
    assert_eq!(
        err.kind,
        ErrorKind::BadLexerMode { actual: LexerMode::Default(1), expected: LexerMode::Default(0) }
    );
    assert_eq!(lex_all("`abc").unwrap_err().kind, ErrorKind::UnexpectedEof);
}

#[test]
fn without_processing_keeps_plain_tokens() {
    let mut lexer = Lexer::new("`a{b}` /// d", false).without_processing();
    assert_eq!(lexer.span(), Span { start: 0, end: 12 });
    assert_eq!(lexer.next().unwrap().unwrap().kind, Kind::TemplateString);
    assert_eq!(lexer.next().unwrap().unwrap().kind, Kind::Whitespace);
    assert_eq!(lexer.next().unwrap().unwrap().kind, Kind::Comment);
    assert_eq!(lexer.next().unwrap(), None);
}

#[test]
fn unicode_identifiers() {
    assert_eq!(kinds("héllo 名前"), vec![Kind::Ident, Kind::Ident]);
}

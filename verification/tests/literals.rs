use sitegen::error::BuildError;
use sitegen::error::SiteError;
use sitegen::parse::tree::Literal;
use sitegen::parse::ParsingContext;

fn literal(source: &str) -> Result<Literal, SiteError> {
    let cx = ParsingContext::new(source, "page.html").expect("the patterns compile");
    cx.parse_literal(1)
}

#[test]
fn raw_literal_ends_only_at_its_fence() {
    let l = literal("r#\"a\"b\"#").unwrap();
    assert_eq!(l.body, b"a\"b".to_vec());
    assert!(!l.is_byte_string);
    assert_eq!(l.origin.token_length, 8);
}

#[test]
fn raw_literal_keeps_backslashes() {
    let l = literal("r\"a\\tb\"").unwrap();
    assert_eq!(l.body, b"a\\tb".to_vec());
}

#[test]
fn tab_escape_decodes_to_a_tab() {
    let l = literal("\"a\\tb\"").unwrap();
    assert_eq!(l.body, vec![b'a', b'\t', b'b']);
    assert_eq!(l.origin.token_length, 6);
}

#[test]
fn backspace_escape_deletes_the_byte_before() {
    let l = literal("\"a\\bb\"").unwrap();
    assert_eq!(l.body, vec![b'b']);
}

#[test]
fn hex_escape_in_byte_string() {
    let l = literal("b\"\\x41\"").unwrap();
    assert_eq!(l.body, vec![0x41]);
    assert!(l.is_byte_string);
    assert_eq!(l.origin.token_length, 7);
}

#[test]
fn hex_escape_in_text_literal_is_rejected() {
    match literal("\"\\x41\"") {
        Err(SiteError::BuildError(BuildError::ByteStringNotSupported)) => {}
        other => panic!("unexpected result {:?}", other),
    }
}

#[test]
fn unicode_escape_encodes_the_scalar() {
    let l = literal("\"\\u{e9}\"").unwrap();
    assert_eq!(l.body, "\u{e9}".as_bytes().to_vec());
    let l = literal("'\\u{1F600}!'").unwrap();
    assert_eq!(l.body, "\u{1F600}!".as_bytes().to_vec());
}

#[test]
fn surrogate_code_point_is_invalid() {
    match literal("\"\\u{D800}\"") {
        Err(SiteError::BuildError(BuildError::InvalidCharacterCode(text))) => assert_eq!(text, "D800"),
        other => panic!("unexpected result {:?}", other),
    }
}

#[test]
fn missing_closing_quote_is_unexpected_eof() {
    match literal("\"abc") {
        Err(SiteError::BuildError(BuildError::UnexpectedEOF)) => {}
        other => panic!("unexpected result {:?}", other),
    }
}

#[test]
fn unterminated_raw_literal_is_invalid_syntax() {
    match literal("r##\"abc\"#") {
        Err(SiteError::BuildError(BuildError::InvalidSyntax(rest))) => assert_eq!(rest, "abc\"#"),
        other => panic!("unexpected result {:?}", other),
    }
}

#[test]
fn hash_fence_without_raw_is_no_literal() {
    match literal("#\"abc\"#") {
        Err(SiteError::BuildError(BuildError::NotALiteral)) => {}
        other => panic!("unexpected result {:?}", other),
    }
}

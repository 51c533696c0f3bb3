use sitegen::error::BuildError;
use sitegen::parse::element::closing_edge;
use sitegen::parse::element::is_self_closing;
use sitegen::parse::element::join_classes;
use sitegen::parse::element::read_attribute;
use sitegen::parse::element::read_attributes;
use sitegen::parse::element::read_selector;
use sitegen::parse::element::read_tag_head;
use sitegen::parse::element::selector_from_groups;
use sitegen::parse::element::tag_parts;
use sitegen::parse::expression::parse_expression;
use sitegen::parse::literal::code_point_of;
use sitegen::parse::literal::decode_escaped;
use sitegen::parse::literal::encode_code_point;
use sitegen::parse::literal::find_raw_end;
use sitegen::parse::literal::group_span;
use sitegen::parse::literal::modifier_from_groups;
use sitegen::parse::match_length;
use sitegen::parse::skip_garbage;
use sitegen::parse::ParsingContext;
use sitegen::text::text_of;
use sitegen::text::to_lower_ascii;

#[test]
fn group_outside_the_haystack_counts_as_absent() {
    let groups = vec![Some((0, 4)), None, Some((3, 2)), Some((2, 9))];
    assert_eq!(group_span(&groups, 0, 4), Some((0, 4)));
    assert_eq!(group_span(&groups, 1, 4), None);
    assert_eq!(group_span(&groups, 2, 4), None);
    assert_eq!(group_span(&groups, 3, 4), None);
    assert_eq!(group_span(&groups, 4, 4), None);
}

#[test]
fn match_length_is_zero_without_a_match() {
    assert_eq!(match_length(None, 10), 0);
    assert_eq!(match_length(Some((0, 4)), 10), 4);
    assert_eq!(match_length(Some((2, 2)), 10), 0);
    assert_eq!(match_length(Some((0, 11)), 10), 0);
}

#[test]
fn modifier_letters_and_fence() {
    let m = b"rb##\"";
    let groups = vec![Some((0, 5)), Some((0, 2)), Some((2, 4)), Some((4, 5))];
    assert_eq!(modifier_from_groups(m, &groups), Some((true, true, 2)));
    let m = b"b'";
    let groups = vec![Some((0, 2)), Some((0, 1)), Some((1, 1)), Some((1, 2))];
    assert_eq!(modifier_from_groups(m, &groups), Some((false, true, 0)));
    assert_eq!(modifier_from_groups(m, &vec![Some((0, 2)), None, Some((1, 1))]), None);
}

#[test]
fn attribute_from_the_groups_of_a_match() {
    let text = b" a=\"1\" b='two'";
    let double = vec![Some((1, 6)), Some((1, 2)), Some((3, 6)), None];
    let a = read_attribute(text, &double, "p", 100, 2).unwrap();
    assert_eq!((a.name.as_str(), a.value.as_str()), ("a", "1"));
    assert_eq!((a.origin.offset, a.origin.token_length, a.origin.depth), (101, 5, 2));
    let single = vec![Some((7, 14)), Some((7, 8)), None, Some((9, 14))];
    let b = read_attribute(text, &single, "p", 100, 2).unwrap();
    assert_eq!((b.name.as_str(), b.value.as_str()), ("b", "two"));
    let bare = vec![Some((1, 2)), Some((1, 2)), None, None];
    assert!(read_attribute(text, &bare, "p", 100, 2).is_none());
}

#[test]
fn classes_are_joined_by_single_spaces() {
    assert_eq!(join_classes(b".foo..baz"), b"foo baz".to_vec());
    assert_eq!(join_classes(b"a.b."), b"a b".to_vec());
    assert_eq!(join_classes(b"..."), b"".to_vec());
    assert_eq!(join_classes(b""), b"".to_vec());
}

#[test]
fn selector_from_the_groups_of_a_match() {
    let sel = b".foo#bar.baz";
    let groups = vec![Some((0, 12)), Some((0, 4)), Some((4, 8)), Some((8, 12))];
    let found = selector_from_groups(&groups, sel, "p", 4, 1);
    let pairs: Vec<(&str, &str, usize, usize)> =
        found.iter().map(|a| (a.name.as_str(), a.value.as_str(), a.origin.offset, a.origin.token_length)).collect();
    assert_eq!(pairs, vec![("class", "foo baz", 4, 12), ("id", "bar", 8, 4)]);
    let none = selector_from_groups(&vec![Some((0, 0)), None, None, None], b"", "p", 4, 1);
    assert!(none.is_empty());
}

#[test]
fn tag_must_begin_the_window() {
    let groups = vec![Some((0, 5)), Some((1, 2)), Some((2, 2)), Some((2, 2))];
    let parts = tag_parts(&groups, 9).unwrap();
    assert_eq!((parts.open_end, parts.tag, parts.selector, parts.attributes), (5, (1, 2), Some((2, 2)), Some((2, 2))));
    assert!(matches!(tag_parts(&vec![Some((1, 5)), Some((2, 3))], 9), Err(BuildError::NotATag)));
    assert!(matches!(tag_parts(&vec![Some((0, 0)), Some((0, 0))], 9), Err(BuildError::NotATag)));
    assert!(matches!(tag_parts(&vec![Some((0, 5)), None], 9), Err(BuildError::NoTagName)));
}

#[test]
fn closing_edge_is_where_the_count_reaches_zero() {
    let hay = b"<a></a></a><a>";
    assert_eq!(closing_edge(hay, &vec![(0, 2), (3, 6), (7, 10), (11, 13)]), Some(2));
    assert_eq!(closing_edge(hay, &vec![(0, 2), (3, 6)]), None);
    assert_eq!(closing_edge(hay, &vec![]), None);
    assert_eq!(closing_edge(b"</a>", &vec![(0, 3)]), Some(0));
}

#[test]
fn self_closing_mark() {
    assert!(is_self_closing(b"<a/>", 4));
    assert!(!is_self_closing(b"<a/>", 3));
    assert!(!is_self_closing(b"<a>", 3));
    assert!(!is_self_closing(b">", 1));
}

#[test]
fn expression_runs_to_the_balancing_brace() {
    let e = parse_expression(b"{a{b}{}}c}", "p", 7, 3).unwrap();
    assert_eq!(e.body, "a{b}{}");
    assert_eq!((e.origin.offset, e.origin.token_length, e.origin.depth), (7, 8, 3));
    let e = parse_expression(b"{}", "p", 0, 0).unwrap();
    assert_eq!(e.body, "");
}

#[test]
fn raw_end_wants_the_whole_fence() {
    assert_eq!(find_raw_end(b"a\"b\"#", b'"', 1), Some(3));
    assert_eq!(find_raw_end(b"a\"b\"#", b'"', 0), Some(1));
    assert_eq!(find_raw_end(b"a\"b\"#", b'"', 2), None);
    assert_eq!(find_raw_end(b"a\"b\"#", b'\'', 0), None);
}

#[test]
fn escapes_decode_byte_by_byte() {
    let (body, used) = decode_escaped(b"a\\n\\r\\0\\\\\\q\\\"z\" rest", b'"', false).unwrap();
    assert_eq!(body, b"a\n\r\0\\q\"z".to_vec());
    assert_eq!(used, 15);
    let (body, _) = decode_escaped(b"\\b\\bx\\u'", b'\'', true).unwrap();
    assert_eq!(body, b"xu".to_vec());
    let (body, used) = decode_escaped(b"\\x4142z4\\x5'", b'\'', true).unwrap();
    assert_eq!(body, b"ABz4".to_vec());
    assert_eq!(used, 12);
    assert!(matches!(decode_escaped(b"abc\\", b'"', false), Err(BuildError::UnexpectedEOF)));
    assert!(matches!(decode_escaped(b"\\u{41", b'"', false), Err(BuildError::UnexpectedEOF)));
    assert!(matches!(decode_escaped(b"\\u{110000}\"", b'"', false), Err(BuildError::InvalidCharacterCode(_))));
}

#[test]
fn code_point_counts_the_first_eight_digits() {
    assert_eq!(code_point_of(b""), 0);
    assert_eq!(code_point_of(b"41"), 0x41);
    assert_eq!(code_point_of(b"1F600"), 0x1F600);
    assert_eq!(code_point_of(b"zz00000041"), 0x41);
    assert_eq!(code_point_of(b"000000041"), 0x4);
    assert_eq!(code_point_of(b"ffffffff"), 0xffff_ffff);
}

#[test]
fn scalar_values_encode_as_utf8() {
    for c in ['\0', 'A', '\u{7f}', '\u{80}', '\u{7ff}', '\u{800}', '\u{ffff}', '\u{10000}', '\u{10ffff}'] {
        assert_eq!(encode_code_point(c as u32), c.to_string().into_bytes());
    }
}

#[test]
fn text_of_bytes() {
    assert_eq!(text_of("h\u{e9}llo".as_bytes()), "h\u{e9}llo");
    assert_eq!(text_of(&[b'a', 0xff, b'b']), "a\u{fffd}b");
    assert_eq!(to_lower_ascii(b"AbC-Z_[@"), b"abc-z_[@".to_vec());
}

#[test]
fn selector_that_is_no_shorthand_is_refused() {
    let cx = ParsingContext::new("", "p").unwrap();
    assert!(read_selector(&cx.css_selector_shorthand, b".a b", "p", 0, 0).is_none());
    assert!(read_selector(&cx.css_selector_shorthand, b"#1", "p", 0, 0).is_none());
    let found = read_selector(&cx.css_selector_shorthand, b".a#b", "p", 0, 0).unwrap();
    assert_eq!(found.len(), 2);
    assert!(read_selector(&cx.css_selector_shorthand, b"", "p", 0, 0).unwrap().is_empty());
}

#[test]
fn attributes_of_a_region() {
    let cx = ParsingContext::new("", "p").unwrap();
    let found = read_attributes(&cx.attribute, b" a=\"1\" flag b= \"2\"", "p", 10, 1);
    let pairs: Vec<(&str, &str, usize, usize)> =
        found.iter().map(|a| (a.name.as_str(), a.value.as_str(), a.origin.offset, a.origin.token_length)).collect();
    assert_eq!(pairs, vec![("a", "1", 11, 5), ("b", "2", 22, 6)]);
}

#[test]
fn garbage_is_skipped_inside_a_range() {
    let cx = ParsingContext::new("", "p").unwrap();
    let src = b"ab  \n<!--x-->\t c  ";
    assert_eq!(skip_garbage(&cx.garbage, src, 2, src.len()), 15);
    assert_eq!(skip_garbage(&cx.garbage, src, 2, 4), 4);
    assert_eq!(skip_garbage(&cx.garbage, src, 0, src.len()), 0);
    assert_eq!(skip_garbage(&cx.garbage, src, 16, 16), 16);
}

#[test]
fn tag_head_finds_the_matching_closing_tag() {
    let cx = ParsingContext::new("", "p").unwrap();
    let w = b"<Em x=\"1\"> <em> </em > </EM> </Em >tail";
    let head = read_tag_head(&cx.combined, &cx.attribute, &cx.css_selector_shorthand, &cx.closing, w, "p", 0, 1).unwrap();
    assert_eq!(head.name, "em");
    assert_eq!(head.open_end, 10);
    assert_eq!(head.close, Some((19, 25)));
    assert_eq!(head.attributes.len(), 1);
}

#[test]
fn closing_edge_pairs_at_every_depth() {
    for opens in 0..6usize {
        let hay: Vec<u8> = "<a>".repeat(opens).into_bytes().into_iter().chain("</a>".repeat(opens + 2).into_bytes()).collect();
        let mut matches = Vec::new();
        for k in 0..opens {
            matches.push((3 * k, 3 * k + 2));
        }
        for k in 0..opens + 2 {
            matches.push((3 * opens + 4 * k, 3 * opens + 4 * k + 3));
        }
        assert_eq!(closing_edge(&hay, &matches), Some(2 * opens));
    }
}

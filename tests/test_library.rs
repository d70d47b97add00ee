use jaxp_rust::chariter::CharIter;
use jaxp_rust::error::XmlError;
use jaxp_rust::node::XmlNode;
use jaxp_rust::parse::XmlParser;
use jaxp_rust::token::XmlToken;
use jaxp_rust::tokenize::XmlTokenizer;
use jaxp_rust::tokenstream::TokenStream;
use jaxp_rust::util::{decode_decimal, decode_hex, is_predefined_entity};
use jaxp_rust::xmlchar::{XmlByte, XmlChar};

fn parse(xml: &str) -> Result<XmlNode<'_>, XmlError> {
    XmlParser::default().parse(xml)
}

fn names(tokens: &[XmlToken]) -> Vec<String> {
    tokens
        .iter()
        .map(|t| match t {
            XmlToken::Text(r) => format!("Text({})", r.as_str()),
            XmlToken::StartTag(r) => format!("StartTag({})", r.as_str()),
            XmlToken::EndTag(r) => format!("EndTag({})", r.as_str()),
            XmlToken::CdataSection(r) => format!("Cdata({})", r.as_str()),
            XmlToken::Comment(r) => format!("Comment({})", r.as_str()),
            XmlToken::ProcessingInstruction { target_range, opt_value_range } => format!(
                "PI({},{:?})",
                target_range.as_str(),
                opt_value_range.map(|v| v.as_str().to_string())
            ),
            XmlToken::Attribute { name_range, value_range } => {
                format!("Attribute({}={})", name_range.as_str(), value_range.as_str())
            }
            XmlToken::XmlDeclaration { version_range, opt_encoding_range, opt_standalone_range } => format!(
                "XmlDecl({},{:?},{:?})",
                version_range.as_str(),
                opt_encoding_range.map(|v| v.as_str().to_string()),
                opt_standalone_range.map(|v| v.as_str().to_string())
            ),
            XmlToken::DocTypeDeclaration { name_range, opt_system_entity_range, opt_public_entity_range } => format!(
                "DocType({},{:?},{:?})",
                name_range.as_str(),
                opt_system_entity_range.map(|v| v.as_str().to_string()),
                opt_public_entity_range.map(|v| v.as_str().to_string())
            ),
            XmlToken::ParameterEntityReference(r) => format!("PERef({})", r.as_str()),
        })
        .collect()
}

#[test]
fn whitespace_at_tag_boundaries_gives_the_same_tree() {
    assert_eq!(parse("<root   ></root   >").unwrap(), parse("<root></root>").unwrap());
}

#[test]
fn parsing_twice_gives_equal_trees() {
    let xml = "<r a='1'>t<!--c--><x/><![CDATA[d]]></r>";
    assert_eq!(parse(xml).unwrap(), parse(xml).unwrap());
}

#[test]
fn attribute_scenario() {
    let expected = XmlNode::ElementNode {
        name: "root",
        children: vec![XmlNode::AttributeNode { name: "attr", value: "value" }],
    };
    assert_eq!(parse("<root attr=\"value\"></root>").unwrap(), expected);
}

#[test]
fn empty_element_tags_become_childless_elements() {
    let expected = XmlNode::ElementNode {
        name: "root",
        children: vec![
            XmlNode::ElementNode { name: "a", children: vec![] },
            XmlNode::ElementNode { name: "b", children: vec![XmlNode::ElementNode { name: "c", children: vec![] }] },
        ],
    };
    assert_eq!(parse("<root><a/><b><c/></b></root>").unwrap(), expected);
}

#[test]
fn references_are_checked_not_expanded() {
    let expected = XmlNode::ElementNode { name: "root", children: vec![XmlNode::TextNode("&amp;&#65;")] };
    assert_eq!(parse("<root>&amp;&#65;</root>").unwrap(), expected);
    let err = parse("<root>&bogus;</root>").unwrap_err();
    assert!(matches!(err, XmlError::UnknownReference { .. }));
    assert_eq!(err.get_target(), "&bogus;");
}

#[test]
fn mismatched_end_tag_is_non_matching_tags() {
    let err = parse("<root><a></b></root>").unwrap_err();
    assert!(matches!(err, XmlError::NonMatchingTags { .. }));
    assert_eq!(err.get_target(), "b");
}

#[test]
fn double_hyphen_in_comment_is_illegal() {
    let err = parse("<r><!-- a--b --></r>").unwrap_err();
    assert!(matches!(err, XmlError::IllegalToken { .. }));
    assert_eq!(err.get_target(), "--");
    let err = parse("<r><!-- a---></r>").unwrap_err();
    assert!(matches!(err, XmlError::IllegalToken { .. }));
    let ok = parse("<r><!-- a --></r>").unwrap();
    assert_eq!(ok, XmlNode::ElementNode { name: "r", children: vec![XmlNode::CommentNode(" a ")] });
}

#[test]
fn no_root_element_is_rejected() {
    assert!(parse("").is_err());
    assert!(parse("<!-- only a comment -->").is_err());
    assert!(parse("<?pi data?>").is_err());
    assert!(matches!(parse("text").unwrap_err(), XmlError::UnexpectedXmlToken { .. }));
}

#[test]
fn two_root_elements_are_rejected() {
    let err = parse("<a></a><b></b>").unwrap_err();
    assert!(matches!(err, XmlError::UnexpectedXmlToken { .. }));
    assert_eq!(err.get_target(), "b");
    assert!(parse("<a/><b/>").is_err());
}

#[test]
fn unclosed_element_is_rejected() {
    assert!(matches!(parse("<a>").unwrap_err(), XmlError::UnexpectedEndOfFile));
    let err = parse("</a>").unwrap_err();
    assert!(matches!(err, XmlError::UnexpectedXmlToken { .. }));
    assert_eq!(err.get_target(), "a");
}

#[test]
fn text_before_the_root_is_unexpected() {
    let err = parse("abc<r/>").unwrap_err();
    assert!(matches!(err, XmlError::UnexpectedXmlToken { .. }));
    assert_eq!(err.get_target(), "abc");
}

#[test]
fn cdata_and_processing_instructions_become_nodes() {
    let expected = XmlNode::ElementNode {
        name: "r",
        children: vec![
            XmlNode::CdataSectionNode("<x>&"),
            XmlNode::ProcessingInstructionNode("go", Some("now ")),
            XmlNode::ProcessingInstructionNode("stop", None),
        ],
    };
    assert_eq!(parse("<r><![CDATA[<x>&]]><?go now ?><?stop?></r>").unwrap(), expected);
}

#[test]
fn processing_instruction_data_needs_a_space() {
    let err = parse("<r><?a#b?></r>").unwrap_err();
    assert!(matches!(err, XmlError::IllegalToken { .. }));
    assert_eq!(err.get_target(), "#");
}

#[test]
fn cdata_close_in_text_is_illegal() {
    let err = parse("<r>a]]>b</r>").unwrap_err();
    assert!(matches!(err, XmlError::IllegalToken { .. }));
    assert_eq!(err.get_target(), "]]>");
    assert!(parse("<r>a]b]</r>").is_ok());
}

#[test]
fn prolog_is_tokenized_and_skipped_by_the_parser() {
    let xml = "<?xml version=\"1.0\" encoding='UTF-8' standalone=\"yes\"?>\n<!-- c -->\n<!DOCTYPE r SYSTEM \"r.dtd\" [ %ent; ]>\n<r/>";
    let tokens = XmlTokenizer::default().tokenize(xml).unwrap();
    assert_eq!(
        names(&tokens),
        vec![
            "XmlDecl(1.0,Some(\"UTF-8\"),Some(\"yes\"))",
            "Comment( c )",
            "DocType(r,Some(\"r.dtd\"),None)",
            "PERef(ent)",
            "StartTag(r)",
            "EndTag(r)",
        ]
    );
    assert_eq!(parse(xml).unwrap(), XmlNode::ElementNode { name: "r", children: vec![] });
}

#[test]
fn public_doctype_has_both_literals() {
    let xml = "<!DOCTYPE html PUBLIC \"-//W3C//DTD XHTML 1.0//EN\" 'x.dtd'><html/>";
    let tokens = XmlTokenizer::default().tokenize(xml).unwrap();
    assert_eq!(
        names(&tokens)[0],
        "DocType(html,Some(\"x.dtd\"),Some(\"-//W3C//DTD XHTML 1.0//EN\"))"
    );
}

#[test]
fn markup_declarations_in_the_internal_subset_are_refused() {
    let err = parse("<!DOCTYPE r [<!ENTITY a \"b\">]><r/>").unwrap_err();
    assert!(matches!(err, XmlError::IllegalToken { .. }));
    assert_eq!(err.get_target(), "<");
}

#[test]
fn bad_declarations_are_refused() {
    assert_eq!(parse("<?xml version=\"2.0\"?><r/>").unwrap_err().get_target(), "2");
    assert_eq!(parse("<?xml version=\"1.0\" standalone='maybe'?><r/>").unwrap_err().get_target(), "m");
    assert_eq!(parse("<?xml version=\"1.0\" encoding='8bit'?><r/>").unwrap_err().get_target(), "8");
}

#[test]
fn empty_element_tokens_share_the_name_range() {
    let tokens = XmlTokenizer::default().tokenize("<a x='1'/>").unwrap();
    assert_eq!(names(&tokens), vec!["StartTag(a)", "Attribute(x=1)", "EndTag(a)"]);
    match (&tokens[0], &tokens[2]) {
        (XmlToken::StartTag(s), XmlToken::EndTag(e)) => {
            assert_eq!((s.start(), s.end()), (e.start(), e.end()));
            assert_eq!((s.start(), s.end()), (1, 2));
        }
        _ => panic!("unexpected tokens"),
    }
}

#[test]
fn token_ranges_slice_the_text() {
    let xml = "<root a=\"v\">text<!--c--><![CDATA[d]]></root>";
    let tokens = XmlTokenizer::default().tokenize(xml).unwrap();
    for t in &tokens {
        let r = match t {
            XmlToken::Text(r) | XmlToken::Comment(r) | XmlToken::CdataSection(r) => *r,
            XmlToken::Attribute { value_range, .. } => *value_range,
            _ => continue,
        };
        assert_eq!(&xml[r.start()..r.end()], r.as_str());
    }
}

#[test]
fn misc_after_the_root_is_accepted() {
    let expected = XmlNode::ElementNode { name: "r", children: vec![] };
    assert_eq!(parse("<r/>\n").unwrap(), expected);
    assert_eq!(parse("<r></r>\n<!-- c -->\r\n<?pi x?>  ").unwrap(), expected);
    let err = parse("<r/>\nx").unwrap_err();
    assert!(matches!(err, XmlError::UnexpectedXmlToken { .. }));
    assert_eq!(err.get_target(), "\nx");
    assert!(matches!(parse("<r/><![CDATA[x]]>").unwrap_err(), XmlError::UnexpectedXmlToken { .. }));
}

#[test]
fn decode_hex_reads_a_base_16_number() {
    assert_eq!(decode_hex("41"), Some('A'));
    assert_eq!(decode_hex("9"), Some('\t'));
    assert_eq!(decode_hex("10FFFF"), Some('\u{10FFFF}'));
    assert_eq!(decode_hex("123"), Some('\u{123}'));
    assert_eq!(decode_hex("1FFFE"), Some('\u{1FFFE}'));
    assert_eq!(decode_hex("1F600"), Some('\u{1F600}'));
    assert_eq!(decode_hex("0000000041"), None);
    assert_eq!(decode_hex("00000041"), Some('A'));
    assert_eq!(decode_hex(""), None);
    assert_eq!(decode_hex("8"), None);
    assert_eq!(decode_hex("zz"), None);
    assert_eq!(decode_hex("aaaaffffffff"), None);
    assert_eq!(decode_hex("D800"), None);
}

#[test]
fn decode_decimal_reads_code_points() {
    assert_eq!(decode_decimal("65"), Some('A'));
    assert_eq!(decode_decimal("1114111"), Some('\u{10FFFF}'));
    assert_eq!(decode_decimal("1114112"), None);
    assert_eq!(decode_decimal("10345672367"), None);
    assert_eq!(decode_decimal(""), None);
    assert_eq!(decode_decimal("1a"), None);
    assert_eq!(decode_decimal("8"), None);
}

#[test]
fn predefined_entities() {
    for name in ["amp", "lt", "gt", "apos", "quot"] {
        assert!(is_predefined_entity(name));
    }
    assert!(!is_predefined_entity("nbsp"));
    assert!(!is_predefined_entity("am"));
}

#[test]
fn character_classes() {
    assert!('a'.is_xml_name_start_char());
    assert!(!'-'.is_xml_name_start_char());
    assert!('-'.is_xml_name_char());
    assert!(!'\u{B8}'.is_xml_name_char());
    assert!('\u{10000}'.is_xml_char());
    assert!(!'\u{FFFE}'.is_xml_char());
    assert!(!'<'.is_xml_character_data_char());
    assert!(b'\r'.is_xml_whitespace());
    assert!(!b'\x0b'.is_xml_whitespace());
    assert!(b'\''.is_xml_quote());
    assert!(b'%'.is_xml_pubid_char());
    assert!(!b'"'.is_xml_pubid_char());
}

#[test]
fn cursor_reads_characters_and_bytes() {
    let mut ci = CharIter::new("a\u{E9}<b");
    assert_eq!(ci.peek_xml_char().unwrap(), 'a');
    assert_eq!(ci.next_byte().unwrap(), b'a');
    assert_eq!(ci.next_xml_char().unwrap(), '\u{E9}');
    assert_eq!(ci.pos(), 3);
    assert!(ci.test(b"<b"));
    assert!(!ci.test(b"<c"));
    assert!(ci.expect_bytes(b"<").is_ok());
    assert!(ci.expect_byte(b'x').is_err());
    assert!(ci.expect_spaces().is_err());
    assert_eq!(ci.next_xml_char().unwrap(), 'b');
    assert!(!ci.has_next());
    assert!(matches!(ci.peek_byte().unwrap_err(), XmlError::UnexpectedEndOfFile));
    assert_eq!(ci.text(), "a\u{E9}<b");
}

#[test]
fn cursor_spaces() {
    let mut ci = CharIter::new("  \n x");
    assert!(ci.test_after_spaces(b"x"));
    assert_eq!(ci.pos(), 0);
    assert!(ci.expect_spaces().is_ok());
    assert_eq!(ci.pos(), 4);
    assert!(ci.skip_spaces().is_ok());
    let mut end = CharIter::new("  ");
    assert!(end.skip_spaces().is_ok());
    assert_eq!(end.pos(), 2);
}

#[test]
fn cursor_slices_and_positions() {
    let ci = CharIter::new("ab\ncd\nef");
    let r = ci.slice(3..5);
    assert_eq!(r.as_str(), "cd");
    assert!(!r.is_empty());
    assert!(ci.slice(2..2).is_empty());
    let pos = ci.error_pos_of(4);
    assert_eq!((pos.row, pos.col), (2, 2));
    let pos = ci.error_pos_of(0);
    assert_eq!((pos.row, pos.col), (1, 0));
    let pos = ci.error_pos_of(5);
    assert_eq!((pos.row, pos.col), (3, 0));
    assert_eq!(ci.error_slice(0..2).start, 0);
}

#[test]
fn illegal_character_in_text() {
    let err = parse("<r>\u{FFFF}</r>").unwrap_err();
    assert!(matches!(err, XmlError::IllegalToken { .. }));
    assert_eq!(err.get_target(), "\u{FFFF}");
}

#[test]
fn token_stream_reads_forward() {
    let tokens = XmlTokenizer::default().tokenize("<a>t</a>").unwrap();
    let mut ts = TokenStream::new(tokens);
    assert!(ts.has_next());
    assert!(matches!(ts.peek_n(1), XmlToken::Text(_)));
    assert!(matches!(ts.next(), XmlToken::StartTag(_)));
    assert!(matches!(ts.peek(), XmlToken::Text(_)));
    ts.next();
    ts.next();
    assert!(!ts.has_next());
}

#[test]
fn name_is_consumed_greedily() {
    let mut ci = CharIter::new("ab-c.d e");
    let r = XmlTokenizer::consume_name(&mut ci).unwrap();
    assert_eq!(r.as_str(), "ab-c.d");
    assert_eq!(ci.pos(), 6);
    let mut bad = CharIter::new("1a ");
    assert!(XmlTokenizer::consume_name(&mut bad).is_err());
}

#[test]
fn odd_length_hex_references_are_code_points() {
    let expected = XmlNode::ElementNode { name: "r", children: vec![XmlNode::TextNode("&#x1F600;&#x1FFFE;")] };
    assert_eq!(parse("<r>&#x1F600;&#x1FFFE;</r>").unwrap(), expected);
}

#[test]
fn cursor_moves_by_bytes() {
    let mut ci = CharIter::new("\u{E9}a");
    assert_eq!(ci.next_byte().unwrap(), 0xC3);
    assert_eq!(ci.pos(), 1);
    // inside a character no character can be read
    assert!(matches!(ci.peek_xml_char().unwrap_err(), XmlError::IllegalToken { .. }));
    assert!(matches!(ci.next_xml_char().unwrap_err(), XmlError::IllegalToken { .. }));
    assert_eq!(ci.pos(), 1);
    let mut ci = CharIter::new("\u{E9}a");
    assert!(ci.advance_n(1).is_ok());
    assert_eq!(ci.pos(), 1);
    let mut ci = CharIter::new("\u{E9}a");
    assert!(ci.expect_byte(0xC3).is_ok());
    assert_eq!(ci.pos(), 1);
    let mut ci = CharIter::new("\u{E9}a");
    assert!(ci.expect_bytes(&[0xC3]).is_ok());
    assert_eq!(ci.pos(), 1);
    assert!(ci.expect_bytes(&[0xA9, b'a']).is_ok());
    assert_eq!(ci.pos(), 3);
    assert!(matches!(ci.expect_bytes(b"b").unwrap_err(), XmlError::IllegalToken { .. }));
    assert!(matches!(ci.expect_byte(b'b').unwrap_err(), XmlError::UnexpectedEndOfFile));
    let mut ci = CharIter::new("ab");
    assert!(matches!(ci.advance_n(5).unwrap_err(), XmlError::UnexpectedEndOfFile));
    assert_eq!(ci.pos(), 0);
    assert!(ci.skip_over(b"ab").is_ok());
    assert_eq!(ci.pos(), 2);
    assert!(matches!(ci.advance_n(1).unwrap_err(), XmlError::UnexpectedEndOfFile));
    assert!(matches!(ci.skip_over(b"c").unwrap_err(), XmlError::UnexpectedEndOfFile));
}

#[test]
fn failed_expectations_name_what_was_expected() {
    let mut ci = CharIter::new("x");
    match ci.expect_bytes(b"<?").unwrap_err() {
        XmlError::IllegalToken { expected, .. } => assert_eq!(expected, Some("<?".to_string())),
        e => panic!("{:?}", e),
    }
    match ci.expect_byte(b'>').unwrap_err() {
        XmlError::IllegalToken { expected, .. } => assert_eq!(expected, Some(">".to_string())),
        e => panic!("{:?}", e),
    }
    match ci.expect_spaces().unwrap_err() {
        XmlError::IllegalToken { expected, .. } => assert_eq!(expected, Some("Any space".to_string())),
        e => panic!("{:?}", e),
    }
    assert_eq!(ci.pos(), 0);
}

#[test]
fn external_id_needs_a_keyword() {
    let err = parse("<!DOCTYPE r  OTHER><r/>").unwrap_err();
    assert!(matches!(err, XmlError::IllegalToken { .. }));
    assert_eq!(err.get_target(), "O");
}

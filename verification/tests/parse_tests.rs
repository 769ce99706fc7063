use minixml::Document;
use minixml::Element;
use minixml::Node;
use minixml::ParseError;
use minixml::Parser;
use minixml::char_data;
use minixml::char_data_into_node;

fn plain_parser() -> Parser {
    Parser { allow_no_close: vec![] }
}

fn img_parser() -> Parser {
    Parser { allow_no_close: vec!["img".to_string()] }
}

#[test]
fn simple_element_with_children() {
    // element `a`, attribute x="1", two child elements `b` with text hi / bye
    let e = plain_parser().complete_element("<a x=\"1\"><b>hi</b><b>bye</b></a>").unwrap();
    assert_eq!(e.name, "a");
    assert_eq!(e.attributes.len(), 1);
    assert_eq!(e.attributes[0].0, "x");
    assert_eq!(e.attributes[0].1, "1");
    assert_eq!(e.children.len(), 2);
    let b0 = e.children[0].as_element().unwrap();
    assert_eq!(b0.name, "b");
    assert_eq!(b0.children.len(), 1);
    assert_eq!(b0.children[0].as_cdata().unwrap(), "hi");
    let b1 = e.children[1].as_element().unwrap();
    assert_eq!(b1.children[0].as_cdata().unwrap(), "bye");
}

#[test]
fn duplicate_attribute_fails() {
    assert!(plain_parser().complete_element("<a x=\"1\" x=\"2\"/>").is_none());
    assert_eq!(plain_parser().element("<a x=\"1\" x=\"2\"/>").unwrap_err(), ParseError::Fatal);
}

#[test]
fn duplicate_attribute_fails_case_insensitive() {
    // keys collide after lower-casing, and for any attribute count >= 2
    assert!(plain_parser().complete_element("<a X=\"1\" x=\"2\"></a>").is_none());
    assert!(plain_parser().complete_element("<a y=\"0\" X=\"1\" x=\"2\"></a>").is_none());
}

#[test]
fn mismatched_end_tag_fails() {
    assert!(plain_parser().complete_element("<a><b></a>").is_none());
    assert_eq!(plain_parser().element("<a><b></a>").unwrap_err(), ParseError::Fatal);
}

#[test]
fn document_with_prolog() {
    let d: Document =
        plain_parser().complete_document("<?xml version=\"1.0\" encoding=\"utf-8\"?><root/>").unwrap();
    assert_eq!(d.version, 0);
    assert_eq!(d.encoding.as_deref(), Some("utf-8"));
    assert_eq!(d.root.name, "root");
    assert!(d.root.attributes.is_empty());
    assert!(d.root.children.is_empty());
}

#[test]
fn document_without_encoding() {
    let d = plain_parser().complete_document("<?xml version=\"1.0\"?><r/>").unwrap();
    assert_eq!(d.version, 0);
    assert!(d.encoding.is_none());
}

#[test]
fn version_fraction_is_the_reported_integer() {
    let d = plain_parser().complete_document("<?xml version=\"1.0\"?><r/>").unwrap();
    assert_eq!(d.version, 0);
    let d23 = plain_parser().complete_document("<?xml version=\"1.23\"?><r/>").unwrap();
    assert_eq!(d23.version, 23);
}

#[test]
fn version_without_digits_is_a_recoverable_failure() {
    assert!(plain_parser().complete_document("<?xml version=\"1.\"?><r/>").is_none());
}

#[test]
fn version_overflow_is_a_recoverable_failure() {
    assert!(
        plain_parser().complete_document("<?xml version=\"1.99999999999999999999\"?><r/>").is_none()
    );
}

#[test]
fn self_close_without_slash_for_configured_name() {
    // zero children, body not consumed: the rest is left as remaining input
    let (rem, e) = img_parser().element("<img src=\"x.png\">rest").unwrap();
    assert_eq!(rem, "rest");
    assert_eq!(e.name, "img");
    assert_eq!(e.attributes.len(), 1);
    assert_eq!(e.attributes[0].0, "src");
    assert_eq!(e.attributes[0].1, "x.png");
    assert!(e.children.is_empty());
}

#[test]
fn slash_close_yields_zero_children_whatever_the_config() {
    let (rem, e) = img_parser().element("<img/>more").unwrap();
    assert_eq!(rem, "more");
    assert!(e.children.is_empty());
    let (rem2, e2) = plain_parser().element("<img/>more").unwrap();
    assert_eq!(rem2, "more");
    assert!(e2.children.is_empty());
}

#[test]
fn unconfigured_bare_close_reads_a_body() {
    // without `img` in the set, a bare `>` starts a body that must be closed
    assert!(plain_parser().complete_element("<img src=\"x.png\">rest").is_none());
    let e = plain_parser().complete_element("<img>rest</img>").unwrap();
    assert_eq!(e.children.len(), 1);
    assert_eq!(e.children[0].as_cdata().unwrap(), "rest");
}

#[test]
fn cdata_is_preserved_verbatim() {
    let (rem, text) = char_data("<![CDATA[a<b>c]]>rest").unwrap();
    assert_eq!(rem, "rest");
    assert_eq!(text, "a<b>c");
}

#[test]
fn cdata_inside_element_survives_strip_untrimmed() {
    // surrounding whitespace-only text removed, CDATA content untrimmed
    let e = plain_parser().complete_element("<a>  <![CDATA[ <b/> ]]>  </a>").unwrap();
    assert_eq!(e.name, "a");
    assert_eq!(e.children.len(), 1);
    assert_eq!(e.children[0].as_cdata().unwrap(), " <b/> ");
}

#[test]
fn names_are_stored_lower_cased() {
    let (rem, e) = plain_parser().element("<AbC Xy=\"V\"></aBc>").unwrap();
    assert_eq!(rem, "");
    assert_eq!(e.name, "abc");
    assert_eq!(e.attributes[0].0, "xy");
    // attribute values keep their case
    assert_eq!(e.attributes[0].1, "V");
}

#[test]
fn full_consumption_rejects_any_leftover() {
    assert!(plain_parser().complete_element("<a></a>junk").is_none());
    // trailing whitespace is consumed by the grammar itself
    assert!(plain_parser().complete_element("<a></a>   ").is_some());
}

#[test]
fn soft_failure_on_non_markup() {
    assert_eq!(plain_parser().element("plain text").unwrap_err(), ParseError::Soft);
    assert_eq!(plain_parser().document("<a/>").unwrap_err(), ParseError::Soft);
}

#[test]
fn doctype_is_skipped_to_a_sentinel() {
    let (rem, e) = plain_parser().element("<!DOCTYPE html>tail").unwrap();
    assert_eq!(rem, "tail");
    assert_eq!(e.name, "doctype_decl");
    assert!(e.attributes.is_empty());
    assert!(e.children.is_empty());
}

#[test]
fn unterminated_doctype_is_fatal() {
    assert_eq!(plain_parser().element("<!DOCTYPE html").unwrap_err(), ParseError::Fatal);
}

#[test]
fn bare_gt_in_text_is_outside_the_grammar() {
    // plain text cannot contain a literal `>`; the parse fails rather
    // than swallowing it
    assert!(plain_parser().complete_element("<a>x>y</a>").is_none());
}

#[test]
fn attribute_value_quoting() {
    let e = plain_parser().complete_element("<a x='1'></a>").unwrap();
    assert_eq!(e.attributes[0].1, "1");
    let e2 = plain_parser().complete_element("<a x=\"it's\"></a>").unwrap();
    assert_eq!(e2.attributes[0].1, "it's");
}

#[test]
fn end_tag_name_matches_case_insensitively_with_whitespace() {
    let (rem, e) = plain_parser().element("<a></ A >").unwrap();
    assert_eq!(rem, "");
    assert_eq!(e.name, "a");
}

#[test]
fn node_parser_prefers_markup() {
    let (rem, n) = plain_parser().node("<a></a>text").unwrap();
    assert_eq!(rem, "text");
    assert!(n.is_element());
    let (rem2, n2) = plain_parser().node("text<a></a>").unwrap();
    assert_eq!(rem2, "<a></a>");
    assert_eq!(n2.as_cdata().unwrap(), "text");
}

#[test]
fn element_into_node_wraps_the_element() {
    let (rem, n) = plain_parser().element_into_node("<a></a>").unwrap();
    assert_eq!(rem, "");
    let e = n.into_element().unwrap();
    assert_eq!(e.name, "a");
}

#[test]
fn char_data_into_node_wraps_the_text() {
    let (rem, n) = char_data_into_node("hi<a/>").unwrap();
    assert_eq!(rem, "<a/>");
    assert!(n.is_cdata());
    assert_eq!(n.into_cdata().unwrap(), "hi");
}

#[test]
fn node_accessors() {
    let t = Node::CharData("d".to_string());
    assert!(t.is_cdata());
    assert!(!t.is_element());
    assert!(t.as_element().is_none());
    assert_eq!(t.as_cdata().unwrap(), "d");
    let e = Node::Element(Element {
        name: "n".to_string(),
        attributes: vec![],
        children: vec![],
    });
    assert!(e.is_element());
    assert!(e.as_cdata().is_none());
    assert!(e.into_cdata().is_none());
    let t2 = Node::CharData("d".to_string());
    assert!(t2.into_element().is_none());
}

#[test]
fn unterminated_cdata_falls_back_to_text() {
    // without the terminating marker the CDATA alternative does not
    // match; the text alternative stops at the `<` and captures nothing
    let (rem, text) = char_data("<![CDATA[never closed").unwrap();
    assert_eq!(text, "");
    assert_eq!(rem, "<![CDATA[never closed");
}

#[test]
fn whitespace_around_attribute_equals() {
    let e = plain_parser().complete_element("<a x = \"1\"   y\t=\n'2'></a>").unwrap();
    assert_eq!(e.attributes.len(), 2);
    assert_eq!(e.attributes[0].0, "x");
    assert_eq!(e.attributes[0].1, "1");
    assert_eq!(e.attributes[1].0, "y");
    assert_eq!(e.attributes[1].1, "2");
}

#[test]
fn mismatched_version_quotes_fail() {
    assert!(plain_parser().complete_document("<?xml version=\"1.0'?><r/>").is_none());
}

#[test]
fn attribute_order_is_textual() {
    let e = plain_parser().complete_element("<a b=\"2\" a=\"1\" c=\"3\"></a>").unwrap();
    assert_eq!(e.attributes[0].0, "b");
    assert_eq!(e.attributes[1].0, "a");
    assert_eq!(e.attributes[2].0, "c");
}

#[test]
fn nested_elements_keep_child_order() {
    let e = plain_parser().complete_element("<a><x></x>mid<y></y></a>").unwrap();
    assert_eq!(e.children.len(), 3);
    assert_eq!(e.children[0].as_element().unwrap().name, "x");
    assert_eq!(e.children[1].as_cdata().unwrap(), "mid");
    assert_eq!(e.children[2].as_element().unwrap().name, "y");
}

#[test]
fn default_parser_has_no_self_closing_names() {
    let p = Parser::default();
    assert!(p.allow_no_close.is_empty());
    assert!(p.complete_element("<img>x").is_none());
}

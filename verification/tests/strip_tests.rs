use minixml::Element;
use minixml::Node;
use minixml::Parser;
use minixml::strip_whitespace;

fn parse_raw(text: &str) -> Element {
    // the lower-level entry performs no normalization
    let (rem, e) = Parser { allow_no_close: vec![] }.element(text).unwrap();
    assert_eq!(rem, "");
    e
}

#[test]
fn mutating_strip_keeps_text_untrimmed() {
    let mut e = parse_raw("<a> x <b> </b></a>");
    e.strip_whitespace();
    // the grammar already consumed the whitespace right after `>`; the
    // captured "x " has a nonempty trim: kept byte-identical, untrimmed
    assert_eq!(e.children.len(), 2);
    assert_eq!(e.children[0].as_cdata().unwrap(), "x ");
    let b = e.children[1].as_element().unwrap();
    assert!(b.children.is_empty());
}

#[test]
fn mutating_strip_removes_only_blank_text() {
    let mut e = parse_raw("<a>  <b></b>  </a>");
    e.strip_whitespace();
    assert_eq!(e.children.len(), 1);
    assert!(e.children[0].is_element());
}

#[test]
fn pure_strip_trims_retained_text() {
    let tree = Node::Element(Element {
        name: "a".to_string(),
        attributes: vec![],
        children: vec![
            Node::CharData("  hi  ".to_string()),
            Node::CharData("   ".to_string()),
            Node::Element(Element {
                name: "b".to_string(),
                attributes: vec![],
                children: vec![Node::CharData(" deep ".to_string())],
            }),
        ],
    });
    let stripped = strip_whitespace(tree);
    let e = stripped.into_element().unwrap();
    assert_eq!(e.children.len(), 2);
    // retained text is trimmed, unlike the mutating variant
    assert_eq!(e.children[0].as_cdata().unwrap(), "hi");
    let b = e.children[1].as_element().unwrap();
    assert_eq!(b.children[0].as_cdata().unwrap(), "deep");
}

#[test]
fn pure_strip_trims_a_top_level_text_node() {
    let n = strip_whitespace(Node::CharData("  hi  ".to_string()));
    assert_eq!(n.as_cdata().unwrap(), "hi");
    // a top-level text node is trimmed, never dropped
    let blank = strip_whitespace(Node::CharData("   ".to_string()));
    assert_eq!(blank.as_cdata().unwrap(), "");
}

#[test]
fn the_two_strips_differ_on_retained_text() {
    let mut m = parse_raw("<a> x </a>");
    m.strip_whitespace();
    assert_eq!(m.children[0].as_cdata().unwrap(), "x ");
    let p = strip_whitespace(Node::Element(parse_raw("<a> x </a>")));
    let pe = p.into_element().unwrap();
    assert_eq!(pe.children[0].as_cdata().unwrap(), "x");
}

#[test]
fn complete_element_applies_the_mutating_strip() {
    let e = Parser { allow_no_close: vec![] }.complete_element("<a>  <b></b> tail </a>").unwrap();
    assert_eq!(e.children.len(), 2);
    assert!(e.children[0].is_element());
    assert_eq!(e.children[1].as_cdata().unwrap(), "tail ");
}

#[test]
fn complete_document_strips_the_root() {
    let d = Parser { allow_no_close: vec![] }
        .complete_document("<?xml version=\"1.0\"?><a>  <b></b></a>")
        .unwrap();
    assert_eq!(d.root.children.len(), 1);
    assert!(d.root.children[0].is_element());
}

#[test]
fn strip_preserves_attributes_and_order() {
    let mut e = parse_raw("<a k=\"v\"><b></b> keep <c></c></a>");
    e.strip_whitespace();
    assert_eq!(e.attributes[0].0, "k");
    assert_eq!(e.attributes[0].1, "v");
    assert_eq!(e.children.len(), 3);
    assert_eq!(e.children[0].as_element().unwrap().name, "b");
    assert_eq!(e.children[1].as_cdata().unwrap(), "keep ");
    assert_eq!(e.children[2].as_element().unwrap().name, "c");
}

use minixml::Element;
use minixml::Node;
use minixml::Parser;
use minixml::QuerySupport;

fn parse(text: &str) -> Element {
    Parser { allow_no_close: vec![] }.complete_element(text).unwrap()
}

#[test]
fn positional_access_on_nodes() {
    let e = parse("<a><b></b><c></c><d></d></a>");
    let kids = e.children();
    assert_eq!(kids.first().unwrap().as_element().unwrap().name, "b");
    assert_eq!(kids.nth(1).unwrap().as_element().unwrap().name, "c");
    assert_eq!(kids.last().unwrap().as_element().unwrap().name, "d");
    assert!(kids.nth(3).is_none());
    assert!(kids.only().is_none());
}

#[test]
fn only_returns_the_single_item() {
    let e = parse("<a><b></b></a>");
    let kids = e.children();
    assert_eq!(kids.only().unwrap().as_element().unwrap().name, "b");
}

#[test]
fn positional_access_on_empty_sequence() {
    let e = parse("<a></a>");
    let kids = e.children();
    assert!(kids.first().is_none());
    assert!(kids.last().is_none());
    assert!(kids.only().is_none());
    assert!(kids.nth(0).is_none());
}

#[test]
fn elem_name_prunes_on_match() {
    // a matching name nested inside itself: only the outer match is
    // returned, the inner one is excluded
    let e = parse("<r><a><a></a></a></r>");
    let found = e.children().elem_name("a");
    assert_eq!(found.len(), 1);
    assert_eq!(found[0].children.len(), 1);
    assert_eq!(found[0].children[0].as_element().unwrap().name, "a");
}

#[test]
fn elem_name_descends_into_non_matches() {
    let e = parse("<r><x><a></a></x><a></a>text</r>");
    let found = e.children().elem_name("a");
    assert_eq!(found.len(), 2);
}

#[test]
fn elem_name_matches_case_insensitively() {
    let e = parse("<r><AbC></abc></r>");
    let found = e.children().elem_name("ABC");
    assert_eq!(found.len(), 1);
    assert_eq!(found[0].name, "abc");
}

#[test]
fn elem_name_on_element_sequences() {
    let e = parse("<r><a><b></b></a><b></b></r>");
    let tops = e.children();
    let the_as = tops.elem_name("a");
    assert_eq!(the_as.len(), 1);
    // search again, now starting from a sequence of elements
    let bs = the_as.elem_name("b");
    assert_eq!(bs.len(), 1);
    assert_eq!(bs[0].name, "b");
}

#[test]
fn element_queries_positional() {
    let e = parse("<r><a></a><a></a></r>");
    let the_as = e.children().elem_name("a");
    assert_eq!(the_as.len(), 2);
    assert!(the_as.first().is_some());
    assert!(the_as.last().is_some());
    assert!(the_as.only().is_none());
    assert!(the_as.nth(2).is_none());
    let one: Vec<&Element> = vec![the_as[0]];
    assert!(one.only().is_some());
}

#[test]
fn chardata_contributes_nothing_to_search() {
    let e = parse("<r>a<x></x>a</r>");
    let found = e.children().elem_name("a");
    assert_eq!(found.len(), 0);
}

#[test]
fn children_borrows_in_order() {
    let e = parse("<a>one<b></b>two</a>");
    let kids = e.children();
    assert_eq!(kids.len(), 3);
    assert_eq!(kids[0].as_cdata().unwrap(), "one");
    assert!(kids[1].is_element());
    assert_eq!(kids[2].as_cdata().unwrap(), "two");
}

#[test]
fn search_from_hand_built_nodes() {
    let inner = Element { name: "hit".to_string(), attributes: vec![], children: vec![] };
    let wrap = Element {
        name: "wrap".to_string(),
        attributes: vec![],
        children: vec![Node::Element(inner)],
    };
    let top = Node::Element(wrap);
    let items: Vec<&Node> = vec![&top];
    let found = items.elem_name("hit");
    assert_eq!(found.len(), 1);
    assert_eq!(found[0].name, "hit");
}

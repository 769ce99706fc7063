//! The document tree: `Document`, `Node`, `Element`, and their
//! mathematical models.
//!
//! Attributes are stored as a sequence of key/value pairs in textual
//! order; a successful parse guarantees the lower-cased keys are unique,
//! so the sequence is a mapping.

use vstd::prelude::*;

use crate::chars::lower;

verus! {

/// Model of an element: its lower-cased name, its attributes in textual
/// order, and its children in textual order.
pub struct SpecElement {
    pub name: Seq<char>,
    pub attrs: Seq<(Seq<char>, Seq<char>)>,
    pub children: Seq<SpecNode>,
}

/// Model of a node: raw character data, or an element.
pub enum SpecNode {
    Text(Seq<char>),
    Elem(SpecElement),
}

/// Model of a document: the version fraction as an integer, the declared
/// encoding (captured, never applied), and the root element.
pub struct SpecDocument {
    pub version: int,
    pub encoding: Option<Seq<char>>,
    pub root: SpecElement,
}

#[derive(Debug)]
pub enum Node {
    CharData(String),
    Element(Element),
}

#[derive(Debug)]
pub struct Element {
    pub name: String,
    pub attributes: Vec<(String, String)>,
    pub children: Vec<Node>,
}

#[derive(Debug)]
pub struct Document {
    pub version: i32,
    pub encoding: Option<String>,
    pub root: Element,
}

pub open spec fn attrs_view(s: Seq<(String, String)>) -> Seq<(Seq<char>, Seq<char>)> {
    s.map_values(|p: (String, String)| (p.0@, p.1@))
}

pub open spec fn node_view(n: Node) -> SpecNode
    decreases n,
{
    match n {
        Node::CharData(d) => SpecNode::Text(d@),
        Node::Element(e) => SpecNode::Elem(elem_view(e)),
    }
}

pub open spec fn elem_view(e: Element) -> SpecElement
    decreases e,
{
    SpecElement {
        name: e.name@,
        attrs: attrs_view(e.attributes@),
        children: children_view(e.children@),
    }
}

pub open spec fn children_view(s: Seq<Node>) -> Seq<SpecNode>
    decreases s,
{
    if s.len() == 0 {
        Seq::empty()
    } else {
        children_view(s.drop_last()).push(node_view(s.last()))
    }
}

impl View for Node {
    type V = SpecNode;

    open spec fn view(&self) -> SpecNode {
        node_view(*self)
    }
}

impl View for Element {
    type V = SpecElement;

    open spec fn view(&self) -> SpecElement {
        elem_view(*self)
    }
}

impl View for Document {
    type V = SpecDocument;

    open spec fn view(&self) -> SpecDocument {
        SpecDocument {
            version: self.version as int,
            encoding: match self.encoding {
                Some(ref e) => Some(e@),
                None => None,
            },
            root: elem_view(self.root),
        }
    }
}

pub proof fn lemma_children_view(s: Seq<Node>)
    ensures
        children_view(s).len() == s.len(),
        forall|i: int| 0 <= i < s.len() ==> children_view(s)[i] == node_view(s[i]),
    decreases s,
{
    if s.len() > 0 {
        lemma_children_view(s.drop_last());
    }
}

pub proof fn lemma_children_view_push(s: Seq<Node>, n: Node)
    ensures
        children_view(s.push(n)) == children_view(s).push(node_view(n)),
{
    assert(s.push(n).drop_last() =~= s);
    assert(children_view(s.push(n)) =~= children_view(s).push(node_view(n)));
}

/// No two attributes share a key.
pub open spec fn unique_keys(attrs: Seq<(Seq<char>, Seq<char>)>) -> bool {
    forall|i: int, j: int| 0 <= i < j < attrs.len() ==> attrs[i].0 != attrs[j].0
}

/// Well-formedness of a parsed element: the name and all attribute keys
/// are stored lower-cased, attribute keys are unique, and all child
/// elements are well-formed in turn.
pub open spec fn wf_elem(e: SpecElement) -> bool
    decreases e,
{
    &&& e.name == lower(e.name)
    &&& unique_keys(e.attrs)
    &&& (forall|i: int| 0 <= i < e.attrs.len() ==> e.attrs[i].0 == lower(#[trigger] e.attrs[i].0))
    &&& wf_children(e.children)
}

pub open spec fn wf_node(n: SpecNode) -> bool
    decreases n,
{
    match n {
        SpecNode::Text(_) => true,
        SpecNode::Elem(e) => wf_elem(e),
    }
}

pub open spec fn wf_children(s: Seq<SpecNode>) -> bool
    decreases s,
{
    if s.len() == 0 {
        true
    } else {
        wf_node(s.first()) && wf_children(s.drop_first())
    }
}

/// Nesting depth of a node; used as a termination measure by tree walks.
pub open spec fn node_height(n: SpecNode) -> nat
    decreases n,
{
    match n {
        SpecNode::Text(_) => 0,
        SpecNode::Elem(e) => 1 + children_height(e.children),
    }
}

pub open spec fn children_height(s: Seq<SpecNode>) -> nat
    decreases s,
{
    if s.len() == 0 {
        0
    } else {
        node_height(s.first()) + 1 + children_height(s.drop_first())
    }
}

impl Node {
    pub fn as_cdata(&self) -> (r: Option<&String>)
        ensures
            match self {
                Node::CharData(d) => r == Some(d),
                Node::Element(_) => r is None,
            },
    {
        match self {
            Node::CharData(data) => Some(data),
            _ => None,
        }
    }

    pub fn into_cdata(self) -> (r: Option<String>)
        ensures
            match self {
                Node::CharData(d) => r == Some(d),
                Node::Element(_) => r is None,
            },
    {
        match self {
            Node::CharData(data) => Some(data),
            _ => None,
        }
    }

    pub fn is_cdata(&self) -> (r: bool)
        ensures
            r == (self is CharData),
    {
        matches!(self, Node::CharData(_))
    }

    pub fn as_element(&self) -> (r: Option<&Element>)
        ensures
            match self {
                Node::Element(e) => r == Some(e),
                Node::CharData(_) => r is None,
            },
    {
        match self {
            Node::Element(element) => Some(element),
            _ => None,
        }
    }

    pub fn into_element(self) -> (r: Option<Element>)
        ensures
            match self {
                Node::Element(e) => r == Some(e),
                Node::CharData(_) => r is None,
            },
    {
        match self {
            Node::Element(element) => Some(element),
            _ => None,
        }
    }

    pub fn is_element(&self) -> (r: bool)
        ensures
            r == (self is Element),
    {
        matches!(self, Node::Element(_))
    }
}

impl Element {
    /// The children as a flat sequence of borrowed references, ready for
    /// the query operations.
    pub fn children(&self) -> (r: Vec<&Node>)
        ensures
            r@.len() == self.children@.len(),
            forall|i: int| 0 <= i < r@.len() ==> *r@[i] == self.children@[i],
    {
        let mut v: Vec<&Node> = Vec::new();
        let mut i: usize = 0;
        let n = self.children.len();
        loop
            invariant
                i <= n,
                n == self.children@.len(),
                v@.len() == i,
                forall|j: int| 0 <= j < i ==> *v@[j] == self.children@[j],
            ensures
                i == n,
                v@.len() == n,
                forall|j: int| 0 <= j < n ==> *v@[j] == self.children@[j],
            decreases n - i,
        {
            if i >= n {
                break ;
            }
            v.push(&self.children[i]);
            i += 1;
        }
        v
    }
}

} // verus!

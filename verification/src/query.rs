//! Read-only queries over flat sequences of borrowed tree references:
//! positional accessors and the recursive, prune-on-match name search.

use vstd::prelude::*;

use crate::chars::lower;
use crate::chars::to_lower;
use crate::tree::Element;
use crate::tree::Node;
use crate::tree::SpecElement;
use crate::tree::SpecNode;
use crate::tree::children_height;
use crate::tree::children_view;
use crate::tree::elem_view;
use crate::tree::lemma_children_view;
use crate::tree::node_height;
use crate::tree::node_view;

verus! {

/// What a search finds in one node: a matching element is reported and
/// pruned (its own children are not searched); a non-matching element is
/// searched recursively; character data contributes nothing. Matching is
/// ASCII case-insensitive.
pub open spec fn sp_search_node(n: SpecNode, q: Seq<char>) -> Seq<SpecElement>
    decreases n, 0int,
{
    match n {
        SpecNode::Text(_) => Seq::empty(),
        SpecNode::Elem(e) => if lower(e.name) == lower(q) {
            seq![e]
        } else {
            sp_search_children(e.children, q)
        },
    }
}

pub open spec fn sp_search_children(s: Seq<SpecNode>, q: Seq<char>) -> Seq<SpecElement>
    decreases s, 1int,
{
    if s.len() == 0 {
        Seq::empty()
    } else {
        sp_search_node(s.first(), q) + sp_search_children(s.drop_first(), q)
    }
}

/// The search starting from one element.
pub open spec fn sp_search_elem(e: SpecElement, q: Seq<char>) -> Seq<SpecElement> {
    if lower(e.name) == lower(q) {
        seq![e]
    } else {
        sp_search_children(e.children, q)
    }
}

pub open spec fn sp_search_elems(s: Seq<SpecElement>, q: Seq<char>) -> Seq<SpecElement>
    decreases s,
{
    if s.len() == 0 {
        Seq::empty()
    } else {
        sp_search_elem(s.first(), q) + sp_search_elems(s.drop_first(), q)
    }
}

/// Law: prune on match. An element whose name matches the query
/// (case-insensitively) contributes exactly itself, and its own children
/// are never searched; one whose name does not match contributes exactly
/// what the search of its children finds.
pub proof fn lemma_search_prune(e: SpecElement, q: Seq<char>)
    ensures
        lower(e.name) == lower(q) ==> sp_search_elem(e, q) == seq![e],
        lower(e.name) != lower(q) ==> sp_search_elem(e, q) == sp_search_children(e.children, q),
        sp_search_node(SpecNode::Elem(e), q) == sp_search_elem(e, q),
{
}

pub proof fn lemma_search_children_add(a: Seq<SpecNode>, b: Seq<SpecNode>, q: Seq<char>)
    ensures
        sp_search_children(a + b, q) == sp_search_children(a, q) + sp_search_children(b, q),
    decreases a.len(),
{
    if a.len() == 0 {
        assert(a + b =~= b);
        assert(sp_search_children(a, q) + sp_search_children(b, q) =~= sp_search_children(b, q));
    } else {
        assert((a + b).first() == a.first());
        assert((a + b).drop_first() =~= a.drop_first() + b);
        lemma_search_children_add(a.drop_first(), b, q);
        assert(sp_search_node(a.first(), q) + (sp_search_children(a.drop_first(), q)
            + sp_search_children(b, q)) =~= (sp_search_node(a.first(), q) + sp_search_children(
            a.drop_first(),
            q,
        )) + sp_search_children(b, q));
    }
}

pub proof fn lemma_search_elems_add(a: Seq<SpecElement>, b: Seq<SpecElement>, q: Seq<char>)
    ensures
        sp_search_elems(a + b, q) == sp_search_elems(a, q) + sp_search_elems(b, q),
    decreases a.len(),
{
    if a.len() == 0 {
        assert(a + b =~= b);
        assert(sp_search_elems(a, q) + sp_search_elems(b, q) =~= sp_search_elems(b, q));
    } else {
        assert((a + b).first() == a.first());
        assert((a + b).drop_first() =~= a.drop_first() + b);
        lemma_search_elems_add(a.drop_first(), b, q);
        assert(sp_search_elem(a.first(), q) + (sp_search_elems(a.drop_first(), q)
            + sp_search_elems(b, q)) =~= (sp_search_elem(a.first(), q) + sp_search_elems(
            a.drop_first(),
            q,
        )) + sp_search_elems(b, q));
    }
}

pub proof fn lemma_children_height_member(s: Seq<SpecNode>, i: int)
    requires
        0 <= i < s.len(),
    ensures
        node_height(s[i]) < children_height(s),
    decreases s.len(),
{
    if i > 0 {
        lemma_children_height_member(s.drop_first(), i - 1);
        assert(s.drop_first()[i - 1] == s[i]);
    }
}

/// The models of a sequence of borrowed nodes.
pub open spec fn node_refs_view(s: Seq<&Node>) -> Seq<SpecNode> {
    s.map_values(|n: &Node| node_view(*n))
}

/// The models of a sequence of borrowed elements.
pub open spec fn elem_refs_view(s: Seq<&Element>) -> Seq<SpecElement> {
    s.map_values(|e: &Element| elem_view(*e))
}

fn search_nodes<'a>(items: &Vec<&'a Node>, name: &str) -> (r: Vec<&'a Element>)
    ensures
        elem_refs_view(r@) == sp_search_children(node_refs_view(items@), name@),
    decreases children_height(node_refs_view(items@)),
{
    let mut v: Vec<&'a Element> = Vec::new();
    let n = items.len();
    let mut i: usize = 0;
    loop
        invariant
            i <= n,
            n == items@.len(),
            elem_refs_view(v@) == sp_search_children(
                node_refs_view(items@.subrange(0, i as int)),
                name@,
            ),
        ensures
            i == n,
            elem_refs_view(v@) == sp_search_children(
                node_refs_view(items@.subrange(0, i as int)),
                name@,
            ),
        decreases n - i,
    {
        if i >= n {
            break ;
        }
        let x: &'a Node = items[i];
        proof {
            assert(items@.subrange(0, i as int).push(items@[i as int]) =~= items@.subrange(
                0,
                i as int + 1,
            ));
            assert(node_refs_view(items@.subrange(0, i as int + 1)) =~= node_refs_view(
                items@.subrange(0, i as int),
            ) + seq![node_view(*items@[i as int])]);
            lemma_search_children_add(
                node_refs_view(items@.subrange(0, i as int)),
                seq![node_view(*items@[i as int])],
                name@,
            );
            assert(seq![node_view(*items@[i as int])].drop_first() =~= Seq::<SpecNode>::empty());
            assert(seq![node_view(*items@[i as int])].first() == node_view(*items@[i as int]));
            assert(sp_search_children(Seq::<SpecNode>::empty(), name@) =~= Seq::<
                SpecElement,
            >::empty());
            assert(sp_search_children(seq![node_view(*items@[i as int])], name@)
                =~= sp_search_node(node_view(*items@[i as int]), name@));
        }
        match x {
            Node::CharData(_) => {
                proof {
                    assert(elem_refs_view(v@) + Seq::<SpecElement>::empty() =~= elem_refs_view(
                        v@,
                    ));
                }
            },
            Node::Element(element) => {
                let en = to_lower(element.name.as_str());
                let qn = to_lower(name);
                if en.eq(&qn) {
                    proof {
                        assert(elem_refs_view(v@.push(element)) =~= elem_refs_view(v@) + seq![
                            elem_view(*element),
                        ]);
                    }
                    v.push(element);
                } else {
                    let ch = element.children();
                    proof {
                        lemma_children_view(element.children@);
                        assert(node_refs_view(ch@) =~= children_view(element.children@));
                        lemma_children_height_member(node_refs_view(items@), i as int);
                        assert(node_refs_view(items@)[i as int] == node_view(*items@[i as int]));
                        assert(node_height(node_view(*items@[i as int])) == 1 + children_height(
                            elem_view(*element).children,
                        ));
                    }
                    let mut sub = search_nodes(&ch, name);
                    proof {
                        assert(elem_refs_view(v@ + sub@) =~= elem_refs_view(v@) + elem_refs_view(
                            sub@,
                        ));
                    }
                    v.append(&mut sub);
                }
            },
        }
        i += 1;
    }
    proof {
        assert(items@.subrange(0, n as int) =~= items@);
    }
    v
}

fn search_elems<'a>(items: &Vec<&'a Element>, name: &str) -> (r: Vec<&'a Element>)
    ensures
        elem_refs_view(r@) == sp_search_elems(elem_refs_view(items@), name@),
{
    let mut v: Vec<&'a Element> = Vec::new();
    let n = items.len();
    let mut i: usize = 0;
    loop
        invariant
            i <= n,
            n == items@.len(),
            elem_refs_view(v@) == sp_search_elems(
                elem_refs_view(items@.subrange(0, i as int)),
                name@,
            ),
        ensures
            i == n,
            elem_refs_view(v@) == sp_search_elems(
                elem_refs_view(items@.subrange(0, i as int)),
                name@,
            ),
        decreases n - i,
    {
        if i >= n {
            break ;
        }
        let element: &'a Element = items[i];
        proof {
            assert(items@.subrange(0, i as int).push(items@[i as int]) =~= items@.subrange(
                0,
                i as int + 1,
            ));
            assert(elem_refs_view(items@.subrange(0, i as int + 1)) =~= elem_refs_view(
                items@.subrange(0, i as int),
            ) + seq![elem_view(*items@[i as int])]);
            lemma_search_elems_add(
                elem_refs_view(items@.subrange(0, i as int)),
                seq![elem_view(*items@[i as int])],
                name@,
            );
            assert(seq![elem_view(*items@[i as int])].drop_first() =~= Seq::<SpecElement>::empty());
            assert(seq![elem_view(*items@[i as int])].first() == elem_view(*items@[i as int]));
            assert(sp_search_elems(Seq::<SpecElement>::empty(), name@) =~= Seq::<
                SpecElement,
            >::empty());
            assert(sp_search_elems(seq![elem_view(*items@[i as int])], name@) =~= sp_search_elem(
                elem_view(*items@[i as int]),
                name@,
            ));
        }
        let en = to_lower(element.name.as_str());
        let qn = to_lower(name);
        if en.eq(&qn) {
            proof {
                assert(elem_refs_view(v@.push(element)) =~= elem_refs_view(v@) + seq![
                    elem_view(*element),
                ]);
            }
            v.push(element);
        } else {
            let ch = element.children();
            proof {
                lemma_children_view(element.children@);
                assert(node_refs_view(ch@) =~= children_view(element.children@));
            }
            let mut sub = search_nodes(&ch, name);
            proof {
                assert(elem_refs_view(v@ + sub@) =~= elem_refs_view(v@) + elem_refs_view(sub@));
            }
            v.append(&mut sub);
        }
        i += 1;
    }
    proof {
        assert(items@.subrange(0, n as int) =~= items@);
    }
    v
}

/// Positional access and name search over a flat sequence of borrowed
/// tree references.
pub trait QuerySupport<'a, T> {
    /// The sequence the queries read.
    spec fn items(&self) -> Seq<&'a T>;

    /// What `elem_name` finds for a query.
    spec fn found(&self, q: Seq<char>) -> Seq<SpecElement>;

    /// The single item, if the sequence has exactly one.
    fn only(&self) -> (r: Option<&'a T>)
        ensures
            r == (if self.items().len() == 1 {
                Some(self.items()[0])
            } else {
                None::<&'a T>
            }),
    ;

    /// The first item, if any.
    fn first(&self) -> (r: Option<&'a T>)
        ensures
            r == (if self.items().len() > 0 {
                Some(self.items()[0])
            } else {
                None::<&'a T>
            }),
    ;

    /// The item at `index`; out of range yields nothing.
    fn nth(&self, index: usize) -> (r: Option<&'a T>)
        ensures
            r == (if (index as int) < self.items().len() {
                Some(self.items()[index as int])
            } else {
                None::<&'a T>
            }),
    ;

    /// The last item, if any.
    fn last(&self) -> (r: Option<&'a T>)
        ensures
            r == (if self.items().len() > 0 {
                Some(self.items()[self.items().len() - 1])
            } else {
                None::<&'a T>
            }),
    ;

    /// Depth-first, pre-order, prune-on-match name search.
    fn elem_name(&self, name: &str) -> (r: Vec<&'a Element>)
        ensures
            elem_refs_view(r@) == self.found(name@),
    ;
}

impl<'a> QuerySupport<'a, Node> for Vec<&'a Node> {
    open spec fn items(&self) -> Seq<&'a Node> {
        self@
    }

    open spec fn found(&self, q: Seq<char>) -> Seq<SpecElement> {
        sp_search_children(node_refs_view(self@), q)
    }

    fn only(&self) -> (r: Option<&'a Node>) {
        if self.len() == 1 {
            Some(self[0])
        } else {
            None
        }
    }

    fn first(&self) -> (r: Option<&'a Node>) {
        self.nth(0)
    }

    fn nth(&self, index: usize) -> (r: Option<&'a Node>) {
        if index < self.len() {
            Some(self[index])
        } else {
            None
        }
    }

    fn last(&self) -> (r: Option<&'a Node>) {
        if self.len() == 0 {
            None
        } else {
            self.nth(self.len() - 1)
        }
    }

    fn elem_name(&self, name: &str) -> (r: Vec<&'a Element>) {
        search_nodes(self, name)
    }
}

impl<'a> QuerySupport<'a, Element> for Vec<&'a Element> {
    open spec fn items(&self) -> Seq<&'a Element> {
        self@
    }

    open spec fn found(&self, q: Seq<char>) -> Seq<SpecElement> {
        sp_search_elems(elem_refs_view(self@), q)
    }

    fn only(&self) -> (r: Option<&'a Element>) {
        if self.len() == 1 {
            Some(self[0])
        } else {
            None
        }
    }

    fn first(&self) -> (r: Option<&'a Element>) {
        self.nth(0)
    }

    fn nth(&self, index: usize) -> (r: Option<&'a Element>) {
        if index < self.len() {
            Some(self[index])
        } else {
            None
        }
    }

    fn last(&self) -> (r: Option<&'a Element>) {
        if self.len() == 0 {
            None
        } else {
            Some(self[self.len() - 1])
        }
    }

    fn elem_name(&self, name: &str) -> (r: Vec<&'a Element>) {
        search_elems(self, name)
    }
}

} // verus!

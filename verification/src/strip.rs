//! Whitespace normalization, in two deliberately different semantics.
//!
//! The in-place variant removes any direct text child whose trimmed
//! content is empty and descends into the remaining element children;
//! text that is kept is left untrimmed. The pure variant rebuilds the
//! tree, trims every retained text value, and drops a node that becomes
//! empty after trimming. The two are not interchangeable.

use vstd::prelude::*;

use crate::chars::spec_trim;
use crate::chars::trim_str;
use crate::tree::Element;
use crate::tree::Node;
use crate::tree::SpecElement;
use crate::tree::SpecNode;
use crate::tree::children_view;
use crate::tree::elem_view;
use crate::tree::lemma_children_view_push;
use crate::tree::node_view;
use crate::tree::wf_children;
use crate::tree::wf_elem;
use crate::tree::wf_node;

verus! {

/// Whether the in-place strip keeps this child.
pub open spec fn strip_keep(n: SpecNode) -> bool {
    match n {
        SpecNode::Text(d) => spec_trim(d).len() > 0,
        SpecNode::Elem(_) => true,
    }
}

/// What one child contributes after the in-place strip: nothing for
/// all-whitespace text, the text unchanged otherwise, and the
/// recursively stripped element for an element.
pub open spec fn sp_strip_mut_one(n: SpecNode) -> Seq<SpecNode>
    decreases n, 1int,
{
    match n {
        SpecNode::Text(d) => if spec_trim(d).len() > 0 {
            seq![n]
        } else {
            Seq::empty()
        },
        SpecNode::Elem(e) => seq![SpecNode::Elem(sp_strip_mut_elem(e))],
    }
}

pub open spec fn sp_strip_mut_elem(e: SpecElement) -> SpecElement
    decreases e, 0int,
{
    SpecElement { name: e.name, attrs: e.attrs, children: sp_strip_mut_children(e.children) }
}

pub open spec fn sp_strip_mut_children(s: Seq<SpecNode>) -> Seq<SpecNode>
    decreases s, 2int,
{
    if s.len() == 0 {
        Seq::empty()
    } else {
        sp_strip_mut_one(s.first()) + sp_strip_mut_children(s.drop_first())
    }
}

/// The pure strip of one node: text is trimmed, an element is rebuilt
/// with its stripped children.
pub open spec fn sp_strip_pure_node(n: SpecNode) -> SpecNode
    decreases n, 1int,
{
    match n {
        SpecNode::Text(d) => SpecNode::Text(spec_trim(d)),
        SpecNode::Elem(e) => SpecNode::Elem(
            SpecElement {
                name: e.name,
                attrs: e.attrs,
                children: sp_strip_pure_children(e.children),
            },
        ),
    }
}

/// What one child contributes after the pure strip: the stripped node,
/// unless it is text that became empty.
pub open spec fn sp_strip_pure_one(n: SpecNode) -> Seq<SpecNode>
    decreases n, 2int,
{
    match sp_strip_pure_node(n) {
        SpecNode::Text(d) => if d.len() == 0 {
            Seq::empty()
        } else {
            seq![SpecNode::Text(d)]
        },
        SpecNode::Elem(e) => seq![SpecNode::Elem(e)],
    }
}

pub open spec fn sp_strip_pure_children(s: Seq<SpecNode>) -> Seq<SpecNode>
    decreases s, 3int,
{
    if s.len() == 0 {
        Seq::empty()
    } else {
        sp_strip_pure_one(s.first()) + sp_strip_pure_children(s.drop_first())
    }
}

pub proof fn lemma_strip_mut_children_add(a: Seq<SpecNode>, b: Seq<SpecNode>)
    ensures
        sp_strip_mut_children(a + b) == sp_strip_mut_children(a) + sp_strip_mut_children(b),
    decreases a.len(),
{
    if a.len() == 0 {
        assert(a + b =~= b);
        assert(sp_strip_mut_children(a) + sp_strip_mut_children(b) =~= sp_strip_mut_children(b));
    } else {
        assert((a + b).first() == a.first());
        assert((a + b).drop_first() =~= a.drop_first() + b);
        lemma_strip_mut_children_add(a.drop_first(), b);
        assert(sp_strip_mut_one(a.first()) + (sp_strip_mut_children(a.drop_first())
            + sp_strip_mut_children(b)) =~= (sp_strip_mut_one(a.first()) + sp_strip_mut_children(
            a.drop_first(),
        )) + sp_strip_mut_children(b));
    }
}

pub proof fn lemma_strip_pure_children_add(a: Seq<SpecNode>, b: Seq<SpecNode>)
    ensures
        sp_strip_pure_children(a + b) == sp_strip_pure_children(a) + sp_strip_pure_children(b),
    decreases a.len(),
{
    if a.len() == 0 {
        assert(a + b =~= b);
        assert(sp_strip_pure_children(a) + sp_strip_pure_children(b) =~= sp_strip_pure_children(
            b,
        ));
    } else {
        assert((a + b).first() == a.first());
        assert((a + b).drop_first() =~= a.drop_first() + b);
        lemma_strip_pure_children_add(a.drop_first(), b);
        assert(sp_strip_pure_one(a.first()) + (sp_strip_pure_children(a.drop_first())
            + sp_strip_pure_children(b)) =~= (sp_strip_pure_one(a.first())
            + sp_strip_pure_children(a.drop_first())) + sp_strip_pure_children(b));
    }
}

/// What the in-place strip makes of one kept child: text stays as it
/// is, an element is stripped recursively.
pub open spec fn sp_strip_mut_node(n: SpecNode) -> SpecNode {
    match n {
        SpecNode::Text(_) => n,
        SpecNode::Elem(e) => SpecNode::Elem(sp_strip_mut_elem(e)),
    }
}

/// Law: the in-place strip removes exactly the text children whose
/// trimmed content is empty; everything else is kept in order, kept text
/// byte-identical and untrimmed, kept elements stripped recursively.
pub proof fn lemma_strip_mut_is_filter(s: Seq<SpecNode>)
    ensures
        sp_strip_mut_children(s) == s.filter(|n: SpecNode| strip_keep(n)).map_values(
            |n: SpecNode| sp_strip_mut_node(n),
        ),
    decreases s.len(),
{
    reveal(Seq::filter);
    if s.len() == 0 {
        assert(s.filter(|n: SpecNode| strip_keep(n)).map_values(|n: SpecNode| sp_strip_mut_node(n))
            =~= Seq::<SpecNode>::empty());
    } else {
        let d = s.drop_last();
        let l = s.last();
        lemma_strip_mut_is_filter(d);
        assert(s =~= d + seq![l]);
        lemma_strip_mut_children_add(d, seq![l]);
        assert(seq![l].first() == l);
        assert(seq![l].drop_first() =~= Seq::<SpecNode>::empty());
        assert(sp_strip_mut_children(Seq::<SpecNode>::empty()) =~= Seq::<SpecNode>::empty());
        assert(sp_strip_mut_children(seq![l]) =~= sp_strip_mut_one(l));
        if strip_keep(l) {
            assert(sp_strip_mut_one(l) =~= seq![sp_strip_mut_node(l)]);
            assert(s.filter(|n: SpecNode| strip_keep(n)) == d.filter(
                |n: SpecNode| strip_keep(n),
            ).push(l));
            assert(s.filter(|n: SpecNode| strip_keep(n)).map_values(
                |n: SpecNode| sp_strip_mut_node(n),
            ) =~= d.filter(|n: SpecNode| strip_keep(n)).map_values(
                |n: SpecNode| sp_strip_mut_node(n),
            ).push(sp_strip_mut_node(l)));
            assert(sp_strip_mut_children(s) =~= s.filter(|n: SpecNode| strip_keep(n)).map_values(
                |n: SpecNode| sp_strip_mut_node(n),
            ));
        } else {
            assert(sp_strip_mut_one(l) =~= Seq::<SpecNode>::empty());
            assert(s.filter(|n: SpecNode| strip_keep(n)) == d.filter(|n: SpecNode| strip_keep(n)));
            assert(sp_strip_mut_children(s) =~= s.filter(|n: SpecNode| strip_keep(n)).map_values(
                |n: SpecNode| sp_strip_mut_node(n),
            ));
        }
    }
}

/// Trimming every text value throughout a tree, leaving structure and
/// attributes alone.
pub open spec fn sp_trim_texts_node(n: SpecNode) -> SpecNode
    decreases n, 0int,
{
    match n {
        SpecNode::Text(d) => SpecNode::Text(spec_trim(d)),
        SpecNode::Elem(e) => SpecNode::Elem(
            SpecElement {
                name: e.name,
                attrs: e.attrs,
                children: sp_trim_texts_children(e.children),
            },
        ),
    }
}

pub open spec fn sp_trim_texts_children(s: Seq<SpecNode>) -> Seq<SpecNode>
    decreases s, 1int,
{
    if s.len() == 0 {
        Seq::empty()
    } else {
        seq![sp_trim_texts_node(s.first())] + sp_trim_texts_children(s.drop_first())
    }
}

pub proof fn lemma_trim_texts_children_add(a: Seq<SpecNode>, b: Seq<SpecNode>)
    ensures
        sp_trim_texts_children(a + b) == sp_trim_texts_children(a) + sp_trim_texts_children(b),
    decreases a.len(),
{
    if a.len() == 0 {
        assert(a + b =~= b);
        assert(sp_trim_texts_children(a) + sp_trim_texts_children(b) =~= sp_trim_texts_children(
            b,
        ));
    } else {
        assert((a + b).first() == a.first());
        assert((a + b).drop_first() =~= a.drop_first() + b);
        lemma_trim_texts_children_add(a.drop_first(), b);
        assert(seq![sp_trim_texts_node(a.first())] + (sp_trim_texts_children(a.drop_first())
            + sp_trim_texts_children(b)) =~= (seq![sp_trim_texts_node(a.first())]
            + sp_trim_texts_children(a.drop_first())) + sp_trim_texts_children(b));
    }
}

/// What the pure strip makes of one child equals the in-place strip of
/// that child with every retained text value trimmed afterwards.
pub proof fn lemma_pure_strip_one(n: SpecNode)
    ensures
        sp_strip_pure_one(n) == sp_trim_texts_children(sp_strip_mut_one(n)),
    decreases n, 3int,
{
    match n {
        SpecNode::Text(d) => {
            if spec_trim(d).len() > 0 {
                assert(seq![n].first() == n);
                assert(seq![n].drop_first() =~= Seq::<SpecNode>::empty());
                assert(sp_trim_texts_children(Seq::<SpecNode>::empty())
                    =~= Seq::<SpecNode>::empty());
                assert(sp_trim_texts_children(seq![n]) =~= seq![sp_trim_texts_node(n)]);
                assert(sp_strip_pure_one(n) =~= sp_trim_texts_children(sp_strip_mut_one(n)));
            } else {
                assert(sp_trim_texts_children(Seq::<SpecNode>::empty())
                    =~= Seq::<SpecNode>::empty());
                assert(sp_strip_pure_one(n) =~= Seq::<SpecNode>::empty());
            }
        },
        SpecNode::Elem(e) => {
            lemma_pure_strip_is_trimmed_mut(e.children);
            let m = SpecNode::Elem(sp_strip_mut_elem(e));
            assert(seq![m].first() == m);
            assert(seq![m].drop_first() =~= Seq::<SpecNode>::empty());
            assert(sp_trim_texts_children(Seq::<SpecNode>::empty()) =~= Seq::<SpecNode>::empty());
            assert(sp_trim_texts_children(seq![m]) =~= seq![sp_trim_texts_node(m)]);
            assert(sp_strip_pure_one(n) =~= sp_trim_texts_children(sp_strip_mut_one(n)));
        },
    }
}

/// Law: the pure strip drops exactly the children the in-place strip
/// drops, and additionally trims every retained text value, at every
/// depth.
pub proof fn lemma_pure_strip_is_trimmed_mut(s: Seq<SpecNode>)
    ensures
        sp_strip_pure_children(s) == sp_trim_texts_children(sp_strip_mut_children(s)),
    decreases s, 4int,
{
    if s.len() == 0 {
        assert(sp_trim_texts_children(sp_strip_mut_children(s)) =~= Seq::<SpecNode>::empty());
    } else {
        lemma_pure_strip_one(s.first());
        lemma_pure_strip_is_trimmed_mut(s.drop_first());
        lemma_trim_texts_children_add(
            sp_strip_mut_one(s.first()),
            sp_strip_mut_children(s.drop_first()),
        );
    }
}

pub proof fn lemma_wf_children_add(a: Seq<SpecNode>, b: Seq<SpecNode>)
    ensures
        wf_children(a + b) == (wf_children(a) && wf_children(b)),
    decreases a.len(),
{
    if a.len() == 0 {
        assert(a + b =~= b);
    } else {
        assert((a + b).first() == a.first());
        assert((a + b).drop_first() =~= a.drop_first() + b);
        lemma_wf_children_add(a.drop_first(), b);
    }
}

/// Law: the in-place strip preserves well-formedness: names and keys
/// stay lower-cased, and keys stay unique, at every depth.
pub proof fn lemma_strip_mut_preserves_wf(e: SpecElement)
    requires
        wf_elem(e),
    ensures
        wf_elem(sp_strip_mut_elem(e)),
    decreases e, 5int,
{
    lemma_strip_mut_preserves_wf_children(e.children);
}

pub proof fn lemma_strip_mut_preserves_wf_children(s: Seq<SpecNode>)
    requires
        wf_children(s),
    ensures
        wf_children(sp_strip_mut_children(s)),
    decreases s, 6int,
{
    if s.len() > 0 {
        assert(wf_node(s.first()));
        assert(wf_children(Seq::<SpecNode>::empty()));
        lemma_strip_mut_preserves_wf_children(s.drop_first());
        let one = sp_strip_mut_one(s.first());
        match s.first() {
            SpecNode::Text(_) => {
                assert(wf_children(one)) by {
                    if one.len() > 0 {
                        assert(one.first() == s.first());
                        assert(one.drop_first() =~= Seq::<SpecNode>::empty());
                    }
                }
            },
            SpecNode::Elem(inner) => {
                lemma_strip_mut_preserves_wf(inner);
                assert(wf_node(SpecNode::Elem(sp_strip_mut_elem(inner))));
                assert(one.first() == SpecNode::Elem(sp_strip_mut_elem(inner)));
                assert(one.drop_first() =~= Seq::<SpecNode>::empty());
                assert(wf_children(one));
            },
        }
        lemma_wf_children_add(one, sp_strip_mut_children(s.drop_first()));
    }
}

fn clone_string(s: &String) -> (r: String)
    ensures
        r@ == s@,
{
    s.clone()
}

fn clone_attrs(v: &Vec<(String, String)>) -> (r: Vec<(String, String)>)
    ensures
        r@.len() == v@.len(),
        forall|i: int| 0 <= i < v@.len() ==> r@[i].0@ == v@[i].0@ && r@[i].1@ == v@[i].1@,
{
    let mut out: Vec<(String, String)> = Vec::new();
    let n = v.len();
    let mut i: usize = 0;
    loop
        invariant
            i <= n,
            n == v@.len(),
            out@.len() == i,
            forall|j: int| 0 <= j < i ==> out@[j].0@ == v@[j].0@ && out@[j].1@ == v@[j].1@,
        ensures
            i == n,
            out@.len() == n,
            forall|j: int| 0 <= j < n ==> out@[j].0@ == v@[j].0@ && out@[j].1@ == v@[j].1@,
        decreases n - i,
    {
        if i >= n {
            break ;
        }
        let key = clone_string(&v[i].0);
        let val = clone_string(&v[i].1);
        out.push((key, val));
        i += 1;
    }
    out
}

proof fn lemma_attrs_view_eq(a: Seq<(String, String)>, b: Seq<(String, String)>)
    requires
        a.len() == b.len(),
        forall|i: int| 0 <= i < a.len() ==> a[i].0@ == b[i].0@ && a[i].1@ == b[i].1@,
    ensures
        crate::tree::attrs_view(a) == crate::tree::attrs_view(b),
{
    assert(crate::tree::attrs_view(a) =~= crate::tree::attrs_view(b));
}

fn strip_mut_elem(e: &Element) -> (r: Element)
    ensures
        elem_view(r) == sp_strip_mut_elem(elem_view(*e)),
    decreases *e,
{
    let n = e.children.len();
    let mut out: Vec<Node> = Vec::new();
    let mut i: usize = 0;
    loop
        invariant
            i <= n,
            n == e.children@.len(),
            children_view(out@) == sp_strip_mut_children(
                children_view(e.children@.subrange(0, i as int)),
            ),
        ensures
            i == n,
            children_view(out@) == sp_strip_mut_children(
                children_view(e.children@.subrange(0, i as int)),
            ),
        decreases n - i,
    {
        if i >= n {
            break ;
        }
        proof {
            assert(e.children@.subrange(0, i as int).push(e.children@[i as int])
                =~= e.children@.subrange(0, i as int + 1));
            lemma_children_view_push(e.children@.subrange(0, i as int), e.children@[i as int]);
            lemma_strip_mut_children_add(
                children_view(e.children@.subrange(0, i as int)),
                seq![node_view(e.children@[i as int])],
            );
            assert(children_view(e.children@.subrange(0, i as int)).push(
                node_view(e.children@[i as int]),
            ) =~= children_view(e.children@.subrange(0, i as int)) + seq![
                node_view(e.children@[i as int]),
            ]);
            assert(seq![node_view(e.children@[i as int])].first() == node_view(
                e.children@[i as int],
            ));
            assert(seq![node_view(e.children@[i as int])].drop_first()
                =~= Seq::<SpecNode>::empty());
            assert(sp_strip_mut_children(Seq::<SpecNode>::empty()) =~= Seq::<SpecNode>::empty());
            assert(sp_strip_mut_children(seq![node_view(e.children@[i as int])])
                =~= sp_strip_mut_one(node_view(e.children@[i as int])));
        }
        match &e.children[i] {
            Node::CharData(d) => {
                let t = trim_str(d.as_str());
                if t.unicode_len() > 0 {
                    let kept = Node::CharData(clone_string(d));
                    proof {
                        lemma_children_view_push(out@, kept);
                        assert(children_view(out@).push(node_view(kept)) =~= children_view(out@)
                            + sp_strip_mut_one(node_view(e.children@[i as int])));
                    }
                    out.push(kept);
                } else {
                    proof {
                        assert(children_view(out@) =~= children_view(out@) + sp_strip_mut_one(
                            node_view(e.children@[i as int]),
                        ));
                    }
                }
            },
            Node::Element(c) => {
                proof {
                    assert(decreases_to!(*e => e.children));
                    assert(decreases_to!(e.children => e.children@));
                    assert(decreases_to!(e.children@ => e.children@[i as int]));
                }
                let stripped = strip_mut_elem(c);
                let kept = Node::Element(stripped);
                proof {
                    lemma_children_view_push(out@, kept);
                    assert(children_view(out@).push(node_view(kept)) =~= children_view(out@)
                        + sp_strip_mut_one(node_view(e.children@[i as int])));
                }
                out.push(kept);
            },
        }
        i += 1;
    }
    proof {
        assert(e.children@.subrange(0, n as int) =~= e.children@);
    }
    let name = clone_string(&e.name);
    let attributes = clone_attrs(&e.attributes);
    let r = Element { name, attributes, children: out };
    proof {
        lemma_attrs_view_eq(r.attributes@, e.attributes@);
    }
    r
}

impl Element {
    /// In-place whitespace strip: removes any direct text child whose
    /// trimmed content is empty, descends into the remaining element
    /// children, and leaves retained text untrimmed.
    pub fn strip_whitespace(&mut self)
        ensures
            elem_view(*final(self)) == sp_strip_mut_elem(elem_view(*old(self))),
    {
        let stripped = strip_mut_elem(self);
        *self = stripped;
    }
}

fn strip_pure_ref(n: &Node) -> (r: Node)
    ensures
        node_view(r) == sp_strip_pure_node(node_view(*n)),
    decreases *n,
{
    match n {
        Node::CharData(d) => Node::CharData(trim_str(d.as_str())),
        Node::Element(e) => {
            let cn = e.children.len();
            let mut out: Vec<Node> = Vec::new();
            let mut i: usize = 0;
            loop
                invariant
                    i <= cn,
                    cn == e.children@.len(),
                    *n is Element && n->Element_0 == *e,
                    children_view(out@) == sp_strip_pure_children(
                        children_view(e.children@.subrange(0, i as int)),
                    ),
                ensures
                    i == cn,
                    children_view(out@) == sp_strip_pure_children(
                        children_view(e.children@.subrange(0, i as int)),
                    ),
                decreases cn - i,
            {
                if i >= cn {
                    break ;
                }
                proof {
                    assert(e.children@.subrange(0, i as int).push(e.children@[i as int])
                        =~= e.children@.subrange(0, i as int + 1));
                    lemma_children_view_push(
                        e.children@.subrange(0, i as int),
                        e.children@[i as int],
                    );
                    lemma_strip_pure_children_add(
                        children_view(e.children@.subrange(0, i as int)),
                        seq![node_view(e.children@[i as int])],
                    );
                    assert(children_view(e.children@.subrange(0, i as int)).push(
                        node_view(e.children@[i as int]),
                    ) =~= children_view(e.children@.subrange(0, i as int)) + seq![
                        node_view(e.children@[i as int]),
                    ]);
                    assert(seq![node_view(e.children@[i as int])].first() == node_view(
                        e.children@[i as int],
                    ));
                    assert(seq![node_view(e.children@[i as int])].drop_first()
                        =~= Seq::<SpecNode>::empty());
                    assert(sp_strip_pure_children(Seq::<SpecNode>::empty())
                        =~= Seq::<SpecNode>::empty());
                    assert(sp_strip_pure_children(seq![node_view(e.children@[i as int])])
                        =~= sp_strip_pure_one(node_view(e.children@[i as int])));
                    assert(decreases_to!(*n => *e));
                    assert(decreases_to!(*e => e.children));
                    assert(decreases_to!(e.children => e.children@));
                    assert(decreases_to!(e.children@ => e.children@[i as int]));
                }
                let child = &e.children[i];
                let stripped = strip_pure_ref(child);
                let mut keep = true;
                if let Node::CharData(d) = &stripped {
                    if d.unicode_len() == 0 {
                        keep = false;
                    }
                }
                if keep {
                    proof {
                        lemma_children_view_push(out@, stripped);
                        assert(children_view(out@).push(node_view(stripped)) =~= children_view(
                            out@,
                        ) + sp_strip_pure_one(node_view(e.children@[i as int])));
                    }
                    out.push(stripped);
                } else {
                    proof {
                        assert(children_view(out@) =~= children_view(out@) + sp_strip_pure_one(
                            node_view(e.children@[i as int]),
                        ));
                    }
                }
                i += 1;
            }
            proof {
                assert(e.children@.subrange(0, cn as int) =~= e.children@);
            }
            let name = clone_string(&e.name);
            let attributes = clone_attrs(&e.attributes);
            let r = Element { name, attributes, children: out };
            proof {
                lemma_attrs_view_eq(r.attributes@, e.attributes@);
            }
            Node::Element(r)
        },
    }
}

/// Pure whitespace strip: rebuilds the tree, trims every retained text
/// value, and drops a child that becomes empty after trimming.
pub fn strip_whitespace(node: Node) -> (r: Node)
    ensures
        node_view(r) == sp_strip_pure_node(node_view(node)),
{
    strip_pure_ref(&node)
}

} // verus!

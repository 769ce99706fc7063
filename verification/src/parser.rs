//! The executable recursive-descent parser, verified against the grammar.
//!
//! Every function here consumes from a character position and is proved
//! to return exactly what the corresponding grammar function says, both
//! on success and on failure.

use vstd::prelude::*;

use crate::chars::is_digit;
use crate::chars::lemma_digits_value_prefix;
use crate::chars::lemma_scan_digits_all_digits;
use crate::chars::scan_digits_end_str;
use crate::chars::scan_name_end_str;
use crate::chars::scan_text_end_str;
use crate::chars::scan_to_char_str;
use crate::chars::skip_ws_str;
use crate::chars::substr_string;
use crate::chars::tag_at;
use crate::chars::to_lower;
use crate::chars::find_from;
use crate::grammar::ParseError;
use crate::grammar::cfg_contains;
use crate::grammar::sp_attr_value;
use crate::grammar::sp_attribute;
use crate::grammar::sp_attrs;
use crate::grammar::sp_char_data;
use crate::grammar::sp_document;
use crate::grammar::sp_element;
use crate::grammar::sp_encoding;
use crate::grammar::sp_eq;
use crate::grammar::sp_node;
use crate::grammar::sp_nodes;
use crate::grammar::sp_text;
use crate::grammar::sp_version;
use crate::strip::sp_strip_mut_elem;
use crate::tree::Document;
use crate::tree::Element;
use crate::tree::Node;
use crate::tree::SpecDocument;
use crate::tree::SpecElement;
use crate::tree::SpecNode;
use crate::tree::attrs_view;
use crate::tree::children_view;
use crate::tree::elem_view;
use crate::tree::lemma_children_view_push;
use crate::tree::node_view;
use crate::tree::unique_keys;

verus! {

/// One parsing session: the only configuration is the set of tag names
/// permitted to self-close without a slash. It is read-only during a
/// parse.
#[derive(Debug)]
pub struct Parser {
    pub allow_no_close: Vec<String>,
}

impl Default for Parser {
    fn default() -> (r: Parser)
        ensures
            r.allow_no_close@.len() == 0,
    {
        Parser { allow_no_close: Vec::new() }
    }
}

impl Parser {
    /// The configured set, as the grammar sees it.
    pub open spec fn cfg(&self) -> Seq<Seq<char>> {
        self.allow_no_close@.map_values(|t: String| t@)
    }

    fn allows_no_close(&self, name: &String) -> (r: bool)
        ensures
            r == cfg_contains(self.cfg(), name@),
    {
        let n = self.allow_no_close.len();
        let mut i: usize = 0;
        loop
            invariant
                i <= n,
                n == self.allow_no_close@.len(),
                forall|j: int| 0 <= j < i ==> self.cfg()[j] != name@,
            ensures
                i == n,
                forall|j: int| 0 <= j < n ==> self.cfg()[j] != name@,
            decreases n - i,
        {
            if i >= n {
                break ;
            }
            let cand = &self.allow_no_close[i];
            if cand.eq(name) {
                proof {
                    assert(self.cfg()[i as int] == name@);
                }
                return true;
            }
            i += 1;
        }
        proof {
            assert(self.cfg().len() == n);
        }
        false
    }
}

/// Whether two attributes of one start tag share a key.
fn has_dup_keys(attrs: &Vec<(String, String)>) -> (r: bool)
    ensures
        r == !unique_keys(attrs_view(attrs@)),
{
    let n = attrs.len();
    let mut i: usize = 0;
    loop
        invariant
            i <= n,
            n == attrs@.len(),
            forall|a: int, b: int|
                0 <= a < b < n && a < i ==> attrs_view(attrs@)[a].0 != attrs_view(attrs@)[b].0,
        ensures
            i == n,
            forall|a: int, b: int|
                0 <= a < b < n ==> attrs_view(attrs@)[a].0 != attrs_view(attrs@)[b].0,
        decreases n - i,
    {
        if i >= n {
            break ;
        }
        let mut j = i + 1;
        loop
            invariant
                i < n,
                i + 1 <= j <= n,
                n == attrs@.len(),
                forall|b: int| i < b < j ==> attrs_view(attrs@)[i as int].0 != attrs_view(
                    attrs@,
                )[b].0,
            ensures
                j == n,
                forall|b: int| i < b < n ==> attrs_view(attrs@)[i as int].0 != attrs_view(
                    attrs@,
                )[b].0,
            decreases n - j,
        {
            if j >= n {
                break ;
            }
            let ki = &attrs[i].0;
            let kj = &attrs[j].0;
            if ki.eq(kj) {
                proof {
                    assert(attrs_view(attrs@)[i as int].0 == attrs_view(attrs@)[j as int].0);
                }
                return true;
            }
            j += 1;
        }
        i += 1;
    }
    false
}

/// A quoted value at `pos`.
fn attr_value_at(s: &str, pos: usize) -> (r: Result<(usize, String), ParseError>)
    requires
        pos as int <= s@.len(),
    ensures
        ({
            let m = sp_attr_value(s@, pos as int);
            match r {
                Ok((p, v)) => pos < p && p as int <= s@.len() && m == Ok::<
                    (int, Seq<char>),
                    ParseError,
                >((p as int, v@)),
                Err(e) => m == Err::<(int, Seq<char>), ParseError>(e),
            }
        }),
{
    let n = s.unicode_len();
    if pos >= n {
        return Err(ParseError::Soft);
    }
    let q = s.get_char(pos);
    if !(q == '"' || q == '\'') {
        return Err(ParseError::Soft);
    }
    let end = scan_to_char_str(s, pos + 1, q);
    if end < n && s.get_char(end) == q {
        Ok((end + 1, substr_string(s, pos + 1, end)))
    } else {
        Err(ParseError::Soft)
    }
}

/// Optional whitespace, `=`, optional whitespace, at `pos`.
fn eq_at(s: &str, pos: usize) -> (r: Result<usize, ParseError>)
    requires
        pos as int <= s@.len(),
    ensures
        ({
            let m = sp_eq(s@, pos as int);
            match r {
                Ok(p) => pos <= p && p as int <= s@.len() && m == Ok::<int, ParseError>(p as int),
                Err(e) => m == Err::<int, ParseError>(e),
            }
        }),
{
    let n = s.unicode_len();
    let p1 = skip_ws_str(s, pos);
    if p1 < n && s.get_char(p1) == '=' {
        Ok(skip_ws_str(s, p1 + 1))
    } else {
        Err(ParseError::Soft)
    }
}

/// One attribute at `pos`.
fn attribute_at(s: &str, pos: usize) -> (r: Result<(usize, (String, String)), ParseError>)
    requires
        pos as int <= s@.len(),
    ensures
        ({
            let m = sp_attribute(s@, pos as int);
            match r {
                Ok((p, kv)) => pos < p && p as int <= s@.len() && m == Ok::<
                    (int, (Seq<char>, Seq<char>)),
                    ParseError,
                >((p as int, (kv.0@, kv.1@))),
                Err(e) => m == Err::<(int, (Seq<char>, Seq<char>)), ParseError>(e),
            }
        }),
{
    let p1 = skip_ws_str(s, pos);
    let ne = scan_name_end_str(s, p1);
    if ne == p1 {
        return Err(ParseError::Soft);
    }
    let key = to_lower(s.substring_char(p1, ne));
    match eq_at(s, ne) {
        Err(e) => Err(e),
        Ok(p2) => match attr_value_at(s, p2) {
            Err(e) => Err(e),
            Ok((p3, val)) => Ok((skip_ws_str(s, p3), (key, val))),
        },
    }
}

/// Zero or more attributes starting at `pos`.
fn attrs_at(s: &str, pos: usize) -> (r: Result<(usize, Vec<(String, String)>), ParseError>)
    requires
        pos as int <= s@.len(),
    ensures
        ({
            let m = sp_attrs(s@, pos as int);
            match r {
                Ok((p, v)) => pos <= p && p as int <= s@.len() && m == Ok::<
                    (int, Seq<(Seq<char>, Seq<char>)>),
                    ParseError,
                >((p as int, attrs_view(v@))),
                Err(e) => m == Err::<(int, Seq<(Seq<char>, Seq<char>)>), ParseError>(e),
            }
        }),
{
    let n = s.unicode_len();
    let mut cur = pos;
    let mut acc: Vec<(String, String)> = Vec::new();
    loop
        invariant
            pos <= cur <= n,
            n as nat == s@.len(),
            ({
                let m0 = sp_attrs(s@, pos as int);
                match sp_attrs(s@, cur as int) {
                    Ok(t) => m0 == Ok::<(int, Seq<(Seq<char>, Seq<char>)>), ParseError>(
                        (t.0, attrs_view(acc@) + t.1),
                    ),
                    Err(e) => m0 == Err::<(int, Seq<(Seq<char>, Seq<char>)>), ParseError>(e),
                }
            }),
        decreases n - cur,
    {
        match attribute_at(s, cur) {
            Err(ParseError::Fatal) => {
                return Err(ParseError::Fatal);
            },
            Err(ParseError::Soft) => {
                proof {
                    assert(attrs_view(acc@) + Seq::<(Seq<char>, Seq<char>)>::empty() =~= attrs_view(
                        acc@,
                    ));
                }
                return Ok((cur, acc));
            },
            Ok((p, kv)) => {
                proof {
                    let kvv = (kv.0@, kv.1@);
                    assert(attrs_view(acc@.push(kv)) =~= attrs_view(acc@).push(kvv));
                    match sp_attrs(s@, p as int) {
                        Ok(t) => {
                            assert(attrs_view(acc@) + (seq![kvv] + t.1) =~= attrs_view(
                                acc@,
                            ).push(kvv) + t.1);
                        },
                        Err(_) => {},
                    }
                }
                acc.push(kv);
                cur = p;
            },
        }
    }
}

/// A plain text run at `pos`: always succeeds, possibly empty.
fn text_at(s: &str, pos: usize) -> (r: (usize, String))
    requires
        pos as int <= s@.len(),
    ensures
        sp_text(s@, pos as int) == (r.0 as int, r.1@),
        pos <= r.0,
        r.0 as int <= s@.len(),
{
    let end = scan_text_end_str(s, pos);
    (end, substr_string(s, pos, end))
}

/// Character data at `pos`: a CDATA section, or a plain text run.
fn char_data_at(s: &str, pos: usize) -> (r: (usize, String))
    requires
        pos as int <= s@.len(),
    ensures
        sp_char_data(s@, pos as int) == (r.0 as int, r.1@),
        pos <= r.0,
        r.0 as int <= s@.len(),
{
    let n = s.unicode_len();
    let cd = "<![CDATA[";
    if tag_at(s, pos, cd) {
        let cdl = cd.unicode_len();
        match find_from(s, pos + cdl, "]]>") {
            Some(j) => {
                let el = "]]>".unicode_len();
                (j + el, substr_string(s, pos + cdl, j))
            },
            None => text_at(s, pos),
        }
    } else {
        text_at(s, pos)
    }
}

/// The quoted version literal at `pos`.
fn version_at(s: &str, pos: usize) -> (r: Result<(usize, i32), ParseError>)
    requires
        pos as int <= s@.len(),
    ensures
        ({
            let m = sp_version(s@, pos as int);
            match r {
                Ok((p, v)) => pos < p && p as int <= s@.len() && m == Ok::<
                    (int, int),
                    ParseError,
                >((p as int, v as int)),
                Err(e) => m == Err::<(int, int), ParseError>(e),
            }
        }),
{
    let n = s.unicode_len();
    if pos >= n {
        return Err(ParseError::Soft);
    }
    let q = s.get_char(pos);
    if !(q == '"' || q == '\'') {
        return Err(ParseError::Soft);
    }
    let one = "1.";
    if !tag_at(s, pos + 1, one) {
        return Err(ParseError::Soft);
    }
    let ol = one.unicode_len();
    let dstart = pos + 1 + ol;
    let dend = scan_digits_end_str(s, dstart);
    if dend == dstart {
        proof {
            assert(s@.subrange(dstart as int, dend as int).len() == 0);
        }
        return Err(ParseError::Soft);
    }
    proof {
        lemma_scan_digits_all_digits(s@, dstart as int);
        assert(forall|i: int|
            0 <= i < s@.subrange(dstart as int, dend as int).len() ==> is_digit(
                #[trigger] s@.subrange(dstart as int, dend as int)[i],
            ));
    }
    let ghost digits = s@.subrange(dstart as int, dend as int);
    let mut acc: u64 = 0;
    let mut k = dstart;
    loop
        invariant
            dstart <= k <= dend,
            dend as nat <= s@.len(),
            n as nat == s@.len(),
            pos < n,
            s@[pos as int] == q,
            q == '"' || q == '\'',
            crate::chars::is_at(s@, pos as int + 1, "1."@),
            dstart as int == pos as int + 1 + "1."@.len(),
            dend != dstart,
            dend as int == crate::chars::scan_digits_end(s@, dstart as int),
            digits == s@.subrange(dstart as int, dend as int),
            forall|i: int| 0 <= i < digits.len() ==> is_digit(#[trigger] digits[i]),
            forall|i: int| dstart <= i < dend ==> is_digit(#[trigger] s@[i]),
            acc as int == crate::chars::digits_value(s@.subrange(dstart as int, k as int)),
            acc <= i32::MAX as u64,
        ensures
            k == dend,
            acc as int == crate::chars::digits_value(digits),
            acc <= i32::MAX as u64,
        decreases dend - k,
    {
        if k >= dend {
            break ;
        }
        let c = s.get_char(k);
        proof {
            assert(is_digit(s@[k as int]));
            assert(s@.subrange(dstart as int, k as int + 1).drop_last() =~= s@.subrange(
                dstart as int,
                k as int,
            ));
            assert(s@.subrange(dstart as int, k as int + 1).last() == s@[k as int]);
        }
        let d: u64 = (c as u32 - 48) as u64;
        let next: u64 = acc * 10 + d;
        if next > i32::MAX as u64 {
            proof {
                assert(s@.subrange(dstart as int, k as int + 1) =~= digits.subrange(
                    0,
                    k as int + 1 - dstart,
                ));
                lemma_digits_value_prefix(digits, k as int + 1 - dstart);
                assert(crate::chars::digits_value(digits) > i32::MAX as int);
            }
            return Err(ParseError::Soft);
        }
        acc = next;
        k += 1;
    }
    if dend < n && s.get_char(dend) == q {
        Ok((dend + 1, acc as i32))
    } else {
        Err(ParseError::Soft)
    }
}

/// The optional `encoding="..."` attribute at `pos`.
fn encoding_at(s: &str, pos: usize) -> (r: Result<(usize, Option<String>), ParseError>)
    requires
        pos as int <= s@.len(),
    ensures
        ({
            let m = sp_encoding(s@, pos as int);
            match r {
                Ok((p, ov)) => pos <= p && p as int <= s@.len() && (match ov {
                    Some(v) => m == Ok::<(int, Option<Seq<char>>), ParseError>(
                        (p as int, Some(v@)),
                    ),
                    None => m == Ok::<(int, Option<Seq<char>>), ParseError>(
                        (p as int, None::<Seq<char>>),
                    ),
                }),
                Err(e) => m == Err::<(int, Option<Seq<char>>), ParseError>(e),
            }
        }),
{
    let n = s.unicode_len();
    let enc = "encoding";
    if tag_at(s, pos, enc) {
        let el = enc.unicode_len();
        match eq_at(s, pos + el) {
            Err(e) => Err(e),
            Ok(p1) => match attr_value_at(s, p1) {
                Err(e) => Err(e),
                Ok((p2, v)) => Ok((p2, Some(v))),
            },
        }
    } else {
        Ok((pos, None))
    }
}

/// Duplicate-key check, trailing whitespace skip, and assembly of the
/// finished element.
fn finish_element(s: &str, p8: usize, name: String, attrs: Vec<(String, String)>, children: Vec<
    Node,
>) -> (r: Result<(usize, Element), ParseError>)
    requires
        p8 as int <= s@.len(),
    ensures
        ({
            match r {
                Ok((p, e)) => p8 <= p && p as int <= s@.len() && unique_keys(attrs_view(attrs@))
                    && p as int == crate::chars::skip_ws(s@, p8 as int) && elem_view(e)
                    == (SpecElement {
                    name: name@,
                    attrs: attrs_view(attrs@),
                    children: children_view(children@),
                }),
                Err(er) => er == ParseError::Fatal && !unique_keys(attrs_view(attrs@)),
            }
        }),
{
    if has_dup_keys(&attrs) {
        return Err(ParseError::Fatal);
    }
    let p9 = skip_ws_str(s, p8);
    Ok((p9, Element { name, attributes: attrs, children }))
}

impl Parser {
    /// An element starting at `pos`.
    fn element_at(&self, s: &str, pos: usize) -> (r: Result<(usize, Element), ParseError>)
        requires
            pos as int <= s@.len(),
        ensures
            ({
                let m = sp_element(s@, pos as int, self.cfg());
                match r {
                    Ok((p, e)) => pos < p && p as int <= s@.len() && m == Ok::<
                        (int, SpecElement),
                        ParseError,
                    >((p as int, elem_view(e))),
                    Err(er) => m == Err::<(int, SpecElement), ParseError>(er),
                }
            }),
        decreases s@.len() - pos as int, 0int,
    {
        let n = s.unicode_len();
        if pos >= n {
            return Err(ParseError::Soft);
        }
        if s.get_char(pos) != '<' {
            return Err(ParseError::Soft);
        }
        let p1 = pos + 1;
        let ne = scan_name_end_str(s, p1);
        if ne == p1 {
            return Err(ParseError::Soft);
        }
        let doctype = "!DOCTYPE";
        let dl = doctype.unicode_len();
        let is_doc = if ne - p1 == dl {
            tag_at(s, p1, doctype)
        } else {
            false
        };
        proof {
            let raw = s@.subrange(p1 as int, ne as int);
            if is_doc {
                assert(raw =~= doctype@);
            } else if raw == doctype@ {
                assert(raw.len() == doctype@.len());
                assert(s@.subrange(p1 as int, p1 as int + doctype@.len()) == doctype@);
                assert(false);
            }
        }
        if is_doc {
            match find_from(s, ne, ">") {
                None => {
                    return Err(ParseError::Fatal);
                },
                Some(j) => {
                    proof {
                        reveal_strlit(">");
                    }
                    let el = Element {
                        name: String::from_str("doctype_decl"),
                        attributes: Vec::new(),
                        children: Vec::new(),
                    };
                    proof {
                        assert(children_view(el.children@) =~= Seq::<SpecNode>::empty());
                        assert(attrs_view(el.attributes@) =~= Seq::<(Seq<char>, Seq<char>)>::empty());
                    }
                    return Ok((j + 1, el));
                },
            }
        }
        let name = to_lower(s.substring_char(p1, ne));
        let p2 = skip_ws_str(s, ne);
        match attrs_at(s, p2) {
            Err(e) => Err(e),
            Ok((p3, attrs)) => {
                if self.allows_no_close(&name) && p3 < n && s.get_char(p3) == '>' {
                    let r = finish_element(s, p3 + 1, name, attrs, Vec::new());
                    proof {
                        assert(children_view(Seq::<Node>::empty()) =~= Seq::<SpecNode>::empty());
                    }
                    r
                } else if tag_at(s, p3, "/>") {
                    let sll = "/>".unicode_len();
                    let r = finish_element(s, p3 + sll, name, attrs, Vec::new());
                    proof {
                        assert(children_view(Seq::<Node>::empty()) =~= Seq::<SpecNode>::empty());
                    }
                    r
                } else if p3 < n && s.get_char(p3) == '>' {
                    let p4 = skip_ws_str(s, p3 + 1);
                    match self.nodes_at(s, p4) {
                        Err(e) => Err(e),
                        Ok((p5, children)) => {
                            let p6 = skip_ws_str(s, p5);
                            let ce = scan_name_end_str(s, p6);
                            if ce == p6 {
                                Err(ParseError::Soft)
                            } else {
                                let close_name = to_lower(s.substring_char(p6, ce));
                                if close_name.eq(&name) {
                                    let p7 = skip_ws_str(s, ce);
                                    if p7 < n && s.get_char(p7) == '>' {
                                        finish_element(s, p7 + 1, name, attrs, children)
                                    } else {
                                        Err(ParseError::Soft)
                                    }
                                } else {
                                    Err(ParseError::Fatal)
                                }
                            }
                        },
                    }
                } else {
                    Err(ParseError::Soft)
                }
            },
        }
    }

    /// One node starting at `pos`: an element, or character data.
    fn node_at(&self, s: &str, pos: usize) -> (r: Result<(usize, Node), ParseError>)
        requires
            pos as int <= s@.len(),
        ensures
            ({
                let m = sp_node(s@, pos as int, self.cfg());
                match r {
                    Ok((p, nd)) => pos <= p && p as int <= s@.len() && m == Ok::<
                        (int, SpecNode),
                        ParseError,
                    >((p as int, node_view(nd))),
                    Err(er) => m == Err::<(int, SpecNode), ParseError>(er),
                }
            }),
        decreases s@.len() - pos as int, 1int,
    {
        match self.element_at(s, pos) {
            Ok((p, e)) => Ok((p, Node::Element(e))),
            Err(ParseError::Fatal) => Err(ParseError::Fatal),
            Err(ParseError::Soft) => {
                let (p, d) = char_data_at(s, pos);
                Ok((p, Node::CharData(d)))
            },
        }
    }

    /// Zero or more nodes, terminated by a consumed `</`.
    fn nodes_at(&self, s: &str, pos: usize) -> (r: Result<(usize, Vec<Node>), ParseError>)
        requires
            pos as int <= s@.len(),
        ensures
            ({
                let m = sp_nodes(s@, pos as int, self.cfg());
                match r {
                    Ok((p, v)) => pos <= p && p as int <= s@.len() && m == Ok::<
                        (int, Seq<SpecNode>),
                        ParseError,
                    >((p as int, children_view(v@))),
                    Err(er) => m == Err::<(int, Seq<SpecNode>), ParseError>(er),
                }
            }),
        decreases s@.len() - pos as int, 2int,
    {
        let n = s.unicode_len();
        let mut cur = pos;
        let mut acc: Vec<Node> = Vec::new();
        loop
            invariant
                pos <= cur <= n,
                n as nat == s@.len(),
                ({
                    let m0 = sp_nodes(s@, pos as int, self.cfg());
                    match sp_nodes(s@, cur as int, self.cfg()) {
                        Ok(t) => m0 == Ok::<(int, Seq<SpecNode>), ParseError>(
                            (t.0, children_view(acc@) + t.1),
                        ),
                        Err(e) => m0 == Err::<(int, Seq<SpecNode>), ParseError>(e),
                    }
                }),
            decreases n - cur,
        {
            if tag_at(s, cur, "</") {
                let tl = "</".unicode_len();
                proof {
                    assert(children_view(acc@) + Seq::<SpecNode>::empty() =~= children_view(acc@));
                }
                return Ok((cur + tl, acc));
            }
            match self.node_at(s, cur) {
                Err(e) => {
                    return Err(e);
                },
                Ok((p, nd)) => {
                    if p <= cur {
                        return Err(ParseError::Soft);
                    }
                    proof {
                        lemma_children_view_push(acc@, nd);
                        match sp_nodes(s@, p as int, self.cfg()) {
                            Ok(t) => {
                                assert(children_view(acc@) + (seq![node_view(nd)] + t.1)
                                    =~= children_view(acc@).push(node_view(nd)) + t.1);
                            },
                            Err(_) => {},
                        }
                    }
                    acc.push(nd);
                    cur = p;
                },
            }
        }
    }

    /// A document starting at `pos`: prolog, then the root element.
    fn document_at(&self, s: &str, pos: usize) -> (r: Result<(usize, Document), ParseError>)
        requires
            pos as int <= s@.len(),
        ensures
            ({
                let m = sp_document(s@, pos as int, self.cfg());
                match r {
                    Ok((p, d)) => pos <= p && p as int <= s@.len() && m == Ok::<
                        (int, SpecDocument),
                        ParseError,
                    >((p as int, d@)),
                    Err(er) => m == Err::<(int, SpecDocument), ParseError>(er),
                }
            }),
    {
        let n = s.unicode_len();
        let p0 = skip_ws_str(s, pos);
        let xh = "<?xml";
        if !tag_at(s, p0, xh) {
            return Err(ParseError::Soft);
        }
        let p1 = skip_ws_str(s, p0 + xh.unicode_len());
        let vw = "version";
        if !tag_at(s, p1, vw) {
            return Err(ParseError::Soft);
        }
        match eq_at(s, p1 + vw.unicode_len()) {
            Err(e) => Err(e),
            Ok(p2) => match version_at(s, p2) {
                Err(e) => Err(e),
                Ok((p3, ver)) => {
                    let p4 = skip_ws_str(s, p3);
                    match encoding_at(s, p4) {
                        Err(e) => Err(e),
                        Ok((p5, enc)) => {
                            let p6 = skip_ws_str(s, p5);
                            let pe = "?>";
                            if !tag_at(s, p6, pe) {
                                return Err(ParseError::Soft);
                            }
                            let p7 = skip_ws_str(s, p6 + pe.unicode_len());
                            match self.element_at(s, p7) {
                                Err(e) => Err(e),
                                Ok((p8, root)) => {
                                    let p9 = skip_ws_str(s, p8);
                                    Ok((p9, Document { version: ver, encoding: enc, root }))
                                },
                            }
                        },
                    }
                },
            },
        }
    }

    /// Parse an element at the start of `input`; on success also return
    /// the remaining input.
    pub fn element<'a>(&self, input: &'a str) -> (r: Result<(&'a str, Element), ParseError>)
        ensures
            ({
                let m = sp_element(input@, 0, self.cfg());
                match r {
                    Ok((rem, e)) => m matches Ok(t) && 0 <= t.0 <= input@.len() && rem@ == input@
                        .subrange(t.0, input@.len() as int) && elem_view(e) == t.1,
                    Err(er) => m == Err::<(int, SpecElement), ParseError>(er),
                }
            }),
    {
        match self.element_at(input, 0) {
            Err(e) => Err(e),
            Ok((p, el)) => {
                let n = input.unicode_len();
                Ok((input.substring_char(p, n), el))
            },
        }
    }

    /// Parse an element and wrap it as a node.
    pub fn element_into_node<'a>(&self, input: &'a str) -> (r: Result<(&'a str, Node), ParseError>)
        ensures
            ({
                let m = sp_element(input@, 0, self.cfg());
                match r {
                    Ok((rem, nd)) => m matches Ok(t) && 0 <= t.0 <= input@.len() && rem@ == input@
                        .subrange(t.0, input@.len() as int) && node_view(nd) == SpecNode::Elem(t.1),
                    Err(er) => m == Err::<(int, SpecElement), ParseError>(er),
                }
            }),
    {
        match self.element(input) {
            Err(e) => Err(e),
            Ok((rem, el)) => Ok((rem, Node::Element(el))),
        }
    }

    /// Parse one node (element or character data) at the start of
    /// `input`.
    pub fn node<'a>(&self, input: &'a str) -> (r: Result<(&'a str, Node), ParseError>)
        ensures
            ({
                let m = sp_node(input@, 0, self.cfg());
                match r {
                    Ok((rem, nd)) => m matches Ok(t) && 0 <= t.0 <= input@.len() && rem@ == input@
                        .subrange(t.0, input@.len() as int) && node_view(nd) == t.1,
                    Err(er) => m == Err::<(int, SpecNode), ParseError>(er),
                }
            }),
    {
        match self.node_at(input, 0) {
            Err(e) => Err(e),
            Ok((p, nd)) => {
                let n = input.unicode_len();
                Ok((input.substring_char(p, n), nd))
            },
        }
    }

    /// Parse a document at the start of `input`; on success also return
    /// the remaining input.
    pub fn document<'a>(&self, input: &'a str) -> (r: Result<(&'a str, Document), ParseError>)
        ensures
            ({
                let m = sp_document(input@, 0, self.cfg());
                match r {
                    Ok((rem, d)) => m matches Ok(t) && 0 <= t.0 <= input@.len() && rem@ == input@
                        .subrange(t.0, input@.len() as int) && d@ == t.1,
                    Err(er) => m == Err::<(int, SpecDocument), ParseError>(er),
                }
            }),
    {
        match self.document_at(input, 0) {
            Err(e) => Err(e),
            Ok((p, d)) => {
                let n = input.unicode_len();
                Ok((input.substring_char(p, n), d))
            },
        }
    }

    /// Parse an element and require the input to be fully consumed; on
    /// success the tree is normalized by the in-place whitespace strip.
    /// Every failure, and any leftover suffix, collapses to `None`.
    pub fn complete_element(&self, input: &str) -> (r: Option<Element>)
        ensures
            ({
                let m = sp_element(input@, 0, self.cfg());
                match m {
                    Ok(t) => if t.0 == input@.len() {
                        r matches Some(e) && elem_view(e) == sp_strip_mut_elem(t.1)
                    } else {
                        r is None
                    },
                    Err(_) => r is None,
                }
            }),
    {
        match self.element_at(input, 0) {
            Err(_) => None,
            Ok((p, el)) => {
                let n = input.unicode_len();
                if p == n {
                    let mut out = el;
                    out.strip_whitespace();
                    Some(out)
                } else {
                    None
                }
            },
        }
    }

    /// Parse a document and require the input to be fully consumed; on
    /// success the root is normalized by the in-place whitespace strip.
    pub fn complete_document(&self, input: &str) -> (r: Option<Document>)
        ensures
            ({
                let m = sp_document(input@, 0, self.cfg());
                match m {
                    Ok(t) => if t.0 == input@.len() {
                        r matches Some(d) && d@ == (SpecDocument {
                            version: t.1.version,
                            encoding: t.1.encoding,
                            root: sp_strip_mut_elem(t.1.root),
                        })
                    } else {
                        r is None
                    },
                    Err(_) => r is None,
                }
            }),
    {
        match self.document_at(input, 0) {
            Err(_) => None,
            Ok((p, d)) => {
                let n = input.unicode_len();
                if p == n {
                    let mut out = d;
                    out.root.strip_whitespace();
                    Some(out)
                } else {
                    None
                }
            },
        }
    }
}

/// Law: whatever the full-consumption element entry hands back is well
/// formed: every name and attribute key in it is lower-cased, and no
/// start tag carried two attributes with the same key.
pub proof fn lemma_complete_element_wf(s: Seq<char>, cfg: Seq<Seq<char>>)
    ensures
        sp_element(s, 0, cfg) matches Ok(t) ==> crate::tree::wf_elem(sp_strip_mut_elem(t.1)),
{
    crate::grammar::lemma_element_wf(s, 0, cfg);
    match sp_element(s, 0, cfg) {
        Ok(t) => {
            crate::strip::lemma_strip_mut_preserves_wf(t.1);
        },
        Err(_) => {},
    }
}

/// Character data at the start of `input`: a CDATA section captured
/// verbatim, or a plain text run. Always succeeds.
pub fn char_data(input: &str) -> (r: Result<(&str, String), ParseError>)
    ensures
        ({
            let m = sp_char_data(input@, 0);
            r matches Ok(t) && 0 <= m.0 <= input@.len() && t.0@ == input@.subrange(
                m.0,
                input@.len() as int,
            ) && t.1@ == m.1
        }),
{
    let (p, d) = char_data_at(input, 0);
    let n = input.unicode_len();
    Ok((input.substring_char(p, n), d))
}

/// Character data at the start of `input`, wrapped as a node.
pub fn char_data_into_node(input: &str) -> (r: Result<(&str, Node), ParseError>)
    ensures
        ({
            let m = sp_char_data(input@, 0);
            r matches Ok(t) && 0 <= m.0 <= input@.len() && t.0@ == input@.subrange(
                m.0,
                input@.len() as int,
            ) && node_view(t.1) == SpecNode::Text(m.1)
        }),
{
    let (p, d) = char_data_at(input, 0);
    let n = input.unicode_len();
    Ok((input.substring_char(p, n), Node::CharData(d)))
}

} // verus!

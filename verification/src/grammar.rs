//! The grammar, as mathematical functions over the input's view.
//!
//! Each function consumes from a character position and returns the new
//! position together with the parsed value, or a failure. A `Soft`
//! failure means the alternative did not match and a sibling alternative
//! in an ordered choice may still be tried; a `Fatal` failure means a
//! committed production turned out inconsistent (mismatched end-tag name,
//! duplicate attribute key, unterminated doctype declaration) and aborts
//! the whole parse.
//!
//! The executable parser is specified and verified against these
//! functions, result for result.

use vstd::prelude::*;

use crate::chars::digits_value;
use crate::chars::find_at;
use crate::chars::is_at;
use crate::chars::is_name_char;
use crate::chars::is_ws;
use crate::chars::lower;
use crate::chars::scan_digits_end;
use crate::chars::scan_name_end;
use crate::chars::scan_text_end;
use crate::chars::scan_to_char;
use crate::chars::skip_ws;
use crate::tree::SpecDocument;
use crate::tree::SpecElement;
use crate::tree::SpecNode;
use crate::tree::unique_keys;
use crate::tree::wf_children;
use crate::tree::wf_elem;
use crate::tree::wf_node;

verus! {

/// How a parse operation failed.
#[derive(Debug, Clone, Copy, PartialEq, Eq, Structural)]
pub enum ParseError {
    /// The current alternative did not match; an ordered choice may try
    /// the next one.
    Soft,
    /// A committed production turned out inconsistent; the whole parse
    /// aborts without further backtracking.
    Fatal,
}

/// Whether `name` is one of the tag names permitted to self-close
/// without a slash.
pub open spec fn cfg_contains(cfg: Seq<Seq<char>>, name: Seq<char>) -> bool {
    exists|i: int| 0 <= i < cfg.len() && cfg[i] == name
}

/// A quoted value: a quote character, every character up to the matching
/// quote, then the quote. No escape processing.
pub open spec fn sp_attr_value(s: Seq<char>, pos: int) -> Result<(int, Seq<char>), ParseError> {
    if 0 <= pos && pos < s.len() && (s[pos] == '"' || s[pos] == '\'') {
        let q = s[pos];
        let end = scan_to_char(s, pos + 1, q);
        if end < s.len() && s[end] == q {
            Ok((end + 1, s.subrange(pos + 1, end)))
        } else {
            Err(ParseError::Soft)
        }
    } else {
        Err(ParseError::Soft)
    }
}

/// Optional whitespace, `=`, optional whitespace.
pub open spec fn sp_eq(s: Seq<char>, pos: int) -> Result<int, ParseError> {
    let p1 = skip_ws(s, pos);
    if p1 < s.len() && s[p1] == '=' {
        Ok(skip_ws(s, p1 + 1))
    } else {
        Err(ParseError::Soft)
    }
}

/// One attribute: whitespace, a name (lower-cased as the key), `=`, a
/// quoted value, trailing whitespace.
pub open spec fn sp_attribute(s: Seq<char>, pos: int) -> Result<
    (int, (Seq<char>, Seq<char>)),
    ParseError,
> {
    let p1 = skip_ws(s, pos);
    let ne = scan_name_end(s, p1);
    if ne == p1 {
        Err(ParseError::Soft)
    } else {
        let key = lower(s.subrange(p1, ne));
        match sp_eq(s, ne) {
            Err(e) => Err(e),
            Ok(p2) => match sp_attr_value(s, p2) {
                Err(e) => Err(e),
                Ok((p3, val)) => Ok((skip_ws(s, p3), (key, val))),
            },
        }
    }
}

/// Zero or more attributes. A successful attribute always consumes
/// input; one that would not ends the repetition with a failure.
pub open spec fn sp_attrs(s: Seq<char>, pos: int) -> Result<
    (int, Seq<(Seq<char>, Seq<char>)>),
    ParseError,
>
    decreases s.len() - pos,
{
    match sp_attribute(s, pos) {
        Err(ParseError::Fatal) => Err(ParseError::Fatal),
        Err(ParseError::Soft) => Ok((pos, Seq::empty())),
        Ok((p, kv)) => if pos < p && p <= s.len() {
            match sp_attrs(s, p) {
                Err(e) => Err(e),
                Ok((q, rest)) => Ok((q, seq![kv] + rest)),
            }
        } else {
            Err(ParseError::Soft)
        },
    }
}

/// A plain run of characters that are neither `<` nor `>`. Always
/// succeeds, possibly with an empty run.
pub open spec fn sp_text(s: Seq<char>, pos: int) -> (int, Seq<char>) {
    let end = scan_text_end(s, pos);
    (end, s.subrange(pos, end))
}

/// Character data: a CDATA section captured verbatim up to its
/// terminating marker, or else a plain text run.
pub open spec fn sp_char_data(s: Seq<char>, pos: int) -> (int, Seq<char>) {
    if is_at(s, pos, "<![CDATA["@) {
        let dstart = pos + "<![CDATA["@.len();
        match find_at(s, dstart, "]]>"@) {
            Some(j) => (j + "]]>"@.len(), s.subrange(dstart, j)),
            None => sp_text(s, pos),
        }
    } else {
        sp_text(s, pos)
    }
}

/// The integer version: the literal `1.` then a digit run, read as the
/// reported version, all between matching quotes. An empty digit run, or
/// one whose value does not fit the version's integer type, is a
/// recoverable failure.
pub open spec fn sp_version(s: Seq<char>, pos: int) -> Result<(int, int), ParseError> {
    if 0 <= pos && pos < s.len() && (s[pos] == '"' || s[pos] == '\'') {
        let q = s[pos];
        if is_at(s, pos + 1, "1."@) {
            let dstart = pos + 1 + "1."@.len();
            let dend = scan_digits_end(s, dstart);
            let digits = s.subrange(dstart, dend);
            if digits.len() == 0 {
                Err(ParseError::Soft)
            } else if digits_value(digits) > i32::MAX as int {
                Err(ParseError::Soft)
            } else if dend < s.len() && s[dend] == q {
                Ok((dend + 1, digits_value(digits)))
            } else {
                Err(ParseError::Soft)
            }
        } else {
            Err(ParseError::Soft)
        }
    } else {
        Err(ParseError::Soft)
    }
}

/// The optional `encoding="..."` attribute of the prolog.
pub open spec fn sp_encoding(s: Seq<char>, pos: int) -> Result<
    (int, Option<Seq<char>>),
    ParseError,
> {
    if is_at(s, pos, "encoding"@) {
        match sp_eq(s, pos + "encoding"@.len()) {
            Err(e) => Err(e),
            Ok(p1) => match sp_attr_value(s, p1) {
                Err(e) => Err(e),
                Ok((p2, v)) => Ok((p2, Some(v))),
            },
        }
    } else {
        Ok((pos, None))
    }
}

/// The closing strategy, decided after the attributes, in order: a bare
/// `>` where the name is configured to self-close without a slash, then
/// `/>`, then `>` followed by child nodes and a matching end tag. `pos`
/// is where the element itself started; `p3` stands just after the
/// attributes.
pub open spec fn sp_close(s: Seq<char>, pos: int, p3: int, name: Seq<char>, cfg: Seq<Seq<char>>)
    -> Result<(int, Seq<SpecNode>), ParseError>
    decreases s.len() - pos, 0int,
{
    if cfg_contains(cfg, name) && 0 <= p3 < s.len() && s[p3] == '>' {
        Ok((p3 + 1, Seq::empty()))
    } else if is_at(s, p3, "/>"@) {
        Ok((p3 + "/>"@.len(), Seq::empty()))
    } else if 0 <= p3 < s.len() && s[p3] == '>' {
        let p4 = skip_ws(s, p3 + 1);
        if pos < p4 && p4 <= s.len() {
            match sp_nodes(s, p4, cfg) {
                Err(e) => Err(e),
                Ok((p5, children)) => {
                    // `p5` is just after the `</`.
                    let p6 = skip_ws(s, p5);
                    let ce = scan_name_end(s, p6);
                    if ce == p6 {
                        Err(ParseError::Soft)
                    } else if lower(s.subrange(p6, ce)) == name {
                        let p7 = skip_ws(s, ce);
                        if p7 < s.len() && s[p7] == '>' {
                            Ok((p7 + 1, children))
                        } else {
                            Err(ParseError::Soft)
                        }
                    } else {
                        Err(ParseError::Fatal)
                    }
                },
            }
        } else {
            Err(ParseError::Soft)
        }
    } else {
        Err(ParseError::Soft)
    }
}

/// An element: `<`, a name, then either the doctype special case, or
/// attributes followed by one of the three closing strategies.
pub open spec fn sp_element(s: Seq<char>, pos: int, cfg: Seq<Seq<char>>) -> Result<
    (int, SpecElement),
    ParseError,
>
    decreases s.len() - pos, 1int,
{
    if !(0 <= pos && pos < s.len() && s[pos] == '<') {
        Err(ParseError::Soft)
    } else {
        let p1 = pos + 1;
        let ne = scan_name_end(s, p1);
        if ne == p1 {
            Err(ParseError::Soft)
        } else {
            let raw = s.subrange(p1, ne);
            if raw == "!DOCTYPE"@ {
                // Skip to the closing `>` and yield the fixed sentinel.
                match find_at(s, ne, ">"@) {
                    None => Err(ParseError::Fatal),
                    Some(j) => Ok(
                        (
                            j + 1,
                            SpecElement {
                                name: "doctype_decl"@,
                                attrs: Seq::empty(),
                                children: Seq::empty(),
                            },
                        ),
                    ),
                }
            } else {
                let name = lower(raw);
                let p2 = skip_ws(s, ne);
                match sp_attrs(s, p2) {
                    Err(e) => Err(e),
                    Ok((p3, attrs)) => {
                        match sp_close(s, pos, p3, name, cfg) {
                            Err(e) => Err(e),
                            Ok((p8, children)) => if !unique_keys(attrs) {
                                Err(ParseError::Fatal)
                            } else {
                                Ok((skip_ws(s, p8), SpecElement { name, attrs, children }))
                            },
                        }
                    },
                }
            }
        }
    }
}

/// One node: an element if that alternative matches, else character
/// data. Fails only fatally.
pub open spec fn sp_node(s: Seq<char>, pos: int, cfg: Seq<Seq<char>>) -> Result<
    (int, SpecNode),
    ParseError,
>
    decreases s.len() - pos, 2int,
{
    match sp_element(s, pos, cfg) {
        Ok((p, e)) => Ok((p, SpecNode::Elem(e))),
        Err(ParseError::Fatal) => Err(ParseError::Fatal),
        Err(ParseError::Soft) => {
            let (p, d) = sp_char_data(s, pos);
            Ok((p, SpecNode::Text(d)))
        },
    }
}

/// Zero or more nodes, terminated by the literal `</` (which is
/// consumed). A node that consumes nothing ends the run as a failure.
pub open spec fn sp_nodes(s: Seq<char>, pos: int, cfg: Seq<Seq<char>>) -> Result<
    (int, Seq<SpecNode>),
    ParseError,
>
    decreases s.len() - pos, 3int,
{
    if is_at(s, pos, "</"@) {
        Ok((pos + "</"@.len(), Seq::empty()))
    } else {
        match sp_node(s, pos, cfg) {
            Err(e) => Err(e),
            Ok((p, n)) => if pos < p && p <= s.len() {
                match sp_nodes(s, p, cfg) {
                    Err(e) => Err(e),
                    Ok((q, rest)) => Ok((q, seq![n] + rest)),
                }
            } else {
                Err(ParseError::Soft)
            },
        }
    }
}

/// A document: the `<?xml ... ?>` prolog (version, optional encoding),
/// then the root element.
pub open spec fn sp_document(s: Seq<char>, pos: int, cfg: Seq<Seq<char>>) -> Result<
    (int, SpecDocument),
    ParseError,
> {
    let p0 = skip_ws(s, pos);
    if !is_at(s, p0, "<?xml"@) {
        Err(ParseError::Soft)
    } else {
        let p1 = skip_ws(s, p0 + "<?xml"@.len());
        if !is_at(s, p1, "version"@) {
            Err(ParseError::Soft)
        } else {
            match sp_eq(s, p1 + "version"@.len()) {
                Err(e) => Err(e),
                Ok(p2) => match sp_version(s, p2) {
                    Err(e) => Err(e),
                    Ok((p3, ver)) => {
                        let p4 = skip_ws(s, p3);
                        match sp_encoding(s, p4) {
                            Err(e) => Err(e),
                            Ok((p5, enc)) => {
                                let p6 = skip_ws(s, p5);
                                if !is_at(s, p6, "?>"@) {
                                    Err(ParseError::Soft)
                                } else {
                                    let p7 = skip_ws(s, p6 + "?>"@.len());
                                    match sp_element(s, p7, cfg) {
                                        Err(e) => Err(e),
                                        Ok((p8, root)) => Ok(
                                            (
                                                skip_ws(s, p8),
                                                SpecDocument { version: ver, encoding: enc, root },
                                            ),
                                        ),
                                    }
                                }
                            },
                        }
                    },
                },
            }
        }
    }
}

/// Law: a `/>` right after the attributes always closes the element
/// with zero children, whatever the configured self-closing set holds.
pub proof fn lemma_slash_close_no_children(
    s: Seq<char>,
    pos: int,
    p3: int,
    name: Seq<char>,
    cfg: Seq<Seq<char>>,
)
    requires
        is_at(s, p3, "/>"@),
    ensures
        sp_close(s, pos, p3, name, cfg) == Ok::<(int, Seq<SpecNode>), ParseError>(
            (p3 + "/>"@.len(), Seq::empty()),
        ),
{
    reveal_strlit("/>");
    assert(s.subrange(p3, p3 + "/>"@.len())[0] == s[p3]);
    assert(s[p3] == '/');
}

/// Law: for a name in the self-closing set, a bare `>` right after the
/// attributes closes the element with zero children.
pub proof fn lemma_bare_close_no_children(
    s: Seq<char>,
    pos: int,
    p3: int,
    name: Seq<char>,
    cfg: Seq<Seq<char>>,
)
    requires
        cfg_contains(cfg, name),
        0 <= p3 < s.len(),
        s[p3] == '>',
    ensures
        sp_close(s, pos, p3, name, cfg) == Ok::<(int, Seq<SpecNode>), ParseError>(
            (p3 + 1, Seq::empty()),
        ),
{
}

/// Law: CDATA content is captured exactly as it stands, the terminating
/// marker excluded, and is never reinterpreted as markup.
pub proof fn lemma_cdata_exact(s: Seq<char>, pos: int, j: int)
    requires
        is_at(s, pos, "<![CDATA["@),
        find_at(s, pos + "<![CDATA["@.len(), "]]>"@) == Some(j),
    ensures
        sp_char_data(s, pos) == (j + "]]>"@.len(), s.subrange(pos + "<![CDATA["@.len(), j)),
{
}

/// Law: a mismatched end-tag name is a fatal failure at that element; no
/// recovery is attempted. The hypotheses put the close decision on its
/// body-reading branch with a well-delimited, wrongly named end tag.
pub proof fn lemma_mismatched_end_tag_fatal(
    s: Seq<char>,
    pos: int,
    p3: int,
    name: Seq<char>,
    cfg: Seq<Seq<char>>,
)
    requires
        !cfg_contains(cfg, name),
        0 <= p3 < s.len(),
        s[p3] == '>',
        pos < skip_ws(s, p3 + 1) <= s.len(),
        sp_nodes(s, skip_ws(s, p3 + 1), cfg) matches Ok(t) && ({
            let p6 = skip_ws(s, t.0);
            let ce = scan_name_end(s, p6);
            ce != p6 && lower(s.subrange(p6, ce)) != name
        }),
    ensures
        sp_close(s, pos, p3, name, cfg) == Err::<(int, Seq<SpecNode>), ParseError>(
            ParseError::Fatal,
        ),
{
    reveal_strlit("/>");
    assert(!is_at(s, p3, "/>"@)) by {
        if is_at(s, p3, "/>"@) {
            assert(s.subrange(p3, p3 + "/>"@.len())[0] == s[p3]);
        }
    }
}

/// Law: two attributes in one start tag whose lower-cased keys collide
/// make the element parse fail fatally, however many attributes there
/// are and however the element would have closed; nothing is silently
/// overwritten.
pub proof fn lemma_dup_attrs_fatal(s: Seq<char>, pos: int, cfg: Seq<Seq<char>>)
    requires
        0 <= pos < s.len(),
        s[pos] == '<',
        scan_name_end(s, pos + 1) != pos + 1,
        s.subrange(pos + 1, scan_name_end(s, pos + 1)) != "!DOCTYPE"@,
        ({
            let ne = scan_name_end(s, pos + 1);
            let name = lower(s.subrange(pos + 1, ne));
            sp_attrs(s, skip_ws(s, ne)) matches Ok(t) && !unique_keys(t.1) && sp_close(
                s,
                pos,
                t.0,
                name,
                cfg,
            ) is Ok
        }),
    ensures
        sp_element(s, pos, cfg) == Err::<(int, SpecElement), ParseError>(ParseError::Fatal),
{
}

/// Law: every attribute key a successful attribute run yields is stored
/// lower-cased.
pub proof fn lemma_attrs_keys_lower(s: Seq<char>, pos: int)
    ensures
        sp_attrs(s, pos) matches Ok(t) ==> forall|i: int|
            0 <= i < t.1.len() ==> t.1[i].0 == lower(#[trigger] t.1[i].0),
    decreases s.len() - pos,
{
    match sp_attribute(s, pos) {
        Ok((p, kv)) => {
            let p1 = crate::chars::skip_ws(s, pos);
            let ne = crate::chars::scan_name_end(s, p1);
            crate::chars::lemma_lower_idempotent(s.subrange(p1, ne));
            if pos < p && p <= s.len() {
                lemma_attrs_keys_lower(s, p);
                match sp_attrs(s, p) {
                    Ok(t) => {
                        assert forall|i: int|
                            0 <= i < (seq![kv] + t.1).len() implies (seq![kv] + t.1)[i].0 == lower(
                            #[trigger] (seq![kv] + t.1)[i].0,
                        ) by {
                            if i == 0 {
                                assert((seq![kv] + t.1)[0] == kv);
                            } else {
                                assert((seq![kv] + t.1)[i] == t.1[i - 1]);
                            }
                        }
                    },
                    Err(_) => {},
                }
            }
        },
        Err(_) => {},
    }
}

/// Law: whatever a successful parse returns is well formed: every
/// element name and every attribute key in the tree is stored
/// lower-cased, and no start tag carries two attributes with the same
/// key (a collision fails the parse instead; nothing is overwritten).
pub proof fn lemma_element_wf(s: Seq<char>, pos: int, cfg: Seq<Seq<char>>)
    ensures
        sp_element(s, pos, cfg) matches Ok(t) ==> wf_elem(t.1),
    decreases s.len() - pos, 1int,
{
    if 0 <= pos && pos < s.len() && s[pos] == '<' {
        let p1 = pos + 1;
        let ne = crate::chars::scan_name_end(s, p1);
        if ne != p1 {
            let raw = s.subrange(p1, ne);
            if raw == "!DOCTYPE"@ {
                reveal_strlit("doctype_decl");
                assert forall|i: int| 0 <= i < "doctype_decl"@.len() implies lower(
                    "doctype_decl"@,
                )[i] == "doctype_decl"@[i] by {}
                assert(lower("doctype_decl"@) =~= "doctype_decl"@);
            } else {
                crate::chars::lemma_lower_idempotent(raw);
                let name = lower(raw);
                let p2 = crate::chars::skip_ws(s, ne);
                lemma_attrs_keys_lower(s, p2);
                match sp_attrs(s, p2) {
                    Ok((p3, attrs)) => {
                        lemma_close_wf(s, pos, p3, name, cfg);
                    },
                    Err(_) => {},
                }
            }
        }
    }
}

pub proof fn lemma_close_wf(s: Seq<char>, pos: int, p3: int, name: Seq<char>, cfg: Seq<Seq<char>>)
    ensures
        sp_close(s, pos, p3, name, cfg) matches Ok(t) ==> wf_children(t.1),
    decreases s.len() - pos, 0int,
{
    if cfg_contains(cfg, name) && 0 <= p3 < s.len() && s[p3] == '>' {
    } else if is_at(s, p3, "/>"@) {
    } else if 0 <= p3 < s.len() && s[p3] == '>' {
        let p4 = crate::chars::skip_ws(s, p3 + 1);
        if pos < p4 && p4 <= s.len() {
            lemma_nodes_wf(s, p4, cfg);
        }
    }
}

pub proof fn lemma_node_wf(s: Seq<char>, pos: int, cfg: Seq<Seq<char>>)
    ensures
        sp_node(s, pos, cfg) matches Ok(t) ==> wf_node(t.1),
    decreases s.len() - pos, 2int,
{
    lemma_element_wf(s, pos, cfg);
}

pub proof fn lemma_nodes_wf(s: Seq<char>, pos: int, cfg: Seq<Seq<char>>)
    ensures
        sp_nodes(s, pos, cfg) matches Ok(t) ==> wf_children(t.1),
    decreases s.len() - pos, 3int,
{
    if is_at(s, pos, "</"@) {
    } else {
        lemma_node_wf(s, pos, cfg);
        match sp_node(s, pos, cfg) {
            Ok((p, n)) => {
                if pos < p && p <= s.len() {
                    lemma_nodes_wf(s, p, cfg);
                    match sp_nodes(s, p, cfg) {
                        Ok((q, rest)) => {
                            assert((seq![n] + rest).first() == n);
                            assert((seq![n] + rest).drop_first() =~= rest);
                        },
                        Err(_) => {},
                    }
                }
            },
            Err(_) => {},
        }
    }
}

/// Law: a self-closing start tag parses, for every name. Any input
/// `<name/>`, with a nonempty name of name characters other than the
/// doctype marker, parses on its own into a childless, attributeless
/// element carrying the lower-cased name, and is consumed whole,
/// whatever the configured self-closing set holds.
pub proof fn lemma_self_closing_tag_parses(name: Seq<char>, cfg: Seq<Seq<char>>)
    requires
        name.len() > 0,
        forall|i: int| 0 <= i < name.len() ==> is_name_char(#[trigger] name[i]),
        name != "!DOCTYPE"@,
    ensures
        ({
            let s = seq!['<'] + name + seq!['/', '>'];
            sp_element(s, 0, cfg) == Ok::<(int, SpecElement), ParseError>(
                (
                    s.len() as int,
                    SpecElement { name: lower(name), attrs: Seq::empty(), children: Seq::empty() },
                ),
            )
        }),
{
    let nl = name.len() as int;
    let s = seq!['<'] + name + seq!['/', '>'];
    assert(s.len() == nl + 3);
    assert(s[0] == '<');
    assert forall|i: int| 1 <= i < 1 + nl implies is_name_char(#[trigger] s[i]) by {
        assert(s[i] == name[i - 1]);
    }
    assert(s[1 + nl] == '/');
    assert(s[2 + nl] == '>');
    crate::chars::lemma_scan_name_end_region(s, 1, 1 + nl);
    let ne = 1 + nl;
    assert(s.subrange(1, ne) =~= name);
    crate::chars::lemma_skip_ws_region(s, ne, ne);
    // no attribute can start at the `/`
    crate::chars::lemma_scan_name_end_region(s, ne, ne);
    assert(sp_attribute(s, ne) == Err::<(int, (Seq<char>, Seq<char>)), ParseError>(
        ParseError::Soft,
    ));
    assert(sp_attrs(s, ne) == Ok::<(int, Seq<(Seq<char>, Seq<char>)>), ParseError>(
        (ne, Seq::empty()),
    ));
    // the `/>` closes with zero children
    reveal_strlit("/>");
    assert(s.subrange(ne, ne + 2) =~= "/>"@);
    assert(is_at(s, ne, "/>"@));
    lemma_slash_close_no_children(s, 0, ne, lower(name), cfg);
    assert(unique_keys(Seq::<(Seq<char>, Seq<char>)>::empty()));
    crate::chars::lemma_skip_ws_region(s, ne + 2, ne + 2);
}

/// Law: matching start and end tags parse, for every name, end-tag
/// spelling and body. Any input `<name>body</close>`, with a nonempty name
/// of name characters other than the doctype marker and not configured
/// to self-close, a body free of markup delimiters, and an end tag that
/// matches the name case-insensitively, parses on its own, is consumed
/// whole, and yields the lower-cased name, no attributes, and the body
/// (less the whitespace consumed after the start tag) as the only child;
/// a body of whitespace alone leaves no child.
#[verifier::rlimit(100)]
pub proof fn lemma_matched_tags_parse(
    name: Seq<char>,
    close: Seq<char>,
    body: Seq<char>,
    cfg: Seq<Seq<char>>,
)
    requires
        name.len() > 0,
        forall|i: int| 0 <= i < name.len() ==> is_name_char(#[trigger] name[i]),
        name != "!DOCTYPE"@,
        !cfg_contains(cfg, lower(name)),
        close.len() > 0,
        forall|i: int| 0 <= i < close.len() ==> is_name_char(#[trigger] close[i]),
        lower(close) == lower(name),
        forall|i: int| 0 <= i < body.len() ==> body[i] != '<' && #[trigger] body[i] != '>',
    ensures
        ({
            let s = seq!['<'] + name + seq!['>'] + body + seq!['<', '/'] + close + seq!['>'];
            let k = crate::chars::skip_ws(body, 0);
            sp_element(s, 0, cfg) == Ok::<(int, SpecElement), ParseError>(
                (
                    s.len() as int,
                    SpecElement {
                        name: lower(name),
                        attrs: Seq::empty(),
                        children: if k == body.len() {
                            Seq::empty()
                        } else {
                            seq![SpecNode::Text(body.subrange(k, body.len() as int))]
                        },
                    },
                ),
            )
        }),
{
    let nl = name.len() as int;
    let bl = body.len() as int;
    let cl = close.len() as int;
    let s = seq!['<'] + name + seq!['>'] + body + seq!['<', '/'] + close + seq!['>'];
    assert(s.len() == nl + bl + cl + 5);
    assert(s[0] == '<');
    assert forall|i: int| 1 <= i < 1 + nl implies is_name_char(#[trigger] s[i]) by {
        assert(s[i] == name[i - 1]);
    }
    assert(s[1 + nl] == '>');
    assert forall|i: int| 2 + nl <= i < 2 + nl + bl implies s[i] != '<' && #[trigger] s[i]
        != '>' by {
        assert(s[i] == body[i - 2 - nl]);
    }
    assert(s[2 + nl + bl] == '<');
    assert(s[3 + nl + bl] == '/');
    assert forall|i: int| 4 + nl + bl <= i < 4 + nl + bl + cl implies is_name_char(
        #[trigger] s[i],
    ) by {
        assert(s[i] == close[i - 4 - nl - bl]);
    }
    assert(s[4 + nl + bl + cl] == '>');
    // the start tag's name
    crate::chars::lemma_scan_name_end_region(s, 1, 1 + nl);
    let ne = 1 + nl;
    assert(s.subrange(1, ne) =~= name);
    // no whitespace and no attribute before the `>`
    crate::chars::lemma_skip_ws_region(s, ne, ne);
    crate::chars::lemma_scan_name_end_region(s, ne, ne);
    assert(sp_attribute(s, ne) == Err::<(int, (Seq<char>, Seq<char>)), ParseError>(
        ParseError::Soft,
    ));
    assert(sp_attrs(s, ne) == Ok::<(int, Seq<(Seq<char>, Seq<char>)>), ParseError>(
        (ne, Seq::empty()),
    ));
    reveal_strlit("/>");
    assert(!is_at(s, ne, "/>"@)) by {
        if is_at(s, ne, "/>"@) {
            assert(s.subrange(ne, ne + "/>"@.len())[0] == s[ne]);
        }
    }
    // whitespace right after the `>` is consumed before the first node
    crate::chars::lemma_skip_ws_chars(body, 0);
    let k = crate::chars::skip_ws(body, 0);
    assert forall|i: int| 2 + nl <= i < 2 + nl + k implies is_ws(#[trigger] s[i]) by {
        assert(s[i] == body[i - 2 - nl]);
    }
    assert(k < bl ==> !is_ws(s[2 + nl + k]));
    crate::chars::lemma_skip_ws_region(s, 2 + nl, 2 + nl + k);
    let p4 = 2 + nl + k;
    reveal_strlit("</");
    reveal_strlit("<![CDATA[");
    let children: Seq<SpecNode> = if k == bl {
        Seq::empty()
    } else {
        seq![SpecNode::Text(body.subrange(k, bl))]
    };
    if k == bl {
        // the body was all whitespace: the terminator stands right here
        assert(s.subrange(p4, p4 + "</"@.len()) =~= "</"@);
        assert(sp_nodes(s, p4, cfg) == Ok::<(int, Seq<SpecNode>), ParseError>(
            (p4 + 2, Seq::empty()),
        ));
    } else {
        // one text node reaches from here to the end tag
        assert(!is_at(s, p4, "</"@)) by {
            if is_at(s, p4, "</"@) {
                assert(s.subrange(p4, p4 + "</"@.len())[0] == s[p4]);
                assert(s[p4] == body[k]);
            }
        }
        assert(!is_at(s, p4, "<![CDATA["@)) by {
            if is_at(s, p4, "<![CDATA["@) {
                assert(s.subrange(p4, p4 + "<![CDATA["@.len())[0] == s[p4]);
                assert(s[p4] == body[k]);
            }
        }
        assert(sp_element(s, p4, cfg) == Err::<(int, SpecElement), ParseError>(ParseError::Soft));
        crate::chars::lemma_scan_text_end_region(s, p4, 2 + nl + bl);
        assert(s.subrange(p4, 2 + nl + bl) =~= body.subrange(k, bl));
        assert(sp_node(s, p4, cfg) == Ok::<(int, SpecNode), ParseError>(
            (2 + nl + bl, SpecNode::Text(body.subrange(k, bl))),
        ));
        assert(s.subrange(2 + nl + bl, 2 + nl + bl + "</"@.len()) =~= "</"@);
        assert(sp_nodes(s, 2 + nl + bl, cfg) == Ok::<(int, Seq<SpecNode>), ParseError>(
            (4 + nl + bl, Seq::empty()),
        ));
        assert(seq![SpecNode::Text(body.subrange(k, bl))] + Seq::<SpecNode>::empty()
            =~= children);
        assert(sp_nodes(s, p4, cfg) == Ok::<(int, Seq<SpecNode>), ParseError>(
            (4 + nl + bl, children),
        ));
    }
    // the end tag: optional whitespace, the name, optional whitespace, `>`
    let p5 = 4 + nl + bl;
    assert(!is_ws(s[p5]));
    crate::chars::lemma_skip_ws_region(s, p5, p5);
    crate::chars::lemma_scan_name_end_region(s, p5, p5 + cl);
    assert(s.subrange(p5, p5 + cl) =~= close);
    crate::chars::lemma_skip_ws_region(s, p5 + cl, p5 + cl);
    assert(unique_keys(Seq::<(Seq<char>, Seq<char>)>::empty()));
    crate::chars::lemma_skip_ws_region(s, p5 + cl + 1, p5 + cl + 1);
    assert(sp_close(s, 0, ne, lower(name), cfg) == Ok::<(int, Seq<SpecNode>), ParseError>(
        (p5 + cl + 1, children),
    ));
}

/// Law: the root of a successfully parsed document is well formed.
pub proof fn lemma_document_wf(s: Seq<char>, pos: int, cfg: Seq<Seq<char>>)
    ensures
        sp_document(s, pos, cfg) matches Ok(t) ==> wf_elem(t.1.root),
{
    let p0 = crate::chars::skip_ws(s, pos);
    if is_at(s, p0, "<?xml"@) {
        let p1 = crate::chars::skip_ws(s, p0 + "<?xml"@.len());
        if is_at(s, p1, "version"@) {
            match sp_eq(s, p1 + "version"@.len()) {
                Ok(p2) => match sp_version(s, p2) {
                    Ok((p3, _)) => {
                        let p4 = crate::chars::skip_ws(s, p3);
                        match sp_encoding(s, p4) {
                            Ok((p5, _)) => {
                                let p6 = crate::chars::skip_ws(s, p5);
                                if is_at(s, p6, "?>"@) {
                                    let p7 = crate::chars::skip_ws(s, p6 + "?>"@.len());
                                    lemma_element_wf(s, p7, cfg);
                                }
                            },
                            Err(_) => {},
                        }
                    },
                    Err(_) => {},
                },
                Err(_) => {},
            }
        }
    }
}

} // verus!

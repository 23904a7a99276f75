//! The element tree builder: recursive descent over the remaining text,
//! producing a tree of elements whose shape mirrors the nesting of the
//! source markup.

use vstd::prelude::*;
use vstd::string::*;

use crate::errors::Herr;
use crate::fragment::{frag_view, frags_view, un_escape_spec, unesc_frag, unesc_frags, Color, FragView, Fragment};
use crate::tag::{attrs_get, attrs_view, tag_spec, Tag, TagKind};
use crate::text::{
    find_char, find_char_from, find_sub, find_sub_from, lemma_trim_set_le, split_once,
    split_once_spec, trim, trim_spec, ws_chars, concat2,
};

verus! {

broadcast use {vstd::seq::axiom_seq_subrange_decreases, vstd::std_specs::vec::group_vec_axioms};

/// A parsed node of the input markup tree.
///
/// It includes:
/// - a kind, which is the main tag, such as `div`, `a`, ...
/// - additional attributes, such as `id`, `class`, ...
/// - the raw text runs met among its direct children, in document order
/// - the nested elements, in document order.
#[derive(Debug, PartialEq)]
pub struct HtmlElement {
    pub kind: String,
    pub attributes: Vec<(String, String)>,
    pub content: Vec<Fragment>,
    pub inner_elements: Vec<HtmlElement>,
}

/// The mathematical shape of an `HtmlElement`.
pub ghost struct ElemView {
    pub kind: Seq<char>,
    pub attributes: Seq<(Seq<char>, Seq<char>)>,
    pub content: Seq<FragView>,
    pub children: Seq<ElemView>,
}

pub open spec fn elem_view(e: HtmlElement) -> ElemView
    decreases e,
{
    ElemView {
        kind: e.kind@,
        attributes: attrs_view(e.attributes@),
        content: frags_view(e.content@),
        children: elems_view(e.inner_elements@),
    }
}

pub open spec fn elems_view(v: Seq<HtmlElement>) -> Seq<ElemView>
    decreases v,
{
    if v.len() == 0 {
        Seq::empty()
    } else {
        seq![elem_view(v[0])] + elems_view(v.drop_first())
    }
}

pub broadcast proof fn lemma_elems_view(v: Seq<HtmlElement>)
    ensures
        (#[trigger] elems_view(v)).len() == v.len(),
        forall|i: int| 0 <= i < v.len() ==> elems_view(v)[i] == elem_view(v[i]),
    decreases v.len(),
{
    if v.len() > 0 {
        lemma_elems_view(v.drop_first());
    }
}

impl View for HtmlElement {
    type V = ElemView;

    open spec fn view(&self) -> ElemView {
        elem_view(*self)
    }
}

/// What parsing one element from the front of `s` yields: the element and
/// the text after its closing tag.
///
/// The `arbitrary()` branches guard termination; they are unreachable, since
/// the remainder handed to each recursive step is strictly shorter.
pub open spec fn parse_elem_spec(s: Seq<char>) -> Result<(ElemView, Seq<char>), Herr>
    decreases s.len(), 0int,
{
    match find_char_from(s, '>', 0) {
        None => Err(Herr::UnexpectedEof),
        Some(end) => {
            let inner = if end == 0 {
                Seq::<char>::empty()
            } else {
                s.subrange(1, end)
            };
            match tag_spec(inner) {
                None => Err(Herr::MalformedTag),
                Some(t) => {
                    let rest0 = trim_spec(s.skip(end + 1));
                    if rest0.len() < s.len() {
                        parse_body_spec(t.name, t.attributes, Seq::empty(), Seq::empty(), rest0)
                    } else {
                        arbitrary()
                    }
                },
            }
        },
    }
}

/// Consumes the body of an element whose opening tag gave `kind` and
/// `attrs`, with `content` and `children` gathered so far: text runs up to
/// the next `<`, self-terminating tags as childless leaves, opening tags as
/// recursively parsed children; a closing tag, or exhausted input, completes
/// the element.
pub open spec fn parse_body_spec(
    kind: Seq<char>,
    attrs: Seq<(Seq<char>, Seq<char>)>,
    content: Seq<FragView>,
    children: Seq<ElemView>,
    s: Seq<char>,
) -> Result<(ElemView, Seq<char>), Herr>
    decreases s.len(), 1int,
{
    if s.len() == 0 {
        Ok((ElemView { kind, attributes: attrs, content, children }, s))
    } else if s[0] == '<' {
        match find_char_from(s, '>', 0) {
            None => Err(Herr::UnexpectedEof),
            Some(end) => {
                let inner = if end == 0 {
                    Seq::<char>::empty()
                } else {
                    s.subrange(1, end)
                };
                match tag_spec(inner) {
                    None => Err(Herr::MalformedTag),
                    Some(t) => {
                        let rest0 = trim_spec(s.skip(end + 1));
                        if t.kind == TagKind::SelfTerminating {
                            if rest0.len() < s.len() {
                                parse_body_spec(
                                    kind,
                                    attrs,
                                    content,
                                    children.push(
                                        ElemView {
                                            kind: t.name,
                                            attributes: t.attributes,
                                            content: Seq::empty(),
                                            children: Seq::empty(),
                                        },
                                    ),
                                    rest0,
                                )
                            } else {
                                arbitrary()
                            }
                        } else if t.kind == TagKind::Closing {
                            Ok((ElemView { kind, attributes: attrs, content, children }, rest0))
                        } else {
                            match parse_elem_spec(s) {
                                Err(e) => Err(e),
                                Ok(pair) => {
                                    if pair.1.len() < s.len() {
                                        parse_body_spec(
                                            kind,
                                            attrs,
                                            content,
                                            children.push(pair.0),
                                            pair.1,
                                        )
                                    } else {
                                        arbitrary()
                                    }
                                },
                            }
                        }
                    },
                }
            },
        }
    } else {
        match find_char_from(s, '<', 0) {
            Some(j) => {
                if 1 <= j < s.len() {
                    parse_body_spec(
                        kind,
                        attrs,
                        content.push(FragView::Raw(s.take(j))),
                        children,
                        s.skip(j),
                    )
                } else {
                    arbitrary()
                }
            },
            None => Ok(
                (
                    ElemView { kind, attributes: attrs, content: content.push(FragView::Raw(s)), children },
                    Seq::<char>::empty(),
                ),
            ),
        }
    }
}

impl HtmlElement {
    /// Builds a new element out of the front of `html`, together with the
    /// remaining text; the remainder is strictly shorter than the input.
    pub fn parse<'a>(html: &'a str) -> (r: Result<(HtmlElement, &'a str), Herr>)
        ensures
            match r {
                Ok(pair) => parse_elem_spec(html@) == Ok::<(ElemView, Seq<char>), Herr>(
                    (pair.0@, pair.1@),
                ) && pair.1@.len() < html@.len(),
                Err(e) => parse_elem_spec(html@) == Err::<(ElemView, Seq<char>), Herr>(e),
            },
        decreases html@.len(), 0int,
    {
        let n = html.unicode_len();
        match find_char(html, '>') {
            None => Err(Herr::UnexpectedEof),
            Some(end) => {
                let inner = if end == 0 {
                    html.substring_char(0, 0)
                } else {
                    html.substring_char(1, end)
                };
                proof {
                    if end == 0 {
                        assert(inner@ =~= Seq::<char>::empty());
                    } else {
                        assert(inner@ =~= html@.subrange(1, end as int));
                    }
                }
                match Tag::parse(inner) {
                    Err(_) => Err(Herr::MalformedTag),
                    Ok(t) => {
                        let after = html.substring_char(end + 1, n);
                        let rest0 = trim(after);
                        proof {
                            assert(after@ =~= html@.skip(end + 1));
                            lemma_trim_set_le(after@, ws_chars());
                        }
                        let Tag { name, kind: _, attributes } = t;
                        Self::parse_body(name, attributes, rest0)
                    },
                }
            },
        }
    }

    /// Consumes the body of an element, as `parse_body_spec` says.
    fn parse_body<'a>(kind: String, attributes: Vec<(String, String)>, s: &'a str) -> (r: Result<
        (HtmlElement, &'a str),
        Herr,
    >)
        ensures
            match r {
                Ok(pair) => parse_body_spec(
                    kind@,
                    attrs_view(attributes@),
                    Seq::empty(),
                    Seq::empty(),
                    s@,
                ) == Ok::<(ElemView, Seq<char>), Herr>((pair.0@, pair.1@)) && pair.1@.len()
                    <= s@.len(),
                Err(e) => parse_body_spec(
                    kind@,
                    attrs_view(attributes@),
                    Seq::empty(),
                    Seq::empty(),
                    s@,
                ) == Err::<(ElemView, Seq<char>), Herr>(e),
            },
        decreases s@.len(), 1int,
    {
        broadcast use {crate::fragment::lemma_frags_view, lemma_elems_view};

        let ghost gkind = kind@;
        let ghost gattrs = attrs_view(attributes@);
        let mut content: Vec<Fragment> = Vec::new();
        let mut inner_elements: Vec<HtmlElement> = Vec::new();
        let mut cur: &str = s;
        proof {
            assert(frags_view(content@) =~= Seq::<FragView>::empty());
            assert(elems_view(inner_elements@) =~= Seq::<ElemView>::empty());
        }
        loop
            invariant
                kind@ == gkind,
                attrs_view(attributes@) == gattrs,
                cur@.len() <= s@.len(),
                parse_body_spec(gkind, gattrs, Seq::empty(), Seq::empty(), s@) == parse_body_spec(
                    gkind,
                    gattrs,
                    frags_view(content@),
                    elems_view(inner_elements@),
                    cur@,
                ),
            decreases cur@.len(),
        {
            let ghost c_acc = frags_view(content@);
            let ghost k_acc = elems_view(inner_elements@);
            let ghost old_cur = cur@;
            if cur.is_empty() {
                let el = HtmlElement { kind, attributes, content, inner_elements };
                proof {
                    assert(el@ == ElemView {
                        kind: gkind,
                        attributes: gattrs,
                        content: c_acc,
                        children: k_acc,
                    });
                }
                return Ok((el, cur));
            }
            let m = cur.unicode_len();
            if cur.get_char(0) == '<' {
                match find_char(cur, '>') {
                    None => {
                        return Err(Herr::UnexpectedEof);
                    },
                    Some(end) => {
                        let inner = if end == 0 {
                            cur.substring_char(0, 0)
                        } else {
                            cur.substring_char(1, end)
                        };
                        proof {
                            if end == 0 {
                                assert(inner@ =~= Seq::<char>::empty());
                            } else {
                                assert(inner@ =~= old_cur.subrange(1, end as int));
                            }
                        }
                        match Tag::parse(inner) {
                            Err(_) => {
                                return Err(Herr::MalformedTag);
                            },
                            Ok(t) => {
                                let after = cur.substring_char(end + 1, m);
                                let rest0 = trim(after);
                                proof {
                                    assert(after@ =~= old_cur.skip(end + 1));
                                    lemma_trim_set_le(after@, ws_chars());
                                }
                                match t.kind {
                                    TagKind::SelfTerminating => {
                                        let Tag { name, kind: _, attributes: leaf_attrs } = t;
                                        let leaf = HtmlElement {
                                            kind: name,
                                            attributes: leaf_attrs,
                                            content: Vec::new(),
                                            inner_elements: Vec::new(),
                                        };
                                        proof {
                                            assert(frags_view(leaf.content@) =~= Seq::<
                                                FragView,
                                            >::empty());
                                            assert(elems_view(leaf.inner_elements@) =~= Seq::<
                                                ElemView,
                                            >::empty());
                                        }
                                        let ghost lv = leaf@;
                                        let ghost old_inner = inner_elements@;
                                        inner_elements.push(leaf);
                                        cur = rest0;
                                        proof {
                                            lemma_elems_view(old_inner);
                                            lemma_elems_view(inner_elements@);
                                            assert(elems_view(inner_elements@) =~= k_acc.push(lv));
                                        }
                                    },
                                    TagKind::Closing => {
                                        let el = HtmlElement {
                                            kind,
                                            attributes,
                                            content,
                                            inner_elements,
                                        };
                                        proof {
                                            assert(el@ == ElemView {
                                                kind: gkind,
                                                attributes: gattrs,
                                                content: c_acc,
                                                children: k_acc,
                                            });
                                        }
                                        return Ok((el, rest0));
                                    },
                                    TagKind::Opening => {
                                        match Self::parse(cur) {
                                            Err(e) => {
                                                return Err(e);
                                            },
                                            Ok(pair) => {
                                                let (child, rest1) = pair;
                                                let ghost cv = child@;
                                                let ghost old_inner = inner_elements@;
                                                inner_elements.push(child);
                                                cur = rest1;
                                                proof {
                                                    lemma_elems_view(old_inner);
                                                    lemma_elems_view(inner_elements@);
                                                    assert(elems_view(inner_elements@) =~= k_acc
                                                        .push(cv));
                                                }
                                            },
                                        }
                                    },
                                }
                            },
                        }
                    },
                }
            } else {
                match find_char(cur, '<') {
                    Some(j) => {
                        let piece = cur.substring_char(0, j);
                        let ghost old_content = content@;
                        content.push(Fragment::Raw(String::from_str(piece)));
                        cur = cur.substring_char(j, m);
                        proof {
                            crate::fragment::lemma_frags_view(old_content);
                            crate::fragment::lemma_frags_view(content@);
                            assert(piece@ =~= old_cur.take(j as int));
                            assert(cur@ =~= old_cur.skip(j as int));
                            assert(frags_view(content@) =~= c_acc.push(
                                FragView::Raw(old_cur.take(j as int)),
                            ));
                        }
                    },
                    None => {
                        let ghost old_content = content@;
                        content.push(Fragment::Raw(String::from_str(cur)));
                        proof {
                            crate::fragment::lemma_frags_view(old_content);
                            crate::fragment::lemma_frags_view(content@);
                            assert(frags_view(content@) =~= c_acc.push(FragView::Raw(old_cur)));
                        }
                        let el = HtmlElement { kind, attributes, content, inner_elements };
                        let rest = cur.substring_char(m, m);
                        proof {
                            assert(rest@ =~= Seq::<char>::empty());
                        }
                        return Ok((el, rest));
                    },
                }
            }
        }
    }
}

/// Where the region handed to `extract` begins and ends: the first opening
/// occurrence of the element (exact `<name>` first, then `<name` with
/// attributes), clipped just after the first `</name>`.
pub open spec fn extract_spec(name: Seq<char>, data: Seq<char>) -> Result<
    (ElemView, Seq<char>),
    Herr,
> {
    let closed = "<"@ + name + ">"@;
    let opened = "<"@ + name;
    let untag = "</"@ + name + ">"@;
    let tail = match split_once_spec(data, closed) {
        Some(pair) => closed + pair.1,
        None => match split_once_spec(data, opened) {
            Some(pair2) => opened + pair2.1,
            None => data,
        },
    };
    let clipped = match find_sub_from(tail, untag, 0) {
        Some(i) => tail.take(i + untag.len()),
        None => tail,
    };
    parse_elem_spec(clipped)
}

impl HtmlElement {
    /// Extracts the first element named `name` out of `data` and parses it.
    pub fn extract(name: &str, data: &str) -> (r: Result<HtmlElement, Herr>)
        ensures
            match r {
                Ok(el) => extract_spec(name@, data@) matches Ok(pair) && pair.0 == el@,
                Err(e) => extract_spec(name@, data@) == Err::<(ElemView, Seq<char>), Herr>(e),
            },
    {
        proof {
            reveal_strlit("<");
            reveal_strlit(">");
            reveal_strlit("</");
        }
        let closed = concat2("<", name).concat(">");
        let opened = concat2("<", name);
        let untag = concat2("</", name).concat(">");
        let tail: String = match split_once(data, closed.as_str()) {
            Some(pair) => concat2(closed.as_str(), pair.1),
            None => match split_once(data, opened.as_str()) {
                Some(pair2) => concat2(opened.as_str(), pair2.1),
                None => String::from_str(data),
            },
        };
        let _tail_len = tail.as_str().unicode_len();
        let clipped: &str = match find_sub(tail.as_str(), untag.as_str()) {
            Some(i) => {
                let c = tail.as_str().substring_char(0, i + untag.unicode_len());
                proof {
                    assert(c@ =~= tail@.take(i + untag@.len()));
                }
                c
            },
            None => tail.as_str(),
        };
        match Self::parse(clipped) {
            Ok(pair) => Ok(pair.0),
            Err(e) => Err(e),
        }
    }
}

/// The `class` attribute of an element, if any.
pub open spec fn elem_class(e: ElemView) -> Option<Seq<char>> {
    attrs_get(e.attributes, "class"@)
}

/// How one child resolves to a single fragment when zipped into its parent:
/// a recognized semantic class colours the child's first content fragment; a
/// `code` child wraps it in `Code`; a child with children resolves through
/// its first child; otherwise the first content fragment is used directly.
/// A child that lacks the needed content fragment is an error.
pub open spec fn child_frag_spec(c: ElemView) -> Result<FragView, Herr> {
    match elem_class(c) {
        Some(cls) => {
            if c.content.len() == 0 {
                Err(Herr::EmptyExpectedContent)
            } else {
                let name = c.content[0];
                if cls == "trait"@ {
                    Ok(FragView::Colored(Box::new(name), Color::Trait))
                } else if cls == "struct"@ {
                    Ok(FragView::Colored(Box::new(name), Color::Struct))
                } else if cls == "enum"@ {
                    Ok(FragView::Colored(Box::new(name), Color::Enum))
                } else if cls == "macro"@ {
                    Ok(FragView::Colored(Box::new(name), Color::Macro))
                } else if cls == "primitive"@ {
                    Ok(FragView::Colored(Box::new(name), Color::Primitive))
                } else if cls == "fn"@ {
                    Ok(FragView::Colored(Box::new(name), Color::Method))
                } else if cls == "associatedtype"@ {
                    Ok(FragView::Colored(Box::new(name), Color::AssociatedType))
                } else {
                    Ok(name)
                }
            }
        },
        None => {
            if c.kind == "code"@ {
                if c.content.len() == 0 {
                    Err(Herr::EmptyExpectedContent)
                } else {
                    Ok(FragView::Code(Box::new(c.content[0])))
                }
            } else if c.children.len() > 0 {
                let g = c.children[0];
                if g.kind == "code"@ {
                    if g.content.len() == 0 {
                        Err(Herr::EmptyExpectedContent)
                    } else {
                        Ok(FragView::Code(Box::new(g.content[0])))
                    }
                } else {
                    if g.content.len() == 0 {
                        Err(Herr::EmptyExpectedContent)
                    } else {
                        Ok(g.content[0])
                    }
                }
            } else {
                if c.content.len() == 0 {
                    Err(Herr::EmptyExpectedContent)
                } else {
                    Ok(c.content[0])
                }
            }
        },
    }
}

/// The children resolved to fragments, with container (`div`) children
/// filtered out first.
pub open spec fn child_frags_spec(cs: Seq<ElemView>) -> Result<Seq<FragView>, Herr>
    decreases cs.len(),
{
    if cs.len() == 0 {
        Ok(Seq::empty())
    } else if cs[0].kind == "div"@ {
        child_frags_spec(cs.drop_first())
    } else {
        match child_frag_spec(cs[0]) {
            Err(e) => Err(e),
            Ok(f) => match child_frags_spec(cs.drop_first()) {
                Err(e) => Err(e),
                Ok(fs) => Ok(seq![f] + fs),
            },
        }
    }
}

/// Positional pairing: `[content[0], items[0], content[1], items[1], ...]`,
/// stopping at the shorter of the two.
pub open spec fn interleave(content: Seq<FragView>, items: Seq<FragView>) -> Seq<FragView>
    decreases content.len(),
{
    if content.len() == 0 || items.len() == 0 {
        Seq::empty()
    } else {
        seq![content[0], items[0]] + interleave(content.drop_first(), items.drop_first())
    }
}

pub open spec fn min_len(a: int, b: int) -> int {
    if a <= b {
        a
    } else {
        b
    }
}

pub broadcast proof fn lemma_interleave(content: Seq<FragView>, items: Seq<FragView>)
    ensures
        (#[trigger] interleave(content, items)).len() == 2 * min_len(
            content.len() as int,
            items.len() as int,
        ),
        forall|i: int|
            0 <= i < min_len(content.len() as int, items.len() as int) ==> interleave(
                content,
                items,
            )[2 * i] == content[i] && interleave(content, items)[2 * i + 1] == items[i],
    decreases content.len(),
{
    if content.len() == 0 || items.len() == 0 {
    } else {
        lemma_interleave(content.drop_first(), items.drop_first());
        assert(interleave(content, items) == seq![content[0], items[0]] + interleave(
            content.drop_first(),
            items.drop_first(),
        ));
        assert forall|i: int|
            0 <= i < min_len(content.len() as int, items.len() as int) implies interleave(
            content,
            items,
        )[2 * i] == content[i] && interleave(content, items)[2 * i + 1] == items[i] by {
            if i == 0 {
                assert(interleave(content, items)[0] == content[0]);
                assert(interleave(content, items)[1] == items[0]);
            } else {
                let rest = interleave(content.drop_first(), items.drop_first());
                assert(interleave(content, items)[2 * i] == rest[2 * (i - 1)]);
                assert(rest[2 * (i - 1)] == content.drop_first()[i - 1]);
                assert(interleave(content, items)[2 * i + 1] == rest[2 * (i - 1) + 1]);
                assert(rest[2 * (i - 1) + 1] == items.drop_first()[i - 1]);
            }
        }
    }
}

/// What zipping an element yields.
///
/// A leading bold wrapper short-circuits to the fixed two-fragment heading
/// shape.  Otherwise the element's text runs are paired positionally with
/// its resolved children (a trailing where-clause child held aside, `div`
/// children dropped), one leftover text run is appended, every fragment is
/// entity-unescaped, and the where-clause child's own zipped content is
/// appended last.
pub open spec fn zip_spec(e: ElemView) -> Result<Seq<FragView>, Herr>
    decreases e,
{
    if e.children.len() > 0 && e.children[0].kind == "strong"@ {
        if e.children[0].content.len() == 0 || e.content.len() == 0 {
            Err(Herr::EmptyExpectedContent)
        } else {
            Ok(seq![FragView::Bold(seq![e.children[0].content[0]]), e.content[0]])
        }
    } else {
        let has_where = e.children.len() > 0 && elem_class(e.children.last()) == Some("where"@);
        let body = if has_where {
            e.children.drop_last()
        } else {
            e.children
        };
        match child_frags_spec(body) {
            Err(er) => Err(er),
            Ok(items) => {
                let paired = interleave(e.content, items);
                let with_tail = if e.content.len() > items.len() {
                    paired.push(e.content.last())
                } else {
                    paired
                };
                let base = unesc_frags(with_tail);
                if has_where {
                    match zip_spec(e.children.last()) {
                        Err(er) => Err(er),
                        Ok(wf) => Ok(base + wf),
                    }
                } else {
                    Ok(base)
                }
            },
        }
    }
}

impl HtmlElement {
    /// How one child resolves to a fragment; see `child_frag_spec`.
    fn child_frag(c: &HtmlElement) -> (r: Result<Fragment, Herr>)
        ensures
            match r {
                Ok(f) => child_frag_spec(c@) == Ok::<FragView, Herr>(f@),
                Err(e) => child_frag_spec(c@) == Err::<FragView, Herr>(e),
            },
    {
        broadcast use {crate::fragment::lemma_frags_view, lemma_elems_view};

        match crate::tag::attrs_lookup(&c.attributes, "class") {
            Some(cls) => {
                if c.content.len() == 0 {
                    Err(Herr::EmptyExpectedContent)
                } else {
                    let name = c.content[0].clone();
                    if crate::text::str_eq(cls.as_str(), "trait") {
                        Ok(Fragment::Colored(Box::new(name), Color::Trait))
                    } else if crate::text::str_eq(cls.as_str(), "struct") {
                        Ok(Fragment::Colored(Box::new(name), Color::Struct))
                    } else if crate::text::str_eq(cls.as_str(), "enum") {
                        Ok(Fragment::Colored(Box::new(name), Color::Enum))
                    } else if crate::text::str_eq(cls.as_str(), "macro") {
                        Ok(Fragment::Colored(Box::new(name), Color::Macro))
                    } else if crate::text::str_eq(cls.as_str(), "primitive") {
                        Ok(Fragment::Colored(Box::new(name), Color::Primitive))
                    } else if crate::text::str_eq(cls.as_str(), "fn") {
                        Ok(Fragment::Colored(Box::new(name), Color::Method))
                    } else if crate::text::str_eq(cls.as_str(), "associatedtype") {
                        Ok(Fragment::Colored(Box::new(name), Color::AssociatedType))
                    } else {
                        Ok(name)
                    }
                }
            },
            None => {
                if crate::text::str_eq(c.kind.as_str(), "code") {
                    if c.content.len() == 0 {
                        Err(Herr::EmptyExpectedContent)
                    } else {
                        Ok(Fragment::Code(Box::new(c.content[0].clone())))
                    }
                } else if c.inner_elements.len() > 0 {
                    let g = &c.inner_elements[0];
                    proof {
                        assert(c@.children[0] == g@);
                        assert(g@.kind == g.kind@);
                        assert(g@.content == frags_view(g.content@));
                    }
                    if crate::text::str_eq(g.kind.as_str(), "code") {
                        if g.content.len() == 0 {
                            Err(Herr::EmptyExpectedContent)
                        } else {
                            Ok(Fragment::Code(Box::new(g.content[0].clone())))
                        }
                    } else {
                        if g.content.len() == 0 {
                            Err(Herr::EmptyExpectedContent)
                        } else {
                            Ok(g.content[0].clone())
                        }
                    }
                } else {
                    if c.content.len() == 0 {
                        Err(Herr::EmptyExpectedContent)
                    } else {
                        Ok(c.content[0].clone())
                    }
                }
            },
        }
    }

    /// Returns the element's full content as fragments through zipping, as
    /// `zip_spec` says.
    pub fn zip_content(&self) -> (r: Result<Vec<Fragment>, Herr>)
        ensures
            match r {
                Ok(v) => zip_spec(self@) == Ok::<Seq<FragView>, Herr>(frags_view(v@)),
                Err(e) => zip_spec(self@) == Err::<Seq<FragView>, Herr>(e),
            },
        decreases *self,
    {
        broadcast use {crate::fragment::lemma_frags_view, crate::fragment::lemma_unesc_frags,
            lemma_elems_view, lemma_interleave};

        let n_children = self.inner_elements.len();
        proof {
            assert(self@.content == frags_view(self.content@));
            assert(self@.children == elems_view(self.inner_elements@));
            if n_children > 0 {
                assert(self@.children[0] == elem_view(self.inner_elements@[0]));
                assert(self@.children[n_children - 1] == elem_view(
                    self.inner_elements@[n_children - 1],
                ));
            }
        }
        if n_children > 0 && crate::text::str_eq(self.inner_elements[0].kind.as_str(), "strong") {
            if self.inner_elements[0].content.len() == 0 || self.content.len() == 0 {
                return Err(Herr::EmptyExpectedContent);
            }
            let first = self.inner_elements[0].content[0].clone();
            let own = self.content[0].clone();
            let mut bold_inner: Vec<Fragment> = Vec::new();
            bold_inner.push(first);
            let mut out: Vec<Fragment> = Vec::new();
            out.push(Fragment::Bold(bold_inner));
            out.push(own);
            proof {
                assert(frags_view(bold_inner@) =~= seq![self@.children[0].content[0]]);
                assert(frags_view(out@) =~= seq![
                    FragView::Bold(seq![self@.children[0].content[0]]),
                    self@.content[0],
                ]);
            }
            return Ok(out);
        }
        let has_where = if n_children > 0 {
            match crate::tag::attrs_lookup(&self.inner_elements[n_children - 1].attributes, "class") {
                Some(cls) => crate::text::str_eq(cls.as_str(), "where"),
                None => false,
            }
        } else {
            false
        };
        let ghost ghas_where = self@.children.len() > 0 && elem_class(self@.children.last())
            == Some("where"@);
        proof {
            assert(has_where == ghas_where);
        }
        let limit = if has_where {
            n_children - 1
        } else {
            n_children
        };
        let ghost body = if ghas_where {
            self@.children.drop_last()
        } else {
            self@.children
        };
        proof {
            assert(body.len() == limit);
            assert(forall|i: int| 0 <= i < limit ==> body[i] == self@.children[i]);
            assert(body.skip(0) =~= body);
        }
        let mut items: Vec<Fragment> = Vec::new();
        let mut i: usize = 0;
        while i < limit
            invariant
                n_children == self.inner_elements@.len(),
                n_children == self@.children.len(),
                n_children == 0 || self@.children[0].kind != "strong"@,
                ghas_where == (self@.children.len() > 0 && elem_class(self@.children.last())
                    == Some("where"@)),
                body == (if ghas_where {
                    self@.children.drop_last()
                } else {
                    self@.children
                }),
                limit <= self.inner_elements@.len(),
                body.len() == limit,
                forall|k: int| 0 <= k < limit ==> body[k] == elem_view(self.inner_elements@[k]),
                i <= limit,
                match child_frags_spec(body.skip(i as int)) {
                    Ok(fs) => child_frags_spec(body) == Ok::<Seq<FragView>, Herr>(
                        frags_view(items@) + fs,
                    ),
                    Err(e) => child_frags_spec(body) == Err::<Seq<FragView>, Herr>(e),
                },
            decreases limit - i,
        {
            let ghost old_items = items@;
            proof {
                assert(body.skip(i as int)[0] == body[i as int]);
                assert(body.skip(i as int).drop_first() =~= body.skip(i + 1));
            }
            let c = &self.inner_elements[i];
            if !crate::text::str_eq(c.kind.as_str(), "div") {
                match Self::child_frag(c) {
                    Ok(f) => {
                        let ghost fv = f@;
                        items.push(f);
                        proof {
                            crate::fragment::lemma_frags_view(items@);
                            crate::fragment::lemma_frags_view(old_items);
                            assert(frags_view(items@) =~= frags_view(old_items).push(fv));
                            if child_frags_spec(body.skip(i + 1)) is Ok {
                                let fs = child_frags_spec(body.skip(i + 1))->Ok_0;
                                assert(frags_view(old_items) + (seq![fv] + fs) =~= frags_view(
                                    items@,
                                ) + fs);
                            }
                        }
                    },
                    Err(e) => {
                        return Err(e);
                    },
                }
            }
            i = i + 1;
        }
        proof {
            assert(body.skip(limit as int) =~= Seq::<ElemView>::empty());
            assert(child_frags_spec(body) == Ok::<Seq<FragView>, Herr>(
                frags_view(items@) + Seq::<FragView>::empty(),
            ));
            assert(frags_view(items@) + Seq::<FragView>::empty() =~= frags_view(items@));
        }
        let ghost gitems = frags_view(items@);
        let n_content = self.content.len();
        let n_items = items.len();
        let m = if n_content <= n_items {
            n_content
        } else {
            n_items
        };
        let mut zipped: Vec<Fragment> = Vec::new();
        let mut k: usize = 0;
        while k < m
            invariant
                m == min_len(self.content@.len() as int, items@.len() as int),
                m <= self.content@.len(),
                m <= items@.len(),
                gitems == frags_view(items@),
                k <= m,
                zipped@.len() == 2 * k,
                forall|j: int|
                    0 <= j < k ==> frag_view(zipped@[2 * j]) == self@.content[j] && frag_view(
                        zipped@[2 * j + 1],
                    ) == gitems[j],
            decreases m - k,
        {
            zipped.push(self.content[k].clone());
            zipped.push(items[k].clone());
            proof {
                crate::fragment::lemma_frags_view(self.content@);
                crate::fragment::lemma_frags_view(items@);
                assert(self@.content == frags_view(self.content@));
            }
            k = k + 1;
        }
        proof {
            lemma_interleave(self@.content, gitems);
            crate::fragment::lemma_frags_view(zipped@);
            crate::fragment::lemma_frags_view(self.content@);
            crate::fragment::lemma_frags_view(items@);
            let lhs = frags_view(zipped@);
            let rhs = interleave(self@.content, gitems);
            assert(lhs.len() == rhs.len());
            assert forall|n: int| 0 <= n < lhs.len() implies lhs[n] == rhs[n] by {
                let j = n / 2;
                if n == 2 * j {
                    assert(lhs[2 * j] == frag_view(zipped@[2 * j]));
                    assert(rhs[2 * j] == self@.content[j]);
                } else {
                    assert(n == 2 * j + 1);
                    assert(lhs[2 * j + 1] == frag_view(zipped@[2 * j + 1]));
                    assert(rhs[2 * j + 1] == gitems[j]);
                }
            }
            assert(frags_view(zipped@) =~= interleave(self@.content, gitems));
        }
        if n_content > n_items {
            let ghost old_zipped = zipped@;
            zipped.push(self.content[n_content - 1].clone());
            proof {
                assert(frags_view(zipped@) =~= frags_view(old_zipped).push(self@.content.last()));
            }
        }
        let ghost with_tail = frags_view(zipped@);
        let mut out: Vec<Fragment> = Vec::new();
        let mut q: usize = 0;
        while q < zipped.len()
            invariant
                with_tail == frags_view(zipped@),
                q <= zipped@.len(),
                out@.len() == q,
                forall|j: int|
                    0 <= j < q ==> frag_view(out@[j]) == unesc_frag(frag_view(zipped@[j])),
            decreases zipped@.len() - q,
        {
            let f = zipped[q].un_escape_content();
            out.push(f);
            q = q + 1;
        }
        proof {
            assert(frags_view(out@) =~= unesc_frags(with_tail));
        }
        if has_where {
            let last = &self.inner_elements[n_children - 1];
            let ghost base = frags_view(out@);
            match last.zip_content() {
                Ok(mut wf) => {
                    let ghost wfv = frags_view(wf@);
                    out.append(&mut wf);
                    proof {
                        assert(frags_view(out@) =~= base + wfv);
                    }
                    Ok(out)
                },
                Err(e) => Err(e),
            }
        } else {
            Ok(out)
        }
    }
}

/// The first content fragment of each child, in order; a child without one
/// is an error.
pub open spec fn span_texts(cs: Seq<ElemView>) -> Result<Seq<FragView>, Herr>
    decreases cs.len(),
{
    if cs.len() == 0 {
        Ok(Seq::empty())
    } else if cs[0].content.len() == 0 {
        Err(Herr::EmptyExpectedContent)
    } else {
        match span_texts(cs.drop_first()) {
            Ok(rest) => Ok(seq![cs[0].content[0]] + rest),
            Err(e) => Err(e),
        }
    }
}

proof fn lemma_span_texts(cs: Seq<ElemView>)
    requires
        span_texts(cs) is Ok,
    ensures
        span_texts(cs)->Ok_0.len() == cs.len(),
        forall|i: int| 0 <= i < cs.len() ==> span_texts(cs)->Ok_0[i] == cs[i].content[0],
    decreases cs.len(),
{
    if cs.len() > 0 {
        lemma_span_texts(cs.drop_first());
    }
}

/// The texts of a run of `Raw` fragments, each entity-unescaped; any other
/// fragment is an error.
pub open spec fn code_text(ps: Seq<FragView>) -> Result<Seq<char>, Herr>
    decreases ps.len(),
{
    if ps.len() == 0 {
        Ok(Seq::empty())
    } else {
        match ps[0] {
            FragView::Raw(t) => match code_text(ps.drop_first()) {
                Ok(rest) => Ok(un_escape_spec(t) + rest),
                Err(e) => Err(e),
            },
            _ => Err(Herr::EmptyExpectedContent),
        }
    }
}

/// What zipping a code block yields: each child's first content fragment is
/// paired with the parallel raw content entry, a leftover child text is
/// appended, and the whole sequence is reduced to one `Raw` fragment by
/// unescaping and concatenating every piece in order.
pub open spec fn zip_code_spec(e: ElemView) -> Result<FragView, Herr> {
    if e.children.len() == 0 {
        Err(Herr::EmptyExpectedContent)
    } else {
        match span_texts(e.children) {
            Err(er) => Err(er),
            Ok(spans) => {
                let paired = interleave(spans, e.content);
                let pieces = if e.children.len() > e.content.len() {
                    paired.push(spans.last())
                } else {
                    paired
                };
                match code_text(pieces) {
                    Ok(t) => Ok(FragView::Raw(t)),
                    Err(er) => Err(er),
                }
            },
        }
    }
}

impl HtmlElement {
    /// Returns the content of a code block as a single `Raw` fragment, as
    /// `zip_code_spec` says.
    pub fn zip_code(&self) -> (r: Result<Box<Fragment>, Herr>)
        ensures
            match r {
                Ok(b) => zip_code_spec(self@) == Ok::<FragView, Herr>(b@),
                Err(e) => zip_code_spec(self@) == Err::<FragView, Herr>(e),
            },
    {
        broadcast use {crate::fragment::lemma_frags_view, lemma_elems_view};

        let n_children = self.inner_elements.len();
        proof {
            assert(self@.content == frags_view(self.content@));
            assert(self@.children == elems_view(self.inner_elements@));
        }
        if n_children == 0 {
            return Err(Herr::EmptyExpectedContent);
        }
        let mut spans: Vec<Fragment> = Vec::new();
        let mut i: usize = 0;
        proof {
            assert(self@.children.skip(0) =~= self@.children);
        }
        while i < n_children
            invariant
                n_children == self.inner_elements@.len(),
                n_children == self@.children.len(),
                n_children > 0,
                self@.children == elems_view(self.inner_elements@),
                forall|k: int|
                    0 <= k < n_children ==> self@.children[k] == elem_view(
                        self.inner_elements@[k],
                    ),
                i <= n_children,
                match span_texts(self@.children.skip(i as int)) {
                    Ok(fs) => span_texts(self@.children) == Ok::<Seq<FragView>, Herr>(
                        frags_view(spans@) + fs,
                    ),
                    Err(e) => span_texts(self@.children) == Err::<Seq<FragView>, Herr>(e),
                },
            decreases n_children - i,
        {
            let ghost old_spans = spans@;
            proof {
                assert(self@.children.skip(i as int)[0] == self@.children[i as int]);
                assert(self@.children.skip(i as int).drop_first() =~= self@.children.skip(i + 1));
            }
            let c = &self.inner_elements[i];
            proof {
                assert(c@.content == frags_view(c.content@));
            }
            if c.content.len() == 0 {
                return Err(Herr::EmptyExpectedContent);
            }
            let f = c.content[0].clone();
            let ghost fv = f@;
            spans.push(f);
            proof {
                crate::fragment::lemma_frags_view(spans@);
                crate::fragment::lemma_frags_view(old_spans);
                assert(frags_view(spans@) =~= frags_view(old_spans).push(fv));
                if span_texts(self@.children.skip(i + 1)) is Ok {
                    let fs = span_texts(self@.children.skip(i + 1))->Ok_0;
                    assert(frags_view(old_spans) + (seq![fv] + fs) =~= frags_view(spans@) + fs);
                }
            }
            i = i + 1;
        }
        let ghost gspans = frags_view(spans@);
        proof {
            assert(self@.children.skip(n_children as int) =~= Seq::<ElemView>::empty());
            assert(gspans + Seq::<FragView>::empty() =~= gspans);
            assert(span_texts(self@.children) == Ok::<Seq<FragView>, Herr>(gspans));
            lemma_span_texts(self@.children);
        }
        let n_content = self.content.len();
        let m = if n_content <= n_children {
            n_content
        } else {
            n_children
        };
        let mut zipped: Vec<Fragment> = Vec::new();
        let mut k: usize = 0;
        while k < m
            invariant
                m == min_len(gspans.len() as int, self.content@.len() as int),
                m <= self.content@.len(),
                m <= spans@.len(),
                gspans == frags_view(spans@),
                k <= m,
                zipped@.len() == 2 * k,
                forall|j: int|
                    0 <= j < k ==> frag_view(zipped@[2 * j]) == gspans[j] && frag_view(
                        zipped@[2 * j + 1],
                    ) == self@.content[j],
            decreases m - k,
        {
            zipped.push(spans[k].clone());
            zipped.push(self.content[k].clone());
            proof {
                crate::fragment::lemma_frags_view(self.content@);
                crate::fragment::lemma_frags_view(spans@);
                assert(self@.content == frags_view(self.content@));
            }
            k = k + 1;
        }
        proof {
            lemma_interleave(gspans, self@.content);
            crate::fragment::lemma_frags_view(zipped@);
            let lhs = frags_view(zipped@);
            let rhs = interleave(gspans, self@.content);
            assert(lhs.len() == rhs.len());
            assert forall|n: int| 0 <= n < lhs.len() implies lhs[n] == rhs[n] by {
                let j = n / 2;
                if n == 2 * j {
                    assert(lhs[2 * j] == frag_view(zipped@[2 * j]));
                    assert(rhs[2 * j] == gspans[j]);
                } else {
                    assert(n == 2 * j + 1);
                    assert(lhs[2 * j + 1] == frag_view(zipped@[2 * j + 1]));
                    assert(rhs[2 * j + 1] == self@.content[j]);
                }
            }
            assert(frags_view(zipped@) =~= interleave(gspans, self@.content));
        }
        if n_children > n_content {
            let ghost old_zipped = zipped@;
            zipped.push(spans[n_children - 1].clone());
            proof {
                crate::fragment::lemma_frags_view(zipped@);
                crate::fragment::lemma_frags_view(old_zipped);
                assert(frags_view(zipped@) =~= frags_view(old_zipped).push(gspans.last()));
            }
        }
        let ghost gpieces = frags_view(zipped@);
        proof {
            assert(zip_code_spec(self@) == (match code_text(gpieces) {
                Ok(t) => Ok::<FragView, Herr>(FragView::Raw(t)),
                Err(er) => Err::<FragView, Herr>(er),
            }));
            assert(gpieces.skip(0) =~= gpieces);
        }
        let mut out = String::new();
        let mut q: usize = 0;
        let n_zipped = zipped.len();
        while q < n_zipped
            invariant
                n_zipped == zipped@.len(),
                gpieces == frags_view(zipped@),
                zip_code_spec(self@) == (match code_text(gpieces) {
                    Ok(t) => Ok::<FragView, Herr>(FragView::Raw(t)),
                    Err(er) => Err::<FragView, Herr>(er),
                }),
                q <= n_zipped,
                match code_text(gpieces.skip(q as int)) {
                    Ok(rest) => code_text(gpieces) == Ok::<Seq<char>, Herr>(out@ + rest),
                    Err(e) => code_text(gpieces) == Err::<Seq<char>, Herr>(e),
                },
            decreases n_zipped - q,
        {
            proof {
                crate::fragment::lemma_frags_view(zipped@);
                assert(gpieces.skip(q as int)[0] == gpieces[q as int]);
                assert(gpieces.skip(q as int).drop_first() =~= gpieces.skip(q + 1));
            }
            match zipped[q].raw_content() {
                Some(t) => {
                    let ghost old_out = out@;
                    let u = crate::fragment::un_escape(t);
                    out.append(u.as_str());
                    proof {
                        if code_text(gpieces.skip(q + 1)) is Ok {
                            let rest = code_text(gpieces.skip(q + 1))->Ok_0;
                            assert(old_out + (un_escape_spec(t@) + rest) =~= out@ + rest);
                        }
                    }
                },
                None => {
                    return Err(Herr::EmptyExpectedContent);
                },
            }
            q = q + 1;
        }
        proof {
            assert(gpieces.skip(n_zipped as int) =~= Seq::<FragView>::empty());
            assert(out@ + Seq::<char>::empty() =~= out@);
        }
        Ok(Box::new(Fragment::Raw(out)))
    }
}

proof fn lemma_child_frags_full(cs: Seq<ElemView>)
    requires
        forall|i: int| 0 <= i < cs.len() ==> cs[i].kind != "div"@,
        child_frags_spec(cs) is Ok,
    ensures
        child_frags_spec(cs)->Ok_0.len() == cs.len(),
        forall|i: int| 0 <= i < cs.len() ==> (#[trigger] child_frag_spec(cs[i])) is Ok,
        forall|i: int|
            0 <= i < cs.len() ==> child_frags_spec(cs)->Ok_0[i] == (#[trigger] child_frag_spec(
                cs[i],
            ))->Ok_0,
    decreases cs.len(),
{
    if cs.len() > 0 {
        assert forall|i: int| 0 <= i < cs.drop_first().len() implies cs.drop_first()[i].kind
            != "div"@ by {
            assert(cs.drop_first()[i] == cs[i + 1]);
        }
        lemma_child_frags_full(cs.drop_first());
        assert(child_frag_spec(cs[0]) is Ok);
        let f = child_frag_spec(cs[0])->Ok_0;
        let fs = child_frags_spec(cs.drop_first())->Ok_0;
        assert(child_frags_spec(cs)->Ok_0 == seq![f] + fs);
        assert forall|i: int|
            0 <= i < cs.len() implies (#[trigger] child_frag_spec(cs[i])) is Ok && child_frags_spec(
            cs,
        )->Ok_0[i] == child_frag_spec(cs[i])->Ok_0 by {
            if i > 0 {
                assert(cs.drop_first()[i - 1] == cs[i]);
                assert(fs[i - 1] == child_frag_spec(cs.drop_first()[i - 1])->Ok_0);
            }
        }
    }
}

/// An element in general shape — as many text runs as children, no leading
/// bold wrapper, no container children, no trailing where-clause — zips to
/// exactly twice that many fragments: text runs and resolved children
/// strictly alternating, each entity-unescaped.
pub proof fn lemma_zip_alternating(e: ElemView)
    requires
        e.content.len() == e.children.len(),
        e.children.len() > 0 ==> e.children[0].kind != "strong"@,
        forall|i: int| 0 <= i < e.children.len() ==> e.children[i].kind != "div"@,
        e.children.len() > 0 ==> elem_class(e.children.last()) != Some("where"@),
        child_frags_spec(e.children) is Ok,
    ensures
        zip_spec(e) is Ok,
        zip_spec(e)->Ok_0.len() == 2 * e.content.len(),
        forall|i: int|
            0 <= i < e.content.len() ==> zip_spec(e)->Ok_0[2 * i] == unesc_frag(e.content[i]),
        forall|i: int|
            0 <= i < e.content.len() ==> zip_spec(e)->Ok_0[2 * i + 1] == unesc_frag(
                child_frag_spec(e.children[i])->Ok_0,
            ),
{
    lemma_child_frags_full(e.children);
    let items = child_frags_spec(e.children)->Ok_0;
    lemma_interleave(e.content, items);
    let paired = interleave(e.content, items);
    crate::fragment::lemma_unesc_frags(paired);
    assert(zip_spec(e)->Ok_0 == unesc_frags(paired));
}

/// An element with one more text run than children zips to the alternating
/// sequence of `lemma_zip_alternating` plus one trailing raw entry: the
/// leftover text run, entity-unescaped, at the very end.
pub proof fn lemma_zip_trailing_run(e: ElemView)
    requires
        e.content.len() == e.children.len() + 1,
        e.children.len() > 0 ==> e.children[0].kind != "strong"@,
        forall|i: int| 0 <= i < e.children.len() ==> e.children[i].kind != "div"@,
        e.children.len() > 0 ==> elem_class(e.children.last()) != Some("where"@),
        child_frags_spec(e.children) is Ok,
    ensures
        zip_spec(e) is Ok,
        zip_spec(e)->Ok_0.len() == 2 * e.children.len() + 1,
        forall|i: int|
            0 <= i < e.children.len() ==> zip_spec(e)->Ok_0[2 * i] == unesc_frag(e.content[i]),
        forall|i: int|
            0 <= i < e.children.len() ==> zip_spec(e)->Ok_0[2 * i + 1] == unesc_frag(
                child_frag_spec(e.children[i])->Ok_0,
            ),
        zip_spec(e)->Ok_0.last() == unesc_frag(e.content.last()),
{
    lemma_child_frags_full(e.children);
    let items = child_frags_spec(e.children)->Ok_0;
    lemma_interleave(e.content, items);
    let paired = interleave(e.content, items);
    let with_tail = paired.push(e.content.last());
    crate::fragment::lemma_unesc_frags(with_tail);
    assert(zip_spec(e)->Ok_0 == unesc_frags(with_tail));
    assert(zip_spec(e)->Ok_0.last() == unesc_frag(with_tail.last()));
}

/// A trailing where-clause child always renders last: whatever the pairing
/// put before it, the zipped sequence ends with that child's own zipped
/// content.
pub proof fn lemma_zip_where_last(e: ElemView)
    requires
        e.children.len() > 0,
        e.children[0].kind != "strong"@,
        elem_class(e.children.last()) == Some("where"@),
        zip_spec(e) is Ok,
    ensures
        zip_spec(e.children.last()) is Ok,
        zip_spec(e.children.last())->Ok_0.len() <= zip_spec(e)->Ok_0.len(),
        zip_spec(e)->Ok_0.skip(
            zip_spec(e)->Ok_0.len() - zip_spec(e.children.last())->Ok_0.len(),
        ) == zip_spec(e.children.last())->Ok_0,
{
    let body = e.children.drop_last();
    assert(child_frags_spec(body) is Ok);
    let items = child_frags_spec(body)->Ok_0;
    let paired = interleave(e.content, items);
    let with_tail = if e.content.len() > items.len() {
        paired.push(e.content.last())
    } else {
        paired
    };
    let base = unesc_frags(with_tail);
    assert(zip_spec(e.children.last()) is Ok);
    let wf = zip_spec(e.children.last())->Ok_0;
    let whole = zip_spec(e)->Ok_0;
    assert(whole == base + wf);
    assert(whole.skip(whole.len() - wf.len()) =~= wf);
}

} // verus!

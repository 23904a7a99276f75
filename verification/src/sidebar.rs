//! The sidebar index: one section per list-closing boundary, each a heading
//! and its list items.

use vstd::prelude::*;
use vstd::string::*;

use crate::errors::Herr;
use crate::fragment::{frags_view, unesc_frag, FragView};
use crate::html_element::{elem_view, elems_view, parse_elem_spec, ElemView, HtmlElement};
use crate::text::{split_inclusive_all, split_inclusive_spec, views};

verus! {

/// A section of the sidebar: Methods, Implementations, and such.
#[derive(Debug, PartialEq)]
pub struct SidebarSection {
    pub name: String,
    pub items: Vec<String>,
}

/// The mathematical shape of a `SidebarSection`.
pub ghost struct SidebarSectionView {
    pub name: Seq<char>,
    pub items: Seq<Seq<char>>,
}

impl View for SidebarSection {
    type V = SidebarSectionView;

    open spec fn view(&self) -> SidebarSectionView {
        SidebarSectionView { name: self.name@, items: views(self.items@) }
    }
}

/// The full sidebar of a page.
#[derive(Debug, PartialEq)]
pub struct Sidebar(pub Vec<SidebarSection>);

pub open spec fn sidebar_secs_view(v: Seq<SidebarSection>) -> Seq<SidebarSectionView> {
    Seq::new(v.len(), |i: int| v[i]@)
}

impl View for Sidebar {
    type V = Seq<SidebarSectionView>;

    open spec fn view(&self) -> Seq<SidebarSectionView> {
        sidebar_secs_view(self.0@)
    }
}

/// One list item's string: the first nested link's text, entity-unescaped;
/// an item lacking that nested link is the empty string.
pub open spec fn sidebar_item_spec(li: ElemView) -> Result<Seq<char>, Herr> {
    if li.children.len() == 0 {
        Ok(Seq::<char>::empty())
    } else {
        let a = li.children[0];
        if a.content.len() == 0 {
            Err(Herr::EmptyExpectedContent)
        } else {
            match unesc_frag(a.content[0]) {
                FragView::Raw(t) => Ok(t),
                _ => Err(Herr::EmptyExpectedContent),
            }
        }
    }
}

pub open spec fn sidebar_items_spec(lis: Seq<ElemView>) -> Result<Seq<Seq<char>>, Herr>
    decreases lis.len(),
{
    if lis.len() == 0 {
        Ok(Seq::empty())
    } else {
        match sidebar_item_spec(lis[0]) {
            Err(e) => Err(e),
            Ok(t) => match sidebar_items_spec(lis.drop_first()) {
                Err(e) => Err(e),
                Ok(rest) => Ok(seq![t] + rest),
            },
        }
    }
}

/// One sidebar section: the heading text before the list is the name, the
/// list's items follow.
pub open spec fn sidebar_section_spec(chunk: Seq<char>) -> Result<SidebarSectionView, Herr> {
    let pieces = split_inclusive_spec(chunk, "</h3>"@);
    if pieces.len() == 0 {
        Err(Herr::MissingAnchor)
    } else {
        match parse_elem_spec(pieces[0]) {
            Err(e) => Err(e),
            Ok(hp) => {
                if hp.0.children.len() == 0 {
                    Err(Herr::EmptyExpectedContent)
                } else {
                    let a = hp.0.children[0];
                    if a.content.len() == 0 {
                        Err(Herr::EmptyExpectedContent)
                    } else {
                        match a.content[0] {
                            FragView::Raw(nm) => {
                                if pieces.len() > 1 {
                                    match parse_elem_spec(pieces[1]) {
                                        Err(e) => Err(e),
                                        Ok(lp) => match sidebar_items_spec(lp.0.children) {
                                            Err(e) => Err(e),
                                            Ok(items) => Ok(
                                                SidebarSectionView { name: nm, items },
                                            ),
                                        },
                                    }
                                } else {
                                    Ok(SidebarSectionView { name: nm, items: Seq::empty() })
                                }
                            },
                            _ => Err(Herr::EmptyExpectedContent),
                        }
                    }
                }
            },
        }
    }
}

pub open spec fn sidebar_sections_spec(chunks: Seq<Seq<char>>) -> Result<
    Seq<SidebarSectionView>,
    Herr,
>
    decreases chunks.len(),
{
    if chunks.len() == 0 {
        Ok(Seq::empty())
    } else {
        match sidebar_section_spec(chunks[0]) {
            Err(e) => Err(e),
            Ok(sec) => match sidebar_sections_spec(chunks.drop_first()) {
                Err(e) => Err(e),
                Ok(rest) => Ok(seq![sec] + rest),
            },
        }
    }
}

/// What parsing the sidebar region yields: one section per list-closing
/// boundary.
pub open spec fn sidebar_spec(s: Seq<char>) -> Result<Seq<SidebarSectionView>, Herr> {
    sidebar_sections_spec(split_inclusive_spec(s, "</ul>"@))
}

/// The items of one list element.
fn parse_sidebar_items(list: &HtmlElement) -> (r: Result<Vec<String>, Herr>)
    ensures
        match r {
            Ok(v) => sidebar_items_spec(list@.children) == Ok::<Seq<Seq<char>>, Herr>(views(v@)),
            Err(e) => sidebar_items_spec(list@.children) == Err::<Seq<Seq<char>>, Herr>(e),
        },
{
    broadcast use {crate::fragment::lemma_frags_view, crate::html_element::lemma_elems_view};

    let ghost lis = list@.children;
    proof {
        assert(lis == elems_view(list.inner_elements@));
        assert(lis.skip(0) =~= lis);
    }
    let n = list.inner_elements.len();
    let mut out: Vec<String> = Vec::new();
    let mut j: usize = 0;
    proof {
        assert(views(out@) =~= Seq::<Seq<char>>::empty());
    }
    while j < n
        invariant
            lis == list@.children,
            lis == elems_view(list.inner_elements@),
            n == list.inner_elements@.len(),
            n == lis.len(),
            forall|k: int| 0 <= k < n ==> lis[k] == elem_view(list.inner_elements@[k]),
            j <= n,
            match sidebar_items_spec(lis.skip(j as int)) {
                Ok(rest) => sidebar_items_spec(lis) == Ok::<Seq<Seq<char>>, Herr>(
                    views(out@) + rest,
                ),
                Err(e) => sidebar_items_spec(lis) == Err::<Seq<Seq<char>>, Herr>(e),
            },
        decreases n - j,
    {
        let ghost old_out = out@;
        proof {
            assert(lis.skip(j as int)[0] == lis[j as int]);
            assert(lis.skip(j as int).drop_first() =~= lis.skip(j + 1));
        }
        let li = &list.inner_elements[j];
        proof {
            assert(li@.children == elems_view(li.inner_elements@));
        }
        let item: String;
        if li.inner_elements.len() == 0 {
            item = String::new();
        } else {
            let a = &li.inner_elements[0];
            proof {
                crate::html_element::lemma_elems_view(li.inner_elements@);
                assert(li@.children[0] == a@);
                assert(a@.content == frags_view(a.content@));
                crate::fragment::lemma_frags_view(a.content@);
            }
            if a.content.len() == 0 {
                return Err(Herr::EmptyExpectedContent);
            }
            let f = a.content[0].un_escape_content();
            match f.raw_content() {
                Some(t) => {
                    item = String::from_str(t);
                },
                None => {
                    return Err(Herr::EmptyExpectedContent);
                },
            }
        }
        let ghost iv = item@;
        out.push(item);
        proof {
            assert(views(out@) =~= views(old_out).push(iv));
            if sidebar_items_spec(lis.skip(j + 1)) is Ok {
                let rest = sidebar_items_spec(lis.skip(j + 1))->Ok_0;
                assert(views(old_out) + (seq![iv] + rest) =~= views(out@) + rest);
            }
        }
        j = j + 1;
    }
    proof {
        assert(lis.skip(n as int) =~= Seq::<ElemView>::empty());
        assert(views(out@) + Seq::<Seq<char>>::empty() =~= views(out@));
    }
    Ok(out)
}

/// One sidebar section out of one chunk.
fn parse_sidebar_section(chunk: &str) -> (r: Result<SidebarSection, Herr>)
    ensures
        match r {
            Ok(sec) => sidebar_section_spec(chunk@) == Ok::<SidebarSectionView, Herr>(sec@),
            Err(e) => sidebar_section_spec(chunk@) == Err::<SidebarSectionView, Herr>(e),
        },
{
    broadcast use {crate::fragment::lemma_frags_view, crate::html_element::lemma_elems_view};

    proof {
        reveal_strlit("</h3>");
    }
    let pieces = split_inclusive_all(chunk, "</h3>");
    if pieces.len() == 0 {
        return Err(Herr::MissingAnchor);
    }
    proof {
        assert(views(pieces@)[0] == pieces@[0]@);
    }
    match HtmlElement::parse(pieces[0].as_str()) {
        Err(e) => Err(e),
        Ok(hp) => {
            let heading = hp.0;
            proof {
                assert(heading@.children == elems_view(heading.inner_elements@));
            }
            if heading.inner_elements.len() == 0 {
                return Err(Herr::EmptyExpectedContent);
            }
            let a = &heading.inner_elements[0];
            proof {
                crate::html_element::lemma_elems_view(heading.inner_elements@);
                assert(heading@.children[0] == a@);
                assert(a@.content == frags_view(a.content@));
                crate::fragment::lemma_frags_view(a.content@);
            }
            if a.content.len() == 0 {
                return Err(Herr::EmptyExpectedContent);
            }
            match a.content[0].raw_content() {
                None => Err(Herr::EmptyExpectedContent),
                Some(nm) => {
                    let name = String::from_str(nm);
                    if pieces.len() > 1 {
                        proof {
                            assert(views(pieces@)[1] == pieces@[1]@);
                        }
                        match HtmlElement::parse(pieces[1].as_str()) {
                            Err(e) => Err(e),
                            Ok(lp) => match parse_sidebar_items(&lp.0) {
                                Err(e) => Err(e),
                                Ok(items) => Ok(SidebarSection { name, items }),
                            },
                        }
                    } else {
                        proof {
                            assert(views(Seq::<String>::empty()) =~= Seq::<Seq<char>>::empty());
                        }
                        Ok(SidebarSection { name, items: Vec::new() })
                    }
                },
            }
        },
    }
}

impl Sidebar {
    /// Parses the full sidebar of a page.
    pub fn parse(content: &str) -> (r: Result<Sidebar, Herr>)
        ensures
            match r {
                Ok(sb) => sidebar_spec(content@) == Ok::<Seq<SidebarSectionView>, Herr>(sb@),
                Err(e) => sidebar_spec(content@) == Err::<Seq<SidebarSectionView>, Herr>(e),
            },
    {
        proof {
            reveal_strlit("</ul>");
        }
        let chunk_vec = split_inclusive_all(content, "</ul>");
        let ghost chunks = views(chunk_vec@);
        let mut sections: Vec<SidebarSection> = Vec::new();
        let mut i: usize = 0;
        proof {
            assert(chunks.skip(0) =~= chunks);
            assert(sidebar_secs_view(sections@) =~= Seq::<SidebarSectionView>::empty());
        }
        while i < chunk_vec.len()
            invariant
                chunks == split_inclusive_spec(content@, "</ul>"@),
                chunks == views(chunk_vec@),
                chunk_vec@.len() == chunks.len(),
                i <= chunks.len(),
                match sidebar_sections_spec(chunks.skip(i as int)) {
                    Ok(rest) => sidebar_sections_spec(chunks) == Ok::<
                        Seq<SidebarSectionView>,
                        Herr,
                    >(sidebar_secs_view(sections@) + rest),
                    Err(e) => sidebar_sections_spec(chunks) == Err::<
                        Seq<SidebarSectionView>,
                        Herr,
                    >(e),
                },
            decreases chunks.len() - i,
        {
            let ghost old_secs = sections@;
            proof {
                assert(chunks.skip(i as int)[0] == chunks[i as int]);
                assert(chunks.skip(i as int).drop_first() =~= chunks.skip(i + 1));
            }
            match parse_sidebar_section(chunk_vec[i].as_str()) {
                Err(e) => {
                    return Err(e);
                },
                Ok(sec) => {
                    let ghost sv = sec@;
                    sections.push(sec);
                    proof {
                        assert(sidebar_secs_view(sections@) =~= sidebar_secs_view(old_secs).push(
                            sv,
                        ));
                        if sidebar_sections_spec(chunks.skip(i + 1)) is Ok {
                            let rest = sidebar_sections_spec(chunks.skip(i + 1))->Ok_0;
                            assert(sidebar_secs_view(old_secs) + (seq![sv] + rest)
                                =~= sidebar_secs_view(sections@) + rest);
                        }
                    }
                },
            }
            i = i + 1;
        }
        proof {
            assert(chunks.skip(chunks.len() as int) =~= Seq::<Seq<char>>::empty());
            assert(sidebar_secs_view(sections@) + Seq::<SidebarSectionView>::empty()
                =~= sidebar_secs_view(sections@));
        }
        Ok(Sidebar(sections))
    }
}

} // verus!

//! Method descriptions: an introduction and a run of named subsections,
//! each an alternating run of paragraphs and code blocks.

use vstd::prelude::*;
use vstd::string::*;

use crate::errors::Herr;
use crate::fragment::{
    frag_view, frags_view, lemma_frags_view, lemma_frags_view_concat, FragView, Fragment,
};
use crate::html_element::{extract_spec, parse_elem_spec, zip_code_spec, zip_spec, HtmlElement};
use crate::text::{
    split_all, split_inclusive_all, split_inclusive_spec, split_once, split_once_spec, split_spec,
    trim, trim_spec, concat2,
};

verus! {

/// A description's possible subsection: Examples, Panics, and what have you.
#[derive(Debug, PartialEq)]
pub struct DescriptionSection {
    pub name: Fragment,
    pub content: Vec<Fragment>,
}

/// The mathematical shape of a `DescriptionSection`.
pub ghost struct DescSectionView {
    pub name: FragView,
    pub content: Seq<FragView>,
}

impl View for DescriptionSection {
    type V = DescSectionView;

    open spec fn view(&self) -> DescSectionView {
        DescSectionView { name: frag_view(self.name), content: frags_view(self.content@) }
    }
}

/// A method description: a couple of paragraphs, or entire subsections.
#[derive(Debug, PartialEq)]
pub struct Description {
    pub introduction: Vec<Fragment>,
    pub sections: Vec<DescriptionSection>,
}

/// The mathematical shape of a `Description`.
pub ghost struct DescriptionView {
    pub introduction: Seq<FragView>,
    pub sections: Seq<DescSectionView>,
}

pub open spec fn desc_secs_view(v: Seq<DescriptionSection>) -> Seq<DescSectionView> {
    Seq::new(v.len(), |i: int| v[i]@)
}

impl View for Description {
    type V = DescriptionView;

    open spec fn view(&self) -> DescriptionView {
        DescriptionView {
            introduction: frags_view(self.introduction@),
            sections: desc_secs_view(self.sections@),
        }
    }
}

/// The alternating run of paragraphs and code blocks that makes up a
/// subsection body: the second character of the trimmed remainder decides
/// (`p` a paragraph, `d` an enclosing code block), anything else stops the
/// run.  The `arbitrary()` branches guard termination and are unreachable.
pub open spec fn desc_items_spec(s: Seq<char>) -> Result<Seq<FragView>, Herr>
    decreases s.len(),
{
    let t = trim_spec(s);
    if t.len() < 2 {
        Ok(Seq::empty())
    } else if t[1] == 'p' {
        match split_once_spec(s, "</p>"@) {
            None => Err(Herr::MissingAnchor),
            Some(pair) => {
                match parse_elem_spec(pair.0 + "</p>"@) {
                    Err(e) => Err(e),
                    Ok(elpair) => match zip_spec(elpair.0) {
                        Err(e) => Err(e),
                        Ok(fs) => {
                            if pair.1.len() < s.len() {
                                match desc_items_spec(pair.1) {
                                    Ok(rest) => Ok(fs + rest),
                                    Err(e) => Err(e),
                                }
                            } else {
                                arbitrary()
                            }
                        },
                    },
                }
            },
        }
    } else if t[1] == 'd' {
        match split_once_spec(s, "</div>"@) {
            None => Err(Herr::MissingAnchor),
            Some(pair) => {
                match extract_spec("code"@, pair.0) {
                    Err(e) => Err(e),
                    Ok(elpair) => match zip_code_spec(elpair.0) {
                        Err(e) => Err(e),
                        Ok(f) => {
                            if pair.1.len() < s.len() {
                                match desc_items_spec(pair.1) {
                                    Ok(rest) => Ok(seq![FragView::CodeBlock(Box::new(f))] + rest),
                                    Err(e) => Err(e),
                                }
                            } else {
                                arbitrary()
                            }
                        },
                    },
                }
            },
        }
    } else {
        Ok(Seq::empty())
    }
}

/// What parsing one subsection yields: the name is the first link's text
/// inside the heading, the body an alternating run of paragraphs and code
/// blocks.
pub open spec fn desc_section_spec(data: Seq<char>) -> Result<DescSectionView, Herr> {
    match split_once_spec(data, "</h5>"@) {
        None => Err(Herr::MissingAnchor),
        Some(pair) => match extract_spec("a"@, pair.0) {
            Err(e) => Err(e),
            Ok(elpair) => {
                if elpair.0.content.len() == 0 {
                    Err(Herr::EmptyExpectedContent)
                } else {
                    match desc_items_spec(pair.1) {
                        Err(e) => Err(e),
                        Ok(items) => Ok(
                            DescSectionView {
                                name: FragView::Bold(seq![elpair.0.content[0]]),
                                content: items,
                            },
                        ),
                    }
                }
            },
        },
    }
}

pub open spec fn desc_sections_spec(chunks: Seq<Seq<char>>) -> Result<Seq<DescSectionView>, Herr>
    decreases chunks.len(),
{
    if chunks.len() == 0 {
        Ok(Seq::empty())
    } else {
        match desc_section_spec(chunks[0]) {
            Err(e) => Err(e),
            Ok(sec) => match desc_sections_spec(chunks.drop_first()) {
                Err(e) => Err(e),
                Ok(rest) => Ok(seq![sec] + rest),
            },
        }
    }
}

/// The introduction's fragments: each paragraph-bounded line contributes the
/// zipped content of its first `p` element.
pub open spec fn intro_frags_spec(lines: Seq<Seq<char>>) -> Result<Seq<FragView>, Herr>
    decreases lines.len(),
{
    if lines.len() == 0 {
        Ok(Seq::empty())
    } else {
        match extract_spec("p"@, lines[0]) {
            Err(e) => Err(e),
            Ok(elpair) => match zip_spec(elpair.0) {
                Err(e) => Err(e),
                Ok(fs) => match intro_frags_spec(lines.drop_first()) {
                    Err(e) => Err(e),
                    Ok(rest) => Ok(fs + rest),
                },
            },
        }
    }
}

/// What parsing a whole description yields: everything before the first
/// sub-heading marker is the introduction, everything after is one chunk per
/// further occurrence of the marker.
pub open spec fn description_spec(s: Seq<char>) -> Result<DescriptionView, Herr> {
    let split = match split_once_spec(s, "<h5"@) {
        Some(pair) => (pair.0, split_spec(pair.1, "<h5"@)),
        None => (s, Seq::<Seq<char>>::empty()),
    };
    match desc_sections_spec(split.1) {
        Err(e) => Err(e),
        Ok(secs) => match intro_frags_spec(split_inclusive_spec(split.0, "</p>\n"@)) {
            Err(e) => Err(e),
            Ok(intro) => Ok(DescriptionView { introduction: intro, sections: secs }),
        },
    }
}

/// Parses the body of one subsection: paragraphs and code blocks in turn.
fn parse_desc_items(s: &str) -> (r: Result<Vec<Fragment>, Herr>)
    ensures
        match r {
            Ok(v) => desc_items_spec(s@) == Ok::<Seq<FragView>, Herr>(frags_view(v@)),
            Err(e) => desc_items_spec(s@) == Err::<Seq<FragView>, Herr>(e),
        },
{
    proof {
        reveal_strlit("</p>");
        reveal_strlit("</div>");
    }
    let mut out: Vec<Fragment> = Vec::new();
    let mut rest: &str = s;
    proof {
        lemma_frags_view(out@);
        assert(frags_view(out@) =~= Seq::<FragView>::empty());
    }
    loop
        invariant
            match desc_items_spec(rest@) {
                Ok(items) => desc_items_spec(s@) == Ok::<Seq<FragView>, Herr>(
                    frags_view(out@) + items,
                ),
                Err(e) => desc_items_spec(s@) == Err::<Seq<FragView>, Herr>(e),
            },
        decreases rest@.len(),
    {
        let ghost old_out = out@;
        let ghost old_rest = rest@;
        proof {
            reveal_strlit("</p>");
            reveal_strlit("</div>");
        }
        let t = trim(rest);
        if t.unicode_len() < 2 {
            proof {
                assert(frags_view(out@) + Seq::<FragView>::empty() =~= frags_view(out@));
            }
            return Ok(out);
        }
        let c1 = t.get_char(1);
        if c1 == 'p' {
            match split_once(rest, "</p>") {
                None => {
                    return Err(Herr::MissingAnchor);
                },
                Some(pair) => {
                    let piece = concat2(pair.0, "</p>");
                    match HtmlElement::parse(piece.as_str()) {
                        Err(e) => {
                            return Err(e);
                        },
                        Ok(elpair) => match elpair.0.zip_content() {
                            Err(e) => {
                                return Err(e);
                            },
                            Ok(mut fs) => {
                                let ghost fseq = fs@;
                                let ghost fsv = frags_view(fs@);
                                out.append(&mut fs);
                                rest = pair.1;
                                proof {
                                    crate::text::lemma_find_sub_bounds(old_rest, "</p>"@, 0);
                                    lemma_frags_view_concat(old_out, fseq);
                                    assert(old_out + fseq =~= out@);
                                    if desc_items_spec(rest@) is Ok {
                                        let items = desc_items_spec(rest@)->Ok_0;
                                        assert(frags_view(old_out) + (fsv + items) =~= frags_view(
                                            out@,
                                        ) + items);
                                    }
                                }
                            },
                        },
                    }
                },
            }
        } else if c1 == 'd' {
            match split_once(rest, "</div>") {
                None => {
                    return Err(Herr::MissingAnchor);
                },
                Some(pair) => {
                    match HtmlElement::extract("code", pair.0) {
                        Err(e) => {
                            return Err(e);
                        },
                        Ok(el) => match el.zip_code() {
                            Err(e) => {
                                return Err(e);
                            },
                            Ok(f) => {
                                let ghost fv = f@;
                                out.push(Fragment::CodeBlock(f));
                                rest = pair.1;
                                proof {
                                    crate::text::lemma_find_sub_bounds(old_rest, "</div>"@, 0);
                                    lemma_frags_view(old_out);
                                    lemma_frags_view(out@);
                                    assert(frags_view(out@) =~= frags_view(old_out).push(
                                        FragView::CodeBlock(Box::new(fv)),
                                    ));
                                    if desc_items_spec(rest@) is Ok {
                                        let items = desc_items_spec(rest@)->Ok_0;
                                        assert(frags_view(old_out) + (seq![
                                            FragView::CodeBlock(Box::new(fv)),
                                        ] + items) =~= frags_view(out@) + items);
                                    }
                                }
                            },
                        },
                    }
                },
            }
        } else {
            proof {
                assert(frags_view(out@) + Seq::<FragView>::empty() =~= frags_view(out@));
            }
            return Ok(out);
        }
    }
}

impl DescriptionSection {
    /// Parses one possible subsection of a description.
    pub fn parse(data: &str) -> (r: Result<DescriptionSection, Herr>)
        ensures
            match r {
                Ok(d) => desc_section_spec(data@) == Ok::<DescSectionView, Herr>(d@),
                Err(e) => desc_section_spec(data@) == Err::<DescSectionView, Herr>(e),
            },
    {
        proof {
            reveal_strlit("</h5>");
        }
        match split_once(data, "</h5>") {
            None => Err(Herr::MissingAnchor),
            Some(pair) => match HtmlElement::extract("a", pair.0) {
                Err(e) => Err(e),
                Ok(el) => {
                    proof {
                        assert(el@.content == frags_view(el.content@));
                    }
                    if el.content.len() == 0 {
                        Err(Herr::EmptyExpectedContent)
                    } else {
                        let head = el.content[0].clone();
                        match parse_desc_items(pair.1) {
                            Err(e) => Err(e),
                            Ok(content) => {
                                let mut bold_inner: Vec<Fragment> = Vec::new();
                                bold_inner.push(head);
                                let name = Fragment::Bold(bold_inner);
                                proof {
                                    lemma_frags_view(el.content@);
                                    lemma_frags_view(name->Bold_0@);
                                    assert(frags_view(name->Bold_0@) =~= seq![el@.content[0]]);
                                }
                                Ok(DescriptionSection { name, content })
                            },
                        }
                    }
                },
            },
        }
    }
}

impl Description {
    /// Parses an up to several lines long description.
    #[verifier::rlimit(50)]
    pub fn parse(description: &str) -> (r: Result<Description, Herr>)
        ensures
            match r {
                Ok(d) => description_spec(description@) == Ok::<DescriptionView, Herr>(d@),
                Err(e) => description_spec(description@) == Err::<DescriptionView, Herr>(e),
            },
    {
        proof {
            reveal_strlit("<h5");
            reveal_strlit("</p>\n");
        }
        let (intro_text, chunk_vec): (&str, Vec<String>) = match split_once(description, "<h5") {
            Some(pair) => (pair.0, split_all(pair.1, "<h5")),
            None => (description, Vec::new()),
        };
        proof {
            if split_once_spec(description@, "<h5"@) is None {
                assert(crate::text::views(Seq::<String>::empty()) =~= Seq::<Seq<char>>::empty());
            }
        }
        let ghost chunks = crate::text::views(chunk_vec@);
        let mut sections: Vec<DescriptionSection> = Vec::new();
        let mut i: usize = 0;
        proof {
            assert(chunks.skip(0) =~= chunks);
            assert(desc_secs_view(sections@) =~= Seq::<DescSectionView>::empty());
        }
        while i < chunk_vec.len()
            invariant
                chunks == (match split_once_spec(description@, "<h5"@) {
                    Some(pair) => split_spec(pair.1, "<h5"@),
                    None => Seq::<Seq<char>>::empty(),
                }),
                intro_text@ == (match split_once_spec(description@, "<h5"@) {
                    Some(pair) => pair.0,
                    None => description@,
                }),
                chunks == crate::text::views(chunk_vec@),
                chunk_vec@.len() == chunks.len(),
                i <= chunks.len(),
                match desc_sections_spec(chunks.skip(i as int)) {
                    Ok(rest) => desc_sections_spec(chunks) == Ok::<Seq<DescSectionView>, Herr>(
                        desc_secs_view(sections@) + rest,
                    ),
                    Err(e) => desc_sections_spec(chunks) == Err::<Seq<DescSectionView>, Herr>(e),
                },
            decreases chunks.len() - i,
        {
            let ghost old_secs = sections@;
            proof {
                assert(chunks.skip(i as int)[0] == chunks[i as int]);
                assert(chunks.skip(i as int).drop_first() =~= chunks.skip(i + 1));
            }
            match DescriptionSection::parse(chunk_vec[i].as_str()) {
                Err(e) => {
                    return Err(e);
                },
                Ok(sec) => {
                    let ghost sv = sec@;
                    sections.push(sec);
                    proof {
                        assert(desc_secs_view(sections@) =~= desc_secs_view(old_secs).push(sv));
                        if desc_sections_spec(chunks.skip(i + 1)) is Ok {
                            let rest = desc_sections_spec(chunks.skip(i + 1))->Ok_0;
                            assert(desc_secs_view(old_secs) + (seq![sv] + rest) =~= desc_secs_view(
                                sections@,
                            ) + rest);
                        }
                    }
                },
            }
            i = i + 1;
        }
        proof {
            assert(chunks.skip(chunks.len() as int) =~= Seq::<Seq<char>>::empty());
            assert(desc_secs_view(sections@) + Seq::<DescSectionView>::empty() =~= desc_secs_view(
                sections@,
            ));
        }
        let line_vec = split_inclusive_all(intro_text, "</p>\n");
        let ghost lines = crate::text::views(line_vec@);
        let mut introduction: Vec<Fragment> = Vec::new();
        let mut j: usize = 0;
        proof {
            assert(lines.skip(0) =~= lines);
            lemma_frags_view(introduction@);
            assert(frags_view(introduction@) =~= Seq::<FragView>::empty());
        }
        while j < line_vec.len()
            invariant
                chunks == (match split_once_spec(description@, "<h5"@) {
                    Some(pair) => split_spec(pair.1, "<h5"@),
                    None => Seq::<Seq<char>>::empty(),
                }),
                intro_text@ == (match split_once_spec(description@, "<h5"@) {
                    Some(pair) => pair.0,
                    None => description@,
                }),
                desc_sections_spec(chunks) == Ok::<Seq<DescSectionView>, Herr>(
                    desc_secs_view(sections@),
                ),
                lines == split_inclusive_spec(intro_text@, "</p>\n"@),
                lines == crate::text::views(line_vec@),
                line_vec@.len() == lines.len(),
                j <= lines.len(),
                match intro_frags_spec(lines.skip(j as int)) {
                    Ok(rest) => intro_frags_spec(lines) == Ok::<Seq<FragView>, Herr>(
                        frags_view(introduction@) + rest,
                    ),
                    Err(e) => intro_frags_spec(lines) == Err::<Seq<FragView>, Herr>(e),
                },
            decreases lines.len() - j,
        {
            let ghost old_intro = introduction@;
            proof {
                assert(lines.skip(j as int)[0] == lines[j as int]);
                assert(lines.skip(j as int).drop_first() =~= lines.skip(j + 1));
            }
            match HtmlElement::extract("p", line_vec[j].as_str()) {
                Err(e) => {
                    return Err(e);
                },
                Ok(el) => match el.zip_content() {
                    Err(e) => {
                        return Err(e);
                    },
                    Ok(mut fs) => {
                        let ghost fseq = fs@;
                        let ghost fsv = frags_view(fs@);
                        introduction.append(&mut fs);
                        proof {
                            lemma_frags_view_concat(old_intro, fseq);
                            assert(old_intro + fseq =~= introduction@);
                            if intro_frags_spec(lines.skip(j + 1)) is Ok {
                                let rest = intro_frags_spec(lines.skip(j + 1))->Ok_0;
                                assert(frags_view(old_intro) + (fsv + rest) =~= frags_view(
                                    introduction@,
                                ) + rest);
                            }
                        }
                    },
                },
            }
            j = j + 1;
        }
        proof {
            assert(lines.skip(lines.len() as int) =~= Seq::<Seq<char>>::empty());
            assert(frags_view(introduction@) + Seq::<FragView>::empty() =~= frags_view(
                introduction@,
            ));
        }
        Ok(Description { introduction, sections })
    }
}

} // verus!

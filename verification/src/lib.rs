//! Structured extraction of generated API-documentation pages.
//!
//! The input is one HTML document in the fixed, narrow dialect produced by a
//! documentation generator.  The output is a render-agnostic document model:
//! a sidebar index, an introductory description, and a sequence of typed
//! content sections.  Every parsing step is specified and verified: each
//! executable function's result is pinned to a spec-level description of the
//! same grammar.

use vstd::prelude::*;

pub mod errors;
pub mod text;
pub mod fragment;
pub mod tag;
pub mod html_element;
pub mod description;
pub mod method;
pub mod sidebar;
pub mod main_content;

use crate::description::{description_spec, Description, DescriptionView};
use crate::errors::Herr;
use crate::fragment::{frags_view, FragView, Fragment};
use crate::html_element::{extract_spec, zip_spec, HtmlElement};
use crate::main_content::{main_content_spec, MainContent, SectionView};
use crate::sidebar::{sidebar_spec, Sidebar, SidebarSectionView};
use crate::text::{split_once, split_once_spec};

verus! {

/// A whole parsed page: the title heading, the sidebar index, the
/// introductory description, and the typed content sections.
#[derive(Debug, PartialEq)]
pub struct Page {
    pub entry: Vec<Fragment>,
    pub sidebar: Sidebar,
    pub introduction: Description,
    pub main_content: MainContent,
}

/// The mathematical shape of a `Page`.
pub ghost struct PageView {
    pub entry: Seq<FragView>,
    pub sidebar: Seq<SidebarSectionView>,
    pub introduction: DescriptionView,
    pub main_content: Seq<SectionView>,
}

impl View for Page {
    type V = PageView;

    open spec fn view(&self) -> PageView {
        PageView {
            entry: frags_view(self.entry@),
            sidebar: self.sidebar@,
            introduction: self.introduction@,
            main_content: self.main_content@,
        }
    }
}

/// What processing a whole document yields.
///
/// Four literal anchors delimit the regions: an outer `<section>` pair
/// around the sidebar, the main-content marker, a `<script` marker ending
/// the scanned region, and a trailing `</details>` separating the type's own
/// description from the sectioned content.  A missing anchor is a
/// `MissingAnchor` failure of the whole document.
pub open spec fn page_spec(html: Seq<char>) -> Result<PageView, Herr> {
    match split_once_spec(html, "<section>"@) {
        None => Err(Herr::MissingAnchor),
        Some(p1) => match split_once_spec(p1.1, "</section>"@) {
            None => Err(Herr::MissingAnchor),
            Some(p2) => match sidebar_spec(p2.0) {
                Err(e) => Err(e),
                Ok(sb) => match split_once_spec(
                    p2.1,
                    "<section id=\"main-content\" class=\"content\">"@,
                ) {
                    None => Err(Herr::MissingAnchor),
                    Some(p3) => match split_once_spec(p3.1, "<script"@) {
                        None => Err(Herr::MissingAnchor),
                        Some(p4) => match split_once_spec(p4.0, "</details>"@) {
                            None => Err(Herr::MissingAnchor),
                            Some(p5) => match extract_spec("h1"@, p5.0) {
                                Err(e) => Err(e),
                                Ok(hp) => match zip_spec(hp.0) {
                                    Err(e) => Err(e),
                                    Ok(entry) => match description_spec(p5.0) {
                                        Err(e) => Err(e),
                                        Ok(intro) => match main_content_spec(p5.1) {
                                            Err(e) => Err(e),
                                            Ok(mc) => Ok(
                                                PageView {
                                                    entry,
                                                    sidebar: sb,
                                                    introduction: intro,
                                                    main_content: mc,
                                                },
                                            ),
                                        },
                                    },
                                },
                            },
                        },
                    },
                },
            },
        },
    }
}

/// Converts an HTML document into a `Page`, as `page_spec` says.
pub fn process_html(html: &str) -> (r: Result<Page, Herr>)
    ensures
        match r {
            Ok(p) => page_spec(html@) == Ok::<PageView, Herr>(p@),
            Err(e) => page_spec(html@) == Err::<PageView, Herr>(e),
        },
{
    proof {
        reveal_strlit("<section>");
        reveal_strlit("</section>");
        reveal_strlit("<section id=\"main-content\" class=\"content\">");
        reveal_strlit("<script");
        reveal_strlit("</details>");
    }
    match split_once(html, "<section>") {
        None => Err(Herr::MissingAnchor),
        Some(p1) => match split_once(p1.1, "</section>") {
            None => Err(Herr::MissingAnchor),
            Some(p2) => match Sidebar::parse(p2.0) {
                Err(e) => Err(e),
                Ok(sb) => match split_once(
                    p2.1,
                    "<section id=\"main-content\" class=\"content\">",
                ) {
                    None => Err(Herr::MissingAnchor),
                    Some(p3) => match split_once(p3.1, "<script") {
                        None => Err(Herr::MissingAnchor),
                        Some(p4) => match split_once(p4.0, "</details>") {
                            None => Err(Herr::MissingAnchor),
                            Some(p5) => match HtmlElement::extract("h1", p5.0) {
                                Err(e) => Err(e),
                                Ok(hel) => match hel.zip_content() {
                                    Err(e) => Err(e),
                                    Ok(entry) => match Description::parse(p5.0) {
                                        Err(e) => Err(e),
                                        Ok(introduction) => match MainContent::parse(p5.1) {
                                            Err(e) => Err(e),
                                            Ok(main_content) => Ok(
                                                Page {
                                                    entry,
                                                    sidebar: sb,
                                                    introduction,
                                                    main_content,
                                                },
                                            ),
                                        },
                                    },
                                },
                            },
                        },
                    },
                },
            },
        },
    }
}

} // verus!

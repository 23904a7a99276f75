//! The main content of a page: one typed section per `<h2>`-delimited
//! region, dispatched on the heading text.

use vstd::prelude::*;
use vstd::string::*;

use crate::errors::Herr;
use crate::fragment::{frag_view, frags_view, FragView, Fragment};
use crate::html_element::{extract_spec, parse_elem_spec, zip_spec, ElemView, HtmlElement};
use crate::method::{method_spec, Method, MethodView};
use crate::text::{
    split_all, split_inclusive_all, split_inclusive_spec, split_once, split_once_spec, split_spec,
    split_terminator_all, split_terminator_spec, str_eq, trim_end_matches, trim_end_matches_spec,
    trim_start_matches, trim_start_matches_spec, views, concat2,
};

verus! {

/// A single struct field: its code heading and its description.
#[derive(Debug, PartialEq)]
pub struct Field {
    pub content: Vec<Fragment>,
    pub description: Vec<Fragment>,
}

pub ghost struct FieldView {
    pub content: Seq<FragView>,
    pub description: Seq<FragView>,
}

impl View for Field {
    type V = FieldView;

    open spec fn view(&self) -> FieldView {
        FieldView { content: frags_view(self.content@), description: frags_view(self.description@) }
    }
}

/// A single implementation block for one specific type.
#[derive(Debug, PartialEq)]
pub struct Implementation {
    pub inherent_impl: Fragment,
    pub methods: Vec<Method>,
}

pub ghost struct ImplementationView {
    pub inherent_impl: FragView,
    pub methods: Seq<MethodView>,
}

pub open spec fn methods_view(v: Seq<Method>) -> Seq<MethodView> {
    Seq::new(v.len(), |i: int| v[i]@)
}

impl View for Implementation {
    type V = ImplementationView;

    open spec fn view(&self) -> ImplementationView {
        ImplementationView {
            inherent_impl: frag_view(self.inherent_impl),
            methods: methods_view(self.methods@),
        }
    }
}

/// A single trait implementation for one specific type.
#[derive(Debug, PartialEq)]
pub struct TraitImplementation {
    pub trait_impl: Fragment,
    pub methods: Vec<Method>,
}

pub ghost struct TraitImplementationView {
    pub trait_impl: FragView,
    pub methods: Seq<MethodView>,
}

impl View for TraitImplementation {
    type V = TraitImplementationView;

    open spec fn view(&self) -> TraitImplementationView {
        TraitImplementationView {
            trait_impl: frag_view(self.trait_impl),
            methods: methods_view(self.methods@),
        }
    }
}

/// One of a trait's required associated types.
#[derive(Debug, PartialEq)]
pub struct RequiredAssociatedType {
    pub name: Fragment,
    pub description: Fragment,
}

pub ghost struct RequiredAssociatedTypeView {
    pub name: FragView,
    pub description: FragView,
}

impl View for RequiredAssociatedType {
    type V = RequiredAssociatedTypeView;

    open spec fn view(&self) -> RequiredAssociatedTypeView {
        RequiredAssociatedTypeView {
            name: frag_view(self.name),
            description: frag_view(self.description),
        }
    }
}

/// One of an enum's variants.
#[derive(Debug, PartialEq)]
pub struct Variant {
    pub name: Fragment,
    pub description: Vec<Fragment>,
}

pub ghost struct VariantView {
    pub name: FragView,
    pub description: Seq<FragView>,
}

impl View for Variant {
    type V = VariantView;

    open spec fn view(&self) -> VariantView {
        VariantView { name: frag_view(self.name), description: frags_view(self.description@) }
    }
}

/// The content of one of the main content's sections; an unrecognized
/// heading keeps its text in `Unknown` instead of failing the page.
#[derive(Debug, PartialEq)]
pub enum SectionContent {
    Fields(Vec<Field>),
    Implementations(Vec<Implementation>),
    ObjectSafety(Vec<Fragment>),
    RequiredAssociatedTypes(Vec<RequiredAssociatedType>),
    TraitImplementations(Vec<TraitImplementation>),
    Variants(Vec<Variant>),
    Unknown(String),
}

pub ghost enum SectionContentView {
    Fields(Seq<FieldView>),
    Implementations(Seq<ImplementationView>),
    ObjectSafety(Seq<FragView>),
    RequiredAssociatedTypes(Seq<RequiredAssociatedTypeView>),
    TraitImplementations(Seq<TraitImplementationView>),
    Variants(Seq<VariantView>),
    Unknown(Seq<char>),
}

pub open spec fn fields_view(v: Seq<Field>) -> Seq<FieldView> {
    Seq::new(v.len(), |i: int| v[i]@)
}

pub open spec fn impls_view(v: Seq<Implementation>) -> Seq<ImplementationView> {
    Seq::new(v.len(), |i: int| v[i]@)
}

pub open spec fn trait_impls_view(v: Seq<TraitImplementation>) -> Seq<TraitImplementationView> {
    Seq::new(v.len(), |i: int| v[i]@)
}

pub open spec fn rats_view(v: Seq<RequiredAssociatedType>) -> Seq<RequiredAssociatedTypeView> {
    Seq::new(v.len(), |i: int| v[i]@)
}

pub open spec fn variants_view(v: Seq<Variant>) -> Seq<VariantView> {
    Seq::new(v.len(), |i: int| v[i]@)
}

impl View for SectionContent {
    type V = SectionContentView;

    open spec fn view(&self) -> SectionContentView {
        match self {
            SectionContent::Fields(v) => SectionContentView::Fields(fields_view(v@)),
            SectionContent::Implementations(v) => SectionContentView::Implementations(
                impls_view(v@),
            ),
            SectionContent::ObjectSafety(v) => SectionContentView::ObjectSafety(frags_view(v@)),
            SectionContent::RequiredAssociatedTypes(v) => {
                SectionContentView::RequiredAssociatedTypes(rats_view(v@))
            },
            SectionContent::TraitImplementations(v) => SectionContentView::TraitImplementations(
                trait_impls_view(v@),
            ),
            SectionContent::Variants(v) => SectionContentView::Variants(variants_view(v@)),
            SectionContent::Unknown(s) => SectionContentView::Unknown(s@),
        }
    }
}

/// One of the main content's sections.
#[derive(Debug, PartialEq)]
pub struct Section {
    pub name: Fragment,
    pub content: SectionContent,
}

pub ghost struct SectionView {
    pub name: FragView,
    pub content: SectionContentView,
}

impl View for Section {
    type V = SectionView;

    open spec fn view(&self) -> SectionView {
        SectionView { name: frag_view(self.name), content: self.content@ }
    }
}

/// The main content of a single page.
#[derive(Debug, PartialEq)]
pub struct MainContent(pub Vec<Section>);

pub open spec fn sections_view(v: Seq<Section>) -> Seq<SectionView> {
    Seq::new(v.len(), |i: int| v[i]@)
}

impl View for MainContent {
    type V = Seq<SectionView>;

    open spec fn view(&self) -> Seq<SectionView> {
        sections_view(self.0@)
    }
}

/// One field record: the code heading before the first `</span>`, and the
/// description after it.
pub open spec fn field_spec(chunk: Seq<char>) -> Result<FieldView, Herr> {
    match split_once_spec(chunk, "</span>"@) {
        None => Err(Herr::MissingAnchor),
        Some(pair) => match extract_spec("code"@, pair.0) {
            Err(e) => Err(e),
            Ok(cp) => match zip_spec(cp.0) {
                Err(e) => Err(e),
                Ok(content) => match extract_spec("p"@, pair.1) {
                    Err(e) => Err(e),
                    Ok(pp) => match zip_spec(pp.0) {
                        Err(e) => Err(e),
                        Ok(description) => Ok(FieldView { content, description }),
                    },
                },
            },
        },
    }
}

pub open spec fn fields_list_spec(chunks: Seq<Seq<char>>) -> Result<Seq<FieldView>, Herr>
    decreases chunks.len(),
{
    if chunks.len() == 0 {
        Ok(Seq::empty())
    } else {
        match field_spec(chunks[0]) {
            Err(e) => Err(e),
            Ok(f) => match fields_list_spec(chunks.drop_first()) {
                Err(e) => Err(e),
                Ok(rest) => Ok(seq![f] + rest),
            },
        }
    }
}

/// The Fields section: one record per end-of-div boundary.
pub open spec fn fields_spec(data: Seq<char>) -> Result<Seq<FieldView>, Herr> {
    fields_list_spec(split_terminator_spec(data, "</div>"@))
}

/// The methods of one implementation block, one per occurrence of the given
/// marker after the first.
pub open spec fn methods_spec(chunks: Seq<Seq<char>>) -> Result<Seq<MethodView>, Herr>
    decreases chunks.len(),
{
    if chunks.len() == 0 {
        Ok(Seq::empty())
    } else {
        match method_spec(chunks[0]) {
            Err(e) => Err(e),
            Ok(m) => match methods_spec(chunks.drop_first()) {
                Err(e) => Err(e),
                Ok(rest) => Ok(seq![m] + rest),
            },
        }
    }
}

/// One implementation block: the `<h3>` heading before `</summary>`, then
/// methods split on the given marker.
pub open spec fn impl_block_spec(chunk: Seq<char>, mmarker: Seq<char>) -> Result<
    (FragView, Seq<MethodView>),
    Herr,
> {
    match split_once_spec(chunk, "</summary>"@) {
        None => Err(Herr::MissingAnchor),
        Some(pair) => match extract_spec("h3"@, pair.0) {
            Err(e) => Err(e),
            Ok(hp) => match zip_spec(hp.0) {
                Err(e) => Err(e),
                Ok(head) => {
                    let mchunks = split_spec(
                        trim_end_matches_spec(pair.1, "</div></details>"@),
                        mmarker,
                    ).drop_first();
                    match methods_spec(mchunks) {
                        Err(e) => Err(e),
                        Ok(methods) => Ok((FragView::Bold(head), methods)),
                    }
                },
            },
        },
    }
}

pub open spec fn impls_list_spec(chunks: Seq<Seq<char>>, mmarker: Seq<char>) -> Result<
    Seq<(FragView, Seq<MethodView>)>,
    Herr,
>
    decreases chunks.len(),
{
    if chunks.len() == 0 {
        Ok(Seq::empty())
    } else {
        match impl_block_spec(chunks[0], mmarker) {
            Err(e) => Err(e),
            Ok(b) => match impls_list_spec(chunks.drop_first(), mmarker) {
                Err(e) => Err(e),
                Ok(rest) => Ok(seq![b] + rest),
            },
        }
    }
}

/// The Implementations section: one block per open implementors-toggle.
pub open spec fn implementations_spec(data: Seq<char>) -> Result<
    Seq<(FragView, Seq<MethodView>)>,
    Herr,
> {
    impls_list_spec(
        split_spec(data, "<details class=\"toggle implementors-toggle\" open>"@).drop_first(),
        "<details class=\"toggle method-toggle\" open>"@,
    )
}

/// The Blanket Implementations section: one block per closed
/// implementors-toggle.
pub open spec fn blanket_impls_spec(data: Seq<char>) -> Result<
    Seq<(FragView, Seq<MethodView>)>,
    Herr,
> {
    impls_list_spec(
        split_spec(data, "<details class=\"toggle implementors-toggle\">"@).drop_first(),
        "<details class=\"toggle method-toggle\">"@,
    )
}

/// One auto-trait record: only the `<h3>` heading, no methods.
pub open spec fn auto_traits_list_spec(chunks: Seq<Seq<char>>) -> Result<
    Seq<TraitImplementationView>,
    Herr,
>
    decreases chunks.len(),
{
    if chunks.len() == 0 {
        Ok(Seq::empty())
    } else if chunks[0] == "</div>"@ {
        auto_traits_list_spec(chunks.drop_first())
    } else {
        match extract_spec("h3"@, chunks[0]) {
            Err(e) => Err(e),
            Ok(hp) => match zip_spec(hp.0) {
                Err(e) => Err(e),
                Ok(head) => match auto_traits_list_spec(chunks.drop_first()) {
                    Err(e) => Err(e),
                    Ok(rest) => Ok(
                        seq![
                            TraitImplementationView {
                                trait_impl: FragView::Bold(head),
                                methods: Seq::empty(),
                            },
                        ] + rest,
                    ),
                },
            },
        }
    }
}

/// The Auto Trait Implementations section: one record per `</section>`
/// boundary, bare `</div>` chunks dropped.
pub open spec fn auto_traits_spec(data: Seq<char>) -> Result<Seq<TraitImplementationView>, Herr> {
    auto_traits_list_spec(split_spec(data, "</section>"@))
}

/// The method chunks of one trait-implementation block: pieces split
/// inclusively on nested `<details>` openers, bare marker pieces dropped.
pub open spec fn trait_methods_spec(pieces: Seq<Seq<char>>) -> Result<Seq<MethodView>, Herr>
    decreases pieces.len(),
{
    if pieces.len() == 0 {
        Ok(Seq::empty())
    } else if pieces[0] == "<details"@ {
        trait_methods_spec(pieces.drop_first())
    } else {
        match method_spec(pieces[0]) {
            Err(e) => Err(e),
            Ok(m) => match trait_methods_spec(pieces.drop_first()) {
                Err(e) => Err(e),
                Ok(rest) => Ok(seq![m] + rest),
            },
        }
    }
}

/// One trait-implementation record.
pub open spec fn trait_impl_spec(chunk: Seq<char>) -> Result<TraitImplementationView, Herr> {
    match extract_spec("h3"@, chunk) {
        Err(e) => Err(e),
        Ok(hp) => match zip_spec(hp.0) {
            Err(e) => Err(e),
            Ok(head) => {
                let mr = match split_once_spec(chunk, "</summary>"@) {
                    Some(pair) => trait_methods_spec(
                        split_inclusive_spec(
                            trim_start_matches_spec(pair.1, "<div class=\"impl-items\">"@),
                            "<details"@,
                        ),
                    ),
                    None => Ok(Seq::empty()),
                };
                match mr {
                    Err(e) => Err(e),
                    Ok(methods) => Ok(
                        TraitImplementationView { trait_impl: FragView::Bold(head), methods },
                    ),
                }
            },
        },
    }
}

pub open spec fn trait_impls_list_spec(chunks: Seq<Seq<char>>) -> Result<
    Seq<TraitImplementationView>,
    Herr,
>
    decreases chunks.len(),
{
    if chunks.len() == 0 {
        Ok(Seq::empty())
    } else if chunks[0] == "</div>"@ {
        trait_impls_list_spec(chunks.drop_first())
    } else {
        match trait_impl_spec(chunks[0]) {
            Err(e) => Err(e),
            Ok(t) => match trait_impls_list_spec(chunks.drop_first()) {
                Err(e) => Err(e),
                Ok(rest) => Ok(seq![t] + rest),
            },
        }
    }
}

/// The Trait Implementations section: one block per `</details>` boundary
/// after the first, bare `</div>` chunks dropped.
pub open spec fn trait_implementations_spec(data: Seq<char>) -> Result<
    Seq<TraitImplementationView>,
    Herr,
> {
    trait_impls_list_spec(split_spec(data, "</details>"@).drop_first())
}

/// The Object Safety section: the whole chunk zipped as raw fragments.
pub open spec fn object_safety_spec(data: Seq<char>) -> Result<Seq<FragView>, Herr> {
    match parse_elem_spec(data) {
        Err(e) => Err(e),
        Ok(p) => zip_spec(p.0),
    }
}

/// One required-associated-type record: the `<h4>` heading and the first
/// content fragment of the first `p` element.
pub open spec fn rat_spec(chunk: Seq<char>) -> Result<RequiredAssociatedTypeView, Herr> {
    match extract_spec("h4"@, chunk) {
        Err(e) => Err(e),
        Ok(hp) => match zip_spec(hp.0) {
            Err(e) => Err(e),
            Ok(head) => match extract_spec("p"@, chunk) {
                Err(e) => Err(e),
                Ok(pp) => {
                    if pp.0.content.len() == 0 {
                        Err(Herr::EmptyExpectedContent)
                    } else {
                        Ok(
                            RequiredAssociatedTypeView {
                                name: FragView::Bold(head),
                                description: pp.0.content[0],
                            },
                        )
                    }
                },
            },
        },
    }
}

pub open spec fn rats_list_spec(chunks: Seq<Seq<char>>) -> Result<
    Seq<RequiredAssociatedTypeView>,
    Herr,
>
    decreases chunks.len(),
{
    if chunks.len() == 0 {
        Ok(Seq::empty())
    } else {
        match rat_spec(chunks[0]) {
            Err(e) => Err(e),
            Ok(t) => match rats_list_spec(chunks.drop_first()) {
                Err(e) => Err(e),
                Ok(rest) => Ok(seq![t] + rest),
            },
        }
    }
}

/// The Required Associated Types section: one record per `</details>`
/// boundary.
pub open spec fn rats_spec(data: Seq<char>) -> Result<Seq<RequiredAssociatedTypeView>, Herr> {
    rats_list_spec(split_terminator_spec(trim_end_matches_spec(data, "</div>"@), "</details>"@))
}

/// One variant record: the `<h3>` heading and the `p` description.
pub open spec fn variant_spec(chunk: Seq<char>) -> Result<VariantView, Herr> {
    match extract_spec("h3"@, chunk) {
        Err(e) => Err(e),
        Ok(hp) => match zip_spec(hp.0) {
            Err(e) => Err(e),
            Ok(head) => match extract_spec("p"@, chunk) {
                Err(e) => Err(e),
                Ok(pp) => match zip_spec(pp.0) {
                    Err(e) => Err(e),
                    Ok(description) => Ok(
                        VariantView { name: FragView::Bold(head), description },
                    ),
                },
            },
        },
    }
}

pub open spec fn variants_list_spec(chunks: Seq<Seq<char>>) -> Result<Seq<VariantView>, Herr>
    decreases chunks.len(),
{
    if chunks.len() == 0 {
        Ok(Seq::empty())
    } else {
        match variant_spec(chunks[0]) {
            Err(e) => Err(e),
            Ok(t) => match variants_list_spec(chunks.drop_first()) {
                Err(e) => Err(e),
                Ok(rest) => Ok(seq![t] + rest),
            },
        }
    }
}

/// The Variants section: one record per `</a>` boundary after the first.
pub open spec fn variants_spec(data: Seq<char>) -> Result<Seq<VariantView>, Herr> {
    variants_list_spec(split_spec(data, "</a>"@).drop_first())
}

pub open spec fn pairs_to_impls(ps: Seq<(FragView, Seq<MethodView>)>) -> Seq<ImplementationView> {
    Seq::new(ps.len(), |i: int| ImplementationView { inherent_impl: ps[i].0, methods: ps[i].1 })
}

pub open spec fn pairs_to_trait_impls(ps: Seq<(FragView, Seq<MethodView>)>) -> Seq<
    TraitImplementationView,
> {
    Seq::new(ps.len(), |i: int| TraitImplementationView { trait_impl: ps[i].0, methods: ps[i].1 })
}

/// How a recognized heading picks its parser; an unrecognized heading keeps
/// its text as an `Unknown` record instead of failing.
pub open spec fn section_content_spec(name: Seq<char>, body: Seq<char>) -> Result<
    SectionContentView,
    Herr,
> {
    if name == "Fields"@ || name == "Tuple Fields"@ {
        match fields_spec(body) {
            Err(e) => Err(e),
            Ok(v) => Ok(SectionContentView::Fields(v)),
        }
    } else if name == "Implementations"@ {
        match implementations_spec(body) {
            Err(e) => Err(e),
            Ok(ps) => Ok(SectionContentView::Implementations(pairs_to_impls(ps))),
        }
    } else if name == "Auto Trait Implementations"@ {
        match auto_traits_spec(body) {
            Err(e) => Err(e),
            Ok(v) => Ok(SectionContentView::TraitImplementations(v)),
        }
    } else if name == "Blanket Implementations"@ {
        match blanket_impls_spec(body) {
            Err(e) => Err(e),
            Ok(ps) => Ok(SectionContentView::TraitImplementations(pairs_to_trait_impls(ps))),
        }
    } else if name == "Trait Implementations"@ {
        match trait_implementations_spec(body) {
            Err(e) => Err(e),
            Ok(v) => Ok(SectionContentView::TraitImplementations(v)),
        }
    } else if name == "Object Safety"@ {
        match object_safety_spec(body) {
            Err(e) => Err(e),
            Ok(v) => Ok(SectionContentView::ObjectSafety(v)),
        }
    } else if name == "Required Associated Types"@ {
        match rats_spec(body) {
            Err(e) => Err(e),
            Ok(v) => Ok(SectionContentView::RequiredAssociatedTypes(v)),
        }
    } else if name == "Variants"@ {
        match variants_spec(body) {
            Err(e) => Err(e),
            Ok(v) => Ok(SectionContentView::Variants(v)),
        }
    } else {
        Ok(SectionContentView::Unknown(name))
    }
}

/// One `<h2>`-delimited region: the heading's text run names the section,
/// the text after `</h2>` is its body.
#[verifier::opaque]
pub open spec fn section_spec(sec: Seq<char>) -> Result<SectionView, Herr> {
    let pieces = split_inclusive_spec(sec, "</h2>"@);
    if pieces.len() < 2 {
        Err(Herr::MissingAnchor)
    } else {
        match parse_elem_spec(pieces[0]) {
            Err(e) => Err(e),
            Ok(hp) => {
                if hp.0.content.len() == 0 {
                    Err(Herr::EmptyExpectedContent)
                } else {
                    match hp.0.content[0] {
                        FragView::Raw(name) => {
                            match section_content_spec(name, pieces[1]) {
                                Err(e) => Err(e),
                                Ok(c) => Ok(
                                    SectionView {
                                        name: FragView::Bold(seq![FragView::Raw(name)]),
                                        content: c,
                                    },
                                ),
                            }
                        },
                        _ => Err(Herr::EmptyExpectedContent),
                    }
                }
            },
        }
    }
}

pub open spec fn sections_spec(chunks: Seq<Seq<char>>) -> Result<Seq<SectionView>, Herr>
    decreases chunks.len(),
{
    if chunks.len() == 0 {
        Ok(Seq::empty())
    } else {
        match section_spec("<h2"@ + chunks[0]) {
            Err(e) => Err(e),
            Ok(sec) => match sections_spec(chunks.drop_first()) {
                Err(e) => Err(e),
                Ok(rest) => Ok(seq![sec] + rest),
            },
        }
    }
}

/// What parsing the whole main-content body yields: one typed section per
/// `<h2>` marker.
pub open spec fn main_content_spec(raw: Seq<char>) -> Result<Seq<SectionView>, Herr> {
    sections_spec(split_spec(raw, "<h2"@).drop_first())
}

/// One field record out of one chunk.
fn parse_field(chunk: &str) -> (r: Result<Field, Herr>)
    ensures
        match r {
            Ok(f) => field_spec(chunk@) == Ok::<FieldView, Herr>(f@),
            Err(e) => field_spec(chunk@) == Err::<FieldView, Herr>(e),
        },
{
    proof {
        reveal_strlit("</span>");
    }
    match split_once(chunk, "</span>") {
        None => Err(Herr::MissingAnchor),
        Some(pair) => match HtmlElement::extract("code", pair.0) {
            Err(e) => Err(e),
            Ok(cel) => match cel.zip_content() {
                Err(e) => Err(e),
                Ok(content) => match HtmlElement::extract("p", pair.1) {
                    Err(e) => Err(e),
                    Ok(pel) => match pel.zip_content() {
                        Err(e) => Err(e),
                        Ok(description) => Ok(Field { content, description }),
                    },
                },
            },
        },
    }
}

/// One implementation block: heading plus methods split on `mmarker`.
fn parse_impl_block(chunk: &str, mmarker: &str) -> (r: Result<(Fragment, Vec<Method>), Herr>)
    requires
        mmarker@.len() >= 1,
    ensures
        match r {
            Ok(b) => impl_block_spec(chunk@, mmarker@) == Ok::<(FragView, Seq<MethodView>), Herr>(
                (b.0@, methods_view(b.1@)),
            ),
            Err(e) => impl_block_spec(chunk@, mmarker@) == Err::<
                (FragView, Seq<MethodView>),
                Herr,
            >(e),
        },
{
    proof {
        reveal_strlit("</summary>");
        reveal_strlit("</div></details>");
    }
    match split_once(chunk, "</summary>") {
        None => Err(Herr::MissingAnchor),
        Some(pair) => match HtmlElement::extract("h3", pair.0) {
            Err(e) => Err(e),
            Ok(hel) => match hel.zip_content() {
                Err(e) => Err(e),
                Ok(head) => {
                    let trimmed = trim_end_matches(pair.1, "</div></details>");
                    let mv = split_all(trimmed, mmarker);
                    let ghost full = views(mv@);
                    let ghost mchunks = full.drop_first();
                    proof {
                        crate::text::lemma_split_spec_len(trimmed@, mmarker@);
                        assert(full.drop_first() =~= full.skip(1));
                    }
                    let ghost headv = frags_view(head@);
                    let mut methods: Vec<Method> = Vec::new();
                    let mut i: usize = 1;
                    proof {
                        assert(methods_view(methods@) =~= Seq::<MethodView>::empty());
                    }
                    while i < mv.len()
                        invariant
                            impl_block_spec(chunk@, mmarker@) == (match methods_spec(mchunks) {
                                Err(e) => Err::<(FragView, Seq<MethodView>), Herr>(e),
                                Ok(ms) => Ok::<(FragView, Seq<MethodView>), Herr>(
                                    (FragView::Bold(headv), ms),
                                ),
                            }),
                            headv == frags_view(head@),
                            full == views(mv@),
                            mchunks == full.skip(1),
                            mv@.len() == full.len(),
                            full.len() >= 1,
                            1 <= i <= full.len(),
                            match methods_spec(full.skip(i as int)) {
                                Ok(rest) => methods_spec(mchunks) == Ok::<Seq<MethodView>, Herr>(
                                    methods_view(methods@) + rest,
                                ),
                                Err(e) => methods_spec(mchunks) == Err::<Seq<MethodView>, Herr>(e),
                            },
                        decreases full.len() - i,
                    {
                        let ghost old_ms = methods@;
                        proof {
                            assert(full.skip(i as int)[0] == full[i as int]);
                            assert(full.skip(i as int).drop_first() =~= full.skip(i + 1));
                        }
                        match Method::parse(mv[i].as_str()) {
                            Err(e) => {
                                return Err(e);
                            },
                            Ok(m) => {
                                let ghost mvw = m@;
                                methods.push(m);
                                proof {
                                    assert(methods_view(methods@) =~= methods_view(old_ms).push(
                                        mvw,
                                    ));
                                    if methods_spec(full.skip(i + 1)) is Ok {
                                        let rest = methods_spec(full.skip(i + 1))->Ok_0;
                                        assert(methods_view(old_ms) + (seq![mvw] + rest)
                                            =~= methods_view(methods@) + rest);
                                    }
                                }
                            },
                        }
                        i = i + 1;
                    }
                    proof {
                        assert(full.skip(full.len() as int) =~= Seq::<Seq<char>>::empty());
                        assert(methods_view(methods@) + Seq::<MethodView>::empty() =~= methods_view(
                            methods@,
                        ));
                    }
                    let mut hv = head;
                    let ghost hseq = hv@;
                    let mut bold_inner: Vec<Fragment> = Vec::new();
                    bold_inner.append(&mut hv);
                    proof {
                        assert(bold_inner@ =~= hseq);
                    }
                    let name = Fragment::Bold(bold_inner);
                    Ok((name, methods))
                },
            },
        },
    }
}

/// One trait-implementation record out of one chunk.
#[verifier::rlimit(60)]
fn parse_trait_impl(chunk: &str) -> (r: Result<TraitImplementation, Herr>)
    ensures
        match r {
            Ok(t) => trait_impl_spec(chunk@) == Ok::<TraitImplementationView, Herr>(t@),
            Err(e) => trait_impl_spec(chunk@) == Err::<TraitImplementationView, Herr>(e),
        },
{
    proof {
        reveal_strlit("</summary>");
        reveal_strlit("<div class=\"impl-items\">");
        reveal_strlit("<details");
    }
    match HtmlElement::extract("h3", chunk) {
        Err(e) => Err(e),
        Ok(hel) => match hel.zip_content() {
            Err(e) => Err(e),
            Ok(head) => {
                let mut methods: Vec<Method> = Vec::new();
                proof {
                    assert(methods_view(methods@) =~= Seq::<MethodView>::empty());
                }
                match split_once(chunk, "</summary>") {
                    None => {
                        let mut hv = head;
                        let ghost hseq = hv@;
                        let mut bold_inner: Vec<Fragment> = Vec::new();
                        bold_inner.append(&mut hv);
                        proof {
                            assert(bold_inner@ =~= hseq);
                        }
                        Ok(
                            TraitImplementation {
                                trait_impl: Fragment::Bold(bold_inner),
                                methods,
                            },
                        )
                    },
                    Some(pair) => {
                        let body = trim_start_matches(pair.1, "<div class=\"impl-items\">");
                        let pv = split_inclusive_all(body, "<details");
                        let ghost pieces = views(pv@);
                        let ghost headv = frags_view(head@);
                        let mut i: usize = 0;
                        proof {
                            assert(pieces.skip(0) =~= pieces);
                        }
                        while i < pv.len()
                            invariant
                                trait_impl_spec(chunk@) == (match trait_methods_spec(pieces) {
                                    Err(e) => Err::<TraitImplementationView, Herr>(e),
                                    Ok(ms) => Ok::<TraitImplementationView, Herr>(
                                        TraitImplementationView {
                                            trait_impl: FragView::Bold(headv),
                                            methods: ms,
                                        },
                                    ),
                                }),
                                headv == frags_view(head@),
                                pieces == views(pv@),
                                pv@.len() == pieces.len(),
                                i <= pieces.len(),
                                match trait_methods_spec(pieces.skip(i as int)) {
                                    Ok(rest) => trait_methods_spec(pieces) == Ok::<
                                        Seq<MethodView>,
                                        Herr,
                                    >(methods_view(methods@) + rest),
                                    Err(e) => trait_methods_spec(pieces) == Err::<
                                        Seq<MethodView>,
                                        Herr,
                                    >(e),
                                },
                            decreases pieces.len() - i,
                        {
                            let ghost old_ms = methods@;
                            proof {
                                reveal_strlit("<details");
                                assert(pieces.skip(i as int)[0] == pieces[i as int]);
                                assert(pieces.skip(i as int).drop_first() =~= pieces.skip(i + 1));
                            }
                            if !str_eq(pv[i].as_str(), "<details") {
                                match Method::parse(pv[i].as_str()) {
                                    Err(e) => {
                                        return Err(e);
                                    },
                                    Ok(m) => {
                                        let ghost mvw = m@;
                                        methods.push(m);
                                        proof {
                                            assert(methods_view(methods@) =~= methods_view(old_ms)
                                                .push(mvw));
                                            if trait_methods_spec(pieces.skip(i + 1)) is Ok {
                                                let rest = trait_methods_spec(
                                                    pieces.skip(i + 1),
                                                )->Ok_0;
                                                assert(methods_view(old_ms) + (seq![mvw] + rest)
                                                    =~= methods_view(methods@) + rest);
                                            }
                                        }
                                    },
                                }
                            }
                            i = i + 1;
                        }
                        proof {
                            assert(pieces.skip(pieces.len() as int) =~= Seq::<Seq<char>>::empty());
                            assert(methods_view(methods@) + Seq::<MethodView>::empty()
                                =~= methods_view(methods@));
                        }
                        let mut hv = head;
                        let ghost hseq = hv@;
                        let mut bold_inner: Vec<Fragment> = Vec::new();
                        bold_inner.append(&mut hv);
                        proof {
                            assert(bold_inner@ =~= hseq);
                        }
                        Ok(
                            TraitImplementation {
                                trait_impl: Fragment::Bold(bold_inner),
                                methods,
                            },
                        )
                    },
                }
            },
        },
    }
}

/// One required-associated-type record out of one chunk.
fn parse_rat(chunk: &str) -> (r: Result<RequiredAssociatedType, Herr>)
    ensures
        match r {
            Ok(t) => rat_spec(chunk@) == Ok::<RequiredAssociatedTypeView, Herr>(t@),
            Err(e) => rat_spec(chunk@) == Err::<RequiredAssociatedTypeView, Herr>(e),
        },
{
    match HtmlElement::extract("h4", chunk) {
        Err(e) => Err(e),
        Ok(hel) => match hel.zip_content() {
            Err(e) => Err(e),
            Ok(head) => match HtmlElement::extract("p", chunk) {
                Err(e) => Err(e),
                Ok(pel) => {
                    proof {
                        assert(pel@.content == frags_view(pel.content@));
                        crate::fragment::lemma_frags_view(pel.content@);
                    }
                    if pel.content.len() == 0 {
                        Err(Herr::EmptyExpectedContent)
                    } else {
                        let description = pel.content[0].clone();
                        let mut hv = head;
                        let ghost hseq = hv@;
                        let mut bold_inner: Vec<Fragment> = Vec::new();
                        bold_inner.append(&mut hv);
                        proof {
                            assert(bold_inner@ =~= hseq);
                        }
                        Ok(
                            RequiredAssociatedType {
                                name: Fragment::Bold(bold_inner),
                                description,
                            },
                        )
                    }
                },
            },
        },
    }
}

/// One variant record out of one chunk.
fn parse_variant(chunk: &str) -> (r: Result<Variant, Herr>)
    ensures
        match r {
            Ok(t) => variant_spec(chunk@) == Ok::<VariantView, Herr>(t@),
            Err(e) => variant_spec(chunk@) == Err::<VariantView, Herr>(e),
        },
{
    match HtmlElement::extract("h3", chunk) {
        Err(e) => Err(e),
        Ok(hel) => match hel.zip_content() {
            Err(e) => Err(e),
            Ok(head) => match HtmlElement::extract("p", chunk) {
                Err(e) => Err(e),
                Ok(pel) => match pel.zip_content() {
                    Err(e) => Err(e),
                    Ok(description) => {
                        let mut hv = head;
                        let ghost hseq = hv@;
                        let mut bold_inner: Vec<Fragment> = Vec::new();
                        bold_inner.append(&mut hv);
                        proof {
                            assert(bold_inner@ =~= hseq);
                        }
                        Ok(Variant { name: Fragment::Bold(bold_inner), description })
                    },
                },
            },
        },
    }
}

/// The pair shape that the implementation-list specifications use.
pub open spec fn impl_pairs_of(v: Seq<Implementation>) -> Seq<(FragView, Seq<MethodView>)> {
    Seq::new(v.len(), |i: int| (v[i]@.inherent_impl, v[i]@.methods))
}

pub open spec fn trait_pairs_of(v: Seq<TraitImplementation>) -> Seq<(FragView, Seq<MethodView>)> {
    Seq::new(v.len(), |i: int| (v[i]@.trait_impl, v[i]@.methods))
}

impl SectionContent {
    /// Parses the fields of a struct, be they named or tuple fields.
    pub fn parse_fields(data: &str) -> (r: Result<SectionContent, Herr>)
        ensures
            match r {
                Ok(sc) => fields_spec(data@) matches Ok(v) && sc@ == SectionContentView::Fields(v),
                Err(e) => fields_spec(data@) == Err::<Seq<FieldView>, Herr>(e),
            },
    {
        proof {
            reveal_strlit("</div>");
        }
        let chunk_vec = split_terminator_all(data, "</div>");
        let ghost chunks = views(chunk_vec@);
        let mut acc: Vec<Field> = Vec::new();
        let mut i: usize = 0;
        proof {
            assert(chunks.skip(0) =~= chunks);
            assert(fields_view(acc@) =~= Seq::<FieldView>::empty());
        }
        while i < chunk_vec.len()
            invariant
                chunks == split_terminator_spec(data@, "</div>"@),
                chunks == views(chunk_vec@),
                chunk_vec@.len() == chunks.len(),
                i <= chunks.len(),
                match fields_list_spec(chunks.skip(i as int)) {
                    Ok(rest) => fields_list_spec(chunks) == Ok::<Seq<FieldView>, Herr>(
                        fields_view(acc@) + rest,
                    ),
                    Err(e) => fields_list_spec(chunks) == Err::<Seq<FieldView>, Herr>(e),
                },
            decreases chunks.len() - i,
        {
            let ghost old_acc = acc@;
            proof {
                assert(chunks.skip(i as int)[0] == chunks[i as int]);
                assert(chunks.skip(i as int).drop_first() =~= chunks.skip(i + 1));
            }
            match parse_field(chunk_vec[i].as_str()) {
                Err(e) => {
                    return Err(e);
                },
                Ok(f) => {
                    let ghost fv = f@;
                    acc.push(f);
                    proof {
                        assert(fields_view(acc@) =~= fields_view(old_acc).push(fv));
                        if fields_list_spec(chunks.skip(i + 1)) is Ok {
                            let rest = fields_list_spec(chunks.skip(i + 1))->Ok_0;
                            assert(fields_view(old_acc) + (seq![fv] + rest) =~= fields_view(acc@)
                                + rest);
                        }
                    }
                },
            }
            i = i + 1;
        }
        proof {
            assert(chunks.skip(chunks.len() as int) =~= Seq::<Seq<char>>::empty());
            assert(fields_view(acc@) + Seq::<FieldView>::empty() =~= fields_view(acc@));
        }
        Ok(SectionContent::Fields(acc))
    }

    /// Parses the Implementations section.
    pub fn parse_implementations(data: &str) -> (r: Result<SectionContent, Herr>)
        ensures
            match r {
                Ok(sc) => implementations_spec(data@) matches Ok(ps) && sc@
                    == SectionContentView::Implementations(pairs_to_impls(ps)),
                Err(e) => implementations_spec(data@) == Err::<
                    Seq<(FragView, Seq<MethodView>)>,
                    Herr,
                >(e),
            },
    {
        proof {
            reveal_strlit("<details class=\"toggle implementors-toggle\" open>");
            reveal_strlit("<details class=\"toggle method-toggle\" open>");
        }
        let chunk_vec = split_all(data, "<details class=\"toggle implementors-toggle\" open>");
        let ghost full = views(chunk_vec@);
        let ghost chunks = full.skip(1);
        proof {
            crate::text::lemma_split_spec_len(
                data@,
                "<details class=\"toggle implementors-toggle\" open>"@,
            );
            assert(full.drop_first() =~= full.skip(1));
        }
        let mut acc: Vec<Implementation> = Vec::new();
        let mut i: usize = 1;
        proof {
            assert(impl_pairs_of(acc@) =~= Seq::<(FragView, Seq<MethodView>)>::empty());
        }
        while i < chunk_vec.len()
            invariant
                implementations_spec(data@) == impls_list_spec(
                    chunks,
                    "<details class=\"toggle method-toggle\" open>"@,
                ),
                full == views(chunk_vec@),
                chunks == full.skip(1),
                chunk_vec@.len() == full.len(),
                full.len() >= 1,
                1 <= i <= full.len(),
                match impls_list_spec(
                    full.skip(i as int),
                    "<details class=\"toggle method-toggle\" open>"@,
                ) {
                    Ok(rest) => impls_list_spec(
                        chunks,
                        "<details class=\"toggle method-toggle\" open>"@,
                    ) == Ok::<Seq<(FragView, Seq<MethodView>)>, Herr>(impl_pairs_of(acc@) + rest),
                    Err(e) => impls_list_spec(
                        chunks,
                        "<details class=\"toggle method-toggle\" open>"@,
                    ) == Err::<Seq<(FragView, Seq<MethodView>)>, Herr>(e),
                },
            decreases full.len() - i,
        {
            let ghost old_acc = acc@;
            proof {
                reveal_strlit("<details class=\"toggle method-toggle\" open>");
                assert(full.skip(i as int)[0] == full[i as int]);
                assert(full.skip(i as int).drop_first() =~= full.skip(i + 1));
            }
            match parse_impl_block(
                chunk_vec[i].as_str(),
                "<details class=\"toggle method-toggle\" open>",
            ) {
                Err(e) => {
                    return Err(e);
                },
                Ok(b) => {
                    let ghost bv = (b.0@, methods_view(b.1@));
                    acc.push(Implementation { inherent_impl: b.0, methods: b.1 });
                    proof {
                        assert(impl_pairs_of(acc@) =~= impl_pairs_of(old_acc).push(bv));
                        if impls_list_spec(
                            full.skip(i + 1),
                            "<details class=\"toggle method-toggle\" open>"@,
                        ) is Ok {
                            let rest = impls_list_spec(
                                full.skip(i + 1),
                                "<details class=\"toggle method-toggle\" open>"@,
                            )->Ok_0;
                            assert(impl_pairs_of(old_acc) + (seq![bv] + rest) =~= impl_pairs_of(
                                acc@,
                            ) + rest);
                        }
                    }
                },
            }
            i = i + 1;
        }
        proof {
            assert(full.skip(full.len() as int) =~= Seq::<Seq<char>>::empty());
            assert(impl_pairs_of(acc@) + Seq::<(FragView, Seq<MethodView>)>::empty()
                =~= impl_pairs_of(acc@));
            assert(pairs_to_impls(impl_pairs_of(acc@)) =~= impls_view(acc@));
        }
        Ok(SectionContent::Implementations(acc))
    }

    /// Parses a type's blanket Trait Implementations.
    pub fn parse_blanket_implementations(data: &str) -> (r: Result<SectionContent, Herr>)
        ensures
            match r {
                Ok(sc) => blanket_impls_spec(data@) matches Ok(ps) && sc@
                    == SectionContentView::TraitImplementations(pairs_to_trait_impls(ps)),
                Err(e) => blanket_impls_spec(data@) == Err::<
                    Seq<(FragView, Seq<MethodView>)>,
                    Herr,
                >(e),
            },
    {
        proof {
            reveal_strlit("<details class=\"toggle implementors-toggle\">");
            reveal_strlit("<details class=\"toggle method-toggle\">");
        }
        let chunk_vec = split_all(data, "<details class=\"toggle implementors-toggle\">");
        let ghost full = views(chunk_vec@);
        let ghost chunks = full.skip(1);
        proof {
            crate::text::lemma_split_spec_len(
                data@,
                "<details class=\"toggle implementors-toggle\">"@,
            );
            assert(full.drop_first() =~= full.skip(1));
        }
        let mut acc: Vec<TraitImplementation> = Vec::new();
        let mut i: usize = 1;
        proof {
            assert(trait_pairs_of(acc@) =~= Seq::<(FragView, Seq<MethodView>)>::empty());
        }
        while i < chunk_vec.len()
            invariant
                blanket_impls_spec(data@) == impls_list_spec(
                    chunks,
                    "<details class=\"toggle method-toggle\">"@,
                ),
                full == views(chunk_vec@),
                chunks == full.skip(1),
                chunk_vec@.len() == full.len(),
                full.len() >= 1,
                1 <= i <= full.len(),
                match impls_list_spec(
                    full.skip(i as int),
                    "<details class=\"toggle method-toggle\">"@,
                ) {
                    Ok(rest) => impls_list_spec(
                        chunks,
                        "<details class=\"toggle method-toggle\">"@,
                    ) == Ok::<Seq<(FragView, Seq<MethodView>)>, Herr>(trait_pairs_of(acc@) + rest),
                    Err(e) => impls_list_spec(chunks, "<details class=\"toggle method-toggle\">"@)
                        == Err::<Seq<(FragView, Seq<MethodView>)>, Herr>(e),
                },
            decreases full.len() - i,
        {
            let ghost old_acc = acc@;
            proof {
                reveal_strlit("<details class=\"toggle method-toggle\">");
                assert(full.skip(i as int)[0] == full[i as int]);
                assert(full.skip(i as int).drop_first() =~= full.skip(i + 1));
            }
            match parse_impl_block(
                chunk_vec[i].as_str(),
                "<details class=\"toggle method-toggle\">",
            ) {
                Err(e) => {
                    return Err(e);
                },
                Ok(b) => {
                    let ghost bv = (b.0@, methods_view(b.1@));
                    acc.push(TraitImplementation { trait_impl: b.0, methods: b.1 });
                    proof {
                        assert(trait_pairs_of(acc@) =~= trait_pairs_of(old_acc).push(bv));
                        if impls_list_spec(
                            full.skip(i + 1),
                            "<details class=\"toggle method-toggle\">"@,
                        ) is Ok {
                            let rest = impls_list_spec(
                                full.skip(i + 1),
                                "<details class=\"toggle method-toggle\">"@,
                            )->Ok_0;
                            assert(trait_pairs_of(old_acc) + (seq![bv] + rest) =~= trait_pairs_of(
                                acc@,
                            ) + rest);
                        }
                    }
                },
            }
            i = i + 1;
        }
        proof {
            assert(full.skip(full.len() as int) =~= Seq::<Seq<char>>::empty());
            assert(trait_pairs_of(acc@) + Seq::<(FragView, Seq<MethodView>)>::empty()
                =~= trait_pairs_of(acc@));
            assert(pairs_to_trait_impls(trait_pairs_of(acc@)) =~= trait_impls_view(acc@));
        }
        Ok(SectionContent::TraitImplementations(acc))
    }

    /// Parses a type's auto Trait Implementations.
    pub fn parse_auto_trait_implementations(data: &str) -> (r: Result<SectionContent, Herr>)
        ensures
            match r {
                Ok(sc) => auto_traits_spec(data@) matches Ok(v) && sc@
                    == SectionContentView::TraitImplementations(v),
                Err(e) => auto_traits_spec(data@) == Err::<Seq<TraitImplementationView>, Herr>(e),
            },
    {
        proof {
            reveal_strlit("</section>");
        }
        let chunk_vec = split_all(data, "</section>");
        let ghost chunks = views(chunk_vec@);
        let mut acc: Vec<TraitImplementation> = Vec::new();
        let mut i: usize = 0;
        proof {
            assert(chunks.skip(0) =~= chunks);
            assert(trait_impls_view(acc@) =~= Seq::<TraitImplementationView>::empty());
        }
        while i < chunk_vec.len()
            invariant
                chunks == split_spec(data@, "</section>"@),
                chunks == views(chunk_vec@),
                chunk_vec@.len() == chunks.len(),
                i <= chunks.len(),
                match auto_traits_list_spec(chunks.skip(i as int)) {
                    Ok(rest) => auto_traits_list_spec(chunks) == Ok::<
                        Seq<TraitImplementationView>,
                        Herr,
                    >(trait_impls_view(acc@) + rest),
                    Err(e) => auto_traits_list_spec(chunks) == Err::<
                        Seq<TraitImplementationView>,
                        Herr,
                    >(e),
                },
            decreases chunks.len() - i,
        {
            let ghost old_acc = acc@;
            proof {
                reveal_strlit("</div>");
                assert(chunks.skip(i as int)[0] == chunks[i as int]);
                assert(chunks.skip(i as int).drop_first() =~= chunks.skip(i + 1));
            }
            if !str_eq(chunk_vec[i].as_str(), "</div>") {
                match HtmlElement::extract("h3", chunk_vec[i].as_str()) {
                    Err(e) => {
                        return Err(e);
                    },
                    Ok(hel) => match hel.zip_content() {
                        Err(e) => {
                            return Err(e);
                        },
                        Ok(head) => {
                            let mut hv = head;
                            let ghost hseq = hv@;
                            let mut bold_inner: Vec<Fragment> = Vec::new();
                            bold_inner.append(&mut hv);
                            let t = TraitImplementation {
                                trait_impl: Fragment::Bold(bold_inner),
                                methods: Vec::new(),
                            };
                            let ghost tv = t@;
                            acc.push(t);
                            proof {
                                assert(bold_inner@ =~= hseq);
                                assert(methods_view(Seq::<Method>::empty()) =~= Seq::<
                                    MethodView,
                                >::empty());
                                assert(trait_impls_view(acc@) =~= trait_impls_view(old_acc).push(
                                    tv,
                                ));
                                if auto_traits_list_spec(chunks.skip(i + 1)) is Ok {
                                    let rest = auto_traits_list_spec(chunks.skip(i + 1))->Ok_0;
                                    assert(trait_impls_view(old_acc) + (seq![tv] + rest)
                                        =~= trait_impls_view(acc@) + rest);
                                }
                            }
                        },
                    },
                }
            }
            i = i + 1;
        }
        proof {
            assert(chunks.skip(chunks.len() as int) =~= Seq::<Seq<char>>::empty());
            assert(trait_impls_view(acc@) + Seq::<TraitImplementationView>::empty()
                =~= trait_impls_view(acc@));
        }
        Ok(SectionContent::TraitImplementations(acc))
    }

    /// Parses a type's Trait Implementations.
    pub fn parse_trait_implementations(data: &str) -> (r: Result<SectionContent, Herr>)
        ensures
            match r {
                Ok(sc) => trait_implementations_spec(data@) matches Ok(v) && sc@
                    == SectionContentView::TraitImplementations(v),
                Err(e) => trait_implementations_spec(data@) == Err::<
                    Seq<TraitImplementationView>,
                    Herr,
                >(e),
            },
    {
        proof {
            reveal_strlit("</details>");
        }
        let chunk_vec = split_all(data, "</details>");
        let ghost full = views(chunk_vec@);
        let ghost chunks = full.skip(1);
        proof {
            crate::text::lemma_split_spec_len(data@, "</details>"@);
            assert(full.drop_first() =~= full.skip(1));
        }
        let mut acc: Vec<TraitImplementation> = Vec::new();
        let mut i: usize = 1;
        proof {
            assert(trait_impls_view(acc@) =~= Seq::<TraitImplementationView>::empty());
        }
        while i < chunk_vec.len()
            invariant
                trait_implementations_spec(data@) == trait_impls_list_spec(chunks),
                full == views(chunk_vec@),
                chunks == full.skip(1),
                chunk_vec@.len() == full.len(),
                full.len() >= 1,
                1 <= i <= full.len(),
                match trait_impls_list_spec(full.skip(i as int)) {
                    Ok(rest) => trait_impls_list_spec(chunks) == Ok::<
                        Seq<TraitImplementationView>,
                        Herr,
                    >(trait_impls_view(acc@) + rest),
                    Err(e) => trait_impls_list_spec(chunks) == Err::<
                        Seq<TraitImplementationView>,
                        Herr,
                    >(e),
                },
            decreases full.len() - i,
        {
            let ghost old_acc = acc@;
            proof {
                reveal_strlit("</div>");
                assert(full.skip(i as int)[0] == full[i as int]);
                assert(full.skip(i as int).drop_first() =~= full.skip(i + 1));
            }
            if !str_eq(chunk_vec[i].as_str(), "</div>") {
                match parse_trait_impl(chunk_vec[i].as_str()) {
                    Err(e) => {
                        return Err(e);
                    },
                    Ok(t) => {
                        let ghost tv = t@;
                        acc.push(t);
                        proof {
                            assert(trait_impls_view(acc@) =~= trait_impls_view(old_acc).push(tv));
                            if trait_impls_list_spec(full.skip(i + 1)) is Ok {
                                let rest = trait_impls_list_spec(full.skip(i + 1))->Ok_0;
                                assert(trait_impls_view(old_acc) + (seq![tv] + rest)
                                    =~= trait_impls_view(acc@) + rest);
                            }
                        }
                    },
                }
            }
            i = i + 1;
        }
        proof {
            assert(full.skip(full.len() as int) =~= Seq::<Seq<char>>::empty());
            assert(trait_impls_view(acc@) + Seq::<TraitImplementationView>::empty()
                =~= trait_impls_view(acc@));
        }
        Ok(SectionContent::TraitImplementations(acc))
    }

    /// Parses the optional Object Safety section.
    pub fn parse_object_safety(data: &str) -> (r: Result<SectionContent, Herr>)
        ensures
            match r {
                Ok(sc) => object_safety_spec(data@) matches Ok(fs) && sc@
                    == SectionContentView::ObjectSafety(fs),
                Err(e) => object_safety_spec(data@) == Err::<Seq<FragView>, Herr>(e),
            },
    {
        match HtmlElement::parse(data) {
            Err(e) => Err(e),
            Ok(p) => match p.0.zip_content() {
                Err(e) => Err(e),
                Ok(v) => Ok(SectionContent::ObjectSafety(v)),
            },
        }
    }

    /// Parses a trait's optional required associated types.
    pub fn parse_required_associated_types(data: &str) -> (r: Result<SectionContent, Herr>)
        ensures
            match r {
                Ok(sc) => rats_spec(data@) matches Ok(v) && sc@
                    == SectionContentView::RequiredAssociatedTypes(v),
                Err(e) => rats_spec(data@) == Err::<Seq<RequiredAssociatedTypeView>, Herr>(e),
            },
    {
        proof {
            reveal_strlit("</div>");
            reveal_strlit("</details>");
        }
        let trimmed = trim_end_matches(data, "</div>");
        let chunk_vec = split_terminator_all(trimmed, "</details>");
        let ghost chunks = views(chunk_vec@);
        let mut acc: Vec<RequiredAssociatedType> = Vec::new();
        let mut i: usize = 0;
        proof {
            assert(chunks.skip(0) =~= chunks);
            assert(rats_view(acc@) =~= Seq::<RequiredAssociatedTypeView>::empty());
        }
        while i < chunk_vec.len()
            invariant
                rats_spec(data@) == rats_list_spec(chunks),
                chunks == views(chunk_vec@),
                chunk_vec@.len() == chunks.len(),
                i <= chunks.len(),
                match rats_list_spec(chunks.skip(i as int)) {
                    Ok(rest) => rats_list_spec(chunks) == Ok::<
                        Seq<RequiredAssociatedTypeView>,
                        Herr,
                    >(rats_view(acc@) + rest),
                    Err(e) => rats_list_spec(chunks) == Err::<
                        Seq<RequiredAssociatedTypeView>,
                        Herr,
                    >(e),
                },
            decreases chunks.len() - i,
        {
            let ghost old_acc = acc@;
            proof {
                assert(chunks.skip(i as int)[0] == chunks[i as int]);
                assert(chunks.skip(i as int).drop_first() =~= chunks.skip(i + 1));
            }
            match parse_rat(chunk_vec[i].as_str()) {
                Err(e) => {
                    return Err(e);
                },
                Ok(t) => {
                    let ghost tv = t@;
                    acc.push(t);
                    proof {
                        assert(rats_view(acc@) =~= rats_view(old_acc).push(tv));
                        if rats_list_spec(chunks.skip(i + 1)) is Ok {
                            let rest = rats_list_spec(chunks.skip(i + 1))->Ok_0;
                            assert(rats_view(old_acc) + (seq![tv] + rest) =~= rats_view(acc@)
                                + rest);
                        }
                    }
                },
            }
            i = i + 1;
        }
        proof {
            assert(chunks.skip(chunks.len() as int) =~= Seq::<Seq<char>>::empty());
            assert(rats_view(acc@) + Seq::<RequiredAssociatedTypeView>::empty() =~= rats_view(
                acc@,
            ));
        }
        Ok(SectionContent::RequiredAssociatedTypes(acc))
    }

    /// Parses an enum's Variants.
    pub fn parse_variants(data: &str) -> (r: Result<SectionContent, Herr>)
        ensures
            match r {
                Ok(sc) => variants_spec(data@) matches Ok(v) && sc@
                    == SectionContentView::Variants(v),
                Err(e) => variants_spec(data@) == Err::<Seq<VariantView>, Herr>(e),
            },
    {
        proof {
            reveal_strlit("</a>");
        }
        let chunk_vec = split_all(data, "</a>");
        let ghost full = views(chunk_vec@);
        let ghost chunks = full.skip(1);
        proof {
            crate::text::lemma_split_spec_len(data@, "</a>"@);
            assert(full.drop_first() =~= full.skip(1));
        }
        let mut acc: Vec<Variant> = Vec::new();
        let mut i: usize = 1;
        proof {
            assert(variants_view(acc@) =~= Seq::<VariantView>::empty());
        }
        while i < chunk_vec.len()
            invariant
                variants_spec(data@) == variants_list_spec(chunks),
                full == views(chunk_vec@),
                chunks == full.skip(1),
                chunk_vec@.len() == full.len(),
                full.len() >= 1,
                1 <= i <= full.len(),
                match variants_list_spec(full.skip(i as int)) {
                    Ok(rest) => variants_list_spec(chunks) == Ok::<Seq<VariantView>, Herr>(
                        variants_view(acc@) + rest,
                    ),
                    Err(e) => variants_list_spec(chunks) == Err::<Seq<VariantView>, Herr>(e),
                },
            decreases full.len() - i,
        {
            let ghost old_acc = acc@;
            proof {
                assert(full.skip(i as int)[0] == full[i as int]);
                assert(full.skip(i as int).drop_first() =~= full.skip(i + 1));
            }
            match parse_variant(chunk_vec[i].as_str()) {
                Err(e) => {
                    return Err(e);
                },
                Ok(t) => {
                    let ghost tv = t@;
                    acc.push(t);
                    proof {
                        assert(variants_view(acc@) =~= variants_view(old_acc).push(tv));
                        if variants_list_spec(full.skip(i + 1)) is Ok {
                            let rest = variants_list_spec(full.skip(i + 1))->Ok_0;
                            assert(variants_view(old_acc) + (seq![tv] + rest) =~= variants_view(
                                acc@,
                            ) + rest);
                        }
                    }
                },
            }
            i = i + 1;
        }
        proof {
            assert(full.skip(full.len() as int) =~= Seq::<Seq<char>>::empty());
            assert(variants_view(acc@) + Seq::<VariantView>::empty() =~= variants_view(acc@));
        }
        Ok(SectionContent::Variants(acc))
    }
}

/// One `<h2>`-delimited region parsed into a typed section.
#[verifier::rlimit(60)]
fn parse_section(sec: &str) -> (r: Result<Section, Herr>)
    ensures
        match r {
            Ok(s) => section_spec(sec@) == Ok::<SectionView, Herr>(s@),
            Err(e) => section_spec(sec@) == Err::<SectionView, Herr>(e),
        },
{
    proof {
        reveal(section_spec);
        reveal_strlit("</h2>");
    }
    let pieces = split_inclusive_all(sec, "</h2>");
    if pieces.len() < 2 {
        return Err(Herr::MissingAnchor);
    }
    proof {
        assert(views(pieces@)[0] == pieces@[0]@);
        assert(views(pieces@)[1] == pieces@[1]@);
    }
    match HtmlElement::parse(pieces[0].as_str()) {
        Err(e) => Err(e),
        Ok(hp) => {
            let heading = hp.0;
            proof {
                assert(heading@.content == frags_view(heading.content@));
                crate::fragment::lemma_frags_view(heading.content@);
            }
            if heading.content.len() == 0 {
                return Err(Herr::EmptyExpectedContent);
            }
            match heading.content[0].raw_content() {
                None => Err(Herr::EmptyExpectedContent),
                Some(nm) => {
                    let body = pieces[1].as_str();
                    let content_r: Result<SectionContent, Herr> = if str_eq(nm, "Fields") || str_eq(
                        nm,
                        "Tuple Fields",
                    ) {
                        SectionContent::parse_fields(body)
                    } else if str_eq(nm, "Implementations") {
                        SectionContent::parse_implementations(body)
                    } else if str_eq(nm, "Auto Trait Implementations") {
                        SectionContent::parse_auto_trait_implementations(body)
                    } else if str_eq(nm, "Blanket Implementations") {
                        SectionContent::parse_blanket_implementations(body)
                    } else if str_eq(nm, "Trait Implementations") {
                        SectionContent::parse_trait_implementations(body)
                    } else if str_eq(nm, "Object Safety") {
                        SectionContent::parse_object_safety(body)
                    } else if str_eq(nm, "Required Associated Types") {
                        SectionContent::parse_required_associated_types(body)
                    } else if str_eq(nm, "Variants") {
                        SectionContent::parse_variants(body)
                    } else {
                        Ok(SectionContent::Unknown(String::from_str(nm)))
                    };
                    match content_r {
                        Err(e) => Err(e),
                        Ok(content) => {
                            let mut bold_inner: Vec<Fragment> = Vec::new();
                            bold_inner.push(Fragment::Raw(String::from_str(nm)));
                            proof {
                                crate::fragment::lemma_frags_view(bold_inner@);
                                assert(frags_view(bold_inner@) =~= seq![FragView::Raw(nm@)]);
                            }
                            Ok(Section { name: Fragment::Bold(bold_inner), content })
                        },
                    }
                },
            }
        },
    }
}

impl MainContent {
    /// Parses the main content: one typed section per `<h2>` marker.
    #[verifier::rlimit(100)]
    pub fn parse(raw: &str) -> (r: Result<MainContent, Herr>)
        ensures
            match r {
                Ok(mc) => main_content_spec(raw@) == Ok::<Seq<SectionView>, Herr>(mc@),
                Err(e) => main_content_spec(raw@) == Err::<Seq<SectionView>, Herr>(e),
            },
    {
        proof {
            reveal_strlit("<h2");
        }
        let chunk_vec = split_all(raw, "<h2");
        let ghost full = views(chunk_vec@);
        let ghost chunks = full.skip(1);
        proof {
            crate::text::lemma_split_spec_len(raw@, "<h2"@);
            assert(full.drop_first() =~= full.skip(1));
        }
        let mut acc: Vec<Section> = Vec::new();
        let mut i: usize = 1;
        proof {
            assert(sections_view(acc@) =~= Seq::<SectionView>::empty());
        }
        while i < chunk_vec.len()
            invariant
                main_content_spec(raw@) == sections_spec(chunks),
                full == views(chunk_vec@),
                chunks == full.skip(1),
                chunk_vec@.len() == full.len(),
                full.len() >= 1,
                1 <= i <= full.len(),
                match sections_spec(full.skip(i as int)) {
                    Ok(rest) => sections_spec(chunks) == Ok::<Seq<SectionView>, Herr>(
                        sections_view(acc@) + rest,
                    ),
                    Err(e) => sections_spec(chunks) == Err::<Seq<SectionView>, Herr>(e),
                },
            decreases full.len() - i,
        {
            let ghost old_acc = acc@;
            proof {
                reveal_strlit("<h2");
                assert(full.skip(i as int)[0] == full[i as int]);
                assert(full.skip(i as int).drop_first() =~= full.skip(i + 1));
            }
            let sec = concat2("<h2", chunk_vec[i].as_str());
            match parse_section(sec.as_str()) {
                Err(e) => {
                    return Err(e);
                },
                Ok(s) => {
                    let ghost sv = s@;
                    acc.push(s);
                    proof {
                        assert(sections_view(acc@) =~= sections_view(old_acc).push(sv));
                        if sections_spec(full.skip(i + 1)) is Ok {
                            let rest = sections_spec(full.skip(i + 1))->Ok_0;
                            assert(sections_view(old_acc) + (seq![sv] + rest) =~= sections_view(
                                acc@,
                            ) + rest);
                        }
                    }
                },
            }
            i = i + 1;
        }
        proof {
            assert(full.skip(full.len() as int) =~= Seq::<Seq<char>>::empty());
            assert(sections_view(acc@) + Seq::<SectionView>::empty() =~= sections_view(acc@));
        }
        Ok(MainContent(acc))
    }
}

} // verus!

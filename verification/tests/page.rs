use rustdoc_parser::description::{Description, DescriptionSection};
use rustdoc_parser::errors::Herr;
use rustdoc_parser::fragment::Fragment;
use rustdoc_parser::main_content::{MainContent, SectionContent};
use rustdoc_parser::method::Method;
use rustdoc_parser::process_html;
use rustdoc_parser::sidebar::{Sidebar, SidebarSection};

fn raw(s: &str) -> Fragment {
    Fragment::Raw(String::from(s))
}

#[test]
fn sidebar_two_entry_minimal() {
    let sb = Sidebar::parse("<h3><a>Methods</a></h3><ul><li><a>foo</a></li></ul>").unwrap();
    assert_eq!(
        sb,
        Sidebar(vec![SidebarSection {
            name: String::from("Methods"),
            items: vec![String::from("foo")],
        }])
    );
}

#[test]
fn sidebar_item_without_link_is_empty() {
    let sb = Sidebar::parse("<h3><a>Methods</a></h3><ul><li>bare</li></ul>").unwrap();
    assert_eq!(sb.0.len(), 1);
    assert_eq!(sb.0[0].items, vec![String::new()]);
}

#[test]
fn variants_chunk_yields_two_records() {
    let data = "x</a><h3>Alpha</h3><p>one</p></a><h3>Beta</h3><p>two</p>";
    match SectionContent::parse_variants(data).unwrap() {
        SectionContent::Variants(v) => {
            assert_eq!(v.len(), 2);
            assert_eq!(v[0].name, Fragment::Bold(vec![raw("Alpha")]));
            assert_eq!(v[0].description, vec![raw("one")]);
            assert!(!v[0].description.is_empty());
            assert_eq!(v[1].name, Fragment::Bold(vec![raw("Beta")]));
            assert_eq!(v[1].description, vec![raw("two")]);
            assert!(!v[1].description.is_empty());
        }
        other => panic!("expected variants, got {:?}", other),
    }
}

#[test]
fn unknown_heading_degrades_to_unknown_section() {
    let mc = MainContent::parse("<h2>Safety</h2><p>body</p>").unwrap();
    assert_eq!(mc.0.len(), 1);
    assert_eq!(mc.0[0].name, Fragment::Bold(vec![raw("Safety")]));
    assert_eq!(
        mc.0[0].content,
        SectionContent::Unknown(String::from("Safety"))
    );
}

#[test]
fn fields_section_splits_on_span() {
    let data = "<code>a: u8</code></span><p>first field</p></div>";
    match SectionContent::parse_fields(data).unwrap() {
        SectionContent::Fields(v) => {
            assert_eq!(v.len(), 1);
            assert_eq!(v[0].content, vec![raw("a: u8")]);
            assert_eq!(v[0].description, vec![raw("first field")]);
        }
        other => panic!("expected fields, got {:?}", other),
    }
}

#[test]
fn fields_without_span_is_missing_anchor() {
    assert_eq!(
        SectionContent::parse_fields("<code>a</code><p>x</p></div>"),
        Err(Herr::MissingAnchor)
    );
}

#[test]
fn auto_traits_skip_bare_div_chunks() {
    let data = "<h3>impl Send</h3></section></div>";
    match SectionContent::parse_auto_trait_implementations(data).unwrap() {
        SectionContent::TraitImplementations(v) => {
            assert_eq!(v.len(), 1);
            assert_eq!(v[0].trait_impl, Fragment::Bold(vec![raw("impl Send")]));
            assert!(v[0].methods.is_empty());
        }
        other => panic!("expected trait implementations, got {:?}", other),
    }
}

#[test]
fn object_safety_keeps_raw_fragments() {
    match SectionContent::parse_object_safety("<p>not object safe</p>").unwrap() {
        SectionContent::ObjectSafety(v) => {
            assert_eq!(v, vec![raw("not object safe")]);
        }
        other => panic!("expected object safety, got {:?}", other),
    }
}

#[test]
fn required_associated_types_split_on_details() {
    let data = "<h4>type Item</h4><p>the element</p></details></div>";
    match SectionContent::parse_required_associated_types(data).unwrap() {
        SectionContent::RequiredAssociatedTypes(v) => {
            assert_eq!(v.len(), 1);
            assert_eq!(v[0].name, Fragment::Bold(vec![raw("type Item")]));
            assert_eq!(v[0].description, raw("the element"));
        }
        other => panic!("expected required associated types, got {:?}", other),
    }
}

#[test]
fn method_parse_reads_signature_and_description() {
    let data = "<h4>fn len(&amp;self)</h4><p>Returns the length.</p>\n";
    let m = Method::parse(data).unwrap();
    assert_eq!(m.signature, vec![raw("fn len(&self)")]);
    assert_eq!(m.description.introduction, vec![raw("Returns the length.")]);
    assert!(m.description.sections.is_empty());
}

#[test]
fn description_splits_subsections() {
    let data = "<p>Intro.</p>\n<h5 id=\"x\"><a>Examples</a></h5><p>use it</p>";
    let d = Description::parse(data).unwrap();
    assert_eq!(d.introduction, vec![raw("Intro.")]);
    assert_eq!(d.sections.len(), 1);
    assert_eq!(d.sections[0].name, Fragment::Bold(vec![raw("Examples")]));
    assert_eq!(d.sections[0].content, vec![raw("use it")]);
}

#[test]
fn description_section_without_heading_is_missing_anchor() {
    assert_eq!(
        DescriptionSection::parse("no marker here"),
        Err(Herr::MissingAnchor)
    );
}

#[test]
fn implementations_section_reads_block_and_method() {
    let data = "<details class=\"toggle implementors-toggle\" open><summary><h3>impl Foo</h3></summary><details class=\"toggle method-toggle\" open><h4>fn bar()</h4><p>Does bar.</p>\n</div></details>";
    match SectionContent::parse_implementations(data).unwrap() {
        SectionContent::Implementations(v) => {
            assert_eq!(v.len(), 1);
            assert_eq!(v[0].inherent_impl, Fragment::Bold(vec![raw("impl Foo")]));
            assert_eq!(v[0].methods.len(), 1);
            assert_eq!(v[0].methods[0].signature, vec![raw("fn bar()")]);
        }
        other => panic!("expected implementations, got {:?}", other),
    }
}

#[test]
fn whole_page_assembles() {
    let html = "<!DOCTYPE html><section><h3><a>Methods</a></h3><ul><li><a>foo</a></li></ul></section><section id=\"main-content\" class=\"content\"><h1>Struct Demo</h1><p>Intro text.</p></details><h2>Variants</h2>x</a><h3>Alpha</h3><p>one</p><script>window.x = 1;</script>";
    let page = process_html(html).unwrap();
    assert_eq!(page.entry, vec![raw("Struct Demo")]);
    assert_eq!(page.sidebar.0.len(), 1);
    assert_eq!(page.sidebar.0[0].name, "Methods");
    assert_eq!(page.sidebar.0[0].items, vec![String::from("foo")]);
    assert_eq!(page.introduction.introduction, vec![raw("Intro text.")]);
    assert_eq!(page.main_content.0.len(), 1);
    assert_eq!(
        page.main_content.0[0].name,
        Fragment::Bold(vec![raw("Variants")])
    );
    match &page.main_content.0[0].content {
        SectionContent::Variants(v) => {
            assert_eq!(v.len(), 1);
            assert_eq!(v[0].name, Fragment::Bold(vec![raw("Alpha")]));
        }
        other => panic!("expected variants, got {:?}", other),
    }
}

#[test]
fn page_without_anchor_is_missing_anchor() {
    assert_eq!(process_html(""), Err(Herr::MissingAnchor));
    assert_eq!(process_html("<section>half"), Err(Herr::MissingAnchor));
}

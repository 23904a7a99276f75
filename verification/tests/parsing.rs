use rustdoc_parser::errors::Herr;
use rustdoc_parser::fragment::{un_escape, Color, Fragment};
use rustdoc_parser::html_element::HtmlElement;
use rustdoc_parser::tag::{Tag, TagKind};

fn raw(s: &str) -> Fragment {
    Fragment::Raw(String::from(s))
}

#[test]
fn tag_tag_build() {
    let data = r#"a href="emoclew\08:1.0.0.721\\:ptth" type="url Home" class="Url" open>!emocleW"#;
    let attributes = vec![
        (
            String::from("href"),
            String::from(r#"emoclew\08:1.0.0.721\\:ptth"#),
        ),
        (String::from("type"), String::from("url Home")),
        (String::from("class"), String::from("Url")),
    ];
    let result = Tag {
        name: String::from("a"),
        kind: TagKind::Opening,
        attributes,
    };
    assert_eq!(result, Tag::parse(data).unwrap());
}

#[test]
fn helpers_tag_build() {
    let data = r#"a href="emoclew\08:1.0.0.721\\:ptth" type="url Home" class="Url" open>!emocleW"#;
    let attributes = vec![
        (
            String::from("href"),
            String::from(r#"emoclew\08:1.0.0.721\\:ptth"#),
        ),
        (String::from("type"), String::from("url Home")),
        (String::from("class"), String::from("Url")),
    ];
    let result = Tag {
        name: String::from("a"),
        kind: TagKind::Opening,
        attributes,
    };
    assert_eq!(result, Tag::parse(data).unwrap());
}

#[test]
fn tag_with_two_attributes() {
    let tag = Tag::parse(r#"a href="x" class="y""#).unwrap();
    assert_eq!(tag.name, "a");
    assert_eq!(tag.kind, TagKind::Opening);
    assert_eq!(
        tag.attributes,
        vec![
            (String::from("href"), String::from("x")),
            (String::from("class"), String::from("y")),
        ]
    );
}

#[test]
fn self_terminating_names() {
    assert_eq!(Tag::parse("br").unwrap().kind, TagKind::SelfTerminating);
    assert_eq!(Tag::parse("img").unwrap().kind, TagKind::SelfTerminating);
    assert_eq!(
        Tag::parse(r#"img src="a.png""#).unwrap().kind,
        TagKind::SelfTerminating
    );
    assert_eq!(Tag::parse("meta").unwrap().kind, TagKind::SelfTerminating);
    assert_eq!(Tag::parse("/div").unwrap().kind, TagKind::Closing);
    assert_eq!(Tag::parse("div").unwrap().kind, TagKind::Opening);
}

#[test]
fn tag_unterminated_value_is_malformed() {
    assert_eq!(Tag::parse(r#"a href="x"#), Err(Herr::MalformedTag));
}

#[test]
fn element_parse_unclosed_tag_is_eof() {
    assert_eq!(HtmlElement::parse("<div"), Err(Herr::UnexpectedEof));
}

#[test]
fn element_parse_builds_tree() {
    let (el, rest) = HtmlElement::parse("<div id=\"main\">hello <a>link</a></div>tail").unwrap();
    assert_eq!(rest, "tail");
    assert_eq!(el.kind, "div");
    assert_eq!(
        el.attributes,
        vec![(String::from("id"), String::from("main"))]
    );
    assert_eq!(el.content, vec![raw("hello ")]);
    assert_eq!(el.inner_elements.len(), 1);
    assert_eq!(el.inner_elements[0].kind, "a");
    assert_eq!(el.inner_elements[0].content, vec![raw("link")]);
}

#[test]
fn zip_equal_runs_and_children_alternate() {
    let (el, _) = HtmlElement::parse("<p>one <a>L1</a>two <a>L2</a></p>").unwrap();
    assert_eq!(el.content.len(), 2);
    assert_eq!(el.inner_elements.len(), 2);
    let zipped = el.zip_content().unwrap();
    assert_eq!(
        zipped,
        vec![raw("one "), raw("L1"), raw("two "), raw("L2")]
    );
}

#[test]
fn zip_extra_run_trails() {
    let (el, _) = HtmlElement::parse("<p>one <a>L1</a>two <a>L2</a>three</p>").unwrap();
    assert_eq!(el.content.len(), 3);
    assert_eq!(el.inner_elements.len(), 2);
    let zipped = el.zip_content().unwrap();
    assert_eq!(
        zipped,
        vec![raw("one "), raw("L1"), raw("two "), raw("L2"), raw("three")]
    );
}

#[test]
fn zip_where_clause_renders_last() {
    let (el, _) = HtmlElement::parse("<h3>sig <a class=\"where\">W</a></h3>").unwrap();
    let zipped = el.zip_content().unwrap();
    assert_eq!(zipped, vec![raw("sig "), raw("W")]);
}

#[test]
fn zip_colors_semantic_classes() {
    let (el, _) = HtmlElement::parse("<p>impl <a class=\"trait\">Clone</a>for</p>").unwrap();
    let zipped = el.zip_content().unwrap();
    assert_eq!(
        zipped,
        vec![
            raw("impl "),
            Fragment::Colored(Box::new(raw("Clone")), Color::Trait),
            raw("for"),
        ]
    );
}

#[test]
fn zip_strong_opener_short_circuits() {
    let (el, _) = HtmlElement::parse("<p><strong>Head</strong>rest</p>").unwrap();
    let zipped = el.zip_content().unwrap();
    assert_eq!(
        zipped,
        vec![Fragment::Bold(vec![raw("Head")]), raw("rest")]
    );
}

#[test]
fn zip_empty_classed_child_is_error() {
    let (el, _) = HtmlElement::parse("<p>x <a class=\"x\"></a>y</p>").unwrap();
    assert_eq!(el.zip_content(), Err(Herr::EmptyExpectedContent));
}

#[test]
fn zip_code_concatenates_unescaped() {
    let (el, _) = HtmlElement::parse("<pre><span>a&lt;</span>b<span>c</span></pre>").unwrap();
    let code = el.zip_code().unwrap();
    assert_eq!(*code, raw("a<bc"));
}

#[test]
fn zip_code_without_children_is_error() {
    let (el, _) = HtmlElement::parse("<pre>plain</pre>").unwrap();
    assert_eq!(el.zip_code(), Err(Herr::EmptyExpectedContent));
}

#[test]
fn un_escape_resolves_the_four_entities() {
    assert_eq!(un_escape("a &lt;b&gt; &amp; &#x27;c&#x27;"), "a <b> & 'c'");
}

#[test]
fn un_escape_of_plain_text_is_a_no_op() {
    let once = un_escape("a &lt;b&gt; &amp; &#x27;c&#x27;");
    let twice = un_escape(&once);
    assert_eq!(once, twice);
    assert_eq!(un_escape(""), "");
    assert_eq!(un_escape("plain & simple"), "plain & simple");
}

#[test]
fn un_escape_content_descends() {
    let f = Fragment::Bold(vec![Fragment::Code(Box::new(raw("a&lt;b")))]);
    assert_eq!(
        f.un_escape_content(),
        Fragment::Bold(vec![Fragment::Code(Box::new(raw("a<b")))])
    );
}

#[test]
fn raw_content_only_for_raw() {
    assert_eq!(raw("x").raw_content(), Some("x"));
    assert_eq!(Fragment::Bold(vec![]).raw_content(), None);
}

#[test]
fn color_hex_codes() {
    assert_eq!(Color::AssociatedType.to_hex(), "#d2991d");
    assert_eq!(Color::Enum.to_hex(), "#2dbfb8");
    assert_eq!(Color::Macro.to_hex(), "#09bd00");
    assert_eq!(Color::Method.to_hex(), "#2bab63");
    assert_eq!(Color::Primitive.to_hex(), "#2dbfb8");
    assert_eq!(Color::Struct.to_hex(), "#2dbfb8");
    assert_eq!(Color::Trait.to_hex(), "#b78cf2");
}

#[test]
fn herr_describe_names_each_kind() {
    assert_eq!(Herr::MalformedTag.describe(), "malformed tag");
    assert_eq!(Herr::UnexpectedEof.describe(), "unexpected end of input");
    assert_eq!(Herr::MissingAnchor.describe(), "missing anchor");
    assert_eq!(
        Herr::EmptyExpectedContent.describe(),
        "empty expected content"
    );
}

use tl::{parse, parse_owned, Attributes, Bytes, HTMLTag, HTMLVersion, Node, ParserOptions};

fn force_as_tag<'a, 'b>(actual: &'a Node<'b>) -> &'a HTMLTag<'b> {
    match actual {
        Node::Tag(t) => t,
        _ => panic!("Failed to force tag as Node::Tag (got {:?})", actual),
    }
}

#[test]
fn outer_html() {
    let dom = parse(
        "abc <p>test<span>a</span></p> def",
        ParserOptions::default(),
    )
    .unwrap();
    let parser = dom.parser();

    let tag = force_as_tag(dom.children()[1].get(parser).unwrap());

    assert_eq!(tag.outer_html(parser), "<p>test<span>a</span></p>");
}

#[test]
fn outer_html_void_elements() {
    let html_input = r#"<html><head></head><body><img src=""><br><hr></body></html>"#;
    let vdom = parse(html_input, ParserOptions::default()).unwrap();
    assert_eq!(
        r#"<html><head></head><body><img src=""><br><hr></body></html>"#,
        vdom.outer_html()
    );
}

#[test]
fn inner_html() {
    let dom = parse(
        "abc <p>test<span>a</span></p> def",
        ParserOptions::default(),
    )
    .unwrap();
    let parser = dom.parser();

    let tag = force_as_tag(dom.children()[1].get(parser).unwrap());

    assert_eq!(tag.inner_html(parser), "test<span>a</span>");
}

#[test]
fn children_len() {
    let dom = parse(
        "<!-- element 1 --><div><div>element 3</div></div>",
        ParserOptions::default(),
    )
    .unwrap();
    assert_eq!(dom.children().len(), 2);
}

#[test]
fn get_element_by_id_default() {
    let dom = parse(
        "<div></div><p id=\"test\"></p><p></p>",
        ParserOptions::default(),
    )
    .unwrap();
    let parser = dom.parser();

    let tag = dom.get_element_by_id("test").expect("Element not present");

    let el = force_as_tag(tag.get(dom.parser()).unwrap());

    assert_eq!(el.outer_html(parser), "<p id=\"test\"></p>")
}

#[test]
fn get_element_by_id_tracking() {
    let dom = parse(
        "<div></div><p id=\"test\"></p><p></p>",
        ParserOptions::default().track_ids(),
    )
    .unwrap();
    let parser = dom.parser();

    let tag = dom.get_element_by_id("test").expect("Element not present");

    let el = force_as_tag(tag.get(dom.parser()).unwrap());

    assert_eq!(el.outer_html(parser), "<p id=\"test\"></p>")
}

#[test]
fn get_element_by_class_name_default() {
    let dom = parse(
        "<div></div><p class=\"a b\">hey</p><p></p>",
        ParserOptions::default(),
    )
    .unwrap();

    let tag = dom.get_elements_by_class_name("a").next().unwrap();

    let el = force_as_tag(tag.get(dom.parser()).unwrap());

    assert_eq!(el.inner_text(dom.parser()), "hey");
}

#[test]
fn get_element_by_class_name_tracking() {
    let dom = parse(
        "<div></div><p class=\"a b\">hey</p><p></p>",
        ParserOptions::default().track_ids(),
    )
    .unwrap();

    let tag = dom.get_elements_by_class_name("a").next().unwrap();

    let el = force_as_tag(tag.get(dom.parser()).unwrap());

    assert_eq!(el.inner_text(dom.parser()), "hey");
}

#[test]
fn html5() {
    let dom = parse("<!DOCTYPE html> hello", ParserOptions::default()).unwrap();

    assert_eq!(dom.version(), Some(HTMLVersion::HTML5));
    assert_eq!(dom.children().len(), 1)
}

#[test]
fn ignore_void_closing_tags() {
    let input = r#"
        <head>
            <base href='single_quoted_item'></base>
            <link rel="stylesheet" type="text/css" href="non-exising"/>
        </head>
    "#;

    let dom = parse(input, ParserOptions::default()).unwrap();
    let head_tag = force_as_tag(dom.children()[1].get(dom.parser()).unwrap());

    let base_tag = force_as_tag(head_tag.children().top()[1].get(dom.parser()).unwrap());
    let link_tag = force_as_tag(head_tag.children().top()[3].get(dom.parser()).unwrap());

    assert_eq!(head_tag.name(), "head");
    assert_eq!(base_tag.name(), "base");
    assert_eq!(link_tag.name(), "link");
}

#[test]
pub fn children_mut() {
    let input = "<head><p>Replace me</p> World</head>";

    let mut dom = parse(input, Default::default()).unwrap();
    let children = dom.children();
    let child = children[0]
        .clone()
        .get_mut(dom.parser_mut())
        .unwrap()
        .as_tag_mut()
        .unwrap();

    let top = child.children_mut();
    let handle = top[0].clone();
    let node = handle.get_mut(dom.parser_mut()).unwrap();
    *node = Node::Raw("Hello".into());

    assert_eq!(dom.outer_html(), "<head>Hello World</head>");
}

#[test]
fn nested_inner_text() {
    let dom = parse(
        "<p>hello <p>nested element</p></p>",
        ParserOptions::default(),
    )
    .unwrap();
    let parser = dom.parser();

    let el = force_as_tag(dom.children()[0].get(parser).unwrap());

    assert_eq!(el.inner_text(parser), "hello nested element");
}

#[test]
fn owned_dom() {
    let owned_dom = {
        let input = String::from("<p id=\"test\">hello</p>");
        let dom = parse_owned(input, ParserOptions::default()).unwrap();
        dom
    };

    let dom = owned_dom.get_ref();
    let parser = dom.parser();

    let el = force_as_tag(dom.children()[0].get(parser).unwrap());

    assert_eq!(el.inner_text(parser), "hello");
}

#[test]
fn with() {
    let input = r#"<p>hello <span>whats up</span></p>"#;

    let dom = parse(input, ParserOptions::default()).unwrap();
    let parser = dom.parser();

    let tag = dom
        .nodes()
        .iter()
        .find(|x| x.as_tag().map_or(false, |x| x.name() == "span"));

    assert_eq!(
        tag.map(|tag| tag.inner_text(parser)),
        Some("whats up".into())
    )
}

#[test]
fn abrupt_attributes_stop() {
    let input = r#"<p "#;
    parse(input, ParserOptions::default()).unwrap();
}

#[test]
fn dom_nodes() {
    let input = r#"<p><p><a>nested</a></p></p>"#;
    let dom = parse(input, ParserOptions::default()).unwrap();
    let parser = dom.parser();
    let element = dom
        .nodes()
        .iter()
        .find(|x| x.as_tag().map_or(false, |x| x.name().eq("a")));

    assert_eq!(element.map(|x| x.inner_text(parser)), Some("nested".into()));
}

#[test]
fn fuzz() {
    // Inputs that must finish without a panic or an endless loop
    parse("J\x00<", ParserOptions::default()).unwrap();
    parse("<!J", ParserOptions::default()).unwrap();
    parse("<=/Fy<=/", Default::default()).unwrap();

    let count = 10000usize;

    parse(&"<p>".repeat(count), ParserOptions::default()).unwrap();
}

#[test]
fn mutate_dom() {
    let input = r#"<img src="test.png" />"#;
    let mut dom = parse(input, ParserOptions::default()).unwrap();

    let mut selector = dom.query_selector("[src]").unwrap();
    let handle = selector.next().unwrap();

    let parser = dom.parser_mut();

    let el = handle.get_mut(parser).unwrap();
    let tag = el.as_tag_mut().unwrap();
    let attr = tag.attributes_mut();
    let bytes = attr.get_mut("src").flatten().unwrap();
    bytes.set("world.png").unwrap();

    assert_eq!(attr.get("src"), Some(Some(&"world.png".into())));
}

#[test]
fn valueless_attribute() {
    let input = r#"
        <a id="u54423">
            <iframe allowfullscreen></iframe>
        </a>
    "#;

    let dom = parse(input, ParserOptions::default()).unwrap();
    let element = dom.get_element_by_id("u54423");

    assert!(element.is_some());
}

#[test]
fn unquoted() {
    let input = r#"
        <a id=u54423>Hello World</a>
    "#;

    let dom = parse(input, ParserOptions::default()).unwrap();
    let parser = dom.parser();
    let element = dom.get_element_by_id("u54423");

    assert_eq!(
        element.and_then(|x| x.get(parser).map(|x| x.inner_text(parser))),
        Some("Hello World".into())
    );
}

#[test]
fn nodes_order() {
    let input = r#"
    <p>test</p><div><span>test2</span></div>
    "#
    .trim();
    let dom = parse(input, Default::default()).unwrap();
    let nodes = dom.nodes();

    // 5 nodes in total
    assert_eq!(nodes.len(), 5);

    // First node is <p>
    assert_eq!(&nodes[0].as_tag().unwrap()._name, "p");
    // Second node is inner text of <p>: test
    assert_eq!(nodes[1].as_raw().unwrap().as_bytes(), b"test");
    // Third node is <div>
    assert_eq!(&nodes[2].as_tag().unwrap()._name, "div");
    // Fourth node is inner <span> node
    assert_eq!(&nodes[3].as_tag().unwrap()._name, "span");
    // Fifth node is inner text of <span>: test2
    assert_eq!(nodes[4].as_raw().unwrap().as_bytes(), b"test2");
}

#[test]
fn comment() {
    let dom = parse("<!-- test -->", Default::default()).unwrap();
    let nodes = dom.nodes();
    assert_eq!(nodes.len(), 1);
    assert_eq!(
        nodes[0].as_comment().unwrap().as_utf8_str(),
        "<!-- test -->"
    );
}

fn all_len(input: &str, len: usize) {
    let dom = parse(input, Default::default()).unwrap();
    let el = dom.nodes()[0].as_tag().unwrap();
    assert_eq!(el.children().all(dom.parser()).len(), len);
}

fn all_last(input: &str, last: &str) {
    let dom = parse(input, Default::default()).unwrap();
    let el = dom.nodes()[0].as_tag().unwrap();
    assert_eq!(
        el.children()
            .all(dom.parser())
            .last()
            .unwrap()
            .inner_text(dom.parser()),
        last
    );
}

#[test]
fn tag_all_children() {
    all_len(r#"<div></div>"#, 0);
    all_len(r#"<div>a</div>"#, 1);
    all_len(r#"<div><p></p></div>"#, 1);
    all_len(r#"<div><p>a</p></div>"#, 2);
    all_len(r#"<div><p><span></span></p></div>"#, 2);
    all_len(r#"<div><p><span>a</span></p></div>"#, 3);

    all_last(r#"<div>a</div>"#, "a");
    all_last(r#"<div><p>a</p></div>"#, "a");
    all_last(r#"<div>b<p>a</p></div>"#, "a");
    all_last(r#"<div>b<p><span>a</span></p></div>"#, "a");
}

fn query_len(input: &str, selector: &str, len: usize) {
    let dom = parse(input, Default::default()).unwrap();
    let el = dom.nodes()[0].as_tag().unwrap();
    let query = el.query_selector(dom.parser(), selector).unwrap();
    assert_eq!(query.count(), len);
}

#[test]
fn assert_length() {
    query_len("<div></div>", "a", 0);
    query_len("<div><a></a></div>", "a", 1);
    query_len("<div><a><a></a></a></div>", "a", 2);
    query_len("<div><a><span></span></a></div>", "span", 1);
}

#[test]
fn self_closing_no_child() {
    let dom = parse("<br /><p>test</p>", Default::default()).unwrap();
    let nodes = dom.nodes();
    assert_eq!(nodes.len(), 3);
    assert_eq!(nodes[0].as_tag().unwrap()._children.len(), 0);
    assert_eq!(nodes[0].as_tag().unwrap().raw(), "<br />");
}

#[test]
fn insert_attribute_owned() {
    let mut attr = Attributes::new();
    let style = "some style".to_string();
    attr.insert("style", Some(Bytes::try_from(style).unwrap()));
    assert_eq!(attr.get("style"), Some(Some(&"some style".into())));
}

#[test]
fn boundaries() {
    let dom = parse("<div><p>haha</p></div>", Default::default()).unwrap();
    let span = dom.nodes()[1].as_tag().unwrap();
    let boundary = span.boundaries(dom.parser());
    assert_eq!(boundary, (5, 15));
}

#[test]
fn attributes_remove_inner_html() {
    let mut dom = parse(
        "<span contenteditable=\"true\">testing</a>",
        Default::default(),
    )
    .unwrap();

    dom.nodes_mut()[0]
        .as_tag_mut()
        .unwrap()
        .attributes_mut()
        .remove_value("contenteditable");

    assert_eq!(dom.outer_html(), "<span contenteditable>testing</span>");

    dom.nodes_mut()[0]
        .as_tag_mut()
        .unwrap()
        .attributes_mut()
        .remove("contenteditable");

    assert_eq!(dom.outer_html(), "<span>testing</span>");
}

#[test]
fn tag_raw() {
    let input = "<p>abcd</p>";

    let vdom = parse(input, Default::default()).unwrap();
    let first_tag = vdom.children()[0]
        .get(vdom.parser())
        .unwrap()
        .as_tag()
        .unwrap();

    let from_raw = first_tag.raw().try_as_utf8_str().unwrap();
    assert_eq!(from_raw, "<p>abcd</p>");
}

#[test]
fn tag_raw_abrupt_stop() {
    let input = "<p>abcd</p";

    let vdom = parse(input, Default::default()).unwrap();
    let first_tag = vdom.children()[0]
        .get(vdom.parser())
        .unwrap()
        .as_tag()
        .unwrap();

    let from_raw = first_tag.raw().try_as_utf8_str().unwrap();
    assert_eq!(from_raw, "<p>abcd</p");
}

use tl::{parse, HTMLTag, Node, ParserOptions};

fn tag_of<'a, 'b>(actual: &'a Node<'b>) -> &'a HTMLTag<'b> {
    match actual {
        Node::Tag(t) => t,
        _ => panic!("not a tag: {:?}", actual),
    }
}

#[test]
fn query_selector_simple() {
    let input = "<div><p class=\"hi\">hello</p></div>";
    let dom = parse(input, ParserOptions::default()).unwrap();
    let parser = dom.parser();
    let mut selector = dom.query_selector(".hi").unwrap();
    let el = tag_of(selector.next().and_then(|x| x.get(parser)).unwrap());

    assert_eq!(dom.nodes().len(), 3);
    assert_eq!(el.inner_text(parser), "hello");
}

#[test]
fn tag_query_selector() {
    // empty
    let dom = parse("<p></p>", ParserOptions::default()).unwrap();
    let parser = dom.parser();
    let selector = dom.nodes()[0]
        .as_tag()
        .unwrap()
        .query_selector(parser, "div.z")
        .unwrap();
    assert_eq!(selector.count(), 0);

    // one child
    let dom = parse(
        r#"<p><div class="z">PASS</div></p>"#,
        ParserOptions::default(),
    )
    .unwrap();
    let parser = dom.parser();
    let mut selector = dom.nodes()[0]
        .as_tag()
        .unwrap()
        .query_selector(parser, "div.z")
        .unwrap();
    assert_eq!(selector.clone().count(), 1);
    assert_eq!(
        selector
            .next()
            .unwrap()
            .get(parser)
            .unwrap()
            .inner_text(parser),
        "PASS"
    );

    // nested
    let dom = parse(
        r#"<p><div class="z"><div class="y">PASS</div></div></p>"#,
        ParserOptions::default(),
    )
    .unwrap();
    let parser = dom.parser();
    let mut selector = dom.nodes()[0]
        .as_tag()
        .unwrap()
        .query_selector(parser, "div.y")
        .unwrap();
    assert_eq!(selector.clone().count(), 1);
    assert_eq!(
        selector
            .next()
            .unwrap()
            .get(parser)
            .unwrap()
            .inner_text(parser),
        "PASS"
    );
}

#[test]
fn query_selector_with_quote() {
    let input = r#"<div><meta property="og:title" content="hello" /></div>"#;
    let dom = parse(input, ParserOptions::default()).unwrap();
    let parser = dom.parser();
    let node_option = dom
        .query_selector(r#"meta[property="og:title"]"#)
        .and_then(|mut iter| iter.next());
    let value = if let Some(node) = node_option {
        Some(
            node.get(parser)
                .unwrap()
                .as_tag()
                .unwrap()
                .attributes()
                .get("content")
                .flatten()
                .unwrap()
                .try_as_utf8_str()
                .unwrap()
                .to_string(),
        )
    } else {
        None
    };

    assert_eq!(value, Some("hello".to_string()));
}

#[test]
fn query_selector_parent() {
    let input = r#"<div><p class="hi">hello</p></div>"#;
    let dom = parse(input, ParserOptions::default()).unwrap();
    let parser = dom.parser();
    let mut selector = dom.query_selector("div > .hi").unwrap();
    let el = tag_of(selector.next().and_then(|x| x.get(parser)).unwrap());

    assert_eq!(el.inner_text(parser), "hello");
}

#[test]
fn query_selector_parent_nested() {
    let input = r#"<div><p class="hi"><span>hello</span></p></div>"#;
    let dom = parse(input, ParserOptions::default()).unwrap();
    let parser = dom.parser();
    let mut selector = dom.query_selector("div > .hi > span").unwrap();
    let el = tag_of(selector.next().and_then(|x| x.get(parser)).unwrap());

    assert_eq!(el.inner_text(parser), "hello");
}

#[test]
fn query_selector_complex_list() {
    let input = r#"<main><div><p class="hello world" id="id"><span>cond1</span><section>cond2</section></p></div></main>"#;
    let dom = parse(input, ParserOptions::default()).unwrap();
    let parser = dom.parser();
    let selector = dom
        .query_selector("div > .hello.world#id > span, main section")
        .unwrap();
    let texts = selector
        .map(|x| String::from(x.get(parser).unwrap().inner_text(parser)))
        .collect::<Vec<_>>();

    assert_eq!(texts, vec![String::from("cond1"), String::from("cond2")]);
}

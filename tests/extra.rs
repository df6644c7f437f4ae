use tl::queryselector::parser::Parser as SelectorParser;
use tl::{parse, Bytes, HTMLVersion, ParserOptions};

#[test]
fn raw_text_element_body_is_one_text_node() {
    let dom = parse("<script>a<b>c</script>", ParserOptions::default()).unwrap();
    let tag = dom.nodes()[0].as_tag().unwrap();
    assert_eq!(tag.children().top().len(), 1);
    let child = tag.children().top()[0].get(dom.parser()).unwrap();
    assert_eq!(child.as_raw().unwrap().as_bytes(), b"a<b>c");
    assert_eq!(dom.nodes().len(), 2);
}

#[test]
fn raw_text_closer_ignores_case() {
    let dom = parse("<STYLE>p > a {}</style><p>x</p>", ParserOptions::default()).unwrap();
    assert_eq!(dom.children().len(), 2);
    assert_eq!(dom.nodes()[1].as_raw().unwrap().as_bytes(), b"p > a {}");
}

#[test]
fn void_elements_have_no_children() {
    let input = r#"<html><head></head><body><img src=""><br><hr></body></html>"#;
    let dom = parse(input, ParserOptions::default()).unwrap();
    for n in dom.nodes().iter() {
        let t = n.as_tag().unwrap();
        if t.name() == "img" || t.name() == "br" || t.name() == "hr" {
            assert_eq!(t.children().top().len(), 0);
        }
    }
    assert_eq!(dom.nodes().len(), 6);
}

#[test]
fn valueless_attribute_renders_bare() {
    let dom = parse("<iframe allowfullscreen></iframe>", ParserOptions::default()).unwrap();
    let t = dom.nodes()[0].as_tag().unwrap();
    assert_eq!(t.attributes().get("allowfullscreen"), Some(None));
    assert_eq!(dom.outer_html(), "<iframe allowfullscreen></iframe>");
}

#[test]
fn single_quoted_and_unquoted_values() {
    let dom = parse("<a href='x y' id=z>t</a>", ParserOptions::default()).unwrap();
    let t = dom.nodes()[0].as_tag().unwrap();
    assert_eq!(t.attributes().get("href"), Some(Some(&"x y".into())));
    assert_eq!(t.attributes().get("id"), Some(Some(&"z".into())));
    assert_eq!(t.attributes().get("class"), None);
}

#[test]
fn stray_closing_tag_is_skipped() {
    let dom = parse("</div>a<p>b</q>c</p>", ParserOptions::default()).unwrap();
    assert_eq!(dom.outer_html(), "a<p>b</p>c");
}

#[test]
fn unclosed_tags_close_at_end() {
    let dom = parse("<div><p>x", ParserOptions::default()).unwrap();
    assert_eq!(dom.outer_html(), "<div><p>x</p></div>");
    assert_eq!(dom.nodes()[0].as_tag().unwrap().raw(), "<div><p>x");
}

#[test]
fn doctype_versions() {
    let d = parse("<!doctype HTML>", ParserOptions::default()).unwrap();
    assert_eq!(d.version(), Some(HTMLVersion::HTML5));
    let d = parse(
        "<!DOCTYPE HTML PUBLIC \"-//W3C//DTD HTML 4.01//EN\" \"http://www.w3.org/TR/html4/strict.dtd\">",
        ParserOptions::default(),
    )
    .unwrap();
    assert_eq!(d.version(), Some(HTMLVersion::StrictHTML401));
    let d = parse(
        "<!DOCTYPE HTML PUBLIC \"-//W3C//DTD HTML 4.01 Transitional//EN\">",
        ParserOptions::default(),
    )
    .unwrap();
    assert_eq!(d.version(), Some(HTMLVersion::TransitionalHTML401));
    let d = parse("<p></p>", ParserOptions::default()).unwrap();
    assert_eq!(d.version(), None);
}

#[test]
fn attribute_operators() {
    let input = r#"<a class="x yz" href="https://e.org/a.png">1</a><a href="/b.jpg">2</a>"#;
    let dom = parse(input, ParserOptions::default()).unwrap();
    assert_eq!(dom.query_selector("[class~=yz]").unwrap().count(), 1);
    assert_eq!(dom.query_selector("[class~=y]").unwrap().count(), 0);
    assert_eq!(dom.query_selector("[href^=https]").unwrap().count(), 1);
    assert_eq!(dom.query_selector("[href$='jpg']").unwrap().count(), 1);
    assert!(dom.query_selector("[href$='.jpg']").is_none());
    assert_eq!(dom.query_selector("[href*=e]").unwrap().count(), 1);
    assert_eq!(dom.query_selector("[href*=\"/\"]").unwrap().count(), 2);
    assert_eq!(dom.query_selector("*").unwrap().count(), 2);
    assert_eq!(dom.query_selector(".x").unwrap().count(), 1);
}

#[test]
fn descendant_and_child_combinators() {
    let input = "<div><section><p>a</p></section><p>b</p></div><p>c</p>";
    let dom = parse(input, ParserOptions::default()).unwrap();
    let parser = dom.parser();
    let texts: Vec<String> = dom
        .query_selector("div p")
        .unwrap()
        .map(|h| h.get(parser).unwrap().inner_text(parser))
        .collect();
    assert_eq!(texts, vec!["a".to_string(), "b".to_string()]);
    let texts: Vec<String> = dom
        .query_selector("div > p")
        .unwrap()
        .map(|h| h.get(parser).unwrap().inner_text(parser))
        .collect();
    assert_eq!(texts, vec!["b".to_string()]);
}

#[test]
fn unparsable_selectors() {
    let dom = parse("<p></p>", ParserOptions::default()).unwrap();
    assert!(dom.query_selector("").is_none());
    assert!(dom.query_selector("   ").is_none());
    assert!(dom.query_selector(")").is_none());
    assert!(dom.query_selector("#").is_none());
    assert!(dom.query_selector(".").is_none());
}

#[test]
fn selector_parser_reads_a_tag_name() {
    let mut p = SelectorParser::new(b"div");
    assert!(p.selector().is_some());
    let mut p = SelectorParser::new(b"");
    assert!(p.selector().is_none());
}

#[test]
fn lossy_and_strict_utf8() {
    let bad: &[u8] = &[104, 0xff, 105];
    let b = Bytes::from(bad);
    assert_eq!(b.as_utf8_str(), "h\u{FFFD}i");
    assert_eq!(b.try_as_utf8_str(), None);
    let good = Bytes::from("h\u{e9}");
    assert_eq!(good.try_as_utf8_str(), Some("h\u{e9}"));
}

#[test]
fn comment_and_text_nodes_in_order() {
    let dom = parse("a<!--b-->c", ParserOptions::default()).unwrap();
    assert_eq!(dom.nodes().len(), 3);
    assert_eq!(dom.nodes()[1].as_comment().unwrap().as_bytes(), b"<!--b-->");
    assert_eq!(dom.outer_html(), "a<!--b-->c");
}

#[test]
fn unterminated_comment_runs_to_end() {
    let dom = parse("<!-- x", ParserOptions::default()).unwrap();
    assert_eq!(dom.nodes()[0].as_comment().unwrap().as_bytes(), b"<!-- x");
}

#[test]
fn empty_input_gives_empty_document() {
    let dom = parse("", ParserOptions::default()).unwrap();
    assert_eq!(dom.nodes().len(), 0);
    assert_eq!(dom.outer_html(), "");
}

#[test]
fn insert_replaces_in_place() {
    let mut attr = tl::Attributes::new();
    attr.insert("a", Some(Bytes::from("1")));
    attr.insert("b", None);
    attr.insert("a", Some(Bytes::from("2")));
    assert_eq!(attr.len(), 2);
    assert_eq!(attr.get("a"), Some(Some(&"2".into())));
    attr.remove("a");
    assert_eq!(attr.get("a"), None);
    assert_eq!(attr.len(), 1);
}

#[test]
fn case_insensitive_close() {
    let dom = parse("<DIV>x</div>y", ParserOptions::default()).unwrap();
    assert_eq!(dom.children().len(), 2);
    assert_eq!(dom.nodes()[0].as_tag().unwrap().name(), "DIV");
}

#[test]
fn id_and_class_shortcuts() {
    let dom = parse("<p id=main class=\"a b\" hidden></p>", ParserOptions::default()).unwrap();
    let attrs = dom.nodes()[0].as_tag().unwrap().attributes();
    assert_eq!(attrs.id().unwrap().as_bytes(), b"main");
    assert_eq!(attrs.class().unwrap().as_bytes(), b"a b");
    let dom = parse("<p hidden></p>", ParserOptions::default()).unwrap();
    let attrs = dom.nodes()[0].as_tag().unwrap().attributes();
    assert!(attrs.id().is_none());
    assert!(attrs.class().is_none());
}

#[test]
fn boundaries_of_nested_and_self_closing_tags() {
    let dom = parse("ab<br /><i>x</i>", ParserOptions::default()).unwrap();
    let br = dom.nodes()[1].as_tag().unwrap();
    assert_eq!(br.boundaries(dom.parser()), (2, 7));
    let i = dom.nodes()[2].as_tag().unwrap();
    assert_eq!(i.boundaries(dom.parser()), (8, 15));
}

#[test]
fn class_tokens_in_order() {
    let dom = parse("<p class=\"  a\tbb  c \"></p><i></i>", ParserOptions::default()).unwrap();
    let attrs = dom.nodes()[0].as_tag().unwrap().attributes();
    let tokens = attrs.class_iter();
    assert_eq!(tokens, vec![b"a" as &[u8], b"bb", b"c"]);
    let attrs = dom.nodes()[1].as_tag().unwrap().attributes();
    assert!(attrs.class_iter().is_empty());
}

#[test]
fn partial_selectors_keep_what_was_built() {
    let dom = parse("<div><a>x</a></div>", ParserOptions::default()).unwrap();
    assert_eq!(dom.query_selector("div >").unwrap().count(), 1);
    assert_eq!(dom.query_selector("a]").unwrap().count(), 1);
    assert_eq!(dom.query_selector("a#").unwrap().count(), 1);
    assert_eq!(dom.query_selector("div > a, [").unwrap().count(), 1);
}

#[test]
fn whitespace_is_a_descendant_combinator_after_a_child_step() {
    let dom = parse("<a><b><i><c>1</c></i></b></a>", ParserOptions::default()).unwrap();
    let parser = dom.parser();
    let texts: Vec<String> = dom
        .query_selector("a>b c")
        .unwrap()
        .map(|h| h.get(parser).unwrap().inner_text(parser))
        .collect();
    assert_eq!(texts, vec!["1".to_string()]);
}

#[test]
fn xhtml_doctype() {
    let d = parse(
        "<!DOCTYPE html PUBLIC \"-//W3C//DTD XHTML 1.0 Strict//EN\">",
        ParserOptions::default(),
    )
    .unwrap();
    assert_eq!(d.version(), Some(HTMLVersion::XHTML));
}

#[test]
fn empty_attribute_names_and_values_build_nothing() {
    let dom = parse("<a x=\"\">t</a>", ParserOptions::default()).unwrap();
    assert!(dom.query_selector("[]").is_none());
    assert!(dom.query_selector("[=y]").is_none());
    assert!(dom.query_selector("[x=]").is_none());
    assert!(dom.query_selector("[x='']").is_none());
    assert!(dom.query_selector("[x^=\"\"]").is_none());
    assert_eq!(dom.query_selector("a[]").unwrap().count(), 1);
    assert_eq!(dom.query_selector("[x]").unwrap().count(), 1);
}

use mdbook_protobuf::graph::SymbolUsages;
use mdbook_protobuf::links::{Backlink, SymbolLink};
use mdbook_protobuf::markdown::{link_proto_symbols, Page};

#[test]
fn should_preserve_normal_links() {
    let mut chapter = Page {
        name: "".to_string(),
        content: r#"
# test chapter

Lorem ipsum [footnote link][1] [external link](https://example.com)

<a href="foobar">inside</a>

[1]: https://example.com

            "#
        .to_string(),
        path: None,
    };

    let original_content = chapter.content.clone();

    link_proto_symbols(&mut chapter, &mut SymbolUsages::new()).expect("should succeed");

    assert_eq!(chapter.content.trim(), original_content.trim())
}

#[test]
fn should_replace_proto_links_with_symbol_link() {
    let packages: Vec<String> = vec!["hello".into()];
    let mut usages = SymbolUsages::new();
    usages.ensure_entry(&SymbolLink::from_fqsl(".hello.HelloWorld".into(), &packages));

    let mut chapter = Page {
        name: "".to_string(),
        content: r#"
# test chapter

Lorem ipsum [proto link](proto!(HelloWorld))

"#
        .to_string(),
        path: None,
    };

    link_proto_symbols(&mut chapter, &mut usages).expect("should succeed");

    assert_eq!(
        chapter.content.trim(),
        r#"
# test chapter

Lorem ipsum <a href="/proto/hello.md#HelloWorld">proto link</a>

"#
        .trim()
    )
}

#[test]
fn should_error_and_offer_solutions_in_the_result_when_too_many_symbols_match() {
    let packages: Vec<String> = vec!["hello".into(), "other.namespace".into()];

    let mut usages = SymbolUsages::new();
    usages.ensure_entry(&SymbolLink::from_fqsl(".hello.HelloWorld".into(), &packages));
    usages.ensure_entry(&SymbolLink::from_fqsl(
        ".other.namespace.HelloWorld".into(),
        &packages,
    ));
    usages.ensure_entry(&SymbolLink::from_fqsl(
        ".other.namespace.Unrelated".into(),
        &packages,
    ));

    let mut chapter = Page {
        name: "".to_string(),
        content: r#"
# test chapter

Lorem ipsum [proto link](proto!(HelloWorld))

"#
        .to_string(),
        path: None,
    };

    let res = link_proto_symbols(&mut chapter, &mut usages);

    // contains check used as the order is (intentionally) not stable
    let err = res.unwrap_err();
    assert!(vec![
        r#"More than one protobuf symbol matched your query. Replace your link with one of the following:
proto!(.hello.HelloWorld)
proto!(.other.namespace.HelloWorld)"#,
        r#"More than one protobuf symbol matched your query. Replace your link with one of the following:
proto!(.other.namespace.HelloWorld)
proto!(.hello.HelloWorld)"#,
    ]
    .contains(&err.message()));
}

#[test]
fn should_error_and_offer_solutions_in_the_result_when_zero_symbols_match() {
    let packages: Vec<String> = vec!["hello".into(), "other".into()];

    let mut usages = SymbolUsages::new();
    usages.ensure_entry(&SymbolLink::from_fqsl(".hello.HelloWorld".into(), &packages));
    usages.ensure_entry(&SymbolLink::from_fqsl(".hello.GoodbyeWorld".into(), &packages));

    let mut chapter = Page {
        name: "".to_string(),
        content: r#"
# test chapter

Lorem ipsum [proto link](proto!(HelloWord))

"#
        .to_string(),
        path: None,
    };

    let res = link_proto_symbols(&mut chapter, &mut usages);

    assert_eq!(
        res.unwrap_err().message(),
        r#"No protobuf symbol matched your query `HelloWord`, consider one of the following near matches:
proto!(.hello.HelloWorld)"#
    )
}

#[test]
fn should_link_to_parent_of_nested_message() {
    let packages: Vec<String> = vec!["hello".into()];
    let mut usages = SymbolUsages::new();
    usages.ensure_entry(&SymbolLink::from_fqsl(".hello.HelloWorld".into(), &packages));
    usages.ensure_entry(&SymbolLink::from_fqsl(
        ".hello.HelloWorld.Nested".into(),
        &packages,
    ));

    let mut chapter = Page {
        name: "".to_string(),
        content: r#"
# test chapter

Lorem ipsum [proto link](proto!(HelloWorld))

"#
        .to_string(),
        path: None,
    };

    link_proto_symbols(&mut chapter, &mut usages).expect("should succeed");

    assert_eq!(
        chapter.content.trim(),
        r#"
# test chapter

Lorem ipsum <a href="/proto/hello.md#HelloWorld">proto link</a>

"#
        .trim()
    )
}

#[test]
fn should_offer_a_sample_when_nothing_is_even_similar() {
    let packages: Vec<String> = vec!["hello".into()];

    let mut usages = SymbolUsages::new();
    usages.ensure_entry(&SymbolLink::from_fqsl(".hello.HelloWorld".into(), &packages));
    usages.ensure_entry(&SymbolLink::from_fqsl(".hello.GoodbyeWorld".into(), &packages));

    let mut chapter = Page {
        name: "".to_string(),
        content: "Lorem ipsum [proto link](proto!(zzzzqqq))\n".to_string(),
        path: None,
    };

    let res = link_proto_symbols(&mut chapter, &mut usages);

    assert_eq!(
        res.unwrap_err().message(),
        r#"No protobuf symbol matched your query `zzzzqqq`, or was similar. Sample of valid formats:
proto!(.hello.HelloWorld)
proto!(.hello.GoodbyeWorld)"#
    )
}

#[test]
fn resolver_returns_the_unique_suffix_match() {
    let packages: Vec<String> = vec!["hello".into(), "other".into()];
    let candidates = vec![
        SymbolLink::from_fqsl(".hello.HelloWorld".into(), &packages),
        SymbolLink::from_fqsl(".other.Unrelated".into(), &packages),
    ];
    let resolved =
        mdbook_protobuf::resolve::resolve_query("HelloWorld", &candidates).expect("unique");
    assert_eq!(resolved.symbol, "HelloWorld");
    assert_eq!(resolved.path, "hello");
}

#[test]
fn pages_with_a_path_record_a_content_backlink() {
    let packages: Vec<String> = vec!["hello".into()];
    let key = SymbolLink::from_fqsl(".hello.HelloWorld".into(), &packages);
    let mut usages = SymbolUsages::new();
    usages.ensure_entry(&key);

    let mut chapter = Page {
        name: "test chapter".to_string(),
        content: "Lorem ipsum [proto link](proto!(HelloWorld))\n".to_string(),
        path: Some("chapter_1.md".to_string()),
    };

    link_proto_symbols(&mut chapter, &mut usages).expect("should succeed");

    assert!(chapter
        .content
        .contains(r#"<a id="1.hello.HelloWorld" href="/proto/hello.md#HelloWorld">proto link</a>"#));

    let edges = usages.get_edges(&key).expect("symbol should be known");
    assert_eq!(edges.len(), 1);
    match &edges[0] {
        Backlink::Content(c) => {
            assert_eq!(c.path, "chapter_1.md");
            assert_eq!(c.id, "1.hello.HelloWorld");
            assert_eq!(c.label, "test chapter[1]");
            assert_eq!(c.href(), "/chapter_1.md#1.hello.HelloWorld");
        }
        _ => panic!("expected a content backlink"),
    }
}

#[test]
fn draft_pages_without_a_path_are_not_backlinked() {
    let packages: Vec<String> = vec!["hello".into()];
    let key = SymbolLink::from_fqsl(".hello.HelloWorld".into(), &packages);
    let mut usages = SymbolUsages::new();
    usages.ensure_entry(&key);

    let mut chapter = Page {
        name: "draft".to_string(),
        content: "A [link](proto!(HelloWorld)) in a draft.\n".to_string(),
        path: None,
    };

    link_proto_symbols(&mut chapter, &mut usages).expect("should succeed");

    let edges = usages.get_edges(&key).expect("symbol should be known");
    assert_eq!(edges.len(), 0);
}

#[test]
fn citation_ids_count_per_page() {
    let packages: Vec<String> = vec!["hello".into()];
    let key = SymbolLink::from_fqsl(".hello.HelloWorld".into(), &packages);
    let mut usages = SymbolUsages::new();
    usages.ensure_entry(&key);

    let mut chapter = Page {
        name: "page".to_string(),
        content: "[one](proto!(HelloWorld)) and [two](proto!(HelloWorld))\n".to_string(),
        path: Some("p.md".to_string()),
    };

    link_proto_symbols(&mut chapter, &mut usages).expect("should succeed");

    let edges = usages.get_edges(&key).expect("symbol should be known");
    assert_eq!(edges.len(), 2);
    match (&edges[0], &edges[1]) {
        (Backlink::Content(a), Backlink::Content(b)) => {
            assert_eq!(a.id, "1.hello.HelloWorld");
            assert_eq!(b.id, "2.hello.HelloWorld");
            assert_eq!(a.label, "page[1]");
            assert_eq!(b.label, "page[2]");
        }
        _ => panic!("expected content backlinks"),
    }
}

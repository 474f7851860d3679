use mdbook_protobuf::links::SymbolLink;

#[test]
fn should_parse_simple_fqsl() {
    let fqsl = ".package.Message";
    let packages: Vec<String> = vec!["package".into()];

    assert_eq!(
        SymbolLink::from_fqsl(fqsl.to_string(), &packages),
        SymbolLink {
            symbol: "Message".to_string(),
            path: "package".to_string(),
            property: None,
            label_override: None,
            own_id: None
        }
    )
}

#[test]
fn should_parse_nested_fqsl() {
    let fqsl = ".package.deeper.Message.Nested";
    let packages: Vec<String> = vec!["package".into(), "package.deeper".into()];

    assert_eq!(
        SymbolLink::from_fqsl(fqsl.to_string(), &packages),
        SymbolLink {
            symbol: "Message.Nested".to_string(),
            path: "package/deeper".to_string(),
            property: None,
            label_override: None,
            own_id: None
        }
    )
}

#[test]
fn should_parse_properties_of_fqsl() {
    let fqsl = ".package.Service::FooCall";
    let packages: Vec<String> = vec!["package".into()];

    assert_eq!(
        SymbolLink::from_fqsl(fqsl.to_string(), &packages),
        SymbolLink {
            symbol: "Service".to_string(),
            path: "package".to_string(),
            property: Some("FooCall".into()),
            label_override: None,
            own_id: None
        }
    )
}

#[test]
fn should_handle_fqsl_that_omits_package() {
    let fqsl = ".Foo";
    let packages: Vec<String> = vec!["package".into()];

    assert_eq!(
        SymbolLink::from_fqsl(fqsl.to_string(), &packages),
        SymbolLink {
            symbol: "Foo".to_string(),
            path: "".to_string(),
            property: None,
            label_override: None,
            own_id: None
        }
    )
}

#[test]
fn property_round_trips_through_id() {
    let packages: Vec<String> = vec!["package".into()];
    let link = SymbolLink::from_fqsl(".package.Service::FooCall".to_string(), &packages);
    assert_eq!(link.symbol, "Service");
    assert_eq!(link.property, Some("FooCall".to_string()));
    assert_eq!(link.id(), "Service::FooCall");
    assert_eq!(link.fqsl(), ".package.Service::FooCall");
}

#[test]
fn href_points_into_the_package_page() {
    let packages: Vec<String> = vec!["hello".into()];
    let link = SymbolLink::from_fqsl(".hello.HelloWorld".to_string(), &packages);
    assert_eq!(link.href(), "/proto/hello.md#HelloWorld");
    assert_eq!(link.label(), "HelloWorld");
}

#[test]
fn label_override_wins_over_last_segment() {
    let packages: Vec<String> = vec!["hello".into()];
    let mut link = SymbolLink::from_fqsl(".hello.HelloWorld".to_string(), &packages);
    link.set_label("custom".to_string());
    assert_eq!(link.label(), "custom");
}

#[test]
fn matches_compares_dotted_segments_not_substrings() {
    let packages: Vec<String> = vec!["pkg".into()];
    let widget = SymbolLink::from_fqsl(".pkg.Widget".to_string(), &packages);
    let not_widget = SymbolLink::from_fqsl(".pkg.NotWidget".to_string(), &packages);
    assert!(widget.matches("Widget"));
    assert!(widget.matches("pkg.Widget"));
    assert!(!not_widget.matches("Widget"));
    assert!(not_widget.matches("NotWidget"));
}

#[test]
fn longest_package_prefix_wins() {
    let packages: Vec<String> = vec!["a".into(), "a.b".into(), "a.b.c".into()];
    let link = SymbolLink::from_fqsl(".a.b.c.Msg".to_string(), &packages);
    assert_eq!(link.path, "a/b/c");
    assert_eq!(link.symbol, "Msg");
}

use mdbook_protobuf::descriptor::{
    EnumDescriptor, EnumValueDescriptor, FieldDescriptor, FieldKind, FileDescriptor,
    Location, MessageDescriptor, MethodDescriptor, ServiceDescriptor,
};
use mdbook_protobuf::graph::SymbolUsages;
use mdbook_protobuf::links::{Backlink, SymbolLink};
use mdbook_protobuf::markdown::Page;
use mdbook_protobuf::primitive::Primitive;
use mdbook_protobuf::view::{FieldType, ProtoFileDescriptorTemplate, Source};
use mdbook_protobuf::ProtobufPreprocessor;

fn field(name: &str, kind: FieldKind, type_ref: &str) -> FieldDescriptor {
    FieldDescriptor {
        name: name.to_string(),
        kind: Some(kind),
        type_ref: type_ref.to_string(),
        proto3_optional: false,
        oneof_index: None,
        deprecated: false,
    }
}

fn message(name: &str, fields: Vec<FieldDescriptor>) -> MessageDescriptor {
    MessageDescriptor {
        name: name.to_string(),
        fields,
        oneofs: vec![],
        nested_messages: vec![],
        nested_enums: vec![],
        deprecated: false,
    }
}

fn file(package: &str, messages: Vec<MessageDescriptor>) -> FileDescriptor {
    FileDescriptor {
        name: "test.proto".to_string(),
        package: package.to_string(),
        messages,
        enums: vec![],
        services: vec![],
        source_code_info: None,
    }
}

#[test]
fn field_type_references_become_symbol_backlinks() {
    let f = FileDescriptor {
        enums: vec![EnumDescriptor {
            name: "Color".to_string(),
            values: vec![EnumValueDescriptor {
                name: "RED".to_string(),
                number: 0,
                deprecated: false,
            }],
        }],
        ..file(
            "pkg",
            vec![message("Widget", vec![field("color", FieldKind::Enum, ".pkg.Color")])],
        )
    };
    let packages: Vec<String> = vec!["pkg".into()];
    let mut usages = SymbolUsages::new();

    let t = ProtoFileDescriptorTemplate::from_descriptor(&f, &packages, &mut usages)
        .expect("should index");
    assert_eq!(t.filename, "test.proto");
    assert_eq!(t.messages.len(), 1);
    assert_eq!(t.messages[0].name, "Widget");
    assert_eq!(t.enums.len(), 1);
    assert_eq!(t.enums[0].values.len(), 1);
    assert_eq!(t.enums[0].values[0].name, "RED");

    let key = SymbolLink::from_fqsl(".pkg.Color".to_string(), &packages);
    let edges = usages.get_edges(&key).expect("target should have an entry");
    assert_eq!(edges.len(), 1);
    match &edges[0] {
        Backlink::Symbol(s) => {
            assert_eq!(s.symbol, "Widget");
            assert_eq!(s.path, "pkg");
            assert_eq!(s.property, Some("color".to_string()));
        }
        _ => panic!("expected a symbol backlink"),
    }
}

#[test]
fn methods_backlink_their_request_and_response_types() {
    let f = FileDescriptor {
        services: vec![ServiceDescriptor {
            name: "Greeter".to_string(),
            methods: vec![MethodDescriptor {
                name: "SayHello".to_string(),
                input_type: Some(".pkg.HelloRequest".to_string()),
                output_type: Some(".pkg.HelloReply".to_string()),
                deprecated: false,
            }],
        }],
        ..file(
            "pkg",
            vec![message("HelloRequest", vec![]), message("HelloReply", vec![])],
        )
    };
    let packages: Vec<String> = vec!["pkg".into()];
    let mut usages = SymbolUsages::new();

    let t = ProtoFileDescriptorTemplate::from_descriptor(&f, &packages, &mut usages)
        .expect("should index");
    assert_eq!(t.services.len(), 1);
    assert_eq!(t.services[0].methods.len(), 1);
    assert_eq!(t.services[0].methods[0].name, "SayHello");

    // The service and the method are both known symbols now.
    let service_key = SymbolLink::from_fqsl(".pkg.Greeter".to_string(), &packages);
    assert!(usages.get_edges(&service_key).is_some());
    let method_key =
        SymbolLink::from_fqsl(".pkg.Greeter::SayHello".to_string(), &packages);
    assert!(usages.get_edges(&method_key).is_some());

    // Request and response each carry one backlink from the method.
    for target in [".pkg.HelloRequest", ".pkg.HelloReply"] {
        let key = SymbolLink::from_fqsl(target.to_string(), &packages);
        let edges = usages.get_edges(&key).expect("type should have an entry");
        assert_eq!(edges.len(), 1);
        match &edges[0] {
            Backlink::Symbol(s) => {
                assert_eq!(s.symbol, "Greeter");
                assert_eq!(s.property, Some("SayHello".to_string()));
            }
            _ => panic!("expected a symbol backlink"),
        }
    }
}

#[test]
fn oneof_fields_group_under_their_declaration() {
    let mut d = message(
        "Shape",
        vec![
            field("plain", FieldKind::String, ""),
            FieldDescriptor {
                oneof_index: Some(0),
                ..field("circle", FieldKind::Uint32, "")
            },
            FieldDescriptor {
                oneof_index: Some(0),
                ..field("square", FieldKind::Uint32, "")
            },
        ],
    );
    d.oneofs = vec!["kind".to_string()];
    let f = file("pkg", vec![d]);
    let packages: Vec<String> = vec!["pkg".into()];
    let mut usages = SymbolUsages::new();

    let t = ProtoFileDescriptorTemplate::from_descriptor(&f, &packages, &mut usages)
        .expect("should index");
    // One plain field, then one group holding the two alternatives.
    let fields = &t.messages[0].fields;
    assert_eq!(fields.len(), 2);
    match &fields[0] {
        mdbook_protobuf::view::Field::Simple(s) => assert_eq!(s.name, "plain"),
        _ => panic!("expected the plain field first"),
    }
    match &fields[1] {
        mdbook_protobuf::view::Field::OneOf(o) => {
            assert_eq!(o.name, "kind");
            assert_eq!(o.fields.len(), 2);
            assert_eq!(o.fields[0].name, "circle");
            assert_eq!(o.fields[1].name, "square");
        }
        _ => panic!("expected the group second"),
    }
}

#[test]
fn out_of_range_oneof_index_is_a_structural_error() {
    let d = message(
        "Broken",
        vec![FieldDescriptor {
            oneof_index: Some(3),
            ..field("stray", FieldKind::Uint32, "")
        }],
    );
    let f = file("pkg", vec![d]);
    let packages: Vec<String> = vec!["pkg".into()];
    let mut usages = SymbolUsages::new();

    let err = ProtoFileDescriptorTemplate::from_descriptor(&f, &packages, &mut usages)
        .expect_err("should fail");
    assert_eq!(err.message(), "oneof index out of range in descriptor");
}

#[test]
fn empty_type_reference_is_a_structural_error() {
    let d = message("Broken", vec![field("dangling", FieldKind::Message, "")]);
    let f = file("pkg", vec![d]);
    let packages: Vec<String> = vec!["pkg".into()];
    let mut usages = SymbolUsages::new();

    let err = ProtoFileDescriptorTemplate::from_descriptor(&f, &packages, &mut usages)
        .expect_err("should fail");
    assert_eq!(err.message(), "unresolvable type reference in descriptor");
}

#[test]
fn malformed_span_is_a_structural_error() {
    let mut f = file("pkg", vec![message("Widget", vec![])]);
    f.source_code_info = Some(vec![Location {
        path: vec![4, 0],
        span: vec![7],
        leading_comments: None,
        trailing_comments: None,
        leading_detached_comments: vec![],
    }]);
    let packages: Vec<String> = vec!["pkg".into()];
    let mut usages = SymbolUsages::new();

    let err = ProtoFileDescriptorTemplate::from_descriptor(&f, &packages, &mut usages)
        .expect_err("should fail");
    assert_eq!(err.message(), "unexpected Location::span format");
}

#[test]
fn source_spans_render_one_based_line_links() {
    let one_line = Location {
        path: vec![4, 0],
        span: vec![0, 0, 5],
        leading_comments: Some("hi".to_string()),
        trailing_comments: None,
        leading_detached_comments: vec![],
    };
    let s = Source::from_location(&one_line, "test.proto").expect("well formed");
    assert_eq!(s.href(), "test.proto#L1");

    let multi_line = Location {
        span: vec![0, 0, 2, 10],
        ..one_line.duplicate()
    };
    let s2 = Source::from_location(&multi_line, "test.proto").expect("well formed");
    assert_eq!(s2.href(), "test.proto#L1-L3");
}

#[test]
fn scalar_definitions_name_their_proto_type() {
    let p: Primitive = FieldType::Primitive(FieldKind::Uint32).definition();
    assert_eq!(p.proto, "uint32");
    assert_eq!(p.rust, "u32");
    let b: Primitive = FieldType::Primitive(FieldKind::Bytes).definition();
    assert_eq!(b.proto, "bytes");
}

#[test]
fn process_groups_namespaces_and_rewrites_pages() {
    let files = vec![
        file("hello", vec![message("HelloWorld", vec![])]),
        file("hello", vec![message("GoodbyeWorld", vec![])]),
        file("other", vec![message("Unrelated", vec![])]),
    ];
    // Messages become known to the resolver only when something refers to
    // them, so add a field reference to HelloWorld.
    let mut files = files;
    files[1].messages[0]
        .fields
        .push(field("greeting", FieldKind::Message, ".hello.HelloWorld"));

    let mut pages = vec![Page {
        name: "guide".to_string(),
        content: "See [the greeting](proto!(HelloWorld)).\n".to_string(),
        path: Some("guide.md".to_string()),
    }];

    let pre = ProtobufPreprocessor::new();
    let namespaces = pre
        .process(&files, &mut pages, &None)
        .expect("should process");

    assert_eq!(namespaces.len(), 2);
    assert_eq!(namespaces[0].0, "hello");
    assert_eq!(namespaces[0].1.files.len(), 2);
    assert_eq!(namespaces[1].0, "other");
    assert_eq!(namespaces[1].1.files.len(), 1);

    assert!(pages[0]
        .content
        .contains(r#"href="/proto/hello.md#HelloWorld""#));

    // The attachment pass gave HelloWorld its backlinks: the field reference
    // and the page citation.
    let hello = &namespaces[0].1.files[0].messages[0];
    assert_eq!(hello.name, "HelloWorld");
    assert_eq!(hello.backlinks.links.len(), 2);
}

#[test]
fn source_url_pass_stamps_every_entity() {
    let files = vec![file("pkg", vec![message("Widget", vec![])])];
    let mut pages: Vec<Page> = vec![];
    let pre = ProtobufPreprocessor::new();
    let namespaces = pre
        .process(&files, &mut pages, &Some("https://example.com/src/".to_string()))
        .expect("should process");
    let widget = &namespaces[0].1.files[0].messages[0];
    assert_eq!(
        widget.source_url,
        Some("https://example.com/src/".to_string())
    );
}

#[test]
fn nested_messages_get_dotted_identities() {
    let mut outer = message("Outer", vec![]);
    outer.nested_messages = vec![message(
        "Inner",
        vec![field("back", FieldKind::Message, ".pkg.Outer.Inner")],
    )];
    let f = file("pkg", vec![outer]);
    let packages: Vec<String> = vec!["pkg".into()];
    let mut usages = SymbolUsages::new();

    let t = ProtoFileDescriptorTemplate::from_descriptor(&f, &packages, &mut usages)
        .expect("should index");
    let inner = &t.messages[0].nested_message[0];
    assert_eq!(inner.name, "Inner");
    assert_eq!(inner.self_link.symbol, "Outer.Inner");
    assert_eq!(inner.self_link.path, "pkg");
    assert_eq!(inner.namespace, vec!["Outer".to_string()]);

    // The self-referencing field produced an edge keyed by the nested
    // identity.
    let key = SymbolLink::from_fqsl(".pkg.Outer.Inner".to_string(), &packages);
    let edges = usages.get_edges(&key).expect("nested symbol known");
    assert_eq!(edges.len(), 1);
}

#[test]
fn namespaces_come_out_in_ascending_package_order() {
    let files = vec![
        file("zeta", vec![message("Z", vec![])]),
        file("alpha", vec![message("A", vec![])]),
        file("mid", vec![message("M", vec![])]),
        file("alpha", vec![message("B", vec![])]),
    ];
    let mut pages: Vec<Page> = vec![];
    let pre = ProtobufPreprocessor::new();
    let namespaces = pre.process(&files, &mut pages, &None).expect("should process");
    assert_eq!(namespaces.len(), 3);
    assert_eq!(namespaces[0].0, "alpha");
    assert_eq!(namespaces[1].0, "mid");
    assert_eq!(namespaces[2].0, "zeta");
    // The two alpha files stay grouped, in declaration order.
    assert_eq!(namespaces[0].1.files.len(), 2);
    assert_eq!(namespaces[0].1.files[0].messages[0].name, "A");
    assert_eq!(namespaces[0].1.files[1].messages[0].name, "B");
}

#[test]
fn empty_inputs_process_to_an_empty_document() {
    let files: Vec<FileDescriptor> = vec![];
    let mut pages: Vec<Page> = vec![];
    let pre = ProtobufPreprocessor::new();
    let namespaces = pre.process(&files, &mut pages, &None).expect("should process");
    assert_eq!(namespaces.len(), 0);
}

#[test]
fn graph_keys_ignore_display_only_fields() {
    let packages: Vec<String> = vec!["pkg".into()];
    let plain = SymbolLink::from_fqsl(".pkg.Widget".to_string(), &packages);
    let mut decorated = SymbolLink::from_fqsl(".pkg.Widget".to_string(), &packages);
    decorated.set_label("pretty".to_string());
    decorated.set_own_id("7.pkg.Widget".to_string());

    let mut usages = SymbolUsages::new();
    usages.ensure_entry(&plain);
    usages.push_edge(
        &decorated,
        Backlink::Symbol(SymbolLink::from_fqsl(".pkg.Other".to_string(), &packages)),
    );

    // Only one entry exists: the decorated key addressed the same entity.
    assert_eq!(usages.len(), 1);
    assert_eq!(usages.get_edges(&plain).expect("same entity").len(), 1);
}

#[test]
fn preprocessor_names_itself_and_rejects_one_renderer() {
    let pre = ProtobufPreprocessor::new();
    assert_eq!(pre.name(), "protobuf");
    assert!(pre.supports_renderer("html"));
    assert!(!pre.supports_renderer("not-supported"));
}

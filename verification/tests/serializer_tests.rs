use zdtwalk::{
    format_property_value, parse_dts, serialize, Cell, DeviceTree, DtsVersion, Include, IncludeKind,
    MemoryReservation, Node, OutputFormat, Property, PropertyValue, Reference, ReferenceNode,
    SerializerConfig, ValuePart,
};

#[test]
fn round_trip_minimal() {
    let src = "/dts-v1/;\n/ {\n};\n";
    let tree = parse_dts(src).unwrap();
    let config = SerializerConfig::default();
    let output = serialize(&tree, &config);
    parse_dts(&output).unwrap();
}

#[test]
fn overlay_adds_plugin() {
    let src = "/dts-v1/;\n/ {\n\tcompat = \"x\";\n};\n";
    let tree = parse_dts(src).unwrap();
    let config = SerializerConfig {
        output_format: OutputFormat::Overlay,
        header_comment: Some("Generated by zdtwalk.".to_string()),
        ..Default::default()
    };
    let output = serialize(&tree, &config);
    assert!(output.contains("/plugin/;"));
    assert!(output.contains("// Generated by zdtwalk."));
}

#[test]
fn sorted_output() {
    let src = r#"/dts-v1/;
/ {
    z-prop = "z";
    a-prop = "a";

    z-node {
    };

    a-node {
    };
};
"#;
    let tree = parse_dts(src).unwrap();
    let config = SerializerConfig {
        sort_properties: true,
        sort_nodes: true,
        ..Default::default()
    };
    let output = serialize(&tree, &config);
    let a_prop_pos = output.find("a-prop").unwrap();
    let z_prop_pos = output.find("z-prop").unwrap();
    assert!(a_prop_pos < z_prop_pos, "properties should be sorted");

    let a_node_pos = output.find("a-node").unwrap();
    let z_node_pos = output.find("z-node").unwrap();
    assert!(a_node_pos < z_node_pos, "nodes should be sorted");
}

#[test]
fn overlay_with_reference_nodes() {
    let mut tree = DeviceTree::new();
    tree.version = Some(DtsVersion::V1);
    tree.is_plugin = true;

    let mut node = Node::new("");
    node.properties.push(Property::new_string("status", "okay"));
    tree.reference_nodes.push(ReferenceNode {
        reference: Reference::Label("i2c1".to_string()),
        node,
    });

    let config = SerializerConfig {
        output_format: OutputFormat::Overlay,
        header_comment: Some("Generated by zdtwalk".to_string()),
        ..Default::default()
    };
    let output = serialize(&tree, &config);

    assert!(output.contains("/dts-v1/;"), "missing /dts-v1/;");
    assert!(output.contains("/plugin/;"), "missing /plugin/;");
    assert!(output.contains("// Generated by zdtwalk"), "missing header comment");
    assert!(output.contains("&i2c1"), "missing reference node &i2c1");
    assert!(output.contains("status = \"okay\""), "missing status property");

    let reparsed = parse_dts(&output).unwrap();
    assert!(reparsed.is_plugin);
    assert_eq!(reparsed.reference_nodes.len(), 1);
    assert_eq!(reparsed.reference_nodes[0].reference, Reference::Label("i2c1".to_string()));
}

#[test]
fn overlay_with_path_reference() {
    let mut tree = DeviceTree::new();
    tree.version = Some(DtsVersion::V1);
    tree.is_plugin = true;

    let mut node = Node::new("");
    node.properties.push(Property::new_string("status", "okay"));
    tree.reference_nodes.push(ReferenceNode {
        reference: Reference::Path("/soc/i2c@40003000".to_string()),
        node,
    });

    let config = SerializerConfig {
        output_format: OutputFormat::Overlay,
        header_comment: Some("Generated by zdtwalk".to_string()),
        ..Default::default()
    };
    let output = serialize(&tree, &config);

    assert!(output.contains("&{/soc/i2c@40003000}"));
    assert!(output.contains("status = \"okay\""));

    let reparsed = parse_dts(&output).unwrap();
    assert_eq!(reparsed.reference_nodes.len(), 1);
}

#[test]
fn property_value_types() {
    let prop = Property::new_boolean("wakeup-source");
    assert!(prop.value.is_none());

    let prop = Property::new_string("compatible", "vendor,device");
    let val = format_property_value(prop.value.as_ref().unwrap());
    assert_eq!(val, "\"vendor,device\"");

    let prop = Property::new_cells("reg", vec![Cell::Literal(0x4000_3000), Cell::Literal(0x400)]);
    let val = format_property_value(prop.value.as_ref().unwrap());
    assert!(val.contains("0x40003000"));
    assert!(val.contains("0x400"));
}

#[test]
fn written_values_read_back() {
    let value = PropertyValue(vec![
        ValuePart::StringLiteral("say \"hi\"\\n".to_string()),
        ValuePart::ByteString(vec![0x01, 0xab, 0xff]),
        ValuePart::CellArray(vec![Cell::Literal(0x4000_3000), Cell::Literal(5), Cell::Literal(0)]),
        ValuePart::CellArray(vec![
            Cell::Reference(Reference::Label("gpio0".to_string())),
            Cell::Literal(12),
            Cell::Reference(Reference::Path("/soc/i2c@40003000".to_string())),
        ]),
        ValuePart::Reference(Reference::Label("uart0".to_string())),
    ]);
    let text = format_property_value(&value);
    assert_eq!(
        text,
        "\"say \\\"hi\\\"\\\\n\", [01 ab ff], <0x40003000 5 0>, <&gpio0 0xc &{/soc/i2c@40003000}>, &uart0"
    );
    let src = format!("/ {{\n\tv = {text};\n}};\n");
    let tree = parse_dts(&src).unwrap();
    let prop = &tree.root.as_ref().unwrap().properties[0];
    assert_eq!(prop.value.as_ref().unwrap(), &value);
}

#[test]
fn labelled_properties_read_back() {
    let mut flag = Property::new_boolean("wakeup-source");
    flag.labels = vec!["wake".to_string(), "w2".to_string()];
    let mut status = Property::new_string("status", "okay");
    status.labels = vec!["st".to_string()];
    let mut root = Node::new("/");
    root.properties = vec![flag.clone(), status.clone()];
    let mut tree = DeviceTree::new();
    tree.root = Some(root);
    let output = serialize(&tree, &SerializerConfig::default());
    assert!(output.contains("wake: w2: wakeup-source;"));
    assert!(output.contains("st: status = \"okay\";"));
    let back = parse_dts(&output).unwrap();
    let props = &back.root.as_ref().unwrap().properties;
    assert!(props.contains(&flag));
    assert!(props.contains(&status));
}

fn sample_tree() -> DeviceTree {
    let mut uart = Node::new("uart");
    uart.unit_address = Some("40002000".to_string());
    uart.labels = vec!["uart0".to_string()];
    uart.properties = vec![
        Property::new_string("status", "okay"),
        Property::new_cells("reg", vec![Cell::Literal(0x4000_2000), Cell::Literal(0x1000)]),
    ];
    let mut pins = Node::new("pins-default");
    pins.properties = vec![Property::new_boolean("bias-pull-up")];
    uart.children = vec![pins];
    let mut soc = Node::new("soc");
    soc.deleted_properties = vec!["old-prop".to_string()];
    soc.deleted_nodes = vec!["old-node".to_string()];
    soc.children = vec![uart];
    let mut root = Node::new("");
    root.labels = vec!["top".to_string()];
    root.properties = vec![Property::new_string("model", "board")];
    root.children = vec![soc];
    let over = || {
        let mut n = Node::new("");
        n.properties = vec![Property::new_cells(
            "gpios",
            vec![Cell::Reference(Reference::Label("gpio0".to_string())), Cell::Literal(3)],
        )];
        n
    };
    let mut tree = DeviceTree::new();
    tree.version = Some(DtsVersion::V1);
    tree.includes = vec![
        Include { path: "board.dtsi".to_string(), kind: IncludeKind::CPreprocessor },
        Include { path: "extra.dtsi".to_string(), kind: IncludeKind::DtsInclude },
    ];
    tree.memory_reservations = vec![MemoryReservation { address: 0x2000_0000, size: 0x100 }];
    tree.root = Some(root);
    tree.reference_nodes = vec![
        ReferenceNode { reference: Reference::Label("i2c1".to_string()), node: over() },
        ReferenceNode { reference: Reference::Path("/soc/spi@3000".to_string()), node: over() },
    ];
    tree
}

#[test]
fn written_tree_reads_back() {
    let tree = sample_tree();
    let config = SerializerConfig {
        header_comment: Some("first line\nsecond line".to_string()),
        ..SerializerConfig::default()
    };
    let output = serialize(&tree, &config);
    let back = parse_dts(&output).unwrap();
    assert_eq!(back, tree);
}

#[test]
fn sorted_tree_reads_back_in_written_order() {
    let mut tree = sample_tree();
    let root = tree.root.as_mut().unwrap();
    root.properties.push(Property::new_string("compatible", "vendor,board"));
    let mut aaa = Node::new("aaa");
    aaa.properties = vec![Property::new_boolean("x")];
    root.children.push(aaa);
    let config = SerializerConfig {
        sort_properties: true,
        sort_nodes: true,
        output_format: OutputFormat::Overlay,
        ..SerializerConfig::default()
    };
    let output = serialize(&tree, &config);
    let back = parse_dts(&output).unwrap();
    assert!(back.is_plugin);
    let r = back.root.as_ref().unwrap();
    let names: Vec<&str> = r.properties.iter().map(|p| p.name.as_str()).collect();
    assert_eq!(names, vec!["compatible", "model"]);
    let kids: Vec<&str> = r.children.iter().map(|n| n.name.as_str()).collect();
    assert_eq!(kids, vec!["aaa", "soc"]);
    assert_eq!(back.reference_nodes, sample_tree().reference_nodes);
    assert_eq!(back.includes, sample_tree().includes);
    assert_eq!(back.memory_reservations, sample_tree().memory_reservations);
}

#[test]
fn expression_and_macro_cells_read_back() {
    let value = PropertyValue(vec![ValuePart::CellArray(vec![
        Cell::Expression("1 + (2 * 3)".to_string()),
        Cell::Macro("GPIO_PIN".to_string(), "0, (4)".to_string()),
        Cell::Literal(7),
    ])]);
    let text = format_property_value(&value);
    assert_eq!(text, "<(1 + (2 * 3)) GPIO_PIN(0, (4)) 7>");
    let src = format!("/ {{\n\tv = {text};\n}};\n");
    let tree = parse_dts(&src).unwrap();
    let prop = &tree.root.as_ref().unwrap().properties[0];
    assert_eq!(prop.value.as_ref().unwrap(), &value);
}

#[test]
fn clones_are_equal() {
    let tree = sample_tree();
    let copy = tree.clone();
    assert_eq!(copy, tree);
    let root = tree.root.as_ref().unwrap();
    assert_eq!(&root.clone(), root);
    assert_eq!(tree.reference_nodes[1].clone(), tree.reference_nodes[1]);
}

#[test]
fn sorting_keeps_equal_names_in_order() {
    let mut root = Node::new("");
    root.properties = vec![
        Property::new_string("b", "first"),
        Property::new_string("a", "x"),
        Property::new_string("b", "second"),
    ];
    let mut tree = DeviceTree::new();
    tree.root = Some(root);
    let config = SerializerConfig { sort_properties: true, ..SerializerConfig::default() };
    let out = serialize(&tree, &config);
    let a = out.find("a = ").unwrap();
    let first = out.find("\"first\"").unwrap();
    let second = out.find("\"second\"").unwrap();
    assert!(a < first && first < second);
}

#[test]
fn header_with_carriage_returns_reads_back() {
    let tree = sample_tree();
    let config = SerializerConfig {
        header_comment: Some("first line\r\nsecond line\r".to_string()),
        ..SerializerConfig::default()
    };
    let output = serialize(&tree, &config);
    assert_eq!(parse_dts(&output).unwrap(), tree);
}

#[test]
fn text_after_a_lone_carriage_return_in_the_header_is_not_a_comment() {
    let config = SerializerConfig {
        header_comment: Some("a\rb".to_string()),
        ..SerializerConfig::default()
    };
    let output = serialize(&sample_tree(), &config);
    assert!(output.starts_with("// a\rb\n"));
    assert!(parse_dts(&output).is_err());
}

#[test]
fn sort_flags_only_reorder_what_is_written() {
    let src = "/dts-v1/;\n/ {\n    z = <1>;\n    a = <2>;\n    m = <3>;\n    b@2 {\n        y;\n        x;\n    };\n    b@1 {\n    };\n    a {\n    };\n};\n";
    let tree = parse_dts(src).unwrap();
    let sorted_src = "/dts-v1/;\n/ {\n    a = <2>;\n    m = <3>;\n    z = <1>;\n    a {\n    };\n    b@1 {\n    };\n    b@2 {\n        x;\n        y;\n    };\n};\n";
    let sorted_tree = parse_dts(sorted_src).unwrap();
    let with_flags = SerializerConfig {
        sort_properties: true,
        sort_nodes: true,
        ..SerializerConfig::default()
    };
    let without = SerializerConfig::default();
    assert_eq!(serialize(&tree, &with_flags), serialize(&sorted_tree, &without));
    assert_ne!(serialize(&tree, &without), serialize(&sorted_tree, &without));
}

#[test]
fn node_body_layout_deletions_properties_then_children() {
    let config = SerializerConfig::default();
    let mut node = Node::new("n");
    node.deleted_properties.push("dp".to_string());
    node.deleted_nodes.push("dn".to_string());
    node.properties.push(Property::new_boolean("b"));
    node.children.push(Node::new("c"));
    let mut out = String::new();
    zdtwalk::serializer::write_node_body(&mut out, &node, 0, &config);
    assert_eq!(out, "{\n\t/delete-property/ dp;\n\t/delete-node/ dn;\n\tb;\n\n\tc {\n\t};\n}");

    let mut bare = Node::new("n");
    bare.deleted_nodes.push("dn".to_string());
    bare.children.push(Node::new("c"));
    let mut out2 = String::from(">");
    zdtwalk::serializer::write_node_body(&mut out2, &bare, 1, &config);
    assert_eq!(out2, ">{\n\t\t/delete-node/ dn;\n\t\tc {\n\t\t};\n\t}");
}

use zdtwalk::serializer::tree_fits;
use zdtwalk::{parse_dts, try_parse_dts, Cell, DtsVersion, IncludeKind, Reference, ValuePart};

#[test]
fn parse_minimal_dts() {
    let src = r#"/dts-v1/;
/ {
};
"#;
    let tree = parse_dts(src).unwrap();
    assert_eq!(tree.version, Some(DtsVersion::V1));
    assert!(tree.root.is_some());
}

#[test]
fn parse_properties() {
    let src = r#"/dts-v1/;
/ {
    compatible = "vendor,board";
    model = "My Board";
    #address-cells = <2>;
    #size-cells = <2>;
    empty-prop;
    multi = "a", "b", "c";
    data = [DE AD BE EF];
};
"#;
    let tree = parse_dts(src).unwrap();
    let root = tree.root.as_ref().unwrap();

    assert_eq!(root.property("compatible").unwrap().as_string(), Some("vendor,board"));
    assert_eq!(root.property("model").unwrap().as_string(), Some("My Board"));
    assert_eq!(root.property("#address-cells").unwrap().as_u64_cells(), Some(vec![2]));
    assert!(root.property("empty-prop").unwrap().is_boolean());

    let multi = root.property("multi").unwrap().as_string_list().unwrap();
    assert_eq!(multi, vec!["a", "b", "c"]);

    let data = &root.property("data").unwrap().value.as_ref().unwrap().0;
    assert_eq!(data.len(), 1);
    if let ValuePart::ByteString(b) = &data[0] {
        assert_eq!(b, &[0xDE, 0xAD, 0xBE, 0xEF]);
    } else {
        panic!("expected ByteString");
    }
}

#[test]
fn parse_child_nodes_and_labels() {
    let src = r#"/dts-v1/;
/ {
    soc {
        uart0: serial@12340000 {
            compatible = "ns16550a";
            reg = <0x12340000 0x100>;
        };
    };
};
"#;
    let tree = parse_dts(src).unwrap();
    let root = tree.root.as_ref().unwrap();
    let soc = root.child("soc").unwrap();
    let serial = soc.child_by_full_name("serial@12340000").unwrap();
    assert_eq!(serial.labels, vec!["uart0".to_string()]);
    assert_eq!(serial.property("compatible").unwrap().as_string(), Some("ns16550a"));
}

#[test]
fn parse_includes() {
    let src = r#"/dts-v1/;
#include "board.dtsi"
#include <dt-bindings/gpio/gpio.h>
/include/ "common.dtsi"
/ {
};
"#;
    let tree = parse_dts(src).unwrap();
    assert_eq!(tree.includes.len(), 3);
    assert_eq!(tree.includes[0].path, "board.dtsi");
    assert_eq!(tree.includes[0].kind, IncludeKind::CPreprocessor);
    assert_eq!(tree.includes[1].path, "dt-bindings/gpio/gpio.h");
    assert_eq!(tree.includes[2].kind, IncludeKind::DtsInclude);
}

#[test]
fn parse_reference_override() {
    let src = r#"/dts-v1/;
/ {
    leds {
        led0: led-0 {
            gpios = <&gpio0 10 0>;
        };
    };
};

&led0 {
    status = "okay";
};
"#;
    let tree = parse_dts(src).unwrap();
    assert_eq!(tree.reference_nodes.len(), 1);
    assert_eq!(tree.reference_nodes[0].reference, Reference::Label("led0".to_string()));
}

#[test]
fn parse_overlay() {
    let src = r#"/dts-v1/;
/plugin/;

&{/soc/i2c@40000000} {
    sensor@48 {
        compatible = "ti,tmp102";
        reg = <0x48>;
    };
};
"#;
    let tree = parse_dts(src).unwrap();
    assert!(tree.is_plugin);
    assert_eq!(tree.reference_nodes.len(), 1);
    assert_eq!(
        tree.reference_nodes[0].reference,
        Reference::Path("/soc/i2c@40000000".to_string())
    );
}

#[test]
fn parse_comments() {
    let src = r#"/dts-v1/;
/* block comment */
// line comment
/ {
    /* another comment */
    prop = <1>; // inline
};
"#;
    let tree = parse_dts(src).unwrap();
    assert!(tree.root.is_some());
}

#[test]
fn parse_memreserve() {
    let src = r#"/dts-v1/;
/memreserve/ 0x10000000 0x4000;
/ {
};
"#;
    let tree = parse_dts(src).unwrap();
    assert_eq!(tree.memory_reservations.len(), 1);
    assert_eq!(tree.memory_reservations[0].address, 0x10000000);
    assert_eq!(tree.memory_reservations[0].size, 0x4000);
}

#[test]
fn parse_cell_expression() {
    let src = r#"/dts-v1/;
/ {
    val = <(1 + 2)>;
};
"#;
    let tree = parse_dts(src).unwrap();
    let root = tree.root.unwrap();
    let val = root.property("val").unwrap().value.as_ref().unwrap();
    if let ValuePart::CellArray(cells) = &val.0[0] {
        assert_eq!(cells[0], Cell::Expression("1 + 2".to_string()));
    } else {
        panic!("expected CellArray");
    }
}

#[test]
fn parse_delete_directives() {
    let src = r#"/dts-v1/;
/ {
    /delete-property/ old-prop;
    /delete-node/ old-node;
};
"#;
    let tree = parse_dts(src).unwrap();
    let root = tree.root.unwrap();
    assert_eq!(root.deleted_properties, vec!["old-prop"]);
    assert_eq!(root.deleted_nodes, vec!["old-node"]);
}

#[test]
fn parse_preprocessor_passthrough() {
    let src = r#"#define MY_CONST 42
/dts-v1/;
#ifdef SOME_FLAG
/ {
};
"#;
    let tree = parse_dts(src).unwrap();
    assert!(tree.root.is_some());
}

#[test]
fn parse_errors_read_like_compiler_messages() {
    let e = zdtwalk::ParseError {
        line: 3,
        column: 5,
        kind: zdtwalk::ParseErrorKind::Syntax("expected `;`".to_string()),
        context_line: "\tfoo = <1>".to_string(),
    };
    assert_eq!(
        e.to_text(),
        "parse error at line 3, column 5:\n  --> 3:5\n   |\n  3 | \tfoo = <1>\n   |     ^\n   = expected `;`"
    );
    let t = zdtwalk::ParseError {
        line: 1234,
        column: 0,
        kind: zdtwalk::ParseErrorKind::TrailingInput,
        context_line: "}".to_string(),
    };
    assert_eq!(
        t.to_text(),
        "unexpected input at line 1234, column 0:\n  --> 1234:0\n   |\n1234 | }\n   | ^\n   = parser finished but input remains; possible missing `;` or `}`"
    );
}

#[test]
fn try_parse_agrees_with_parse() {
    let src = "/dts-v1/;\n/ {\n\ta = <1>;\n};\n";
    let t = try_parse_dts(src).unwrap().unwrap();
    assert_eq!(t, parse_dts(src).unwrap());
    assert!(tree_fits(&t));
    let bad = "/ { a = ; };";
    assert!(try_parse_dts(bad).unwrap().is_err());
    let trailing = "/ { };\n}";
    let e = try_parse_dts(trailing).unwrap().unwrap_err();
    assert_eq!(e.line, 2);
}

#[test]
fn preorder_lists_parents_before_children_with_depths() {
    let src = "/dts-v1/;\n/ {\n    a {\n        b {\n        };\n    };\n    c {\n    };\n};\n";
    let tree = parse_dts(src).unwrap();
    let root = tree.root.as_ref().unwrap();
    let order: Vec<(String, usize)> = root
        .preorder(0)
        .iter()
        .map(|(n, d)| (n.name.clone(), *d))
        .collect();
    assert_eq!(
        order,
        vec![
            ("".to_string(), 0),
            ("a".to_string(), 1),
            ("b".to_string(), 2),
            ("c".to_string(), 1)
        ]
    );
    let seen = std::cell::RefCell::new(Vec::new());
    root.walk(&|n: &zdtwalk::Node, d: usize| seen.borrow_mut().push((n.name.clone(), d)), 0);
    assert_eq!(seen.into_inner(), order);
}

#[test]
fn location_in_counts_lines_and_byte_columns() {
    assert_eq!(zdtwalk::location_in("ab\ncd", "d"), (2, 2, "cd".to_string()));
    assert_eq!(zdtwalk::location_in("ab\ncd", "ab\ncd"), (1, 1, "ab".to_string()));
    assert_eq!(zdtwalk::location_in("é\nxé y", "y"), (2, 5, "xé y".to_string()));
    assert_eq!(zdtwalk::location_in("a\n", ""), (2, 1, "".to_string()));
}

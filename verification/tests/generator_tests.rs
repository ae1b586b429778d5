use zdtwalk::generator::{GeneratorState, GeneratorStep, InputMode};
use zdtwalk::{DtsVersion, Reference};

#[test]
fn generator_initial_state() {
    let gen = GeneratorState::new();
    assert_eq!(gen.step, GeneratorStep::SelectBoard);
    assert!(gen.selected_board.is_none());
    assert!(gen.overlay_tree.is_plugin);
    assert_eq!(gen.overlay_tree.version, Some(DtsVersion::V1));
    assert!(gen.overlay_tree.reference_nodes.is_empty());
}

#[test]
fn add_node_from_reference_with_labels() {
    let mut gen = GeneratorState::new();
    let reference = Reference::Path("/soc/i2c@40003000".to_string());
    let labels = vec!["i2c1".to_string()];

    gen.add_node_from_reference(reference, &labels);

    assert_eq!(gen.overlay_node_count(), 1);
    let rn = &gen.overlay_tree.reference_nodes[0];
    assert_eq!(rn.reference, Reference::Label("i2c1".to_string()));
    assert_eq!(rn.node.properties.len(), 1);
    assert_eq!(rn.node.properties[0].name, "status");
    assert_eq!(rn.node.properties[0].as_string(), Some("okay"));
}

#[test]
fn add_node_from_reference_no_labels() {
    let mut gen = GeneratorState::new();
    let reference = Reference::Path("/soc/i2c@40003000".to_string());

    gen.add_node_from_reference(reference, &[]);

    assert_eq!(gen.overlay_node_count(), 1);
    let rn = &gen.overlay_tree.reference_nodes[0];
    assert_eq!(rn.reference, Reference::Path("/soc/i2c@40003000".to_string()));
}

#[test]
fn delete_selected_node() {
    let mut gen = GeneratorState::new();
    gen.add_node_from_reference(Reference::Label("i2c1".to_string()), &[]);
    gen.add_node_from_reference(Reference::Label("spi1".to_string()), &[]);

    assert_eq!(gen.overlay_node_count(), 2);
    gen.selected_node = 0;
    gen.delete_selected_node();
    assert_eq!(gen.overlay_node_count(), 1);
    assert_eq!(gen.overlay_tree.reference_nodes[0].reference, Reference::Label("spi1".to_string()));
}

#[test]
fn step_navigation() {
    let mut gen = GeneratorState::new();
    assert_eq!(gen.step, GeneratorStep::SelectBoard);

    gen.next_step();
    assert_eq!(gen.step, GeneratorStep::EditNodes);

    gen.next_step();
    assert_eq!(gen.step, GeneratorStep::SaveFile);

    gen.next_step();
    assert_eq!(gen.step, GeneratorStep::SaveFile);

    gen.prev_step();
    assert_eq!(gen.step, GeneratorStep::EditNodes);

    gen.prev_step();
    assert_eq!(gen.step, GeneratorStep::SelectBoard);

    gen.prev_step();
    assert_eq!(gen.step, GeneratorStep::SelectBoard);
}

#[test]
fn build_overlay_string() {
    let mut gen = GeneratorState::new();
    gen.add_node_from_reference(Reference::Label("i2c1".to_string()), &[]);

    let output = gen.build_overlay_string();
    assert!(!output.contains("/dts-v1/;"));
    assert!(!output.contains("/plugin/;"));
    assert!(output.contains("// Generated by zdtwalk"));
    assert!(output.contains("&i2c1"));
    assert!(output.contains("status = \"okay\""));
}

#[test]
fn new_node_via_input() {
    let mut gen = GeneratorState::new();
    gen.step = GeneratorStep::EditNodes;

    gen.start_new_node();
    assert_eq!(gen.input_mode, Some(InputMode::NodeReference));

    gen.push_char('i');
    gen.push_char('2');
    gen.push_char('c');
    gen.push_char('1');
    gen.confirm_input();

    assert_eq!(gen.overlay_node_count(), 1);
    assert_eq!(gen.overlay_tree.reference_nodes[0].reference, Reference::Label("i2c1".to_string()));
    assert!(gen.input_mode.is_none());
}

#[test]
fn new_node_with_path_reference() {
    let mut gen = GeneratorState::new();
    gen.step = GeneratorStep::EditNodes;

    gen.start_new_node();
    for c in "/soc/i2c@40003000".chars() {
        gen.push_char(c);
    }
    gen.confirm_input();

    assert_eq!(gen.overlay_node_count(), 1);
    assert_eq!(
        gen.overlay_tree.reference_nodes[0].reference,
        Reference::Path("/soc/i2c@40003000".to_string())
    );
}

#[test]
fn board_sync() {
    let mut gen = GeneratorState::new();
    assert!(gen.selected_board.is_none());

    gen.sync_board(Some("nrf52840dk"));
    assert_eq!(gen.selected_board.as_deref(), Some("nrf52840dk"));

    gen.board_resolving = true;
    gen.sync_board(Some("nrf52840dk"));
    assert!(gen.board_resolving);

    gen.sync_board(Some("stm32f4_disco"));
    assert!(!gen.board_resolving);
    assert!(gen.resolved_board_tree.is_none());
}

#[test]
fn toggle_expand_nodes() {
    let mut gen = GeneratorState::new();
    gen.step = GeneratorStep::EditNodes;
    gen.add_node_from_reference(Reference::Label("i2c1".to_string()), &[]);

    assert!(!gen.expanded_nodes.contains(&0));
    gen.toggle_expand();
    assert!(gen.expanded_nodes.contains(&0));
    gen.toggle_expand();
    assert!(!gen.expanded_nodes.contains(&0));
}

#[test]
fn cancel_input() {
    let mut gen = GeneratorState::new();
    gen.start_new_node();
    gen.push_char('x');
    gen.cancel_input();

    assert!(gen.input_mode.is_none());
    assert!(gen.input_buffer.is_empty());
    assert_eq!(gen.overlay_node_count(), 0);
}

// ---------------------------------------------------------------------------
// Further behaviour of the generator
// ---------------------------------------------------------------------------

fn two_nodes() -> GeneratorState {
    let mut gen = GeneratorState::new();
    gen.step = GeneratorStep::EditNodes;
    gen.add_node_from_reference(Reference::Label("i2c1".to_string()), &[]);
    gen.add_node_from_reference(Reference::Label("spi1".to_string()), &[]);
    gen
}

#[test]
fn line_info_follows_expansion() {
    let mut gen = two_nodes();
    assert_eq!(gen.line_to_node_info(0), Some((0, 0)));
    assert_eq!(gen.line_to_node_info(1), Some((1, 0)));
    assert_eq!(gen.line_to_node_info(2), None);
    gen.toggle_expand();
    // Node 0 now shows its one property.
    assert_eq!(gen.line_to_node_info(1), Some((0, 1)));
    assert_eq!(gen.line_to_node_info(2), Some((1, 0)));
}

#[test]
fn leading_ampersand_is_dropped() {
    let mut gen = two_nodes();
    gen.start_new_node();
    for c in "&uart0".chars() {
        gen.push_char(c);
    }
    gen.confirm_input();
    assert_eq!(gen.overlay_tree.reference_nodes[2].reference, Reference::Label("uart0".to_string()));
}

#[test]
fn empty_reference_adds_nothing() {
    let mut gen = two_nodes();
    gen.start_new_node();
    gen.confirm_input();
    assert_eq!(gen.overlay_node_count(), 2);
    assert!(gen.input_mode.is_none());
}

#[test]
fn add_property_then_value() {
    let mut gen = two_nodes();
    gen.start_add_property();
    assert_eq!(gen.input_mode, Some(InputMode::PropertyName));
    for c in "clock-frequency".chars() {
        gen.push_char(c);
    }
    gen.confirm_input();
    assert_eq!(gen.input_mode, Some(InputMode::PropertyValue));
    for c in "400000".chars() {
        gen.push_char(c);
    }
    gen.confirm_input();
    let props = &gen.overlay_tree.reference_nodes[0].node.properties;
    assert_eq!(props.len(), 2);
    assert_eq!(props[1].name, "clock-frequency");
    assert_eq!(props[1].as_string(), Some("400000"));
    assert!(gen.editing_property.is_none());
}

#[test]
fn empty_value_gives_boolean_property() {
    let mut gen = two_nodes();
    gen.start_add_property();
    for c in "wakeup-source".chars() {
        gen.push_char(c);
    }
    gen.confirm_input();
    gen.confirm_input();
    let props = &gen.overlay_tree.reference_nodes[0].node.properties;
    assert_eq!(props[1].name, "wakeup-source");
    assert!(props[1].is_boolean());
}

#[test]
fn edit_first_property_from_header() {
    let mut gen = two_nodes();
    gen.start_edit_property();
    assert_eq!(gen.input_mode, Some(InputMode::PropertyValue));
    assert_eq!(gen.input_buffer, "\"okay\"");
    gen.cancel_input();
    gen.start_edit_property();
    gen.input_buffer.clear();
    for c in "disabled".chars() {
        gen.push_char(c);
    }
    gen.confirm_input();
    let props = &gen.overlay_tree.reference_nodes[0].node.properties;
    assert_eq!(props.len(), 1);
    assert_eq!(props[0].as_string(), Some("disabled"));
}

#[test]
fn add_child_then_delete_it() {
    let mut gen = two_nodes();
    gen.start_child_node();
    for c in "led_0".chars() {
        gen.push_char(c);
    }
    gen.confirm_input();
    assert_eq!(gen.overlay_tree.reference_nodes[0].node.children.len(), 1);
    assert_eq!(gen.overlay_tree.reference_nodes[0].node.children[0].name, "led_0");
    gen.toggle_expand();
    // Lines: header, status, led_0, spi1 header.
    gen.move_down();
    gen.move_down();
    assert_eq!(gen.selected_node, 2);
    assert_eq!(gen.line_to_node_info(2), Some((0, 2)));
    gen.delete_selected_node();
    assert!(gen.overlay_tree.reference_nodes[0].node.children.is_empty());
    assert_eq!(gen.selected_node, 2);
}

#[test]
fn delete_header_shifts_expanded() {
    let mut gen = two_nodes();
    gen.selected_node = 1;
    gen.toggle_expand();
    assert!(gen.expanded_nodes.contains(&1));
    gen.selected_node = 0;
    gen.delete_selected_node();
    assert_eq!(gen.overlay_node_count(), 1);
    assert!(gen.expanded_nodes.contains(&0));
    assert!(!gen.expanded_nodes.contains(&1));
}

#[test]
fn delete_last_node_resets_cursor() {
    let mut gen = GeneratorState::new();
    gen.add_node_from_reference(Reference::Label("a".to_string()), &[]);
    gen.delete_selected_node();
    assert_eq!(gen.overlay_node_count(), 0);
    assert_eq!(gen.selected_node, 0);
}

#[test]
fn cursor_moves_within_list() {
    let mut gen = two_nodes();
    gen.move_up();
    assert_eq!(gen.selected_node, 0);
    gen.move_down();
    gen.move_down();
    assert_eq!(gen.selected_node, 1);
}

#[test]
fn push_then_pop_restores_buffer() {
    let mut gen = GeneratorState::new();
    gen.push_char('a');
    gen.push_char('b');
    gen.pop_char();
    assert_eq!(gen.input_buffer, "a");
    gen.pop_char();
    gen.pop_char();
    assert_eq!(gen.input_buffer, "");
}

#[test]
fn reset_overlay_keeps_board() {
    let mut gen = two_nodes();
    gen.sync_board(Some("nrf52840dk"));
    gen.reset_overlay();
    assert_eq!(gen.overlay_node_count(), 0);
    assert_eq!(gen.step, GeneratorStep::EditNodes);
    assert_eq!(gen.selected_board.as_deref(), Some("nrf52840dk"));
}

#[test]
fn save_target_depends_on_existence() {
    let mut gen = GeneratorState::new();
    gen.save_dir = "/tmp/ws".to_string();
    gen.apply_save_target("board.overlay".to_string(), false);
    assert_eq!(gen.save_path.as_deref(), Some("/tmp/ws/board.overlay"));
    let mut gen = GeneratorState::new();
    gen.apply_save_target("board.overlay".to_string(), true);
    assert!(gen.confirm_overwrite);
    assert_eq!(gen.save_input, "board.overlay");
    assert!(gen.save_path.is_none());
}

#[test]
fn save_browser_cursor() {
    let mut gen = GeneratorState::new();
    gen.save_entries = vec!["a".into(), "b.overlay".into()];
    gen.save_move_down();
    gen.save_move_down();
    assert_eq!(gen.save_selected, 1);
    gen.save_move_up();
    assert_eq!(gen.save_selected, 0);
    gen.save_start_new_file();
    gen.save_move_down();
    assert_eq!(gen.save_selected, 0);
}

#[test]
fn delete_edited_property() {
    let mut gen = two_nodes();
    gen.toggle_expand();
    gen.start_edit_property();
    gen.delete_selected_property();
    assert!(gen.overlay_tree.reference_nodes[0].node.properties.is_empty());
    assert!(gen.editing_property.is_none());
}

fn summary(compat: &str) -> zdtwalk::viewer::BindingSummary {
    zdtwalk::viewer::BindingSummary {
        compatible: Some(compat.to_string()),
        description: Some(format!("{compat} binding")),
        included: None,
        properties: vec![],
    }
}

#[test]
fn binding_for_node_by_compatible() {
    let mut gen = GeneratorState::new();
    gen.sync_board(Some("nrf52840dk"));
    gen.set_bindings(vec![
        ("nordic,nrf-uarte".to_string(), summary("nordic,nrf-uarte")),
        ("nordic,nrf-twim".to_string(), summary("nordic,nrf-twim")),
    ]);
    let mut node = zdtwalk::Node::new("i2c");
    assert!(gen.get_binding_for_node(&node).is_none());
    node.properties.push(zdtwalk::Property::new_string("compatible", "nordic,nrf-twim"));
    let b = gen.get_binding_for_node(&node).unwrap();
    assert_eq!(b.compatible.as_deref(), Some("nordic,nrf-twim"));
    node.properties[0] = zdtwalk::Property::new_string("compatible", "other,thing");
    assert!(gen.get_binding_for_node(&node).is_none());
    // A new board drops the old board's bindings.
    gen.sync_board(Some("stm32f4_disco"));
    assert!(gen.board_bindings.is_empty());
}

#[test]
fn visible_lines_list_headers_then_expanded_members() {
    let mut gen = GeneratorState::new();
    gen.add_node_from_reference(Reference::Label("uart0".to_string()), &[]);
    gen.add_node_from_reference(Reference::Label("i2c0".to_string()), &[]);
    gen.overlay_tree.reference_nodes[0].node.properties.push(zdtwalk::Property::new_boolean("p"));
    gen.overlay_tree.reference_nodes[0].node.children.push(zdtwalk::Node::new("c"));
    assert_eq!(gen.visible_lines(), vec![(0, 0), (1, 0)]);
    gen.step = GeneratorStep::EditNodes;
    gen.selected_node = 0;
    gen.toggle_expand();
    // The header, `status = "okay"`, the added property and the child.
    assert_eq!(gen.visible_lines(), vec![(0, 0), (0, 1), (0, 2), (0, 3), (1, 0)]);
    assert_eq!(gen.line_to_node_info(3), Some((0, 3)));
    assert_eq!(gen.line_to_node_info(4), Some((1, 0)));
}

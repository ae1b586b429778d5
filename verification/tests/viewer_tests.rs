use zdtwalk::binding::{BindingInclude, IncludeEntry, PropertyType};
use zdtwalk::viewer::{
    BindingProp, BindingSummary, LineHighlight, LineKind, StatusColor, ViewerMode, ViewerState,
};
use zdtwalk::{parse_dts, Reference};

const SRC: &str = "/dts-v1/;\n#include \"board.dtsi\"\n/ {\n\tmodel = \"b\";\n\tsoc {\n\t\ti2c0: i2c@40003000 {\n\t\t\tstatus = \"okay\";\n\t\t};\n\t};\n};\n&uart0 {\n\tstatus = \"disabled\";\n};\n";

fn with_dts() -> ViewerState {
    let mut v = ViewerState::new();
    v.set_parsed_dts("/ws/a.dts".to_string(), parse_dts(SRC).unwrap());
    v
}

fn kinds(v: &ViewerState) -> Vec<String> {
    let t = &v.tabs()[v.active()];
    t.simplified_lines.iter().map(|l| l.path_key.clone()).collect()
}

#[test]
fn outline_of_a_tree() {
    let v = with_dts();
    assert_eq!(v.current_file.as_deref(), Some("/ws/a.dts"));
    assert_eq!(
        kinds(&v),
        vec!["include:board.dtsi", "/", "//model", "//soc", "//soc/i2c@40003000", "&uart0"]
    );
    let t = &v.tabs()[0];
    match &t.simplified_lines[4].kind {
        LineKind::NodeHeader { name, status, has_children } => {
            assert_eq!(name, "i2c@40003000");
            assert_eq!(*status, StatusColor::Okay);
            assert!(*has_children);
        }
        other => panic!("unexpected line {other:?}"),
    }
    match &t.simplified_lines[5].kind {
        LineKind::NodeHeader { name, status, .. } => {
            assert_eq!(name, "&uart0");
            assert_eq!(*status, StatusColor::Disabled);
        }
        other => panic!("unexpected line {other:?}"),
    }
}

#[test]
fn folding_and_unfolding() {
    let mut v = with_dts();
    for _ in 0..4 {
        v.scroll_down();
    }
    // On the i2c node header: unfold it.
    v.toggle_expand();
    assert_eq!(kinds(&v).len(), 7);
    assert_eq!(kinds(&v)[5], "//soc/i2c@40003000/status");
    v.collapse_current();
    assert_eq!(kinds(&v).len(), 6);
    v.expand_current();
    assert_eq!(kinds(&v).len(), 7);
}

#[test]
fn node_under_cursor() {
    let mut v = with_dts();
    for _ in 0..4 {
        v.scroll_down();
    }
    let (r, labels) = v.node_at_cursor().unwrap();
    assert_eq!(r, Reference::Label("i2c0".to_string()));
    assert_eq!(labels, vec!["i2c0".to_string()]);
    v.scroll_down();
    let (r, _) = v.node_at_cursor().unwrap();
    assert_eq!(r, Reference::Label("uart0".to_string()));
    v.scroll_up();
    v.scroll_up();
    v.scroll_up();
    // On "//model": a property of the root.
    let (r, _) = v.node_at_cursor().unwrap();
    assert_eq!(r, Reference::Path("/".to_string()));
}

#[test]
fn include_under_cursor() {
    let mut v = with_dts();
    assert_eq!(v.selected_include(), Some("board.dtsi".to_string()));
    v.toggle_mode();
    // The parsed tab holds no raw text.
    assert!(!v.include_is_cut());
    assert_eq!(v.selected_include(), None);
}

#[test]
fn raw_include_forms() {
    let mut v = ViewerState::new();
    v.set_raw_content("/x".into(), "  #include <dt-bindings/gpio.h>\n/include/ \"a.dtsi\";;\n#include \"\n".into());
    v.toggle_mode();
    v.toggle_mode();
    assert_eq!(v.tabs()[0].mode, ViewerMode::Simplified);
    v.toggle_mode();
    assert_eq!(v.selected_include(), Some("dt-bindings/gpio.h".to_string()));
    v.scroll_down();
    assert_eq!(v.selected_include(), Some("a.dtsi".to_string()));
    v.scroll_down();
    assert!(v.include_is_cut());
}

#[test]
fn tabs_cycle_and_close() {
    let mut v = ViewerState::new();
    v.set_raw_content("/a".into(), "x".into());
    v.set_raw_content("/b".into(), "y".into());
    v.set_raw_content("/a".into(), "z".into());
    assert_eq!(v.tabs().len(), 2);
    assert_eq!(v.active(), 0);
    v.next_tab();
    assert_eq!(v.current_file.as_deref(), Some("/b"));
    v.next_tab();
    assert_eq!(v.current_file.as_deref(), Some("/a"));
    v.prev_tab();
    assert_eq!(v.active(), 1);
    v.close_tab();
    assert_eq!(v.active(), 0);
    assert_eq!(v.current_file.as_deref(), Some("/a"));
    v.close_tab();
    assert!(v.current_file.is_none());
    v.close_tab();
    assert!(v.tabs().is_empty());
}

#[test]
fn visual_selection_yanks_lines() {
    let mut v = ViewerState::new();
    v.set_raw_content("/a".into(), "one\ntwo\nthree\n".into());
    v.toggle_mode();
    v.toggle_visual();
    assert!(v.in_visual_mode());
    v.scroll_down();
    assert_eq!(v.yank_selection(), Some("one\ntwo".to_string()));
    assert!(!v.in_visual_mode());
    assert_eq!(v.yank_selection(), None);
}

#[test]
fn yank_outline_text() {
    let mut v = with_dts();
    v.toggle_visual();
    v.scroll_down();
    v.scroll_down();
    assert_eq!(v.yank_selection(), Some("#include \"board.dtsi\"\n/\n  model = \"b\"".to_string()));
}

#[test]
fn search_moves_cursor() {
    let mut v = ViewerState::new();
    v.set_raw_content("/a".into(), "alpha\nbeta\ngamma\nbetamax\n".into());
    v.toggle_mode();
    v.start_search();
    for c in "bet".chars() {
        v.search_push(c);
    }
    assert_eq!(v.search_matches().0, &vec![1, 3]);
    v.search_commit();
    assert_eq!(v.tabs()[0].selected_line, 1);
    v.search_next();
    assert_eq!(v.tabs()[0].selected_line, 3);
    v.search_next();
    assert_eq!(v.tabs()[0].selected_line, 1);
    v.search_prev();
    assert_eq!(v.tabs()[0].selected_line, 3);
    v.search_cancel();
    assert!(v.search_matches().0.is_empty());
}

#[test]
fn cursor_follows_into_view() {
    let mut v = ViewerState::new();
    v.set_raw_content("/a".into(), "1\n2\n3\n4\n5\n6\n".into());
    v.toggle_mode();
    for _ in 0..5 {
        v.scroll_down();
    }
    v.follow_cursor(3);
    assert_eq!(v.tabs()[0].scroll, 3);
    for _ in 0..5 {
        v.scroll_up();
    }
    v.follow_cursor(3);
    assert_eq!(v.tabs()[0].scroll, 0);
}

#[test]
fn binding_outline() {
    let mut v = ViewerState::new();
    let b = BindingSummary {
        compatible: Some("st,stm32-i2c-v2".into()),
        description: Some("STM32 I2C".into()),
        included: Some(BindingInclude::List(vec![IncludeEntry::Name("i2c-controller.yaml".into())])),
        properties: vec![
            BindingProp { name: "reg".into(), property_type: None, required: true, description: Some("regs".into()) },
            BindingProp {
                name: "scl-gpios".into(),
                property_type: Some(PropertyType::PhandleArray),
                required: false,
                description: None,
            },
        ],
    };
    v.set_parsed_binding("/b.yaml".into(), b);
    let t = &v.tabs()[0];
    assert_eq!(t.simplified_lines.len(), 4);
    assert_eq!(
        zdtwalk::viewer::simplified_line_text(&t.simplified_lines[3]),
        "scl-gpios (PhandleArray)"
    );
    assert_eq!(zdtwalk::viewer::simplified_line_text(&t.simplified_lines[0]), "st,stm32-i2c-v2  STM32 I2C");
    for _ in 0..2 {
        v.scroll_down();
    }
    v.toggle_expand();
    let t = &v.tabs()[0];
    assert_eq!(zdtwalk::viewer::simplified_line_text(&t.simplified_lines[2]), "* reg ()  regs");
}

#[test]
fn line_highlight_follows_selection_match_and_cursor() {
    let mut v = ViewerState::new();
    v.set_raw_content("/x".into(), "a\nb\nc\nd\n".into());
    let tab = &v.tabs()[0];
    let matches = vec![0usize, 2];
    assert_eq!(tab.line_highlight(0, &matches), LineHighlight::MatchAtCursor);
    assert_eq!(tab.line_highlight(1, &matches), LineHighlight::Plain);
    assert_eq!(tab.line_highlight(2, &matches), LineHighlight::Match);
    if v.tabs()[0].mode != ViewerMode::Raw {
        v.toggle_mode();
    }
    assert_eq!(v.tabs()[0].mode, ViewerMode::Raw);
    v.scroll_down();
    v.toggle_visual();
    v.scroll_down();
    let tab = &v.tabs()[0];
    assert_eq!(tab.line_highlight(1, &matches), LineHighlight::Selection);
    assert_eq!(tab.line_highlight(2, &matches), LineHighlight::Selection);
    assert_eq!(tab.line_highlight(3, &matches), LineHighlight::Plain);
    assert_eq!(tab.line_highlight(0, &matches), LineHighlight::Match);
}

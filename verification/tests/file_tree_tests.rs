use zdtwalk::file_tree::{FileTreeMode, FileTreeState};
use zdtwalk::workspace::{FileEntry, FileKind};

fn entry(name: &str) -> FileEntry {
    FileEntry { path: format!("/ws/{name}"), name: name.to_string(), kind: FileKind::Overlay }
}

#[test]
fn modes_cycle_with_labels() {
    assert_eq!(FileTreeMode::BoardFiles.next(), FileTreeMode::UserOverlays);
    assert_eq!(FileTreeMode::Bindings.next(), FileTreeMode::BoardFiles);
    assert_eq!(FileTreeMode::BoardFiles.label(), "[1] Board DTS");
    assert_eq!(FileTreeMode::UserOverlays.label(), "[2] User Overlays");
    assert_eq!(FileTreeMode::Bindings.label(), "[3] Bindings");
}

#[test]
fn filter_entries_fuzzily() {
    let mut s = FileTreeState::new();
    s.set_entries(vec![entry("app.overlay"), entry("board.dts"), entry("nrf52.overlay")]);
    assert_eq!(s.visible_count(), 3);
    s.apply_filter("ovl");
    assert_eq!(s.filtered(), &Some(vec![0, 2]));
    assert_eq!(s.visible_count(), 2);
    s.move_down();
    assert_eq!(s.selected_entry().unwrap().name, "nrf52.overlay");
    s.move_down();
    assert_eq!(s.selected, 1);
    s.apply_filter("");
    assert_eq!(s.filtered(), &None);
    assert_eq!(s.selected, 0);
}

#[test]
fn capital_in_query_makes_case_count() {
    let mut s = FileTreeState::new();
    s.set_entries(vec![entry("Board.dts"), entry("board.dts")]);
    s.apply_filter("B");
    assert_eq!(s.filtered(), &Some(vec![0]));
    s.apply_filter("b");
    assert_eq!(s.filtered(), &Some(vec![0, 1]));
}

#[test]
fn board_picker_selects_through_filter() {
    let mut s = FileTreeState::new();
    s.boards = vec!["nrf52840dk".into(), "stm32f4_disco".into(), "qemu_x86".into()];
    s.toggle_board_picker();
    s.apply_filter("stm");
    assert_eq!(s.filtered_boards(), &Some(vec![1]));
    assert!(s.selected_entry().is_none());
    s.select_board();
    assert_eq!(s.selected_board_name(), Some("stm32f4_disco"));
    assert!(!s.board_picker_open);
    assert_eq!(s.filtered_boards(), &None);
}

#[test]
fn board_picker_clamps_cursor() {
    let mut s = FileTreeState::new();
    s.boards = vec!["a".into(), "b".into()];
    s.selected = 7;
    s.select_board();
    assert_eq!(s.selected_board, Some(1));
    let mut empty = FileTreeState::new();
    empty.select_board();
    assert_eq!(empty.selected_board, None);
}

#[test]
fn set_mode_clears_list() {
    let mut s = FileTreeState::new();
    s.set_entries(vec![entry("a.overlay")]);
    s.set_mode(FileTreeMode::UserOverlays);
    assert_eq!(s.entries().len(), 1);
    s.set_mode(FileTreeMode::Bindings);
    assert!(s.entries().is_empty());
    s.cycle_mode();
    assert_eq!(s.mode, FileTreeMode::BoardFiles);
}

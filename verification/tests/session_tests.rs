use zdtwalk::file_tree::FileTreeMode;
use zdtwalk::generator::{GeneratorStep, InputMode};
use zdtwalk::panel::Panel;
use zdtwalk::parse_dts;
use zdtwalk::session::{Action, App, DebugPanel, KeyCode, KeyPress, Message};
use zdtwalk::west::{DtsSource, HalDtsEntry, WorkspaceInfo};
use zdtwalk::workspace::{FileEntry, FileKind, WorkspaceState};

fn key(c: char) -> KeyPress {
    KeyPress { code: KeyCode::Char(c), ctrl: false }
}

fn ctrl(c: char) -> KeyPress {
    KeyPress { code: KeyCode::Char(c), ctrl: true }
}

fn code(c: KeyCode) -> KeyPress {
    KeyPress { code: c, ctrl: false }
}

fn workspace() -> WorkspaceState {
    WorkspaceState {
        info: WorkspaceInfo {
            workspace_root: "/ws".to_string(),
            zephyr_dir: "/ws/zephyr".to_string(),
            west_yml_path: "/ws/zephyr/west.yml".to_string(),
        },
        zephyr_version: "3.7.0".to_string(),
        hal_entries: vec![],
    }
}

fn entry(name: &str) -> FileEntry {
    FileEntry { path: format!("/ws/app/{name}"), name: name.to_string(), kind: FileKind::Overlay }
}

fn hal(name: &str, dts: bool) -> HalDtsEntry {
    HalDtsEntry {
        project_name: name.to_string(),
        dts_path: if dts { Some(format!("/cache/{name}/dts")) } else { None },
        bindings_path: None,
        source: DtsSource::Cached,
    }
}

#[test]
fn app_starts_on_the_file_browser() {
    let app = App::new();
    assert!(!app.should_quit);
    assert_eq!(app.active_panel, Panel::Left);
    assert!(app.workspace.is_none());
    assert!(!app.search.active);
    assert_eq!(app.left_width_pct, 25);
    assert!(!app.show_help);
    assert!(app.status_message.is_none());
    assert_eq!(app.debug, DebugPanel { visible: false, scroll: 0, follow: true });
}

#[test]
fn ctrl_c_quits_from_anywhere() {
    let mut app = App::new();
    app.show_help = true;
    app.search.active = true;
    let acts = app.handle_key(ctrl('c'));
    assert!(acts.is_empty());
    assert!(app.should_quit);
}

#[test]
fn any_key_dismisses_help() {
    let mut app = App::new();
    app.handle_key(key('?'));
    assert!(app.show_help);
    app.handle_key(key('q'));
    assert!(!app.show_help);
    assert!(!app.should_quit);
}

#[test]
fn q_quits_or_closes_the_debug_panel() {
    let mut app = App::new();
    app.handle_key(ctrl('d'));
    assert!(app.debug.visible);
    assert_eq!(app.active_panel, Panel::Debug);
    app.handle_key(key('q'));
    assert!(!app.debug.visible);
    assert_eq!(app.active_panel, Panel::Center);
    assert!(!app.should_quit);
    app.handle_key(key('q'));
    assert!(app.should_quit);
}

#[test]
fn tab_walks_the_panels() {
    let mut app = App::new();
    app.handle_key(code(KeyCode::Tab));
    assert_eq!(app.active_panel, Panel::Center);
    app.handle_key(code(KeyCode::Tab));
    assert_eq!(app.active_panel, Panel::Right);
    app.handle_key(code(KeyCode::Tab));
    assert_eq!(app.active_panel, Panel::Left);
    app.handle_key(code(KeyCode::BackTab));
    assert_eq!(app.active_panel, Panel::Right);
}

#[test]
fn panel_width_stays_between_10_and_50() {
    let mut app = App::new();
    for _ in 0..10 {
        app.handle_key(key('['));
    }
    assert_eq!(app.left_width_pct, 10);
    app.handle_key(key(']'));
    assert_eq!(app.left_width_pct, 13);
    for _ in 0..20 {
        app.handle_key(key(']'));
    }
    assert_eq!(app.left_width_pct, 50);
}

#[test]
fn g_toggles_the_generator() {
    let mut app = App::new();
    assert!(!app.right.collapsed);
    app.handle_key(key('g'));
    assert!(app.right.collapsed);
    app.handle_key(key('g'));
    assert!(!app.right.collapsed);
}

#[test]
fn search_filters_the_file_list() {
    let mut app = App::new();
    app.update(Message::FileTreeLoaded(
        FileTreeMode::UserOverlays,
        vec![entry("board.overlay"), entry("extra.conf"), entry("app.overlay")],
    ));
    app.handle_key(key('/'));
    assert!(app.search.active);
    for c in "app".chars() {
        app.handle_key(key(c));
    }
    assert_eq!(app.search.query, "app");
    assert_eq!(app.left.filtered(), &Some(vec![2]));
    app.handle_key(code(KeyCode::Backspace));
    assert_eq!(app.search.query, "ap");
    app.handle_key(code(KeyCode::Enter));
    assert!(!app.search.active);
    assert_eq!(app.search.query, "ap");
    app.handle_key(key('/'));
    app.handle_key(code(KeyCode::Esc));
    assert!(!app.search.active);
    assert_eq!(app.search.query, "");
    assert_eq!(app.left.filtered(), &None);
}

#[test]
fn enter_on_a_file_asks_to_load_it() {
    let mut app = App::new();
    app.update(Message::FileTreeLoaded(FileTreeMode::UserOverlays, vec![entry("a.overlay"), entry("b.overlay")]));
    app.handle_key(key('j'));
    let acts = app.handle_key(code(KeyCode::Enter));
    assert_eq!(acts, vec![Action::LoadFile("/ws/app/b.overlay".to_string())]);
}

#[test]
fn mode_keys_ask_for_scans_only_with_a_workspace() {
    let mut app = App::new();
    assert!(app.handle_key(key('3')).is_empty());
    assert_eq!(app.left.mode, FileTreeMode::Bindings);
    app.update(Message::WorkspaceReady(workspace()));
    let acts = app.handle_key(key('1'));
    assert_eq!(
        acts,
        vec![Action::ScanBoards, Action::ScanFiles { mode: FileTreeMode::BoardFiles, board: None }]
    );
    app.update(Message::BoardsLoaded(vec!["nrf52dk".to_string(), "qemu_x86".to_string()]));
    assert!(app.left.boards_loaded);
    let acts = app.handle_key(key('b'));
    assert!(acts.is_empty());
    assert!(app.left.board_picker_open);
    app.handle_key(key('j'));
    let acts = app.handle_key(code(KeyCode::Enter));
    assert_eq!(
        acts,
        vec![Action::ScanFiles {
            mode: FileTreeMode::BoardFiles,
            board: Some("qemu_x86".to_string())
        }]
    );
    assert_eq!(app.right.selected_board.as_deref(), Some("qemu_x86"));
    let acts = app.handle_key(key('m'));
    assert_eq!(
        acts,
        vec![Action::ScanFiles {
            mode: FileTreeMode::UserOverlays,
            board: Some("qemu_x86".to_string())
        }]
    );
}

#[test]
fn workspace_ready_sets_the_status_and_starts_scans() {
    let mut app = App::new();
    let acts = app.update(Message::WorkspaceReady(workspace()));
    assert_eq!(app.status_message.as_deref(), Some("Workspace: /ws | Zephyr: /ws/zephyr"));
    assert_eq!(
        acts,
        vec![Action::ScanFiles { mode: FileTreeMode::UserOverlays, board: None }, Action::FetchHal]
    );
    assert!(app.workspace.is_some());
}

#[test]
fn hal_fetched_counts_entries_with_dts() {
    let mut app = App::new();
    app.update(Message::WorkspaceReady(workspace()));
    app.update(Message::HalFetched(vec![hal("hal_nordic", true), hal("hal_st", false), hal("hal_nxp", true)]));
    assert_eq!(app.status_message.as_deref(), Some("HAL modules ready (2 with DTS)"));
    assert_eq!(app.workspace.as_ref().unwrap().hal_entries.len(), 3);
}

#[test]
fn errors_reach_the_status_line_and_the_log() {
    let mut app = App::new();
    let acts = app.update(Message::Error("boom".to_string()));
    assert_eq!(app.status_message.as_deref(), Some("Error: boom"));
    assert_eq!(acts, vec![Action::LogError("boom".to_string())]);
    app.update(Message::StatusUpdate("fetching".to_string()));
    assert_eq!(app.status_message.as_deref(), Some("fetching"));
}

#[test]
fn a_listing_for_another_mode_is_dropped() {
    let mut app = App::new();
    app.update(Message::FileTreeLoaded(FileTreeMode::Bindings, vec![entry("x.yaml")]));
    assert!(app.left.entries().is_empty());
}

#[test]
fn files_open_in_the_viewer() {
    let mut app = App::new();
    let src = "/dts-v1/;\n/ {\n\tmodel = \"m\";\n};\n";
    app.update(Message::FileContent("/ws/a.dts".to_string(), src.to_string()));
    let msg = Message::FileParsed("/ws/a.dts".to_string(), parse_dts(src).unwrap());
    assert!(app.message_ok(&msg));
    app.update(msg);
    assert_eq!(app.center.tabs().len(), 1);
    assert_eq!(app.center.current_file.as_deref(), Some("/ws/a.dts"));
}

#[test]
fn yank_copies_the_selection() {
    let mut app = App::new();
    app.update(Message::FileContent("/ws/a.dts".to_string(), "one\ntwo\nthree\n".to_string()));
    app.active_panel = Panel::Center;
    app.handle_key(key('v'));
    app.handle_key(key('V'));
    app.handle_key(key('j'));
    let acts = app.handle_key(key('y'));
    assert_eq!(acts, vec![Action::Clipboard("one\ntwo".to_string())]);
    assert_eq!(app.status_message.as_deref(), Some("Yanked 2 lines to clipboard"));
}

#[test]
fn enter_on_an_include_asks_to_open_it() {
    let mut app = App::new();
    app.update(Message::WorkspaceReady(workspace()));
    app.update(Message::FileContent("/ws/a.dts".to_string(), "#include \"b.dtsi\"\n".to_string()));
    app.active_panel = Panel::Center;
    app.handle_key(key('v'));
    assert!(!app.key_fails_now(code(KeyCode::Enter)));
    let acts = app.handle_key(code(KeyCode::Enter));
    assert_eq!(acts, vec![Action::OpenInclude("b.dtsi".to_string())]);
    app.report_missing_include("b.dtsi");
    assert_eq!(app.status_message.as_deref(), Some("Include not found: b.dtsi"));
}

#[test]
fn a_cut_include_is_reported_as_failing() {
    let mut app = App::new();
    app.update(Message::FileContent("/ws/a.dts".to_string(), "#include \"\n".to_string()));
    app.active_panel = Panel::Center;
    app.handle_key(key('v'));
    assert!(app.key_fails_now(code(KeyCode::Enter)));
    assert!(!app.message_ok(&Message::Key(key(' '))));
    assert!(!app.key_fails_now(key('j')));
}

#[test]
fn debug_panel_keys() {
    let mut app = App::new();
    app.handle_key(ctrl('d'));
    app.handle_key(key('j'));
    app.handle_key(key('j'));
    assert_eq!(app.debug.scroll, 2);
    app.handle_key(key('k'));
    assert_eq!(app.debug.scroll, 1);
    assert!(!app.debug.follow);
    app.handle_key(key('G'));
    assert!(app.debug.follow);
    // `g` is taken by the generator before the debug panel sees it.
    app.handle_key(key('g'));
    assert!(app.right.collapsed);
    assert_eq!(app.debug.scroll, 1);
    assert!(app.debug.follow);
}

#[test]
fn debug_panel_pins_to_the_newest_entries() {
    let mut d = DebugPanel::new();
    d.pin(30, 10);
    assert_eq!(d.scroll, 20);
    d.scroll_up();
    d.scroll_up();
    d.pin(30, 10);
    assert_eq!(d.scroll, 18);
    assert!(!d.follow);
    d.scroll = 25;
    d.pin(30, 10);
    assert_eq!(d.scroll, 20);
    assert!(d.follow);
    let mut e = DebugPanel::new();
    e.pin(3, 10);
    assert_eq!(e.scroll, 0);
}

fn focus_generator(app: &mut App) {
    app.active_panel = Panel::Right;
}

#[test]
fn generator_steps_and_new_nodes() {
    let mut app = App::new();
    app.update(Message::WorkspaceReady(workspace()));
    focus_generator(&mut app);
    assert_eq!(app.right.step, GeneratorStep::SelectBoard);
    app.handle_key(code(KeyCode::Enter));
    assert_eq!(app.right.step, GeneratorStep::EditNodes);
    app.handle_key(key('n'));
    assert_eq!(app.right.input_mode, Some(InputMode::NodeReference));
    // While typing, keys such as `g` and `q` are text.
    for c in "&gq".chars() {
        app.handle_key(key(c));
    }
    assert!(!app.right.collapsed);
    assert!(!app.should_quit);
    app.handle_key(code(KeyCode::Backspace));
    app.handle_key(key('x'));
    app.handle_key(code(KeyCode::Enter));
    assert_eq!(app.right.input_mode, None);
    assert_eq!(app.right.overlay_node_count(), 1);
    assert_eq!(app.right.overlay_tree.reference_nodes[0].reference.to_text(), "&gx");
    app.handle_key(key('n'));
    app.handle_key(key('z'));
    app.handle_key(code(KeyCode::Esc));
    assert_eq!(app.right.input_mode, None);
    assert_eq!(app.right.overlay_node_count(), 1);
    let acts = app.handle_key(code(KeyCode::Right));
    assert_eq!(acts, vec![Action::BrowseSaveDir("/ws".to_string())]);
    assert_eq!(app.right.step, GeneratorStep::SaveFile);
    app.update(Message::SaveDirListed("/ws".to_string(), vec!["a".to_string(), "b.overlay".to_string()]));
    assert_eq!(app.right.save_entries.len(), 2);
    app.handle_key(key('j'));
    assert_eq!(app.right.save_selected, 1);
    app.handle_key(key('n'));
    assert!(app.right.save_input_active);
    app.handle_key(code(KeyCode::Esc));
    assert!(!app.right.save_input_active);
    assert_eq!(app.right.step, GeneratorStep::SaveFile);
    app.handle_key(code(KeyCode::Esc));
    assert_eq!(app.right.step, GeneratorStep::EditNodes);
}

fn at_save_step() -> App {
    let mut app = App::new();
    app.update(Message::WorkspaceReady(workspace()));
    focus_generator(&mut app);
    app.handle_key(code(KeyCode::Enter));
    app.handle_key(key('n'));
    for c in "uart0".chars() {
        app.handle_key(key(c));
    }
    app.handle_key(code(KeyCode::Enter));
    app.handle_key(code(KeyCode::Right));
    app.update(Message::SaveDirListed(
        "/ws/app".to_string(),
        vec!["boards".to_string(), "old.overlay".to_string()],
    ));
    app
}

#[test]
fn typed_file_name_is_checked_then_saved() {
    let mut app = at_save_step();
    app.handle_key(key('n'));
    // While a name is typed, `q` and `g` are text.
    for c in "qg.overlay".chars() {
        app.handle_key(key(c));
    }
    assert!(!app.should_quit);
    assert!(!app.right.collapsed);
    app.handle_key(code(KeyCode::Backspace));
    app.handle_key(key('y'));
    assert_eq!(app.right.save_input, "qg.overlay");
    let acts = app.handle_key(code(KeyCode::Enter));
    assert_eq!(acts, vec![Action::CheckSaveEntry("/ws/app/qg.overlay".to_string())]);
    let acts = app.update(Message::SaveEntryChecked(false, false));
    assert!(acts.is_empty());
    assert_eq!(app.right.save_path.as_deref(), Some("/ws/app/qg.overlay"));
    assert!(!app.right.save_input_active);
    let acts = app.handle_key(code(KeyCode::Enter));
    assert_eq!(acts, vec![Action::SaveOverlay("/ws/app/qg.overlay".to_string())]);
    assert!(app.right.build_overlay_string().contains("&uart0 {"));
    app.update(Message::OverlaySaved);
    assert!(app.right.save_complete);
    app.handle_key(key('y'));
    assert_eq!(app.right.step, GeneratorStep::EditNodes);
    // A quick save goes to the same file.
    let acts = app.handle_key(key('s'));
    assert_eq!(acts, vec![Action::SaveOverlay("/ws/app/qg.overlay".to_string())]);
}

#[test]
fn existing_file_asks_before_overwriting() {
    let mut app = at_save_step();
    app.handle_key(key('n'));
    for c in "old.overlay".chars() {
        app.handle_key(key(c));
    }
    app.handle_key(code(KeyCode::Enter));
    app.update(Message::SaveEntryChecked(true, false));
    assert!(app.right.confirm_overwrite);
    assert!(app.right.save_path.is_none());
    // Esc declines; the name can be typed anew.
    app.handle_key(code(KeyCode::Esc));
    assert!(!app.right.confirm_overwrite);
    assert!(app.right.save_input_active);
    app.handle_key(code(KeyCode::Enter));
    app.update(Message::SaveEntryChecked(true, false));
    app.handle_key(code(KeyCode::Enter));
    assert!(!app.right.confirm_overwrite);
    assert!(!app.right.save_input_active);
    assert_eq!(app.right.save_path.as_deref(), Some("/ws/app/old.overlay"));
}

#[test]
fn file_browser_enters_and_leaves_directories() {
    let mut app = at_save_step();
    let acts = app.handle_key(code(KeyCode::Enter));
    assert_eq!(acts, vec![Action::CheckSaveEntry("/ws/app/boards".to_string())]);
    let acts = app.update(Message::SaveEntryChecked(true, true));
    assert_eq!(acts, vec![Action::BrowseSaveDir("/ws/app/boards".to_string())]);
    assert_eq!(app.right.save_dir, "/ws/app/boards");
    app.update(Message::SaveDirListed("/ws/app/boards".to_string(), vec!["x.overlay".to_string()]));
    let acts = app.handle_key(code(KeyCode::Backspace));
    assert_eq!(acts, vec![Action::BrowseSaveDir("/ws/app".to_string())]);
    assert_eq!(app.right.save_dir, "/ws/app");
    // A file under the cursor becomes the file to save to.
    app.update(Message::SaveDirListed(
        "/ws/app".to_string(),
        vec!["boards".to_string(), "old.overlay".to_string()],
    ));
    app.handle_key(key('j'));
    app.handle_key(code(KeyCode::Enter));
    app.update(Message::SaveEntryChecked(true, false));
    assert_eq!(app.right.save_path.as_deref(), Some("/ws/app/old.overlay"));
}

#[test]
fn quick_save_needs_a_chosen_file() {
    let mut app = App::new();
    focus_generator(&mut app);
    app.handle_key(code(KeyCode::Enter));
    assert!(app.handle_key(key('s')).is_empty());
}

#[test]
fn root_directory_has_no_parent_to_go_to() {
    let mut app = at_save_step();
    app.update(Message::SaveDirListed("/".to_string(), vec![]));
    assert!(app.handle_key(code(KeyCode::Backspace)).is_empty());
    assert_eq!(app.right.save_dir, "/");
}

#[test]
fn generator_properties_and_deletion() {
    let mut app = App::new();
    focus_generator(&mut app);
    app.handle_key(code(KeyCode::Enter));
    app.handle_key(key('n'));
    for c in "uart0".chars() {
        app.handle_key(key(c));
    }
    app.handle_key(code(KeyCode::Enter));
    app.handle_key(key('p'));
    assert_eq!(app.right.input_mode, Some(InputMode::PropertyName));
    for c in "current-speed".chars() {
        app.handle_key(key(c));
    }
    app.handle_key(code(KeyCode::Enter));
    assert_eq!(app.right.input_mode, Some(InputMode::PropertyValue));
    for c in "fast".chars() {
        app.handle_key(key(c));
    }
    app.handle_key(code(KeyCode::Enter));
    let node = &app.right.overlay_tree.reference_nodes[0].node;
    assert_eq!(node.properties.len(), 2);
    assert_eq!(node.properties[1].name, "current-speed");
    assert!(!app.key_fails_now(key('d')));
    app.handle_key(key('d'));
    assert_eq!(app.right.overlay_node_count(), 0);
}

#[test]
fn file_name_confirmation_asks_whether_the_file_exists() {
    let mut app = App::new();
    focus_generator(&mut app);
    app.right.step = GeneratorStep::SaveFile;
    app.right.save_dir = "/ws/app".to_string();
    app.right.input_mode = Some(InputMode::FileName);
    for c in "board.overlay".chars() {
        app.handle_key(key(c));
    }
    let acts = app.handle_key(code(KeyCode::Enter));
    assert_eq!(acts, vec![Action::CheckSaveTarget("/ws/app/board.overlay".to_string())]);
    app.update(Message::SaveTargetChecked(false));
    assert_eq!(app.right.save_path.as_deref(), Some("/ws/app/board.overlay"));
    assert_eq!(app.right.input_mode, None);
}

#[test]
fn after_a_save_continue_or_start_afresh() {
    let mut app = App::new();
    focus_generator(&mut app);
    app.handle_key(code(KeyCode::Enter));
    app.handle_key(key('n'));
    app.handle_key(key('x'));
    app.handle_key(code(KeyCode::Enter));
    app.right.step = GeneratorStep::SaveFile;
    app.right.save_complete = true;
    app.handle_key(key('y'));
    assert!(!app.right.save_complete);
    assert_eq!(app.right.step, GeneratorStep::EditNodes);
    assert_eq!(app.right.overlay_node_count(), 1);
    app.right.save_complete = true;
    app.handle_key(key('n'));
    assert_eq!(app.right.overlay_node_count(), 0);
    assert_eq!(app.right.step, GeneratorStep::EditNodes);
}

#[test]
fn a_adds_the_viewed_node_to_the_overlay() {
    let mut app = App::new();
    let src = "/ {\n\tsoc {\n\t\ti2c0: i2c@1000 {\n\t\t};\n\t};\n};\n";
    app.update(Message::FileParsed("/ws/a.dts".to_string(), parse_dts(src).unwrap()));
    app.active_panel = Panel::Center;
    app.handle_key(key('j'));
    app.handle_key(key('j'));
    app.handle_key(key('a'));
    assert_eq!(app.right.overlay_node_count(), 1);
    assert_eq!(app.right.overlay_tree.reference_nodes[0].reference.to_text(), "&i2c0");
}

#[test]
fn file_browser_locked_while_generator_holds_a_resolved_board() {
    let mut app = App::new();
    app.update(Message::FileTreeLoaded(
        FileTreeMode::UserOverlays,
        vec![entry("a.overlay"), entry("b.overlay")],
    ));
    let before = app.left.selected;
    app.right.set_resolved_tree(parse_dts("/ {\n};\n").unwrap());
    app.handle_key(key('j'));
    assert_eq!(app.left.selected, before);
    // Closing the generator unlocks the browser.
    app.handle_key(key('g'));
    app.handle_key(key('j'));
    assert_eq!(app.left.selected, before + 1);
}

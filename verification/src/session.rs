//! The browser as a whole: which panel has the focus, the file search, the
//! debug log panel, and how keys and the results of background work change
//! the state.  Each step also says what outside work is to be started
//! (scanning directories, reading files, copying to the clipboard).
use vstd::prelude::*;
use crate::file_tree::{
    FileTreeMode, FileTreeState, TreeStateV, board_name_of, entry_index, filtered_v,
    clear_filter_v, move_down_v, move_up_v, cycle_mode_v, set_mode_v, toggle_board_picker_v,
    select_board_v, set_entries_v,
};
use crate::generator::{
    GeneratorState, GenV, GeneratorStep, InputMode, initial_v, collapse_toggled_v, pushed_v,
    popped_v, after_confirm, toggled_v, typing_v, start_add_v, start_edit_v, after_delete,
    lines_fit, total_lines, line_info, save_up_v, save_down_v, step_after, step_before,
    with_reference, fresh_overlay, save_enter_target_v, save_enter_v, save_back_v,
    accept_overwrite_v, save_typed_v, save_erased_v,
};
use crate::model::RefV;
use crate::west::{path_join, join_path};
use crate::lines::text_lines;
use crate::model::{DeviceTree, height_below, node_height};
use crate::panel::{Panel, next_of, prev_of};
use crate::serializer::tree_depth_ok;
use crate::text::{decimal, dec_str, push_str, string_of, to_chars};
use crate::viewer::{
    BindingSummary, ViewerState, ViewerV, has_active, yanked, include_at_cursor, raw_cursor_line,
    include_cut, with_active, scroll_down_v, scroll_up_v, toggle_mode_v, toggle_visual_v,
    start_search_v, search_next_v, search_prev_v, search_cancel_v, search_commit_v, search_pop_v,
    search_push_v, toggle_expand_v, collapse_current_v, expand_current_v, next_tab_v, prev_tab_v,
    close_tab_v, raw_set_v, dts_set_v, binding_set_v, cursor_node,
};
use crate::west::HalDtsEntry;
use crate::workspace::{FileEntry, WorkspaceState};

verus! {

// -------------------------------------------------------------------------
// Keys, messages and actions
// -------------------------------------------------------------------------

/// The keys the browser tells apart.
#[derive(Debug, Clone, Copy, PartialEq, Eq, Structural)]
pub enum KeyCode {
    Char(char),
    Esc,
    Enter,
    Backspace,
    Tab,
    BackTab,
    Up,
    Down,
    Left,
    Right,
    Other,
}

/// A key press: the key and whether Control was held.
#[derive(Debug, Clone, Copy, PartialEq, Eq, Structural)]
pub struct KeyPress {
    pub code: KeyCode,
    pub ctrl: bool,
}

/// The file search of the left panel.
#[derive(Debug, Clone, PartialEq)]
pub struct SearchState {
    pub active: bool,
    pub query: String,
}

/// The debug log panel: whether it is shown, and where it is scrolled.
#[derive(Debug, Clone, Copy, PartialEq, Eq, Structural)]
pub struct DebugPanel {
    pub visible: bool,
    pub scroll: usize,
    /// The panel keeps the newest entry in view.
    pub follow: bool,
}

impl DebugPanel {
    pub fn new() -> (d: DebugPanel)
        ensures
            d == (DebugPanel { visible: false, scroll: 0, follow: true }),
    {
        DebugPanel { visible: false, scroll: 0, follow: true }
    }

    pub fn toggle(&mut self)
        ensures
            *final(self) == (DebugPanel { visible: !old(self).visible, ..*old(self) }),
    {
        self.visible = !self.visible;
    }

    /// Scrolls up a line and stops following the newest entry.
    pub fn scroll_up(&mut self)
        ensures
            *final(self) == (DebugPanel {
                follow: false,
                scroll: if old(self).scroll > 0 {
                    (old(self).scroll - 1) as usize
                } else {
                    0
                },
                ..*old(self)
            }),
    {
        self.follow = false;
        if self.scroll > 0 {
            self.scroll = self.scroll - 1;
        }
    }

    /// Scrolls down a line.
    pub fn scroll_down(&mut self)
        ensures
            *final(self) == (DebugPanel {
                scroll: if old(self).scroll < usize::MAX {
                    (old(self).scroll + 1) as usize
                } else {
                    old(self).scroll
                },
                ..*old(self)
            }),
    {
        if self.scroll < usize::MAX {
            self.scroll = self.scroll + 1;
        }
    }

    /// Before drawing `total` entries in `height` lines: when following, or
    /// scrolled to the end, the view is pinned to the newest entries.
    pub fn pin(&mut self, total: usize, height: usize)
        ensures
            (old(self).follow || old(self).scroll + height >= total) ==> *final(self) == (DebugPanel {
                scroll: if total > height {
                    (total - height) as usize
                } else {
                    0
                },
                follow: true,
                ..*old(self)
            }),
            !(old(self).follow || old(self).scroll + height >= total) ==> *final(self) == *old(self),
    {
        if self.follow || self.scroll >= total || total - self.scroll <= height {
            self.scroll = if total > height {
                total - height
            } else {
                0
            };
            self.follow = true;
        }
    }
}

/// What background work reports back, and the keys pressed.
pub enum Message {
    Key(KeyPress),
    Tick,
    Resize(u16, u16),
    WorkspaceReady(WorkspaceState),
    BoardsLoaded(Vec<String>),
    HalFetched(Vec<HalDtsEntry>),
    FileTreeLoaded(FileTreeMode, Vec<FileEntry>),
    FileParsed(String, DeviceTree),
    BindingParsed(String, BindingSummary),
    FileContent(String, String),
    StatusUpdate(String),
    Error(String),
    /// Whether the file the overlay is to be saved as exists already.
    SaveTargetChecked(bool),
    /// The listing of a directory for the save browser: the directory and
    /// its entries.
    SaveDirListed(String, Vec<String>),
    /// Whether the path Enter looked at in the file browser exists, and
    /// whether it is a directory.
    SaveEntryChecked(bool, bool),
    /// The overlay was written to its file.
    OverlaySaved,
}

/// Outside work a step asks for.
#[derive(Debug, Clone, PartialEq)]
pub enum Action {
    /// List the files of a mode (for board files, of the chosen board).
    ScanFiles { mode: FileTreeMode, board: Option<String> },
    /// List the boards of the workspace.
    ScanBoards,
    /// Find the DTS sources of the HAL modules.
    FetchHal,
    /// Read (and parse) a file.
    LoadFile(String),
    /// Copy text to the clipboard.
    Clipboard(String),
    /// Find the file an include names (next to the current file, then on
    /// the search paths) and read it.
    OpenInclude(String),
    /// Record an error in the log.
    LogError(String),
    /// Find out whether a file exists (the save target of the overlay).
    CheckSaveTarget(String),
    /// List a directory for the save browser (its subdirectories and
    /// overlay files, in name order).
    BrowseSaveDir(String),
    /// Find out whether a path of the file browser exists and whether it
    /// is a directory.
    CheckSaveEntry(String),
    /// Write the generator's overlay to a file.
    SaveOverlay(String),
}

pub enum ActionV {
    ScanFiles { mode: FileTreeMode, board: Option<Seq<char>> },
    ScanBoards,
    FetchHal,
    LoadFile(Seq<char>),
    Clipboard(Seq<char>),
    OpenInclude(Seq<char>),
    LogError(Seq<char>),
    CheckSaveTarget(Seq<char>),
    BrowseSaveDir(Seq<char>),
    CheckSaveEntry(Seq<char>),
    SaveOverlay(Seq<char>),
}

impl View for Action {
    type V = ActionV;

    open spec fn view(&self) -> ActionV {
        match self {
            Action::ScanFiles { mode, board } => ActionV::ScanFiles {
                mode: *mode,
                board: match board {
                    Some(b) => Some(b@),
                    None => None,
                },
            },
            Action::ScanBoards => ActionV::ScanBoards,
            Action::FetchHal => ActionV::FetchHal,
            Action::LoadFile(p) => ActionV::LoadFile(p@),
            Action::Clipboard(t) => ActionV::Clipboard(t@),
            Action::OpenInclude(n) => ActionV::OpenInclude(n@),
            Action::LogError(e) => ActionV::LogError(e@),
            Action::CheckSaveTarget(p) => ActionV::CheckSaveTarget(p@),
            Action::BrowseSaveDir(d) => ActionV::BrowseSaveDir(d@),
            Action::CheckSaveEntry(p) => ActionV::CheckSaveEntry(p@),
            Action::SaveOverlay(p) => ActionV::SaveOverlay(p@),
        }
    }
}

pub open spec fn actions_v(v: Seq<Action>) -> Seq<ActionV> {
    v.map_values(|a: Action| a@)
}

// -------------------------------------------------------------------------
// The state
// -------------------------------------------------------------------------

/// The state of the browser.
pub struct App {
    pub should_quit: bool,
    pub active_panel: Panel,
    pub workspace: Option<WorkspaceState>,
    pub search: SearchState,
    pub left: FileTreeState,
    pub center: ViewerState,
    pub right: GeneratorState,
    pub status_message: Option<String>,
    /// The width of the left panel, in percent (10 to 50).
    pub left_width_pct: u16,
    pub debug: DebugPanel,
    /// The key help is shown.
    pub show_help: bool,
}

#[verifier::ext_equal]
pub struct AppV {
    pub should_quit: bool,
    pub active_panel: Panel,
    pub workspace: Option<WorkspaceState>,
    pub search_active: bool,
    pub search_query: Seq<char>,
    pub left: TreeStateV,
    pub center: ViewerV,
    pub right: GenV,
    pub status: Option<Seq<char>>,
    pub left_width_pct: u16,
    pub debug: DebugPanel,
    pub show_help: bool,
}

impl View for App {
    type V = AppV;

    open spec fn view(&self) -> AppV {
        AppV {
            should_quit: self.should_quit,
            active_panel: self.active_panel,
            workspace: self.workspace,
            search_active: self.search.active,
            search_query: self.search.query@,
            left: self.left@,
            center: self.center@,
            right: self.right@,
            status: match self.status_message {
                Some(s) => Some(s@),
                None => None,
            },
            left_width_pct: self.left_width_pct,
            debug: self.debug,
            show_help: self.show_help,
        }
    }
}

/// The request to list the files of the browser's mode.
pub open spec fn scan_of(l: TreeStateV) -> ActionV {
    ActionV::ScanFiles { mode: l.mode, board: board_name_of(l) }
}

/// `x` when `c` holds, else nothing.
pub open spec fn when(c: bool, x: ActionV) -> Seq<ActionV> {
    if c {
        seq![x]
    } else {
        Seq::empty()
    }
}

// -------------------------------------------------------------------------
// Keys: the model
// -------------------------------------------------------------------------

/// A key while the file search is being typed.
pub open spec fn search_key_v(a: AppV, k: KeyPress) -> AppV {
    match k.code {
        KeyCode::Esc => AppV {
            search_active: false,
            search_query: Seq::empty(),
            left: clear_filter_v(a.left),
            ..a
        },
        KeyCode::Enter => AppV { search_active: false, ..a },
        KeyCode::Backspace => {
            let q = if a.search_query.len() > 0 {
                a.search_query.drop_last()
            } else {
                a.search_query
            };
            AppV { search_query: q, left: filtered_v(a.left, q), ..a }
        },
        KeyCode::Char(c) => {
            let q = a.search_query.push(c);
            AppV { search_query: q, left: filtered_v(a.left, q), ..a }
        },
        _ => a,
    }
}

/// Whether a key is handled by the browser as a whole (before the panel
/// with the focus sees it).
pub open spec fn is_global(a: AppV, k: KeyPress) -> bool {
    match k.code {
        KeyCode::Char(c) => c == 'q' || (c == 'd' && k.ctrl) || c == '?' || (c == '/'
            && a.active_panel == Panel::Left) || c == 'g' || c == '[' || c == ']',
        KeyCode::Tab => true,
        KeyCode::BackTab => true,
        _ => false,
    }
}

/// A key handled by the browser as a whole.
pub open spec fn global_key_v(a: AppV, k: KeyPress) -> AppV {
    match k.code {
        KeyCode::Char(c) => if c == 'q' {
            if a.active_panel == Panel::Debug {
                AppV {
                    debug: DebugPanel { visible: !a.debug.visible, ..a.debug },
                    active_panel: Panel::Center,
                    ..a
                }
            } else {
                AppV { should_quit: true, ..a }
            }
        } else if c == 'd' && k.ctrl {
            let d = DebugPanel { visible: !a.debug.visible, ..a.debug };
            AppV {
                debug: d,
                active_panel: if d.visible {
                    Panel::Debug
                } else if a.active_panel == Panel::Debug {
                    Panel::Center
                } else {
                    a.active_panel
                },
                ..a
            }
        } else if c == '?' {
            AppV { show_help: true, ..a }
        } else if c == '/' {
            AppV { search_active: true, search_query: Seq::empty(), ..a }
        } else if c == 'g' {
            AppV { right: collapse_toggled_v(a.right), ..a }
        } else if c == '[' {
            AppV {
                left_width_pct: if a.left_width_pct >= 13 {
                    (a.left_width_pct - 3) as u16
                } else {
                    10
                },
                ..a
            }
        } else {
            AppV {
                left_width_pct: if a.left_width_pct >= 47 {
                    50
                } else {
                    (a.left_width_pct + 3) as u16
                },
                ..a
            }
        },
        KeyCode::Tab => AppV { active_panel: next_of(a.active_panel, a.debug.visible), ..a },
        _ => AppV { active_panel: prev_of(a.active_panel, a.debug.visible), ..a },
    }
}

/// A key in the file browser.
pub open spec fn left_key_v(a: AppV, k: KeyPress) -> (AppV, Seq<ActionV>) {
    let ws = a.workspace is Some;
    let l = a.left;
    match k.code {
        KeyCode::Down => (AppV { left: move_down_v(l), ..a }, Seq::empty()),
        KeyCode::Up => (AppV { left: move_up_v(l), ..a }, Seq::empty()),
        KeyCode::Enter => if l.board_picker_open {
            let l2 = select_board_v(l);
            (
                AppV { left: l2, right: board_synced_v(a.right, board_name_of(l2)), ..a },
                when(ws, scan_of(l2)),
            )
        } else {
            match entry_index(l) {
                Some(i) => (a, seq![ActionV::LoadFile(l.entries[i].path@)]),
                None => (a, Seq::empty()),
            }
        },
        KeyCode::Char(c) => if c == 'j' {
            (AppV { left: move_down_v(l), ..a }, Seq::empty())
        } else if c == 'k' {
            (AppV { left: move_up_v(l), ..a }, Seq::empty())
        } else if c == 'm' {
            let l2 = cycle_mode_v(l);
            (
                AppV { left: l2, ..a },
                when(
                    l2.mode == FileTreeMode::BoardFiles && l2.boards.len() == 0 && ws,
                    ActionV::ScanBoards,
                ) + when(ws, scan_of(l2)),
            )
        } else if c == '1' {
            let l2 = set_mode_v(l, FileTreeMode::BoardFiles);
            (
                AppV { left: l2, ..a },
                when(l2.boards.len() == 0 && ws, ActionV::ScanBoards) + when(ws, scan_of(l2)),
            )
        } else if c == '2' {
            let l2 = set_mode_v(l, FileTreeMode::UserOverlays);
            (AppV { left: l2, ..a }, when(ws, scan_of(l2)))
        } else if c == '3' {
            let l2 = set_mode_v(l, FileTreeMode::Bindings);
            (AppV { left: l2, ..a }, when(ws, scan_of(l2)))
        } else if c == 'b' {
            if l.mode == FileTreeMode::BoardFiles {
                let l2 = toggle_board_picker_v(l);
                (
                    AppV { left: l2, ..a },
                    when(l2.board_picker_open && l2.boards.len() == 0 && ws, ActionV::ScanBoards),
                )
            } else {
                (a, Seq::empty())
            }
        } else {
            (a, Seq::empty())
        },
        _ => (a, Seq::empty()),
    }
}

/// The status line after lines were yanked.
pub open spec fn yank_message(text: Seq<char>) -> Seq<char> {
    "Yanked "@ + dec_str(text_lines(text).len()) + " lines to clipboard"@
}

/// Whether a visual selection is being made in the viewer.
pub open spec fn in_visual(c: ViewerV) -> bool {
    has_active(c) && c.tabs[c.active as int].anchor is Some
}

/// A key in the viewer.
pub open spec fn center_key_v(a: AppV, k: KeyPress) -> (AppV, Seq<ActionV>) {
    let c = a.center;
    let ws = a.workspace is Some;
    if c.search_active {
        let c2 = match k.code {
            KeyCode::Esc => search_cancel_v(c),
            KeyCode::Enter => search_commit_v(c),
            KeyCode::Backspace => search_pop_v(c),
            KeyCode::Char(ch) => search_push_v(c, ch),
            _ => c,
        };
        (AppV { center: c2, ..a }, Seq::empty())
    } else {
        match k.code {
            KeyCode::Down => (AppV { center: scroll_down_v(c), ..a }, Seq::empty()),
            KeyCode::Up => (AppV { center: scroll_up_v(c), ..a }, Seq::empty()),
            KeyCode::Left => (AppV { center: collapse_current_v(c), ..a }, Seq::empty()),
            KeyCode::Right => (AppV { center: expand_current_v(c), ..a }, Seq::empty()),
            KeyCode::Esc => if in_visual(c) {
                (AppV { center: toggle_visual_v(c), ..a }, Seq::empty())
            } else if c.search_query is Some {
                (AppV { center: search_cancel_v(c), ..a }, Seq::empty())
            } else {
                (a, Seq::empty())
            },
            KeyCode::Enter => open_or_fold_v(a),
            KeyCode::Char(ch) => if ch == 'j' {
                (AppV { center: scroll_down_v(c), ..a }, Seq::empty())
            } else if ch == 'k' {
                (AppV { center: scroll_up_v(c), ..a }, Seq::empty())
            } else if ch == 'v' {
                (AppV { center: toggle_mode_v(c), ..a }, Seq::empty())
            } else if ch == 'V' {
                (AppV { center: toggle_visual_v(c), ..a }, Seq::empty())
            } else if ch == 'y' {
                yank_v(a)
            } else if ch == '/' {
                (AppV { center: start_search_v(c), ..a }, Seq::empty())
            } else if ch == 'n' {
                (AppV { center: search_next_v(c), ..a }, Seq::empty())
            } else if ch == 'N' {
                (AppV { center: search_prev_v(c), ..a }, Seq::empty())
            } else if ch == ' ' {
                open_or_fold_v(a)
            } else if ch == 'h' {
                (AppV { center: collapse_current_v(c), ..a }, Seq::empty())
            } else if ch == 'l' {
                (AppV { center: expand_current_v(c), ..a }, Seq::empty())
            } else if ch == '}' {
                (AppV { center: next_tab_v(c), ..a }, Seq::empty())
            } else if ch == '{' {
                (AppV { center: prev_tab_v(c), ..a }, Seq::empty())
            } else if ch == 'w' && k.ctrl {
                (AppV { center: close_tab_v(c), ..a }, Seq::empty())
            } else if ch == 'a' {
                (AppV { right: node_added_v(a.right, c), ..a }, Seq::empty())
            } else {
                (a, Seq::empty())
            },
            _ => (a, Seq::empty()),
        }
    }
}

/// `y` in the viewer: the visual selection is copied, and the status line
/// says how many lines were.
pub open spec fn yank_v(a: AppV) -> (AppV, Seq<ActionV>) {
    let c = a.center;
    if !has_active(c) {
        (a, Seq::empty())
    } else {
        let y = yanked(c.tabs[c.active as int]);
        let c2 = with_active(c, y.1);
        match y.0 {
            Some(text) => (
                AppV { center: c2, status: Some(yank_message(text)), ..a },
                seq![ActionV::Clipboard(text)],
            ),
            None => (AppV { center: c2, ..a }, Seq::empty()),
        }
    }
}

/// Enter on the viewer: an include line opens the included file (when a
/// workspace is known); any other line is folded or unfolded.
pub open spec fn open_or_fold_v(a: AppV) -> (AppV, Seq<ActionV>) {
    match include_at_cursor(a.center) {
        Some(inc) => (a, when(a.workspace is Some, ActionV::OpenInclude(inc))),
        None => (AppV { center: toggle_expand_v(a.center), ..a }, Seq::empty()),
    }
}

/// The generator following the board chosen in the browser: a different
/// board is taken over, and what was resolved for the old one dropped.
pub open spec fn board_synced_v(g: GenV, name: Option<Seq<char>>) -> GenV {
    if g.selected_board != name {
        GenV {
            selected_board: name,
            resolved_board: None,
            board_resolving: false,
            bindings: Seq::empty(),
            ..g
        }
    } else {
        g
    }
}

/// `a` in the viewer: the node under the cursor of the outline joins the
/// overlay, by its first label when it has labels, else by its path.
pub open spec fn node_added_v(g: GenV, c: ViewerV) -> GenV {
    match cursor_node(c) {
        Some(p) => with_reference(
            g,
            if p.1.len() > 0 {
                RefV::Label(p.1[0])
            } else {
                p.0
            },
        ),
        None => g,
    }
}

/// Whether a file name is being typed in the save step, or the overwriting
/// of an existing file is being asked.
pub open spec fn naming_file(g: GenV) -> bool {
    !g.save_complete && g.step == GeneratorStep::SaveFile && (g.save_input_active
        || g.confirm_overwrite)
}

/// Whether a key goes to the text being typed in the generator.
pub open spec fn typing_in_generator(a: AppV) -> bool {
    a.active_panel == Panel::Right && !a.right.collapsed && (a.right.input_mode is Some
        || naming_file(a.right))
}

/// The actions that list a directory, where one is given.
pub open spec fn browse_v(d: Option<Seq<char>>) -> Seq<ActionV> {
    match d {
        Some(x) => seq![ActionV::BrowseSaveDir(x)],
        None => Seq::empty(),
    }
}

/// A key while a file name is typed in the save step, or while the
/// overwriting of an existing file is asked: Enter overwrites and Esc
/// declines; else characters are typed and deleted, Esc stops typing, and
/// Enter asks what the typed path is.
pub open spec fn save_name_key_v(a: AppV, k: KeyPress) -> (AppV, Seq<ActionV>) {
    let g = a.right;
    if g.confirm_overwrite {
        match k.code {
            KeyCode::Enter => (AppV { right: accept_overwrite_v(g), ..a }, Seq::empty()),
            KeyCode::Esc => (AppV { right: GenV { confirm_overwrite: false, ..g }, ..a }, Seq::empty()),
            _ => (a, Seq::empty()),
        }
    } else {
        match k.code {
            KeyCode::Char(c) => (AppV { right: save_typed_v(g, c), ..a }, Seq::empty()),
            KeyCode::Backspace => (AppV { right: save_erased_v(g), ..a }, Seq::empty()),
            KeyCode::Esc => (
                AppV { right: GenV { save_input_active: false, save_input: Seq::empty(), ..g }, ..a },
                Seq::empty(),
            ),
            KeyCode::Enter => match save_enter_target_v(g) {
                Some(p) => (a, seq![ActionV::CheckSaveEntry(p)]),
                None => (a, Seq::empty()),
            },
            _ => (a, Seq::empty()),
        }
    }
}

/// A key while text is typed in the generator (a reference, a child name,
/// a property name or value, a file name).
pub open spec fn gen_input_key_v(a: AppV, k: KeyPress) -> (AppV, Seq<ActionV>) {
    let g = a.right;
    if g.input_mode is None {
        save_name_key_v(a, k)
    } else {
    match k.code {
        KeyCode::Char(c) => (AppV { right: pushed_v(g, c), ..a }, Seq::empty()),
        KeyCode::Backspace => (AppV { right: popped_v(g), ..a }, Seq::empty()),
        KeyCode::Esc => (
            AppV {
                right: GenV { input_mode: None, input_buffer: Seq::empty(), editing: None, ..g },
                ..a
            },
            Seq::empty(),
        ),
        KeyCode::Enter => if g.input_mode == Some(InputMode::FileName) {
            (a, seq![ActionV::CheckSaveTarget(path_join(g.save_dir, g.input_buffer))])
        } else {
            (AppV { right: after_confirm(g, false), ..a }, Seq::empty())
        },
        _ => (a, Seq::empty()),
    }
    }
}

/// Enter in the file browser: saves to the chosen file, where one is
/// chosen, else asks what the path under the cursor is.
pub open spec fn save_step_enter_v(a: AppV) -> (AppV, Seq<ActionV>) {
    match a.right.save_path {
        Some(p) => (a, seq![ActionV::SaveOverlay(p)]),
        None => match save_enter_target_v(a.right) {
            Some(p) => (a, seq![ActionV::CheckSaveEntry(p)]),
            None => (a, Seq::empty()),
        },
    }
}

/// The generator's cursor one line down at the editing step, when a line
/// follows.
pub open spec fn node_down_v(g: GenV) -> GenV {
    GenV {
        selected_node: if g.selected_node + 1 < total_lines(g) {
            (g.selected_node + 1) as usize
        } else {
            g.selected_node
        },
        ..g
    }
}

/// The generator's cursor one line up at the editing step.
pub open spec fn node_up_v(g: GenV) -> GenV {
    GenV {
        selected_node: if g.selected_node > 0 {
            (g.selected_node - 1) as usize
        } else {
            0
        },
        ..g
    }
}

/// The generator once an overlay is to be started afresh.
pub open spec fn overlay_reset_v(g: GenV) -> GenV {
    GenV {
        overlay: fresh_overlay(),
        selected_node: 0,
        node_scroll: 0,
        expanded: Set::empty(),
        editing: None,
        input_buffer: Seq::empty(),
        input_mode: None,
        save_path: None,
        save_input: Seq::empty(),
        save_input_active: false,
        confirm_overwrite: false,
        save_complete: false,
        step: GeneratorStep::EditNodes,
        ..g
    }
}

/// The directory the save browser starts in: the workspace root, when the
/// workspace is known.
pub open spec fn save_start_dir(a: AppV) -> Seq<char> {
    match a.workspace {
        Some(ws) => ws.info.workspace_root@,
        None => a.right.save_dir,
    }
}

/// A key in the generator (when no text is typed there).
pub open spec fn right_key_v(a: AppV, k: KeyPress) -> (AppV, Seq<ActionV>) {
    let g = a.right;
    let same = (a, Seq::<ActionV>::empty());
    if g.collapsed {
        same
    } else if g.save_complete {
        if k.code == KeyCode::Char('y') {
            (
                AppV { right: GenV { save_complete: false, step: GeneratorStep::EditNodes, ..g }, ..a },
                Seq::empty(),
            )
        } else if k.code == KeyCode::Char('n') {
            (AppV { right: overlay_reset_v(g), ..a }, Seq::empty())
        } else {
            same
        }
    } else {
        match g.step {
            GeneratorStep::SelectBoard => if k.code == KeyCode::Right || k.code == KeyCode::Enter {
                (AppV { right: GenV { step: step_after(g.step), ..g }, ..a }, Seq::empty())
            } else {
                same
            },
            GeneratorStep::EditNodes => match k.code {
                KeyCode::Down => (AppV { right: node_down_v(g), ..a }, Seq::empty()),
                KeyCode::Up => (AppV { right: node_up_v(g), ..a }, Seq::empty()),
                KeyCode::Enter => (AppV { right: toggled_v(g), ..a }, Seq::empty()),
                KeyCode::Right => (
                    AppV { right: GenV { step: step_after(g.step), ..g }, ..a },
                    seq![ActionV::BrowseSaveDir(save_start_dir(a))],
                ),
                KeyCode::Left => (AppV { right: GenV { step: step_before(g.step), ..g }, ..a }, Seq::empty()),
                KeyCode::Esc => (AppV { right: GenV { step: step_before(g.step), ..g }, ..a }, Seq::empty()),
                KeyCode::Char(c) => if c == 'j' {
                    (AppV { right: node_down_v(g), ..a }, Seq::empty())
                } else if c == 'k' {
                    (AppV { right: node_up_v(g), ..a }, Seq::empty())
                } else if c == ' ' {
                    (AppV { right: toggled_v(g), ..a }, Seq::empty())
                } else if c == 'n' {
                    (AppV { right: typing_v(g, InputMode::NodeReference), ..a }, Seq::empty())
                } else if c == 'c' {
                    (
                        AppV {
                            right: match line_info(g, g.selected_node as int) {
                                Some(_) => typing_v(g, InputMode::ChildName),
                                None => g,
                            },
                            ..a
                        },
                        Seq::empty(),
                    )
                } else if c == 'p' {
                    (AppV { right: start_add_v(g), ..a }, Seq::empty())
                } else if c == 'e' {
                    (AppV { right: start_edit_v(g), ..a }, Seq::empty())
                } else if c == 'd' {
                    (AppV { right: after_delete(g), ..a }, Seq::empty())
                } else if c == 's' {
                    match g.save_path {
                        Some(p) => (a, seq![ActionV::SaveOverlay(p)]),
                        None => same,
                    }
                } else {
                    same
                },
                _ => same,
            },
            GeneratorStep::SaveFile => match k.code {
                KeyCode::Enter => save_step_enter_v(a),
                KeyCode::Backspace => (
                    AppV { right: save_back_v(g).0, ..a },
                    browse_v(save_back_v(g).1),
                ),
                KeyCode::Down => (AppV { right: save_down_v(g), ..a }, Seq::empty()),
                KeyCode::Up => (AppV { right: save_up_v(g), ..a }, Seq::empty()),
                KeyCode::Left => (AppV { right: GenV { step: step_before(g.step), ..g }, ..a }, Seq::empty()),
                KeyCode::Esc => (AppV { right: GenV { step: step_before(g.step), ..g }, ..a }, Seq::empty()),
                KeyCode::Char(c) => if c == 'j' {
                    (AppV { right: save_down_v(g), ..a }, Seq::empty())
                } else if c == 'k' {
                    (AppV { right: save_up_v(g), ..a }, Seq::empty())
                } else if c == 'n' {
                    (
                        AppV {
                            right: GenV { save_input_active: true, save_input: Seq::empty(), ..g },
                            ..a
                        },
                        Seq::empty(),
                    )
                } else {
                    same
                },
                _ => same,
            },
        }
    }
}

/// Whether the file browser is locked: while the generator is open with
/// the resolved tree of its board.
pub open spec fn left_locked(a: AppV) -> bool {
    !a.right.collapsed && a.right.resolved_board is Some
}

/// A key in the debug log panel.
pub open spec fn debug_key_v(a: AppV, k: KeyPress) -> AppV {
    let d = a.debug;
    match k.code {
        KeyCode::Down => AppV { debug: DebugPanel { scroll: if d.scroll < usize::MAX { (d.scroll + 1) as usize } else { d.scroll }, ..d }, ..a },
        KeyCode::Up => AppV { debug: DebugPanel { follow: false, scroll: if d.scroll > 0 { (d.scroll - 1) as usize } else { 0 }, ..d }, ..a },
        KeyCode::Char(c) => if c == 'j' {
            AppV { debug: DebugPanel { scroll: if d.scroll < usize::MAX { (d.scroll + 1) as usize } else { d.scroll }, ..d }, ..a }
        } else if c == 'k' {
            AppV { debug: DebugPanel { follow: false, scroll: if d.scroll > 0 { (d.scroll - 1) as usize } else { 0 }, ..d }, ..a }
        } else if c == 'G' {
            AppV { debug: DebugPanel { follow: true, ..d }, ..a }
        } else if c == 'g' {
            AppV { debug: DebugPanel { scroll: 0, follow: false, ..d }, ..a }
        } else {
            a
        },
        _ => a,
    }
}

/// What a key press does.
pub open spec fn key_step(a: AppV, k: KeyPress) -> (AppV, Seq<ActionV>) {
    if k.ctrl && k.code == KeyCode::Char('c') {
        (AppV { should_quit: true, ..a }, Seq::empty())
    } else if a.show_help {
        (AppV { show_help: false, ..a }, Seq::empty())
    } else if a.search_active {
        (search_key_v(a, k), Seq::empty())
    } else if typing_in_generator(a) {
        gen_input_key_v(a, k)
    } else if is_global(a, k) {
        (global_key_v(a, k), Seq::empty())
    } else {
        match a.active_panel {
            Panel::Left => if left_locked(a) {
                (a, Seq::empty())
            } else {
                left_key_v(a, k)
            },
            Panel::Center => center_key_v(a, k),
            Panel::Right => right_key_v(a, k),
            Panel::Debug => (debug_key_v(a, k), Seq::empty()),
        }
    }
}

/// Whether a key press reaches the viewer's own keys.
pub open spec fn reaches_viewer(a: AppV, k: KeyPress) -> bool {
    !(k.ctrl && k.code == KeyCode::Char('c')) && !a.show_help && !a.search_active && !is_global(a, k)
        && a.active_panel == Panel::Center && !a.center.search_active
}

/// Whether a key press reaches the generator's node list.
pub open spec fn reaches_node_list(a: AppV, k: KeyPress) -> bool {
    !(k.ctrl && k.code == KeyCode::Char('c')) && !a.show_help && !a.search_active
        && !typing_in_generator(a) && !is_global(a, k) && a.active_panel == Panel::Right
        && !a.right.collapsed && !a.right.save_complete && a.right.step == GeneratorStep::EditNodes
}

/// The inputs on which a key press fails: stepping back from a match when
/// the matches shrank below the current one, opening an include line whose
/// delimited text is a lone quote, or moving down or deleting in a node
/// list whose lines cannot be counted in a machine word.
pub open spec fn key_fails(a: AppV, k: KeyPress) -> bool {
    (reaches_viewer(a, k) && ((k.code == KeyCode::Char('N') && a.center.matches.len() > 0
        && a.center.match_idx > a.center.matches.len()) || ((k.code == KeyCode::Enter || k.code
        == KeyCode::Char(' ')) && (raw_cursor_line(a.center) matches Some(l) && include_cut(l)))))
        || (reaches_node_list(a, k) && (k.code == KeyCode::Down || k.code == KeyCode::Char('j')
        || k.code == KeyCode::Char('d')) && !lines_fit(a.right))
}

/// Ctrl-C quits, whatever the state.
pub proof fn law_ctrl_c_quits(a: AppV)
    ensures
        key_step(a, KeyPress { code: KeyCode::Char('c'), ctrl: true }).0.should_quit,
        key_step(a, KeyPress { code: KeyCode::Char('c'), ctrl: true }).1.len() == 0,
{
}

/// While the key help is shown, any key other than Ctrl-C only closes it.
pub proof fn law_any_key_closes_help(a: AppV, k: KeyPress)
    requires
        a.show_help,
        !(k.ctrl && k.code == KeyCode::Char('c')),
    ensures
        key_step(a, k) == (AppV { show_help: false, ..a }, Seq::<ActionV>::empty()),
{
}

/// Escape while typing the file search ends it, empties the query and
/// drops the filters.
pub proof fn law_search_escape_clears(a: AppV)
    requires
        !a.show_help,
        a.search_active,
    ensures
        ({
            let b = key_step(a, KeyPress { code: KeyCode::Esc, ctrl: false }).0;
            &&& !b.search_active
            &&& b.search_query.len() == 0
            &&& b.left.filtered is None
            &&& b.left.filtered_boards is None
        }),
{
}

proof fn lemma_panels_keep_width(a: AppV, k: KeyPress)
    ensures
        search_key_v(a, k).left_width_pct == a.left_width_pct,
        gen_input_key_v(a, k).0.left_width_pct == a.left_width_pct,
        left_key_v(a, k).0.left_width_pct == a.left_width_pct,
        debug_key_v(a, k).left_width_pct == a.left_width_pct,
{
}

proof fn lemma_viewer_keeps_width(a: AppV, k: KeyPress)
    ensures
        center_key_v(a, k).0.left_width_pct == a.left_width_pct,
{
}

proof fn lemma_generator_keeps_width(a: AppV, k: KeyPress)
    ensures
        right_key_v(a, k).0.left_width_pct == a.left_width_pct,
{
}

/// No key takes the width of the left panel out of 10 to 50 percent.
proof fn lemma_key_width(a: AppV, k: KeyPress)
    requires
        10 <= a.left_width_pct <= 50,
    ensures
        10 <= key_step(a, k).0.left_width_pct <= 50,
{
    lemma_panels_keep_width(a, k);
    lemma_viewer_keeps_width(a, k);
    lemma_generator_keeps_width(a, k);
    assert(10 <= global_key_v(a, k).left_width_pct <= 50);
}

/// The left panel keeps a width between 10 and 50 percent: no key and no
/// message takes it out of that range.
pub proof fn law_panel_width_in_range(a: AppV, k: KeyPress, m: Message)
    requires
        10 <= a.left_width_pct <= 50,
    ensures
        10 <= key_step(a, k).0.left_width_pct <= 50,
        10 <= msg_step(a, m).0.left_width_pct <= 50,
{
    lemma_key_width(a, k);
    match m {
        Message::Key(k2) => lemma_key_width(a, k2),
        _ => {},
    }
}

/// The number of entries that have a DTS directory.
pub open spec fn dts_count(s: Seq<HalDtsEntry>) -> nat
    decreases s.len(),
{
    if s.len() == 0 {
        0
    } else {
        dts_count(s.drop_last()) + if s.last().dts_path is Some {
            1nat
        } else {
            0nat
        }
    }
}

/// The status line once the workspace is known.
pub open spec fn workspace_status(ws: WorkspaceState) -> Seq<char> {
    "Workspace: "@ + ws.info.workspace_root@ + " | Zephyr: "@ + ws.info.zephyr_dir@
}

/// The status line once the HAL modules were looked for.
pub open spec fn hal_status(entries: Seq<HalDtsEntry>) -> Seq<char> {
    "HAL modules ready ("@ + dec_str(dts_count(entries)) + " with DTS)"@
}

/// The inputs on which a message can be handled: a key that does not fail,
/// and a tree that is shallow enough to be walked.
pub open spec fn msg_ok(a: AppV, m: Message) -> bool {
    match m {
        Message::Key(k) => !key_fails(a, k),
        Message::FileParsed(_, t) => tree_depth_ok(&t),
        _ => true,
    }
}

/// What a message does.
pub open spec fn msg_step(a: AppV, m: Message) -> (AppV, Seq<ActionV>) {
    match m {
        Message::Key(k) => key_step(a, k),
        Message::Tick => (a, Seq::empty()),
        Message::Resize(_, _) => (a, Seq::empty()),
        Message::WorkspaceReady(ws) => (
            AppV { status: Some(workspace_status(ws)), workspace: Some(ws), ..a },
            seq![scan_of(a.left), ActionV::FetchHal],
        ),
        Message::BoardsLoaded(b) => (
            AppV {
                left: TreeStateV {
                    boards: b@.map_values(|s: String| s@),
                    boards_loaded: true,
                    ..a.left
                },
                ..a
            },
            Seq::empty(),
        ),
        Message::HalFetched(entries) => (
            AppV {
                workspace: match a.workspace {
                    Some(w) => Some(WorkspaceState { hal_entries: entries, ..w }),
                    None => None,
                },
                status: Some(hal_status(entries@)),
                ..a
            },
            Seq::empty(),
        ),
        Message::FileTreeLoaded(mode, entries) => if a.left.mode == mode {
            let l = set_entries_v(a.left, entries@);
            (
                AppV {
                    left: if a.search_active {
                        filtered_v(l, a.search_query)
                    } else {
                        l
                    },
                    ..a
                },
                Seq::empty(),
            )
        } else {
            (a, Seq::empty())
        },
        Message::FileParsed(p, t) => (AppV { center: dts_set_v(a.center, p@, t@), ..a }, Seq::empty()),
        Message::BindingParsed(p, b) => (
            AppV { center: binding_set_v(a.center, p@, b), ..a },
            Seq::empty(),
        ),
        Message::FileContent(p, c) => (
            AppV { center: raw_set_v(a.center, p@, c@), ..a },
            Seq::empty(),
        ),
        Message::StatusUpdate(t) => (AppV { status: Some(t@), ..a }, Seq::empty()),
        Message::Error(e) => (
            AppV { status: Some("Error: "@ + e@), ..a },
            seq![ActionV::LogError(e@)],
        ),
        Message::SaveTargetChecked(exists) => (
            AppV { right: after_confirm(a.right, exists), ..a },
            Seq::empty(),
        ),
        Message::SaveDirListed(dir, entries) => (
            AppV {
                right: GenV {
                    save_dir: dir@,
                    save_entries: entries@.map_values(|s: String| s@),
                    save_selected: 0,
                    save_scroll: 0,
                    save_input: Seq::empty(),
                    save_input_active: false,
                    confirm_overwrite: false,
                    ..a.right
                },
                ..a
            },
            Seq::empty(),
        ),
        Message::SaveEntryChecked(exists, is_dir) => (
            AppV { right: save_enter_v(a.right, exists, is_dir).0, ..a },
            browse_v(save_enter_v(a.right, exists, is_dir).1),
        ),
        Message::OverlaySaved => (
            AppV { right: GenV { save_complete: true, ..a.right }, ..a },
            Seq::empty(),
        ),
    }
}

/// The browser as it starts: the file browser has the focus, nothing is
/// open and nothing is known of the workspace.
pub open spec fn initial_app_v() -> AppV {
    AppV {
        should_quit: false,
        active_panel: Panel::Left,
        workspace: None,
        search_active: false,
        search_query: Seq::empty(),
        left: TreeStateV {
            mode: FileTreeMode::UserOverlays,
            boards: Seq::empty(),
            boards_loaded: false,
            selected_board: None,
            board_picker_open: false,
            entries: Seq::empty(),
            filtered: None,
            filtered_boards: None,
            selected: 0,
            scroll_offset: 0,
        },
        center: ViewerV {
            tabs: Seq::empty(),
            active: 0,
            current_file: None,
            search_active: false,
            search_input: Seq::empty(),
            search_query: None,
            matches: Seq::empty(),
            match_idx: 0,
        },
        right: initial_v(),
        status: None,
        left_width_pct: 25,
        debug: DebugPanel { visible: false, scroll: 0, follow: true },
        show_help: false,
    }
}

proof fn lemma_actions_push(s: Seq<Action>, x: Action)
    ensures
        actions_v(s.push(x)) == actions_v(s).push(x@),
{
    assert(actions_v(s.push(x)) =~= actions_v(s).push(x@));
}

/// One action.
fn single_action(a: Action) -> (r: Vec<Action>)
    ensures
        actions_v(r@) == seq![a@],
{
    let mut out: Vec<Action> = Vec::new();
    proof {
        lemma_actions_push(out@, a);
        lemma_actions_empty();
    }
    out.push(a);
    out
}

proof fn lemma_actions_empty()
    ensures
        actions_v(Seq::<Action>::empty()) == Seq::<ActionV>::empty(),
{
    assert(actions_v(Seq::<Action>::empty()) =~= Seq::<ActionV>::empty());
}

impl App {
    /// The browser as it starts.
    pub fn new() -> (r: App)
        ensures
            r.center.wf(),
            r@ == initial_app_v(),
    {
        let r = App {
            should_quit: false,
            active_panel: Panel::Left,
            workspace: None,
            search: SearchState { active: false, query: String::new() },
            left: FileTreeState::new(),
            center: ViewerState::new(),
            right: GeneratorState::new(),
            status_message: None,
            left_width_pct: 25,
            debug: DebugPanel::new(),
            show_help: false,
        };
        assert(r@ =~= initial_app_v());
        r
    }

    /// The request to list the files of the browser's mode.
    fn scan_action(&self) -> (r: Action)
        ensures
            r@ == scan_of(self.left@),
    {
        let board = match self.left.selected_board_name() {
            Some(n) => Some(string_of(n)),
            None => None,
        };
        Action::ScanFiles { mode: self.left.current_mode(), board }
    }

    /// Whether a key is handled by the browser as a whole.
    fn is_global_key(&self, k: KeyPress) -> (r: bool)
        ensures
            r == is_global(self@, k),
    {
        match k.code {
            KeyCode::Char(c) => c == 'q' || (c == 'd' && k.ctrl) || c == '?' || (c == '/'
                && self.active_panel == Panel::Left) || c == 'g' || c == '[' || c == ']',
            KeyCode::Tab => true,
            KeyCode::BackTab => true,
            _ => false,
        }
    }

    /// A key while the file search is being typed.
    fn search_key(&mut self, k: KeyPress)
        ensures
            final(self)@ == search_key_v(old(self)@, k),
            final(self).center == old(self).center,
    {
        match k.code {
            KeyCode::Esc => {
                self.search.active = false;
                self.search.query = String::new();
                self.left.clear_filter();
            },
            KeyCode::Enter => {
                self.search.active = false;
            },
            KeyCode::Backspace => {
                let _c = self.search.query.pop();
                self.left.apply_filter(self.search.query.as_str());
            },
            KeyCode::Char(c) => {
                self.search.query.push(c);
                self.left.apply_filter(self.search.query.as_str());
            },
            _ => {},
        }
    }

    /// A key handled by the browser as a whole.
    fn global_key(&mut self, k: KeyPress)
        requires
            is_global(old(self)@, k),
        ensures
            final(self)@ == global_key_v(old(self)@, k),
            final(self).center == old(self).center,
    {
        match k.code {
            KeyCode::Char(c) => {
                if c == 'q' {
                    if self.active_panel == Panel::Debug {
                        self.debug.toggle();
                        self.active_panel = Panel::Center;
                    } else {
                        self.should_quit = true;
                    }
                } else if c == 'd' && k.ctrl {
                    self.debug.toggle();
                    if self.debug.visible {
                        self.active_panel = Panel::Debug;
                    } else if self.active_panel == Panel::Debug {
                        self.active_panel = Panel::Center;
                    }
                } else if c == '?' {
                    self.show_help = true;
                } else if c == '/' {
                    self.search.active = true;
                    self.search.query = String::new();
                } else if c == 'g' {
                    self.right.toggle_collapsed();
                } else if c == '[' {
                    self.left_width_pct = if self.left_width_pct >= 13 {
                        self.left_width_pct - 3
                    } else {
                        10
                    };
                } else {
                    self.left_width_pct = if self.left_width_pct >= 47 {
                        50
                    } else {
                        self.left_width_pct + 3
                    };
                }
            },
            KeyCode::Tab => {
                self.active_panel = self.active_panel.next(self.debug.visible);
            },
            _ => {
                self.active_panel = self.active_panel.prev(self.debug.visible);
            },
        }
    }

    /// A key in the debug log panel.
    fn debug_key(&mut self, k: KeyPress)
        ensures
            final(self)@ == debug_key_v(old(self)@, k),
            final(self).center == old(self).center,
    {
        match k.code {
            KeyCode::Down => self.debug.scroll_down(),
            KeyCode::Up => self.debug.scroll_up(),
            KeyCode::Char(c) => {
                if c == 'j' {
                    self.debug.scroll_down();
                } else if c == 'k' {
                    self.debug.scroll_up();
                } else if c == 'G' {
                    self.debug.follow = true;
                } else if c == 'g' {
                    self.debug.scroll = 0;
                    self.debug.follow = false;
                }
            },
            _ => {},
        }
    }

    /// A key in the file browser.
    #[verifier::spinoff_prover]
    #[verifier::rlimit(50)]
    fn left_key(&mut self, k: KeyPress) -> (r: Vec<Action>)
        ensures
            final(self)@ == left_key_v(old(self)@, k).0,
            actions_v(r@) == left_key_v(old(self)@, k).1,
            final(self).center == old(self).center,
    {
        let ws = self.workspace.is_some();
        let mut out: Vec<Action> = Vec::new();
        proof {
            lemma_actions_empty();
        }
        match k.code {
            KeyCode::Down => self.left.move_down(),
            KeyCode::Up => self.left.move_up(),
            KeyCode::Enter => {
                if self.left.picker_is_open() {
                    self.left.select_board();
                    self.right.sync_board(self.left.selected_board_name());
                    if ws {
                        let a = self.scan_action();
                        proof {
                            lemma_actions_push(out@, a);
                        }
                        out.push(a);
                    }
                } else {
                    match self.left.selected_entry() {
                        Some(e) => {
                            let a = Action::LoadFile(string_of(e.path.as_str()));
                            proof {
                                lemma_actions_push(out@, a);
                            }
                            out.push(a);
                        },
                        None => {},
                    }
                }
            },
            KeyCode::Char(c) => {
                if c == 'j' {
                    self.left.move_down();
                } else if c == 'k' {
                    self.left.move_up();
                } else if c == 'm' || c == '1' {
                    if c == 'm' {
                        self.left.cycle_mode();
                    } else {
                        self.left.set_mode(FileTreeMode::BoardFiles);
                    }
                    if self.left.current_mode() == FileTreeMode::BoardFiles && self.left.no_boards()
                        && ws {
                        proof {
                            lemma_actions_push(out@, Action::ScanBoards);
                        }
                        out.push(Action::ScanBoards);
                    }
                    if ws {
                        let a = self.scan_action();
                        proof {
                            lemma_actions_push(out@, a);
                        }
                        out.push(a);
                    }
                } else if c == '2' || c == '3' {
                    if c == '2' {
                        self.left.set_mode(FileTreeMode::UserOverlays);
                    } else {
                        self.left.set_mode(FileTreeMode::Bindings);
                    }
                    if ws {
                        let a = self.scan_action();
                        proof {
                            lemma_actions_push(out@, a);
                        }
                        out.push(a);
                    }
                } else if c == 'b' {
                    if self.left.current_mode() == FileTreeMode::BoardFiles {
                        self.left.toggle_board_picker();
                        if self.left.picker_is_open() && self.left.no_boards() && ws {
                            proof {
                                lemma_actions_push(out@, Action::ScanBoards);
                            }
                            out.push(Action::ScanBoards);
                        }
                    }
                }
            },
            _ => {},
        }
        proof {
            let e = Seq::<ActionV>::empty();
            assert(e + e =~= e);
            assert(forall|x: ActionV| #[trigger] (e + seq![x]) =~= seq![x]);
            assert(forall|x: ActionV| #[trigger] (seq![x] + e) =~= seq![x]);
        }
        out
    }

    /// Enter on the viewer: an include line asks for the included file,
    /// any other line is folded or unfolded.
    fn open_or_fold(&mut self) -> (r: Vec<Action>)
        requires
            old(self).center.wf(),
            !(raw_cursor_line(old(self).center@) matches Some(l) && include_cut(l)),
        ensures
            final(self).center.wf(),
            final(self)@ == open_or_fold_v(old(self)@).0,
            actions_v(r@) == open_or_fold_v(old(self)@).1,
    {
        let mut out: Vec<Action> = Vec::new();
        proof {
            lemma_actions_empty();
        }
        match self.center.selected_include() {
            Some(inc) => {
                if self.workspace.is_some() {
                    let a = Action::OpenInclude(inc);
                    proof {
                        lemma_actions_push(out@, a);
                    }
                    out.push(a);
                }
            },
            None => {
                self.center.toggle_expand();
            },
        }
        out
    }

    /// Copies the visual selection, when there is one, and says so.
    fn yank(&mut self) -> (r: Vec<Action>)
        requires
            old(self).center.wf(),
        ensures
            final(self).center.wf(),
            final(self)@ == yank_v(old(self)@).0,
            actions_v(r@) == yank_v(old(self)@).1,
    {
        let mut out: Vec<Action> = Vec::new();
        proof {
            lemma_actions_empty();
        }
        match self.center.yank_selection() {
            Some(text) => {
                let rows = crate::lines::split_lines(text.as_str());
                let n = rows.len();
                let d = decimal(n as u64);
                let mut msg = string_of("Yanked ");
                push_str(&mut msg, d.as_str());
                push_str(&mut msg, " lines to clipboard");
                proof {
                    assert(crate::lines::rows_v(rows@).len() == rows@.len());
                }
                self.status_message = Some(msg);
                let a = Action::Clipboard(text);
                proof {
                    lemma_actions_push(out@, a);
                }
                out.push(a);
            },
            None => {},
        }
        out
    }

    /// A key in the viewer.
    fn center_key(&mut self, k: KeyPress) -> (r: Vec<Action>)
        requires
            old(self).center.wf(),
            !old(self)@.center.search_active ==> !(k.code == KeyCode::Char('N')
                && old(self)@.center.matches.len() > 0 && old(self)@.center.match_idx
                > old(self)@.center.matches.len()),
            !old(self)@.center.search_active ==> !((k.code == KeyCode::Enter || k.code
                == KeyCode::Char(' ')) && (raw_cursor_line(old(self)@.center) matches Some(l)
                && include_cut(l))),
        ensures
            final(self).center.wf(),
            final(self)@ == center_key_v(old(self)@, k).0,
            actions_v(r@) == center_key_v(old(self)@, k).1,
    {
        proof {
            lemma_actions_empty();
        }
        if self.center.is_typing_search() {
            match k.code {
                KeyCode::Esc => self.center.search_cancel(),
                KeyCode::Enter => self.center.search_commit(),
                KeyCode::Backspace => self.center.search_pop(),
                KeyCode::Char(ch) => self.center.search_push(ch),
                _ => {},
            }
            return Vec::new();
        }
        match k.code {
            KeyCode::Down => self.center.scroll_down(),
            KeyCode::Up => self.center.scroll_up(),
            KeyCode::Left => self.center.collapse_current(),
            KeyCode::Right => self.center.expand_current(),
            KeyCode::Esc => {
                if self.center.in_visual_mode() {
                    self.center.toggle_visual();
                } else if self.center.has_search_query() {
                    self.center.search_cancel();
                }
            },
            KeyCode::Enter => {
                return self.open_or_fold();
            },
            KeyCode::Char(ch) => {
                if ch == 'j' {
                    self.center.scroll_down();
                } else if ch == 'k' {
                    self.center.scroll_up();
                } else if ch == 'v' {
                    self.center.toggle_mode();
                } else if ch == 'V' {
                    self.center.toggle_visual();
                } else if ch == 'y' {
                    return self.yank();
                } else if ch == '/' {
                    self.center.start_search();
                } else if ch == 'n' {
                    self.center.search_next();
                } else if ch == 'N' {
                    self.center.search_prev();
                } else if ch == ' ' {
                    return self.open_or_fold();
                } else if ch == 'h' {
                    self.center.collapse_current();
                } else if ch == 'l' {
                    self.center.expand_current();
                } else if ch == '}' {
                    self.center.next_tab();
                } else if ch == '{' {
                    self.center.prev_tab();
                } else if ch == 'w' && k.ctrl {
                    self.center.close_tab();
                } else if ch == 'a' {
                    match self.center.node_at_cursor() {
                        Some(p) => {
                            let (reference, labels) = p;
                            self.right.add_node_from_reference(reference, labels.as_slice());
                        },
                        None => {},
                    }
                }
            },
            _ => {},
        }
        Vec::new()
    }

    /// Whether a key press would fail: stepping back from a match when the
    /// matches shrank below the current one, or opening an include line
    /// whose delimited text is a lone quote.
    pub fn key_fails_now(&self, k: KeyPress) -> (r: bool)
        ensures
            r == key_fails(self@, k),
    {
        if self.node_list_fails(k) {
            return true;
        }
        let reaches = !(k.ctrl && k.code == KeyCode::Char('c')) && !self.show_help
            && !self.search.active && !self.is_global_key(k) && self.active_panel == Panel::Center
            && !self.center.is_typing_search();
        if !reaches {
            return false;
        }
        let (m, idx) = self.center.search_matches();
        let prev_bad = k.code == KeyCode::Char('N') && m.len() > 0 && idx > m.len();
        let open_bad = (k.code == KeyCode::Enter || k.code == KeyCode::Char(' '))
            && self.center.include_is_cut();
        prev_bad || open_bad
    }

    /// Whether a key press reaches the generator's node list and moves
    /// down or deletes there while its lines cannot be counted.
    fn node_list_fails(&self, k: KeyPress) -> (r: bool)
        ensures
            r == (reaches_node_list(self@, k) && (k.code == KeyCode::Down || k.code
                == KeyCode::Char('j') || k.code == KeyCode::Char('d')) && !lines_fit(self@.right)),
    {
        let typing = self.active_panel == Panel::Right && !self.right.collapsed
            && (self.right.input_mode.is_some() || self.naming_file_now());
        let reaches = !(k.ctrl && k.code == KeyCode::Char('c')) && !self.show_help
            && !self.search.active && !typing && !self.is_global_key(k) && self.active_panel
            == Panel::Right && !self.right.collapsed && !self.right.save_complete
            && self.right.step == GeneratorStep::EditNodes;
        reaches && (k.code == KeyCode::Down || k.code == KeyCode::Char('j') || k.code
            == KeyCode::Char('d')) && !self.right.lines_fit_now()
    }

    /// Whether a file name is being typed in the save step, or the
    /// overwriting of an existing file is being asked.
    fn naming_file_now(&self) -> (r: bool)
        ensures
            r == naming_file(self@.right),
    {
        !self.right.save_complete && self.right.step == GeneratorStep::SaveFile && (
        self.right.save_input_active || self.right.confirm_overwrite)
    }

    /// A key while a file name is typed in the save step, or while the
    /// overwriting of an existing file is asked.
    fn save_name_key(&mut self, k: KeyPress) -> (r: Vec<Action>)
        requires
            old(self).right.input_mode is None,
        ensures
            final(self)@ == save_name_key_v(old(self)@, k).0,
            actions_v(r@) == save_name_key_v(old(self)@, k).1,
            final(self).center == old(self).center,
    {
        proof {
            lemma_actions_empty();
        }
        if self.right.confirm_overwrite {
            match k.code {
                KeyCode::Enter => self.right.accept_overwrite(),
                KeyCode::Esc => self.right.cancel_overwrite(),
                _ => {},
            }
            return Vec::new();
        }
        match k.code {
            KeyCode::Char(c) => self.right.save_push_char(c),
            KeyCode::Backspace => self.right.save_pop_char(),
            KeyCode::Esc => self.right.save_cancel_input(),
            KeyCode::Enter => {
                match self.right.save_enter_target() {
                    Some(p) => {
                        return single_action(Action::CheckSaveEntry(p));
                    },
                    None => {},
                }
            },
            _ => {},
        }
        Vec::new()
    }

    /// A key while text is typed in the generator.
    fn gen_input_key(&mut self, k: KeyPress) -> (r: Vec<Action>)
        ensures
            final(self)@ == gen_input_key_v(old(self)@, k).0,
            actions_v(r@) == gen_input_key_v(old(self)@, k).1,
            final(self).center == old(self).center,
    {
        proof {
            lemma_actions_empty();
        }
        if self.right.input_mode.is_none() {
            return self.save_name_key(k);
        }
        match k.code {
            KeyCode::Char(c) => self.right.push_char(c),
            KeyCode::Backspace => self.right.pop_char(),
            KeyCode::Esc => self.right.cancel_input(),
            KeyCode::Enter => {
                if self.right.input_mode == Some(InputMode::FileName) {
                    let target = join_path(self.right.save_dir.as_str(), self.right.input_buffer.as_str());
                    let a = Action::CheckSaveTarget(target);
                    let mut out: Vec<Action> = Vec::new();
                    proof {
                        lemma_actions_push(out@, a);
                    }
                    out.push(a);
                    return out;
                }
                self.right.confirm_input_with(false);
            },
            _ => {},
        }
        Vec::new()
    }

    /// A key in the generator when no text is typed there.
    #[verifier::spinoff_prover]
    #[verifier::rlimit(50)]
    fn right_key(&mut self, k: KeyPress) -> (r: Vec<Action>)
        requires
            old(self).right.input_mode is None || old(self).right.collapsed,
            (!old(self).right.collapsed && !old(self).right.save_complete && old(self).right.step
                == GeneratorStep::EditNodes && (k.code == KeyCode::Down || k.code
                == KeyCode::Char('j') || k.code == KeyCode::Char('d'))) ==> lines_fit(
                old(self)@.right,
            ),
        ensures
            final(self)@ == right_key_v(old(self)@, k).0,
            actions_v(r@) == right_key_v(old(self)@, k).1,
            final(self).center == old(self).center,
    {
        proof {
            lemma_actions_empty();
        }
        if self.right.collapsed {
            return Vec::new();
        }
        if self.right.save_complete {
            if k.code == KeyCode::Char('y') {
                self.right.continue_editing();
            } else if k.code == KeyCode::Char('n') {
                self.right.reset_overlay();
            }
            return Vec::new();
        }
        match self.right.step {
            GeneratorStep::SelectBoard => {
                if k.code == KeyCode::Right || k.code == KeyCode::Enter {
                    self.right.next_step();
                }
            },
            GeneratorStep::EditNodes => {
                match k.code {
                    KeyCode::Down => self.right.move_down(),
                    KeyCode::Up => self.right.move_up(),
                    KeyCode::Enter => self.right.toggle_expand(),
                    KeyCode::Right => {
                        let dir = match &self.workspace {
                            Some(ws) => string_of(ws.info.workspace_root.as_str()),
                            None => string_of(self.right.save_dir.as_str()),
                        };
                        self.right.next_step();
                        let a = Action::BrowseSaveDir(dir);
                        let mut out: Vec<Action> = Vec::new();
                        proof {
                            lemma_actions_push(out@, a);
                        }
                        out.push(a);
                        return out;
                    },
                    KeyCode::Left => self.right.prev_step(),
                    KeyCode::Esc => self.right.prev_step(),
                    KeyCode::Char(c) => {
                        if c == 'j' {
                            self.right.move_down();
                        } else if c == 'k' {
                            self.right.move_up();
                        } else if c == ' ' {
                            self.right.toggle_expand();
                        } else if c == 'n' {
                            self.right.start_new_node();
                        } else if c == 'c' {
                            self.right.start_child_node();
                        } else if c == 'p' {
                            self.right.start_add_property();
                        } else if c == 'e' {
                            self.right.start_edit_property();
                        } else if c == 'd' {
                            self.right.delete_selected_node();
                        } else if c == 's' {
                            match &self.right.save_path {
                                Some(p) => {
                                    return single_action(Action::SaveOverlay(string_of(p.as_str())));
                                },
                                None => {},
                            }
                        }
                    },
                    _ => {},
                }
            },
            GeneratorStep::SaveFile => {
                match k.code {
                    KeyCode::Enter => {
                        match &self.right.save_path {
                            Some(p) => {
                                return single_action(Action::SaveOverlay(string_of(p.as_str())));
                            },
                            None => {},
                        }
                        match self.right.save_enter_target() {
                            Some(p) => {
                                return single_action(Action::CheckSaveEntry(p));
                            },
                            None => {},
                        }
                    },
                    KeyCode::Backspace => {
                        match self.right.save_back() {
                            Some(d) => {
                                return single_action(Action::BrowseSaveDir(d));
                            },
                            None => {},
                        }
                    },
                    KeyCode::Down => self.right.save_move_down(),
                    KeyCode::Up => self.right.save_move_up(),
                    KeyCode::Left => self.right.prev_step(),
                    KeyCode::Esc => self.right.prev_step(),
                    KeyCode::Char(c) => {
                        if c == 'j' {
                            self.right.save_move_down();
                        } else if c == 'k' {
                            self.right.save_move_up();
                        } else if c == 'n' {
                            self.right.save_start_new_file();
                        }
                    },
                    _ => {},
                }
            },
        }
        Vec::new()
    }

    /// Handles a key press.
    pub fn handle_key(&mut self, k: KeyPress) -> (r: Vec<Action>)
        requires
            old(self).center.wf(),
            !key_fails(old(self)@, k),
        ensures
            final(self).center.wf(),
            final(self)@ == key_step(old(self)@, k).0,
            actions_v(r@) == key_step(old(self)@, k).1,
    {
        proof {
            lemma_actions_empty();
        }
        if k.ctrl && k.code == KeyCode::Char('c') {
            self.should_quit = true;
            return Vec::new();
        }
        if self.show_help {
            self.show_help = false;
            return Vec::new();
        }
        if self.search.active {
            self.search_key(k);
            return Vec::new();
        }
        if self.active_panel == Panel::Right && !self.right.collapsed
            && (self.right.input_mode.is_some() || self.naming_file_now()) {
            return self.gen_input_key(k);
        }
        if self.is_global_key(k) {
            self.global_key(k);
            return Vec::new();
        }
        match self.active_panel {
            Panel::Left => {
                if !self.right.collapsed && self.right.resolved_board_tree.is_some() {
                    Vec::new()
                } else {
                    self.left_key(k)
                }
            },
            Panel::Center => self.center_key(k),
            Panel::Right => self.right_key(k),
            Panel::Debug => {
                self.debug_key(k);
                Vec::new()
            },
        }
    }

    /// Whether a message can be handled (see `msg_ok`).
    pub fn message_ok(&self, m: &Message) -> (r: bool)
        ensures
            r == msg_ok(self@, *m),
    {
        match m {
            Message::Key(k) => !self.key_fails_now(*k),
            Message::FileParsed(_, t) => crate::serializer::tree_fits(t),
            _ => true,
        }
    }

    /// Says that an include could not be found.
    pub fn report_missing_include(&mut self, name: &str)
        ensures
            final(self)@ == (AppV { status: Some("Include not found: "@ + name@), ..old(self)@ }),
            final(self).center == old(self).center,
    {
        let mut msg = string_of("Include not found: ");
        push_str(&mut msg, name);
        self.status_message = Some(msg);
    }

    /// Handles what background work reported, or a key press.
    #[verifier::spinoff_prover]
    #[verifier::rlimit(60)]
    pub fn update(&mut self, m: Message) -> (r: Vec<Action>)
        requires
            old(self).center.wf(),
            msg_ok(old(self)@, m),
        ensures
            final(self).center.wf(),
            final(self)@ == msg_step(old(self)@, m).0,
            actions_v(r@) == msg_step(old(self)@, m).1,
    {
        proof {
            lemma_actions_empty();
        }
        let ghost a = self@;
        match m {
            Message::Key(k) => self.handle_key(k),
            Message::Tick => Vec::new(),
            Message::Resize(_, _) => Vec::new(),
            Message::WorkspaceReady(ws) => {
                let mut msg = string_of("Workspace: ");
                push_str(&mut msg, ws.info.workspace_root.as_str());
                push_str(&mut msg, " | Zephyr: ");
                push_str(&mut msg, ws.info.zephyr_dir.as_str());
                self.status_message = Some(msg);
                let scan = self.scan_action();
                self.workspace = Some(ws);
                let mut out: Vec<Action> = Vec::new();
                out.push(scan);
                out.push(Action::FetchHal);
                proof {
                    assert(actions_v(out@) =~= seq![scan_of(a.left), ActionV::FetchHal]);
                }
                out
            },
            Message::BoardsLoaded(boards) => {
                self.left.set_boards(boards);
                Vec::new()
            },
            Message::HalFetched(entries) => {
                let n = dts_entries(&entries);
                match &mut self.workspace {
                    Some(w) => {
                        w.hal_entries = entries;
                    },
                    None => {},
                }
                let d = decimal(n as u64);
                let mut msg = string_of("HAL modules ready (");
                push_str(&mut msg, d.as_str());
                push_str(&mut msg, " with DTS)");
                self.status_message = Some(msg);
                Vec::new()
            },
            Message::FileTreeLoaded(mode, entries) => {
                if self.left.current_mode() == mode {
                    self.left.set_entries(entries);
                    if self.search.active {
                        self.left.apply_filter(self.search.query.as_str());
                    }
                }
                Vec::new()
            },
            Message::FileParsed(path, tree) => {
                self.center.set_parsed_dts(path, tree);
                Vec::new()
            },
            Message::BindingParsed(path, binding) => {
                self.center.set_parsed_binding(path, binding);
                Vec::new()
            },
            Message::FileContent(path, content) => {
                self.center.set_raw_content(path, content);
                Vec::new()
            },
            Message::StatusUpdate(text) => {
                self.status_message = Some(text);
                Vec::new()
            },
            Message::Error(e) => {
                let mut msg = string_of("Error: ");
                push_str(&mut msg, e.as_str());
                self.status_message = Some(msg);
                let mut out: Vec<Action> = Vec::new();
                let act = Action::LogError(e);
                proof {
                    lemma_actions_push(out@, act);
                }
                out.push(act);
                out
            },
            Message::SaveTargetChecked(exists) => {
                self.right.confirm_input_with(exists);
                Vec::new()
            },
            Message::SaveDirListed(dir, entries) => {
                self.right.init_save_browser(dir, entries);
                Vec::new()
            },
            Message::SaveEntryChecked(exists, is_dir) => {
                match self.right.save_enter_with(exists, is_dir) {
                    Some(d) => single_action(Action::BrowseSaveDir(d)),
                    None => Vec::new(),
                }
            },
            Message::OverlaySaved => {
                self.right.save_complete = true;
                Vec::new()
            },
        }
    }
}

/// The number of entries that have a DTS directory.
fn dts_entries(entries: &Vec<HalDtsEntry>) -> (n: usize)
    ensures
        n == dts_count(entries@),
{
    let mut n: usize = 0;
    let mut i: usize = 0;
    while i < entries.len()
        invariant
            i <= entries.len(),
            n <= i,
            n == dts_count(entries@.take(i as int)),
        decreases entries.len() - i,
    {
        assert(entries@.take(i + 1).drop_last() =~= entries@.take(i as int));
        if entries[i].dts_path.is_some() {
            n = n + 1;
        }
        i = i + 1;
    }
    assert(entries@.take(i as int) =~= entries@);
    n
}

} // verus!

//! The file browser: a list of files (or of boards, while the board picker
//! is open), filtered by a fuzzy query, with a cursor.
use vstd::prelude::*;
use fuzzy_matcher::FuzzyMatcher;
use fuzzy_matcher::skim::SkimMatcherV2;
use crate::text::string_of;
use crate::workspace::FileEntry;

verus! {

// -------------------------------------------------------------------------
// Fuzzy matching
// -------------------------------------------------------------------------

/// `c` with an ASCII capital made small, as `char::to_ascii_lowercase` does.
pub open spec fn ascii_lower(c: char) -> char {
    if 'A' <= c && c <= 'Z' {
        ((c as u32) + 32) as char
    } else {
        c
    }
}

/// Whether `p` holds an ASCII capital letter.
pub open spec fn has_ascii_upper(p: Seq<char>) -> bool {
    exists|i: int| 0 <= i < p.len() && 'A' <= #[trigger] p[i] && p[i] <= 'Z'
}

/// Whether the characters of `p` occur in `c` in order, compared exactly
/// when `case_sensitive` holds and without regard to ASCII case otherwise.
pub open spec fn in_order(c: Seq<char>, p: Seq<char>, case_sensitive: bool) -> bool
    decreases c.len(),
{
    if p.len() == 0 {
        true
    } else if c.len() == 0 {
        false
    } else if (if case_sensitive {
        c[0] == p[0]
    } else {
        ascii_lower(c[0]) == ascii_lower(p[0])
    }) {
        in_order(c.drop_first(), p.drop_first(), case_sensitive)
    } else {
        in_order(c.drop_first(), p, case_sensitive)
    }
}

/// Whether the skim matcher finds `pattern` in `choice`: the pattern is
/// empty, or its characters occur in order in the choice, compared without
/// regard to ASCII case unless the pattern holds an ASCII capital.
pub open spec fn fuzzy_found(choice: Seq<char>, pattern: Seq<char>) -> bool {
    in_order(choice, pattern, has_ascii_upper(pattern))
}

/// The score the skim matcher gives `choice` for `pattern`.
pub uninterp spec fn skim_score(choice: Seq<char>, pattern: Seq<char>) -> Option<i64>;

/// Calls `fuzzy_match` of a default `SkimMatcherV2` (smart case, no element
/// limit).  Its source (`SkimMatcherV2::fuzzy` and `cheap_matches`) returns
/// a score exactly when the pattern is empty or its characters occur in
/// order in the choice, compared without regard to ASCII case unless the
/// pattern holds an ASCII capital; the score itself is given a name only.
#[verifier::external_body]
fn skim_match(choice: &str, pattern: &str) -> (r: Option<i64>)
    ensures
        r == skim_score(choice@, pattern@),
        r is Some <==> fuzzy_found(choice@, pattern@),
{
    SkimMatcherV2::default().fuzzy_match(choice, pattern)
}

/// The indices of the names that the query is found in, in order.
pub open spec fn matching(names: Seq<Seq<char>>, query: Seq<char>) -> Seq<usize>
    decreases names.len(),
{
    if names.len() == 0 {
        Seq::empty()
    } else if fuzzy_found(names.last(), query) {
        matching(names.drop_last(), query).push((names.len() - 1) as usize)
    } else {
        matching(names.drop_last(), query)
    }
}

// -------------------------------------------------------------------------
// Modes
// -------------------------------------------------------------------------

/// What the browser lists.
#[derive(Debug, Clone, Copy, PartialEq, Eq, Structural)]
pub enum FileTreeMode {
    BoardFiles,
    UserOverlays,
    Bindings,
}

pub open spec fn mode_after(m: FileTreeMode) -> FileTreeMode {
    match m {
        FileTreeMode::BoardFiles => FileTreeMode::UserOverlays,
        FileTreeMode::UserOverlays => FileTreeMode::Bindings,
        FileTreeMode::Bindings => FileTreeMode::BoardFiles,
    }
}

pub open spec fn mode_label(m: FileTreeMode) -> Seq<char> {
    match m {
        FileTreeMode::BoardFiles => "[1] Board DTS"@,
        FileTreeMode::UserOverlays => "[2] User Overlays"@,
        FileTreeMode::Bindings => "[3] Bindings"@,
    }
}

impl FileTreeMode {
    /// The title of the mode.
    pub fn label(self) -> (r: &'static str)
        ensures
            r@ == mode_label(self),
    {
        match self {
            FileTreeMode::BoardFiles => "[1] Board DTS",
            FileTreeMode::UserOverlays => "[2] User Overlays",
            FileTreeMode::Bindings => "[3] Bindings",
        }
    }

    /// The next mode, round the three.
    pub fn next(self) -> (r: FileTreeMode)
        ensures
            r == mode_after(self),
    {
        match self {
            FileTreeMode::BoardFiles => FileTreeMode::UserOverlays,
            FileTreeMode::UserOverlays => FileTreeMode::Bindings,
            FileTreeMode::Bindings => FileTreeMode::BoardFiles,
        }
    }
}

// -------------------------------------------------------------------------
// State
// -------------------------------------------------------------------------

/// The state of the file browser.
pub struct FileTreeState {
    pub mode: FileTreeMode,
    pub boards: Vec<String>,
    pub boards_loaded: bool,
    pub selected_board: Option<usize>,
    pub board_picker_open: bool,
    entries: Vec<FileEntry>,
    /// Indices into `entries` that pass the filter, when one is applied.
    filtered: Option<Vec<usize>>,
    /// Indices into `boards` that pass the filter, when one is applied.
    filtered_boards: Option<Vec<usize>>,
    pub selected: usize,
    pub scroll_offset: usize,
}

/// The mathematical form of the browser's state.
pub struct TreeStateV {
    pub mode: FileTreeMode,
    pub boards: Seq<Seq<char>>,
    pub boards_loaded: bool,
    pub selected_board: Option<usize>,
    pub board_picker_open: bool,
    pub entries: Seq<FileEntry>,
    pub filtered: Option<Seq<usize>>,
    pub filtered_boards: Option<Seq<usize>>,
    pub selected: usize,
    pub scroll_offset: usize,
}

impl View for FileTreeState {
    type V = TreeStateV;

    closed spec fn view(&self) -> TreeStateV {
        TreeStateV {
            mode: self.mode,
            boards: self.boards@.map_values(|s: String| s@),
            boards_loaded: self.boards_loaded,
            selected_board: self.selected_board,
            board_picker_open: self.board_picker_open,
            entries: self.entries@,
            filtered: match self.filtered {
                Some(v) => Some(v@),
                None => None,
            },
            filtered_boards: match self.filtered_boards {
                Some(v) => Some(v@),
                None => None,
            },
            selected: self.selected,
            scroll_offset: self.scroll_offset,
        }
    }
}

/// The name of the chosen board, when it is one of the boards.
pub open spec fn board_name_of(s: TreeStateV) -> Option<Seq<char>> {
    match s.selected_board {
        Some(i) => if i < s.boards.len() {
            Some(s.boards[i as int])
        } else {
            None
        },
        None => None,
    }
}

/// The number of lines the browser shows.
pub open spec fn visible_count_v(s: TreeStateV) -> nat {
    if s.board_picker_open {
        match s.filtered_boards {
            Some(ix) => ix.len(),
            None => s.boards.len(),
        }
    } else {
        match s.filtered {
            Some(ix) => ix.len(),
            None => s.entries.len(),
        }
    }
}

/// The board chosen from the picker: through the filter when one is
/// applied, else the board under the cursor (the last one when the cursor
/// is past the end).
pub open spec fn picked_board(s: TreeStateV) -> Option<usize> {
    match s.filtered_boards {
        Some(ix) => if s.selected < ix.len() {
            Some(ix[s.selected as int])
        } else {
            None
        },
        None => Some(
            if s.selected < s.boards.len() - 1 {
                s.selected
            } else {
                (s.boards.len() - 1) as usize
            },
        ),
    }
}

/// The index of the entry under the cursor, when the picker is closed.
pub open spec fn entry_index(s: TreeStateV) -> Option<int> {
    if s.board_picker_open {
        None
    } else {
        let i: Option<int> = match s.filtered {
            Some(ix) => if s.selected < ix.len() {
                Some(ix[s.selected as int] as int)
            } else {
                None
            },
            None => Some(s.selected as int),
        };
        match i {
            Some(k) => if 0 <= k < s.entries.len() {
                Some(k)
            } else {
                None
            },
            None => None,
        }
    }
}

/// The state after the filter `query` is applied: an empty query drops the
/// filters; otherwise the boards (while the picker is open) or the entries
/// whose names the query is found in are kept.  The cursor goes to the top.
pub open spec fn filtered_v(s: TreeStateV, query: Seq<char>) -> TreeStateV {
    if query.len() == 0 {
        TreeStateV { filtered: None, filtered_boards: None, selected: 0, ..s }
    } else if s.board_picker_open {
        TreeStateV { filtered_boards: Some(matching(s.boards, query)), selected: 0, ..s }
    } else {
        TreeStateV {
            filtered: Some(matching(s.entries.map_values(|e: FileEntry| e.name@), query)),
            selected: 0,
            ..s
        }
    }
}

/// The names of the entries that a query would be matched against.
pub open spec fn entry_names(v: Seq<FileEntry>) -> Seq<Seq<char>> {
    v.map_values(|e: FileEntry| e.name@)
}

/// The indices (of names `0..k`) that the query is found in.
pub fn matching_indices(names: &Vec<&str>, query: &str) -> (r: Vec<usize>)
    ensures
        r@ == matching(names@.map_values(|x: &str| x@), query@),
{
    let ghost all = names@.map_values(|x: &str| x@);
    let mut r: Vec<usize> = Vec::new();
    let mut k: usize = 0;
    while k < names.len()
        invariant
            k <= names.len(),
            all == names@.map_values(|x: &str| x@),
            r@ == matching(all.take(k as int), query@),
        decreases names.len() - k,
    {
        proof {
            assert(all.take(k + 1).drop_last() =~= all.take(k as int));
            assert(all.take(k + 1).last() == names@[k as int]@);
            assert(all.take(k + 1).len() == k + 1);
        }
        let found = skim_match(names[k], query);
        if found.is_some() {
            r.push(k);
        }
        k = k + 1;
    }
    assert(all.take(k as int) =~= all);
    r
}

/// The browser after `set_entries`.
pub open spec fn set_entries_v(v: TreeStateV, entries: Seq<FileEntry>) -> TreeStateV {
    (TreeStateV {
                entries: entries,
                filtered: None,
                selected: 0,
                scroll_offset: 0,
                ..v
            })
}

/// The browser after `cycle_mode`.
pub open spec fn cycle_mode_v(v: TreeStateV) -> TreeStateV {
    (TreeStateV {
                mode: mode_after(v.mode),
                board_picker_open: false,
                ..v
            })
}

/// The browser after `set_mode`.
pub open spec fn set_mode_v(v: TreeStateV, mode: FileTreeMode) -> TreeStateV {
    if v.mode == mode {
        v
    } else {
        (TreeStateV {
                mode: mode,
                board_picker_open: false,
                entries: Seq::empty(),
                filtered: None,
                selected: 0,
                scroll_offset: 0,
                ..v
            })
    }
}

/// The browser after `toggle_board_picker`.
pub open spec fn toggle_board_picker_v(v: TreeStateV) -> TreeStateV {
    (TreeStateV {
                board_picker_open: !v.board_picker_open,
                ..v
            })
}

/// The browser after `select_board`.
pub open spec fn select_board_v(v: TreeStateV) -> TreeStateV {
    if v.boards.len() == 0 {
        v
    } else {
        (TreeStateV {
                selected_board: picked_board(v),
                board_picker_open: false,
                filtered_boards: None,
                selected: 0,
                ..v
            })
    }
}

/// The browser after `move_down`.
pub open spec fn move_down_v(v: TreeStateV) -> TreeStateV {
    (TreeStateV {
                selected: if v.selected + 1 < visible_count_v(v) {
                    (v.selected + 1) as usize
                } else {
                    v.selected
                },
                ..v
            })
}

/// The browser after `move_up`.
pub open spec fn move_up_v(v: TreeStateV) -> TreeStateV {
    (TreeStateV {
                selected: if v.selected > 0 {
                    (v.selected - 1) as usize
                } else {
                    0
                },
                ..v
            })
}

/// The browser after `clear_filter`.
pub open spec fn clear_filter_v(v: TreeStateV) -> TreeStateV {
    (TreeStateV { filtered: None, filtered_boards: None, ..v })
}

impl FileTreeState {
    /// An empty browser listing user overlays.
    pub fn new() -> (s: FileTreeState)
        ensures
            s@ == (TreeStateV {
                mode: FileTreeMode::UserOverlays,
                boards: Seq::empty(),
                boards_loaded: false,
                selected_board: None,
                board_picker_open: false,
                entries: Seq::empty(),
                filtered: None,
                filtered_boards: None,
                selected: 0,
                scroll_offset: 0,
            }),
    {
        let s = FileTreeState {
            mode: FileTreeMode::UserOverlays,
            boards: Vec::new(),
            boards_loaded: false,
            selected_board: None,
            board_picker_open: false,
            entries: Vec::new(),
            filtered: None,
            filtered_boards: None,
            selected: 0,
            scroll_offset: 0,
        };
        assert(s@.boards =~= Seq::<Seq<char>>::empty());
        s
    }

    /// The files listed, unfiltered.
    pub fn entries(&self) -> (r: &Vec<FileEntry>)
        ensures
            r@ == self@.entries,
    {
        &self.entries
    }

    /// The indices of the listed files that pass the filter, when one is
    /// applied.
    pub fn filtered(&self) -> (r: &Option<Vec<usize>>)
        ensures
            match *r {
                Some(v) => self@.filtered == Some(v@),
                None => self@.filtered is None,
            },
    {
        &self.filtered
    }

    /// The indices of the boards that pass the filter, when one is applied.
    pub fn filtered_boards(&self) -> (r: &Option<Vec<usize>>)
        ensures
            match *r {
                Some(v) => self@.filtered_boards == Some(v@),
                None => self@.filtered_boards is None,
            },
    {
        &self.filtered_boards
    }

    /// Lists new files; the filter is dropped and the cursor goes to the top.
    pub fn set_entries(&mut self, entries: Vec<FileEntry>)
        ensures
            final(self)@ == set_entries_v(old(self)@, entries@),
    {
        self.entries = entries;
        self.filtered = None;
        self.selected = 0;
        self.scroll_offset = 0;
    }

    /// Moves on to the next mode and closes the board picker.
    pub fn cycle_mode(&mut self)
        ensures
            final(self)@ == cycle_mode_v(old(self)@),
    {
        self.mode = self.mode.next();
        self.board_picker_open = false;
    }

    /// Switches to `mode`; a different mode starts with an empty list.
    pub fn set_mode(&mut self, mode: FileTreeMode)
        ensures
            final(self)@ == set_mode_v(old(self)@, mode),
    {
        if self.mode != mode {
            self.mode = mode;
            self.board_picker_open = false;
            self.entries = Vec::new();
            self.filtered = None;
            self.selected = 0;
            self.scroll_offset = 0;
        }
    }

    /// Opens or closes the board picker.
    pub fn toggle_board_picker(&mut self)
        ensures
            final(self)@ == toggle_board_picker_v(old(self)@),
    {
        self.board_picker_open = !self.board_picker_open;
    }

    /// Chooses the board under the cursor of the picker and closes it.
    pub fn select_board(&mut self)
        ensures
            final(self)@ == select_board_v(old(self)@),
    {
        if self.boards.len() > 0 {
            let real_idx = match &self.filtered_boards {
                Some(indices) => {
                    if self.selected < indices.len() {
                        Some(indices[self.selected])
                    } else {
                        None
                    }
                },
                None => Some(
                    if self.selected < self.boards.len() - 1 {
                        self.selected
                    } else {
                        self.boards.len() - 1
                    },
                ),
            };
            self.selected_board = real_idx;
            self.board_picker_open = false;
            self.filtered_boards = None;
            self.selected = 0;
        }
    }

    /// The name of the chosen board.
    pub fn selected_board_name(&self) -> (r: Option<&str>)
        ensures
            match board_name_of(self@) {
                Some(n) => r matches Some(x) && x@ == n,
                None => r is None,
            },
    {
        match self.selected_board {
            Some(i) => {
                if i < self.boards.len() {
                    Some(self.boards[i].as_str())
                } else {
                    None
                }
            },
            None => None,
        }
    }

    /// The number of lines shown.
    pub fn visible_count(&self) -> (n: usize)
        ensures
            n == visible_count_v(self@),
    {
        if self.board_picker_open {
            match &self.filtered_boards {
                Some(indices) => indices.len(),
                None => self.boards.len(),
            }
        } else {
            match &self.filtered {
                Some(indices) => indices.len(),
                None => self.entries.len(),
            }
        }
    }

    /// Moves the cursor down when a line follows.
    pub fn move_down(&mut self)
        ensures
            final(self)@ == move_down_v(old(self)@),
    {
        let count = self.visible_count();
        if count > 0 && self.selected < count - 1 {
            self.selected = self.selected + 1;
        }
    }

    /// Moves the cursor up when a line precedes.
    pub fn move_up(&mut self)
        ensures
            final(self)@ == move_up_v(old(self)@),
    {
        if self.selected > 0 {
            self.selected = self.selected - 1;
        }
    }

    /// The file under the cursor; none while the board picker is open.
    pub fn selected_entry(&self) -> (r: Option<&FileEntry>)
        ensures
            match entry_index(self@) {
                Some(k) => r == Some(&self@.entries[k]),
                None => r is None,
            },
    {
        if self.board_picker_open {
            return None;
        }
        let idx = match &self.filtered {
            Some(indices) => {
                if self.selected < indices.len() {
                    indices[self.selected]
                } else {
                    return None;
                }
            },
            None => self.selected,
        };
        if idx < self.entries.len() {
            Some(&self.entries[idx])
        } else {
            None
        }
    }

    /// Applies a fuzzy filter to the boards (while the picker is open) or to
    /// the files; an empty query drops the filters.  The cursor goes to the
    /// top.
    pub fn apply_filter(&mut self, query: &str)
        ensures
            final(self)@ == filtered_v(old(self)@, query@),
    {
        if query.is_empty() {
            self.filtered = None;
            self.filtered_boards = None;
            self.selected = 0;
            return;
        }
        if self.board_picker_open {
            let mut names: Vec<&str> = Vec::new();
            let mut k: usize = 0;
            while k < self.boards.len()
                invariant
                    k <= self.boards.len(),
                    names@.map_values(|x: &str| x@) =~= self@.boards.take(k as int),
                decreases self.boards.len() - k,
            {
                let ghost before = names@;
                names.push(self.boards[k].as_str());
                assert(names@.map_values(|x: &str| x@) =~= before.map_values(|x: &str| x@).push(
                    self.boards@[k as int]@,
                ));
                assert(self@.boards.take(k + 1) =~= self@.boards.take(k as int).push(
                    self.boards@[k as int]@,
                ));
                k = k + 1;
            }
            assert(self@.boards.take(k as int) =~= self@.boards);
            let indices = matching_indices(&names, query);
            self.filtered_boards = Some(indices);
        } else {
            let mut names: Vec<&str> = Vec::new();
            let mut k: usize = 0;
            while k < self.entries.len()
                invariant
                    k <= self.entries.len(),
                    names@.map_values(|x: &str| x@) =~= entry_names(self.entries@.take(k as int)),
                decreases self.entries.len() - k,
            {
                let ghost before = names@;
                names.push(self.entries[k].name.as_str());
                assert(names@.map_values(|x: &str| x@) =~= before.map_values(|x: &str| x@).push(
                    self.entries@[k as int].name@,
                ));
                assert(entry_names(self.entries@.take(k + 1)) =~= entry_names(
                    self.entries@.take(k as int),
                ).push(self.entries@[k as int].name@));
                k = k + 1;
            }
            assert(self.entries@.take(k as int) =~= self.entries@);
            let indices = matching_indices(&names, query);
            self.filtered = Some(indices);
        }
        self.selected = 0;
    }

    /// Records the boards of the workspace, once they were listed.
    pub fn set_boards(&mut self, boards: Vec<String>)
        ensures
            final(self)@ == (TreeStateV {
                boards: boards@.map_values(|s: String| s@),
                boards_loaded: true,
                ..old(self)@
            }),
    {
        self.boards_loaded = true;
        self.boards = boards;
    }

    /// The mode listed.
    pub fn current_mode(&self) -> (r: FileTreeMode)
        ensures
            r == self@.mode,
    {
        self.mode
    }

    /// Whether the board picker is open.
    pub fn picker_is_open(&self) -> (r: bool)
        ensures
            r == self@.board_picker_open,
    {
        self.board_picker_open
    }

    /// Whether no board is known yet.
    pub fn no_boards(&self) -> (r: bool)
        ensures
            r == (self@.boards.len() == 0),
    {
        self.boards.len() == 0
    }

    /// Drops both filters.
    pub fn clear_filter(&mut self)
        ensures
            final(self)@ == clear_filter_v(old(self)@),
    {
        self.filtered = None;
        self.filtered_boards = None;
    }
}

/// Every index the filter keeps is that of a name the query is found in,
/// and every such name is kept; the indices rise.
pub proof fn law_filter_keeps_exactly_matches(names: Seq<Seq<char>>, query: Seq<char>)
    requires
        names.len() <= usize::MAX,
    ensures
        forall|j: int| 0 <= j < matching(names, query).len() ==> {
            let i = #[trigger] matching(names, query)[j];
            i < names.len() && fuzzy_found(names[i as int], query)
        },
        forall|i: int|
            0 <= i < names.len() && fuzzy_found(#[trigger] names[i], query) ==> matching(
                names,
                query,
            ).contains(i as usize),
        forall|a: int, b: int|
            0 <= a < b < matching(names, query).len() ==> matching(names, query)[a] < matching(
                names,
                query,
            )[b],
    decreases names.len(),
{
    if names.len() > 0 {
        let prev = names.drop_last();
        law_filter_keeps_exactly_matches(prev, query);
        let m0 = matching(prev, query);
        assert forall|j: int| 0 <= j < m0.len() implies #[trigger] names[m0[j] as int]
            == prev[m0[j] as int] by {}
        assert forall|i: int|
            0 <= i < names.len() && fuzzy_found(#[trigger] names[i], query) implies matching(
            names,
            query,
        ).contains(i as usize) by {
            if i < names.len() - 1 {
                assert(prev[i] == names[i]);
                assert(m0.contains(i as usize));
                let j = choose|j: int| 0 <= j < m0.len() && m0[j] == i as usize;
                if fuzzy_found(names.last(), query) {
                    assert(matching(names, query)[j] == i as usize);
                }
            } else {
                assert(matching(names, query).last() == i as usize);
            }
        }
    }
}

} // verus!

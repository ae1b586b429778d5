//! The workspace as the browser sees it: kinds of files, hidden names, the
//! includes a file names, and the state resolved for a workspace.
use vstd::prelude::*;
use crate::lines::{text_lines, trim, rows_v, split_lines, trimmed, string_from};
use crate::text::{to_chars, string_of};
use crate::west::{HalDtsEntry, WorkspaceInfo, path_join, join_path};
use crate::text::str_eq;

verus! {

/// The kinds of files the browser lists.
#[derive(Debug, Clone, Copy, PartialEq, Eq, Structural)]
pub enum FileKind {
    Dts,
    Dtsi,
    Overlay,
    Binding,
}

/// `c` with an ASCII capital letter made small.
pub open spec fn lower(c: char) -> char {
    if 'A' <= c && c <= 'Z' {
        ((c as u32) + 32) as char
    } else {
        c
    }
}

/// Whether `x` spells `w` when letters are compared without case.  For the
/// lower-case ASCII names below this is the same as comparing the Unicode
/// lower-case form of `x` with `w`: no other character lowers to one of
/// their letters.
pub open spec fn same_name(x: Seq<char>, w: Seq<char>) -> bool {
    x.len() == w.len() && forall|i: int| 0 <= i < x.len() ==> lower(#[trigger] x[i]) == w[i]
}

/// The kind of file an extension (without the dot) stands for.
pub open spec fn kind_of(ext: Seq<char>) -> Option<FileKind> {
    if same_name(ext, seq!['d', 't', 's']) {
        Some(FileKind::Dts)
    } else if same_name(ext, seq!['d', 't', 's', 'i']) {
        Some(FileKind::Dtsi)
    } else if same_name(ext, seq!['o', 'v', 'e', 'r', 'l', 'a', 'y']) || same_name(
        ext,
        seq!['d', 't', 's', 'o'],
    ) {
        Some(FileKind::Overlay)
    } else if same_name(ext, seq!['y', 'a', 'm', 'l']) || same_name(ext, seq!['y', 'm', 'l']) {
        Some(FileKind::Binding)
    } else {
        None
    }
}

fn lower_char(c: char) -> (r: char)
    ensures
        r == lower(c),
{
    if 'A' <= c && c <= 'Z' {
        let b: u8 = (c as u8) + 32;
        b as char
    } else {
        c
    }
}

/// Whether `x` spells `w` without regard to case.
fn name_is(x: &Vec<char>, w: &str) -> (r: bool)
    ensures
        r == same_name(x@, w@),
{
    let y = to_chars(w);
    if x.len() != y.len() {
        return false;
    }
    let mut k: usize = 0;
    while k < x.len()
        invariant
            k <= x.len() == y.len(),
            y@ == w@,
            forall|i: int| 0 <= i < k ==> lower(#[trigger] x@[i]) == y@[i],
        decreases x.len() - k,
    {
        if lower_char(x[k]) != y[k] {
            return false;
        }
        k = k + 1;
    }
    true
}

impl FileKind {
    /// The kind of file for an extension, compared without regard to case:
    /// `dts`, `dtsi`, `overlay` or `dtso`, `yaml` or `yml`.
    pub fn from_extension(ext: &str) -> (r: Option<FileKind>)
        ensures
            r == kind_of(ext@),
    {
        proof {
            reveal_strlit("dts");
            reveal_strlit("dtsi");
            reveal_strlit("overlay");
            reveal_strlit("dtso");
            reveal_strlit("yaml");
            reveal_strlit("yml");
            assert("dts"@ =~= seq!['d', 't', 's']);
            assert("dtsi"@ =~= seq!['d', 't', 's', 'i']);
            assert("overlay"@ =~= seq!['o', 'v', 'e', 'r', 'l', 'a', 'y']);
            assert("dtso"@ =~= seq!['d', 't', 's', 'o']);
            assert("yaml"@ =~= seq!['y', 'a', 'm', 'l']);
            assert("yml"@ =~= seq!['y', 'm', 'l']);
        }
        let x = to_chars(ext);
        if name_is(&x, "dts") {
            Some(FileKind::Dts)
        } else if name_is(&x, "dtsi") {
            Some(FileKind::Dtsi)
        } else if name_is(&x, "overlay") || name_is(&x, "dtso") {
            Some(FileKind::Overlay)
        } else if name_is(&x, "yaml") || name_is(&x, "yml") {
            Some(FileKind::Binding)
        } else {
            None
        }
    }
}

/// A file shown in the browser.
#[derive(Debug, Clone, PartialEq)]
pub struct FileEntry {
    pub path: String,
    pub name: String,
    pub kind: FileKind,
}

/// The workspace as resolved for the browser.
#[derive(Debug, Clone, PartialEq)]
pub struct WorkspaceState {
    pub info: WorkspaceInfo,
    pub zephyr_version: String,
    /// The DTS sources of the HAL modules (local, cached or fetched).
    pub hal_entries: Vec<HalDtsEntry>,
}

/// Whether a file name is hidden: it starts with a dot.
pub fn is_hidden(file_name: &str) -> (r: bool)
    ensures
        r == (file_name@.len() > 0 && file_name@[0] == '.'),
{
    let x = to_chars(file_name);
    x.len() > 0 && x[0] == '.'
}

// -------------------------------------------------------------------------
// Includes named in a file
// -------------------------------------------------------------------------

pub open spec fn include_word() -> Seq<char> {
    seq!['#', 'i', 'n', 'c', 'l', 'u', 'd', 'e']
}

/// The text between `open` and `close` when `x` starts with the one and
/// ends with the other (two different characters).
pub open spec fn enclosed(x: Seq<char>, open: char, close: char) -> Option<Seq<char>> {
    if x.len() >= 2 && x[0] == open && x.last() == close {
        Some(x.subrange(1, x.len() - 1))
    } else {
        None
    }
}

/// The path a line includes: a trimmed line that starts with `#include`,
/// followed by `<path>` or `"path"` (after trimming).
pub open spec fn include_of(line: Seq<char>) -> Option<Seq<char>> {
    let t = trim(line);
    if t.len() >= 8 && t.subrange(0, 8) == include_word() {
        let rest = trim(t.subrange(8, t.len() as int));
        match enclosed(rest, '<', '>') {
            Some(p) => Some(p),
            None => enclosed(rest, '"', '"'),
        }
    } else {
        None
    }
}

/// The included paths of the given lines, in order.
pub open spec fn includes_of(lines: Seq<Seq<char>>) -> Seq<Seq<char>>
    decreases lines.len(),
{
    if lines.len() == 0 {
        Seq::empty()
    } else {
        let before = includes_of(lines.drop_last());
        match include_of(lines.last()) {
            Some(p) => before.push(p),
            None => before,
        }
    }
}

/// The view of a list of strings.
pub open spec fn strings_v(v: Seq<String>) -> Seq<Seq<char>> {
    v.map_values(|s: String| s@)
}

/// The between-delimiters part of `x`, as `enclosed` describes it.
fn enclosed_in(x: &Vec<char>, open: char, close: char) -> (r: Option<String>)
    ensures
        match enclosed(x@, open, close) {
            Some(p) => r is Some && r->0@ == p,
            None => r is None,
        },
{
    if x.len() >= 2 && x[0] == open && x[x.len() - 1] == close {
        Some(crate::text::substring(x, 1, x.len() - 1))
    } else {
        None
    }
}

/// The paths of the `#include` lines of `content`, read line by line.  This
/// serves where the file does not parse as a whole.
pub fn extract_includes_regex(content: &str) -> (r: Vec<String>)
    ensures
        strings_v(r@) == includes_of(text_lines(content@)),
{
    let rows = split_lines(content);
    let mut out: Vec<String> = Vec::new();
    let mut i: usize = 0;
    while i < rows.len()
        invariant
            i <= rows.len(),
            rows_v(rows@) == text_lines(content@),
            strings_v(out@) == includes_of(rows_v(rows@).take(i as int)),
        decreases rows.len() - i,
    {
        proof {
            assert(rows_v(rows@).take(i + 1).drop_last() =~= rows_v(rows@).take(i as int));
            assert(rows_v(rows@).take(i + 1).last() == rows@[i as int]@);
        }
        let line = &rows[i];
        let t = trimmed(line, 0, line.len());
        assert(line@.subrange(0, line@.len() as int) =~= line@);
        let mut found: Option<String> = None;
        if t.len() >= 8 && t[0] == '#' && t[1] == 'i' && t[2] == 'n' && t[3] == 'c' && t[4] == 'l'
            && t[5] == 'u' && t[6] == 'd' && t[7] == 'e' {
            assert(t@.subrange(0, 8) =~= include_word());
            let rest = trimmed(&t, 8, t.len());
            found = match enclosed_in(&rest, '<', '>') {
                Some(p) => Some(p),
                None => enclosed_in(&rest, '"', '"'),
            };
        } else {
            assert(t@.len() >= 8 ==> t@.subrange(0, 8) != include_word()) by {
                if t@.len() >= 8 {
                    let w = include_word();
                    assert(t@.subrange(0, 8)[0] == t@[0]);
                    assert(t@.subrange(0, 8)[1] == t@[1]);
                    assert(t@.subrange(0, 8)[2] == t@[2]);
                    assert(t@.subrange(0, 8)[3] == t@[3]);
                    assert(t@.subrange(0, 8)[4] == t@[4]);
                    assert(t@.subrange(0, 8)[5] == t@[5]);
                    assert(t@.subrange(0, 8)[6] == t@[6]);
                    assert(t@.subrange(0, 8)[7] == t@[7]);
                }
            }
        }
        let ghost before = out@;
        match found {
            Some(p) => {
                out.push(p);
                assert(strings_v(out@) =~= strings_v(before).push(out@.last()@));
            },
            None => {},
        }
        i = i + 1;
    }
    assert(rows_v(rows@).take(i as int) =~= rows_v(rows@));
    out
}

// -------------------------------------------------------------------------
// Where included files are looked for
// -------------------------------------------------------------------------

/// A directory found in a listing: its name and its path.
#[derive(Debug, Clone, PartialEq)]
pub struct DirItem {
    pub name: String,
    pub path: String,
}

/// What the listing of a HAL module's directories found: whether its DTS
/// path is a directory, and the subdirectories of its bindings path (when
/// that is a directory).
#[derive(Debug, Clone, PartialEq)]
pub struct HalDirs {
    pub dts_is_dir: bool,
    pub bindings_subdirs: Option<Vec<String>>,
}

/// Whether a directory under `dts/` holds the sources of an architecture:
/// every one but `bindings`, `common` and `vendor`.
pub open spec fn is_arch_dir(name: Seq<char>) -> bool {
    name != "bindings"@ && name != "common"@ && name != "vendor"@
}

/// The paths of the architecture directories among `items`, in order.
pub open spec fn arch_dirs(items: Seq<DirItem>) -> Seq<Seq<char>>
    decreases items.len(),
{
    if items.len() == 0 {
        Seq::empty()
    } else {
        let before = arch_dirs(items.drop_last());
        if is_arch_dir(items.last().name@) {
            before.push(items.last().path@)
        } else {
            before
        }
    }
}

/// The `dts/` directory of a Zephyr directory.
pub open spec fn dts_dir_of(zephyr: Seq<char>) -> Seq<char> {
    path_join(zephyr, "dts"@)
}

/// The DTS directories of the HAL modules whose DTS path is a directory.
pub open spec fn hal_dts_dirs(entries: Seq<HalDtsEntry>, is_dir: Seq<bool>) -> Seq<Seq<char>>
    decreases entries.len(),
{
    if entries.len() == 0 {
        Seq::empty()
    } else {
        let before = hal_dts_dirs(entries.drop_last(), is_dir);
        let k = entries.len() - 1;
        match entries.last().dts_path {
            Some(p) => if k < is_dir.len() && is_dir[k] {
                before.push(p@)
            } else {
                before
            },
            None => before,
        }
    }
}

/// The directories searched for what a board's DTS files include, in
/// order: the board directory, `dts/common` (when it is a directory), the
/// architecture directories of `dts/`, `dts/` itself, the Zephyr directory,
/// and the DTS directories of the HAL modules.
pub open spec fn dts_search_paths_v(
    ws: WorkspaceState,
    board_dir: Seq<char>,
    common_is_dir: bool,
    dts_items: Seq<DirItem>,
    hal_dts_is_dir: Seq<bool>,
) -> Seq<Seq<char>> {
    let dts = dts_dir_of(ws.info.zephyr_dir@);
    seq![board_dir] + (if common_is_dir {
        seq![path_join(dts, "common"@)]
    } else {
        Seq::empty()
    }) + arch_dirs(dts_items) + seq![dts, ws.info.zephyr_dir@] + hal_dts_dirs(
        ws.hal_entries@,
        hal_dts_is_dir,
    )
}

/// The DTS directory of a HAL module, when it is one.
pub open spec fn hal_dts_part(e: HalDtsEntry, d: HalDirs) -> Seq<Seq<char>> {
    match e.dts_path {
        Some(p) => if d.dts_is_dir {
            seq![p@]
        } else {
            Seq::empty()
        },
        None => Seq::empty(),
    }
}

/// The bindings directory of a HAL module and its subdirectories, when it
/// is a directory.
pub open spec fn hal_bindings_part(e: HalDtsEntry, d: HalDirs) -> Seq<Seq<char>> {
    match e.bindings_path {
        Some(b) => match d.bindings_subdirs {
            Some(subs) => seq![b@] + strings_v(subs@),
            None => Seq::empty(),
        },
        None => Seq::empty(),
    }
}

/// The DTS directories and the bindings directories (with their
/// subdirectories) of the HAL modules, as far as they are directories.
pub open spec fn hal_search_dirs(entries: Seq<HalDtsEntry>, found: Seq<HalDirs>) -> Seq<Seq<char>>
    decreases entries.len(),
{
    if entries.len() == 0 {
        Seq::empty()
    } else {
        let before = hal_search_dirs(entries.drop_last(), found);
        let k = entries.len() - 1;
        let e = entries.last();
        if k < found.len() {
            before + hal_dts_part(e, found[k]) + hal_bindings_part(e, found[k])
        } else {
            before
        }
    }
}

/// The directories an include named in a file is looked for in, in order:
/// the file's directory, `dts/bindings` and its subdirectories (when it is
/// a directory), `dts/common` (when it is a directory), the architecture
/// directories of `dts/`, `dts/`, the Zephyr directory, and the HAL
/// modules' directories.
pub open spec fn include_dirs_v(
    ws: WorkspaceState,
    origin: Seq<char>,
    bindings_subdirs: Option<Seq<Seq<char>>>,
    common_is_dir: bool,
    dts_items: Seq<DirItem>,
    hal: Seq<HalDirs>,
) -> Seq<Seq<char>> {
    let dts = dts_dir_of(ws.info.zephyr_dir@);
    seq![origin] + (match bindings_subdirs {
        Some(subs) => seq![path_join(dts, "bindings"@)] + subs,
        None => Seq::empty(),
    }) + (if common_is_dir {
        seq![path_join(dts, "common"@)]
    } else {
        Seq::empty()
    }) + arch_dirs(dts_items) + seq![dts, ws.info.zephyr_dir@] + hal_search_dirs(
        ws.hal_entries@,
        hal,
    )
}

/// Adds the paths of the architecture directories among `items`.
fn push_arch_dirs(out: &mut Vec<String>, items: &Vec<DirItem>)
    ensures
        strings_v(final(out)@) == strings_v(old(out)@) + arch_dirs(items@),
{
    let ghost start = strings_v(out@);
    let mut k: usize = 0;
    while k < items.len()
        invariant
            k <= items.len(),
            strings_v(out@) == start + arch_dirs(items@.take(k as int)),
        decreases items.len() - k,
    {
        assert(items@.take(k + 1).drop_last() =~= items@.take(k as int));
        let it = &items[k];
        let arch = !str_eq(it.name.as_str(), "bindings") && !str_eq(it.name.as_str(), "common")
            && !str_eq(it.name.as_str(), "vendor");
        if arch {
            let ghost before = out@;
            out.push(string_of(it.path.as_str()));
            assert(strings_v(out@) =~= strings_v(before).push(it.path@));
        }
        k = k + 1;
    }
    assert(items@.take(k as int) =~= items@);
}

/// Adds `x`.
fn push_one(out: &mut Vec<String>, x: String)
    ensures
        strings_v(final(out)@) == strings_v(old(out)@) + seq![x@],
{
    let ghost before = out@;
    out.push(x);
    assert(strings_v(out@) =~= strings_v(before) + seq![out@.last()@]);
}

/// Adds copies of the strings of `xs`.
fn push_all(out: &mut Vec<String>, xs: &Vec<String>)
    ensures
        strings_v(final(out)@) == strings_v(old(out)@) + strings_v(xs@),
{
    let ghost start = strings_v(out@);
    let mut k: usize = 0;
    while k < xs.len()
        invariant
            k <= xs.len(),
            strings_v(out@) == start + strings_v(xs@.take(k as int)),
        decreases xs.len() - k,
    {
        let ghost before = out@;
        out.push(string_of(xs[k].as_str()));
        assert(strings_v(out@) =~= strings_v(before).push(xs@[k as int]@));
        assert(strings_v(xs@.take(k + 1)) =~= strings_v(xs@.take(k as int)).push(xs@[k as int]@));
        k = k + 1;
    }
    assert(xs@.take(k as int) =~= xs@);
}

/// The directories searched for what a board's DTS files include (see
/// `dts_search_paths_v`), from what listing the directories found:
/// whether `dts/common` is a directory, the directories of `dts/`, and for
/// each HAL module whether its DTS path is a directory.
pub fn dts_search_paths(
    ws: &WorkspaceState,
    board_dir: &str,
    common_is_dir: bool,
    dts_items: &Vec<DirItem>,
    hal_dts_is_dir: &Vec<bool>,
) -> (r: Vec<String>)
    ensures
        strings_v(r@) == dts_search_paths_v(*ws, board_dir@, common_is_dir, dts_items@, hal_dts_is_dir@),
{
    proof {
        reveal_strlit("dts");
        reveal_strlit("common");
    }
    let dts = join_path(ws.info.zephyr_dir.as_str(), "dts");
    let mut out: Vec<String> = Vec::new();
    assert(strings_v(out@) =~= Seq::<Seq<char>>::empty());
    push_one(&mut out, string_of(board_dir));
    let ghost p1 = strings_v(out@);
    if common_is_dir {
        push_one(&mut out, join_path(dts.as_str(), "common"));
    }
    let ghost p2 = strings_v(out@);
    push_arch_dirs(&mut out, dts_items);
    push_one(&mut out, string_of(dts.as_str()));
    push_one(&mut out, string_of(ws.info.zephyr_dir.as_str()));
    let ghost p3 = strings_v(out@);
    let entries = &ws.hal_entries;
    let mut k: usize = 0;
    while k < entries.len()
        invariant
            k <= entries.len(),
            strings_v(out@) == p3 + hal_dts_dirs(entries@.take(k as int), hal_dts_is_dir@),
        decreases entries.len() - k,
    {
        assert(entries@.take(k + 1).drop_last() =~= entries@.take(k as int));
        match &entries[k].dts_path {
            Some(p) => {
                if k < hal_dts_is_dir.len() && hal_dts_is_dir[k] {
                    push_one(&mut out, string_of(p.as_str()));
                }
            },
            None => {},
        }
        k = k + 1;
    }
    assert(entries@.take(k as int) =~= entries@);
    assert(strings_v(out@) =~= dts_search_paths_v(
        *ws,
        board_dir@,
        common_is_dir,
        dts_items@,
        hal_dts_is_dir@,
    ));
    out
}

/// The directories an include is looked for in (see `include_dirs_v`),
/// from what listing the directories found: the subdirectories of
/// `dts/bindings` (when it is a directory), whether `dts/common` is a
/// directory, the directories of `dts/`, and per HAL module what its
/// directories are.
pub fn include_dirs(
    ws: &WorkspaceState,
    origin: &str,
    bindings_subdirs: &Option<Vec<String>>,
    common_is_dir: bool,
    dts_items: &Vec<DirItem>,
    hal: &Vec<HalDirs>,
) -> (r: Vec<String>)
    ensures
        strings_v(r@) == include_dirs_v(
            *ws,
            origin@,
            match *bindings_subdirs {
                Some(v) => Some(strings_v(v@)),
                None => None,
            },
            common_is_dir,
            dts_items@,
            hal@,
        ),
{
    proof {
        reveal_strlit("dts");
        reveal_strlit("common");
        reveal_strlit("bindings");
    }
    let dts = join_path(ws.info.zephyr_dir.as_str(), "dts");
    let mut out: Vec<String> = Vec::new();
    assert(strings_v(out@) =~= Seq::<Seq<char>>::empty());
    push_one(&mut out, string_of(origin));
    match bindings_subdirs {
        Some(subs) => {
            push_one(&mut out, join_path(dts.as_str(), "bindings"));
            push_all(&mut out, subs);
        },
        None => {},
    }
    if common_is_dir {
        push_one(&mut out, join_path(dts.as_str(), "common"));
    }
    push_arch_dirs(&mut out, dts_items);
    push_one(&mut out, string_of(dts.as_str()));
    push_one(&mut out, string_of(ws.info.zephyr_dir.as_str()));
    let ghost p3 = strings_v(out@);
    let entries = &ws.hal_entries;
    let mut k: usize = 0;
    while k < entries.len()
        invariant
            k <= entries.len(),
            strings_v(out@) == p3 + hal_search_dirs(entries@.take(k as int), hal@),
        decreases entries.len() - k,
    {
        assert(entries@.take(k + 1).drop_last() =~= entries@.take(k as int));
        let ghost mid = strings_v(out@);
        if k < hal.len() {
            let e = &entries[k];
            let d = &hal[k];
            match &e.dts_path {
                Some(p) => {
                    if d.dts_is_dir {
                        push_one(&mut out, string_of(p.as_str()));
                    }
                },
                None => {},
            }
            let ghost mid2 = strings_v(out@);
            match &e.bindings_path {
                Some(b) => match &d.bindings_subdirs {
                    Some(subs) => {
                        push_one(&mut out, string_of(b.as_str()));
                        push_all(&mut out, subs);
                    },
                    None => {},
                },
                None => {},
            }
            assert(mid2 =~= mid + hal_dts_part(*e, *d));
            assert(strings_v(out@) =~= mid + hal_dts_part(*e, *d) + hal_bindings_part(*e, *d));
        }
        k = k + 1;
    }
    assert(entries@.take(k as int) =~= entries@);
    out
}

// -------------------------------------------------------------------------
// Which files the scans list
// -------------------------------------------------------------------------

/// Whether the scan for user overlays skips a directory: hidden ones and
/// `build`, `target`, `modules`, `bootloader` and `zephyr`.
pub open spec fn skipped_dir_v(name: Seq<char>) -> bool {
    (name.len() > 0 && name[0] == '.') || name == "build"@ || name == "target"@ || name
        == "modules"@ || name == "bootloader"@ || name == "zephyr"@
}

/// Whether the scan for user overlays skips a directory (see `skipped_dir_v`).
pub fn skipped_dir(name: &str) -> (r: bool)
    ensures
        r == skipped_dir_v(name@),
{
    is_hidden(name) || str_eq(name, "build") || str_eq(name, "target") || str_eq(name, "modules")
        || str_eq(name, "bootloader") || str_eq(name, "zephyr")
}

/// The kind of a file the scan for user overlays lists, by its extension
/// (exactly `overlay`, `dtso`, `dts` or `dtsi`).
pub open spec fn overlay_scan_kind_v(ext: Seq<char>) -> Option<FileKind> {
    if ext == "overlay"@ || ext == "dtso"@ || ext == "dts"@ || ext == "dtsi"@ {
        kind_of(ext)
    } else {
        None
    }
}

/// The kind of a file the scan for user overlays lists (see
/// `overlay_scan_kind_v`).
pub fn overlay_scan_kind(ext: &str) -> (r: Option<FileKind>)
    ensures
        r == overlay_scan_kind_v(ext@),
{
    if str_eq(ext, "overlay") || str_eq(ext, "dtso") || str_eq(ext, "dts") || str_eq(ext, "dtsi") {
        FileKind::from_extension(ext)
    } else {
        None
    }
}

/// Whether the scan for bindings lists a file: its extension is exactly
/// `yaml` or `yml`.
pub fn is_binding_ext(ext: &str) -> (r: bool)
    ensures
        r == (ext@ == "yaml"@ || ext@ == "yml"@),
{
    str_eq(ext, "yaml") || str_eq(ext, "yml")
}

/// The kind of a board file listed when the board has no main DTS file:
/// DTS, DTSI and overlay files (extension compared without case).
pub fn board_file_kind(ext: &str) -> (r: Option<FileKind>)
    ensures
        r == match kind_of(ext@) {
            Some(FileKind::Binding) => None,
            k => k,
        },
{
    match FileKind::from_extension(ext) {
        Some(FileKind::Binding) => None,
        k => k,
    }
}

/// Whether an include names a C header: its extension is exactly `h`.
pub fn is_c_header_ext(ext: &str) -> (r: bool)
    ensures
        r == (ext@ == "h"@),
{
    str_eq(ext, "h")
}

/// The paths of a list of includes.
pub open spec fn include_paths(incs: Seq<crate::model::IncludeV>) -> Seq<Seq<char>> {
    incs.map_values(|i: crate::model::IncludeV| i.path)
}

/// The files a DTS source includes: those of its parse where it parses,
/// else those its `#include` lines name.
pub open spec fn source_includes(content: Seq<char>) -> Seq<Seq<char>> {
    match crate::parser::dts_result(content) {
        Ok(t) => include_paths(t.includes),
        Err(_) => includes_of(text_lines(content)),
    }
}

/// The files a DTS source includes (see `source_includes`); `None` on the
/// inputs that the parser leaves out (see `try_parse_dts`).
pub fn includes_in_source(content: &str) -> (r: Option<Vec<String>>)
    ensures
        r is None <==> !(crate::text::bytes_len(content@) < usize::MAX
            && crate::parser::dts_reportable(content@)),
        r matches Some(v) ==> strings_v(v@) == source_includes(content@),
{
    match crate::parser::try_parse_dts(content) {
        None => None,
        Some(Ok(tree)) => {
            let mut out: Vec<String> = Vec::new();
            let mut k: usize = 0;
            while k < tree.includes.len()
                invariant
                    k <= tree.includes.len(),
                    strings_v(out@) == include_paths(tree@.includes).take(k as int),
                decreases tree.includes.len() - k,
            {
                let ghost before = out@;
                out.push(string_of(tree.includes[k].path.as_str()));
                assert(tree@.includes[k as int] == tree.includes@[k as int]@);
                assert(strings_v(out@) =~= strings_v(before).push(tree.includes@[k as int].path@));
                assert(include_paths(tree@.includes).take(k + 1) =~= include_paths(
                    tree@.includes,
                ).take(k as int).push(tree.includes@[k as int].path@));
                k = k + 1;
            }
            assert(include_paths(tree@.includes).take(k as int) =~= include_paths(tree@.includes));
            Some(out)
        },
        Some(Err(_)) => Some(extract_includes_regex(content)),
    }
}

/// Whether `s` ends with `t`.
pub open spec fn ends_with(s: Seq<char>, t: Seq<char>) -> bool {
    t.len() <= s.len() && s.subrange(s.len() - t.len(), s.len() as int) == t
}

/// Whether `s` ends with the characters of `t`.
fn ends_with_str(s: &Vec<char>, t: &str) -> (r: bool)
    ensures
        r == ends_with(s@, t@),
{
    let x = to_chars(t);
    if x.len() > s.len() {
        return false;
    }
    let start = s.len() - x.len();
    let mut k: usize = 0;
    while k < x.len()
        invariant
            k <= x.len(),
            start + x.len() == s.len(),
            x@ == t@,
            forall|j: int| 0 <= j < k ==> s@[start + j] == x@[j],
        decreases x.len() - k,
    {
        if s[start + k] != x[k] {
            assert(s@.subrange(start as int, s@.len() as int)[k as int] != x@[k as int]);
            return false;
        }
        k = k + 1;
    }
    assert(s@.subrange(start as int, s@.len() as int) =~= x@);
    true
}

/// Whether the save browser lists an entry: every directory, and the files
/// whose names end in `.overlay` or `.dtso`.
pub fn listed_for_saving(name: &str, is_dir: bool) -> (r: bool)
    ensures
        r == (is_dir || ends_with(name@, ".overlay"@) || ends_with(name@, ".dtso"@)),
{
    if is_dir {
        return true;
    }
    let x = to_chars(name);
    ends_with_str(&x, ".overlay") || ends_with_str(&x, ".dtso")
}

} // verus!

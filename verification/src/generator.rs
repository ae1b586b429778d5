//! The overlay generator: a board is chosen, reference nodes with their
//! properties and children are edited in a list of visible lines, and the
//! overlay is written out.  Listing directories and drawing stay outside
//! the library.
use vstd::prelude::*;
use crate::model::{
    DeviceTree, DtsVersion, Node, Property, Reference, ReferenceNode, TreeV, RefNodeV, NodeV, RefV,
    PropV, empty_tree_v, bare_node_v, node_height, lemma_height_of_view, first_prop, prop_string,
    ref_text,
    props_v,
};
use crate::viewer::BindingSummary;
use crate::serializer::{
    format_property_value, serialize, value_text, tree_text, tree_depth_ok, OutputFormat,
    SerializerConfig, ConfigV, ref_nodes_text, node_text, comment_text, lines_from,
};
use crate::text::{string_of, to_chars};
use crate::west::{path_join, join_path};
use std::collections::HashSet;
use vstd::std_specs::iter::IteratorSpec;

verus! {

/// The steps of the generator.
#[derive(Debug, Clone, Copy, PartialEq, Eq, Structural)]
pub enum GeneratorStep {
    SelectBoard,
    EditNodes,
    SaveFile,
}

/// What the text being typed is for.
#[derive(Debug, Clone, Copy, PartialEq, Eq, Structural)]
pub enum InputMode {
    NodeReference,
    ChildName,
    PropertyName,
    PropertyValue,
    FileName,
}

/// The property being added or edited.
#[derive(Debug, Clone, PartialEq)]
pub struct PropertyEditState {
    pub node_idx: usize,
    pub prop_idx: usize,
    pub name: String,
    pub value: String,
}

pub struct EditV {
    pub node_idx: usize,
    pub prop_idx: usize,
    pub name: Seq<char>,
    pub value: Seq<char>,
}

impl View for PropertyEditState {
    type V = EditV;

    open spec fn view(&self) -> EditV {
        EditV {
            node_idx: self.node_idx,
            prop_idx: self.prop_idx,
            name: self.name@,
            value: self.value@,
        }
    }
}

/// The state of the generator.
pub struct GeneratorState {
    pub collapsed: bool,
    pub step: GeneratorStep,
    pub selected_board: Option<String>,
    pub overlay_tree: DeviceTree,
    pub resolved_board_tree: Option<DeviceTree>,
    pub board_resolving: bool,
    /// The cursor: an index into the visible lines of the node list.
    pub selected_node: usize,
    pub node_scroll: usize,
    /// The reference nodes shown with their properties and children.
    pub expanded_nodes: HashSet<usize>,
    pub editing_property: Option<PropertyEditState>,
    pub input_buffer: String,
    pub input_mode: Option<InputMode>,
    pub save_path: Option<String>,
    pub save_dir: String,
    pub save_entries: Vec<String>,
    pub save_selected: usize,
    pub save_scroll: usize,
    pub save_input: String,
    pub save_input_active: bool,
    pub confirm_overwrite: bool,
    /// The overlay was saved and the user is asked whether to go on.
    pub save_complete: bool,
    /// The bindings of the board, each under its compatible string (no
    /// string occurs twice).
    pub board_bindings: Vec<(String, BindingSummary)>,
}

/// The mathematical form of the generator's state.
pub struct GenV {
    pub collapsed: bool,
    pub step: GeneratorStep,
    pub selected_board: Option<Seq<char>>,
    pub overlay: TreeV,
    pub resolved_board: Option<TreeV>,
    pub board_resolving: bool,
    pub selected_node: usize,
    pub node_scroll: usize,
    pub expanded: Set<int>,
    pub editing: Option<EditV>,
    pub input_buffer: Seq<char>,
    pub input_mode: Option<InputMode>,
    pub save_path: Option<Seq<char>>,
    pub save_dir: Seq<char>,
    pub save_entries: Seq<Seq<char>>,
    pub save_selected: usize,
    pub save_scroll: usize,
    pub save_input: Seq<char>,
    pub save_input_active: bool,
    pub confirm_overwrite: bool,
    pub save_complete: bool,
    pub bindings: Seq<(String, BindingSummary)>,
}

/// The indices held in `s`, as integers.
pub open spec fn index_set(s: Set<usize>) -> Set<int> {
    Set::new(|i: int| 0 <= i <= usize::MAX && s.contains(i as usize))
}

pub open spec fn opt_text(o: Option<String>) -> Option<Seq<char>> {
    match o {
        Some(s) => Some(s@),
        None => None,
    }
}

impl View for GeneratorState {
    type V = GenV;

    open spec fn view(&self) -> GenV {
        GenV {
            collapsed: self.collapsed,
            step: self.step,
            selected_board: opt_text(self.selected_board),
            overlay: self.overlay_tree@,
            resolved_board: match self.resolved_board_tree {
                Some(t) => Some(t@),
                None => None,
            },
            board_resolving: self.board_resolving,
            selected_node: self.selected_node,
            node_scroll: self.node_scroll,
            expanded: index_set(self.expanded_nodes@),
            editing: match self.editing_property {
                Some(e) => Some(e@),
                None => None,
            },
            input_buffer: self.input_buffer@,
            input_mode: self.input_mode,
            save_path: opt_text(self.save_path),
            save_dir: self.save_dir@,
            save_entries: self.save_entries@.map_values(|s: String| s@),
            save_selected: self.save_selected,
            save_scroll: self.save_scroll,
            save_input: self.save_input@,
            save_input_active: self.save_input_active,
            confirm_overwrite: self.confirm_overwrite,
            save_complete: self.save_complete,
            bindings: self.board_bindings@,
        }
    }
}

// -------------------------------------------------------------------------
// The model
// -------------------------------------------------------------------------

/// A fresh overlay: version 1, a plugin, nothing else.
pub open spec fn fresh_overlay() -> TreeV {
    TreeV { version: Some(DtsVersion::V1), is_plugin: true, ..empty_tree_v() }
}

/// The state the generator starts in.
pub open spec fn initial_v() -> GenV {
    GenV {
        collapsed: false,
        step: GeneratorStep::SelectBoard,
        selected_board: None,
        overlay: fresh_overlay(),
        resolved_board: None,
        board_resolving: false,
        selected_node: 0,
        node_scroll: 0,
        expanded: Set::empty(),
        editing: None,
        input_buffer: Seq::empty(),
        input_mode: None,
        save_path: None,
        save_dir: seq!['.'],
        save_entries: Seq::empty(),
        save_selected: 0,
        save_scroll: 0,
        save_input: Seq::empty(),
        save_input_active: false,
        confirm_overwrite: false,
        save_complete: false,
        bindings: Seq::empty(),
    }
}

/// Whether no compatible string occurs twice among the bindings.
pub open spec fn keys_distinct(bs: Seq<(String, BindingSummary)>) -> bool {
    forall|i: int, j: int| 0 <= i < j < bs.len() ==> #[trigger] bs[i].0@ != #[trigger] bs[j].0@
}

/// The place from `k` on of the binding whose compatible string is `key`.
pub open spec fn binding_place(bs: Seq<(String, BindingSummary)>, key: Seq<char>, k: int) -> Option<int>
    decreases bs.len() - k,
{
    if k < 0 || k >= bs.len() {
        None
    } else if bs[k].0@ == key {
        Some(k)
    } else {
        binding_place(bs, key, k + 1)
    }
}

/// The compatible string of a node: the text of its first `compatible`
/// property, when that holds a single string.
pub open spec fn node_compatible(n: NodeV) -> Option<Seq<char>> {
    match first_prop(n.properties, "compatible"@) {
        Some(k) => prop_string(n.properties[k]),
        None => None,
    }
}

/// The step after `s`; the last step stays.
pub open spec fn step_after(s: GeneratorStep) -> GeneratorStep {
    match s {
        GeneratorStep::SelectBoard => GeneratorStep::EditNodes,
        GeneratorStep::EditNodes => GeneratorStep::SaveFile,
        GeneratorStep::SaveFile => GeneratorStep::SaveFile,
    }
}

/// The step before `s`; the first step stays.
pub open spec fn step_before(s: GeneratorStep) -> GeneratorStep {
    match s {
        GeneratorStep::SelectBoard => GeneratorStep::SelectBoard,
        GeneratorStep::EditNodes => GeneratorStep::SelectBoard,
        GeneratorStep::SaveFile => GeneratorStep::EditNodes,
    }
}

/// The number of visible lines of a reference node: its header, and when
/// expanded one line per property and per child.
pub open spec fn node_lines(rn: RefNodeV, expanded: bool) -> nat {
    1 + if expanded {
        rn.node.properties.len() + rn.node.children.len()
    } else {
        0
    }
}

/// The number of visible lines of the first `k` reference nodes.
pub open spec fn lines_before(rns: Seq<RefNodeV>, exp: Set<int>, k: int) -> nat
    decreases k,
{
    if k <= 0 {
        0
    } else {
        lines_before(rns, exp, k - 1) + node_lines(rns[k - 1], exp.contains(k - 1))
    }
}

/// The number of visible lines of the node list.
pub open spec fn total_lines(g: GenV) -> nat {
    lines_before(g.overlay.reference_nodes, g.expanded, g.overlay.reference_nodes.len() as int)
}

/// Whether the count of visible lines fits in a machine word.
pub open spec fn lines_fit(g: GenV) -> bool {
    total_lines(g) < usize::MAX
}

/// The reference node (from `k` on) that visible line `line` belongs to,
/// and the line's place in it: 0 for the header, then the properties, then
/// the children.
pub open spec fn locate(rns: Seq<RefNodeV>, exp: Set<int>, line: int, k: int) -> Option<(int, int)>
    decreases rns.len() - k,
{
    if !(0 <= k < rns.len()) {
        None
    } else {
        let b = lines_before(rns, exp, k);
        if line < b + node_lines(rns[k], exp.contains(k)) {
            Some((k, line - b))
        } else {
            locate(rns, exp, line, k + 1)
        }
    }
}

/// The reference node and place of visible line `line`.
pub open spec fn line_info(g: GenV, line: int) -> Option<(int, int)> {
    locate(g.overlay.reference_nodes, g.expanded, line, 0)
}

pub open spec fn opt_pair(r: Option<(usize, usize)>) -> Option<(int, int)> {
    match r {
        Some(p) => Some((p.0 as int, p.1 as int)),
        None => None,
    }
}

/// Each line of node `k` is found at node `k`, at its place there.
pub proof fn lemma_locate_line(rns: Seq<RefNodeV>, exp: Set<int>, k: int, sub: int, j: int)
    requires
        0 <= j <= k < rns.len(),
        0 <= sub < node_lines(rns[k], exp.contains(k)),
    ensures
        locate(rns, exp, lines_before(rns, exp, k) + sub, j) == Some((k, sub)),
    decreases k - j,
{
    if j < k {
        lemma_lines_before_mono(rns, exp, j + 1, k);
        lemma_locate_line(rns, exp, k, sub, j + 1);
    }
}

/// The indices of `exp` after the entry at `ni` was removed: those below
/// stay, those above move down by one.
pub open spec fn shift_down(exp: Set<int>, ni: int) -> Set<int> {
    Set::new(|i: int| (0 <= i < ni && exp.contains(i)) || (i >= ni && exp.contains(i + 1)))
}

/// Where index `x` goes when the entry at `drop` is removed (`shift`) or
/// only unmarked.
pub open spec fn moved(x: usize, drop: usize, shift: bool) -> int {
    if shift && x > drop {
        x - 1
    } else {
        x as int
    }
}

/// The reference nodes with the node at `ni` replaced by `n`.
pub open spec fn with_node(rns: Seq<RefNodeV>, ni: int, n: NodeV) -> Seq<RefNodeV> {
    rns.update(ni, RefNodeV { node: n, ..rns[ni] })
}

/// The cursor once the list holds `count` lines: kept, unless it is past
/// the end of a list that is not empty.
pub open spec fn clamp_cursor(sel: usize, count: nat) -> usize {
    if sel >= count && count > 0 {
        (count - 1) as usize
    } else {
        sel
    }
}

/// The state after reference node `ni` is deleted: the expanded indices
/// above it move down, and the cursor stays within the list (at 0 when the
/// list is empty).
pub open spec fn delete_entry_v(g: GenV, ni: int) -> GenV {
    let rns2 = g.overlay.reference_nodes.remove(ni);
    let exp2 = shift_down(g.expanded, ni);
    let c = lines_before(rns2, exp2, rns2.len() as int);
    GenV {
        overlay: TreeV { reference_nodes: rns2, ..g.overlay },
        expanded: exp2,
        selected_node: if c == 0 {
            0
        } else {
            clamp_cursor(g.selected_node, c)
        },
        ..g
    }
}

/// The node of reference node `ni` after the property or child at place
/// `sub` (1 for the first property) is deleted.
pub open spec fn node_without(node: NodeV, sub: int) -> NodeV {
    let pi = sub - 1;
    if pi < node.properties.len() {
        NodeV { properties: node.properties.remove(pi), ..node }
    } else if pi - node.properties.len() < node.children.len() {
        NodeV { children: node.children.remove(pi - node.properties.len()), ..node }
    } else {
        node
    }
}

/// The state after the property or child at place `sub` of reference node
/// `ni` is deleted; the cursor stays within the list.
pub open spec fn delete_member_v(g: GenV, ni: int, sub: int) -> GenV {
    let rns = g.overlay.reference_nodes;
    let node = rns[ni].node;
    let pi = sub - 1;
    if pi < node.properties.len() + node.children.len() {
        let rns2 = with_node(rns, ni, node_without(node, sub));
        GenV {
            overlay: TreeV { reference_nodes: rns2, ..g.overlay },
            selected_node: clamp_cursor(
                g.selected_node,
                lines_before(rns2, g.expanded, rns2.len() as int),
            ),
            ..g
        }
    } else {
        g
    }
}

/// The state after the line under the cursor is deleted: a header line
/// deletes the whole reference node; a property or child line deletes that
/// property or child.
pub open spec fn after_delete(g: GenV) -> GenV {
    match line_info(g, g.selected_node as int) {
        None => g,
        Some(p) => if p.1 == 0 {
            delete_entry_v(g, p.0)
        } else {
            delete_member_v(g, p.0, p.1)
        },
    }
}

/// The reference node pushed for a new entry of the overlay: an unnamed
/// node holding `status = "okay"`.
pub open spec fn okay_node() -> NodeV {
    NodeV {
        properties: seq![
            PropV {
                name: "status"@,
                value: Some(seq![crate::model::PartV::StringLiteral("okay"@)]),
                labels: Seq::empty(),
            },
        ],
        ..bare_node_v(Seq::empty())
    }
}

/// The state with one more reference node for `r`.
pub open spec fn with_reference(g: GenV, r: RefV) -> GenV {
    GenV {
        overlay: TreeV {
            reference_nodes: g.overlay.reference_nodes.push(RefNodeV { reference: r, node: okay_node() }),
            ..g.overlay
        },
        ..g
    }
}

/// The reference that typed text stands for: a path when it starts with
/// `/`, else a label, with a leading `&` dropped.
pub open spec fn reference_of(input: Seq<char>) -> RefV {
    if input.len() > 0 && input[0] == '/' {
        RefV::Path(input)
    } else if input.len() > 0 && input[0] == '&' {
        RefV::Label(input.drop_first())
    } else {
        RefV::Label(input)
    }
}

/// The state once the file the overlay is to be saved as is known, given
/// whether a file of that name exists already in the save directory.
pub open spec fn save_target_v(g: GenV, filename: Seq<char>, exists: bool) -> GenV {
    if exists {
        GenV { confirm_overwrite: true, save_input: filename, ..g }
    } else {
        GenV { save_path: Some(path_join(g.save_dir, filename)), ..g }
    }
}

/// The property that confirming a value gives: a boolean property for
/// empty text, else a string property.
pub open spec fn typed_property(name: Seq<char>, value: Seq<char>) -> PropV {
    if value.len() == 0 {
        PropV { name: name, value: None, labels: Seq::empty() }
    } else {
        PropV {
            name: name,
            value: Some(seq![crate::model::PartV::StringLiteral(value)]),
            labels: Seq::empty(),
        }
    }
}

/// The state with a child named `name` added to the reference node under
/// the cursor, if any.
pub open spec fn child_added_v(g: GenV, name: Seq<char>) -> GenV {
    let rns = g.overlay.reference_nodes;
    match line_info(g, g.selected_node as int) {
        Some(p) => {
            let node = rns[p.0].node;
            GenV {
                overlay: TreeV {
                    reference_nodes: with_node(
                        rns,
                        p.0,
                        NodeV { children: node.children.push(bare_node_v(name)), ..node },
                    ),
                    ..g.overlay
                },
                ..g
            }
        },
        None => g,
    }
}

/// The state with the property of edit `e` set from the typed `value`: the
/// property at its place is replaced, or the property is added when its
/// place is past the end; nothing happens when the node is gone.
pub open spec fn property_set_v(g: GenV, e: EditV, value: Seq<char>) -> GenV {
    let rns = g.overlay.reference_nodes;
    if e.node_idx < rns.len() {
        let node = rns[e.node_idx as int].node;
        let prop = typed_property(e.name, value);
        let props = if e.prop_idx < node.properties.len() {
            node.properties.update(e.prop_idx as int, prop)
        } else {
            node.properties.push(prop)
        };
        GenV {
            overlay: TreeV {
                reference_nodes: with_node(rns, e.node_idx as int, NodeV { properties: props, ..node }),
                ..g.overlay
            },
            ..g
        }
    } else {
        g
    }
}

/// The state after the typed text is confirmed.  `exists` says, for a file
/// name, whether that file exists already.
pub open spec fn after_confirm(g: GenV, exists: bool) -> GenV {
    let buf = g.input_buffer;
    let g0 = GenV { input_mode: None, input_buffer: Seq::empty(), ..g };
    match g.input_mode {
        None => g,
        Some(InputMode::NodeReference) => if buf.len() > 0 {
            with_reference(g0, reference_of(buf))
        } else {
            g0
        },
        Some(InputMode::ChildName) => if buf.len() > 0 {
            child_added_v(g0, buf)
        } else {
            g0
        },
        Some(InputMode::PropertyName) => if buf.len() > 0 {
            GenV {
                input_mode: Some(InputMode::PropertyValue),
                editing: match g.editing {
                    Some(e) => Some(EditV { name: buf, ..e }),
                    None => None,
                },
                ..g0
            }
        } else {
            g0
        },
        Some(InputMode::PropertyValue) => match g.editing {
            Some(e) => property_set_v(GenV { editing: None, ..g0 }, e, buf),
            None => g0,
        },
        Some(InputMode::FileName) => if buf.len() > 0 {
            save_target_v(g0, buf, exists)
        } else {
            g0
        },
    }
}

/// The state after the property being edited is deleted: only while the
/// reference node under the cursor (the last one when the cursor is past
/// the end) is expanded; the edit ends.
pub open spec fn after_delete_property(g: GenV) -> GenV {
    let rns = g.overlay.reference_nodes;
    let n = rns.len();
    if n == 0 {
        g
    } else {
        let ni: int = if g.selected_node < n - 1 {
            g.selected_node as int
        } else {
            n - 1
        };
        if !g.expanded.contains(ni) {
            g
        } else {
            match g.editing {
                None => g,
                Some(e) => {
                    let g1 = GenV { editing: None, ..g };
                    if e.node_idx < n && e.prop_idx < rns[e.node_idx as int].node.properties.len() {
                        let node = rns[e.node_idx as int].node;
                        GenV {
                            overlay: TreeV {
                                reference_nodes: with_node(
                                    rns,
                                    e.node_idx as int,
                                    NodeV {
                                        properties: node.properties.remove(e.prop_idx as int),
                                        ..node
                                    },
                                ),
                                ..g.overlay
                            },
                            ..g1
                        }
                    } else {
                        g1
                    }
                },
            }
        }
    }
}

/// The state once typing starts in `mode`, with an empty buffer.
pub open spec fn typing_v(g: GenV, mode: InputMode) -> GenV {
    GenV { input_mode: Some(mode), input_buffer: Seq::empty(), ..g }
}

/// The state once a property is to be added to the reference node under
/// the cursor: its name is typed first.
pub open spec fn start_add_v(g: GenV) -> GenV {
    match line_info(g, g.selected_node as int) {
        Some(p) => GenV {
            editing: Some(
                EditV {
                    node_idx: p.0 as usize,
                    prop_idx: g.overlay.reference_nodes[p.0].node.properties.len() as usize,
                    name: Seq::empty(),
                    value: Seq::empty(),
                },
            ),
            ..typing_v(g, InputMode::PropertyName)
        },
        None => g,
    }
}

/// The text of a property's value as it is edited.
pub open spec fn value_of(p: PropV) -> Seq<char> {
    match p.value {
        Some(v) => value_text(v),
        None => Seq::empty(),
    }
}

/// The state once the property under the cursor is to be edited (the
/// first property when the cursor is on a header line): the buffer starts
/// with its value.
pub open spec fn start_edit_v(g: GenV) -> GenV {
    match line_info(g, g.selected_node as int) {
        Some(p) => {
            let node = g.overlay.reference_nodes[p.0].node;
            let pi = if p.1 == 0 {
                0
            } else {
                p.1 - 1
            };
            if pi < node.properties.len() {
                let prop = node.properties[pi];
                GenV {
                    editing: Some(
                        EditV {
                            node_idx: p.0 as usize,
                            prop_idx: pi as usize,
                            name: prop.name,
                            value: value_of(prop),
                        },
                    ),
                    input_mode: Some(InputMode::PropertyValue),
                    input_buffer: value_of(prop),
                    ..g
                }
            } else {
                g
            }
        },
        None => g,
    }
}

/// The header comment of a written overlay.
pub open spec fn overlay_header() -> Seq<char> {
    "Generated by zdtwalk"@
}

/// The configuration an overlay is written with.
pub open spec fn overlay_config() -> ConfigV {
    ConfigV {
        indent: seq!['\t'],
        header_comment: Some(overlay_header()),
        output_format: OutputFormat::Dts,
        sort_properties: false,
        sort_nodes: false,
        include_version: false,
    }
}

/// The text of the overlay: the tree written without `/dts-v1/;` and
/// `/plugin/;`, under the header comment.
pub open spec fn overlay_text(g: GenV) -> Seq<char> {
    tree_text(TreeV { is_plugin: false, version: None, ..g.overlay }, overlay_config())
}

/// The block written for reference node `rn` in the overlay:
/// `\n&ref { ... };\n`.
pub open spec fn overlay_block(rn: RefNodeV) -> Seq<char> {
    seq!['\n'] + ref_text(rn.reference) + seq![' '] + node_text(rn.node, 0, overlay_config())
        + seq![';', '\n']
}

/// The blocks of the first `k` reference nodes end where the blocks of the
/// first `n` start again: they are a prefix of them.
proof fn lemma_ref_blocks_prefix(rs: Seq<RefNodeV>, k: int, n: int, c: ConfigV)
    requires
        0 <= k <= n,
    ensures
        ref_nodes_text(rs, k, c).len() <= ref_nodes_text(rs, n, c).len(),
        ref_nodes_text(rs, n, c).subrange(0, ref_nodes_text(rs, k, c).len() as int)
            == ref_nodes_text(rs, k, c),
    decreases n - k,
{
    if k < n {
        lemma_ref_blocks_prefix(rs, k, n - 1, c);
        let a = ref_nodes_text(rs, k, c);
        let b = ref_nodes_text(rs, n - 1, c);
        let full = ref_nodes_text(rs, n, c);
        assert(full.subrange(0, b.len() as int) =~= b);
        assert(full.subrange(0, a.len() as int) =~= b.subrange(0, a.len() as int));
    } else {
        assert(ref_nodes_text(rs, n, c).subrange(0, ref_nodes_text(rs, k, c).len() as int)
            =~= ref_nodes_text(rs, k, c));
    }
}

/// The overlay text holds every reference node of the overlay, in order:
/// it ends with their blocks one after another, the block of node `k`
/// standing right after those of the nodes before it.
pub proof fn law_overlay_holds_every_reference_node(g: GenV)
    ensures
        ({
            let text = overlay_text(g);
            let rs = g.overlay.reference_nodes;
            let all = ref_nodes_text(rs, rs.len() as int, overlay_config());
            let start = text.len() - all.len();
            &&& all.len() <= text.len()
            &&& text.subrange(start, text.len() as int) == all
            &&& forall|k: int|
                0 <= k < rs.len() ==> {
                    let p = start + ref_nodes_text(rs, k, overlay_config()).len();
                    &&& p + overlay_block(#[trigger] rs[k]).len() <= text.len()
                    &&& text.subrange(p, p + overlay_block(rs[k]).len()) == overlay_block(rs[k])
                }
        }),
{
    let c = overlay_config();
    let t = TreeV { is_plugin: false, version: None, ..g.overlay };
    let text = overlay_text(g);
    let rs = g.overlay.reference_nodes;
    let n = rs.len() as int;
    let all = ref_nodes_text(rs, n, c);
    assert(t.reference_nodes == rs);
    let front = text.subrange(0, text.len() - all.len());
    assert(text =~= front + all) by {
        assert(tree_text(t, c).subrange(tree_text(t, c).len() - all.len(), tree_text(t, c).len() as int) =~= all);
    }
    let start = text.len() - all.len();
    assert(text.subrange(start, text.len() as int) =~= all);

    assert forall|k: int| 0 <= k < rs.len() implies {
        let p = start + ref_nodes_text(rs, k, c).len();
        &&& p + overlay_block(#[trigger] rs[k]).len() <= text.len()
        &&& text.subrange(p, p + overlay_block(rs[k]).len()) == overlay_block(rs[k])
    } by {
        lemma_ref_blocks_prefix(rs, k + 1, n, c);
        let pre = ref_nodes_text(rs, k, c);
        let upto = ref_nodes_text(rs, k + 1, c);
        let blk = overlay_block(rs[k]);
        assert(upto =~= pre + blk);
        let p = start + pre.len();
        assert(text.subrange(p, p + blk.len()) =~= blk) by {
            assert forall|i: int| 0 <= i < blk.len() implies text.subrange(p, p + blk.len())[i]
                == blk[i] by {
                assert(text[p + i] == all[pre.len() + i]);
                assert(all[pre.len() + i] == all.subrange(0, upto.len() as int)[pre.len() + i]);
                assert(upto[pre.len() + i] == blk[i]);
            }
        }
    }
}

/// An overlay of reference nodes only (no include, reservation or root
/// node) is written as the header comment, an empty line, then the block of
/// each reference node in order, with no version or plugin line.
pub proof fn law_overlay_is_header_then_blocks(g: GenV)
    requires
        g.overlay.includes.len() == 0,
        g.overlay.memory_reservations.len() == 0,
        g.overlay.root is None,
    ensures
        overlay_text(g) == comment_text(lines_from(overlay_header(), 0)) + seq!['\n']
            + ref_nodes_text(
            g.overlay.reference_nodes,
            g.overlay.reference_nodes.len() as int,
            overlay_config(),
        ),
{
    assert(overlay_text(g) =~= comment_text(lines_from(overlay_header(), 0)) + seq!['\n']
        + ref_nodes_text(
        g.overlay.reference_nodes,
        g.overlay.reference_nodes.len() as int,
        overlay_config(),
    ));
}

// -------------------------------------------------------------------------
// Lemmas on visible lines
// -------------------------------------------------------------------------

pub proof fn lemma_lines_before_mono(rns: Seq<RefNodeV>, exp: Set<int>, a: int, b: int)
    requires
        a <= b,
    ensures
        lines_before(rns, exp, a) <= lines_before(rns, exp, b),
    decreases b - a,
{
    if a < b {
        lemma_lines_before_mono(rns, exp, a, b - 1);
    }
}

/// A visible line before the end of the list belongs to some reference
/// node; a line past it to none.
pub proof fn lemma_locate_some(rns: Seq<RefNodeV>, exp: Set<int>, line: int, k: int)
    requires
        0 <= k <= rns.len(),
        lines_before(rns, exp, k) <= line,
    ensures
        locate(rns, exp, line, k) is Some <==> line < lines_before(rns, exp, rns.len() as int),
        locate(rns, exp, line, k) matches Some(p) ==> k <= p.0 < rns.len() && 0 <= p.1
            < node_lines(rns[p.0], exp.contains(p.0)),
    decreases rns.len() - k,
{
    if k < rns.len() {
        let b = lines_before(rns, exp, k);
        if line < b + node_lines(rns[k], exp.contains(k)) {
            lemma_lines_before_mono(rns, exp, k + 1, rns.len() as int);
        } else {
            lemma_locate_some(rns, exp, line, k + 1);
        }
    }
}

/// Removing a reference node (and shifting the expanded indices above it)
/// takes away exactly that node's lines.
pub proof fn lemma_lines_after_remove(rns: Seq<RefNodeV>, exp: Set<int>, ni: int, k: int)
    requires
        0 <= ni < rns.len(),
        0 <= k <= rns.len() - 1,
    ensures
        k <= ni ==> lines_before(rns.remove(ni), shift_down(exp, ni), k) == lines_before(
            rns,
            exp,
            k,
        ),
        k >= ni ==> lines_before(rns.remove(ni), shift_down(exp, ni), k) + node_lines(
            rns[ni],
            exp.contains(ni),
        ) == lines_before(rns, exp, k + 1),
    decreases k,
{
    let rns2 = rns.remove(ni);
    let exp2 = shift_down(exp, ni);
    assert(lines_before(rns, exp, k + 1) == lines_before(rns, exp, k) + node_lines(
        rns[k],
        exp.contains(k),
    ));
    if k > 0 {
        lemma_lines_after_remove(rns, exp, ni, k - 1);
        assert(lines_before(rns2, exp2, k) == lines_before(rns2, exp2, k - 1) + node_lines(
            rns2[k - 1],
            exp2.contains(k - 1),
        ));
        if k - 1 < ni {
            assert(rns2[k - 1] == rns[k - 1]);
            assert(exp2.contains(k - 1) == exp.contains(k - 1));
        } else {
            assert(rns2[k - 1] == rns[k]);
            assert(exp2.contains(k - 1) == exp.contains(k));
        }
    } else {
        assert(lines_before(rns2, exp2, 0) == 0);
        assert(lines_before(rns, exp, 0) == 0);
    }
}

/// Lines are never added by making nodes smaller.
pub proof fn lemma_lines_le(rns: Seq<RefNodeV>, rns2: Seq<RefNodeV>, exp: Set<int>, k: int)
    requires
        rns.len() == rns2.len(),
        0 <= k <= rns.len(),
        forall|i: int|
            0 <= i < rns.len() ==> #[trigger] rns2[i].node.properties.len()
                + rns2[i].node.children.len() <= rns[i].node.properties.len()
                + rns[i].node.children.len(),
    ensures
        lines_before(rns2, exp, k) <= lines_before(rns, exp, k),
    decreases k,
{
    if k > 0 {
        lemma_lines_le(rns, rns2, exp, k - 1);
        assert(rns2[k - 1].node.properties.len() + rns2[k - 1].node.children.len()
            <= rns[k - 1].node.properties.len() + rns[k - 1].node.children.len());
    }
}

pub proof fn lemma_fit_after_remove(g: GenV, ni: int)
    requires
        lines_fit(g),
        0 <= ni < g.overlay.reference_nodes.len(),
    ensures
        lines_before(
            g.overlay.reference_nodes.remove(ni),
            shift_down(g.expanded, ni),
            g.overlay.reference_nodes.len() - 1,
        ) < usize::MAX,
{
    lemma_lines_after_remove(
        g.overlay.reference_nodes,
        g.expanded,
        ni,
        g.overlay.reference_nodes.len() - 1,
    );
}

pub proof fn lemma_fit_after_node_shrink(g: GenV, h: GenV, ni: int)
    requires
        lines_fit(g),
        h.expanded == g.expanded,
        h.overlay.reference_nodes.len() == g.overlay.reference_nodes.len(),
        0 <= ni < g.overlay.reference_nodes.len(),
        forall|i: int|
            0 <= i < g.overlay.reference_nodes.len() && i != ni ==> h.overlay.reference_nodes[i]
                == g.overlay.reference_nodes[i],
        h.overlay.reference_nodes[ni].node.properties.len()
            + h.overlay.reference_nodes[ni].node.children.len()
            <= g.overlay.reference_nodes[ni].node.properties.len()
            + g.overlay.reference_nodes[ni].node.children.len(),
    ensures
        lines_fit(h),
{
    let rns = g.overlay.reference_nodes;
    let rns2 = h.overlay.reference_nodes;
    assert forall|i: int| 0 <= i < rns.len() implies #[trigger] rns2[i].node.properties.len()
        + rns2[i].node.children.len() <= rns[i].node.properties.len()
        + rns[i].node.children.len() by {
        if i != ni {
            assert(rns2[i] == rns[i]);
        }
    }
    lemma_lines_le(rns, rns2, g.expanded, rns.len() as int);
}

/// The state after the reference node under the cursor is expanded or
/// collapsed, at the editing step.
pub open spec fn toggled_v(g: GenV) -> GenV {
    if g.step != GeneratorStep::EditNodes {
        g
    } else {
        match line_info(g, g.selected_node as int) {
            Some(p) => GenV {
                expanded: if g.expanded.contains(p.0) {
                    g.expanded.remove(p.0)
                } else {
                    g.expanded.insert(p.0)
                },
                ..g
            },
            None => g,
        }
    }
}

/// The state with the panel shown or hidden.
pub open spec fn collapse_toggled_v(g: GenV) -> GenV {
    GenV { collapsed: !g.collapsed, ..g }
}

/// The state with `c` typed.
pub open spec fn pushed_v(g: GenV, c: char) -> GenV {
    GenV { input_buffer: g.input_buffer.push(c), ..g }
}

/// The state with the last typed character, if any, deleted.
pub open spec fn popped_v(g: GenV) -> GenV {
    GenV {
        input_buffer: if g.input_buffer.len() > 0 {
            g.input_buffer.drop_last()
        } else {
            g.input_buffer
        },
        ..g
    }
}

/// The file browser's cursor one entry up, unless a name is being typed.
pub open spec fn save_up_v(g: GenV) -> GenV {
    if g.save_input_active {
        g
    } else {
        GenV {
            save_selected: if g.save_selected > 0 {
                (g.save_selected - 1) as usize
            } else {
                0
            },
            ..g
        }
    }
}

/// The file browser's cursor one entry down when an entry follows, unless
/// a name is being typed.
pub open spec fn save_down_v(g: GenV) -> GenV {
    if g.save_input_active {
        g
    } else if g.save_selected + 1 < g.save_entries.len() {
        GenV { save_selected: (g.save_selected + 1) as usize, ..g }
    } else {
        g
    }
}

/// The parent directory of a path, as `std::path::Path::parent` gives it.
pub uninterp spec fn path_parent_of(p: Seq<char>) -> Option<Seq<char>>;

/// The path that Enter in the file browser looks at: the typed name, when
/// a non-empty one is being typed, else the entry under the cursor.
pub open spec fn save_enter_target_v(g: GenV) -> Option<Seq<char>> {
    if g.save_input_active {
        if g.save_input.len() > 0 {
            Some(path_join(g.save_dir, g.save_input))
        } else {
            None
        }
    } else if g.save_selected < g.save_entries.len() {
        Some(path_join(g.save_dir, g.save_entries[g.save_selected as int]))
    } else {
        None
    }
}

/// Enter in the file browser, given whether its target exists and whether
/// it is a directory: a typed name is taken as the file to save to (asking
/// first when it exists), a directory under the cursor is entered (its
/// path is given back, to be listed), and a file under the cursor becomes
/// the file to save to.
pub open spec fn save_enter_v(g: GenV, exists: bool, is_dir: bool) -> (GenV, Option<Seq<char>>) {
    if g.save_input_active {
        if g.save_input.len() == 0 {
            (g, None)
        } else {
            let h = save_target_v(GenV { save_input: Seq::empty(), ..g }, g.save_input, exists);
            (if h.confirm_overwrite {
                h
            } else {
                GenV { save_input_active: false, ..h }
            }, None)
        }
    } else if g.save_selected < g.save_entries.len() {
        let path = path_join(g.save_dir, g.save_entries[g.save_selected as int]);
        if is_dir {
            (GenV { save_dir: path, save_selected: 0, save_scroll: 0, ..g }, Some(path))
        } else {
            (GenV { save_path: Some(path), ..g }, None)
        }
    } else {
        (g, None)
    }
}

/// Going up one directory in the file browser, where the directory has a
/// parent (given back, to be listed).
pub open spec fn save_back_v(g: GenV) -> (GenV, Option<Seq<char>>) {
    match path_parent_of(g.save_dir) {
        Some(p) => (GenV { save_dir: p, save_selected: 0, save_scroll: 0, ..g }, Some(p)),
        None => (g, None),
    }
}

/// Overwriting the existing file whose name was typed: it becomes the file
/// to save to, and the name is no longer being typed.
pub open spec fn accept_overwrite_v(g: GenV) -> GenV {
    GenV {
        save_path: Some(path_join(g.save_dir, g.save_input)),
        confirm_overwrite: false,
        save_input_active: false,
        save_input: Seq::empty(),
        ..g
    }
}

/// A typed file name with one more character.
pub open spec fn save_typed_v(g: GenV, c: char) -> GenV {
    GenV { save_input: g.save_input.push(c), ..g }
}

/// A typed file name without its last character, if any.
pub open spec fn save_erased_v(g: GenV) -> GenV {
    GenV {
        save_input: if g.save_input.len() > 0 {
            g.save_input.drop_last()
        } else {
            g.save_input
        },
        ..g
    }
}

/// A tree whose nodes have the views of a tree of bounded depth is of
/// bounded depth too.
pub proof fn lemma_depth_of_copy(a: &DeviceTree, b: &DeviceTree)
    requires
        tree_depth_ok(a),
        a@.root == b@.root,
        a@.reference_nodes == b@.reference_nodes,
    ensures
        tree_depth_ok(b),
{
    match b.root {
        Some(rb) => {
            let ra = a.root->0;
            lemma_height_of_view(ra, rb);
        },
        None => {},
    }
    assert forall|k: int| 0 <= k < b.reference_nodes@.len() implies node_height(
        #[trigger] b.reference_nodes@[k].node,
    ) < usize::MAX by {
        assert(a@.reference_nodes.len() == a.reference_nodes@.len());
        assert(b@.reference_nodes.len() == b.reference_nodes@.len());
        assert(a@.reference_nodes[k] == a.reference_nodes@[k]@);
        assert(b@.reference_nodes[k] == b.reference_nodes@[k]@);
        lemma_height_of_view(a.reference_nodes@[k].node, b.reference_nodes@[k].node);
    }
}

// -------------------------------------------------------------------------
// Small helpers
// -------------------------------------------------------------------------

/// Calls `std::path::Path::exists` on the path.  Whether a file exists
/// depends on the disk at the time of the call, so nothing is claimed of
/// the result.
#[verifier::external_body]
fn path_exists(path: &str) -> (r: bool) {
    std::path::Path::new(path).exists()
}

/// Calls `std::path::Path::is_dir` on the path.  Whether a directory is
/// there depends on the disk at the time of the call, so nothing is
/// claimed of the result.
#[verifier::external_body]
fn path_is_dir(path: &str) -> (r: bool) {
    std::path::Path::new(path).is_dir()
}

/// Calls `std::path::Path::parent` on the path and gives back the parent
/// as text (a path made from text has a parent made of text).  The result
/// depends on the path alone and is named `path_parent_of`; the empty path
/// has no parent, as the documentation of `parent` says.
#[verifier::external_body]
fn path_parent(path: &str) -> (r: Option<String>)
    ensures
        opt_text(r) == path_parent_of(path@),
        path@.len() == 0 ==> r is None,
{
    match std::path::Path::new(path).parent() {
        Some(q) => Some(q.to_string_lossy().into_owned()),
        None => None,
    }
}

/// A fresh empty string.
fn empty_string() -> (r: String)
    ensures
        r@ == Seq::<char>::empty(),
{
    String::new()
}

impl GeneratorState {
    /// The generator at its first step, with a fresh overlay.
    pub fn new() -> (g: GeneratorState)
        ensures
            g@ == initial_v(),
    {
        let mut tree = DeviceTree::new();
        tree.version = Some(DtsVersion::V1);
        tree.is_plugin = true;
        proof {
            reveal_strlit(".");
        }
        let g = GeneratorState {
            collapsed: false,
            step: GeneratorStep::SelectBoard,
            selected_board: None,
            overlay_tree: tree,
            resolved_board_tree: None,
            board_resolving: false,
            selected_node: 0,
            node_scroll: 0,
            expanded_nodes: HashSet::new(),
            editing_property: None,
            input_buffer: String::new(),
            input_mode: None,
            save_path: None,
            save_dir: string_of("."),
            save_entries: Vec::new(),
            save_selected: 0,
            save_scroll: 0,
            save_input: String::new(),
            save_input_active: false,
            confirm_overwrite: false,
            save_complete: false,
            board_bindings: Vec::new(),
        };
        assert(g@.expanded =~= Set::<int>::empty());
        assert(g@.bindings =~= Seq::<(String, BindingSummary)>::empty());
        assert(g@.save_entries =~= Seq::<Seq<char>>::empty());
        assert(g@.overlay =~= fresh_overlay());
        assert("."@ =~= seq!['.']);
        g
    }

    /// Shows or hides the generator panel.
    pub fn toggle_collapsed(&mut self)
        ensures
            final(self)@ == collapse_toggled_v(old(self)@),
    {
        self.collapsed = !self.collapsed;
    }

    /// Starts a fresh overlay for the same board, at the editing step.
    pub fn reset_overlay(&mut self)
        ensures
            final(self)@ == (GenV {
                overlay: fresh_overlay(),
                selected_node: 0,
                node_scroll: 0,
                expanded: Set::empty(),
                editing: None,
                input_buffer: Seq::empty(),
                input_mode: None,
                save_path: None,
                save_input: Seq::empty(),
                save_input_active: false,
                confirm_overwrite: false,
                save_complete: false,
                step: GeneratorStep::EditNodes,
                ..old(self)@
            }),
    {
        let mut tree = DeviceTree::new();
        tree.version = Some(DtsVersion::V1);
        tree.is_plugin = true;
        self.overlay_tree = tree;
        self.selected_node = 0;
        self.node_scroll = 0;
        self.expanded_nodes = HashSet::new();
        self.editing_property = None;
        self.input_buffer = String::new();
        self.input_mode = None;
        self.save_path = None;
        self.save_input = String::new();
        self.save_input_active = false;
        self.confirm_overwrite = false;
        self.save_complete = false;
        self.step = GeneratorStep::EditNodes;
        assert(self@.expanded =~= Set::<int>::empty());
        assert(self@.overlay =~= fresh_overlay());
    }

    /// After a save, goes back to editing the same overlay.
    pub fn continue_editing(&mut self)
        ensures
            final(self)@ == (GenV {
                save_complete: false,
                step: GeneratorStep::EditNodes,
                ..old(self)@
            }),
    {
        self.save_complete = false;
        self.step = GeneratorStep::EditNodes;
    }

    /// Starts the save browser on a directory, with the entries listed
    /// there: the cursor goes to the top and no name is being typed.
    pub fn init_save_browser(&mut self, dir: String, entries: Vec<String>)
        ensures
            final(self)@ == (GenV {
                save_dir: dir@,
                save_entries: entries@.map_values(|s: String| s@),
                save_selected: 0,
                save_scroll: 0,
                save_input: Seq::empty(),
                save_input_active: false,
                confirm_overwrite: false,
                ..old(self)@
            }),
    {
        self.save_dir = dir;
        self.save_entries = entries;
        self.save_selected = 0;
        self.save_scroll = 0;
        self.save_input = String::new();
        self.save_input_active = false;
        self.confirm_overwrite = false;
    }

    /// Whether the count of visible lines of the node list fits in a
    /// machine word (see `lines_fit`).
    pub fn lines_fit_now(&self) -> (r: bool)
        ensures
            r == lines_fit(self@),
    {
        let ghost rns = self@.overlay.reference_nodes;
        let ghost exp = self@.expanded;
        let mut count: usize = 0;
        let mut idx: usize = 0;
        while idx < self.overlay_tree.reference_nodes.len()
            invariant
                idx <= self.overlay_tree.reference_nodes.len() == rns.len(),
                rns == self@.overlay.reference_nodes,
                exp == self@.expanded,
                count == lines_before(rns, exp, idx as int),
                count < usize::MAX,
            decreases self.overlay_tree.reference_nodes.len() - idx,
        {
            let rn = &self.overlay_tree.reference_nodes[idx];
            assert(rns[idx as int] == rn@);
            let mut add: u128 = 1;
            if self.is_expanded(idx) {
                add = add + (rn.node.properties.len() as u128) + (rn.node.children.len() as u128);
            }
            if (count as u128) + add >= (usize::MAX as u128) {
                proof {
                    lemma_lines_before_mono(rns, exp, idx + 1, rns.len() as int);
                }
                return false;
            }
            count = ((count as u128) + add) as usize;
            idx = idx + 1;
        }
        true
    }

    /// Follows the board chosen in the browser.  When it differs from the
    /// generator's board, the board is taken over and what was resolved for
    /// the old one, and its bindings, are dropped.
    pub fn sync_board(&mut self, board_name: Option<&str>)
        ensures
            old(self)@.selected_board != match board_name {
                Some(b) => Some(b@),
                None => None::<Seq<char>>,
            } ==> final(self)@ == (GenV {
                selected_board: match board_name {
                    Some(b) => Some(b@),
                    None => None,
                },
                resolved_board: None,
                board_resolving: false,
                bindings: Seq::empty(),
                ..old(self)@
            }),
            old(self)@.selected_board == match board_name {
                Some(b) => Some(b@),
                None => None::<Seq<char>>,
            } ==> final(self)@ == old(self)@,
    {
        let same = match (&self.selected_board, board_name) {
            (Some(a), Some(b)) => crate::text::str_eq(a.as_str(), b),
            (None, None) => true,
            _ => false,
        };
        if !same {
            self.selected_board = match board_name {
                Some(b) => Some(string_of(b)),
                None => None,
            };
            self.resolved_board_tree = None;
            self.board_bindings = Vec::new();
            self.board_resolving = false;
            assert(self@.bindings =~= Seq::<(String, BindingSummary)>::empty());
        }
    }

    /// Takes the bindings of the board, each under its compatible string.
    pub fn set_bindings(&mut self, bindings: Vec<(String, BindingSummary)>)
        requires
            keys_distinct(bindings@),
        ensures
            final(self)@ == (GenV { bindings: bindings@, ..old(self)@ }),
    {
        self.board_bindings = bindings;
    }

    /// The binding of the board for a node: the one under the node's
    /// compatible string.
    pub fn get_binding_for_node(&self, node: &Node) -> (r: Option<&BindingSummary>)
        ensures
            match node_compatible(node@) {
                Some(c) => match binding_place(self@.bindings, c, 0) {
                    Some(k) => r == Some(&self@.bindings[k].1),
                    None => r is None,
                },
                None => r is None,
            },
    {
        proof {
            reveal_strlit("compatible");
        }
        let prop = match node.property("compatible") {
            Some(p) => p,
            None => {
                return None;
            },
        };
        proof {
            crate::model::lemma_first_prop_from(props_v(node.properties@), "compatible"@, 0);
            let k = first_prop(props_v(node.properties@), "compatible"@)->Some_0;
            assert(node@.properties == props_v(node.properties@));
            assert(props_v(node.properties@)[k] == node.properties@[k]@);
        }
        let compat = match prop.as_string() {
            Some(c) => c,
            None => {
                return None;
            },
        };
        assert(node_compatible(node@) == Some(compat@));
        let mut k: usize = 0;
        while k < self.board_bindings.len()
            invariant
                k <= self.board_bindings.len(),
                node_compatible(node@) == Some(compat@),
                binding_place(self@.bindings, compat@, 0) == binding_place(
                    self@.bindings,
                    compat@,
                    k as int,
                ),
            decreases self.board_bindings.len() - k,
        {
            if crate::text::str_eq(self.board_bindings[k].0.as_str(), compat) {
                assert(binding_place(self@.bindings, compat@, k as int) == Some(k as int));
                return Some(&self.board_bindings[k].1);
            }
            k = k + 1;
        }
        None
    }

    /// Takes the resolved tree of the board.
    pub fn set_resolved_tree(&mut self, tree: DeviceTree)
        ensures
            final(self)@ == (GenV {
                resolved_board: Some(tree@),
                board_resolving: false,
                ..old(self)@
            }),
    {
        self.resolved_board_tree = Some(tree);
        self.board_resolving = false;
    }

    /// Moves on to the next step; the last step stays.
    pub fn next_step(&mut self)
        ensures
            final(self)@ == (GenV { step: step_after(old(self)@.step), ..old(self)@ }),
    {
        self.step = match self.step {
            GeneratorStep::SelectBoard => GeneratorStep::EditNodes,
            GeneratorStep::EditNodes => GeneratorStep::SaveFile,
            GeneratorStep::SaveFile => GeneratorStep::SaveFile,
        };
    }

    /// Goes back to the previous step; the first step stays.
    pub fn prev_step(&mut self)
        ensures
            final(self)@ == (GenV { step: step_before(old(self)@.step), ..old(self)@ }),
    {
        self.step = match self.step {
            GeneratorStep::SelectBoard => GeneratorStep::SelectBoard,
            GeneratorStep::EditNodes => GeneratorStep::SelectBoard,
            GeneratorStep::SaveFile => GeneratorStep::EditNodes,
        };
    }

    /// The reference that typed text stands for.
    fn parse_reference(input: &str) -> (r: Reference)
        ensures
            r@ == reference_of(input@),
    {
        let v = to_chars(input);
        if v.len() > 0 && v[0] == '/' {
            Reference::Path(string_of(input))
        } else if v.len() > 0 && v[0] == '&' {
            let label = crate::text::substring(&v, 1, v.len());
            assert(v@.subrange(1, v@.len() as int) =~= input@.drop_first());
            Reference::Label(label)
        } else {
            Reference::Label(string_of(input))
        }
    }

    /// Adds a reference node for `reference`, holding `status = "okay"`.
    fn push_reference_node(&mut self, reference: Reference)
        ensures
            final(self)@ == with_reference(old(self)@, reference@),
    {
        let mut node = Node::new("");
        node.properties.push(Property::new_string("status", "okay"));
        proof {
            reveal_strlit("");
            reveal_strlit("status");
            reveal_strlit("okay");
            assert(""@ =~= Seq::<char>::empty());
            assert(node@ =~= okay_node()) by {
                assert(node@.properties =~= okay_node().properties);
            }
        }
        let ghost before = self.overlay_tree.reference_nodes@;
        let ghost r = reference@;
        self.overlay_tree.reference_nodes.push(ReferenceNode { reference, node });
        assert(self.overlay_tree@.reference_nodes =~= old(self)@.overlay.reference_nodes.push(
            RefNodeV { reference: r, node: okay_node() },
        ));
    }

    /// The number of reference nodes in the overlay.
    pub fn overlay_node_count(&self) -> (n: usize)
        ensures
            n == self@.overlay.reference_nodes.len(),
    {
        self.overlay_tree.reference_nodes.len()
    }

    /// Adds a reference node for a node of the board: by its first label
    /// when it has labels, else by `reference`.
    pub fn add_node_from_reference(&mut self, reference: Reference, labels: &[String])
        ensures
            final(self)@ == with_reference(
                old(self)@,
                if labels@.len() > 0 {
                    RefV::Label(labels@[0]@)
                } else {
                    reference@
                },
            ),
    {
        let chosen = if labels.len() > 0 {
            Reference::Label(string_of(labels[0].as_str()))
        } else {
            reference
        };
        self.push_reference_node(chosen);
    }

    /// Whether reference node `idx` is expanded.
    pub fn is_expanded(&self, idx: usize) -> (r: bool)
        ensures
            r == self@.expanded.contains(idx as int),
    {
        broadcast use vstd::std_specs::hash::group_hash_axioms;

        self.expanded_nodes.contains(&idx)
    }

    /// The number of visible lines of the node list.
    fn edit_visible_line_count(&self) -> (n: usize)
        requires
            lines_fit(self@),
        ensures
            n == total_lines(self@),
    {
        let ghost rns = self@.overlay.reference_nodes;
        let ghost exp = self@.expanded;
        let mut count: usize = 0;
        let mut idx: usize = 0;
        while idx < self.overlay_tree.reference_nodes.len()
            invariant
                idx <= self.overlay_tree.reference_nodes.len() == rns.len(),
                rns == self@.overlay.reference_nodes,
                exp == self@.expanded,
                lines_fit(self@),
                count == lines_before(rns, exp, idx as int),
            decreases self.overlay_tree.reference_nodes.len() - idx,
        {
            proof {
                lemma_lines_before_mono(rns, exp, idx + 1, rns.len() as int);
            }
            let rn = &self.overlay_tree.reference_nodes[idx];
            assert(rns[idx as int] == rn@);
            count = count + 1;
            if self.is_expanded(idx) {
                count = count + rn.node.properties.len();
                count = count + rn.node.children.len();
            }
            idx = idx + 1;
        }
        count
    }

    /// Every visible line of the node list, in order: the reference node it
    /// belongs to and its place there (0 for the header, then the
    /// properties, then the children).
    pub fn visible_lines(&self) -> (r: Vec<(usize, usize)>)
        requires
            lines_fit(self@),
        ensures
            r@.len() == total_lines(self@),
            forall|x: int|
                0 <= x < r@.len() ==> line_info(self@, x) == Some(
                    ((#[trigger] r@[x]).0 as int, r@[x].1 as int),
                ),
    {
        let ghost rns = self@.overlay.reference_nodes;
        let ghost exp = self@.expanded;
        let n = self.overlay_tree.reference_nodes.len();
        let mut out: Vec<(usize, usize)> = Vec::new();
        let mut idx: usize = 0;
        while idx < n
            invariant
                n == rns.len(),
                rns == self@.overlay.reference_nodes,
                exp == self@.expanded,
                idx <= n,
                lines_fit(self@),
                out@.len() == lines_before(rns, exp, idx as int),
                forall|x: int|
                    0 <= x < out@.len() ==> line_info(self@, x) == Some(
                        ((#[trigger] out@[x]).0 as int, out@[x].1 as int),
                    ),
            decreases n - idx,
        {
            proof {
                lemma_lines_before_mono(rns, exp, idx + 1, n as int);
            }
            let rn = &self.overlay_tree.reference_nodes[idx];
            assert(rns[idx as int] == rn@);
            let cnt: usize = if self.is_expanded(idx) {
                1 + rn.node.properties.len() + rn.node.children.len()
            } else {
                1
            };
            assert(cnt == node_lines(rns[idx as int], exp.contains(idx as int)));
            let mut sub: usize = 0;
            while sub < cnt
                invariant
                    n == rns.len(),
                    rns == self@.overlay.reference_nodes,
                    exp == self@.expanded,
                    idx < n,
                    sub <= cnt,
                    cnt == node_lines(rns[idx as int], exp.contains(idx as int)),
                    out@.len() == lines_before(rns, exp, idx as int) + sub,
                    forall|x: int|
                        0 <= x < out@.len() ==> line_info(self@, x) == Some(
                            ((#[trigger] out@[x]).0 as int, out@[x].1 as int),
                        ),
                decreases cnt - sub,
            {
                proof {
                    lemma_locate_line(rns, exp, idx as int, sub as int, 0);
                }
                out.push((idx, sub));
                sub = sub + 1;
            }
            idx = idx + 1;
        }
        out
    }

    /// The reference node that visible line `line` belongs to, and the
    /// line's place in it: 0 for the node's header, 1 to n for its n
    /// properties, then its children.
    pub fn line_to_node_info(&self, line: usize) -> (r: Option<(usize, usize)>)
        ensures
            opt_pair(r) == line_info(self@, line as int),
    {
        let ghost rns = self@.overlay.reference_nodes;
        let ghost exp = self@.expanded;
        let mut cursor: usize = 0;
        let mut idx: usize = 0;
        while idx < self.overlay_tree.reference_nodes.len()
            invariant
                idx <= self.overlay_tree.reference_nodes.len() == rns.len(),
                rns == self@.overlay.reference_nodes,
                exp == self@.expanded,
                cursor == lines_before(rns, exp, idx as int),
                cursor <= line,
                locate(rns, exp, line as int, 0) == locate(rns, exp, line as int, idx as int),
            decreases self.overlay_tree.reference_nodes.len() - idx,
        {
            let rn = &self.overlay_tree.reference_nodes[idx];
            assert(rns[idx as int] == rn@);
            if cursor == line {
                return Some((idx, 0));
            }
            cursor = cursor + 1;
            if self.is_expanded(idx) {
                let pc = rn.node.properties.len();
                let cc = rn.node.children.len();
                let off = line - cursor;
                if off < pc || off - pc < cc {
                    return Some((idx, off + 1));
                }
                cursor = cursor + pc;
                cursor = cursor + cc;
            }
            idx = idx + 1;
        }
        None
    }

    /// Moves the cursor one line up, at the editing step; in the file
    /// browser, one entry up.
    pub fn move_up(&mut self)
        ensures
            final(self)@ == match old(self)@.step {
                GeneratorStep::SelectBoard => old(self)@,
                GeneratorStep::EditNodes => GenV {
                    selected_node: if old(self)@.selected_node > 0 {
                        (old(self)@.selected_node - 1) as usize
                    } else {
                        0
                    },
                    ..old(self)@
                },
                GeneratorStep::SaveFile => save_up_v(old(self)@),
            },
    {
        match self.step {
            GeneratorStep::SelectBoard => {},
            GeneratorStep::EditNodes => {
                if self.selected_node > 0 {
                    self.selected_node = self.selected_node - 1;
                }
            },
            GeneratorStep::SaveFile => {
                self.save_move_up();
            },
        }
    }

    /// Moves the cursor one line down when a line follows, at the editing
    /// step; in the file browser, one entry down.
    pub fn move_down(&mut self)
        requires
            lines_fit(old(self)@),
        ensures
            final(self)@ == match old(self)@.step {
                GeneratorStep::SelectBoard => old(self)@,
                GeneratorStep::EditNodes => GenV {
                    selected_node: if old(self)@.selected_node + 1 < total_lines(old(self)@) {
                        (old(self)@.selected_node + 1) as usize
                    } else {
                        old(self)@.selected_node
                    },
                    ..old(self)@
                },
                GeneratorStep::SaveFile => save_down_v(old(self)@),
            },
    {
        match self.step {
            GeneratorStep::SelectBoard => {},
            GeneratorStep::EditNodes => {
                let count = self.edit_visible_line_count();
                if count > 0 && self.selected_node < count - 1 {
                    self.selected_node = self.selected_node + 1;
                }
            },
            GeneratorStep::SaveFile => {
                self.save_move_down();
            },
        }
    }

    /// Adds `idx` to the expanded nodes.
    fn expand(&mut self, idx: usize)
        ensures
            final(self)@ == (GenV { expanded: old(self)@.expanded.insert(idx as int), ..old(self)@ }),
    {
        broadcast use vstd::std_specs::hash::group_hash_axioms;

        let ghost before = self.expanded_nodes@;
        self.expanded_nodes.insert(idx);
        assert(index_set(self.expanded_nodes@) =~= index_set(before).insert(idx as int));
    }

    /// Keeps the expanded nodes that are not `drop`, those above it moved
    /// down by one when `shift` holds.
    fn drop_expanded(&mut self, drop: usize, shift: bool)
        ensures
            !shift ==> final(self)@ == (GenV {
                expanded: old(self)@.expanded.remove(drop as int),
                ..old(self)@
            }),
            shift ==> final(self)@ == (GenV {
                expanded: shift_down(old(self)@.expanded, drop as int),
                ..old(self)@
            }),
    {
        broadcast use vstd::std_specs::hash::group_hash_axioms;

        let ghost v = self.expanded_nodes@;
        if !shift {
            self.expanded_nodes.remove(&drop);
            assert(index_set(self.expanded_nodes@) =~= index_set(v).remove(drop as int));
            return;
        }
        let ghost target = shift_down(index_set(v), drop as int);
        let mut kept: HashSet<usize> = HashSet::new();
        let ghost mut seen: Set<usize> = Set::empty();
        assert(vstd::std_specs::hash::spec_hash_keys_iter(&self.expanded_nodes).remaining().unref()
            .to_set() == v);
        for x in it: self.expanded_nodes.iter()
            invariant
                v == self.expanded_nodes@,
                target == shift_down(index_set(v), drop as int),
                it.seq().unref().to_set() == v,
                seen.subset_of(v),
                forall|j: int| 0 <= j < it.index() ==> #[trigger] seen.contains(*it.seq()[j]),
                it.index() == it.seq().len() ==> v.subset_of(seen),
                forall|y: usize| #[trigger] kept@.contains(y) ==> target.contains(y as int),
                forall|w: usize|
                    #[trigger] seen.contains(w) && w != drop ==> kept@.contains(
                        moved(w, drop, true) as usize,
                    ),
        {
            let ghost old_seen = seen;
            assert(it.seq().unref()[it.index()] == *x);
            assert(v.contains(*x)) by {
                assert(it.seq().unref().contains(*x));
            }
            if *x != drop {
                let y = if *x > drop {
                    *x - 1
                } else {
                    *x
                };
                kept.insert(y);
                assert(target.contains(y as int)) by {
                    if *x > drop {
                        assert((y + 1) as usize == *x);
                    }
                }
            }
            proof {
                seen = seen.insert(*x);
            }
            assert(it.index() + 1 == it.seq().len() ==> v.subset_of(seen)) by {
                if it.index() + 1 == it.seq().len() {
                    assert forall|w: usize| v.contains(w) implies seen.contains(w) by {
                        let m = it.seq().unref();
                        assert(m.to_set().contains(w));
                        assert(m.contains(w));
                        let j = choose|j: int| 0 <= j < m.len() && m[j] == w;
                        if j < it.index() {
                            assert(old_seen.contains(*it.seq()[j]));
                        }
                    }
                }
            }
        }
        assert(index_set(kept@) =~= target) by {
            assert forall|i: int| #[trigger] target.contains(i) implies index_set(kept@).contains(
                i,
            ) by {
                let w: usize = if i < drop {
                    i as usize
                } else {
                    (i + 1) as usize
                };
                assert(v.contains(w));
                assert(seen.contains(w));
            }
        }
        self.expanded_nodes = kept;
    }

    /// Expands or collapses the reference node under the cursor, at the
    /// editing step.
    pub fn toggle_expand(&mut self)
        ensures
            final(self)@ == toggled_v(old(self)@),
    {
        if self.step != GeneratorStep::EditNodes {
            return;
        }
        match self.line_to_node_info(self.selected_node) {
            Some(p) => {
                let (node_idx, _sub) = p;
                if self.is_expanded(node_idx) {
                    self.drop_expanded(node_idx, false);
                } else {
                    self.expand(node_idx);
                }
            },
            None => {},
        }
    }

    /// Replaces the node of reference node `ni` with `node`.
    fn put_node(&mut self, ni: usize, node: Node)
        requires
            ni < old(self)@.overlay.reference_nodes.len(),
        ensures
            final(self)@ == (GenV {
                overlay: TreeV {
                    reference_nodes: with_node(
                        old(self)@.overlay.reference_nodes,
                        ni as int,
                        node@,
                    ),
                    ..old(self)@.overlay
                },
                ..old(self)@
            }),
    {
        let ghost before = self.overlay_tree.reference_nodes@;
        let mut rn = self.overlay_tree.reference_nodes.remove(ni);
        rn.node = node;
        self.overlay_tree.reference_nodes.insert(ni, rn);
        assert(self.overlay_tree@.reference_nodes =~= with_node(
            old(self)@.overlay.reference_nodes,
            ni as int,
            node@,
        ));
    }

    /// Takes the node of reference node `ni` out, leaving an empty node.
    fn take_node(&mut self, ni: usize) -> (n: Node)
        requires
            ni < old(self)@.overlay.reference_nodes.len(),
        ensures
            n@ == old(self)@.overlay.reference_nodes[ni as int].node,
            final(self).overlay_tree.reference_nodes@.len() == old(self).overlay_tree.reference_nodes@.len(),
            forall|i: int|
                0 <= i < old(self)@.overlay.reference_nodes.len() && i != ni ==> final(self)@.overlay.reference_nodes[i] == old(self)@.overlay.reference_nodes[i],
            final(self)@.overlay.reference_nodes[ni as int].reference == old(self)@.overlay.reference_nodes[ni as int].reference,
            final(self)@ == (GenV {
                overlay: TreeV {
                    reference_nodes: final(self)@.overlay.reference_nodes,
                    ..old(self)@.overlay
                },
                ..old(self)@
            }),
    {
        let mut rn = self.overlay_tree.reference_nodes.remove(ni);
        let n = rn.node;
        rn.node = Node::new("");
        self.overlay_tree.reference_nodes.insert(ni, rn);
        n
    }

    /// Deletes reference node `ni`; the expanded indices above it move
    /// down and the cursor stays within the list.
    fn delete_entry(&mut self, ni: usize)
        requires
            lines_fit(old(self)@),
            ni < old(self)@.overlay.reference_nodes.len(),
        ensures
            final(self)@ == delete_entry_v(old(self)@, ni as int),
    {
        let ghost g = self@;
        let _removed = self.overlay_tree.reference_nodes.remove(ni);
        assert(self.overlay_tree@.reference_nodes =~= g.overlay.reference_nodes.remove(ni as int));
        self.drop_expanded(ni, true);
        proof {
            lemma_fit_after_remove(g, ni as int);
        }
        let new_count = self.edit_visible_line_count();
        if new_count == 0 {
            self.selected_node = 0;
        } else if self.selected_node >= new_count {
            self.selected_node = new_count - 1;
        }
    }

    /// Deletes the property or child at place `sub` (1 for the first
    /// property) of reference node `ni`; the cursor stays within the list.
    fn delete_member(&mut self, ni: usize, sub: usize)
        requires
            lines_fit(old(self)@),
            ni < old(self)@.overlay.reference_nodes.len(),
            sub >= 1,
        ensures
            final(self)@ == delete_member_v(old(self)@, ni as int, sub as int),
    {
        let ghost g = self@;
        let mut node = self.take_node(ni);
        let ghost n0 = node@;
        let prop_idx = sub - 1;
        if prop_idx < node.properties.len() {
            let _removed = node.properties.remove(prop_idx);
            assert(node@.properties =~= n0.properties.remove(prop_idx as int));
        } else if prop_idx - node.properties.len() < node.children.len() {
            let child_idx = prop_idx - node.properties.len();
            let _removed = node.children.remove(child_idx);
            assert(node@.children =~= n0.children.remove(child_idx as int));
        } else {
            self.put_node(ni, node);
            assert(self@.overlay.reference_nodes =~= g.overlay.reference_nodes);
            return;
        }
        assert(node@ == node_without(n0, sub as int));
        self.put_node(ni, node);
        assert(self@.overlay.reference_nodes =~= with_node(
            g.overlay.reference_nodes,
            ni as int,
            node_without(n0, sub as int),
        ));
        proof {
            lemma_fit_after_node_shrink(g, self@, ni as int);
        }
        let new_count = self.edit_visible_line_count();
        if self.selected_node >= new_count && new_count > 0 {
            self.selected_node = new_count - 1;
        }
    }

    /// Deletes what is on the line under the cursor: the whole reference
    /// node on its header line, else the property or child on that line;
    /// the expanded nodes and the cursor follow.
    pub fn delete_selected_node(&mut self)
        requires
            lines_fit(old(self)@),
        ensures
            final(self)@ == after_delete(old(self)@),
    {
        let ghost g = self@;
        match self.line_to_node_info(self.selected_node) {
            None => {},
            Some(p) => {
                let (node_idx, sub) = p;
                proof {
                    lemma_locate_some(
                        g.overlay.reference_nodes,
                        g.expanded,
                        g.selected_node as int,
                        0,
                    );
                }
                if sub == 0 {
                    self.delete_entry(node_idx);
                } else {
                    self.delete_member(node_idx, sub);
                }
            },
        }
    }

    /// Moves the file browser's cursor one entry up, unless a name is being
    /// typed.
    pub fn save_move_up(&mut self)
        ensures
            final(self)@ == save_up_v(old(self)@),
    {
        if self.save_input_active {
            return;
        }
        if self.save_selected > 0 {
            self.save_selected = self.save_selected - 1;
        }
    }

    /// Moves the file browser's cursor one entry down when one follows,
    /// unless a name is being typed.
    pub fn save_move_down(&mut self)
        ensures
            final(self)@ == save_down_v(old(self)@),
    {
        if self.save_input_active {
            return;
        }
        let count = self.save_entries.len();
        if count > 0 && self.save_selected < count - 1 {
            self.save_selected = self.save_selected + 1;
        }
    }

    /// Starts typing the name of a new file.
    pub fn save_start_new_file(&mut self)
        ensures
            final(self)@ == (GenV {
                save_input_active: true,
                save_input: Seq::empty(),
                ..old(self)@
            }),
    {
        self.save_input_active = true;
        self.save_input = empty_string();
    }

    /// The path that Enter in the file browser looks at (see
    /// `save_enter_target_v`).
    pub fn save_enter_target(&self) -> (r: Option<String>)
        ensures
            opt_text(r) == save_enter_target_v(self@),
    {
        if self.save_input_active {
            if self.save_input.as_str().is_empty() {
                None
            } else {
                Some(join_path(self.save_dir.as_str(), self.save_input.as_str()))
            }
        } else if self.save_selected < self.save_entries.len() {
            Some(join_path(self.save_dir.as_str(), self.save_entries[self.save_selected].as_str()))
        } else {
            None
        }
    }

    /// Enter in the file browser, given whether its target exists and
    /// whether it is a directory; gives back the directory entered, to be
    /// listed.
    pub fn save_enter_with(&mut self, exists: bool, is_dir: bool) -> (browse: Option<String>)
        ensures
            (final(self)@, opt_text(browse)) == save_enter_v(old(self)@, exists, is_dir),
    {
        let ghost g = self@;
        if self.save_input_active {
            if self.save_input.as_str().is_empty() {
                return None;
            }
            let mut name = empty_string();
            std::mem::swap(&mut name, &mut self.save_input);
            self.apply_save_target(name, exists);
            if !self.confirm_overwrite {
                self.save_input_active = false;
            }
            None
        } else if self.save_selected < self.save_entries.len() {
            let path = join_path(
                self.save_dir.as_str(),
                self.save_entries[self.save_selected].as_str(),
            );
            if is_dir {
                let browse = string_of(path.as_str());
                self.save_dir = path;
                self.save_selected = 0;
                self.save_scroll = 0;
                Some(browse)
            } else {
                self.save_path = Some(path);
                None
            }
        } else {
            None
        }
    }

    /// Enter in the file browser, looking on disk whether the target exists
    /// and whether it is a directory; gives back the directory entered, to
    /// be listed.
    pub fn save_enter(&mut self) -> (browse: Option<String>)
        ensures
            exists|e: bool, d: bool|
                (final(self)@, opt_text(browse)) == save_enter_v(old(self)@, e, d),
    {
        let (exists, is_dir) = match self.save_enter_target() {
            Some(p) => (path_exists(p.as_str()), path_is_dir(p.as_str())),
            None => (false, false),
        };
        let browse = self.save_enter_with(exists, is_dir);
        assert((self@, opt_text(browse)) == save_enter_v(old(self)@, exists, is_dir));
        browse
    }

    /// Goes up one directory in the file browser, where the directory has a
    /// parent; gives back that parent, to be listed.
    pub fn save_back(&mut self) -> (browse: Option<String>)
        ensures
            (final(self)@, opt_text(browse)) == save_back_v(old(self)@),
    {
        match path_parent(self.save_dir.as_str()) {
            Some(p) => {
                let browse = string_of(p.as_str());
                self.save_dir = p;
                self.save_selected = 0;
                self.save_scroll = 0;
                Some(browse)
            },
            None => None,
        }
    }

    /// Overwrites the existing file whose name was typed (see
    /// `accept_overwrite_v`).
    pub fn accept_overwrite(&mut self)
        ensures
            final(self)@ == accept_overwrite_v(old(self)@),
    {
        self.save_path = Some(join_path(self.save_dir.as_str(), self.save_input.as_str()));
        self.confirm_overwrite = false;
        self.save_input_active = false;
        self.save_input = empty_string();
    }

    /// Declines to overwrite an existing file; the name can be typed anew.
    pub fn cancel_overwrite(&mut self)
        ensures
            final(self)@ == (GenV { confirm_overwrite: false, ..old(self)@ }),
    {
        self.confirm_overwrite = false;
    }

    /// Types one character of a file name.
    pub fn save_push_char(&mut self, c: char)
        ensures
            final(self)@ == save_typed_v(old(self)@, c),
    {
        self.save_input.push(c);
    }

    /// Deletes the last character of a typed file name, if any.
    pub fn save_pop_char(&mut self)
        ensures
            final(self)@ == save_erased_v(old(self)@),
    {
        let _c = self.save_input.pop();
    }

    /// Stops typing a file name.
    pub fn save_cancel_input(&mut self)
        ensures
            final(self)@ == (GenV { save_input_active: false, save_input: Seq::empty(), ..old(self)@ }),
    {
        self.save_input_active = false;
        self.save_input = empty_string();
    }

    /// Deletes the property being edited, while the reference node under
    /// the cursor is expanded; the edit ends.
    pub fn delete_selected_property(&mut self)
        ensures
            final(self)@ == after_delete_property(old(self)@),
    {
        let count = self.overlay_node_count();
        if count == 0 {
            return;
        }
        let node_idx = if self.selected_node < count - 1 {
            self.selected_node
        } else {
            count - 1
        };
        if !self.is_expanded(node_idx) {
            return;
        }
        match self.editing_property.take() {
            Some(edit) => {
                if edit.node_idx < self.overlay_tree.reference_nodes.len() {
                    let ghost g = old(self)@;
                    let mut node = self.take_node(edit.node_idx);
                    let ghost n0 = node@;
                    if edit.prop_idx < node.properties.len() {
                        let _removed = node.properties.remove(edit.prop_idx);
                        assert(node@.properties =~= n0.properties.remove(edit.prop_idx as int));
                        self.put_node(edit.node_idx, node);
                        assert(self@.overlay.reference_nodes =~= with_node(
                            g.overlay.reference_nodes,
                            edit.node_idx as int,
                            NodeV { properties: n0.properties.remove(edit.prop_idx as int), ..n0 },
                        ));
                    } else {
                        self.put_node(edit.node_idx, node);
                        assert(self@.overlay.reference_nodes =~= g.overlay.reference_nodes);
                    }
                }
            },
            None => {},
        }
    }

    /// Starts typing the reference of a new overlay node.
    pub fn start_new_node(&mut self)
        ensures
            final(self)@ == typing_v(old(self)@, InputMode::NodeReference),
    {
        self.input_mode = Some(InputMode::NodeReference);
        self.input_buffer = empty_string();
    }

    /// Starts adding a property to the reference node under the cursor: its
    /// name is typed first.
    pub fn start_add_property(&mut self)
        ensures
            final(self)@ == start_add_v(old(self)@),
    {
        let ghost g = self@;
        match self.line_to_node_info(self.selected_node) {
            Some(p) => {
                let (node_idx, _sub) = p;
                proof {
                    lemma_locate_some(g.overlay.reference_nodes, g.expanded, g.selected_node as int, 0);
                }
                let prop_idx = self.overlay_tree.reference_nodes[node_idx].node.properties.len();
                self.input_mode = Some(InputMode::PropertyName);
                self.input_buffer = empty_string();
                self.editing_property = Some(
                    PropertyEditState {
                        node_idx,
                        prop_idx,
                        name: empty_string(),
                        value: empty_string(),
                    },
                );
            },
            None => {},
        }
    }

    /// Starts editing the value of the property under the cursor (the first
    /// property of the node when the cursor is on its header line).
    pub fn start_edit_property(&mut self)
        ensures
            final(self)@ == start_edit_v(old(self)@),
    {
        let ghost g = self@;
        match self.line_to_node_info(self.selected_node) {
            Some(p) => {
                let (node_idx, sub) = p;
                proof {
                    lemma_locate_some(g.overlay.reference_nodes, g.expanded, g.selected_node as int, 0);
                }
                let prop_idx = if sub == 0 {
                    0
                } else {
                    sub - 1
                };
                let node = &self.overlay_tree.reference_nodes[node_idx].node;
                if prop_idx < node.properties.len() {
                    let prop = &node.properties[prop_idx];
                    assert(g.overlay.reference_nodes[node_idx as int].node.properties[prop_idx as int] == prop@);
                    let value = match &prop.value {
                        Some(v) => format_property_value(v),
                        None => empty_string(),
                    };
                    let name = string_of(prop.name.as_str());
                    let buffer = value.clone();
                    self.editing_property = Some(
                        PropertyEditState { node_idx, prop_idx, name, value },
                    );
                    self.input_mode = Some(InputMode::PropertyValue);
                    self.input_buffer = buffer;
                }
            },
            None => {},
        }
    }

    /// Starts typing the name of a child for the reference node under the
    /// cursor.
    pub fn start_child_node(&mut self)
        ensures
            final(self)@ == match line_info(old(self)@, old(self)@.selected_node as int) {
                Some(_) => typing_v(old(self)@, InputMode::ChildName),
                None => old(self)@,
            },
    {
        match self.line_to_node_info(self.selected_node) {
            Some(_) => {
                self.input_mode = Some(InputMode::ChildName);
                self.input_buffer = empty_string();
            },
            None => {},
        }
    }

    /// Takes `filename` as the file to save to, given whether a file of that
    /// name exists already in the save directory: then overwriting is to be
    /// confirmed first.
    pub fn apply_save_target(&mut self, filename: String, exists: bool)
        ensures
            final(self)@ == save_target_v(old(self)@, filename@, exists),
    {
        if exists {
            self.confirm_overwrite = true;
            self.save_input = filename;
        } else {
            self.save_path = Some(join_path(self.save_dir.as_str(), filename.as_str()));
        }
    }

    /// Takes `filename` as the file to save to, looking on disk whether it
    /// exists already.
    pub fn check_and_set_save_path(&mut self, filename: String)
        ensures
            final(self)@ == save_target_v(old(self)@, filename@, true) || final(self)@
                == save_target_v(old(self)@, filename@, false),
    {
        let path = join_path(self.save_dir.as_str(), filename.as_str());
        let exists = path_exists(path.as_str());
        self.apply_save_target(filename, exists);
    }

    /// Adds a child named `name` to the reference node under the cursor.
    fn add_child(&mut self, name: &str)
        ensures
            final(self)@ == child_added_v(old(self)@, name@),
    {
        let ghost g = self@;
        match self.line_to_node_info(self.selected_node) {
            Some(p) => {
                let (node_idx, _sub) = p;
                proof {
                    lemma_locate_some(g.overlay.reference_nodes, g.expanded, g.selected_node as int, 0);
                }
                let mut node = self.take_node(node_idx);
                let ghost n0 = node@;
                let child = Node::new(name);
                node.children.push(child);
                assert(node@.children =~= n0.children.push(bare_node_v(name@)));
                assert(node@ == NodeV { children: n0.children.push(bare_node_v(name@)), ..n0 });
                self.put_node(node_idx, node);
                assert(self@.overlay.reference_nodes =~= with_node(
                    g.overlay.reference_nodes,
                    node_idx as int,
                    NodeV { children: n0.children.push(bare_node_v(name@)), ..n0 },
                ));
            },
            None => {},
        }
    }

    /// Sets the property of edit `edit` from the typed `value`.
    fn set_property(&mut self, edit: &PropertyEditState, value: &str)
        ensures
            final(self)@ == property_set_v(old(self)@, edit@, value@),
    {
        let ghost g = self@;
        if edit.node_idx < self.overlay_tree.reference_nodes.len() {
            let mut node = self.take_node(edit.node_idx);
            let ghost n0 = node@;
            let prop = if value.is_empty() {
                Property::new_boolean(edit.name.as_str())
            } else {
                Property::new_string(edit.name.as_str(), value)
            };
            let ghost pv = prop@;
            assert(pv == typed_property(edit.name@, value@));
            if edit.prop_idx < node.properties.len() {
                let _old = node.properties.remove(edit.prop_idx);
                node.properties.insert(edit.prop_idx, prop);
                assert(node@.properties =~= n0.properties.update(edit.prop_idx as int, pv));
            } else {
                node.properties.push(prop);
                assert(node@.properties =~= n0.properties.push(pv));
            }
            let ghost n1 = node@;
            self.put_node(edit.node_idx, node);
            assert(self@.overlay.reference_nodes =~= with_node(
                g.overlay.reference_nodes,
                edit.node_idx as int,
                n1,
            ));
        }
    }

    /// Confirms the typed text, given (for a file name) whether that file
    /// exists already: a reference adds an overlay node, a child name a
    /// child, a property name asks for the value next, a value sets the
    /// property, a file name chooses where to save.
    pub fn confirm_input_with(&mut self, target_exists: bool)
        ensures
            final(self)@ == after_confirm(old(self)@, target_exists),
    {
        let ghost g = self@;
        let mode = match self.input_mode.take() {
            Some(m) => m,
            None => {
                return;
            },
        };
        let mut buf = empty_string();
        std::mem::swap(&mut buf, &mut self.input_buffer);
        assert(buf@ == g.input_buffer);
        match mode {
            InputMode::NodeReference => {
                if !buf.as_str().is_empty() {
                    let reference = Self::parse_reference(buf.as_str());
                    self.push_reference_node(reference);
                }
            },
            InputMode::ChildName => {
                if !buf.as_str().is_empty() {
                    self.add_child(buf.as_str());
                }
            },
            InputMode::PropertyName => {
                if !buf.as_str().is_empty() {
                    self.input_mode = Some(InputMode::PropertyValue);
                    match self.editing_property.take() {
                        Some(e) => {
                            let mut e = e;
                            e.name = buf;
                            self.editing_property = Some(e);
                        },
                        None => {},
                    }
                    self.input_buffer = empty_string();
                    return;
                }
            },
            InputMode::PropertyValue => {
                match self.editing_property.take() {
                    Some(edit) => {
                        self.set_property(&edit, buf.as_str());
                    },
                    None => {},
                }
            },
            InputMode::FileName => {
                if !buf.as_str().is_empty() {
                    self.apply_save_target(buf, target_exists);
                }
            },
        }
    }

    /// Confirms the typed text; for a file name, whether the file exists
    /// already is looked up on disk.
    pub fn confirm_input(&mut self)
        ensures
            old(self)@.input_mode != Some(InputMode::FileName) ==> final(self)@ == after_confirm(
                old(self)@,
                false,
            ),
            final(self)@ == after_confirm(old(self)@, true) || final(self)@ == after_confirm(
                old(self)@,
                false,
            ),
    {
        let exists = match self.input_mode {
            Some(InputMode::FileName) => {
                if self.input_buffer.as_str().is_empty() {
                    false
                } else {
                    let path = join_path(self.save_dir.as_str(), self.input_buffer.as_str());
                    path_exists(path.as_str())
                }
            },
            _ => false,
        };
        self.confirm_input_with(exists);
    }

    /// Stops typing and drops the edit.
    pub fn cancel_input(&mut self)
        ensures
            final(self)@ == (GenV {
                input_mode: None,
                input_buffer: Seq::empty(),
                editing: None,
                ..old(self)@
            }),
    {
        self.input_mode = None;
        self.input_buffer = empty_string();
        self.editing_property = None;
    }

    /// Types one character.
    pub fn push_char(&mut self, c: char)
        ensures
            final(self)@ == pushed_v(old(self)@, c),
    {
        self.input_buffer.push(c);
    }

    /// Deletes the last typed character, if any.
    pub fn pop_char(&mut self)
        ensures
            final(self)@ == popped_v(old(self)@),
    {
        let _c = self.input_buffer.pop();
    }

    /// The text of the overlay as it is saved: the reference nodes under the
    /// header comment, without `/dts-v1/;` and `/plugin/;`.
    pub fn build_overlay_string(&self) -> (r: String)
        requires
            tree_depth_ok(&self.overlay_tree),
        ensures
            r@ == overlay_text(self@),
    {
        proof {
            reveal_strlit("Generated by zdtwalk");
        }
        let mut config = SerializerConfig::default();
        config.output_format = OutputFormat::Dts;
        config.header_comment = Some(string_of("Generated by zdtwalk"));
        config.include_version = false;
        let mut tree = self.overlay_tree.copy();
        tree.is_plugin = false;
        tree.version = None;
        proof {
            lemma_depth_of_copy(&self.overlay_tree, &tree);
        }
        assert(config@ == overlay_config());
        assert(tree@ == (TreeV { is_plugin: false, version: None, ..self@.overlay }));
        serialize(&tree, &config)
    }
}

// -------------------------------------------------------------------------
// Laws
// -------------------------------------------------------------------------

/// Each node has at least its header line.
pub proof fn lemma_lines_at_least(rns: Seq<RefNodeV>, exp: Set<int>, k: int)
    requires
        0 <= k <= rns.len(),
    ensures
        lines_before(rns, exp, k) >= k,
    decreases k,
{
    if k > 0 {
        lemma_lines_at_least(rns, exp, k - 1);
    }
}

/// The lines before node `k` do not depend on whether node `k` or a later
/// one is expanded.
pub proof fn lemma_lines_agree(rns: Seq<RefNodeV>, e1: Set<int>, e2: Set<int>, k: int)
    requires
        forall|i: int| 0 <= i < k ==> e1.contains(i) == e2.contains(i),
    ensures
        lines_before(rns, e1, k) == lines_before(rns, e2, k),
    decreases k,
{
    if k > 0 {
        lemma_lines_agree(rns, e1, e2, k - 1);
        assert(e1.contains(k - 1) == e2.contains(k - 1));
    }
}

/// A line within the lines of node `k` belongs to node `k`.
pub proof fn lemma_locate_at(rns: Seq<RefNodeV>, exp: Set<int>, line: int, j: int, k: int)
    requires
        0 <= j <= k < rns.len(),
        lines_before(rns, exp, k) <= line < lines_before(rns, exp, k) + node_lines(
            rns[k],
            exp.contains(k),
        ),
    ensures
        locate(rns, exp, line, j) == Some((k, line - lines_before(rns, exp, k))),
    decreases k - j,
{
    if j < k {
        lemma_lines_before_mono(rns, exp, j + 1, k);
        lemma_locate_at(rns, exp, line, j + 1, k);
    }
}

/// Leaving the last step and coming back returns to the same step, and so
/// does going back from any step but the first and moving on again.
pub proof fn law_step_round_trip(s: GeneratorStep)
    ensures
        s != GeneratorStep::SaveFile ==> step_before(step_after(s)) == s,
        s != GeneratorStep::SelectBoard ==> step_after(step_before(s)) == s,
{
}

/// Expanding and collapsing a reference node from its header line leaves
/// the generator as it was.
pub proof fn law_toggle_twice_on_header(g: GenV, k: int)
    requires
        line_info(g, g.selected_node as int) == Some((k, 0int)),
    ensures
        toggled_v(toggled_v(g)) == g,
{
    if g.step == GeneratorStep::EditNodes {
        let rns = g.overlay.reference_nodes;
        lemma_locate_some(rns, g.expanded, g.selected_node as int, 0);
        assert(0 <= k < rns.len());
        let lb = lines_before(rns, g.expanded, k);
        assert(g.selected_node as int == lb) by {
            lemma_locate_first(rns, g.expanded, g.selected_node as int, 0, k);
        }
        let g1 = toggled_v(g);
        assert(forall|i: int| 0 <= i < k ==> g.expanded.contains(i) == g1.expanded.contains(i));
        lemma_lines_agree(rns, g.expanded, g1.expanded, k);
        lemma_locate_at(rns, g1.expanded, g.selected_node as int, 0, k);
        assert(line_info(g1, g1.selected_node as int) == Some((k, 0int)));
        let g2 = toggled_v(g1);
        assert(g2.expanded =~= g.expanded);
    }
}

/// Where `locate` finds node `k`, the line lies among that node's lines.
pub proof fn lemma_locate_first(rns: Seq<RefNodeV>, exp: Set<int>, line: int, j: int, k: int)
    requires
        0 <= j,
        locate(rns, exp, line, j) matches Some(p) && p.0 == k,
    ensures
        locate(rns, exp, line, j) == Some((k, line - lines_before(rns, exp, k))),
        lines_before(rns, exp, k) + node_lines(rns[k], exp.contains(k)) > line,
    decreases rns.len() - j,
{
    if 0 <= j < rns.len() {
        let b = lines_before(rns, exp, j);
        if !(line < b + node_lines(rns[j], exp.contains(j))) {
            lemma_locate_first(rns, exp, line, j + 1, k);
        }
    }
}

/// Deleting the line under the cursor leaves the cursor on a line of the
/// list, or at the top of a list that became empty.
pub proof fn law_delete_keeps_cursor_in_list(g: GenV)
    requires
        line_info(g, g.selected_node as int) is Some,
    ensures
        after_delete(g).selected_node < total_lines(after_delete(g)) || (total_lines(
            after_delete(g),
        ) == 0 && after_delete(g).selected_node == 0),
{
    let rns = g.overlay.reference_nodes;
    let p = line_info(g, g.selected_node as int)->0;
    lemma_locate_some(rns, g.expanded, g.selected_node as int, 0);
    if p.1 != 0 {
        let h = after_delete(g);
        let pi = p.1 - 1;
        let node = rns[p.0].node;
        if pi < node.properties.len() + node.children.len() {
            lemma_lines_at_least(
                h.overlay.reference_nodes,
                h.expanded,
                h.overlay.reference_nodes.len() as int,
            );
        }
    }
}

/// A confirmed reference adds exactly one reference node, at the end.
pub proof fn law_confirm_reference_adds_one(g: GenV, exists: bool)
    requires
        g.input_mode == Some(InputMode::NodeReference),
        g.input_buffer.len() > 0,
    ensures
        after_confirm(g, exists).overlay.reference_nodes == g.overlay.reference_nodes.push(
            RefNodeV { reference: reference_of(g.input_buffer), node: okay_node() },
        ),
        after_confirm(g, exists).input_mode is None,
        after_confirm(g, exists).input_buffer.len() == 0,
{
}

/// Deleting a typed character undoes typing it.
pub proof fn law_pop_undoes_push(g: GenV, c: char)
    ensures
        popped_v(pushed_v(g, c)) == g,
{
    assert(g.input_buffer.push(c).drop_last() =~= g.input_buffer);
}

/// Deleting the last character of a typed file name undoes typing it.
pub proof fn law_save_erase_undoes_type(g: GenV, c: char)
    ensures
        save_erased_v(save_typed_v(g, c)) == g,
{
    assert(g.save_input.push(c).drop_last() =~= g.save_input);
}

} // verus!

//! The file viewer: tabs of files shown raw or as a simplified outline of
//! nodes and properties, with a cursor, folding, a visual selection and a
//! fuzzy search.  Drawing stays outside the library.
use vstd::prelude::*;
use crate::binding::{PropertyType, BindingInclude};
use crate::file_tree::{fuzzy_found, skim_score};
use crate::lines::{text_lines, trim, rows_v, split_lines, trimmed, string_from};
use crate::model::{
    DeviceTree, Node, Reference, RefV, NodeV, PropV, TreeV, IncludeV, RefNodeV, full_name_v,
    first_prop, props_v, prop_string, ref_text, node_height,
};
use crate::serializer::{format_property_value, value_text, repeat, tree_depth_ok};
use crate::text::{push_str, push_chars, string_of, str_eq, to_chars};

verus! {

// -------------------------------------------------------------------------
// Line model
// -------------------------------------------------------------------------

/// How a tab shows its file.
#[derive(Debug, Clone, Copy, PartialEq, Eq, Structural)]
pub enum ViewerMode {
    Raw,
    Simplified,
}

/// The status dot of a node: from its `status` property.
#[derive(Debug, Clone, Copy, PartialEq, Eq, Structural)]
pub enum StatusColor {
    Okay,
    Disabled,
    Unknown,
    /// The node has no `status` property.
    NoStatus,
}

/// One property of a binding, as the viewer lists it.
#[derive(Debug, Clone, PartialEq)]
pub struct BindingProp {
    pub name: String,
    pub property_type: Option<PropertyType>,
    pub required: bool,
    pub description: Option<String>,
}

/// What the viewer shows of a binding file: its compatible string and
/// description, the files it includes and its properties (in name order).
#[derive(Debug, Clone, PartialEq)]
pub struct BindingSummary {
    pub compatible: Option<String>,
    pub description: Option<String>,
    pub included: Option<BindingInclude>,
    pub properties: Vec<BindingProp>,
}

/// What a tab holds besides the raw text.
pub enum ViewContent {
    Empty,
    Dts(DeviceTree),
    Binding(BindingSummary),
}

/// What a line of the simplified outline shows.
#[derive(Debug, Clone, PartialEq)]
pub enum LineKind {
    Include(String),
    NodeHeader { name: String, status: StatusColor, has_children: bool },
    Property { name: String, value: String },
    BindingHeader { compatible: String, description: String },
    BindingProperty { name: String, prop_type: String, required: bool, description: String },
}

/// A line of the simplified outline: its indentation depth, what it shows
/// and the key that names it (folding is by key).
#[derive(Debug, Clone, PartialEq)]
pub struct SimplifiedLine {
    pub depth: usize,
    pub kind: LineKind,
    pub path_key: String,
}

pub enum KindV {
    Include(Seq<char>),
    NodeHeader { name: Seq<char>, status: StatusColor, has_children: bool },
    Property { name: Seq<char>, value: Seq<char> },
    BindingHeader { compatible: Seq<char>, description: Seq<char> },
    BindingProperty { name: Seq<char>, prop_type: Seq<char>, required: bool, description: Seq<char> },
}

pub struct LineV {
    pub depth: nat,
    pub kind: KindV,
    pub key: Seq<char>,
}

impl View for LineKind {
    type V = KindV;

    open spec fn view(&self) -> KindV {
        match self {
            LineKind::Include(p) => KindV::Include(p@),
            LineKind::NodeHeader { name, status, has_children } => KindV::NodeHeader {
                name: name@,
                status: *status,
                has_children: *has_children,
            },
            LineKind::Property { name, value } => KindV::Property { name: name@, value: value@ },
            LineKind::BindingHeader { compatible, description } => KindV::BindingHeader {
                compatible: compatible@,
                description: description@,
            },
            LineKind::BindingProperty { name, prop_type, required, description } => {
                KindV::BindingProperty {
                    name: name@,
                    prop_type: prop_type@,
                    required: *required,
                    description: description@,
                }
            },
        }
    }
}

impl View for SimplifiedLine {
    type V = LineV;

    open spec fn view(&self) -> LineV {
        LineV { depth: self.depth as nat, kind: self.kind@, key: self.path_key@ }
    }
}

pub open spec fn lines_v(v: Seq<SimplifiedLine>) -> Seq<LineV> {
    v.map_values(|l: SimplifiedLine| l@)
}

/// The status dot of a node.
pub open spec fn status_of(n: NodeV) -> StatusColor {
    match first_prop(n.properties, "status"@) {
        Some(i) => match prop_string(n.properties[i]) {
            Some(s) => if s == "okay"@ {
                StatusColor::Okay
            } else if s == "disabled"@ {
                StatusColor::Disabled
            } else {
                StatusColor::Unknown
            },
            None => StatusColor::Unknown,
        },
        None => StatusColor::NoStatus,
    }
}

/// The text of a property's value in the outline.
pub open spec fn shown_value(p: PropV) -> Seq<char> {
    match p.value {
        Some(v) => value_text(v),
        None => Seq::empty(),
    }
}

/// The key of the child `c` of the node with key `path`.
pub open spec fn child_key(path: Seq<char>, c: NodeV) -> Seq<char> {
    path + seq!['/'] + full_name_v(c)
}

/// The header line of a node.
pub open spec fn header_line(n: NodeV, path: Seq<char>, depth: nat) -> LineV {
    LineV {
        depth: depth,
        kind: KindV::NodeHeader {
            name: if n.name.len() == 0 {
                path
            } else {
                full_name_v(n)
            },
            status: status_of(n),
            has_children: n.children.len() > 0 || n.properties.len() > 0,
        },
        key: path,
    }
}

/// The lines of the first `k` properties of a node with key `path`.
pub open spec fn prop_lines(ps: Seq<PropV>, path: Seq<char>, depth: nat, k: int) -> Seq<LineV>
    decreases k,
{
    if k <= 0 || k > ps.len() {
        Seq::empty()
    } else {
        prop_lines(ps, path, depth, k - 1).push(
            LineV {
                depth: depth,
                kind: KindV::Property { name: ps[k - 1].name, value: shown_value(ps[k - 1]) },
                key: path + seq!['/'] + ps[k - 1].name,
            },
        )
    }
}

/// The lines of a node: its header and, when it is expanded, a line per
/// property and the lines of each child.
pub open spec fn node_lines(n: NodeV, path: Seq<char>, depth: nat, exp: Set<Seq<char>>) -> Seq<
    LineV,
>
    decreases n, 1int, 0int,
{
    seq![header_line(n, path, depth)] + if exp.contains(path) {
        prop_lines(n.properties, path, depth + 1, n.properties.len() as int) + child_lines(
            n,
            path,
            depth,
            exp,
            n.children.len() as int,
        )
    } else {
        Seq::empty()
    }
}

/// The lines of the first `k` children of `n`.
pub open spec fn child_lines(n: NodeV, path: Seq<char>, depth: nat, exp: Set<Seq<char>>, k: int) -> Seq<
    LineV,
>
    decreases n, 0int, k,
{
    if k <= 0 || k > n.children.len() {
        Seq::empty()
    } else {
        child_lines(n, path, depth, exp, k - 1) + node_lines(
            n.children[k - 1],
            child_key(path, n.children[k - 1]),
            depth + 1,
            exp,
        )
    }
}

/// The lines of the first `k` includes of a tree.
pub open spec fn include_lines(incs: Seq<IncludeV>, k: int) -> Seq<LineV>
    decreases k,
{
    if k <= 0 || k > incs.len() {
        Seq::empty()
    } else {
        include_lines(incs, k - 1).push(
            LineV {
                depth: 0,
                kind: KindV::Include(incs[k - 1].path),
                key: "include:"@ + incs[k - 1].path,
            },
        )
    }
}

/// The lines of the first `k` reference nodes of a tree, each keyed by its
/// reference as written.
pub open spec fn ref_lines(rns: Seq<RefNodeV>, exp: Set<Seq<char>>, k: int) -> Seq<LineV>
    decreases k,
{
    if k <= 0 || k > rns.len() {
        Seq::empty()
    } else {
        ref_lines(rns, exp, k - 1) + node_lines(
            rns[k - 1].node,
            ref_text(rns[k - 1].reference),
            0,
            exp,
        )
    }
}

/// The outline of a tree: its includes, its root (keyed `/`) and its
/// reference nodes.
pub open spec fn dts_lines(t: TreeV, exp: Set<Seq<char>>) -> Seq<LineV> {
    include_lines(t.includes, t.includes.len() as int) + match t.root {
        Some(r) => node_lines(r, seq!['/'], 0, exp),
        None => Seq::empty(),
    } + ref_lines(t.reference_nodes, exp, t.reference_nodes.len() as int)
}

/// The keys listed in `v`.
pub open spec fn key_set(v: Seq<String>) -> Set<Seq<char>> {
    Set::new(|k: Seq<char>| exists|i: int| 0 <= i < v.len() && #[trigger] v[i]@ == k)
}

/// Whether `key` is listed in `v`.
fn has_key(v: &Vec<String>, key: &str) -> (r: bool)
    ensures
        r == key_set(v@).contains(key@),
{
    let mut k: usize = 0;
    while k < v.len()
        invariant
            k <= v.len(),
            forall|i: int| 0 <= i < k ==> #[trigger] v@[i]@ != key@,
        decreases v.len() - k,
    {
        if str_eq(v[k].as_str(), key) {
            assert(v@[k as int]@ == key@);
            return true;
        }
        k = k + 1;
    }
    false
}

fn status_color(node: &Node) -> (r: StatusColor)
    ensures
        r == status_of(node@),
{
    let found = node.property("status");
    if found.is_none() {
        return StatusColor::NoStatus;
    }
    let p = found.unwrap();
    proof {
        crate::model::lemma_first_prop_from(props_v(node.properties@), "status"@, 0);
    }
    let ghost k = first_prop(props_v(node.properties@), "status"@)->0;
    assert(node@.properties[k] == p@);
    let text = p.as_string();
    if text.is_none() {
        return StatusColor::Unknown;
    }
    let s = text.unwrap();
    if str_eq(s, "okay") {
        StatusColor::Okay
    } else if str_eq(s, "disabled") {
        StatusColor::Disabled
    } else {
        StatusColor::Unknown
    }
}

/// `a`, a `/` and `b`.
fn slash_join(a: &str, b: &str) -> (r: String)
    ensures
        r@ == a@ + seq!['/'] + b@,
{
    let mut r = string_of(a);
    r.push('/');
    push_str(&mut r, b);
    r
}

/// Appends the lines of `node` (keyed `path`, at `depth`) to `out`.
fn push_node_lines(
    out: &mut Vec<SimplifiedLine>,
    node: &Node,
    path: &str,
    depth: usize,
    expanded: &Vec<String>,
)
    requires
        depth + node_height(*node) < usize::MAX,
    ensures
        lines_v(final(out)@) == lines_v(old(out)@) + node_lines(
            node@,
            path@,
            depth as nat,
            key_set(expanded@),
        ),
    decreases *node,
{
    let ghost exp = key_set(expanded@);
    let ghost nv = node@;
    let ghost start = lines_v(out@);
    let name = if node.name.as_str().is_empty() {
        string_of(path)
    } else {
        node.full_name()
    };
    let header = SimplifiedLine {
        depth,
        kind: LineKind::NodeHeader {
            name,
            status: status_color(node),
            has_children: node.children.len() > 0 || node.properties.len() > 0,
        },
        path_key: string_of(path),
    };
    assert(header@ == header_line(nv, path@, depth as nat));
    out.push(header);
    assert(lines_v(out@) =~= start + seq![header_line(nv, path@, depth as nat)]);
    if has_key(expanded, path) {
        let mut k: usize = 0;
        while k < node.properties.len()
            invariant
                k <= node.properties.len(),
                nv == node@,
                depth < usize::MAX,
                lines_v(out@) == start + seq![header_line(nv, path@, depth as nat)] + prop_lines(
                    nv.properties,
                    path@,
                    (depth + 1) as nat,
                    k as int,
                ),
            decreases node.properties.len() - k,
        {
            let prop = &node.properties[k];
            assert(nv.properties[k as int] == prop@);
            let value = match &prop.value {
                Some(v) => format_property_value(v),
                None => String::new(),
            };
            let line = SimplifiedLine {
                depth: depth + 1,
                kind: LineKind::Property { name: string_of(prop.name.as_str()), value },
                path_key: slash_join(path, prop.name.as_str()),
            };
            let ghost before = lines_v(out@);
            out.push(line);
            assert(lines_v(out@) =~= before.push(line@));
            k = k + 1;
        }
        let mut j: usize = 0;
        while j < node.children.len()
            invariant
                j <= node.children.len(),
                nv == node@,
                depth + node_height(*node) < usize::MAX,
                lines_v(out@) == start + seq![header_line(nv, path@, depth as nat)] + prop_lines(
                    nv.properties,
                    path@,
                    (depth + 1) as nat,
                    nv.properties.len() as int,
                ) + child_lines(nv, path@, depth as nat, exp, j as int),
                exp == key_set(expanded@),
            decreases node.children.len() - j,
        {
            let child = &node.children[j];
            proof {
                crate::model::lemma_child_height(*node, j as int);
            }
            assert(nv.children[j as int] == child@);
            assert(decreases_to!(*node => node.children@[j as int]));
            let f = child.full_name();
            let cpath = slash_join(path, f.as_str());
            assert(cpath@ == child_key(path@, child@));
            let ghost before = lines_v(out@);
            push_node_lines(out, child, cpath.as_str(), depth + 1, expanded);
            j = j + 1;
            assert(lines_v(out@) =~= start + seq![header_line(nv, path@, depth as nat)] + prop_lines(
                nv.properties,
                path@,
                (depth + 1) as nat,
                nv.properties.len() as int,
            ) + child_lines(nv, path@, depth as nat, exp, j as int));
        }
        assert(lines_v(out@) =~= start + node_lines(nv, path@, depth as nat, exp));
    } else {
        assert(lines_v(out@) =~= start + node_lines(nv, path@, depth as nat, exp));
    }
}

/// The outline of a tree.
pub fn build_dts_lines(tree: &DeviceTree, expanded: &Vec<String>) -> (r: Vec<SimplifiedLine>)
    requires
        tree_depth_ok(tree),
    ensures
        lines_v(r@) == dts_lines(tree@, key_set(expanded@)),
{
    let ghost exp = key_set(expanded@);
    let ghost t = tree@;
    let mut out: Vec<SimplifiedLine> = Vec::new();
    let mut k: usize = 0;
    while k < tree.includes.len()
        invariant
            k <= tree.includes.len(),
            t == tree@,
            lines_v(out@) == include_lines(t.includes, k as int),
        decreases tree.includes.len() - k,
    {
        let inc = &tree.includes[k];
        assert(t.includes[k as int] == inc@);
        let mut key = string_of("include:");
        push_str(&mut key, inc.path.as_str());
        let line = SimplifiedLine {
            depth: 0,
            kind: LineKind::Include(string_of(inc.path.as_str())),
            path_key: key,
        };
        let ghost before = lines_v(out@);
        out.push(line);
        assert(lines_v(out@) =~= before.push(line@));
        k = k + 1;
    }
    let ghost after_inc = lines_v(out@);
    match &tree.root {
        Some(root) => {
            proof {
                reveal_strlit("/");
                assert("/"@ =~= seq!['/']);
            }
            push_node_lines(&mut out, root, "/", 0, expanded);
        },
        None => {},
    }
    let ghost after_root = lines_v(out@);
    assert(after_root == after_inc + match t.root {
        Some(r) => node_lines(r, seq!['/'], 0, exp),
        None => Seq::<LineV>::empty(),
    }) by {
        if t.root is None {
            assert(after_root =~= after_inc + Seq::<LineV>::empty());
        }
    }
    let mut j: usize = 0;
    while j < tree.reference_nodes.len()
        invariant
            j <= tree.reference_nodes.len(),
            t == tree@,
            tree_depth_ok(tree),
            exp == key_set(expanded@),
            lines_v(out@) == after_root + ref_lines(t.reference_nodes, exp, j as int),
        decreases tree.reference_nodes.len() - j,
    {
        let rn = &tree.reference_nodes[j];
        assert(t.reference_nodes[j as int] == rn@);
        let key = rn.reference.to_text();
        let ghost before = lines_v(out@);
        push_node_lines(&mut out, &rn.node, key.as_str(), 0, expanded);
        j = j + 1;
        assert(lines_v(out@) =~= after_root + ref_lines(t.reference_nodes, exp, j as int));
    }
    assert(lines_v(out@) =~= dts_lines(t, exp));
    out
}

// -------------------------------------------------------------------------
// Binding outline
// -------------------------------------------------------------------------

/// The name of a property type as `{:?}` writes it.
pub open spec fn debug_name(t: PropertyType) -> Seq<char> {
    match t {
        PropertyType::String => "String"@,
        PropertyType::Int => "Int"@,
        PropertyType::Boolean => "Boolean"@,
        PropertyType::Array => "Array"@,
        PropertyType::Uint8Array => "Uint8Array"@,
        PropertyType::StringArray => "StringArray"@,
        PropertyType::Phandle => "Phandle"@,
        PropertyType::Phandles => "Phandles"@,
        PropertyType::PhandleArray => "PhandleArray"@,
        PropertyType::Path => "Path"@,
        PropertyType::Compound => "Compound"@,
    }
}

pub open spec fn type_text(t: Option<PropertyType>) -> Seq<char> {
    match t {
        Some(t) => debug_name(t),
        None => Seq::empty(),
    }
}

fn type_string(t: Option<PropertyType>) -> (r: String)
    ensures
        r@ == type_text(t),
{
    match t {
        None => String::new(),
        Some(t) => string_of(
            match t {
                PropertyType::String => "String",
                PropertyType::Int => "Int",
                PropertyType::Boolean => "Boolean",
                PropertyType::Array => "Array",
                PropertyType::Uint8Array => "Uint8Array",
                PropertyType::StringArray => "StringArray",
                PropertyType::Phandle => "Phandle",
                PropertyType::Phandles => "Phandles",
                PropertyType::PhandleArray => "PhandleArray",
                PropertyType::Path => "Path",
                PropertyType::Compound => "Compound",
            },
        ),
    }
}

pub open spec fn opt_or(o: Option<String>, d: Seq<char>) -> Seq<char> {
    match o {
        Some(s) => s@,
        None => d,
    }
}

/// The files a binding includes.
pub open spec fn summary_includes(b: BindingSummary) -> Seq<Seq<char>> {
    match b.included {
        Some(i) => crate::binding::include_files(i),
        None => Seq::empty(),
    }
}

pub open spec fn binc_lines(names: Seq<Seq<char>>, k: int) -> Seq<LineV>
    decreases k,
{
    if k <= 0 || k > names.len() {
        Seq::empty()
    } else {
        binc_lines(names, k - 1).push(
            LineV {
                depth: 0,
                kind: KindV::Include(names[k - 1]),
                key: "binding:include:"@ + names[k - 1],
            },
        )
    }
}

pub open spec fn bprop_key(p: BindingProp) -> Seq<char> {
    "binding:prop:"@ + p.name@
}

pub open spec fn bprop_lines(ps: Seq<BindingProp>, exp: Set<Seq<char>>, k: int) -> Seq<LineV>
    decreases k,
{
    if k <= 0 || k > ps.len() {
        Seq::empty()
    } else {
        bprop_lines(ps, exp, k - 1).push(
            LineV {
                depth: 0,
                kind: KindV::BindingProperty {
                    name: ps[k - 1].name@,
                    prop_type: type_text(ps[k - 1].property_type),
                    required: ps[k - 1].required,
                    description: if exp.contains(bprop_key(ps[k - 1])) {
                        opt_or(ps[k - 1].description, Seq::empty())
                    } else {
                        Seq::empty()
                    },
                },
                key: bprop_key(ps[k - 1]),
            },
        )
    }
}

/// The outline of a binding: a header line, a line per included file and
/// a line per property (with its description when expanded).
pub open spec fn binding_lines(b: BindingSummary, exp: Set<Seq<char>>) -> Seq<LineV> {
    seq![
        LineV {
            depth: 0,
            kind: KindV::BindingHeader {
                compatible: opt_or(b.compatible, "(no compatible)"@),
                description: opt_or(b.description, Seq::empty()),
            },
            key: "binding:header"@,
        },
    ] + binc_lines(summary_includes(b), summary_includes(b).len() as int) + bprop_lines(
        b.properties@,
        exp,
        b.properties@.len() as int,
    )
}

fn opt_string(o: &Option<String>, d: &str) -> (r: String)
    ensures
        r@ == opt_or(*o, d@),
{
    match o {
        Some(s) => string_of(s.as_str()),
        None => string_of(d),
    }
}

/// The outline of a binding.
pub fn build_binding_lines(b: &BindingSummary, expanded: &Vec<String>) -> (r: Vec<SimplifiedLine>)
    ensures
        lines_v(r@) == binding_lines(*b, key_set(expanded@)),
{
    let ghost exp = key_set(expanded@);
    proof {
        reveal_strlit("");
    }
    let mut out: Vec<SimplifiedLine> = Vec::new();
    let header = SimplifiedLine {
        depth: 0,
        kind: LineKind::BindingHeader {
            compatible: opt_string(&b.compatible, "(no compatible)"),
            description: opt_string(&b.description, ""),
        },
        path_key: string_of("binding:header"),
    };
    assert(""@ =~= Seq::<char>::empty());
    out.push(header);
    let ghost h = lines_v(out@);
    let names: Vec<&str> = match &b.included {
        Some(i) => i.file_names(),
        None => Vec::new(),
    };
    let ghost nv = names@.map_values(|x: &str| x@);
    assert(nv =~= summary_includes(*b));
    let mut k: usize = 0;
    while k < names.len()
        invariant
            k <= names.len(),
            nv == names@.map_values(|x: &str| x@),
            lines_v(out@) == h + binc_lines(nv, k as int),
        decreases names.len() - k,
    {
        let mut key = string_of("binding:include:");
        push_str(&mut key, names[k]);
        let line = SimplifiedLine { depth: 0, kind: LineKind::Include(string_of(names[k])), path_key: key };
        let ghost before = lines_v(out@);
        out.push(line);
        assert(lines_v(out@) =~= before.push(line@));
        k = k + 1;
    }
    let ghost hi = lines_v(out@);
    let mut j: usize = 0;
    while j < b.properties.len()
        invariant
            j <= b.properties.len(),
            exp == key_set(expanded@),
            lines_v(out@) == hi + bprop_lines(b.properties@, exp, j as int),
        decreases b.properties.len() - j,
    {
        let p = &b.properties[j];
        proof {
            reveal_strlit("");
            assert(""@ =~= Seq::<char>::empty());
        }
        let mut key = string_of("binding:prop:");
        push_str(&mut key, p.name.as_str());
        let shown = has_key(expanded, key.as_str());
        let description = if shown {
            opt_string(&p.description, "")
        } else {
            String::new()
        };
        let line = SimplifiedLine {
            depth: 0,
            kind: LineKind::BindingProperty {
                name: string_of(p.name.as_str()),
                prop_type: type_string(p.property_type),
                required: p.required,
                description,
            },
            path_key: key,
        };
        assert(line@ == bprop_lines(b.properties@, exp, j + 1).last());
        let ghost before = lines_v(out@);
        out.push(line);
        assert(lines_v(out@) =~= before.push(line@));
        j = j + 1;
    }
    assert(lines_v(out@) =~= binding_lines(*b, exp));
    out
}

// -------------------------------------------------------------------------
// The text of a line
// -------------------------------------------------------------------------

/// The plain text of an outline line, as it is yanked and searched.
pub open spec fn line_text(l: LineV) -> Seq<char> {
    let indent = repeat("  "@, l.depth);
    match l.kind {
        KindV::Include(p) => indent + "#include \""@ + p + "\""@,
        KindV::NodeHeader { name, .. } => indent + name,
        KindV::Property { name, value } => if value.len() == 0 {
            indent + name
        } else {
            indent + name + " = "@ + value
        },
        KindV::BindingHeader { compatible, description } => compatible + "  "@ + description,
        KindV::BindingProperty { name, prop_type, required, description } => indent + (if required {
            "* "@
        } else {
            Seq::empty()
        }) + name + " ("@ + prop_type + ")"@ + (if description.len() == 0 {
            Seq::empty()
        } else {
            "  "@ + description
        }),
    }
}

/// The plain text of an outline line.
pub fn simplified_line_text(l: &SimplifiedLine) -> (r: String)
    ensures
        r@ == line_text(l@),
{
    let two = string_of("  ");
    let mut r = String::new();
    match &l.kind {
        LineKind::BindingHeader { compatible, description } => {
            push_str(&mut r, compatible.as_str());
            push_str(&mut r, "  ");
            push_str(&mut r, description.as_str());
            return r;
        },
        _ => {},
    }
    crate::serializer::write_repeat(&mut r, &two, l.depth);
    match &l.kind {
        LineKind::Include(p) => {
            push_str(&mut r, "#include \"");
            push_str(&mut r, p.as_str());
            push_str(&mut r, "\"");
        },
        LineKind::NodeHeader { name, .. } => {
            push_str(&mut r, name.as_str());
        },
        LineKind::Property { name, value } => {
            push_str(&mut r, name.as_str());
            if !value.as_str().is_empty() {
                push_str(&mut r, " = ");
                push_str(&mut r, value.as_str());
            }
        },
        LineKind::BindingProperty { name, prop_type, required, description } => {
            if *required {
                push_str(&mut r, "* ");
            }
            push_str(&mut r, name.as_str());
            push_str(&mut r, " (");
            push_str(&mut r, prop_type.as_str());
            push_str(&mut r, ")");
            if !description.as_str().is_empty() {
                push_str(&mut r, "  ");
                push_str(&mut r, description.as_str());
            }
        },
        LineKind::BindingHeader { .. } => {},
    }
    assert(r@ =~= line_text(l@));
    r
}

// -------------------------------------------------------------------------
// Tabs
// -------------------------------------------------------------------------

/// One open file.
pub struct Tab {
    pub mode: ViewerMode,
    pub file: String,
    pub raw_content: Option<String>,
    pub content: ViewContent,
    pub scroll: usize,
    pub selected_line: usize,
    pub simplified_scroll: usize,
    /// The keys of the unfolded lines of the outline.
    pub expanded: Vec<String>,
    pub simplified_lines: Vec<SimplifiedLine>,
    /// Where the visual selection started, while one is made.
    pub selection_anchor: Option<usize>,
}

pub enum ContentV {
    Empty,
    Dts(TreeV),
    Binding(BindingSummary),
}

pub open spec fn content_v(c: ViewContent) -> ContentV {
    match c {
        ViewContent::Empty => ContentV::Empty,
        ViewContent::Dts(t) => ContentV::Dts(t@),
        ViewContent::Binding(b) => ContentV::Binding(b),
    }
}

pub struct TabV {
    pub mode: ViewerMode,
    pub file: Seq<char>,
    pub raw: Option<Seq<char>>,
    pub content: ContentV,
    pub scroll: usize,
    pub selected: usize,
    pub simplified_scroll: usize,
    pub expanded: Set<Seq<char>>,
    pub lines: Seq<LineV>,
    pub anchor: Option<usize>,
}

/// How a line of a tab is highlighted, the first that applies: inside the
/// visual selection, a search match under the cursor, a search match, the
/// cursor line, or not at all.
#[derive(Debug, Clone, Copy, PartialEq, Eq, Structural)]
pub enum LineHighlight {
    Selection,
    MatchAtCursor,
    Match,
    Cursor,
    Plain,
}

/// The highlight of line `i` of tab `t`, given the lines that match the
/// search.
pub open spec fn line_highlight_v(t: TabV, i: int, matches: Seq<usize>) -> LineHighlight {
    let cursor = i == t.selected;
    let is_match = matches.contains(i as usize) && 0 <= i <= usize::MAX;
    let in_sel = match t.anchor {
        Some(a) => (if a <= t.selected { a <= i <= t.selected } else { t.selected <= i <= a }),
        None => false,
    };
    if in_sel {
        LineHighlight::Selection
    } else if is_match && cursor {
        LineHighlight::MatchAtCursor
    } else if is_match {
        LineHighlight::Match
    } else if cursor {
        LineHighlight::Cursor
    } else {
        LineHighlight::Plain
    }
}

impl View for Tab {
    type V = TabV;

    open spec fn view(&self) -> TabV {
        TabV {
            mode: self.mode,
            file: self.file@,
            raw: match self.raw_content {
                Some(r) => Some(r@),
                None => None,
            },
            content: content_v(self.content),
            scroll: self.scroll,
            selected: self.selected_line,
            simplified_scroll: self.simplified_scroll,
            expanded: key_set(self.expanded@),
            lines: lines_v(self.simplified_lines@),
            anchor: self.selection_anchor,
        }
    }
}

/// The outline of what a tab holds.
pub open spec fn outline(c: ContentV, exp: Set<Seq<char>>) -> Seq<LineV> {
    match c {
        ContentV::Empty => Seq::empty(),
        ContentV::Dts(t) => dts_lines(t, exp),
        ContentV::Binding(b) => binding_lines(b, exp),
    }
}

/// The number of lines a tab shows: of the raw text, or of the outline.
pub open spec fn total_lines_v(t: TabV) -> nat {
    match t.mode {
        ViewerMode::Raw => match t.raw {
            Some(c) => text_lines(c).len(),
            None => 0,
        },
        ViewerMode::Simplified => t.lines.len(),
    }
}

/// A fresh tab for a file, showing the outline.
pub open spec fn new_tab_v(path: Seq<char>) -> TabV {
    TabV {
        mode: ViewerMode::Simplified,
        file: path,
        raw: None,
        content: ContentV::Empty,
        scroll: 0,
        selected: 0,
        simplified_scroll: 0,
        expanded: Set::empty(),
        lines: Seq::empty(),
        anchor: None,
    }
}

/// Whether the tree a tab holds is of bounded depth.
pub open spec fn tab_ok(t: Tab) -> bool {
    match t.content {
        ViewContent::Dts(tr) => tree_depth_ok(&tr),
        _ => true,
    }
}

impl Tab {
    /// The highlight of line `i`, given the lines that match the search
    /// (see `line_highlight_v`).
    pub fn line_highlight(&self, i: usize, matches: &Vec<usize>) -> (r: LineHighlight)
        ensures
            r == line_highlight_v(self@, i as int, matches@),
    {
        let cursor = i == self.selected_line;
        let mut is_match = false;
        let mut k: usize = 0;
        while k < matches.len()
            invariant
                k <= matches.len(),
                is_match == (exists|j: int| 0 <= j < k && matches@[j] == i),
            decreases matches.len() - k,
        {
            if matches[k] == i {
                is_match = true;
            }
            k = k + 1;
        }
        assert(is_match == matches@.contains(i));
        let in_sel = match self.selection_anchor {
            Some(a) => if a <= self.selected_line {
                a <= i && i <= self.selected_line
            } else {
                self.selected_line <= i && i <= a
            },
            None => false,
        };
        if in_sel {
            LineHighlight::Selection
        } else if is_match && cursor {
            LineHighlight::MatchAtCursor
        } else if is_match {
            LineHighlight::Match
        } else if cursor {
            LineHighlight::Cursor
        } else {
            LineHighlight::Plain
        }
    }

    fn new(path: String) -> (t: Tab)
        ensures
            t@ == new_tab_v(path@),
            tab_ok(t),
    {
        let t = Tab {
            mode: ViewerMode::Simplified,
            file: path,
            raw_content: None,
            content: ViewContent::Empty,
            scroll: 0,
            selected_line: 0,
            simplified_scroll: 0,
            expanded: Vec::new(),
            simplified_lines: Vec::new(),
            selection_anchor: None,
        };
        assert(key_set(t.expanded@) =~= Set::<Seq<char>>::empty());
        assert(lines_v(t.simplified_lines@) =~= Seq::<LineV>::empty());
        t
    }

    /// The number of lines the tab shows.
    pub fn total_lines(&self) -> (n: usize)
        ensures
            n == total_lines_v(self@),
    {
        match self.mode {
            ViewerMode::Raw => match &self.raw_content {
                Some(c) => split_lines(c.as_str()).len(),
                None => 0,
            },
            ViewerMode::Simplified => self.simplified_lines.len(),
        }
    }

    /// Builds the outline again from the content and the unfolded keys.
    fn rebuild(&mut self)
        requires
            tab_ok(*old(self)),
        ensures
            final(self)@ == (TabV { lines: outline(old(self)@.content, old(self)@.expanded), ..old(self)@ }),
            tab_ok(*final(self)),
    {
        let lines = match &self.content {
            ViewContent::Empty => Vec::new(),
            ViewContent::Dts(tree) => build_dts_lines(tree, &self.expanded),
            ViewContent::Binding(b) => build_binding_lines(b, &self.expanded),
        };
        self.simplified_lines = lines;
        proof {
            if self.content is Empty {
                assert(lines_v(self.simplified_lines@) =~= Seq::<LineV>::empty());
            }
        }
    }
}

/// The keys listed after `key` is removed.
fn without_key(v: Vec<String>, key: &str) -> (r: Vec<String>)
    ensures
        key_set(r@) == key_set(v@).remove(key@),
{
    let mut r: Vec<String> = Vec::new();
    let mut k: usize = 0;
    while k < v.len()
        invariant
            k <= v.len(),
            key_set(r@) == key_set(v@.take(k as int)).remove(key@),
        decreases v.len() - k,
    {
        let ghost before = r@;
        if !str_eq(v[k].as_str(), key) {
            r.push(string_of(v[k].as_str()));
        }
        proof {
            assert(key_set(r@) =~= key_set(v@.take(k + 1)).remove(key@)) by {
                assert forall|x: Seq<char>| key_set(r@).contains(x) <==> key_set(v@.take(k + 1)).remove(
                    key@,
                ).contains(x) by {
                    if key_set(r@).contains(x) {
                        let i = choose|i: int| 0 <= i < r@.len() && #[trigger] r@[i]@ == x;
                        if i < before.len() {
                            assert(before[i]@ == x);
                            assert(key_set(before).contains(x));
                            let j = choose|j: int| 0 <= j < k && #[trigger] v@.take(k as int)[j]@ == x;
                            assert(v@.take(k + 1)[j]@ == x);
                        } else {
                            assert(v@.take(k + 1)[k as int]@ == x);
                        }
                    }
                    if key_set(v@.take(k + 1)).remove(key@).contains(x) {
                        let j = choose|j: int| 0 <= j < k + 1 && #[trigger] v@.take(k + 1)[j]@ == x;
                        if j < k {
                            assert(v@.take(k as int)[j]@ == x);
                            assert(key_set(before).contains(x));
                            let i = choose|i: int| 0 <= i < before.len() && #[trigger] before[i]@ == x;
                            assert(r@[i]@ == x);
                        } else {
                            assert(r@[before.len() as int]@ == x);
                        }
                    }
                }
            }
        }
        k = k + 1;
    }
    assert(v@.take(k as int) =~= v@);
    r
}

/// The keys listed after `key` is added.
fn with_key(v: Vec<String>, key: &str) -> (r: Vec<String>)
    ensures
        key_set(r@) == key_set(v@).insert(key@),
{
    let mut r = v;
    let ghost before = r@;
    r.push(string_of(key));
    assert(key_set(r@) =~= key_set(before).insert(key@)) by {
        assert forall|x: Seq<char>| key_set(r@).contains(x) <==> key_set(before).insert(key@).contains(
            x,
        ) by {
            if key_set(r@).contains(x) {
                let i = choose|i: int| 0 <= i < r@.len() && #[trigger] r@[i]@ == x;
                if i < before.len() {
                    assert(before[i]@ == x);
                }
            }
            if key_set(before).contains(x) {
                let i = choose|i: int| 0 <= i < before.len() && #[trigger] before[i]@ == x;
                assert(r@[i]@ == x);
            }
            if x == key@ {
                assert(r@[before.len() as int]@ == x);
            }
        }
    }
    r
}

// -------------------------------------------------------------------------
// The viewer
// -------------------------------------------------------------------------

/// The open tabs and the search.
pub struct ViewerState {
    tabs: Vec<Tab>,
    active: usize,
    /// The file of the active tab, for readers outside the viewer.
    pub current_file: Option<String>,
    /// A search query is being typed.
    pub search_active: bool,
    pub search_input: String,
    /// The query searched for once it was committed.
    pub search_query: Option<String>,
    search_matches: Vec<usize>,
    search_match_idx: usize,
}

pub struct ViewerV {
    pub tabs: Seq<TabV>,
    pub active: usize,
    pub current_file: Option<Seq<char>>,
    pub search_active: bool,
    pub search_input: Seq<char>,
    pub search_query: Option<Seq<char>>,
    pub matches: Seq<usize>,
    pub match_idx: usize,
}

impl View for ViewerState {
    type V = ViewerV;

    closed spec fn view(&self) -> ViewerV {
        ViewerV {
            tabs: self.tabs@.map_values(|t: Tab| t@),
            active: self.active,
            current_file: match self.current_file {
                Some(f) => Some(f@),
                None => None,
            },
            search_active: self.search_active,
            search_input: self.search_input@,
            search_query: match self.search_query {
                Some(q) => Some(q@),
                None => None,
            },
            matches: self.search_matches@,
            match_idx: self.search_match_idx,
        }
    }
}

/// The viewer with `current_file` following the active tab.
pub open spec fn synced(v: ViewerV) -> ViewerV {
    ViewerV {
        current_file: if v.active < v.tabs.len() {
            Some(v.tabs[v.active as int].file)
        } else {
            None
        },
        ..v
    }
}

/// The active tab, when there is one.
pub open spec fn has_active(v: ViewerV) -> bool {
    v.active < v.tabs.len()
}

/// The viewer with the active tab replaced.
pub open spec fn with_active(v: ViewerV, t: TabV) -> ViewerV {
    ViewerV { tabs: v.tabs.update(v.active as int, t), ..v }
}

/// The first tab at or after `k` that shows `path`.
pub open spec fn tab_of_from(tabs: Seq<TabV>, path: Seq<char>, k: int) -> Option<int>
    decreases tabs.len() - k,
{
    if !(0 <= k < tabs.len()) {
        None
    } else if tabs[k].file == path {
        Some(k)
    } else {
        tab_of_from(tabs, path, k + 1)
    }
}

/// The tabs once `path` has a tab, and the index of that tab.
pub open spec fn ensured(tabs: Seq<TabV>, path: Seq<char>) -> (Seq<TabV>, int) {
    match tab_of_from(tabs, path, 0) {
        Some(i) => (tabs, i),
        None => (tabs.push(new_tab_v(path)), tabs.len() as int),
    }
}

/// The active tab after the cursor moves down one line, when one follows.
pub open spec fn scrolled_down(t: TabV) -> TabV {
    if t.selected + 1 < total_lines_v(t) {
        TabV { selected: (t.selected + 1) as usize, ..t }
    } else {
        t
    }
}

/// The search query in force: the one being typed, else the committed one.
pub open spec fn query_of(v: ViewerV) -> Option<Seq<char>> {
    if v.search_active {
        Some(v.search_input)
    } else {
        v.search_query
    }
}

/// The lines of the active tab that the query is found in.
pub open spec fn matches_of(v: ViewerV) -> Seq<usize> {
    match query_of(v) {
        None => Seq::empty(),
        Some(q) => if q.len() == 0 || !has_active(v) {
            Seq::empty()
        } else {
            let t = v.tabs[v.active as int];
            match t.mode {
                ViewerMode::Raw => match t.raw {
                    Some(c) => crate::file_tree::matching(text_lines(c), q),
                    None => Seq::empty(),
                },
                ViewerMode::Simplified => crate::file_tree::matching(
                    t.lines.map_values(|l: LineV| line_text(l)),
                    q,
                ),
            }
        },
    }
}

/// The cursor keeps in view: the first visible line moves so that the
/// cursor lies in a window of `height` lines.
pub open spec fn follow(scroll: usize, selected: usize, height: usize) -> usize {
    if selected < scroll {
        selected
    } else if selected - scroll >= height {
        if height == 0 {
            selected
        } else {
            (selected - (height - 1)) as usize
        }
    } else {
        scroll
    }
}

/// The active tab with the key of its line under the cursor folded or
/// unfolded by `op` (0 toggles, 1 unfolds, 2 folds) and its outline built
/// again; unchanged when the cursor is on no line.
pub open spec fn refolded(t: TabV, op: int) -> TabV {
    if t.selected < t.lines.len() {
        let key = t.lines[t.selected as int].key;
        let exp = if op == 0 {
            if t.expanded.contains(key) {
                t.expanded.remove(key)
            } else {
                t.expanded.insert(key)
            }
        } else if op == 1 {
            t.expanded.insert(key)
        } else {
            t.expanded.remove(key)
        };
        let changes = op == 0 || (op == 1 && !t.expanded.contains(key)) || (op == 2
            && t.expanded.contains(key));
        if changes {
            TabV { expanded: exp, lines: outline(t.content, exp), ..t }
        } else {
            t
        }
    } else {
        t
    }
}

/// Lines joined with line breaks.
pub open spec fn join_lines(ls: Seq<Seq<char>>) -> Seq<char>
    decreases ls.len(),
{
    if ls.len() == 0 {
        Seq::empty()
    } else if ls.len() == 1 {
        ls[0]
    } else {
        join_lines(ls.drop_last()) + seq!['\n'] + ls.last()
    }
}

/// The lines `lo..=hi` of `ls`, as far as there are.
pub open spec fn line_range(ls: Seq<Seq<char>>, lo: int, hi: int) -> Seq<Seq<char>> {
    let a = if lo < ls.len() {
        lo
    } else {
        ls.len() as int
    };
    let b = if hi + 1 < ls.len() {
        hi + 1
    } else {
        ls.len() as int
    };
    if a <= b {
        ls.subrange(a, b)
    } else {
        Seq::empty()
    }
}

/// The text a visual selection copies, and the tab once it ends: the lines
/// between the anchor and the cursor, raw or as outline text.  `None` when
/// no selection is made (nothing changes) or the raw text is missing (the
/// selection still ends).
pub open spec fn yanked(t: TabV) -> (Option<Seq<char>>, TabV) {
    match t.anchor {
        None => (None, t),
        Some(a) => {
            let lo: int = if a < t.selected {
                a as int
            } else {
                t.selected as int
            };
            let hi: int = if a < t.selected {
                t.selected as int
            } else {
                a as int
            };
            let t2 = TabV { anchor: None, ..t };
            match t.mode {
                ViewerMode::Raw => match t.raw {
                    Some(c) => (Some(join_lines(line_range(text_lines(c), lo, hi))), t2),
                    None => (None, t2),
                },
                ViewerMode::Simplified => (
                    Some(join_lines(line_range(t.lines.map_values(|l: LineV| line_text(l)), lo, hi))),
                    t2,
                ),
            }
        },
    }
}

/// Joined lines are the lines one after another, each ended by a line feed,
/// with the last line feed left out; no lines join to nothing.
pub proof fn law_join_lines_separates_by_line_feeds(ls: Seq<Seq<char>>)
    ensures
        ls.len() == 0 ==> join_lines(ls) == Seq::<char>::empty(),
        ls.len() > 0 ==> join_lines(ls) + seq!['\n'] == ls.map_values(
            |l: Seq<char>| l + seq!['\n'],
        ).flatten(),
    decreases ls.len(),
{
    if ls.len() == 1 {
        let m = ls.map_values(|l: Seq<char>| l + seq!['\n']);
        assert(m.drop_first() =~= Seq::<Seq<char>>::empty());
        assert(m.drop_first().flatten() =~= Seq::<char>::empty());
        assert(m.flatten() =~= m[0]);
    } else if ls.len() > 1 {
        let init = ls.drop_last();
        law_join_lines_separates_by_line_feeds(init);
        let f = |l: Seq<char>| l + seq!['\n'];
        let last = seq![ls.last() + seq!['\n']];
        assert(ls.map_values(f) =~= init.map_values(f) + last);
        vstd::seq_lib::lemma_flatten_concat(init.map_values(f), last);
        assert(last.drop_first() =~= Seq::<Seq<char>>::empty());
        assert(last.drop_first().flatten() =~= Seq::<char>::empty());
        assert(last.first() == ls.last() + seq!['\n']);
        assert(last.flatten() =~= ls.last() + seq!['\n']);
        assert(join_lines(ls) + seq!['\n'] =~= (join_lines(init) + seq!['\n']) + (ls.last()
            + seq!['\n']));
    }
}

/// A visual selection copies the same text whichever of its ends the cursor
/// is at: swapping the anchor and the cursor changes nothing of what is
/// yanked.
pub proof fn law_yank_either_direction(t: TabV, a: usize, c: usize)
    ensures
        yanked(TabV { anchor: Some(a), selected: c, ..t }).0 == yanked(
            TabV { anchor: Some(c), selected: a, ..t },
        ).0,
{
}

/// With the anchor at `a` and the cursor at `c`, both on lines that exist,
/// the yanked text is the lines from the lower of the two to the higher,
/// both included, joined by line feeds (the raw text's lines in raw mode,
/// the outline's line texts otherwise).
pub proof fn law_yank_copies_lines_between(t: TabV, a: usize, c: usize)
    ensures
        ({
            let u = TabV { anchor: Some(a), selected: c, ..t };
            let lo = if a <= c { a as int } else { c as int };
            let hi = if a <= c { c as int } else { a as int };
            &&& (t.mode == ViewerMode::Raw && t.raw is Some && a < text_lines(t.raw->0).len() && c
                < text_lines(t.raw->0).len()) ==> yanked(u).0 == Some(
                join_lines(text_lines(t.raw->0).subrange(lo, hi + 1)),
            )
            &&& (t.mode == ViewerMode::Simplified && a < t.lines.len() && c < t.lines.len())
                ==> yanked(u).0 == Some(
                join_lines(t.lines.map_values(|l: LineV| line_text(l)).subrange(lo, hi + 1)),
            )
            &&& yanked(u).1.anchor is None
        }),
{
}

/// `x` without the `;` at its end.
pub open spec fn strip_semis(x: Seq<char>) -> Seq<char>
    decreases x.len(),
{
    if x.len() > 0 && x.last() == ';' {
        strip_semis(x.drop_last())
    } else {
        x
    }
}

/// What follows the directive word in an include line, when the trimmed
/// line starts with `#include` (`hash`) or `/include/`.
pub open spec fn include_rest(line: Seq<char>) -> Option<(Seq<char>, bool)> {
    let t = trim(line);
    if t.len() >= 8 && t.subrange(0, 8) == "#include"@ {
        Some((trim(t.subrange(8, t.len() as int)), true))
    } else if t.len() >= 9 && t.subrange(0, 9) == "/include/"@ {
        Some((trim(strip_semis(trim(t.subrange(9, t.len() as int)))), false))
    } else {
        None
    }
}

/// Whether the text after the directive is delimited: by `<` `>` (only
/// after `#include`) or by double quotes.
pub open spec fn delimited(rest: Seq<char>, hash: bool) -> bool {
    rest.len() >= 1 && ((hash && rest[0] == '<' && rest.last() == '>') || (rest[0] == '"'
        && rest.last() == '"'))
}

/// The path an include line names.
pub open spec fn raw_include(line: Seq<char>) -> Option<Seq<char>> {
    match include_rest(line) {
        Some(r) => if delimited(r.0, r.1) && r.0.len() >= 2 {
            Some(r.0.subrange(1, r.0.len() - 1))
        } else {
            None
        },
        None => None,
    }
}

/// Whether an include line is cut short: its delimited text is a lone
/// double quote.
pub open spec fn include_cut(line: Seq<char>) -> bool {
    match include_rest(line) {
        Some(r) => delimited(r.0, r.1) && r.0.len() < 2,
        None => false,
    }
}

/// The raw line under the cursor of the active tab, in raw mode.
pub open spec fn raw_cursor_line(v: ViewerV) -> Option<Seq<char>> {
    if !has_active(v) {
        None
    } else {
        let t = v.tabs[v.active as int];
        if t.mode == ViewerMode::Simplified {
            None
        } else {
            match t.raw {
                Some(c) => if t.selected < text_lines(c).len() {
                    Some(text_lines(c)[t.selected as int])
                } else {
                    None
                },
                None => None,
            }
        }
    }
}

/// The file the line under the cursor includes.
pub open spec fn include_at_cursor(v: ViewerV) -> Option<Seq<char>> {
    if !has_active(v) {
        None
    } else {
        let t = v.tabs[v.active as int];
        if t.mode == ViewerMode::Simplified {
            if t.selected < t.lines.len() {
                match t.lines[t.selected as int].kind {
                    KindV::Include(p) => Some(p),
                    _ => None,
                }
            } else {
                None
            }
        } else {
            match raw_cursor_line(v) {
                Some(l) => raw_include(l),
                None => None,
            }
        }
    }
}

/// The node reached from `n` (whose key is `current`) by key `target`:
/// the first found, looking at a node before its children.
pub open spec fn find_path(n: NodeV, target: Seq<char>, current: Seq<char>) -> Option<NodeV>
    decreases n, 1int, 0int,
{
    if current == target {
        Some(n)
    } else {
        find_in_children(n, target, current, 0)
    }
}

pub open spec fn find_in_children(n: NodeV, target: Seq<char>, current: Seq<char>, k: int) -> Option<
    NodeV,
>
    decreases n, 0int, n.children.len() - k,
{
    if !(0 <= k < n.children.len()) {
        None
    } else {
        match find_path(n.children[k], target, child_key(current, n.children[k])) {
            Some(x) => Some(x),
            None => find_in_children(n, target, current, k + 1),
        }
    }
}

/// The last position of `/` in `k`.
pub open spec fn last_slash(k: Seq<char>) -> Option<int>
    decreases k.len(),
{
    if k.len() == 0 {
        None
    } else if k.last() == '/' {
        Some(k.len() - 1)
    } else {
        last_slash(k.drop_last())
    }
}

pub proof fn lemma_last_slash(k: Seq<char>)
    ensures
        last_slash(k) matches Some(i) ==> 0 <= i < k.len(),
    decreases k.len(),
{
    if k.len() > 0 && k.last() != '/' {
        lemma_last_slash(k.drop_last());
    }
}

/// The first reference node at or after `k` whose reference is written as
/// `key`.
pub open spec fn ref_keyed(rns: Seq<RefNodeV>, key: Seq<char>, k: int) -> Option<int>
    decreases rns.len() - k,
{
    if !(0 <= k < rns.len()) {
        None
    } else if ref_text(rns[k].reference) == key {
        Some(k)
    } else {
        ref_keyed(rns, key, k + 1)
    }
}

/// The reference and labels of the node of a tree with outline key `key`:
/// a `&` key names a label; the root and its descendants are found by
/// path (by their first label when they have one); then the reference
/// nodes by how their reference is written.
pub open spec fn node_found(t: TreeV, key: Seq<char>) -> Option<(RefV, Seq<Seq<char>>)> {
    if key.len() > 0 && key[0] == '&' {
        Some((RefV::Label(key.drop_first()), seq![key.drop_first()]))
    } else {
        let from_root: Option<(RefV, Seq<Seq<char>>)> = match t.root {
            Some(r) => if key == seq!['/'] {
                Some((RefV::Path(key), r.labels))
            } else {
                match find_path(r, key, seq!['/']) {
                    Some(n) => if n.labels.len() > 0 {
                        Some((RefV::Label(n.labels[0]), n.labels))
                    } else {
                        Some((RefV::Path(key), n.labels))
                    },
                    None => None,
                }
            },
            None => None,
        };
        match from_root {
            Some(x) => Some(x),
            None => match ref_keyed(t.reference_nodes, key, 0) {
                Some(i) => Some((t.reference_nodes[i].reference, t.reference_nodes[i].node.labels)),
                None => None,
            },
        }
    }
}

/// The node under the cursor of the active outline: that of a header line,
/// or the node a property line belongs to.
pub open spec fn cursor_node(v: ViewerV) -> Option<(RefV, Seq<Seq<char>>)> {
    if !has_active(v) {
        None
    } else {
        let t = v.tabs[v.active as int];
        if t.mode != ViewerMode::Simplified || t.selected >= t.lines.len() {
            None
        } else {
            let line = t.lines[t.selected as int];
            let key: Option<Seq<char>> = match line.kind {
                KindV::NodeHeader { .. } => Some(line.key),
                KindV::Property { .. } => match last_slash(line.key) {
                    Some(i) => Some(line.key.subrange(0, i)),
                    None => None,
                },
                _ => None,
            };
            match key {
                Some(k) => match t.content {
                    ContentV::Dts(tr) => node_found(tr, k),
                    _ => None,
                },
                None => None,
            }
        }
    }
}

/// The node reached from `node` (keyed `current`) by key `target`.
fn find_node_by_path<'a>(node: &'a Node, target: &str, current: &str) -> (r: Option<&'a Node>)
    ensures
        match find_path(node@, target@, current@) {
            Some(x) => r matches Some(n) && n@ == x,
            None => r is None,
        },
    decreases *node,
{
    if str_eq(current, target) {
        return Some(node);
    }
    let ghost nv = node@;
    let mut k: usize = 0;
    while k < node.children.len()
        invariant
            k <= node.children.len(),
            nv == node@,
            current@ != target@,
            find_path(nv, target@, current@) == find_in_children(nv, target@, current@, k as int),
        decreases node.children.len() - k,
    {
        let child = &node.children[k];
        assert(nv.children[k as int] == child@);
        assert(decreases_to!(*node => node.children@[k as int]));
        let f = child.full_name();
        let cpath = slash_join(current, f.as_str());
        assert(cpath@ == child_key(current@, child@));
        match find_node_by_path(child, target, cpath.as_str()) {
            Some(n) => {
                return Some(n);
            },
            None => {},
        }
        k = k + 1;
    }
    None
}

/// The position of the last `/` in `x`.
fn last_slash_in(x: &Vec<char>) -> (r: Option<usize>)
    ensures
        match last_slash(x@) {
            Some(i) => r == Some(i as usize),
            None => r is None,
        },
{
    let mut e = x.len();
    assert(x@.subrange(0, e as int) =~= x@);
    while e > 0
        invariant
            e <= x.len(),
            last_slash(x@) == last_slash(x@.subrange(0, e as int)),
        decreases e,
    {
        assert(x@.subrange(0, e as int).drop_last() =~= x@.subrange(0, e - 1));
        if x[e - 1] == '/' {
            return Some(e - 1);
        }
        e = e - 1;
    }
    None
}

/// Whether `x` starts with the characters of `w`.
fn starts_with_word(x: &Vec<char>, w: &str) -> (r: bool)
    ensures
        r == (x@.len() >= w@.len() && x@.subrange(0, w@.len() as int) == w@),
{
    let y = to_chars(w);
    if x.len() < y.len() {
        return false;
    }
    let mut k: usize = 0;
    while k < y.len()
        invariant
            k <= y.len() <= x.len(),
            y@ == w@,
            x@.subrange(0, k as int) == y@.subrange(0, k as int),
        decreases y.len() - k,
    {
        if x[k] != y[k] {
            assert(x@.subrange(0, y@.len() as int)[k as int] != y@[k as int]);
            return false;
        }
        k = k + 1;
        assert(x@.subrange(0, k as int) =~= y@.subrange(0, k as int));
    }
    assert(y@.subrange(0, k as int) =~= y@);
    true
}

/// `x` without the `;` at its end.
fn strip_semis_of(x: &Vec<char>) -> (r: Vec<char>)
    ensures
        r@ == strip_semis(x@),
{
    let mut e = x.len();
    assert(x@.subrange(0, e as int) =~= x@);
    while e > 0 && x[e - 1] == ';'
        invariant
            e <= x.len(),
            strip_semis(x@) == strip_semis(x@.subrange(0, e as int)),
        decreases e,
    {
        assert(x@.subrange(0, e as int).drop_last() =~= x@.subrange(0, e - 1));
        e = e - 1;
    }
    let mut r: Vec<char> = Vec::new();
    let mut k: usize = 0;
    while k < e
        invariant
            k <= e <= x.len(),
            r@ == x@.subrange(0, k as int),
        decreases e - k,
    {
        r.push(x[k]);
        k = k + 1;
        assert(r@ =~= x@.subrange(0, k as int));
    }
    r
}

/// The parts of an include line, as `include_rest` describes them.
fn include_rest_of(line: &Vec<char>) -> (r: Option<(Vec<char>, bool)>)
    ensures
        match include_rest(line@) {
            Some(p) => r matches Some(q) && q.0@ == p.0 && q.1 == p.1,
            None => r is None,
        },
{
    proof {
        reveal_strlit("#include");
        reveal_strlit("/include/");
    }
    let t = trimmed(line, 0, line.len());
    assert(line@.subrange(0, line@.len() as int) =~= line@);
    if starts_with_word(&t, "#include") {
        let rest = trimmed(&t, 8, t.len());
        Some((rest, true))
    } else if starts_with_word(&t, "/include/") {
        let a = trimmed(&t, 9, t.len());
        let b = strip_semis_of(&a);
        let c = trimmed(&b, 0, b.len());
        assert(b@.subrange(0, b@.len() as int) =~= b@);
        Some((c, false))
    } else {
        None
    }
}

/// The lines of a text, each as a string.
fn raw_texts(c: &str) -> (r: Vec<String>)
    ensures
        r@.map_values(|x: String| x@) == text_lines(c@),
{
    let rows = split_lines(c);
    let mut texts: Vec<String> = Vec::new();
    let mut k: usize = 0;
    while k < rows.len()
        invariant
            k <= rows.len(),
            rows_v(rows@) == text_lines(c@),
            texts@.map_values(|x: String| x@) =~= rows_v(rows@).take(k as int),
        decreases rows.len() - k,
    {
        let ghost b = texts@;
        texts.push(string_from(&rows[k]));
        assert(texts@.map_values(|x: String| x@) =~= b.map_values(|x: String| x@).push(
            rows@[k as int]@,
        ));
        assert(rows_v(rows@).take(k + 1) =~= rows_v(rows@).take(k as int).push(rows@[k as int]@));
        k = k + 1;
    }
    assert(rows_v(rows@).take(k as int) =~= rows_v(rows@));
    texts
}

/// The text of each outline line.
fn outline_texts(lines: &Vec<SimplifiedLine>) -> (r: Vec<String>)
    ensures
        r@.map_values(|x: String| x@) == lines_v(lines@).map_values(|l: LineV| line_text(l)),
{
    let ghost lv = lines_v(lines@);
    let mut texts: Vec<String> = Vec::new();
    let mut k: usize = 0;
    while k < lines.len()
        invariant
            k <= lines.len(),
            lv == lines_v(lines@),
            texts@.map_values(|x: String| x@) =~= lv.map_values(|l: LineV| line_text(l)).take(
                k as int,
            ),
        decreases lines.len() - k,
    {
        let ghost b = texts@;
        texts.push(simplified_line_text(&lines[k]));
        assert(texts@.map_values(|x: String| x@) =~= b.map_values(|x: String| x@).push(
            line_text(lv[k as int]),
        ));
        assert(lv.map_values(|l: LineV| line_text(l)).take(k + 1) =~= lv.map_values(
            |l: LineV| line_text(l),
        ).take(k as int).push(line_text(lv[k as int])));
        k = k + 1;
    }
    assert(lv.map_values(|l: LineV| line_text(l)).take(k as int) =~= lv.map_values(
        |l: LineV| line_text(l),
    ));
    texts
}

/// The lines `start..=end` of `texts` (as far as there are), joined.
fn join_range(texts: &Vec<String>, start: usize, end: usize) -> (r: String)
    ensures
        r@ == join_lines(line_range(texts@.map_values(|x: String| x@), start as int, end as int)),
{
    let ghost all = texts@.map_values(|x: String| x@);
    let a = if start < texts.len() {
        start
    } else {
        texts.len()
    };
    let b = if end < texts.len() && end + 1 < texts.len() {
        end + 1
    } else {
        texts.len()
    };
    if a > b {
        assert(line_range(all, start as int, end as int) =~= Seq::<Seq<char>>::empty());
        return String::new();
    }
    let mut out = String::new();
    let mut k = a;
    while k < b
        invariant
            a <= k <= b <= texts.len(),
            all == texts@.map_values(|x: String| x@),
            out@ == join_lines(all.subrange(a as int, k as int)),
        decreases b - k,
    {
        if k > a {
            out.push('\n');
        }
        push_str(&mut out, texts[k].as_str());
        proof {
            let part = all.subrange(a as int, k + 1);
            assert(part.drop_last() =~= all.subrange(a as int, k as int));
            assert(part.last() == texts@[k as int]@);
            if k > a {
                assert(out@ =~= join_lines(part.drop_last()) + seq!['\n'] + part.last());
            } else {
                assert(part.len() == 1);
                assert(out@ =~= part[0]);
            }
        }
        k = k + 1;
    }
    assert(all.subrange(a as int, b as int) == line_range(all, start as int, end as int));
    out
}

/// The viewer after `next_tab`.
pub open spec fn next_tab_v(v: ViewerV) -> ViewerV {
    if v.tabs.len() == 0 {
        v
    } else {
        synced(ViewerV {
                active: ((v.active + 1) % (v.tabs.len() as int)) as usize,
                ..v
            })
    }
}

/// The viewer after `prev_tab`.
pub open spec fn prev_tab_v(v: ViewerV) -> ViewerV {
    if v.tabs.len() == 0 {
        v
    } else {
        synced(ViewerV {
                active: if v.active == 0 {
                    (v.tabs.len() - 1) as usize
                } else {
                    (v.active - 1) as usize
                },
                ..v
            })
    }
}

/// The viewer after `close_tab`.
pub open spec fn close_tab_v(v: ViewerV) -> ViewerV {
    if v.tabs.len() == 0 {
        v
    } else {
        synced(ViewerV {
                tabs: v.tabs.remove(v.active as int),
                active: if v.tabs.len() == 1 {
                    0
                } else if v.active >= v.tabs.len() - 1 {
                    (v.tabs.len() - 2) as usize
                } else {
                    v.active
                },
                ..v
            })
    }
}

/// The viewer after `toggle_mode`.
pub open spec fn toggle_mode_v(v: ViewerV) -> ViewerV {
    ({
                let v1 = if has_active(v) {
                    let t = v.tabs[v.active as int];
                    with_active(
                        v,
                        TabV {
                            mode: match t.mode {
                                ViewerMode::Raw => ViewerMode::Simplified,
                                ViewerMode::Simplified => ViewerMode::Raw,
                            },
                            scroll: 0,
                            selected: 0,
                            ..t
                        },
                    )
                } else {
                    v
                };
                ViewerV { matches: matches_of(v1), ..v1 }
            })
}

/// The viewer after `scroll_down`.
pub open spec fn scroll_down_v(v: ViewerV) -> ViewerV {
    if has_active(v) {
                with_active(v, scrolled_down(v.tabs[v.active as int]))
            } else {
                v
            }
}

/// The viewer after `scroll_up`.
pub open spec fn scroll_up_v(v: ViewerV) -> ViewerV {
    if has_active(v) {
                let t = v.tabs[v.active as int];
                with_active(
                    v,
                    TabV {
                        selected: if t.selected > 0 {
                            (t.selected - 1) as usize
                        } else {
                            0
                        },
                        ..t
                    },
                )
            } else {
                v
            }
}

/// The viewer after `toggle_expand`.
pub open spec fn toggle_expand_v(v: ViewerV) -> ViewerV {
    if has_active(v) && v.tabs[v.active as int].mode
                == ViewerMode::Simplified {
                with_active(v, refolded(v.tabs[v.active as int], 0))
            } else {
                v
            }
}

/// The viewer after `expand_current`.
pub open spec fn expand_current_v(v: ViewerV) -> ViewerV {
    if has_active(v) {
                with_active(v, refolded(v.tabs[v.active as int], 1))
            } else {
                v
            }
}

/// The viewer after `collapse_current`.
pub open spec fn collapse_current_v(v: ViewerV) -> ViewerV {
    if has_active(v) {
                with_active(v, refolded(v.tabs[v.active as int], 2))
            } else {
                v
            }
}

/// The viewer after `toggle_visual`.
pub open spec fn toggle_visual_v(v: ViewerV) -> ViewerV {
    if has_active(v) {
                let t = v.tabs[v.active as int];
                with_active(
                    v,
                    TabV {
                        anchor: if t.anchor is Some {
                            None
                        } else {
                            Some(t.selected)
                        },
                        ..t
                    },
                )
            } else {
                v
            }
}

/// The viewer after `start_search`.
pub open spec fn start_search_v(v: ViewerV) -> ViewerV {
    (ViewerV { search_active: true, search_input: Seq::empty(), ..v })
}

/// The viewer after `search_push`.
pub open spec fn search_push_v(v: ViewerV, ch: char) -> ViewerV {
    ({
                let v1 = ViewerV { search_input: v.search_input.push(ch), ..v };
                ViewerV { matches: matches_of(v1), ..v1 }
            })
}

/// The viewer after `search_pop`.
pub open spec fn search_pop_v(v: ViewerV) -> ViewerV {
    ({
                let v1 = ViewerV {
                    search_input: if v.search_input.len() > 0 {
                        v.search_input.drop_last()
                    } else {
                        v.search_input
                    },
                    ..v
                };
                ViewerV { matches: matches_of(v1), ..v1 }
            })
}

/// The viewer after `search_commit`.
pub open spec fn search_commit_v(v: ViewerV) -> ViewerV {
    ({
                let v1 = ViewerV { search_active: false, ..v };
                if v.search_input.len() == 0 {
                    ViewerV { search_query: None, matches: Seq::empty(), ..v1 }
                } else {
                    let v2 = ViewerV { search_query: Some(v.search_input), ..v1 };
                    let v3 = ViewerV { matches: matches_of(v2), ..v2 };
                    if v3.matches.len() > 0 {
                        let v4 = ViewerV { match_idx: 0, ..v3 };
                        if has_active(v4) {
                            with_active(
                                v4,
                                TabV { selected: v3.matches[0], ..v4.tabs[v4.active as int] },
                            )
                        } else {
                            v4
                        }
                    } else {
                        v3
                    }
                }
            })
}

/// The viewer after `search_cancel`.
pub open spec fn search_cancel_v(v: ViewerV) -> ViewerV {
    (ViewerV {
                search_active: false,
                search_input: Seq::empty(),
                search_query: None,
                matches: Seq::empty(),
                ..v
            })
}

/// The viewer after `search_next`.
pub open spec fn search_next_v(v: ViewerV) -> ViewerV {
    if v.matches.len() == 0 {
        v
    } else {
        ({
                let idx = ((v.match_idx + 1) % (v.matches.len() as int)) as usize;
                let v1 = ViewerV { match_idx: idx, ..v };
                if has_active(v1) {
                    with_active(v1, TabV { selected: v1.matches[idx as int], ..v1.tabs[v1.active as int] })
                } else {
                    v1
                }
            })
    }
}

/// The viewer after `search_prev`.
pub open spec fn search_prev_v(v: ViewerV) -> ViewerV {
    if v.matches.len() == 0 {
        v
    } else {
        ({
                let idx = if v.match_idx == 0 {
                    (v.matches.len() - 1) as usize
                } else {
                    (v.match_idx - 1) as usize
                };
                let v1 = ViewerV { match_idx: idx, ..v };
                if has_active(v1) {
                    with_active(v1, TabV { selected: v1.matches[idx as int], ..v1.tabs[v1.active as int] })
                } else {
                    v1
                }
            })
    }
}

/// The viewer after `set_raw_content`.
pub open spec fn raw_set_v(v: ViewerV, path: Seq<char>, content: Seq<char>) -> ViewerV {
    synced(ViewerV {
                tabs: ensured(v.tabs, path).0.update(
                    ensured(v.tabs, path).1,
                    TabV {
                        raw: Some(content),
                        content: ContentV::Empty,
                        lines: Seq::empty(),
                        expanded: Set::empty(),
                        scroll: 0,
                        selected: 0,
                        simplified_scroll: 0,
                        ..ensured(v.tabs, path).0[ensured(v.tabs, path).1]
                    },
                ),
                active: ensured(v.tabs, path).1 as usize,
                ..v
            })
}

/// The viewer after `set_parsed_dts`.
pub open spec fn dts_set_v(v: ViewerV, path: Seq<char>, tree: TreeV) -> ViewerV {
    synced(ViewerV {
                tabs: ensured(v.tabs, path).0.update(
                    ensured(v.tabs, path).1,
                    TabV {
                        content: ContentV::Dts(tree),
                        expanded: set![seq!['/'], seq!['/', '/', 's', 'o', 'c']],
                        lines: dts_lines(tree, set![seq!['/'], seq!['/', '/', 's', 'o', 'c']]),
                        selected: 0,
                        simplified_scroll: 0,
                        ..ensured(v.tabs, path).0[ensured(v.tabs, path).1]
                    },
                ),
                active: ensured(v.tabs, path).1 as usize,
                ..v
            })
}

/// The viewer after `set_parsed_binding`.
pub open spec fn binding_set_v(v: ViewerV, path: Seq<char>, binding: BindingSummary) -> ViewerV {
    synced(ViewerV {
                tabs: ensured(v.tabs, path).0.update(
                    ensured(v.tabs, path).1,
                    TabV {
                        content: ContentV::Binding(binding),
                        expanded: Set::empty(),
                        lines: binding_lines(binding, Set::empty()),
                        selected: 0,
                        simplified_scroll: 0,
                        ..ensured(v.tabs, path).0[ensured(v.tabs, path).1]
                    },
                ),
                active: ensured(v.tabs, path).1 as usize,
                ..v
            })
}

/// The viewer after `follow_cursor`.
pub open spec fn follow_cursor_v(v: ViewerV, height: usize) -> ViewerV {
    if has_active(v) {
                let t = v.tabs[v.active as int];
                with_active(
                    v,
                    match t.mode {
                        ViewerMode::Raw => TabV { scroll: follow(t.scroll, t.selected, height), ..t },
                        ViewerMode::Simplified => TabV {
                            simplified_scroll: follow(t.simplified_scroll, t.selected, height),
                            ..t
                        },
                    },
                )
            } else {
                v
            }
}

impl ViewerState {
    /// The viewer's tabs are well formed: each tree it shows is of bounded
    /// depth, and the active index is that of a tab (or 0 without tabs).
    pub closed spec fn wf(&self) -> bool {
        &&& forall|i: int| 0 <= i < self.tabs@.len() ==> #[trigger] tab_ok(self.tabs@[i])
        &&& (self.active < self.tabs@.len() || (self.tabs@.len() == 0 && self.active == 0))
    }

    /// A viewer with no tab and no search.
    pub fn new() -> (v: ViewerState)
        ensures
            v.wf(),
            v@ == (ViewerV {
                tabs: Seq::empty(),
                active: 0,
                current_file: None,
                search_active: false,
                search_input: Seq::empty(),
                search_query: None,
                matches: Seq::empty(),
                match_idx: 0,
            }),
    {
        let v = ViewerState {
            tabs: Vec::new(),
            active: 0,
            current_file: None,
            search_active: false,
            search_input: String::new(),
            search_query: None,
            search_matches: Vec::new(),
            search_match_idx: 0,
        };
        assert(v@.tabs =~= Seq::<TabV>::empty());
        v
    }

    /// The open tabs.
    pub fn tabs(&self) -> (r: &Vec<Tab>)
        ensures
            r@.map_values(|t: Tab| t@) == self@.tabs,
    {
        &self.tabs
    }

    /// The index of the active tab.
    pub fn active(&self) -> (r: usize)
        ensures
            r == self@.active,
    {
        self.active
    }

    /// The lines that match the search, and which of them is current.
    pub fn search_matches(&self) -> (r: (&Vec<usize>, usize))
        ensures
            r.0@ == self@.matches,
            r.1 == self@.match_idx,
    {
        (&self.search_matches, self.search_match_idx)
    }

    fn sync_current_file(&mut self)
        ensures
            final(self)@ == synced(old(self)@),
            final(self).tabs@ == old(self).tabs@,
            final(self).active == old(self).active,
    {
        self.current_file = if self.active < self.tabs.len() {
            Some(string_of(self.tabs[self.active].file.as_str()))
        } else {
            None
        };
    }

    /// Makes the next tab active, round the list.
    pub fn next_tab(&mut self)
        requires
            old(self).wf(),
        ensures
            final(self).wf(),
            final(self)@ == next_tab_v(old(self)@),
    {
        if self.tabs.len() > 0 {
            self.active = (self.active + 1) % self.tabs.len();
            self.sync_current_file();
        }
    }

    /// Makes the previous tab active, round the list.
    pub fn prev_tab(&mut self)
        requires
            old(self).wf(),
        ensures
            final(self).wf(),
            final(self)@ == prev_tab_v(old(self)@),
    {
        if self.tabs.len() > 0 {
            self.active = if self.active == 0 {
                self.tabs.len() - 1
            } else {
                self.active - 1
            };
            self.sync_current_file();
        }
    }

    /// Closes the active tab; the next one (or the last) becomes active.
    pub fn close_tab(&mut self)
        requires
            old(self).wf(),
        ensures
            final(self).wf(),
            final(self)@ == close_tab_v(old(self)@),
    {
        if self.tabs.len() == 0 {
            return;
        }
        let ghost before = self.tabs@;
        let _closed = self.tabs.remove(self.active);
        assert(self.tabs@.map_values(|t: Tab| t@) =~= before.map_values(|t: Tab| t@).remove(
            old(self).active as int,
        ));
        if self.tabs.len() == 0 {
            self.active = 0;
        } else if self.active >= self.tabs.len() {
            self.active = self.tabs.len() - 1;
        }
        self.sync_current_file();
        assert forall|i: int| 0 <= i < self.tabs@.len() implies #[trigger] tab_ok(self.tabs@[i]) by {
            if i < old(self).active {
                assert(self.tabs@[i] == before[i]);
            } else {
                assert(self.tabs@[i] == before[i + 1]);
            }
        }
    }

    /// Finds the tab of `path`, opening a fresh one when there is none.
    fn ensure_tab(&mut self, path: &str) -> (i: usize)
        requires
            old(self).wf(),
        ensures
            final(self)@ == (ViewerV { tabs: ensured(old(self)@.tabs, path@).0, ..old(self)@ }),
            i == ensured(old(self)@.tabs, path@).1,
            i < final(self)@.tabs.len(),
            forall|j: int| 0 <= j < final(self).tabs@.len() ==> #[trigger] tab_ok(final(self).tabs@[j]),
            final(self).active == old(self).active,
    {
        let ghost tv = self@.tabs;
        let mut k: usize = 0;
        while k < self.tabs.len()
            invariant
                k <= self.tabs.len(),
                tv == self@.tabs,
                forall|j: int| 0 <= j < self.tabs@.len() ==> #[trigger] tab_ok(self.tabs@[j]),
                tab_of_from(tv, path@, 0) == tab_of_from(tv, path@, k as int),
            decreases self.tabs.len() - k,
        {
            assert(tv[k as int] == self.tabs@[k as int]@);
            if str_eq(self.tabs[k].file.as_str(), path) {
                return k;
            }
            k = k + 1;
        }
        let t = Tab::new(string_of(path));
        self.tabs.push(t);
        assert(self@.tabs =~= tv.push(new_tab_v(path@)));
        self.tabs.len() - 1
    }

    /// Takes the tab at `i` out of the list.
    fn take_tab(&mut self, i: usize) -> (t: Tab)
        requires
            i < old(self).tabs@.len(),
        ensures
            t == old(self).tabs@[i as int],
            final(self).tabs@ == old(self).tabs@.remove(i as int),
            final(self).active == old(self).active,
            final(self)@ == (ViewerV { tabs: final(self)@.tabs, ..old(self)@ }),
    {
        self.tabs.remove(i)
    }

    /// Puts a tab back at `i`.
    fn put_tab(&mut self, i: usize, t: Tab)
        requires
            i <= old(self).tabs@.len(),
        ensures
            final(self).tabs@ == old(self).tabs@.insert(i as int, t),
            final(self).active == old(self).active,
            final(self)@ == (ViewerV { tabs: final(self)@.tabs, ..old(self)@ }),
    {
        self.tabs.insert(i, t);
    }

    /// Replaces the active tab (given that `t` came from it).
    fn restore_active(&mut self, t: Tab)
        requires
            old(self).active <= old(self).tabs@.len(),
        ensures
            final(self).tabs@ == old(self).tabs@.insert(old(self).active as int, t),
            final(self)@ == (ViewerV { tabs: final(self)@.tabs, ..old(self)@ }),
    {
        let i = self.active;
        self.put_tab(i, t);
    }

    /// Opens (or finds) the tab of `path` and shows its raw text; the
    /// outline and the folding are dropped and the cursor goes to the top.
    pub fn set_raw_content(&mut self, path: String, content: String)
        requires
            old(self).wf(),
        ensures
            final(self).wf(),
            final(self)@ == raw_set_v(old(self)@, path@, content@),
    {
        let idx = self.ensure_tab(path.as_str());
        let ghost mid = self.tabs@;
        self.active = idx;
        let mut t = self.take_tab(idx);
        t.raw_content = Some(content);
        t.content = ViewContent::Empty;
        t.simplified_lines = Vec::new();
        t.expanded = Vec::new();
        t.scroll = 0;
        t.selected_line = 0;
        t.simplified_scroll = 0;
        assert(key_set(t.expanded@) =~= Set::<Seq<char>>::empty());
        assert(lines_v(t.simplified_lines@) =~= Seq::<LineV>::empty());
        let ghost tv = t@;
        self.put_tab(idx, t);
        assert(self.tabs@ =~= mid.update(idx as int, self.tabs@[idx as int]));
        assert(self@.tabs =~= mid.map_values(|t: Tab| t@).update(idx as int, tv));
        self.sync_current_file();
        assert forall|j: int| 0 <= j < self.tabs@.len() implies #[trigger] tab_ok(self.tabs@[j]) by {
            if j != idx {
                assert(self.tabs@[j] == mid[j]);
            }
        }
    }

    /// Opens (or finds) the tab of `path` and shows the outline of `tree`,
    /// with the root and `soc` unfolded.
    pub fn set_parsed_dts(&mut self, path: String, tree: DeviceTree)
        requires
            old(self).wf(),
            tree_depth_ok(&tree),
        ensures
            final(self).wf(),
            final(self)@ == dts_set_v(old(self)@, path@, tree@),
    {
        let idx = self.ensure_tab(path.as_str());
        let ghost mid = self.tabs@;
        self.active = idx;
        let mut t = self.take_tab(idx);
        let ghost tree_v = tree@;
        t.content = ViewContent::Dts(tree);
        let mut keys: Vec<String> = Vec::new();
        keys.push(string_of("/"));
        keys.push(string_of("//soc"));
        proof {
            reveal_strlit("/");
            reveal_strlit("//soc");
            assert("/"@ =~= seq!['/']);
            assert("//soc"@ =~= seq!['/', '/', 's', 'o', 'c']);
            assert(key_set(keys@) =~= set![seq!['/'], seq!['/', '/', 's', 'o', 'c']]) by {
                assert(keys@[0]@ == seq!['/']);
                assert(keys@[1]@ == seq!['/', '/', 's', 'o', 'c']);
            }
        }
        t.expanded = keys;
        t.rebuild();
        t.selected_line = 0;
        t.simplified_scroll = 0;
        let ghost tv = t@;
        self.put_tab(idx, t);
        assert(self@.tabs =~= mid.map_values(|t: Tab| t@).update(idx as int, tv));
        self.sync_current_file();
        assert forall|j: int| 0 <= j < self.tabs@.len() implies #[trigger] tab_ok(self.tabs@[j]) by {
            if j != idx {
                assert(self.tabs@[j] == mid[j]);
            }
        }
    }

    /// Opens (or finds) the tab of `path` and shows the outline of a binding.
    pub fn set_parsed_binding(&mut self, path: String, binding: BindingSummary)
        requires
            old(self).wf(),
        ensures
            final(self).wf(),
            final(self)@ == binding_set_v(old(self)@, path@, binding),
    {
        let idx = self.ensure_tab(path.as_str());
        let ghost mid = self.tabs@;
        self.active = idx;
        let mut t = self.take_tab(idx);
        t.content = ViewContent::Binding(binding);
        t.expanded = Vec::new();
        assert(key_set(t.expanded@) =~= Set::<Seq<char>>::empty());
        t.rebuild();
        t.selected_line = 0;
        t.simplified_scroll = 0;
        let ghost tv = t@;
        self.put_tab(idx, t);
        assert(self@.tabs =~= mid.map_values(|t: Tab| t@).update(idx as int, tv));
        self.sync_current_file();
        assert forall|j: int| 0 <= j < self.tabs@.len() implies #[trigger] tab_ok(self.tabs@[j]) by {
            if j != idx {
                assert(self.tabs@[j] == mid[j]);
            }
        }
    }

    /// Recomputes which lines of the active tab match the search.
    fn update_search_matches(&mut self)
        ensures
            final(self)@ == (ViewerV { matches: matches_of(old(self)@), ..old(self)@ }),
            final(self).tabs@ == old(self).tabs@,
            final(self).active == old(self).active,
    {
        let query: String = if self.search_active {
            string_of(self.search_input.as_str())
        } else {
            match &self.search_query {
                Some(q) => string_of(q.as_str()),
                None => {
                    self.search_matches = Vec::new();
                    return;
                },
            }
        };
        if query.as_str().is_empty() || self.active >= self.tabs.len() {
            self.search_matches = Vec::new();
            return;
        }
        let tab = &self.tabs[self.active];
        let ghost tv = tab@;
        assert(tv == self@.tabs[self.active as int]);
        let mut texts: Vec<String> = Vec::new();
        let mut have = true;
        match tab.mode {
            ViewerMode::Raw => match &tab.raw_content {
                Some(c) => {
                    let rows = split_lines(c.as_str());
                    let mut k: usize = 0;
                    while k < rows.len()
                        invariant
                            k <= rows.len(),
                            texts@.map_values(|x: String| x@) =~= rows_v(rows@).take(k as int),
                        decreases rows.len() - k,
                    {
                        let ghost before = texts@;
                        texts.push(string_from(&rows[k]));
                        assert(texts@.map_values(|x: String| x@) =~= before.map_values(|x: String| x@).push(rows@[k as int]@));
                        assert(rows_v(rows@).take(k + 1) =~= rows_v(rows@).take(k as int).push(rows@[k as int]@));
                        k = k + 1;
                    }
                    assert(rows_v(rows@).take(k as int) =~= rows_v(rows@));
                },
                None => {
                    have = false;
                },
            },
            ViewerMode::Simplified => {
                let mut k: usize = 0;
                while k < tab.simplified_lines.len()
                    invariant
                        k <= tab.simplified_lines.len(),
                        tv == tab@,
                        texts@.map_values(|x: String| x@) =~= tv.lines.map_values(|l: LineV| line_text(l)).take(k as int),
                    decreases tab.simplified_lines.len() - k,
                {
                    let ghost before = texts@;
                    let line_str = simplified_line_text(&tab.simplified_lines[k]);
                    texts.push(line_str);
                    assert(tv.lines[k as int] == tab.simplified_lines@[k as int]@);
                    assert(texts@.map_values(|x: String| x@) =~= before.map_values(|x: String| x@).push(line_text(tv.lines[k as int])));
                    assert(tv.lines.map_values(|l: LineV| line_text(l)).take(k + 1) =~= tv.lines.map_values(|l: LineV| line_text(l)).take(k as int).push(line_text(tv.lines[k as int])));
                    k = k + 1;
                }
                assert(tv.lines.map_values(|l: LineV| line_text(l)).take(k as int) =~= tv.lines.map_values(|l: LineV| line_text(l)));
            },
        }
        if !have {
            self.search_matches = Vec::new();
            return;
        }
        let mut names: Vec<&str> = Vec::new();
        let mut j: usize = 0;
        while j < texts.len()
            invariant
                j <= texts.len(),
                names@.map_values(|x: &str| x@) =~= texts@.map_values(|x: String| x@).take(j as int),
            decreases texts.len() - j,
        {
            let ghost before = names@;
            names.push(texts[j].as_str());
            assert(names@.map_values(|x: &str| x@) =~= before.map_values(|x: &str| x@).push(texts@[j as int]@));
            assert(texts@.map_values(|x: String| x@).take(j + 1) =~= texts@.map_values(|x: String| x@).take(j as int).push(texts@[j as int]@));
            j = j + 1;
        }
        assert(texts@.map_values(|x: String| x@).take(j as int) =~= texts@.map_values(|x: String| x@));
        let found = crate::file_tree::matching_indices(&names, query.as_str());
        self.search_matches = found;
    }

    /// Switches the active tab between raw text and outline; the cursor
    /// goes to the top and the search follows.
    pub fn toggle_mode(&mut self)
        requires
            old(self).wf(),
        ensures
            final(self).wf(),
            final(self)@ == toggle_mode_v(old(self)@),
    {
        if self.active < self.tabs.len() {
            let i = self.active;
            let ghost before = self.tabs@;
            let mut t = self.take_tab(i);
            assert(tab_ok(t));
            t.mode = match t.mode {
                ViewerMode::Raw => ViewerMode::Simplified,
                ViewerMode::Simplified => ViewerMode::Raw,
            };
            t.scroll = 0;
            t.selected_line = 0;
            let ghost tv = t@;
            assert(tab_ok(t));
            self.put_tab(i, t);
            assert(self.tabs@ =~= before.update(i as int, self.tabs@[i as int]));
            assert(self@.tabs =~= before.map_values(|t: Tab| t@).update(i as int, tv));
            assert forall|j: int| 0 <= j < self.tabs@.len() implies #[trigger] tab_ok(self.tabs@[j]) by {
                if j != i {
                    assert(self.tabs@[j] == before[j]);
                }
            }
        }
        self.update_search_matches();
    }

    /// Moves the cursor of the active tab down a line, when one follows.
    pub fn scroll_down(&mut self)
        requires
            old(self).wf(),
        ensures
            final(self).wf(),
            final(self)@ == scroll_down_v(old(self)@),
    {
        if self.active < self.tabs.len() {
            let i = self.active;
            let ghost before = self.tabs@;
            let mut t = self.take_tab(i);
            assert(tab_ok(t));
            let total = t.total_lines();
            if total > 0 && t.selected_line < total - 1 {
                t.selected_line = t.selected_line + 1;
            }
            let ghost tv = t@;
            assert(tab_ok(t));
            self.put_tab(i, t);
            assert(self.tabs@ =~= before.update(i as int, self.tabs@[i as int]));
            assert(self@.tabs =~= before.map_values(|t: Tab| t@).update(i as int, tv));
            assert forall|j: int| 0 <= j < self.tabs@.len() implies #[trigger] tab_ok(self.tabs@[j]) by {
                if j != i {
                    assert(self.tabs@[j] == before[j]);
                }
            }
        }
    }

    /// Moves the cursor of the active tab up a line, when one precedes.
    pub fn scroll_up(&mut self)
        requires
            old(self).wf(),
        ensures
            final(self).wf(),
            final(self)@ == scroll_up_v(old(self)@),
    {
        if self.active < self.tabs.len() {
            let i = self.active;
            let ghost before = self.tabs@;
            let mut t = self.take_tab(i);
            assert(tab_ok(t));
            if t.selected_line > 0 {
                t.selected_line = t.selected_line - 1;
            }
            let ghost tv = t@;
            assert(tab_ok(t));
            self.put_tab(i, t);
            assert(self.tabs@ =~= before.update(i as int, self.tabs@[i as int]));
            assert(self@.tabs =~= before.map_values(|t: Tab| t@).update(i as int, tv));
            assert forall|j: int| 0 <= j < self.tabs@.len() implies #[trigger] tab_ok(self.tabs@[j]) by {
                if j != i {
                    assert(self.tabs@[j] == before[j]);
                }
            }
        }
    }

    /// Whether the viewer is well formed (see `wf`): every parsed tree of a
    /// tab is shallow enough to walk, and the active tab exists when any
    /// does.
    pub fn wf_now(&self) -> (r: bool)
        ensures
            r == self.wf(),
    {
        if !(self.active < self.tabs.len() || (self.tabs.len() == 0 && self.active == 0)) {
            return false;
        }
        let mut i: usize = 0;
        while i < self.tabs.len()
            invariant
                i <= self.tabs.len(),
                forall|j: int| 0 <= j < i ==> #[trigger] tab_ok(self.tabs@[j]),
            decreases self.tabs.len() - i,
        {
            let ok = match &self.tabs[i].content {
                ViewContent::Dts(tr) => crate::serializer::tree_fits(tr),
                _ => true,
            };
            assert(ok == tab_ok(self.tabs@[i as int]));
            if !ok {
                return false;
            }
            i = i + 1;
        }
        true
    }

    /// Keeps the cursor of the active tab within a window of `height` lines.
    pub fn follow_cursor(&mut self, height: usize)
        requires
            old(self).wf(),
        ensures
            final(self).wf(),
            final(self)@ == follow_cursor_v(old(self)@, height),
    {
        if self.active < self.tabs.len() {
            let i = self.active;
            let ghost before = self.tabs@;
            let mut t = self.take_tab(i);
            assert(tab_ok(t));
            let sel = t.selected_line;
            let top = match t.mode {
                ViewerMode::Raw => t.scroll,
                ViewerMode::Simplified => t.simplified_scroll,
            };
            let new_top = if sel < top {
                sel
            } else if sel - top >= height {
                if height == 0 {
                    sel
                } else {
                    sel - (height - 1)
                }
            } else {
                top
            };
            match t.mode {
                ViewerMode::Raw => {
                    t.scroll = new_top;
                },
                ViewerMode::Simplified => {
                    t.simplified_scroll = new_top;
                },
            }
            let ghost tv = t@;
            assert(tab_ok(t));
            self.put_tab(i, t);
            assert(self.tabs@ =~= before.update(i as int, self.tabs@[i as int]));
            assert(self@.tabs =~= before.map_values(|t: Tab| t@).update(i as int, tv));
            assert forall|j: int| 0 <= j < self.tabs@.len() implies #[trigger] tab_ok(self.tabs@[j]) by {
                if j != i {
                    assert(self.tabs@[j] == before[j]);
                }
            }
        }
    }

    /// Folds or unfolds the line under the cursor of the active tab: `op`
    /// 0 toggles, 1 unfolds, 2 folds.
    fn refold(&mut self, op: u8)
        requires
            old(self).wf(),
            op <= 2,
        ensures
            final(self).wf(),
            final(self)@ == if has_active(old(self)@) {
                with_active(old(self)@, refolded(old(self)@.tabs[old(self)@.active as int], op as int))
            } else {
                old(self)@
            },
    {
        if self.active < self.tabs.len() {
            let i = self.active;
            let ghost before = self.tabs@;
            let mut t = self.take_tab(i);
            assert(tab_ok(t));
            if t.selected_line < t.simplified_lines.len() {
                let key = string_of(t.simplified_lines[t.selected_line].path_key.as_str());
                assert(t@.lines[t.selected_line as int].key == key@);
                let has = has_key(&t.expanded, key.as_str());
                let change = op == 0 || (op == 1 && !has) || (op == 2 && has);
                if change {
                    let mut keys = Vec::new();
                    std::mem::swap(&mut keys, &mut t.expanded);
                    if has {
                        t.expanded = without_key(keys, key.as_str());
                    } else {
                        t.expanded = with_key(keys, key.as_str());
                    }
                    t.rebuild();
                }
            }
            let ghost tv = t@;
            assert(tab_ok(t));
            self.put_tab(i, t);
            assert(self.tabs@ =~= before.update(i as int, self.tabs@[i as int]));
            assert(self@.tabs =~= before.map_values(|t: Tab| t@).update(i as int, tv));
            assert forall|j: int| 0 <= j < self.tabs@.len() implies #[trigger] tab_ok(self.tabs@[j]) by {
                if j != i {
                    assert(self.tabs@[j] == before[j]);
                }
            }
        }
    }

    /// Folds or unfolds the outline line under the cursor.
    pub fn toggle_expand(&mut self)
        requires
            old(self).wf(),
        ensures
            final(self).wf(),
            final(self)@ == toggle_expand_v(old(self)@),
    {
        if self.active < self.tabs.len() && self.tabs[self.active].mode == ViewerMode::Simplified {
            self.refold(0);
        }
    }

    /// Unfolds the outline line under the cursor.
    pub fn expand_current(&mut self)
        requires
            old(self).wf(),
        ensures
            final(self).wf(),
            final(self)@ == expand_current_v(old(self)@),
    {
        self.refold(1);
    }

    /// Folds the outline line under the cursor.
    pub fn collapse_current(&mut self)
        requires
            old(self).wf(),
        ensures
            final(self).wf(),
            final(self)@ == collapse_current_v(old(self)@),
    {
        self.refold(2);
    }

    /// Starts a visual selection at the cursor, or ends the one being made.
    pub fn toggle_visual(&mut self)
        requires
            old(self).wf(),
        ensures
            final(self).wf(),
            final(self)@ == toggle_visual_v(old(self)@),
    {
        if self.active < self.tabs.len() {
            let i = self.active;
            let ghost before = self.tabs@;
            let mut t = self.take_tab(i);
            assert(tab_ok(t));
            t.selection_anchor = if t.selection_anchor.is_some() {
                None
            } else {
                Some(t.selected_line)
            };
            let ghost tv = t@;
            self.put_tab(i, t);
            assert(self.tabs@ =~= before.update(i as int, self.tabs@[i as int]));
            assert(self@.tabs =~= before.map_values(|t: Tab| t@).update(i as int, tv));
            assert forall|j: int| 0 <= j < self.tabs@.len() implies #[trigger] tab_ok(self.tabs@[j]) by {
                if j != i {
                    assert(self.tabs@[j] == before[j]);
                }
            }
        }
    }

    /// Whether a search query is being typed.
    pub fn is_typing_search(&self) -> (r: bool)
        ensures
            r == self@.search_active,
    {
        self.search_active
    }

    /// Whether a search query was committed.
    pub fn has_search_query(&self) -> (r: bool)
        ensures
            r == (self@.search_query is Some),
    {
        self.search_query.is_some()
    }

    /// Whether a visual selection is being made in the active tab.
    pub fn in_visual_mode(&self) -> (r: bool)
        ensures
            r == (has_active(self@) && self@.tabs[self@.active as int].anchor is Some),
    {
        if self.active < self.tabs.len() {
            assert(self@.tabs[self.active as int] == self.tabs@[self.active as int]@);
            self.tabs[self.active].selection_anchor.is_some()
        } else {
            false
        }
    }

    /// Ends the visual selection and gives the text of its lines.
    pub fn yank_selection(&mut self) -> (r: Option<String>)
        requires
            old(self).wf(),
        ensures
            final(self).wf(),
            !has_active(old(self)@) ==> r is None && final(self)@ == old(self)@,
            has_active(old(self)@) ==> ({
                let y = yanked(old(self)@.tabs[old(self)@.active as int]);
                &&& match y.0 {
                    Some(text) => r matches Some(s) && s@ == text,
                    None => r is None,
                }
                &&& final(self)@ == with_active(old(self)@, y.1)
            }),
    {
        if self.active >= self.tabs.len() {
            return None;
        }
        let i = self.active;
        let ghost before = self.tabs@;
        let mut t = self.take_tab(i);
        assert(tab_ok(t));
        let ghost t0 = t@;
        let anchor = match t.selection_anchor {
            Some(a) => a,
            None => {
                self.put_tab(i, t);
                assert(self.tabs@ =~= before);
                assert(old(self)@.tabs.update(i as int, t0) =~= old(self)@.tabs);
                return None;
            },
        };
        t.selection_anchor = None;
        let start = if anchor < t.selected_line {
            anchor
        } else {
            t.selected_line
        };
        let end = if anchor < t.selected_line {
            t.selected_line
        } else {
            anchor
        };
        let texts: Option<Vec<String>> = match t.mode {
            ViewerMode::Raw => match &t.raw_content {
                Some(c) => Some(raw_texts(c.as_str())),
                None => None,
            },
            ViewerMode::Simplified => Some(outline_texts(&t.simplified_lines)),
        };
        let ghost tv = t@;
        self.put_tab(i, t);
        assert(self.tabs@ =~= before.update(i as int, self.tabs@[i as int]));
        assert(self@.tabs =~= before.map_values(|t: Tab| t@).update(i as int, tv));
        assert forall|j: int| 0 <= j < self.tabs@.len() implies #[trigger] tab_ok(self.tabs@[j]) by {
            if j != i {
                assert(self.tabs@[j] == before[j]);
            }
        }
        match texts {
            Some(v) => Some(join_range(&v, start, end)),
            None => None,
        }
    }

    /// Moves the cursor of the active tab to `line`.
    fn set_selected(&mut self, line: usize)
        requires
            old(self).wf(),
        ensures
            final(self).wf(),
            final(self)@ == if has_active(old(self)@) {
                with_active(
                    old(self)@,
                    TabV { selected: line, ..old(self)@.tabs[old(self)@.active as int] },
                )
            } else {
                old(self)@
            },
    {
        if self.active < self.tabs.len() {
            let i = self.active;
            let ghost before = self.tabs@;
            let mut t = self.take_tab(i);
            assert(tab_ok(t));
            t.selected_line = line;
            let ghost tv = t@;
            self.put_tab(i, t);
            assert(self.tabs@ =~= before.update(i as int, self.tabs@[i as int]));
            assert(self@.tabs =~= before.map_values(|t: Tab| t@).update(i as int, tv));
            assert forall|j: int| 0 <= j < self.tabs@.len() implies #[trigger] tab_ok(self.tabs@[j]) by {
                if j != i {
                    assert(self.tabs@[j] == before[j]);
                }
            }
        }
    }

    /// Starts typing a search query.
    pub fn start_search(&mut self)
        ensures
            final(self).wf() == old(self).wf(),
            final(self)@ == start_search_v(old(self)@),
    {
        self.search_active = true;
        self.search_input = String::new();
    }

    /// Types a character of the query; the matches follow.
    pub fn search_push(&mut self, ch: char)
        ensures
            final(self).wf() == old(self).wf(),
            final(self)@ == search_push_v(old(self)@, ch),
    {
        self.search_input.push(ch);
        self.update_search_matches();
    }

    /// Deletes the last character of the query; the matches follow.
    pub fn search_pop(&mut self)
        ensures
            final(self).wf() == old(self).wf(),
            final(self)@ == search_pop_v(old(self)@),
    {
        let _c = self.search_input.pop();
        self.update_search_matches();
    }

    /// Commits the query: an empty one ends the search; otherwise the
    /// matches are found and the cursor goes to the first.
    pub fn search_commit(&mut self)
        requires
            old(self).wf(),
        ensures
            final(self).wf(),
            final(self)@ == search_commit_v(old(self)@),
    {
        self.search_active = false;
        if self.search_input.as_str().is_empty() {
            self.search_query = None;
            self.search_matches = Vec::new();
        } else {
            self.search_query = Some(string_of(self.search_input.as_str()));
            self.update_search_matches();
            if self.search_matches.len() > 0 {
                let line = self.search_matches[0];
                self.search_match_idx = 0;
                self.set_selected(line);
            }
        }
    }

    /// Ends the search.
    pub fn search_cancel(&mut self)
        ensures
            final(self).wf() == old(self).wf(),
            final(self)@ == search_cancel_v(old(self)@),
    {
        self.search_active = false;
        self.search_input = String::new();
        self.search_query = None;
        self.search_matches = Vec::new();
    }

    /// Moves to the next match, round the list.
    pub fn search_next(&mut self)
        requires
            old(self).wf(),
        ensures
            final(self).wf(),
            final(self)@ == search_next_v(old(self)@),
    {
        let n = self.search_matches.len();
        if n == 0 {
            return;
        }
        let next: u128 = ((self.search_match_idx as u128) + 1) % (n as u128);
        self.search_match_idx = next as usize;
        let line = self.search_matches[self.search_match_idx];
        self.set_selected(line);
    }

    /// Moves to the previous match, round the list.
    pub fn search_prev(&mut self)
        requires
            old(self).wf(),
            old(self)@.matches.len() == 0 || old(self)@.match_idx <= old(self)@.matches.len(),
        ensures
            final(self).wf(),
            final(self)@ == search_prev_v(old(self)@),
    {
        let n = self.search_matches.len();
        if n == 0 {
            return;
        }
        self.search_match_idx = if self.search_match_idx == 0 {
            n - 1
        } else {
            self.search_match_idx - 1
        };
        let line = self.search_matches[self.search_match_idx];
        self.set_selected(line);
    }

    /// The raw line under the cursor, in raw mode.
    fn raw_line_at_cursor(&self) -> (r: Option<Vec<char>>)
        ensures
            match raw_cursor_line(self@) {
                Some(l) => r matches Some(x) && x@ == l,
                None => r is None,
            },
    {
        if self.active >= self.tabs.len() {
            return None;
        }
        let t = &self.tabs[self.active];
        assert(self@.tabs[self.active as int] == t@);
        if t.mode == ViewerMode::Simplified {
            return None;
        }
        match &t.raw_content {
            Some(c) => {
                let rows = split_lines(c.as_str());
                if t.selected_line < rows.len() {
                    let mut x: Vec<char> = Vec::new();
                    let row = &rows[t.selected_line];
                    let mut k: usize = 0;
                    while k < row.len()
                        invariant
                            k <= row.len(),
                            x@ == row@.subrange(0, k as int),
                        decreases row.len() - k,
                    {
                        x.push(row[k]);
                        k = k + 1;
                        assert(x@ =~= row@.subrange(0, k as int));
                    }
                    assert(row@.subrange(0, row@.len() as int) =~= row@);
                    assert(rows_v(rows@)[t.selected_line as int] == row@);
                    Some(x)
                } else {
                    None
                }
            },
            None => None,
        }
    }

    /// Whether the include line under the cursor (in raw mode) is cut short:
    /// what it names is a lone double quote.
    pub fn include_is_cut(&self) -> (r: bool)
        ensures
            r == (raw_cursor_line(self@) matches Some(l) && include_cut(l)),
    {
        match self.raw_line_at_cursor() {
            Some(x) => match include_rest_of(&x) {
                Some(p) => {
                    let (rest, hash) = p;
                    let delim = rest.len() >= 1 && ((hash && rest[0] == '<' && rest[rest.len() - 1]
                        == '>') || (rest[0] == '"' && rest[rest.len() - 1] == '"'));
                    delim && rest.len() < 2
                },
                None => false,
            },
            None => false,
        }
    }

    /// The file the line under the cursor includes: an include line of the
    /// outline, or an `#include` or `/include/` line of the raw text.
    pub fn selected_include(&self) -> (r: Option<String>)
        requires
            !(raw_cursor_line(self@) matches Some(l) && include_cut(l)),
        ensures
            match include_at_cursor(self@) {
                Some(p) => r matches Some(s) && s@ == p,
                None => r is None,
            },
    {
        if self.active >= self.tabs.len() {
            return None;
        }
        let t = &self.tabs[self.active];
        assert(self@.tabs[self.active as int] == t@);
        if t.mode == ViewerMode::Simplified {
            if t.selected_line < t.simplified_lines.len() {
                assert(t@.lines[t.selected_line as int] == t.simplified_lines@[t.selected_line as int]@);
                match &t.simplified_lines[t.selected_line].kind {
                    LineKind::Include(p) => {
                        return Some(string_of(p.as_str()));
                    },
                    _ => {
                        return None;
                    },
                }
            }
            return None;
        }
        match self.raw_line_at_cursor() {
            Some(x) => match include_rest_of(&x) {
                Some(p) => {
                    let (rest, hash) = p;
                    let delim = rest.len() >= 1 && ((hash && rest[0] == '<' && rest[rest.len() - 1]
                        == '>') || (rest[0] == '"' && rest[rest.len() - 1] == '"'));
                    if delim && rest.len() >= 2 {
                        Some(crate::text::substring(&rest, 1, rest.len() - 1))
                    } else {
                        None
                    }
                },
                None => None,
            },
            None => None,
        }
    }

    /// The reference and labels of the node under the cursor of the outline.
    #[verifier::spinoff_prover]
    #[verifier::rlimit(30)]
    pub fn node_at_cursor(&self) -> (r: Option<(Reference, Vec<String>)>)
        ensures
            match cursor_node(self@) {
                Some(p) => r matches Some(q) && q.0@ == p.0 && crate::model::strs_v(q.1@) == p.1,
                None => r is None,
            },
    {
        if self.active >= self.tabs.len() {
            return None;
        }
        let t = &self.tabs[self.active];
        assert(self@.tabs[self.active as int] == t@);
        if t.mode != ViewerMode::Simplified || t.selected_line >= t.simplified_lines.len() {
            return None;
        }
        let line = &t.simplified_lines[t.selected_line];
        assert(t@.lines[t.selected_line as int] == line@);
        let key: String = match &line.kind {
            LineKind::NodeHeader { .. } => string_of(line.path_key.as_str()),
            LineKind::Property { .. } => {
                let kc = to_chars(line.path_key.as_str());
                proof {
                    lemma_last_slash(kc@);
                }
                match last_slash_in(&kc) {
                    Some(i) => crate::text::substring(&kc, 0, i),
                    None => {
                        return None;
                    },
                }
            },
            _ => {
                return None;
            },
        };
        let tree = match &t.content {
            ViewContent::Dts(tree) => tree,
            _ => {
                return None;
            },
        };
        assert(cursor_node(self@) == node_found(tree@, key@));
        find_in_tree(tree, key.as_str())
    }
}

/// The reference and labels of the node of `tree` with outline key `key`.
fn find_in_tree(tree: &DeviceTree, key: &str) -> (r: Option<(Reference, Vec<String>)>)
    ensures
        match node_found(tree@, key@) {
            Some(p) => r matches Some(q) && q.0@ == p.0 && crate::model::strs_v(q.1@) == p.1,
            None => r is None,
        },
{
    let kc = to_chars(key);
    if kc.len() > 0 && kc[0] == '&' {
        let label = crate::text::substring(&kc, 1, kc.len());
        assert(kc@.subrange(1, kc@.len() as int) =~= key@.drop_first());
        let mut labels: Vec<String> = Vec::new();
        labels.push(string_of(label.as_str()));
        assert(crate::model::strs_v(labels@) =~= seq![key@.drop_first()]);
        return Some((Reference::Label(label), labels));
    }
    proof {
        reveal_strlit("/");
        assert("/"@ =~= seq!['/']);
    }
    match &tree.root {
        Some(root) => {
            if str_eq(key, "/") {
                return Some((Reference::Path(string_of(key)), crate::model::copy_strings(&root.labels)));
            }
            match find_node_by_path(root, key, "/") {
                Some(n) => {
                    let labels = crate::model::copy_strings(&n.labels);
                    if n.labels.len() > 0 {
                        let first = string_of(n.labels[0].as_str());
                        return Some((Reference::Label(first), labels));
                    }
                    return Some((Reference::Path(string_of(key)), labels));
                },
                None => {},
            }
        },
        None => {},
    }
    let ghost t = tree@;
    assert(match t.root {
        Some(r) => key@ != seq!['/'] && find_path(r, key@, seq!['/']) is None,
        None => true,
    });
    let mut j: usize = 0;
    while j < tree.reference_nodes.len()
        invariant
            j <= tree.reference_nodes.len(),
            t == tree@,
            !(key@.len() > 0 && key@[0] == '&'),
            match t.root {
                Some(r) => key@ != seq!['/'] && find_path(r, key@, seq!['/']) is None,
                None => true,
            },
            ref_keyed(t.reference_nodes, key@, 0) == ref_keyed(t.reference_nodes, key@, j as int),
        decreases tree.reference_nodes.len() - j,
    {
        let rn = &tree.reference_nodes[j];
        assert(t.reference_nodes[j as int] == rn@);
        let text = rn.reference.to_text();
        if str_eq(text.as_str(), key) {
            assert(ref_keyed(t.reference_nodes, key@, j as int) == Some(j as int));
            assert(t.reference_nodes[j as int].node.labels == crate::model::strs_v(rn.node.labels@));
            return Some((rn.reference.copy(), crate::model::copy_strings(&rn.node.labels)));
        }
        j = j + 1;
    }
    None
}

} // verus!

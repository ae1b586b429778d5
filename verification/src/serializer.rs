//! Writing a device tree back out as source text.
use vstd::prelude::*;
use crate::grammar::{find_char, lemma_find_char};
use crate::model::{
    full_name_v, ref_text, strs_v, CellV, Cell, DeviceTree, DtsVersion, IncludeKind, IncludeV, Node, NodeV,
    PartV, Property, PropertyValue, PropV, RefNodeV, TreeV, ValuePart,
};
use crate::text::{
    decimal, dec_str, hex_char, hex_str, lower_hex, lower_hex_char, push_str, string_of, to_chars,
};

verus! {

/// Target output format.
#[derive(Debug, Clone, Copy, PartialEq, Eq, Structural)]
pub enum OutputFormat {
    /// Standard `.dts` output.
    Dts,
    /// Header/include fragment (`.dtsi`).
    Dtsi,
    /// Overlay (`.overlay` / `.dtso`): `/plugin/;` is always written.
    Overlay,
}

/// Controls how a [`DeviceTree`] is written out.
#[derive(Debug, Clone)]
pub struct SerializerConfig {
    /// The text of one level of indentation.
    pub indent: String,
    /// A comment written at the very top, one `// ` line per line of it.
    pub header_comment: Option<String>,
    pub output_format: OutputFormat,
    /// Write the properties of each node sorted by name.
    pub sort_properties: bool,
    /// Write the children of each node sorted by full name.
    pub sort_nodes: bool,
    /// Write `/dts-v1/;` when the tree has a version.
    pub include_version: bool,
}

pub struct ConfigV {
    pub indent: Seq<char>,
    pub header_comment: Option<Seq<char>>,
    pub output_format: OutputFormat,
    pub sort_properties: bool,
    pub sort_nodes: bool,
    pub include_version: bool,
}

impl View for SerializerConfig {
    type V = ConfigV;

    open spec fn view(&self) -> ConfigV {
        ConfigV {
            indent: self.indent@,
            header_comment: match self.header_comment {
                Some(h) => Some(h@),
                None => None,
            },
            output_format: self.output_format,
            sort_properties: self.sort_properties,
            sort_nodes: self.sort_nodes,
            include_version: self.include_version,
        }
    }
}

impl Default for SerializerConfig {
    /// A tab for indentation, no header, plain `.dts`, nothing sorted, version written.
    fn default() -> (c: Self)
        ensures
            c@ == (ConfigV {
                indent: seq!['\t'],
                header_comment: None,
                output_format: OutputFormat::Dts,
                sort_properties: false,
                sort_nodes: false,
                include_version: true,
            }),
    {
        let mut indent = String::new();
        indent.push('\t');
        SerializerConfig {
            indent,
            header_comment: None,
            output_format: OutputFormat::Dts,
            sort_properties: false,
            sort_nodes: false,
            include_version: true,
        }
    }
}

// -------------------------------------------------------------------------
// The text, stated
// -------------------------------------------------------------------------

/// `s` repeated `n` times.
pub open spec fn repeat(s: Seq<char>, n: nat) -> Seq<char>
    decreases n,
{
    if n == 0 {
        Seq::empty()
    } else {
        repeat(s, (n - 1) as nat) + s
    }
}

/// How `c` is written inside a string literal.
pub open spec fn escape_char(c: char) -> Seq<char> {
    if c == '\n' {
        seq!['\\', 'n']
    } else if c == '\t' {
        seq!['\\', 't']
    } else if c == '\r' {
        seq!['\\', 'r']
    } else if c == '\\' {
        seq!['\\', '\\']
    } else if c == '"' {
        seq!['\\', '"']
    } else if c == '\0' {
        seq!['\\', '0']
    } else {
        seq![c]
    }
}

/// `s` with every character escaped as in a string literal.
pub open spec fn escape(s: Seq<char>) -> Seq<char>
    decreases s.len(),
{
    if s.len() == 0 {
        Seq::empty()
    } else {
        escape(s.drop_last()) + escape_char(s.last())
    }
}

/// How a cell is written.
pub open spec fn cell_text(c: CellV) -> Seq<char> {
    match c {
        CellV::Literal(n) => if n > 9 {
            seq!['0', 'x'] + hex_str(n as nat)
        } else {
            dec_str(n as nat)
        },
        CellV::Reference(r) => ref_text(r),
        CellV::Expression(e) => seq!['('] + e + seq![')'],
        CellV::Macro(name, args) => name + seq!['('] + args + seq![')'],
    }
}

/// The first `k` cells, separated by spaces.
pub open spec fn cells_text(cs: Seq<CellV>, k: int) -> Seq<char>
    decreases k,
{
    if k <= 0 {
        Seq::empty()
    } else {
        cells_text(cs, k - 1) + (if k > 1 {
            seq![' ']
        } else {
            Seq::empty()
        }) + cell_text(cs[k - 1])
    }
}

/// A byte as two lowercase hexadecimal digits.
pub open spec fn byte_text(b: u8) -> Seq<char> {
    seq![hex_char((b / 16) as nat), hex_char((b % 16) as nat)]
}

/// The first `k` bytes, separated by spaces.
pub open spec fn bytes_text(bs: Seq<u8>, k: int) -> Seq<char>
    decreases k,
{
    if k <= 0 {
        Seq::empty()
    } else {
        bytes_text(bs, k - 1) + (if k > 1 {
            seq![' ']
        } else {
            Seq::empty()
        }) + byte_text(bs[k - 1])
    }
}

/// How one part of a property value is written.
pub open spec fn part_text(p: PartV) -> Seq<char> {
    match p {
        PartV::StringLiteral(s) => seq!['"'] + escape(s) + seq!['"'],
        PartV::CellArray(cs) => seq!['<'] + cells_text(cs, cs.len() as int) + seq!['>'],
        PartV::ByteString(bs) => seq!['['] + bytes_text(bs, bs.len() as int) + seq![']'],
        PartV::Reference(r) => ref_text(r),
    }
}

/// The first `k` parts of a value, separated by `, `.
pub open spec fn parts_text(ps: Seq<PartV>, k: int) -> Seq<char>
    decreases k,
{
    if k <= 0 {
        Seq::empty()
    } else {
        parts_text(ps, k - 1) + (if k > 1 {
            seq![',', ' ']
        } else {
            Seq::empty()
        }) + part_text(ps[k - 1])
    }
}

/// How a property value is written.
pub open spec fn value_text(ps: Seq<PartV>) -> Seq<char> {
    parts_text(ps, ps.len() as int)
}

/// Each label followed by `: `.
pub open spec fn labels_text(ls: Seq<Seq<char>>) -> Seq<char>
    decreases ls.len(),
{
    if ls.len() == 0 {
        Seq::empty()
    } else {
        labels_text(ls.drop_last()) + ls.last() + seq![':', ' ']
    }
}

/// Lexicographic order of character codes (the order of UTF-8 bytes).
pub open spec fn lex_le(a: Seq<char>, b: Seq<char>) -> bool
    decreases a.len(),
{
    if a.len() == 0 {
        true
    } else if b.len() == 0 {
        false
    } else if a[0] != b[0] {
        (a[0] as u32) < (b[0] as u32)
    } else {
        lex_le(a.drop_first(), b.drop_first())
    }
}

/// The first place from `j` in `order` whose key is greater than `k`.
pub open spec fn first_after(order: Seq<int>, keys: Seq<Seq<char>>, k: Seq<char>, j: int) -> int
    decreases order.len() - j,
{
    if j >= order.len() || j < 0 {
        order.len() as int
    } else if !lex_le(keys[order[j]], k) {
        j
    } else {
        first_after(order, keys, k, j + 1)
    }
}

/// The positions `0..m` in the order of their keys; equal keys keep their order.
pub open spec fn sorted_order(keys: Seq<Seq<char>>, m: int) -> Seq<int>
    decreases m,
{
    if m <= 0 {
        Seq::empty()
    } else {
        let o = sorted_order(keys, m - 1);
        o.insert(first_after(o, keys, keys[m - 1], 0), m - 1)
    }
}

/// The positions `0..n` in order.
pub open spec fn identity_order(n: int) -> Seq<int> {
    Seq::new(n as nat, |i: int| i)
}

/// The order in which the properties of a node are written.
pub open spec fn prop_order(n: NodeV, c: ConfigV) -> Seq<int> {
    if c.sort_properties {
        sorted_order(n.properties.map_values(|p: PropV| p.name), n.properties.len() as int)
    } else {
        identity_order(n.properties.len() as int)
    }
}

/// The order in which the children of a node are written.
pub open spec fn child_order(n: NodeV, c: ConfigV) -> Seq<int> {
    if c.sort_nodes {
        sorted_order(n.children.map_values(|x: NodeV| full_name_v(x)), n.children.len() as int)
    } else {
        identity_order(n.children.len() as int)
    }
}

/// The line that a property is written on.
pub open spec fn prop_line(p: PropV, ind: Seq<char>) -> Seq<char> {
    ind + labels_text(p.labels) + p.name + match p.value {
        Some(v) => seq![' ', '=', ' '] + value_text(v),
        None => Seq::empty(),
    } + seq![';', '\n']
}

/// The lines of the properties at the first `k` places of `order`.
pub open spec fn props_text(ps: Seq<PropV>, order: Seq<int>, k: int, ind: Seq<char>) -> Seq<char>
    decreases k,
{
    if k <= 0 {
        Seq::empty()
    } else {
        props_text(ps, order, k - 1, ind) + prop_line(ps[order[k - 1]], ind)
    }
}

/// One line `ind kw name;` for each of the first `k` names.
pub open spec fn directive_lines(names: Seq<Seq<char>>, k: int, ind: Seq<char>, kw: Seq<char>) -> Seq<char>
    decreases k,
{
    if k <= 0 {
        Seq::empty()
    } else {
        directive_lines(names, k - 1, ind, kw) + ind + kw + names[k - 1] + seq![';', '\n']
    }
}

/// The body `{ ... }` of a node written at nesting `depth`.
pub open spec fn node_text(n: NodeV, depth: nat, c: ConfigV) -> Seq<char>
    decreases n, 1int, 0int,
{
    let ind = repeat(c.indent, depth + 1);
    seq!['{', '\n'] + directive_lines(
        n.deleted_properties,
        n.deleted_properties.len() as int,
        ind,
        "/delete-property/ "@,
    ) + directive_lines(n.deleted_nodes, n.deleted_nodes.len() as int, ind, "/delete-node/ "@)
        + props_text(n.properties, prop_order(n, c), n.properties.len() as int, ind)
        + children_text(n, child_order(n, c), n.children.len() as int, depth, c) + repeat(c.indent, depth)
        + seq!['}']
}

/// The children of `n` at the first `k` places of `order`, each preceded by an
/// empty line unless it is the first thing in the body after the deletions of
/// nodes.
pub open spec fn children_text(n: NodeV, order: Seq<int>, k: int, depth: nat, c: ConfigV) -> Seq<char>
    decreases n, 0int, k,
{
    if k <= 0 || k > order.len() || !(0 <= order[k - 1] < n.children.len()) {
        Seq::empty()
    } else {
        let child = n.children[order[k - 1]];
        children_text(n, order, k - 1, depth, c) + (if k > 1 || n.properties.len() > 0
            || n.deleted_properties.len() > 0 {
            seq!['\n']
        } else {
            Seq::empty()
        }) + repeat(c.indent, depth + 1) + labels_text(child.labels) + full_name_v(child) + seq![' ']
            + node_text(child, depth + 1, c) + seq![';', '\n']
    }
}


/// The lines of `s` from `i` on, as `str::lines` splits them: at each line
/// feed, with one carriage return before it dropped.
pub open spec fn lines_from(s: Seq<char>, i: int) -> Seq<Seq<char>>
    decreases s.len() - i,
{
    if !(0 <= i < s.len()) {
        Seq::empty()
    } else {
        match find_char(s, i, '\n') {
            Some(k) => {
                proof {
                    lemma_find_char(s, i, '\n');
                }
                seq![strip_cr(s.subrange(i, k))] + lines_from(s, k + 1)
            },
            None => seq![s.subrange(i, s.len() as int)],
        }
    }
}

pub open spec fn strip_cr(x: Seq<char>) -> Seq<char> {
    if x.len() > 0 && x.last() == '\r' {
        x.drop_last()
    } else {
        x
    }
}

/// Each line prefixed with `// `, then an empty line.
pub open spec fn comment_text(lines: Seq<Seq<char>>) -> Seq<char>
    decreases lines.len(),
{
    if lines.len() == 0 {
        Seq::empty()
    } else {
        "// "@ + lines[0] + seq!['\n'] + comment_text(lines.drop_first())
    }
}

pub open spec fn include_line(inc: IncludeV) -> Seq<char> {
    match inc.kind {
        IncludeKind::CPreprocessor => "#include \""@ + inc.path + "\"\n"@,
        IncludeKind::DtsInclude => "/include/ \""@ + inc.path + "\"\n"@,
    }
}

pub open spec fn includes_text(incs: Seq<IncludeV>, k: int) -> Seq<char>
    decreases k,
{
    if k <= 0 {
        Seq::empty()
    } else {
        includes_text(incs, k - 1) + include_line(incs[k - 1])
    }
}

pub open spec fn memreserve_text(ms: Seq<crate::model::MemoryReservation>, k: int) -> Seq<char>
    decreases k,
{
    if k <= 0 {
        Seq::empty()
    } else {
        memreserve_text(ms, k - 1) + "/memreserve/ 0x"@ + hex_str(ms[k - 1].address as nat)
            + " 0x"@ + hex_str(ms[k - 1].size as nat) + ";\n"@
    }
}

pub open spec fn ref_nodes_text(rs: Seq<RefNodeV>, k: int, c: ConfigV) -> Seq<char>
    decreases k,
{
    if k <= 0 {
        Seq::empty()
    } else {
        ref_nodes_text(rs, k - 1, c) + seq!['\n'] + ref_text(rs[k - 1].reference) + seq![' ']
            + node_text(rs[k - 1].node, 0, c) + seq![';', '\n']
    }
}

/// The whole text written for `t` under `c`.
pub open spec fn tree_text(t: TreeV, c: ConfigV) -> Seq<char> {
    (match c.header_comment {
        Some(h) => comment_text(lines_from(h, 0)) + seq!['\n'],
        None => Seq::empty(),
    }) + (if c.include_version && t.version == Some(DtsVersion::V1) {
        "/dts-v1/;\n"@
    } else {
        Seq::empty()
    }) + (if c.output_format == OutputFormat::Overlay || t.is_plugin {
        "/plugin/;\n"@
    } else {
        Seq::empty()
    }) + includes_text(t.includes, t.includes.len() as int) + (if t.includes.len() > 0 {
        seq!['\n']
    } else {
        Seq::empty()
    }) + memreserve_text(t.memory_reservations, t.memory_reservations.len() as int) + (
    if t.memory_reservations.len() > 0 {
        seq!['\n']
    } else {
        Seq::empty()
    }) + (match t.root {
        Some(r) => labels_text(r.labels) + seq!['/', ' '] + node_text(r, 0, c) + seq![';', '\n'],
        None => Seq::empty(),
    }) + ref_nodes_text(t.reference_nodes, t.reference_nodes.len() as int, c)
}

// -------------------------------------------------------------------------
// Writing
// -------------------------------------------------------------------------

/// `s` with every character escaped as in a string literal.
pub fn escape_string(s: &str) -> (r: String)
    ensures
        r@ == escape(s@),
{
    let v = to_chars(s);
    let mut out = String::new();
    let mut k: usize = 0;
    while k < v.len()
        invariant
            k <= v.len(),
            out@ == escape(v@.subrange(0, k as int)),
        decreases v.len() - k,
    {
        let c = v[k];
        let ghost before = out@;
        if c == '\n' {
            out.push('\\');
            out.push('n');
        } else if c == '\t' {
            out.push('\\');
            out.push('t');
        } else if c == '\r' {
            out.push('\\');
            out.push('r');
        } else if c == '\\' {
            out.push('\\');
            out.push('\\');
        } else if c == '"' {
            out.push('\\');
            out.push('"');
        } else if c == '\0' {
            out.push('\\');
            out.push('0');
        } else {
            out.push(c);
        }
        assert(v@.subrange(0, k + 1).drop_last() =~= v@.subrange(0, k as int));
        assert(out@ =~= before + escape_char(c));
        k = k + 1;
    }
    assert(v@.subrange(0, v.len() as int) =~= v@);
    out
}

/// Writes each label followed by `: `.
pub fn write_labels(out: &mut String, labels: &Vec<String>)
    ensures
        final(out)@ == old(out)@ + labels_text(strs_v(labels@)),
{
    let ghost ls = strs_v(labels@);
    let mut k: usize = 0;
    while k < labels.len()
        invariant
            k <= labels.len(),
            ls == strs_v(labels@),
            out@ == old(out)@ + labels_text(ls.subrange(0, k as int)),
        decreases labels.len() - k,
    {
        let ghost before = out@;
        push_str(out, labels[k].as_str());
        out.push(':');
        out.push(' ');
        assert(ls.subrange(0, k + 1).drop_last() =~= ls.subrange(0, k as int));
        assert(out@ =~= old(out)@ + labels_text(ls.subrange(0, k + 1)));
        k = k + 1;
    }
    assert(ls.subrange(0, labels.len() as int) =~= ls);
}

/// Writes `s` repeated `n` times.
pub fn write_repeat(out: &mut String, s: &String, n: usize)
    ensures
        final(out)@ == old(out)@ + repeat(s@, n as nat),
{
    let mut k: usize = 0;
    while k < n
        invariant
            k <= n,
            out@ == old(out)@ + repeat(s@, k as nat),
        decreases n - k,
    {
        push_str(out, s.as_str());
        k = k + 1;
        assert(out@ =~= old(out)@ + repeat(s@, k as nat));
    }
}

pub fn write_cell(out: &mut String, c: &Cell)
    ensures
        final(out)@ == old(out)@ + cell_text(c@),
{
    match c {
        Cell::Literal(n) => {
            if *n > 9 {
                out.push('0');
                out.push('x');
                let h = lower_hex(*n);
                push_str(out, h.as_str());
            } else {
                let d = decimal(*n);
                push_str(out, d.as_str());
            }
        },
        Cell::Reference(r) => {
            let t = r.to_text();
            push_str(out, t.as_str());
        },
        Cell::Expression(e) => {
            out.push('(');
            push_str(out, e.as_str());
            out.push(')');
        },
        Cell::Macro(name, args) => {
            push_str(out, name.as_str());
            out.push('(');
            push_str(out, args.as_str());
            out.push(')');
        },
    }
    assert(out@ =~= old(out)@ + cell_text(c@));
}

pub fn write_value_part(out: &mut String, p: &ValuePart)
    ensures
        final(out)@ == old(out)@ + part_text(p@),
{
    let ghost start = out@;
    match p {
        ValuePart::StringLiteral(s) => {
            out.push('"');
            let e = escape_string(s.as_str());
            push_str(out, e.as_str());
            out.push('"');
        },
        ValuePart::CellArray(cells) => {
            let ghost cv = crate::model::cells_v(cells@);
            out.push('<');
            let ghost open_at = out@;
            let mut j: usize = 0;
            while j < cells.len()
                invariant
                    j <= cells.len(),
                    cv == crate::model::cells_v(cells@),
                    out@ == open_at + cells_text(cv, j as int),
                decreases cells.len() - j,
            {
                if j > 0 {
                    out.push(' ');
                }
                write_cell(out, &cells[j]);
                j = j + 1;
                assert(out@ =~= open_at + cells_text(cv, j as int));
            }
            out.push('>');
        },
        ValuePart::ByteString(bytes) => {
            out.push('[');
            let ghost open_at = out@;
            let mut j: usize = 0;
            while j < bytes.len()
                invariant
                    j <= bytes.len(),
                    out@ == open_at + bytes_text(bytes@, j as int),
                decreases bytes.len() - j,
            {
                if j > 0 {
                    out.push(' ');
                }
                let b = bytes[j];
                out.push(lower_hex_char((b / 16) as u64));
                out.push(lower_hex_char((b % 16) as u64));
                j = j + 1;
                assert(out@ =~= open_at + bytes_text(bytes@, j as int));
            }
            out.push(']');
        },
        ValuePart::Reference(r) => {
            let t = r.to_text();
            push_str(out, t.as_str());
        },
    }
    assert(out@ =~= start + part_text(p@));
}

/// Writes the parts of a value separated by `, `.
pub fn write_property_value(out: &mut String, value: &PropertyValue)
    ensures
        final(out)@ == old(out)@ + value_text(value@),
{
    let ghost pv = value@;
    let mut k: usize = 0;
    while k < value.0.len()
        invariant
            k <= value.0.len(),
            pv == value@,
            pv.len() == value.0.len(),
            out@ == old(out)@ + parts_text(pv, k as int),
        decreases value.0.len() - k,
    {
        if k > 0 {
            out.push(',');
            out.push(' ');
        }
        write_value_part(out, &value.0[k]);
        k = k + 1;
        assert(out@ =~= old(out)@ + parts_text(pv, k as int));
    }
}

/// A property value as stand-alone text.
pub fn format_property_value(value: &PropertyValue) -> (r: String)
    ensures
        r@ == value_text(value@),
{
    let mut s = String::new();
    write_property_value(&mut s, value);
    assert(s@ =~= value_text(value@));
    s
}


/// Lexicographic comparison of character codes.
pub fn chars_le(a: &Vec<char>, b: &Vec<char>) -> (r: bool)
    ensures
        r == lex_le(a@, b@),
{
    let mut k: usize = 0;
    assert(a@.skip(0) =~= a@);
    assert(b@.skip(0) =~= b@);
    loop
        invariant
            k <= a.len(),
            k <= b.len(),
            lex_le(a@, b@) == lex_le(a@.skip(k as int), b@.skip(k as int)),
        decreases a.len() - k,
    {
        if k == a.len() {
            return true;
        }
        if k == b.len() {
            return false;
        }
        if a[k] != b[k] {
            return (a[k] as u32) < (b[k] as u32);
        }
        assert(a@.skip(k as int).drop_first() =~= a@.skip(k + 1));
        assert(b@.skip(k as int).drop_first() =~= b@.skip(k + 1));
        k = k + 1;
    }
}

pub open spec fn keys_v(keys: Seq<Vec<char>>) -> Seq<Seq<char>> {
    keys.map_values(|v: Vec<char>| v@)
}

pub open spec fn order_v(o: Seq<usize>) -> Seq<int> {
    o.map_values(|x: usize| x as int)
}

/// The positions of `keys` in the order of the keys; equal keys keep their order.
pub fn sort_order(keys: &Vec<Vec<char>>) -> (r: Vec<usize>)
    ensures
        order_v(r@) == sorted_order(keys_v(keys@), keys.len() as int),
        forall|j: int| 0 <= j < r@.len() ==> r@[j] < keys.len(),
        r@.len() == keys.len(),
{
    let ghost kv = keys_v(keys@);
    let mut order: Vec<usize> = Vec::new();
    let mut m: usize = 0;
    assert(order_v(order@) =~= Seq::<int>::empty());
    while m < keys.len()
        invariant
            m <= keys.len(),
            kv == keys_v(keys@),
            order_v(order@) == sorted_order(kv, m as int),
            order@.len() == m,
            forall|j: int| 0 <= j < order@.len() ==> order@[j] < m,
        decreases keys.len() - m,
    {
        let mut j: usize = 0;
        let ghost ov = order_v(order@);
        while j < order.len() && chars_le(&keys[order[j]], &keys[m])
            invariant
                j <= order.len(),
                m < keys.len(),
                kv == keys_v(keys@),
                ov == order_v(order@),
                forall|x: int| 0 <= x < order@.len() ==> order@[x] < m,
                first_after(ov, kv, kv[m as int], 0) == first_after(ov, kv, kv[m as int], j as int),
            decreases order.len() - j,
        {
            j = j + 1;
        }
        let ghost before = order@;
        order.insert(j, m);
        assert(order_v(order@) =~= ov.insert(j as int, m as int));
        assert forall|x: int| 0 <= x < order@.len() implies order@[x] < m + 1 by {
            if x < j {
                assert(order@[x] == before[x]);
            } else if x > j {
                assert(order@[x] == before[x - 1]);
            }
        }
        m = m + 1;
    }
    order
}

/// The positions `0..n` in order.
pub fn identity(n: usize) -> (r: Vec<usize>)
    ensures
        order_v(r@) == identity_order(n as int),
        forall|j: int| 0 <= j < r@.len() ==> r@[j] < n,
        r@.len() == n,
{
    let mut r: Vec<usize> = Vec::new();
    let mut k: usize = 0;
    while k < n
        invariant
            k <= n,
            r@.len() == k,
            forall|j: int| 0 <= j < k ==> r@[j] == j,
        decreases n - k,
    {
        r.push(k);
        k = k + 1;
    }
    assert(order_v(r@) =~= identity_order(n as int));
    r
}

/// Writes `ind kw name;` for each name.
pub fn write_directives(out: &mut String, names: &Vec<String>, ind: &String, kw: &str)
    ensures
        final(out)@ == old(out)@ + directive_lines(strs_v(names@), names.len() as int, ind@, kw@),
{
    let ghost ns = strs_v(names@);
    let mut k: usize = 0;
    while k < names.len()
        invariant
            k <= names.len(),
            ns == strs_v(names@),
            out@ == old(out)@ + directive_lines(ns, k as int, ind@, kw@),
        decreases names.len() - k,
    {
        push_str(out, ind.as_str());
        push_str(out, kw);
        push_str(out, names[k].as_str());
        out.push(';');
        out.push('\n');
        k = k + 1;
        assert(out@ =~= old(out)@ + directive_lines(ns, k as int, ind@, kw@));
    }
}

/// Writes the line of a property.
pub fn write_property_line(out: &mut String, p: &Property, ind: &String)
    ensures
        final(out)@ == old(out)@ + prop_line(p@, ind@),
{
    push_str(out, ind.as_str());
    write_labels(out, &p.labels);
    push_str(out, p.name.as_str());
    match &p.value {
        Some(v) => {
            out.push(' ');
            out.push('=');
            out.push(' ');
            write_property_value(out, v);
        },
        None => {},
    }
    out.push(';');
    out.push('\n');
    assert(out@ =~= old(out)@ + prop_line(p@, ind@));
}

/// The order in which the properties of `node` are written.
pub fn property_order(node: &Node, config: &SerializerConfig) -> (r: Vec<usize>)
    ensures
        order_v(r@) == prop_order(node@, config@),
        r@.len() == node.properties.len(),
        forall|j: int| 0 <= j < r@.len() ==> r@[j] < node.properties.len(),
{
    if config.sort_properties {
        let mut keys: Vec<Vec<char>> = Vec::new();
        let mut k: usize = 0;
        while k < node.properties.len()
            invariant
                k <= node.properties.len(),
                keys@.len() == k,
                forall|j: int| 0 <= j < k ==> #[trigger] keys@[j]@ == node.properties@[j].name@,
            decreases node.properties.len() - k,
        {
            keys.push(to_chars(node.properties[k].name.as_str()));
            k = k + 1;
        }
        assert(keys_v(keys@) =~= node@.properties.map_values(|p: PropV| p.name));
        sort_order(&keys)
    } else {
        identity(node.properties.len())
    }
}

/// The order in which the children of `node` are written.
pub fn children_order(node: &Node, config: &SerializerConfig) -> (r: Vec<usize>)
    ensures
        order_v(r@) == child_order(node@, config@),
        r@.len() == node.children.len(),
        forall|j: int| 0 <= j < r@.len() ==> r@[j] < node.children.len(),
{
    let ghost nv = node@;
    if config.sort_nodes {
        let mut keys: Vec<Vec<char>> = Vec::new();
        let mut k: usize = 0;
        while k < node.children.len()
            invariant
                k <= node.children.len(),
                nv == node@,
                keys@.len() == k,
                forall|j: int| 0 <= j < k ==> #[trigger] keys@[j]@ == full_name_v(nv.children[j]),
            decreases node.children.len() - k,
        {
            let f = node.children[k].full_name();
            keys.push(to_chars(f.as_str()));
            k = k + 1;
        }
        assert(keys_v(keys@) =~= nv.children.map_values(|x: NodeV| full_name_v(x)));
        sort_order(&keys)
    } else {
        identity(node.children.len())
    }
}

/// Writes the lines of the properties of `node` in the given order.
pub fn write_properties(out: &mut String, node: &Node, porder: &Vec<usize>, ind: &String)
    requires
        porder@.len() == node.properties.len(),
        forall|j: int| 0 <= j < porder@.len() ==> porder@[j] < node.properties.len(),
    ensures
        final(out)@ == old(out)@ + props_text(node@.properties, order_v(porder@), porder@.len() as int, ind@),
{
    let ghost nv = node@;
    let mut k: usize = 0;
    while k < porder.len()
        invariant
            k <= porder.len(),
            porder@.len() == node.properties.len(),
            forall|j: int| 0 <= j < porder@.len() ==> porder@[j] < node.properties.len(),
            nv == node@,
            out@ == old(out)@ + props_text(nv.properties, order_v(porder@), k as int, ind@),
        decreases porder.len() - k,
    {
        write_property_line(out, &node.properties[porder[k]], ind);
        k = k + 1;
        assert(out@ =~= old(out)@ + props_text(nv.properties, order_v(porder@), k as int, ind@));
    }
}

/// Writes the children of `node` in the given order.
#[verifier::spinoff_prover]
#[verifier::rlimit(40)]
pub fn write_children(
    out: &mut String,
    node: &Node,
    corder: &Vec<usize>,
    depth: usize,
    config: &SerializerConfig,
)
    requires
        corder@.len() == node.children.len(),
        forall|j: int| 0 <= j < corder@.len() ==> corder@[j] < node.children.len(),
        depth + crate::model::node_height(*node) < usize::MAX,
    ensures
        final(out)@ == old(out)@ + children_text(node@, order_v(corder@), corder@.len() as int, depth as nat, config@),
    decreases *node, 0int,
{
    let ghost nv = node@;
    let ghost c = config@;
    let mut ind = String::new();
    write_repeat(&mut ind, &config.indent, depth + 1);
    let mut k: usize = 0;
    while k < corder.len()
        invariant
            k <= corder.len(),
            corder@.len() == node.children.len(),
            forall|j: int| 0 <= j < corder@.len() ==> corder@[j] < node.children.len(),
            nv == node@,
            c == config@,
            ind@ == repeat(config.indent@, (depth + 1) as nat),
            depth + crate::model::node_height(*node) < usize::MAX,
            out@ == old(out)@ + children_text(nv, order_v(corder@), k as int, depth as nat, c),
        decreases corder.len() - k,
    {
        let child = &node.children[corder[k]];
        proof {
            crate::model::lemma_child_height(*node, corder@[k as int] as int);
        }
        let ghost before = out@;
        if k > 0 || node.properties.len() > 0 || node.deleted_properties.len() > 0 {
            out.push('\n');
        }
        push_str(out, ind.as_str());
        write_labels(out, &child.labels);
        let f = child.full_name();
        push_str(out, f.as_str());
        out.push(' ');
        write_node_body(out, child, depth + 1, config);
        out.push(';');
        out.push('\n');
        assert(nv.children[corder@[k as int] as int] == child@);
        assert(children_text(nv, order_v(corder@), k + 1, depth as nat, c) == children_text(
            nv,
            order_v(corder@),
            k as int,
            depth as nat,
            c,
        ) + (if k + 1 > 1 || nv.properties.len() > 0 || nv.deleted_properties.len() > 0 {
            seq!['\n']
        } else {
            Seq::empty()
        }) + repeat(c.indent, depth as nat + 1) + labels_text(child@.labels) + full_name_v(child@)
            + seq![' '] + node_text(child@, depth as nat + 1, c) + seq![';', '\n']);
        k = k + 1;
        assert(out@ =~= old(out)@ + children_text(nv, order_v(corder@), k as int, depth as nat, c));
    }
}

/// Writes the body `{ ... }` of `node` at nesting `depth`.
#[verifier::spinoff_prover]
#[verifier::rlimit(40)]
pub fn write_node_body(out: &mut String, node: &Node, depth: usize, config: &SerializerConfig)
    requires
        depth + crate::model::node_height(*node) < usize::MAX,
    ensures
        final(out)@ == old(out)@ + node_text(node@, depth as nat, config@),
    decreases *node, 1int,
{
    let ghost nv = node@;
    let ghost c = config@;
    let ghost start = out@;
    out.push('{');
    out.push('\n');
    let mut ind = String::new();
    write_repeat(&mut ind, &config.indent, depth + 1);
    write_directives(out, &node.deleted_properties, &ind, "/delete-property/ ");
    write_directives(out, &node.deleted_nodes, &ind, "/delete-node/ ");
    let ghost a1 = out@;
    let porder = property_order(node, config);
    write_properties(out, node, &porder, &ind);
    let ghost a2 = out@;
    let corder = children_order(node, config);
    write_children(out, node, &corder, depth, config);
    let ghost a3 = out@;
    write_repeat(out, &config.indent, depth);
    out.push('}');
    assert(out@ =~= start + (seq!['{', '\n'] + directive_lines(
        nv.deleted_properties,
        nv.deleted_properties.len() as int,
        ind@,
        "/delete-property/ "@,
    ) + directive_lines(nv.deleted_nodes, nv.deleted_nodes.len() as int, ind@, "/delete-node/ "@)
        + props_text(nv.properties, prop_order(nv, c), nv.properties.len() as int, ind@)
        + children_text(nv, child_order(nv, c), nv.children.len() as int, depth as nat, c) + repeat(
        c.indent,
        depth as nat,
    ) + seq!['}']));
}

/// Writes the header comment, one `// ` line per line, then an empty line.
pub fn write_header(out: &mut String, header: &Option<String>)
    ensures
        final(out)@ == old(out)@ + match header {
            Some(h) => comment_text(lines_from(h@, 0)) + seq!['\n'],
            None => Seq::empty(),
        },
{
    match header {
        Some(comment) => {
            let v = to_chars(comment.as_str());
            let mut i: usize = 0;
            let ghost start = out@;
            assert(lines_from(v@, 0) == lines_from(v@, i as int));
            while i < v.len()
                invariant
                    i <= v.len(),
                    comment_text(lines_from(v@, 0)) == comment_text(lines_from(v@, 0)),
                    start + comment_text(lines_from(v@, 0)) == out@ + comment_text(lines_from(v@, i as int)),
                decreases v.len() - i,
            {
                let e = match crate::parser::find_char_from(&v, i, '\n') {
                    Some(k) => k,
                    None => v.len(),
                };
                proof {
                    lemma_find_char(v@, i as int, '\n');
                }
                let mut stop = e;
                if e < v.len() && e > i && v[e - 1] == '\r' {
                    stop = e - 1;
                }
                let ghost before = out@;
                push_str(out, "// ");
                let mut j = i;
                while j < stop
                    invariant
                        i <= j <= stop <= v.len(),
                        out@ == before + "// "@ + v@.subrange(i as int, j as int),
                    decreases stop - j,
                {
                    out.push(v[j]);
                    j = j + 1;
                    assert(out@ =~= before + "// "@ + v@.subrange(i as int, j as int));
                }
                out.push('\n');
                proof {
                    let rest = lines_from(v@, i as int);
                    if e < v.len() {
                        assert(strip_cr(v@.subrange(i as int, e as int)) =~= v@.subrange(i as int, stop as int));
                        assert(rest.drop_first() == lines_from(v@, e + 1));
                    } else {
                        assert(rest == seq![v@.subrange(i as int, v.len() as int)]);
                        assert(lines_from(v@, e as int) =~= Seq::<Seq<char>>::empty());
                        assert(rest.drop_first() =~= Seq::<Seq<char>>::empty());
                    }
                    assert(comment_text(rest) == "// "@ + rest[0] + seq!['\n'] + comment_text(rest.drop_first()));
                }
                i = if e < v.len() {
                    e + 1
                } else {
                    e
                };
                assert(start + comment_text(lines_from(v@, 0)) =~= out@ + comment_text(lines_from(v@, i as int)));
            }
            assert(lines_from(v@, i as int) =~= Seq::<Seq<char>>::empty());
            out.push('\n');
        },
        None => {},
    }
}

/// Writes the include lines and the memory reservations, each group followed
/// by an empty line when it is not empty.
pub fn write_includes_and_reservations(out: &mut String, tree: &DeviceTree)
    ensures
        final(out)@ == old(out)@ + includes_text(tree@.includes, tree@.includes.len() as int) + (
        if tree@.includes.len() > 0 {
            seq!['\n']
        } else {
            Seq::empty()
        }) + memreserve_text(tree@.memory_reservations, tree@.memory_reservations.len() as int)
            + (if tree@.memory_reservations.len() > 0 {
            seq!['\n']
        } else {
            Seq::empty()
        }),
{
    let ghost t = tree@;
    let ghost after_flags = out@;
    let mut k: usize = 0;
    while k < tree.includes.len()
        invariant
            k <= tree.includes.len(),
            t == tree@,
            out@ == after_flags + includes_text(t.includes, k as int),
        decreases tree.includes.len() - k,
    {
        let inc = &tree.includes[k];
        match inc.kind {
            IncludeKind::CPreprocessor => {
                push_str(out, "#include \"");
            },
            IncludeKind::DtsInclude => {
                push_str(out, "/include/ \"");
            },
        }
        push_str(out, inc.path.as_str());
        push_str(out, "\"\n");
        k = k + 1;
        assert(out@ =~= after_flags + includes_text(t.includes, k as int));
    }
    if tree.includes.len() > 0 {
        out.push('\n');
    }
    let ghost after_includes = out@;
    let mut k: usize = 0;
    while k < tree.memory_reservations.len()
        invariant
            k <= tree.memory_reservations.len(),
            t == tree@,
            out@ == after_includes + memreserve_text(t.memory_reservations, k as int),
        decreases tree.memory_reservations.len() - k,
    {
        let mr = tree.memory_reservations[k];
        push_str(out, "/memreserve/ 0x");
        let a = lower_hex(mr.address);
        push_str(out, a.as_str());
        push_str(out, " 0x");
        let z = lower_hex(mr.size);
        push_str(out, z.as_str());
        push_str(out, ";\n");
        k = k + 1;
        assert(out@ =~= after_includes + memreserve_text(t.memory_reservations, k as int));
    }
    if tree.memory_reservations.len() > 0 {
        out.push('\n');
    }
    assert(out@ =~= old(out)@ + includes_text(tree@.includes, tree@.includes.len() as int) + (
    if tree@.includes.len() > 0 {
        seq!['\n']
    } else {
        Seq::empty()
    }) + memreserve_text(tree@.memory_reservations, tree@.memory_reservations.len() as int) + (
    if tree@.memory_reservations.len() > 0 {
        seq!['\n']
    } else {
        Seq::empty()
    }));
}

/// Writes each node override after an empty line.
pub fn write_reference_nodes(out: &mut String, tree: &DeviceTree, config: &SerializerConfig)
    requires
        tree_depth_ok(tree),
    ensures
        final(out)@ == old(out)@ + ref_nodes_text(tree@.reference_nodes, tree@.reference_nodes.len() as int, config@),
{
    let ghost t = tree@;
    let ghost c = config@;
    let ghost after_root = out@;
    let mut k: usize = 0;
    while k < tree.reference_nodes.len()
        invariant
            k <= tree.reference_nodes.len(),
            t == tree@,
            c == config@,
            tree_depth_ok(tree),
            out@ == after_root + ref_nodes_text(t.reference_nodes, k as int, c),
        decreases tree.reference_nodes.len() - k,
    {
        let rn = &tree.reference_nodes[k];
        out.push('\n');
        let rt = rn.reference.to_text();
        push_str(out, rt.as_str());
        out.push(' ');
        write_node_body(out, &rn.node, 0, config);
        out.push(';');
        out.push('\n');
        k = k + 1;
        assert(out@ =~= after_root + ref_nodes_text(t.reference_nodes, k as int, c));
    }
}

/// Serializes a [`DeviceTree`] into source text according to `config`.
pub fn serialize(tree: &DeviceTree, config: &SerializerConfig) -> (r: String)
    requires
        tree_depth_ok(tree),
    ensures
        r@ == tree_text(tree@, config@),
{
    let mut out = String::new();
    let ghost t = tree@;
    let ghost c = config@;
    write_header(&mut out, &config.header_comment);
    let ghost p1 = out@;
    if config.include_version && tree.version.is_some() {
        push_str(&mut out, "/dts-v1/;\n");
        assert(out@ == p1 + "/dts-v1/;\n"@);
        assert(c.include_version);
        assert(t.version == Some(DtsVersion::V1));
    } else {
        assert(out@ =~= p1 + Seq::<char>::empty());
    }
    let ghost p15 = out@;
    assert(p15 =~= p1 + (if c.include_version && t.version == Some(DtsVersion::V1) {
        "/dts-v1/;\n"@
    } else {
        Seq::empty()
    }));
    let overlay = match config.output_format {
        OutputFormat::Overlay => true,
        _ => false,
    };
    if overlay || tree.is_plugin {
        push_str(&mut out, "/plugin/;\n");
    }
    let ghost p2 = out@;
    write_includes_and_reservations(&mut out, tree);
    let ghost p3 = out@;
    match &tree.root {
        Some(root) => {
            write_labels(&mut out, &root.labels);
            out.push('/');
            out.push(' ');
            write_node_body(&mut out, root, 0, config);
            out.push(';');
            out.push('\n');
        },
        None => {},
    }
    let ghost p4 = out@;
    write_reference_nodes(&mut out, tree, config);
    assert(p2 =~= p1 + (if c.include_version && t.version == Some(DtsVersion::V1) {
        "/dts-v1/;\n"@
    } else {
        Seq::empty()
    }) + (if c.output_format == OutputFormat::Overlay || t.is_plugin {
        "/plugin/;\n"@
    } else {
        Seq::empty()
    }));
    assert(p4 =~= p3 + (match t.root {
        Some(r) => labels_text(r.labels) + seq!['/', ' '] + node_text(r, 0, c) + seq![';', '\n'],
        None => Seq::empty(),
    }));
    assert(out@ =~= tree_text(t, c));
    out
}

/// Whether every node tree of `t` is shallow enough to be walked.
pub fn tree_fits(t: &DeviceTree) -> (r: bool)
    ensures
        r == tree_depth_ok(t),
{
    match &t.root {
        Some(n) => {
            if !crate::model::height_below(n, usize::MAX) {
                return false;
            }
        },
        None => {},
    }
    let mut k: usize = 0;
    while k < t.reference_nodes.len()
        invariant
            k <= t.reference_nodes@.len(),
            forall|j: int| 0 <= j < k ==> crate::model::node_height(
                #[trigger] t.reference_nodes@[j].node,
            ) < usize::MAX,
        decreases t.reference_nodes.len() - k,
    {
        if !crate::model::height_below(&t.reference_nodes[k].node, usize::MAX) {
            return false;
        }
        k = k + 1;
    }
    true
}

/// Whether every node of `t` is nested shallowly enough to be written (no
/// deeper than the largest `usize`).
pub open spec fn tree_depth_ok(t: &DeviceTree) -> bool {
    &&& (t.root matches Some(r) ==> crate::model::node_height(r) < usize::MAX)
    &&& forall|k: int|
        0 <= k < t.reference_nodes@.len() ==> crate::model::node_height(
            #[trigger] t.reference_nodes@[k].node,
        ) < usize::MAX
}

} // verus!

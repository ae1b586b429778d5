//! The order in which the writer puts properties and children when asked
//! to sort them: by name, each once, equal names in their given order; and
//! what that means for the written text: sorting only reorders it, and a
//! node's body is laid out as deletions, properties, then children.
use vstd::prelude::*;
use crate::model::{NodeV, PropV, RefNodeV, TreeV, full_name_v};
use crate::serializer::{
    lex_le, first_after, sorted_order, ConfigV, identity_order, prop_order, child_order,
    props_text, children_text, node_text, ref_nodes_text, tree_text, prop_line, directive_lines,
    repeat, labels_text,
};

verus! {

/// Every text comes no later than itself.
pub proof fn lemma_lex_le_refl(a: Seq<char>)
    ensures
        lex_le(a, a),
    decreases a.len(),
{
    if a.len() > 0 {
        lemma_lex_le_refl(a.drop_first());
    }
}

/// Of two texts, one comes no later than the other.
pub proof fn lemma_lex_le_total(a: Seq<char>, b: Seq<char>)
    ensures
        lex_le(a, b) || lex_le(b, a),
    decreases a.len(),
{
    if a.len() > 0 && b.len() > 0 {
        if a[0] == b[0] {
            lemma_lex_le_total(a.drop_first(), b.drop_first());
        } else {
            let x = a[0];
            let y = b[0];
            assert((x as u32) != (y as u32)) by {
                vstd::utf8::char_u32_cast(x, x as u32);
                vstd::utf8::char_u32_cast(y, y as u32);
            }
        }
    }
}

/// Texts that come no later than each other are the same text.
pub proof fn lemma_lex_le_antisym(a: Seq<char>, b: Seq<char>)
    requires
        lex_le(a, b),
        lex_le(b, a),
    ensures
        a == b,
    decreases a.len(),
{
    if a.len() > 0 && b.len() > 0 {
        lemma_lex_le_antisym(a.drop_first(), b.drop_first());
        assert(a =~= seq![a[0]] + a.drop_first());
        assert(b =~= seq![b[0]] + b.drop_first());
    } else if a.len() == 0 && b.len() > 0 {
    } else {
        assert(a =~= b);
    }
}

/// The order of texts is transitive.
pub proof fn lemma_lex_le_trans(a: Seq<char>, b: Seq<char>, c: Seq<char>)
    requires
        lex_le(a, b),
        lex_le(b, c),
    ensures
        lex_le(a, c),
    decreases a.len(),
{
    if a.len() > 0 && b.len() > 0 && c.len() > 0 && a[0] == b[0] && b[0] == c[0] {
        lemma_lex_le_trans(a.drop_first(), b.drop_first(), c.drop_first());
    }
}

/// The place found for a key lies after every key no greater than it, and
/// at a key greater than it, or at the end.
proof fn lemma_first_after_bounds(order: Seq<int>, keys: Seq<Seq<char>>, k: Seq<char>, j: int)
    requires
        0 <= j <= order.len(),
    ensures
        j <= first_after(order, keys, k, j) <= order.len(),
        forall|x: int|
            j <= x < first_after(order, keys, k, j) ==> lex_le(#[trigger] keys[order[x]], k),
        first_after(order, keys, k, j) < order.len() ==> !lex_le(
            keys[order[first_after(order, keys, k, j)]],
            k,
        ),
    decreases order.len() - j,
{
    if j < order.len() && lex_le(keys[order[j]], k) {
        lemma_first_after_bounds(order, keys, k, j + 1);
    }
}

/// Whether the keys at the places of `o` come in order.
pub open spec fn in_key_order(keys: Seq<Seq<char>>, o: Seq<int>) -> bool {
    forall|i: int, j: int|
        0 <= i < j < o.len() ==> lex_le(#[trigger] keys[o[i]], #[trigger] keys[o[j]])
}

/// Whether no place occurs twice in `o`.
pub open spec fn no_repeats(o: Seq<int>) -> bool {
    forall|i: int, j: int| 0 <= i < j < o.len() ==> #[trigger] o[i] != #[trigger] o[j]
}

/// Whether places of equal keys keep their order in `o`.
pub open spec fn keeps_ties(keys: Seq<Seq<char>>, o: Seq<int>) -> bool {
    forall|i: int, j: int|
        0 <= i < j < o.len() && keys[o[i]] == keys[o[j]] ==> #[trigger] o[i] < #[trigger] o[j]
}

/// The sorted order of the first `m` keys holds each of the places `0..m`
/// exactly once, puts their keys in order, and keeps places of equal keys
/// in their given order.
pub proof fn law_sorted_order(keys: Seq<Seq<char>>, m: int)
    requires
        0 <= m <= keys.len(),
    ensures
        sorted_order(keys, m).len() == m,
        forall|x: int| 0 <= x < m ==> 0 <= #[trigger] sorted_order(keys, m)[x] < m,
        no_repeats(sorted_order(keys, m)),
        in_key_order(keys, sorted_order(keys, m)),
        keeps_ties(keys, sorted_order(keys, m)),
    decreases m,
{
    if m > 0 {
        law_sorted_order(keys, m - 1);
        let o = sorted_order(keys, m - 1);
        let k = keys[m - 1];
        lemma_first_after_bounds(o, keys, k, 0);
        let f = first_after(o, keys, k, 0);
        let r = o.insert(f, m - 1);
        assert(sorted_order(keys, m) == r);
        assert forall|x: int| 0 <= x < m implies 0 <= #[trigger] r[x] < m by {
            if x < f {
                assert(r[x] == o[x]);
            } else if x > f {
                assert(r[x] == o[x - 1]);
            }
        }
        assert forall|i: int, j: int| 0 <= i < j < r.len() implies #[trigger] r[i] != #[trigger] r[j] by {
            if i != f && j != f {
                let i0 = if i < f { i } else { i - 1 };
                let j0 = if j < f { j } else { j - 1 };
                assert(r[i] == o[i0] && r[j] == o[j0]);
            } else if i == f {
                let j0 = j - 1;
                assert(r[j] == o[j0]);
            } else {
                assert(r[i] == o[i]);
            }
        }
        assert forall|i: int, j: int| 0 <= i < j < r.len() implies lex_le(
            #[trigger] keys[r[i]],
            #[trigger] keys[r[j]],
        ) by {
            if i != f && j != f {
                let i0 = if i < f { i } else { i - 1 };
                let j0 = if j < f { j } else { j - 1 };
                assert(r[i] == o[i0] && r[j] == o[j0]);
            } else if i == f {
                let j0 = j - 1;
                assert(r[j] == o[j0]);
                lemma_lex_le_total(keys[o[f]], k);
                if j0 > f {
                    assert(lex_le(keys[o[f]], keys[o[j0]]));
                    lemma_lex_le_trans(k, keys[o[f]], keys[o[j0]]);
                }
            } else {
                assert(r[i] == o[i]);
            }
        }
        assert forall|i: int, j: int|
            0 <= i < j < r.len() && keys[r[i]] == keys[r[j]] implies #[trigger] r[i]
            < #[trigger] r[j] by {
            if i != f && j != f {
                let i0 = if i < f { i } else { i - 1 };
                let j0 = if j < f { j } else { j - 1 };
                assert(r[i] == o[i0] && r[j] == o[j0]);
            } else if i == f {
                let j0 = j - 1;
                assert(r[j] == o[j0]);
                lemma_lex_le_refl(k);
                if j0 > f {
                    assert(lex_le(keys[o[f]], keys[o[j0]]));
                    lemma_lex_le_total(keys[o[f]], k);
                    lemma_lex_le_trans(k, keys[o[f]], keys[o[j0]]);
                    lemma_lex_le_antisym(keys[o[f]], k);
                }
            } else {
                assert(r[i] == o[i]);
            }
        }
    }
}

/// `c` with both sort flags off.
pub open spec fn unsorted(c: ConfigV) -> ConfigV {
    ConfigV { sort_properties: false, sort_nodes: false, ..c }
}

/// `n` with its properties and children put in the order in which the
/// writer puts them under `c`, each child reordered the same way.
pub open spec fn reordered_node(n: NodeV, c: ConfigV) -> NodeV
    decreases n, 1int, 0int,
{
    NodeV {
        properties: prop_order(n, c).map_values(|i: int| n.properties[i]),
        children: reordered_children(n, child_order(n, c), child_order(n, c).len() as int, c),
        ..n
    }
}

/// The children of `n` at the first `k` places of `order`, each reordered.
pub open spec fn reordered_children(n: NodeV, order: Seq<int>, k: int, c: ConfigV) -> Seq<NodeV>
    decreases n, 0int, k,
{
    if k <= 0 || k > order.len() || !(0 <= order[k - 1] < n.children.len()) {
        Seq::empty()
    } else {
        reordered_children(n, order, k - 1, c).push(reordered_node(n.children[order[k - 1]], c))
    }
}

/// `t` with every node (the root, its descendants and the bodies of the
/// reference nodes) reordered as the writer orders it under `c`.
pub open spec fn reordered_tree(t: TreeV, c: ConfigV) -> TreeV {
    TreeV {
        root: match t.root {
            Some(r) => Some(reordered_node(r, c)),
            None => None,
        },
        reference_nodes: t.reference_nodes.map_values(
            |rn: RefNodeV| RefNodeV { node: reordered_node(rn.node, c), ..rn },
        ),
        ..t
    }
}

/// Each order of a node is a list of its places, as long as what it orders.
proof fn lemma_orders_in_range(n: NodeV, c: ConfigV)
    ensures
        prop_order(n, c).len() == n.properties.len(),
        forall|x: int|
            0 <= x < n.properties.len() ==> 0 <= #[trigger] prop_order(n, c)[x] < n.properties.len(),
        child_order(n, c).len() == n.children.len(),
        forall|x: int|
            0 <= x < n.children.len() ==> 0 <= #[trigger] child_order(n, c)[x] < n.children.len(),
{
    if c.sort_properties {
        law_sorted_order(
            n.properties.map_values(|p: PropV| p.name),
            n.properties.len() as int,
        );
    }
    if c.sort_nodes {
        law_sorted_order(
            n.children.map_values(|x: NodeV| full_name_v(x)),
            n.children.len() as int,
        );
    }
}

proof fn lemma_props_reordered(ps: Seq<PropV>, order: Seq<int>, k: int, ind: Seq<char>)
    requires
        0 <= k <= order.len(),
        forall|x: int| 0 <= x < order.len() ==> 0 <= #[trigger] order[x] < ps.len(),
    ensures
        props_text(order.map_values(|i: int| ps[i]), identity_order(order.len() as int), k, ind)
            == props_text(ps, order, k, ind),
    decreases k,
{
    if k > 0 {
        lemma_props_reordered(ps, order, k - 1, ind);
    }
}

proof fn lemma_reordered_children_shape(n: NodeV, order: Seq<int>, k: int, c: ConfigV)
    requires
        0 <= k <= order.len(),
        forall|x: int| 0 <= x < order.len() ==> 0 <= #[trigger] order[x] < n.children.len(),
    ensures
        reordered_children(n, order, k, c).len() == k,
        forall|x: int|
            0 <= x < k ==> #[trigger] reordered_children(n, order, k, c)[x] == reordered_node(
                n.children[order[x]],
                c,
            ),
    decreases k,
{
    if k > 0 {
        lemma_reordered_children_shape(n, order, k - 1, c);
    }
}

/// A node written in its own order under `c` reads as the same node,
/// reordered, written with the sort flags off.
proof fn lemma_node_text_reordered(n: NodeV, depth: nat, c: ConfigV)
    ensures
        node_text(reordered_node(n, c), depth, unsorted(c)) == node_text(n, depth, c),
    decreases n, 1int, 0int,
{
    let n2 = reordered_node(n, c);
    let c0 = unsorted(c);
    lemma_orders_in_range(n, c);
    lemma_reordered_children_shape(n, child_order(n, c), n.children.len() as int, c);
    lemma_props_reordered(
        n.properties,
        prop_order(n, c),
        n.properties.len() as int,
        crate::serializer::repeat(c.indent, depth + 1),
    );
    assert(prop_order(n2, c0) == identity_order(n.properties.len() as int));
    assert(child_order(n2, c0) == identity_order(n.children.len() as int));
    lemma_children_reordered(n, depth, c, n.children.len() as int);
}

proof fn lemma_children_reordered(n: NodeV, depth: nat, c: ConfigV, k: int)
    requires
        0 <= k <= n.children.len(),
    ensures
        children_text(
            reordered_node(n, c),
            identity_order(n.children.len() as int),
            k,
            depth,
            unsorted(c),
        ) == children_text(n, child_order(n, c), k, depth, c),
    decreases n, 0int, k,
{
    lemma_orders_in_range(n, c);
    let order = child_order(n, c);
    let n2 = reordered_node(n, c);
    lemma_reordered_children_shape(n, order, n.children.len() as int, c);
    if k > 0 {
        lemma_children_reordered(n, depth, c, k - 1);
        let j = order[k - 1];
        assert(0 <= j < n.children.len());
        let child = n.children[j];
        assert(n2.children[k - 1] == reordered_node(child, c));
        lemma_node_text_reordered(child, depth + 1, c);
        assert(n2.properties.len() == n.properties.len());
        assert(full_name_v(reordered_node(child, c)) == full_name_v(child));
    }
}

proof fn lemma_ref_nodes_reordered(rs: Seq<RefNodeV>, k: int, c: ConfigV)
    requires
        0 <= k <= rs.len(),
    ensures
        ref_nodes_text(
            rs.map_values(|rn: RefNodeV| RefNodeV { node: reordered_node(rn.node, c), ..rn }),
            k,
            unsorted(c),
        ) == ref_nodes_text(rs, k, c),
    decreases k,
{
    if k > 0 {
        lemma_ref_nodes_reordered(rs, k - 1, c);
        lemma_node_text_reordered(rs[k - 1].node, 0, c);
    }
}

/// The sort flags only reorder: what is written for `t` under `c` is what is
/// written, with both flags off, for `t` with the properties of every node
/// put in name order and its children in full-name order (each list a
/// reordering of the node's own, with equal names in their given order: see
/// `law_sorted_order`).
pub proof fn law_sort_flags_only_reorder(t: TreeV, c: ConfigV)
    ensures
        tree_text(reordered_tree(t, c), unsorted(c)) == tree_text(t, c),
{
    let t2 = reordered_tree(t, c);
    lemma_ref_nodes_reordered(t.reference_nodes, t.reference_nodes.len() as int, c);
    match t.root {
        Some(r) => {
            lemma_node_text_reordered(r, 0, c);
        },
        None => {},
    }
    assert(t2.reference_nodes.len() == t.reference_nodes.len());
}

/// One line for each property of `ps`, in order.
pub open spec fn prop_lines(ps: Seq<PropV>, ind: Seq<char>) -> Seq<char>
    decreases ps.len(),
{
    if ps.len() == 0 {
        Seq::empty()
    } else {
        prop_lines(ps.drop_last(), ind) + prop_line(ps.last(), ind)
    }
}

/// The children `kids`, in order, each written as `labels name { ... };` at
/// nesting `depth + 1`, each but the first after an empty line, and the
/// first too where `lead` holds.
pub open spec fn child_blocks(kids: Seq<NodeV>, lead: bool, depth: nat, c: ConfigV) -> Seq<char>
    decreases kids.len(),
{
    if kids.len() == 0 {
        Seq::empty()
    } else {
        let k = kids.last();
        child_blocks(kids.drop_last(), lead, depth, c) + (if kids.len() > 1 || lead {
            seq!['\n']
        } else {
            Seq::empty()
        }) + repeat(c.indent, depth + 1) + labels_text(k.labels) + full_name_v(k) + seq![' ']
            + node_text(k, depth + 1, c) + seq![';', '\n']
    }
}

proof fn lemma_props_in_place(ps: Seq<PropV>, k: int, ind: Seq<char>)
    requires
        0 <= k <= ps.len(),
    ensures
        props_text(ps, identity_order(ps.len() as int), k, ind) == prop_lines(ps.take(k), ind),
    decreases k,
{
    if k > 0 {
        lemma_props_in_place(ps, k - 1, ind);
        assert(ps.take(k).drop_last() =~= ps.take(k - 1));
    }
}

proof fn lemma_children_in_place(n: NodeV, k: int, depth: nat, c: ConfigV)
    requires
        0 <= k <= n.children.len(),
    ensures
        children_text(n, identity_order(n.children.len() as int), k, depth, c) == child_blocks(
            n.children.take(k),
            n.properties.len() > 0 || n.deleted_properties.len() > 0,
            depth,
            c,
        ),
    decreases k,
{
    if k > 0 {
        lemma_children_in_place(n, k - 1, depth, c);
        assert(n.children.take(k).drop_last() =~= n.children.take(k - 1));
    }
}

/// The body written for a node: `{`, a `/delete-property/` line for each
/// deleted property, a `/delete-node/` line for each deleted node, a line
/// for each property, then each child with an empty line before it (but
/// before the first where nothing precedes it but deleted nodes), and `}`
/// at the node's own indentation; properties and children in the order
/// that `c` asks for (`reordered_node`), each child's body written the same
/// way.
pub proof fn law_node_body_layout(n: NodeV, depth: nat, c: ConfigV)
    ensures
        node_text(n, depth, c) == seq!['{', '\n'] + directive_lines(
            n.deleted_properties,
            n.deleted_properties.len() as int,
            repeat(c.indent, depth + 1),
            "/delete-property/ "@,
        ) + directive_lines(
            n.deleted_nodes,
            n.deleted_nodes.len() as int,
            repeat(c.indent, depth + 1),
            "/delete-node/ "@,
        ) + prop_lines(reordered_node(n, c).properties, repeat(c.indent, depth + 1)) + child_blocks(
            reordered_node(n, c).children,
            n.properties.len() > 0 || n.deleted_properties.len() > 0,
            depth,
            unsorted(c),
        ) + repeat(c.indent, depth) + seq!['}'],
{
    let r = reordered_node(n, c);
    let c0 = unsorted(c);
    lemma_node_text_reordered(n, depth, c);
    lemma_orders_in_range(n, c);
    lemma_reordered_children_shape(n, child_order(n, c), n.children.len() as int, c);
    assert(r.properties.len() == n.properties.len());
    assert(r.children.len() == n.children.len());
    assert(prop_order(r, c0) == identity_order(r.properties.len() as int));
    assert(child_order(r, c0) == identity_order(r.children.len() as int));
    lemma_props_in_place(r.properties, r.properties.len() as int, repeat(c.indent, depth + 1));
    lemma_children_in_place(r, r.children.len() as int, depth, c0);
    assert(r.properties.take(r.properties.len() as int) =~= r.properties);
    assert(r.children.take(r.children.len() as int) =~= r.children);
}

} // verus!

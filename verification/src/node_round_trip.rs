//! A node written by the writer reads back as the node the writer wrote.
use vstd::prelude::*;
use crate::grammar::{
    ws, at, span, in_class, Class, ident, labels, label_def, is_prop_name_start,
    is_node_name_start, prop_name, node_name, starts, delete_property, delete_node, node_item,
    body, add_item, ItemV, Outcome, child_node, omit_marker, unit_address, property, lemma_span,
    node_close,
};
use crate::model::{NodeV, PropV, full_name_v, bare_node_v};
use crate::serializer::{
    labels_text, repeat, sorted_order, first_after, identity_order, directive_lines, props_text,
    ConfigV, node_text, children_text, prop_order, child_order, prop_line,
};
use crate::round_trip::{
    readable_label, readable_property, after_labels, law_property_round_trip, lemma_span_over,
    lemma_labels_text_take, lemma_labels_text_prefix, lemma_labels_read, lemma_after_labels_at,
    lemma_prop_line_parts,
};
use crate::text::is_multispace;

verus! {

/// A text standing in `t` at `a` is made of its two halves standing there
/// one after the other.
pub(crate) proof fn lemma_sub_split(t: Seq<char>, a: int, x: Seq<char>, y: Seq<char>)
    requires
        0 <= a,
        a + x.len() + y.len() <= t.len(),
        t.subrange(a, a + x.len() + y.len()) == x + y,
    ensures
        t.subrange(a, a + x.len()) == x,
        t.subrange(a + x.len(), a + x.len() + y.len()) == y,
{
    assert(t.subrange(a, a + x.len()) =~= x) by {
        assert forall|j: int| 0 <= j < x.len() implies t.subrange(a, a + x.len())[j] == x[j] by {
            assert(t.subrange(a, a + x.len() + y.len())[j] == (x + y)[j]);
        }
    }
    assert(t.subrange(a + x.len(), a + x.len() + y.len()) =~= y) by {
        assert forall|j: int| 0 <= j < y.len() implies t.subrange(
            a + x.len(),
            a + x.len() + y.len(),
        )[j] == y[j] by {
            let k: int = x.len() + j;
            assert(t.subrange(a, a + x.len() + y.len())[k] == (x + y)[k]);
            assert((x + y)[k] == y[j]);
            assert(t.subrange(a, a + x.len() + y.len())[k] == t[a + k]);
        }
    }
}

/// Each character of a text standing in `t` is the character of `t` there.
pub(crate) proof fn lemma_sub_at(t: Seq<char>, a: int, x: Seq<char>, j: int)
    requires
        0 <= a,
        a + x.len() <= t.len(),
        t.subrange(a, a + x.len()) == x,
        0 <= j < x.len(),
    ensures
        t[a + j] == x[j],
{
    assert(t.subrange(a, a + x.len())[j] == x[j]);
}

/// Skipping whitespace across a run of blanks goes on from its end.
pub(crate) proof fn lemma_ws_run(t: Seq<char>, a: int, b: int)
    requires
        0 <= a <= b <= t.len(),
        forall|x: int| a <= x < b ==> is_multispace(#[trigger] t[x]),
    ensures
        ws(t, a) == ws(t, b),
    decreases b - a,
{
    if a < b {
        lemma_ws_run(t, a + 1, b);
    }
}

/// Skipping whitespace stops at a character that is neither a blank nor
/// the start of a comment.
pub(crate) proof fn lemma_ws_stop(t: Seq<char>, b: int)
    requires
        0 <= b < t.len(),
        !is_multispace(t[b]),
        t[b] == '/' ==> b + 1 < t.len() && t[b + 1] != '/' && t[b + 1] != '*',
    ensures
        ws(t, b) == b,
{
}

/// Whether every character of `s` is a blank.
pub open spec fn all_blank(s: Seq<char>) -> bool {
    forall|j: int| 0 <= j < s.len() ==> is_multispace(#[trigger] s[j])
}

/// Indentation made of blanks is blank at every depth.
pub(crate) proof fn lemma_repeat_blank(s: Seq<char>, n: nat)
    requires
        all_blank(s),
    ensures
        all_blank(repeat(s, n)),
    decreases n,
{
    if n > 0 {
        lemma_repeat_blank(s, (n - 1) as nat);
        let r = repeat(s, (n - 1) as nat);
        assert forall|j: int| 0 <= j < repeat(s, n).len() implies is_multispace(
            #[trigger] repeat(s, n)[j],
        ) by {
            if j < r.len() {
                assert(repeat(s, n)[j] == r[j]);
            } else {
                assert(repeat(s, n)[j] == s[j - r.len()]);
            }
        }
    }
}

/// The place found for a key lies within the order.
pub(crate) proof fn lemma_first_after(order: Seq<int>, keys: Seq<Seq<char>>, k: Seq<char>, j: int)
    requires
        0 <= j,
    ensures
        0 <= first_after(order, keys, k, j) <= order.len(),
    decreases order.len() - j,
{
    if j < order.len() && lex_le_holds(order, keys, k, j) {
        lemma_first_after(order, keys, k, j + 1);
    }
}

spec fn lex_le_holds(order: Seq<int>, keys: Seq<Seq<char>>, k: Seq<char>, j: int) -> bool {
    crate::serializer::lex_le(keys[order[j]], k)
}

/// The sorted order of `m` keys holds `m` places, each one of `0..m`.
pub(crate) proof fn lemma_sorted_order_range(keys: Seq<Seq<char>>, m: int)
    requires
        0 <= m,
    ensures
        sorted_order(keys, m).len() == m,
        forall|x: int| 0 <= x < m ==> 0 <= #[trigger] sorted_order(keys, m)[x] < m,
    decreases m,
{
    if m > 0 {
        lemma_sorted_order_range(keys, m - 1);
        let o = sorted_order(keys, m - 1);
        lemma_first_after(o, keys, keys[m - 1], 0);
        let f = first_after(o, keys, keys[m - 1], 0);
        let r = o.insert(f, m - 1);
        assert forall|x: int| 0 <= x < m implies 0 <= #[trigger] sorted_order(keys, m)[x] < m by {
            if x < f {
                assert(r[x] == o[x]);
            } else if x > f {
                assert(r[x] == o[x - 1]);
            }
        }
    }
}

/// Either order of `n` places holds `n` places, each one of `0..n`.
pub(crate) proof fn lemma_identity_order_range(n: int)
    requires
        0 <= n,
    ensures
        identity_order(n).len() == n,
        forall|x: int| 0 <= x < n ==> #[trigger] identity_order(n)[x] == x,
{
}

/// Labels written at `i` and followed by a character that is no blank,
/// starts no comment and starts no further label read back as themselves,
/// from label `j` on.
pub(crate) proof fn lemma_labels_read_at(t: Seq<char>, i: int, ls: Seq<Seq<char>>, j: int)
    requires
        forall|x: int| 0 <= x < ls.len() ==> readable_label(#[trigger] ls[x]),
        0 <= i,
        0 <= j <= ls.len(),
        i + labels_text(ls).len() < t.len(),
        t.subrange(i, i + labels_text(ls).len()) == labels_text(ls),
        !is_multispace(t[i + labels_text(ls).len()]),
        t[i + labels_text(ls).len()] == '/' ==> i + labels_text(ls).len() + 1 < t.len()
            && t[i + labels_text(ls).len() + 1] != '/' && t[i + labels_text(ls).len() + 1] != '*',
        label_def(t, i + labels_text(ls).len()) is None,
    ensures
        labels(t, i + labels_text(ls.take(j)).len(), ls.take(j)) == (ls, i + labels_text(ls).len()),
    decreases ls.len() - j,
{
    let n = ls.len() as int;
    let lt = labels_text(ls);
    assert(ls.take(n) =~= ls);
    lemma_labels_text_prefix(ls, j, n);
    let pos = i + labels_text(ls.take(j)).len();
    if j < n {
        let l = ls[j];
        lemma_labels_text_take(ls, j);
        lemma_labels_text_prefix(ls, j + 1, n);
        let nxt = labels_text(ls.take(j + 1));
        let le = pos + l.len();
        assert forall|x: int| pos <= x < le + 2 implies #[trigger] t[x] == nxt[x - i] by {
            lemma_sub_at(t, i, lt, x - i);
            assert(lt.subrange(0, nxt.len() as int)[x - i] == nxt[x - i]);
        }
        assert(t[le] == ':');
        assert(t[le + 1] == ' ');
        assert(readable_label(l));
        assert forall|x: int| pos + 1 <= x < le implies in_class(Class::IdentRest, #[trigger] t[x]) by {
            assert(t[x] == nxt[x - i]);
        }
        assert(t[pos] == l[0]);
        lemma_span_over(t, pos + 1, le, Class::IdentRest);
        assert(ws(t, le) == le);
        assert(t.subrange(pos, le) =~= l) by {
            assert forall|x: int| 0 <= x < l.len() implies t.subrange(pos, le)[x] == l[x] by {
                assert(t[pos + x] == nxt[pos + x - i]);
            }
        }
        assert(label_def(t, pos) == Some((l, le + 1)));
        let np = pos + l.len() + 2;
        if j + 1 < n {
            lemma_labels_text_prefix(ls, j + 2, n);
            lemma_labels_text_take(ls, j + 1);
            let nn = labels_text(ls.take(j + 2));
            lemma_sub_at(t, i, lt, np - i);
            assert(lt.subrange(0, nn.len() as int)[np - i] == nn[np - i]);
            assert(nn[np - i] == ls[j + 1][0]);
        } else {
            assert(np == i + lt.len());
        }
        lemma_ws_stop(t, np);
        assert(ws(t, le + 1) == np);
        assert(ls.take(j).push(l) =~= ls.take(j + 1));
        lemma_labels_read_at(t, i, ls, j + 1);
    }
}

/// A property name the reader reads whole.
pub open spec fn readable_prop_name(x: Seq<char>) -> bool {
    x.len() >= 1 && is_prop_name_start(x[0]) && forall|j: int|
        1 <= j < x.len() ==> in_class(Class::PropNameRest, #[trigger] x[j])
}

/// A node name the reader reads whole.
pub open spec fn readable_node_name(x: Seq<char>) -> bool {
    x.len() >= 1 && is_node_name_start(x[0]) && forall|j: int|
        1 <= j < x.len() ==> in_class(Class::NodeNameRest, #[trigger] x[j])
}

/// `/delete-property/ x;` on its line is read as the deletion of `x`, and
/// reading ends at the line feed.
proof fn lemma_delete_prop_item(t: Seq<char>, b: int, ind: Seq<char>, x: Seq<char>)
    requires
        all_blank(ind),
        readable_prop_name(x),
        0 <= b < t.len(),
        t[b] == '\n',
        b + 1 + (ind + "/delete-property/ "@ + x + seq![';', '\n']).len() <= t.len(),
        t.subrange(b + 1, b + 1 + (ind + "/delete-property/ "@ + x + seq![';', '\n']).len())
            == ind + "/delete-property/ "@ + x + seq![';', '\n'],
    ensures
        node_item(t, ws(t, b)) == Outcome::Done(
            ItemV::DeleteProp(x),
            b + (ind + "/delete-property/ "@ + x + seq![';', '\n']).len(),
        ),
{
    reveal_strlit("/delete-property/ ");
    reveal_strlit("/delete-property/");
    let kw = "/delete-property/ "@;
    let l = ind + kw + x + seq![';', '\n'];
    let j = b + 1 + ind.len();
    assert forall|y: int| 0 <= y < l.len() implies #[trigger] t[b + 1 + y] == l[y] by {
        lemma_sub_at(t, b + 1, l, y);
    }
    assert forall|y: int| b + 1 <= y < j implies is_multispace(#[trigger] t[y]) by {
        assert(t[b + 1 + (y - b - 1)] == l[y - b - 1]);
    }
    lemma_ws_run(t, b, j);
    assert(t[b + 1 + ind.len()] == l[ind.len() as int]);
    assert(t[b + 1 + (ind.len() + 1)] == l[ind.len() + 1int]);
    lemma_ws_stop(t, j);
    assert(t.subrange(j, j + 17) =~= "/delete-property/"@) by {
        assert forall|y: int| 0 <= y < 17 implies t.subrange(j, j + 17)[y] == "/delete-property/"@[y] by {
            assert(t[b + 1 + (ind.len() + y)] == l[ind.len() + y]);
        }
    }
    assert(starts(t, j, "/delete-property/"@));
    let k = j + 18;
    assert(t[b + 1 + (ind.len() + 17)] == l[ind.len() + 17int]);
    assert(t[b + 1 + (ind.len() + 18)] == l[ind.len() + 18int]);
    lemma_ws_stop(t, k);
    assert(ws(t, j + 17) == k);
    let e = k + x.len();
    assert forall|y: int| k + 1 <= y < e implies in_class(Class::PropNameRest, #[trigger] t[y]) by {
        assert(t[b + 1 + (y - b - 1)] == l[y - b - 1]);
    }
    assert(t[b + 1 + (ind.len() + 18 + x.len())] == l[ind.len() + 18int + x.len()]);
    assert(t[e] == ';');
    lemma_span_over(t, k + 1, e, Class::PropNameRest);
    assert(prop_name(t, k) == Some(e));
    lemma_ws_stop(t, e);
    assert(t.subrange(k, e) =~= x) by {
        assert forall|y: int| 0 <= y < x.len() implies t.subrange(k, e)[y] == x[y] by {
            assert(t[b + 1 + (ind.len() + 18 + y)] == l[ind.len() + 18 + y]);
        }
    }
    assert(delete_property(t, j) == Some((x, e + 1)));
}

/// `/delete-node/ x;` on its line is read as the deletion of `x`, and
/// reading ends at the line feed.
proof fn lemma_delete_node_item(t: Seq<char>, b: int, ind: Seq<char>, x: Seq<char>)
    requires
        all_blank(ind),
        readable_node_name(x),
        0 <= b < t.len(),
        t[b] == '\n',
        b + 1 + (ind + "/delete-node/ "@ + x + seq![';', '\n']).len() <= t.len(),
        t.subrange(b + 1, b + 1 + (ind + "/delete-node/ "@ + x + seq![';', '\n']).len())
            == ind + "/delete-node/ "@ + x + seq![';', '\n'],
    ensures
        node_item(t, ws(t, b)) == Outcome::Done(
            ItemV::DeleteNode(x),
            b + (ind + "/delete-node/ "@ + x + seq![';', '\n']).len(),
        ),
{
    reveal_strlit("/delete-node/ ");
    reveal_strlit("/delete-node/");
    reveal_strlit("/delete-property/");
    let kw = "/delete-node/ "@;
    let l = ind + kw + x + seq![';', '\n'];
    let j = b + 1 + ind.len();
    assert forall|y: int| 0 <= y < l.len() implies #[trigger] t[b + 1 + y] == l[y] by {
        lemma_sub_at(t, b + 1, l, y);
    }
    assert forall|y: int| b + 1 <= y < j implies is_multispace(#[trigger] t[y]) by {
        assert(t[b + 1 + (y - b - 1)] == l[y - b - 1]);
    }
    lemma_ws_run(t, b, j);
    assert(t[b + 1 + ind.len()] == l[ind.len() as int]);
    assert(t[b + 1 + (ind.len() + 1)] == l[ind.len() + 1int]);
    lemma_ws_stop(t, j);
    assert(t[b + 1 + (ind.len() + 8)] == l[ind.len() + 8int]);
    assert(t[j + 8] == 'n');
    assert(!starts(t, j, "/delete-property/"@)) by {
        if starts(t, j, "/delete-property/"@) {
            assert(t.subrange(j, j + 17)[8] == "/delete-property/"@[8]);
        }
    }
    assert(t.subrange(j, j + 13) =~= "/delete-node/"@) by {
        assert forall|y: int| 0 <= y < 13 implies t.subrange(j, j + 13)[y] == "/delete-node/"@[y] by {
            assert(t[b + 1 + (ind.len() + y)] == l[ind.len() + y]);
        }
    }
    assert(starts(t, j, "/delete-node/"@));
    let k = j + 14;
    assert(t[b + 1 + (ind.len() + 13)] == l[ind.len() + 13int]);
    assert(t[b + 1 + (ind.len() + 14)] == l[ind.len() + 14int]);
    lemma_ws_stop(t, k);
    assert(ws(t, j + 13) == k);
    let e = k + x.len();
    assert forall|y: int| k + 1 <= y < e implies in_class(Class::NodeNameRest, #[trigger] t[y]) by {
        assert(t[b + 1 + (y - b - 1)] == l[y - b - 1]);
    }
    assert(t[b + 1 + (ind.len() + 14 + x.len())] == l[ind.len() + 14int + x.len()]);
    assert(t[e] == ';');
    lemma_span_over(t, k + 1, e, Class::NodeNameRest);
    assert(node_name(t, k) == Some(e));
    lemma_ws_stop(t, e);
    assert(t.subrange(k, e) =~= x) by {
        assert forall|y: int| 0 <= y < x.len() implies t.subrange(k, e)[y] == x[y] by {
            assert(t[b + 1 + (ind.len() + 14 + y)] == l[ind.len() + 14 + y]);
        }
    }
    assert(delete_node(t, j) == Some((x, e + 1)));
}

/// A written property line is no child node: reading one there backs off.
#[verifier::spinoff_prover]
#[verifier::rlimit(30)]
proof fn lemma_property_no_child(t: Seq<char>, j: int, p: PropV)
    requires
        readable_property(p),
        0 <= j,
        j + prop_line(p, Seq::empty()).len() <= t.len(),
        t.subrange(j, j + prop_line(p, Seq::empty()).len()) == prop_line(p, Seq::empty()),
    ensures
        child_node(t, j) is Backtrack,
        t[j] != '/',
        !is_multispace(t[j]),
{
    reveal_strlit("/omit-if-no-ref/");
    let w = prop_line(p, Seq::empty());
    lemma_prop_line_parts(p);
    lemma_labels_read(t, j, p, 0);
    assert(p.labels.take(0) =~= Seq::<Seq<char>>::empty());
    let i1 = j + labels_text(p.labels).len();
    lemma_after_labels_at(t, j, p);
    let a = after_labels(p);
    let ne = i1 + p.name.len();
    assert forall|x: int| 0 <= x < a.len() implies #[trigger] t[i1 + x] == a[x] by {
        lemma_sub_at(t, i1, a, x);
    }
    assert(t[j] == w[0]);
    assert(t[j] != '/') by {
        if p.labels.len() > 0 {
            lemma_labels_text_prefix(p.labels, 1, p.labels.len() as int);
            lemma_labels_text_take(p.labels, 0);
            assert(p.labels.take(p.labels.len() as int) =~= p.labels);
            assert(labels_text(p.labels.take(1))[0] == p.labels[0][0]);
            assert(labels_text(p.labels).subrange(0, labels_text(p.labels.take(1)).len() as int)[0]
                == labels_text(p.labels)[0]);
            assert(readable_label(p.labels[0]));
        } else {
            assert(t[i1 + 0] == a[0]);
        }
    }
    assert(!is_multispace(t[j])) by {
        if p.labels.len() > 0 {
            lemma_labels_text_prefix(p.labels, 1, p.labels.len() as int);
            lemma_labels_text_take(p.labels, 0);
            assert(p.labels.take(p.labels.len() as int) =~= p.labels);
            assert(labels_text(p.labels.take(1))[0] == p.labels[0][0]);
            assert(labels_text(p.labels).subrange(0, labels_text(p.labels.take(1)).len() as int)[0]
                == labels_text(p.labels)[0]);
            assert(readable_label(p.labels[0]));
        } else {
            assert(t[i1 + 0] == a[0]);
        }
    }
    assert(!starts(t, j, "/omit-if-no-ref/"@)) by {
        if starts(t, j, "/omit-if-no-ref/"@) {
            assert(t.subrange(j, j + 16)[0] == "/omit-if-no-ref/"@[0]);
        }
    }
    assert(omit_marker(t, j) == j);
    assert(t[i1 + 0] == a[0]);
    assert(t[i1 + p.name.len()] == a[p.name.len() as int]);
    assert(t[ne] == ' ' || t[ne] == ';');
    if node_name(t, i1) is Some {
        let q = span(t, i1 + 1, Class::NodeNameRest);
        lemma_span(t, i1 + 1, Class::NodeNameRest);
        if q > ne {
            assert(in_class(Class::NodeNameRest, t[ne]));
        }
        if q < ne {
            assert(t[i1 + (q - i1)] == a[q - i1]);
            assert(in_class(Class::PropNameRest, t[q]));
            assert(t[q] == '?');
            lemma_ws_stop(t, q);
        } else if t[ne] == ' ' {
            assert(t[i1 + (p.name.len() + 1)] == a[p.name.len() + 1int]);
            lemma_ws_stop(t, ne + 1);
            assert(ws(t, ne) == ne + 1);
        } else {
            lemma_ws_stop(t, ne);
        }
        assert(unit_address(t, q) == (None::<Seq<char>>, q));
    }
}

/// A property on its line is read as that property, and reading ends at
/// the line feed.
proof fn lemma_property_item(t: Seq<char>, b: int, ind: Seq<char>, p: PropV)
    requires
        all_blank(ind),
        readable_property(p),
        0 <= b < t.len(),
        t[b] == '\n',
        b + 1 + prop_line(p, ind).len() <= t.len(),
        t.subrange(b + 1, b + 1 + prop_line(p, ind).len()) == prop_line(p, ind),
    ensures
        node_item(t, ws(t, b)) == Outcome::Done(ItemV::Prop(p), b + prop_line(p, ind).len()),
{
    reveal_strlit("/delete-property/");
    reveal_strlit("/delete-node/");
    let w = prop_line(p, Seq::empty());
    let l = prop_line(p, ind);
    assert(l =~= ind + w);
    lemma_sub_split(t, b + 1, ind, w);
    let j = b + 1 + ind.len();
    assert forall|y: int| b + 1 <= y < j implies is_multispace(#[trigger] t[y]) by {
        lemma_sub_at(t, b + 1, ind, y - b - 1);
    }
    lemma_ws_run(t, b, j);
    lemma_property_no_child(t, j, p);
    lemma_ws_stop(t, j);
    assert(!starts(t, j, "/delete-property/"@)) by {
        if starts(t, j, "/delete-property/"@) {
            assert(t.subrange(j, j + 17)[0] == "/delete-property/"@[0]);
        }
    }
    assert(!starts(t, j, "/delete-node/"@)) by {
        if starts(t, j, "/delete-node/"@) {
            assert(t.subrange(j, j + 13)[0] == "/delete-node/"@[0]);
        }
    }
    law_property_round_trip(t, j, p);
}

/// One item read at `b` moves the body reader on past it.
proof fn lemma_body_step(t: Seq<char>, b: int, acc: NodeV, it: ItemV, k: int)
    requires
        0 <= b < k <= t.len(),
        node_item(t, ws(t, b)) == Outcome::Done(it, k),
    ensures
        body(t, b, acc) == body(t, k, add_item(acc, it)),
{
}

/// Lines of `/delete-property/` are read as those deletions, in order.
proof fn lemma_delete_props_read(
    t: Seq<char>,
    b: int,
    ind: Seq<char>,
    names: Seq<Seq<char>>,
    k: int,
    acc: NodeV,
)
    requires
        all_blank(ind),
        forall|x: int| 0 <= x < names.len() ==> readable_prop_name(#[trigger] names[x]),
        0 <= k <= names.len(),
        0 <= b < t.len(),
        t[b] == '\n',
        b + 1 + directive_lines(names, k, ind, "/delete-property/ "@).len() <= t.len(),
        t.subrange(b + 1, b + 1 + directive_lines(names, k, ind, "/delete-property/ "@).len())
            == directive_lines(names, k, ind, "/delete-property/ "@),
    ensures
        t[b + directive_lines(names, k, ind, "/delete-property/ "@).len()] == '\n',
        body(t, b, acc) == body(
            t,
            b + directive_lines(names, k, ind, "/delete-property/ "@).len(),
            NodeV { deleted_properties: acc.deleted_properties + names.take(k), ..acc },
        ),
    decreases k,
{
    let kw = "/delete-property/ "@;
    if k == 0 {
        assert(acc.deleted_properties + names.take(0) =~= acc.deleted_properties);
    } else {
        let d0 = directive_lines(names, k - 1, ind, kw);
        let line = ind + kw + names[k - 1] + seq![';', '\n'];
        assert(directive_lines(names, k, ind, kw) =~= d0 + line);
        lemma_sub_split(t, b + 1, d0, line);
        lemma_delete_props_read(t, b, ind, names, k - 1, acc);
        let b1 = b + d0.len();
        let acc1 = NodeV { deleted_properties: acc.deleted_properties + names.take(k - 1), ..acc };
        lemma_delete_prop_item(t, b1, ind, names[k - 1]);
        lemma_body_step(t, b1, acc1, ItemV::DeleteProp(names[k - 1]), b1 + line.len());
        assert(names.take(k - 1).push(names[k - 1]) =~= names.take(k));
        assert(acc1.deleted_properties.push(names[k - 1]) =~= acc.deleted_properties + names.take(k));
        lemma_sub_at(t, b1 + 1, line, line.len() - 1);
    }
}

/// Lines of `/delete-node/` are read as those deletions, in order.
proof fn lemma_delete_nodes_read(
    t: Seq<char>,
    b: int,
    ind: Seq<char>,
    names: Seq<Seq<char>>,
    k: int,
    acc: NodeV,
)
    requires
        all_blank(ind),
        forall|x: int| 0 <= x < names.len() ==> readable_node_name(#[trigger] names[x]),
        0 <= k <= names.len(),
        0 <= b < t.len(),
        t[b] == '\n',
        b + 1 + directive_lines(names, k, ind, "/delete-node/ "@).len() <= t.len(),
        t.subrange(b + 1, b + 1 + directive_lines(names, k, ind, "/delete-node/ "@).len())
            == directive_lines(names, k, ind, "/delete-node/ "@),
    ensures
        t[b + directive_lines(names, k, ind, "/delete-node/ "@).len()] == '\n',
        body(t, b, acc) == body(
            t,
            b + directive_lines(names, k, ind, "/delete-node/ "@).len(),
            NodeV { deleted_nodes: acc.deleted_nodes + names.take(k), ..acc },
        ),
    decreases k,
{
    let kw = "/delete-node/ "@;
    if k == 0 {
        assert(acc.deleted_nodes + names.take(0) =~= acc.deleted_nodes);
    } else {
        let d0 = directive_lines(names, k - 1, ind, kw);
        let line = ind + kw + names[k - 1] + seq![';', '\n'];
        assert(directive_lines(names, k, ind, kw) =~= d0 + line);
        lemma_sub_split(t, b + 1, d0, line);
        lemma_delete_nodes_read(t, b, ind, names, k - 1, acc);
        let b1 = b + d0.len();
        let acc1 = NodeV { deleted_nodes: acc.deleted_nodes + names.take(k - 1), ..acc };
        lemma_delete_node_item(t, b1, ind, names[k - 1]);
        lemma_body_step(t, b1, acc1, ItemV::DeleteNode(names[k - 1]), b1 + line.len());
        assert(names.take(k - 1).push(names[k - 1]) =~= names.take(k));
        assert(acc1.deleted_nodes.push(names[k - 1]) =~= acc.deleted_nodes + names.take(k));
        lemma_sub_at(t, b1 + 1, line, line.len() - 1);
    }
}

/// The properties at the first `k` places of `order`, in that order.
pub open spec fn in_order(ps: Seq<PropV>, order: Seq<int>, k: int) -> Seq<PropV> {
    Seq::new(k as nat, |x: int| ps[order[x]])
}

/// Property lines are read as those properties, in the order written.
proof fn lemma_props_read(
    t: Seq<char>,
    b: int,
    ind: Seq<char>,
    ps: Seq<PropV>,
    order: Seq<int>,
    k: int,
    acc: NodeV,
)
    requires
        all_blank(ind),
        forall|x: int| 0 <= x < ps.len() ==> readable_property(#[trigger] ps[x]),
        0 <= k <= order.len(),
        forall|x: int| 0 <= x < k ==> 0 <= #[trigger] order[x] < ps.len(),
        0 <= b < t.len(),
        t[b] == '\n',
        b + 1 + props_text(ps, order, k, ind).len() <= t.len(),
        t.subrange(b + 1, b + 1 + props_text(ps, order, k, ind).len()) == props_text(
            ps,
            order,
            k,
            ind,
        ),
    ensures
        t[b + props_text(ps, order, k, ind).len()] == '\n',
        body(t, b, acc) == body(
            t,
            b + props_text(ps, order, k, ind).len(),
            NodeV { properties: acc.properties + in_order(ps, order, k), ..acc },
        ),
    decreases k,
{
    if k == 0 {
        assert(acc.properties + in_order(ps, order, 0) =~= acc.properties);
    } else {
        let d0 = props_text(ps, order, k - 1, ind);
        let p = ps[order[k - 1]];
        let line = prop_line(p, ind);
        lemma_sub_split(t, b + 1, d0, line);
        lemma_props_read(t, b, ind, ps, order, k - 1, acc);
        let b1 = b + d0.len();
        let acc1 = NodeV { properties: acc.properties + in_order(ps, order, k - 1), ..acc };
        lemma_property_item(t, b1, ind, p);
        lemma_body_step(t, b1, acc1, ItemV::Prop(p), b1 + line.len());
        assert(in_order(ps, order, k - 1).push(p) =~= in_order(ps, order, k));
        assert(acc1.properties.push(p) =~= acc.properties + in_order(ps, order, k));
        lemma_sub_at(t, b1 + 1, line, line.len() - 1);
    }
}

/// At the closing `}` of a body nothing more is read, and the body closes
/// with `};`.
proof fn lemma_body_close(t: Seq<char>, b: int, rep: Seq<char>, acc: NodeV)
    requires
        all_blank(rep),
        0 <= b,
        b + rep.len() + 2 < t.len(),
        t[b] == '\n',
        t.subrange(b + 1, b + 1 + rep.len()) == rep,
        t[b + 1 + rep.len()] == '}',
        t[b + 2 + rep.len()] == ';',
    ensures
        body(t, b, acc) == Outcome::Done(acc, b),
        node_close(t, b) == Outcome::Done((), b + rep.len() + 3),
{
    reveal_strlit("/delete-property/");
    reveal_strlit("/delete-node/");
    reveal_strlit("/omit-if-no-ref/");
    let jc = b + 1 + rep.len();
    assert forall|y: int| b <= y < jc implies is_multispace(#[trigger] t[y]) by {
        if y > b {
            lemma_sub_at(t, b + 1, rep, y - b - 1);
        }
    }
    lemma_ws_run(t, b, jc);
    lemma_ws_stop(t, jc);
    lemma_ws_stop(t, jc + 1);
    assert(!starts(t, jc, "/delete-property/"@)) by {
        if starts(t, jc, "/delete-property/"@) {
            assert(t.subrange(jc, jc + 17)[0] == "/delete-property/"@[0]);
        }
    }
    assert(!starts(t, jc, "/delete-node/"@)) by {
        if starts(t, jc, "/delete-node/"@) {
            assert(t.subrange(jc, jc + 13)[0] == "/delete-node/"@[0]);
        }
    }
    assert(!starts(t, jc, "/omit-if-no-ref/"@)) by {
        if starts(t, jc, "/omit-if-no-ref/"@) {
            assert(t.subrange(jc, jc + 16)[0] == "/omit-if-no-ref/"@[0]);
        }
    }
    assert(label_def(t, jc) is None);
    assert(labels(t, jc, Seq::empty()) == (Seq::<Seq<char>>::empty(), jc));
    assert(child_node(t, jc) is Backtrack);
    assert(property(t, jc) is Backtrack);
    assert(delete_property(t, jc) is None);
    assert(delete_node(t, jc) is None);
    assert(node_item(t, jc) is Backtrack);
    assert(ws(t, b) == jc);
}

/// A node the reader gives back as it was written: labels that are
/// identifiers, a node name, a unit address of its characters, and a
/// readable body.
pub open spec fn readable_node(n: NodeV) -> bool
    decreases n, 2int,
{
    &&& forall|j: int| 0 <= j < n.labels.len() ==> readable_label(#[trigger] n.labels[j])
    &&& readable_node_name(n.name)
    &&& match n.unit_address {
        Some(a) => a.len() >= 1 && forall|j: int|
            0 <= j < a.len() ==> in_class(Class::UnitAddress, #[trigger] a[j]),
        None => true,
    }
    &&& readable_body(n)
}

/// A body the reader gives back as it was written: readable properties,
/// deletions of readable names, and readable children.
pub open spec fn readable_body(n: NodeV) -> bool
    decreases n, 1int,
{
    &&& forall|j: int| 0 <= j < n.properties.len() ==> readable_property(#[trigger] n.properties[j])
    &&& forall|j: int|
        0 <= j < n.deleted_properties.len() ==> readable_prop_name(#[trigger] n.deleted_properties[j])
    &&& forall|j: int|
        0 <= j < n.deleted_nodes.len() ==> readable_node_name(#[trigger] n.deleted_nodes[j])
    &&& readable_children(n, n.children.len() as int)
}

/// The first `k` children of `n` are readable.
pub open spec fn readable_children(n: NodeV, k: int) -> bool
    decreases n, 0int, k,
{
    if k <= 0 || k > n.children.len() {
        k <= 0
    } else {
        readable_children(n, k - 1) && readable_node(n.children[k - 1])
    }
}

/// `m` is what reading the written `n` gives: `n` with its properties and
/// its children in the order they were written, each child read back in
/// the same way.
pub open spec fn reads_as(m: NodeV, n: NodeV, c: ConfigV) -> bool
    decreases n, 1int,
{
    &&& m.name == n.name
    &&& m.unit_address == n.unit_address
    &&& m.labels == n.labels
    &&& m.deleted_properties == n.deleted_properties
    &&& m.deleted_nodes == n.deleted_nodes
    &&& m.properties == in_order(n.properties, prop_order(n, c), n.properties.len() as int)
    &&& m.children.len() == n.children.len()
    &&& children_read_as(m, n, c, n.children.len() as int)
}

/// The first `k` children of `m` are the children of `n` read back, in the
/// order in which they were written.
pub open spec fn children_read_as(m: NodeV, n: NodeV, c: ConfigV, k: int) -> bool
    decreases n, 0int, k,
{
    if k <= 0 || k > n.children.len() {
        k <= 0
    } else {
        let o = child_order(n, c)[k - 1];
        &&& children_read_as(m, n, c, k - 1)
        &&& 0 <= o < n.children.len()
        &&& reads_as(m.children[k - 1], n.children[o], c)
    }
}

/// How a child is written after its indentation: labels, full name, body
/// and `;`.
pub open spec fn child_text(n: NodeV, depth: nat, c: ConfigV) -> Seq<char> {
    labels_text(n.labels) + full_name_v(n) + seq![' '] + node_text(n, depth, c) + seq![';']
}

/// The text of labels starts with the first letter of the first label.
pub(crate) proof fn lemma_labels_text_first(ls: Seq<Seq<char>>)
    requires
        ls.len() > 0,
        ls[0].len() >= 1,
    ensures
        labels_text(ls).len() >= 1,
        labels_text(ls)[0] == ls[0][0],
{
    lemma_labels_text_prefix(ls, 1, ls.len() as int);
    lemma_labels_text_take(ls, 0);
    assert(ls.take(ls.len() as int) =~= ls);
    assert(ls.take(0) =~= Seq::<Seq<char>>::empty());
    assert(labels_text(ls.take(1))[0] == ls[0][0]);
    assert(labels_text(ls).subrange(0, labels_text(ls.take(1)).len() as int)[0] == labels_text(
        ls,
    )[0]);
}

/// Each of the first `k` children of a node with readable children is
/// readable.
proof fn lemma_readable_child(n: NodeV, k: int, j: int)
    requires
        readable_children(n, k),
        0 <= j < k,
    ensures
        readable_node(n.children[j]),
    decreases k,
{
    if j < k - 1 {
        lemma_readable_child(n, k - 1, j);
    }
}

/// The written order of the properties and of the children of a node
/// holds each of their places.
pub(crate) proof fn lemma_orders_range(n: NodeV, c: ConfigV)
    ensures
        prop_order(n, c).len() == n.properties.len(),
        forall|x: int|
            0 <= x < n.properties.len() ==> 0 <= #[trigger] prop_order(n, c)[x] < n.properties.len(),
        child_order(n, c).len() == n.children.len(),
        forall|x: int|
            0 <= x < n.children.len() ==> 0 <= #[trigger] child_order(n, c)[x] < n.children.len(),
{
    lemma_sorted_order_range(
        n.properties.map_values(|p: PropV| p.name),
        n.properties.len() as int,
    );
    lemma_identity_order_range(n.properties.len() as int);
    lemma_sorted_order_range(
        n.children.map_values(|x: NodeV| full_name_v(x)),
        n.children.len() as int,
    );
    lemma_identity_order_range(n.children.len() as int);
}

/// Children read back one by one give the relation on the first `k`.
pub(crate) proof fn lemma_children_read_as(m: NodeV, n: NodeV, c: ConfigV, k: int)
    requires
        0 <= k <= n.children.len(),
        forall|x: int| 0 <= x < k ==> 0 <= #[trigger] child_order(n, c)[x] < n.children.len(),
        forall|x: int|
            0 <= x < k ==> reads_as(#[trigger] m.children[x], n.children[child_order(n, c)[x]], c),
    ensures
        children_read_as(m, n, c, k),
    decreases k,
{
    if k > 0 {
        lemma_children_read_as(m, n, c, k - 1);
        assert(reads_as(m.children[k - 1], n.children[child_order(n, c)[k - 1]], c));
    }
}

/// A node name standing at `e`, followed by `@` or by ` {`, starts no
/// label.
proof fn lemma_node_name_no_label(t: Seq<char>, e: int, x: Seq<char>)
    requires
        readable_node_name(x),
        0 <= e,
        e + x.len() + 1 < t.len(),
        t.subrange(e, e + x.len()) == x,
        t[e + x.len()] == '@' || (t[e + x.len()] == ' ' && t[e + x.len() + 1] == '{'),
    ensures
        label_def(t, e) is None,
{
    let ne = e + x.len();
    if let Some(q) = ident(t, e) {
        lemma_span(t, e + 1, Class::IdentRest);
        if q > ne {
            assert(in_class(Class::IdentRest, t[ne]));
        }
        if q < ne {
            lemma_sub_at(t, e, x, q - e);
            assert(in_class(Class::NodeNameRest, t[q]));
            assert(!in_class(Class::IdentRest, t[q]));
            lemma_ws_stop(t, q);
        } else if t[ne] == ' ' {
            lemma_ws_stop(t, ne + 1);
            assert(ws(t, ne) == ne + 1);
        } else {
            lemma_ws_stop(t, ne);
        }
    }
}

/// A child written at `i` is read back as a node related to it by
/// `reads_as`, and reading ends right after its `;`.
#[verifier::spinoff_prover]
#[verifier::rlimit(50)]
proof fn lemma_child_read(t: Seq<char>, i: int, n: NodeV, depth: nat, c: ConfigV) -> (m: NodeV)
    requires
        readable_node(n),
        all_blank(c.indent),
        0 <= i,
        i + child_text(n, depth, c).len() <= t.len(),
        t.subrange(i, i + child_text(n, depth, c).len()) == child_text(n, depth, c),
    ensures
        child_node(t, i) == Outcome::Done(m, i + child_text(n, depth, c).len()),
        reads_as(m, n, c),
        t[i] != '/',
        !is_multispace(t[i]),
    decreases n, 2int, 0int,
{
    reveal_strlit("/omit-if-no-ref/");
    reveal_strlit("@");
    let lt = labels_text(n.labels);
    let fname = full_name_v(n);
    let nt = node_text(n, depth, c);
    let ct = child_text(n, depth, c);
    lemma_sub_split(t, i, lt + fname + seq![' '] + nt, seq![';']);
    lemma_sub_split(t, i, lt + fname + seq![' '], nt);
    lemma_sub_split(t, i, lt + fname, seq![' ']);
    lemma_sub_split(t, i, lt, fname);
    let e = i + lt.len();
    let ne = e + n.name.len();
    let i3 = e + fname.len();
    let q = i3 + 1;
    assert(t[i3] == ' ') by {
        lemma_sub_at(t, i3, seq![' '], 0);
    }
    assert(nt[0] == '{');
    lemma_sub_at(t, q, nt, 0);
    lemma_sub_at(t, q + nt.len(), seq![';'], 0);
    assert(fname.subrange(0, n.name.len() as int) =~= n.name);
    assert forall|y: int| 0 <= y < n.name.len() implies #[trigger] t[e + y] == n.name[y] by {
        lemma_sub_at(t, e, fname, y);
    }
    assert(t.subrange(e, ne) =~= n.name);
    match n.unit_address {
        Some(a) => {
            assert(fname =~= n.name + seq!['@'] + a);
            lemma_sub_at(t, e, fname, n.name.len() as int);
            assert(t[ne] == '@');
            assert forall|y: int| 0 <= y < a.len() implies #[trigger] t[ne + 1 + y] == a[y] by {
                lemma_sub_at(t, e, fname, n.name.len() + 1 + y);
            }
            assert(i3 == ne + 1 + a.len());
            assert forall|y: int| ne + 1 <= y < i3 implies in_class(
                Class::UnitAddress,
                #[trigger] t[y],
            ) by {
                assert(t[ne + 1 + (y - ne - 1)] == a[y - ne - 1]);
            }
            lemma_span_over(t, ne + 1, i3, Class::UnitAddress);
            assert(t.subrange(ne + 1, i3) =~= a) by {
                assert forall|y: int| 0 <= y < a.len() implies t.subrange(ne + 1, i3)[y] == a[y] by {
                    assert(t[ne + 1 + y] == a[y]);
                }
            }
            assert(unit_address(t, ne) == (n.unit_address, i3));
        },
        None => {
            assert(i3 == ne);
            assert(unit_address(t, ne) == (n.unit_address, i3));
        },
    }
    assert forall|y: int| e + 1 <= y < ne implies in_class(Class::NodeNameRest, #[trigger] t[y]) by {
        assert(t[e + (y - e)] == n.name[y - e]);
    }
    lemma_span_over(t, e + 1, ne, Class::NodeNameRest);
    assert(t[e + 0] == n.name[0]);
    lemma_node_name_no_label(t, e, n.name);
    if n.labels.len() > 0 {
        lemma_labels_text_first(n.labels);
        lemma_sub_at(t, i, lt, 0);
    }
    assert(t[i] != '/' && !is_multispace(t[i]));
    lemma_labels_read_at(t, i, n.labels, 0);
    assert(n.labels.take(0) =~= Seq::<Seq<char>>::empty());
    assert(!starts(t, i, "/omit-if-no-ref/"@)) by {
        if starts(t, i, "/omit-if-no-ref/"@) {
            assert(t.subrange(i, i + 16)[0] == "/omit-if-no-ref/"@[0]);
        }
    }
    lemma_ws_run(t, i3, q);
    lemma_ws_stop(t, q);
    let mb = lemma_node_body_read(t, q, n, depth, c);
    let m = NodeV { name: t.subrange(e, ne), unit_address: n.unit_address, labels: n.labels, ..mb };
    lemma_orders_range(n, c);
    lemma_children_read_as(m, n, c, n.children.len() as int);
    m
}

/// The body of a node written at `q` is read back item by item: its
/// deletions, its properties in the order written, and its children
/// read back in the order written; the body then closes with `};`.
#[verifier::spinoff_prover]
#[verifier::rlimit(50)]
pub(crate) proof fn lemma_node_body_read(t: Seq<char>, q: int, n: NodeV, depth: nat, c: ConfigV) -> (mb: NodeV)
    requires
        readable_body(n),
        all_blank(c.indent),
        0 <= q,
        q + node_text(n, depth, c).len() < t.len(),
        t.subrange(q, q + node_text(n, depth, c).len()) == node_text(n, depth, c),
        t[q + node_text(n, depth, c).len()] == ';',
    ensures
        body(t, q + 1, bare_node_v(Seq::empty())) == Outcome::Done(
            mb,
            q + node_text(n, depth, c).len() - repeat(c.indent, depth).len() - 2,
        ),
        node_close(t, q + node_text(n, depth, c).len() - repeat(c.indent, depth).len() - 2)
            == Outcome::Done((), q + node_text(n, depth, c).len() + 1),
        mb.name == Seq::<char>::empty(),
        mb.unit_address == None::<Seq<char>>,
        mb.labels == Seq::<Seq<char>>::empty(),
        mb.deleted_properties == n.deleted_properties,
        mb.deleted_nodes == n.deleted_nodes,
        mb.properties == in_order(n.properties, prop_order(n, c), n.properties.len() as int),
        mb.children.len() == n.children.len(),
        forall|x: int|
            0 <= x < n.children.len() ==> reads_as(
                #[trigger] mb.children[x],
                n.children[child_order(n, c)[x]],
                c,
            ),
    decreases n, 1int, 0int,
{
    let ind = repeat(c.indent, depth + 1);
    let rep = repeat(c.indent, depth);
    lemma_repeat_blank(c.indent, depth + 1);
    lemma_repeat_blank(c.indent, depth);
    lemma_orders_range(n, c);
    let dp = directive_lines(
        n.deleted_properties,
        n.deleted_properties.len() as int,
        ind,
        "/delete-property/ "@,
    );
    let dn = directive_lines(n.deleted_nodes, n.deleted_nodes.len() as int, ind, "/delete-node/ "@);
    let pr = props_text(n.properties, prop_order(n, c), n.properties.len() as int, ind);
    let ch = children_text(n, child_order(n, c), n.children.len() as int, depth, c);
    let x1 = seq!['{', '\n'] + dp;
    let x2 = x1 + dn;
    let x3 = x2 + pr;
    let x4 = x3 + ch;
    let x5 = x4 + rep;
    let nt = node_text(n, depth, c);
    assert(nt =~= x5 + seq!['}']);
    lemma_sub_split(t, q, x5, seq!['}']);
    lemma_sub_split(t, q, x4, rep);
    lemma_sub_split(t, q, x3, ch);
    lemma_sub_split(t, q, x2, pr);
    lemma_sub_split(t, q, x1, dn);
    lemma_sub_split(t, q, seq!['{', '\n'], dp);
    lemma_sub_at(t, q, seq!['{', '\n'], 1);
    lemma_sub_at(t, q + x5.len(), seq!['}'], 0);
    let b0 = q + 1;
    let acc0 = bare_node_v(Seq::empty());
    lemma_delete_props_read(
        t,
        b0,
        ind,
        n.deleted_properties,
        n.deleted_properties.len() as int,
        acc0,
    );
    let b1 = b0 + dp.len();
    let acc1 = NodeV {
        deleted_properties: acc0.deleted_properties + n.deleted_properties.take(
            n.deleted_properties.len() as int,
        ),
        ..acc0
    };
    lemma_delete_nodes_read(t, b1, ind, n.deleted_nodes, n.deleted_nodes.len() as int, acc1);
    let b2 = b1 + dn.len();
    let acc2 = NodeV {
        deleted_nodes: acc1.deleted_nodes + n.deleted_nodes.take(n.deleted_nodes.len() as int),
        ..acc1
    };
    lemma_props_read(
        t,
        b2,
        ind,
        n.properties,
        prop_order(n, c),
        n.properties.len() as int,
        acc2,
    );
    let b3 = b2 + pr.len();
    let acc3 = NodeV {
        properties: acc2.properties + in_order(
            n.properties,
            prop_order(n, c),
            n.properties.len() as int,
        ),
        ..acc2
    };
    let ms = lemma_children_read(t, b3, n, depth, c, n.children.len() as int, acc3);
    let b4 = b3 + ch.len();
    let acc4 = NodeV { children: acc3.children + ms, ..acc3 };
    lemma_body_close(t, b4, rep, acc4);
    assert(n.deleted_properties.take(n.deleted_properties.len() as int) =~= n.deleted_properties);
    assert(n.deleted_nodes.take(n.deleted_nodes.len() as int) =~= n.deleted_nodes);
    assert(acc4.deleted_properties =~= n.deleted_properties);
    assert(acc4.deleted_nodes =~= n.deleted_nodes);
    assert(acc4.properties =~= in_order(n.properties, prop_order(n, c), n.properties.len() as int));
    assert(acc4.children =~= ms);
    acc4
}

/// A child line, once its text is known to be read as the node `m`, is
/// read as that child, and reading ends at the line feed.
proof fn lemma_child_item(
    t: Seq<char>,
    b1: int,
    sep: Seq<char>,
    ind: Seq<char>,
    ct: Seq<char>,
    m: NodeV,
)
    requires
        all_blank(sep),
        all_blank(ind),
        0 <= b1 < t.len(),
        t[b1] == '\n',
        b1 + 1 + (sep + ind + ct + seq!['\n']).len() <= t.len(),
        t.subrange(b1 + 1, b1 + 1 + (sep + ind + ct + seq!['\n']).len()) == sep + ind + ct
            + seq!['\n'],
        child_node(t, b1 + 1 + sep.len() + ind.len()) == Outcome::Done(
            m,
            b1 + 1 + sep.len() + ind.len() + ct.len(),
        ),
        t[b1 + 1 + sep.len() + ind.len()] != '/',
        !is_multispace(t[b1 + 1 + sep.len() + ind.len()]),
    ensures
        node_item(t, ws(t, b1)) == Outcome::Done(
            ItemV::Child(m),
            b1 + (sep + ind + ct + seq!['\n']).len(),
        ),
        t[b1 + (sep + ind + ct + seq!['\n']).len()] == '\n',
{
    reveal_strlit("/delete-property/");
    reveal_strlit("/delete-node/");
    let line = sep + ind + ct + seq!['\n'];
    lemma_sub_split(t, b1 + 1, sep + ind + ct, seq!['\n']);
    lemma_sub_split(t, b1 + 1, sep + ind, ct);
    lemma_sub_split(t, b1 + 1, sep, ind);
    let j = b1 + 1 + sep.len() + ind.len();
    assert forall|y: int| b1 <= y < j implies is_multispace(#[trigger] t[y]) by {
        if b1 < y < b1 + 1 + sep.len() {
            lemma_sub_at(t, b1 + 1, sep, y - b1 - 1);
        } else if y >= b1 + 1 + sep.len() {
            lemma_sub_at(t, b1 + 1 + sep.len(), ind, y - b1 - 1 - sep.len());
        }
    }
    lemma_ws_run(t, b1, j);
    lemma_ws_stop(t, j);
    assert(!starts(t, j, "/delete-property/"@)) by {
        if starts(t, j, "/delete-property/"@) {
            assert(t.subrange(j, j + 17)[0] == "/delete-property/"@[0]);
        }
    }
    assert(!starts(t, j, "/delete-node/"@)) by {
        if starts(t, j, "/delete-node/"@) {
            assert(t.subrange(j, j + 13)[0] == "/delete-node/"@[0]);
        }
    }
    lemma_sub_at(t, b1 + 1 + (sep + ind + ct).len(), seq!['\n'], 0);
}

/// Child lines are read as those children, each read back, in the order
/// written.
#[verifier::spinoff_prover]
#[verifier::rlimit(50)]
proof fn lemma_children_read(
    t: Seq<char>,
    b: int,
    n: NodeV,
    depth: nat,
    c: ConfigV,
    k: int,
    acc: NodeV,
) -> (ms: Seq<NodeV>)
    requires
        readable_body(n),
        all_blank(c.indent),
        0 <= k <= n.children.len(),
        child_order(n, c).len() == n.children.len(),
        forall|x: int|
            0 <= x < n.children.len() ==> 0 <= #[trigger] child_order(n, c)[x] < n.children.len(),
        0 <= b < t.len(),
        t[b] == '\n',
        b + 1 + children_text(n, child_order(n, c), k, depth, c).len() <= t.len(),
        t.subrange(b + 1, b + 1 + children_text(n, child_order(n, c), k, depth, c).len())
            == children_text(n, child_order(n, c), k, depth, c),
    ensures
        t[b + children_text(n, child_order(n, c), k, depth, c).len()] == '\n',
        ms.len() == k,
        forall|x: int|
            0 <= x < k ==> reads_as(#[trigger] ms[x], n.children[child_order(n, c)[x]], c),
        body(t, b, acc) == body(
            t,
            b + children_text(n, child_order(n, c), k, depth, c).len(),
            NodeV { children: acc.children + ms, ..acc },
        ),
    decreases n, 0int, k,
{
    let order = child_order(n, c);
    if k == 0 {
        assert(acc.children + Seq::<NodeV>::empty() =~= acc.children);
        Seq::empty()
    } else {
        let o = order[k - 1];
        let child = n.children[o];
        lemma_readable_child(n, n.children.len() as int, o);
        let ind = repeat(c.indent, depth + 1);
        lemma_repeat_blank(c.indent, depth + 1);
        let sep: Seq<char> = if k > 1 || n.properties.len() > 0 || n.deleted_properties.len() > 0 {
            seq!['\n']
        } else {
            Seq::empty()
        };
        let ct = child_text(child, depth + 1, c);
        let d0 = children_text(n, order, k - 1, depth, c);
        let line = sep + ind + ct + seq!['\n'];
        assert(children_text(n, order, k, depth, c) =~= d0 + line);
        lemma_sub_split(t, b + 1, d0, line);
        let ms0 = lemma_children_read(t, b, n, depth, c, k - 1, acc);
        let b1 = b + d0.len();
        let acc1 = NodeV { children: acc.children + ms0, ..acc };
        lemma_sub_split(t, b1 + 1, sep + ind + ct, seq!['\n']);
        lemma_sub_split(t, b1 + 1, sep + ind, ct);
        let j = b1 + 1 + sep.len() + ind.len();
        let m = lemma_child_read(t, j, child, depth + 1, c);
        lemma_child_item(t, b1, sep, ind, ct, m);
        lemma_body_step(t, b1, acc1, ItemV::Child(m), b1 + line.len());
        let ms = ms0.push(m);
        assert(acc1.children.push(m) =~= acc.children + ms);
        ms
    }
}

/// A readable node, written as a child at any depth with an indentation
/// made of blanks, reads back as itself with its properties and children
/// in the order in which they were written (each child read back in the
/// same way), and reading ends right after the `;` that closes it.
pub proof fn law_node_round_trip(t: Seq<char>, i: int, n: NodeV, depth: nat, c: ConfigV)
    requires
        readable_node(n),
        all_blank(c.indent),
        0 <= i,
        i + child_text(n, depth, c).len() <= t.len(),
        t.subrange(i, i + child_text(n, depth, c).len()) == child_text(n, depth, c),
    ensures
        child_node(t, i) matches Outcome::Done(m, e) && e == i + child_text(n, depth, c).len()
            && reads_as(m, n, c),
{
    let m = lemma_child_read(t, i, n, depth, c);
}

/// The relation on the first `k` children, one child at a time.
proof fn lemma_children_read_as_each(m: NodeV, n: NodeV, c: ConfigV, k: int, x: int)
    requires
        children_read_as(m, n, c, k),
        0 <= x < k,
    ensures
        0 <= child_order(n, c)[x] < n.children.len(),
        reads_as(m.children[x], n.children[child_order(n, c)[x]], c),
    decreases k,
{
    if x < k - 1 {
        lemma_children_read_as_each(m, n, c, k - 1, x);
    }
}

/// Where nothing is sorted, what reads as `n` is `n` itself.
pub(crate) proof fn lemma_reads_as_unsorted(m: NodeV, n: NodeV, c: ConfigV)
    requires
        reads_as(m, n, c),
        !c.sort_properties,
        !c.sort_nodes,
    ensures
        m == n,
    decreases n,
{
    lemma_identity_order_range(n.properties.len() as int);
    lemma_identity_order_range(n.children.len() as int);
    assert(m.properties =~= n.properties);
    assert forall|x: int| 0 <= x < n.children.len() implies #[trigger] m.children[x]
        == n.children[x] by {
        lemma_children_read_as_each(m, n, c, n.children.len() as int, x);
        lemma_reads_as_unsorted(m.children[x], n.children[x], c);
    }
    assert(m.children =~= n.children);
}

/// With neither properties nor nodes sorted, a readable node written as a
/// child reads back as exactly that node.
pub proof fn law_node_round_trip_unsorted(t: Seq<char>, i: int, n: NodeV, depth: nat, c: ConfigV)
    requires
        readable_node(n),
        all_blank(c.indent),
        !c.sort_properties,
        !c.sort_nodes,
        0 <= i,
        i + child_text(n, depth, c).len() <= t.len(),
        t.subrange(i, i + child_text(n, depth, c).len()) == child_text(n, depth, c),
    ensures
        child_node(t, i) == Outcome::Done(n, i + child_text(n, depth, c).len()),
{
    let m = lemma_child_read(t, i, n, depth, c);
    lemma_reads_as_unsorted(m, n, c);
}

} // verus!

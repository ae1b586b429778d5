//! A whole tree written by the writer reads back as the tree it wrote.
use vstd::prelude::*;
use crate::grammar::{
    find_comment_end, ws, at, span, in_class, Class, starts, find_char, lemma_find_char, delimited_string, memreserve,
    root_node, reference_node, top_item, file_items, apply_top, file, labels, label_def, reference,
    TopV, Outcome, integer, hex_integer, has_hex_digit, body,
};
use crate::model::{
    IncludeKind, IncludeV, MemoryReservation, TreeV, NodeV, RefNodeV, DtsVersion, ref_text,
    empty_tree_v,
};
use crate::serializer::{
    comment_text, lines_from, strip_cr, include_line, includes_text, memreserve_text,
    ref_nodes_text, tree_text, ConfigV, OutputFormat, node_text, labels_text,
};
use crate::node_round_trip::{
    all_blank, lemma_sub_split, lemma_sub_at, lemma_ws_run, lemma_ws_stop, readable_body, reads_as,
    lemma_node_body_read, lemma_labels_read_at, lemma_labels_text_first, lemma_orders_range,
    lemma_children_read_as, lemma_reads_as_unsorted,
};
use crate::parser::{dts_result, dts_reportable};
use crate::error::{has_trailing, trim_start, trim_end};
use crate::round_trip::{
    lemma_find_char_over, lemma_span_over, lemma_hex_str_chars, lemma_hex_str_value, lemma_ref_read,
    readable_label, readable_ref,
};
use crate::text::{is_multispace, hex_str, is_hex};

verus! {

/// One top-level item read at `b` moves the file reader on past it.
proof fn lemma_file_step(t: Seq<char>, b: int, acc: TreeV, it: TopV, k: int)
    requires
        0 <= b < k <= t.len(),
        top_item(t, ws(t, b)) == Outcome::Done(it, k),
    ensures
        file_items(t, b, acc) == file_items(t, k, apply_top(acc, it)),
{
}

/// Where skipping whitespace reaches the end, nothing more is read.
proof fn lemma_file_end(t: Seq<char>, b: int, acc: TreeV)
    requires
        same_stop(t, b, t.len() as int),
    ensures
        file_items(t, b, acc) == Outcome::Done(acc, b),
        ws(t, b) == t.len(),
{
    let e = t.len() as int;
    assert(label_def(t, e) is None);
    assert(labels(t, e, Seq::empty()) == (Seq::<Seq<char>>::empty(), e));
    assert(root_node(t, e) is Backtrack);
    assert(reference(t, e) is None);
    assert(top_item(t, e) is Backtrack);
}

/// Skipping whitespace from `b` stops where skipping it from `a` stops.
pub open spec fn same_stop(t: Seq<char>, b: int, a: int) -> bool {
    0 <= b <= t.len() && 0 <= a <= t.len() && ws(t, b) == ws(t, a)
}

/// Skipping whitespace twice stops where skipping it once does.
proof fn lemma_ws_idem(t: Seq<char>, i: int)
    requires
        0 <= i <= t.len(),
    ensures
        ws(t, ws(t, i)) == ws(t, i),
    decreases t.len() - i,
{
    if i < t.len() {
        if is_multispace(t[i]) {
            lemma_ws_idem(t, i + 1);
        } else if at(t, i, '/') && at(t, i + 1, '/') {
            crate::grammar::lemma_span(t, i + 2, Class::NotLineEnd);
            lemma_ws_idem(t, span(t, i + 2, Class::NotLineEnd));
        } else if at(t, i, '/') && at(t, i + 1, '*') {
            crate::grammar::lemma_find_comment_end(t, i + 2);
            if let Some(k) = crate::grammar::find_comment_end(t, i + 2) {
                lemma_ws_idem(t, k + 2);
            }
        }
    }
}

/// Blanks from `b` up to `a`: whether the text between is blank.
pub open spec fn blank_between(t: Seq<char>, b: int, a: int) -> bool {
    0 <= b <= a <= t.len() && forall|x: int| b <= x < a ==> is_multispace(#[trigger] t[x])
}

/// A text without line feeds.
pub open spec fn no_newline(x: Seq<char>) -> bool {
    forall|j: int| 0 <= j < x.len() ==> #[trigger] x[j] != '\n'
}

/// The lines of a text have no line feeds.
proof fn lemma_lines_clean(s: Seq<char>, i: int)
    ensures
        forall|k: int| 0 <= k < lines_from(s, i).len() ==> no_newline(#[trigger] lines_from(s, i)[k]),
    decreases s.len() - i,
{
    if 0 <= i < s.len() {
        lemma_find_char(s, i, '\n');
        match find_char(s, i, '\n') {
            Some(k) => {
                lemma_lines_clean(s, k + 1);
                let x = s.subrange(i, k);
                assert forall|j: int| 0 <= j < x.len() implies #[trigger] x[j] != '\n' by {
                    lemma_find_char_first(s, i, '\n', i + j);
                }
                let l = strip_cr(x);
                assert(no_newline(l));
                let r = lines_from(s, i);
                assert forall|m: int| 0 <= m < r.len() implies no_newline(#[trigger] r[m]) by {
                    if m > 0 {
                        assert(r[m] == lines_from(s, k + 1)[m - 1]);
                    }
                }
            },
            None => {
                let x = s.subrange(i, s.len() as int);
                assert forall|j: int| 0 <= j < x.len() implies #[trigger] x[j] != '\n' by {
                    lemma_find_char_first(s, i, '\n', i + j);
                }
            },
        }
    }
}

/// Whether the reader skips what follows the first line-end character of
/// a header line written as a comment: from there to the line feed that
/// ends the line, only whitespace and comments stand.
pub open spec fn header_line_ok(l: Seq<char>) -> bool {
    let y = l.subrange(span(l, 0, Class::NotLineEnd), l.len() as int) + seq!['\n'];
    ws(y, 0) == y.len()
}

/// Finding the end of a block comment inside a text standing in `t` finds
/// the same place in `t`.
proof fn lemma_comment_end_local(t: Seq<char>, a: int, y: Seq<char>, j: int)
    requires
        0 <= a,
        a + y.len() <= t.len(),
        t.subrange(a, a + y.len()) == y,
        0 <= j,
        find_comment_end(y, j) is Some,
    ensures
        find_comment_end(t, a + j) == Some(a + find_comment_end(y, j)->0),
    decreases y.len() - j,
{
    lemma_sub_at(t, a, y, j);
    lemma_sub_at(t, a, y, j + 1);
    if !(y[j] == '*' && y[j + 1] == '/') {
        lemma_comment_end_local(t, a, y, j + 1);
    }
}

/// Whitespace that a text ending in a line feed skips from `j` to its end
/// is skipped the same way where the text stands in `t`.
proof fn lemma_ws_local(t: Seq<char>, a: int, y: Seq<char>, j: int)
    requires
        0 <= a,
        a + y.len() <= t.len(),
        t.subrange(a, a + y.len()) == y,
        y.len() > 0,
        y[y.len() - 1] == '\n',
        0 <= j <= y.len(),
        ws(y, j) == y.len(),
    ensures
        ws(t, a + j) == ws(t, a + y.len()),
    decreases y.len() - j,
{
    if j < y.len() {
        lemma_sub_at(t, a, y, j);
        if is_multispace(y[j]) {
            lemma_ws_local(t, a, y, j + 1);
        } else if at(y, j, '/') && at(y, j + 1, '/') {
            lemma_sub_at(t, a, y, j + 1);
            crate::grammar::lemma_span(y, j + 2, Class::NotLineEnd);
            let p = span(y, j + 2, Class::NotLineEnd);
            assert(p < y.len()) by {
                if p == y.len() {
                    assert(in_class(Class::NotLineEnd, y[y.len() - 1]));
                }
            }
            assert forall|x: int| a + j + 2 <= x < a + p implies in_class(
                Class::NotLineEnd,
                #[trigger] t[x],
            ) by {
                lemma_sub_at(t, a, y, x - a);
            }
            lemma_sub_at(t, a, y, p);
            lemma_span_over(t, a + j + 2, a + p, Class::NotLineEnd);
            lemma_ws_local(t, a, y, p);
        } else if at(y, j, '/') && at(y, j + 1, '*') {
            lemma_sub_at(t, a, y, j + 1);
            crate::grammar::lemma_find_comment_end(y, j + 2);
            lemma_comment_end_local(t, a, y, j + 2);
            let k = find_comment_end(y, j + 2)->0;
            lemma_ws_local(t, a, y, k + 2);
        }
    }
}

/// No `c` comes between `i` and the first `c` found from `i`.
proof fn lemma_find_char_first(s: Seq<char>, i: int, c: char, j: int)
    requires
        0 <= i <= j < s.len(),
        find_char(s, i, c) matches Some(k) ==> j < k,
    ensures
        s[j] != c,
    decreases j - i,
{
    if i < j {
        lemma_find_char_first(s, i + 1, c, j);
    }
}

/// Comment lines written at `a` are skipped as whitespace.
proof fn lemma_comment_skip(t: Seq<char>, a: int, ls: Seq<Seq<char>>)
    requires
        forall|k: int| 0 <= k < ls.len() ==> no_newline(#[trigger] ls[k]),
        forall|k: int| 0 <= k < ls.len() ==> header_line_ok(#[trigger] ls[k]),
        0 <= a,
        a + comment_text(ls).len() <= t.len(),
        t.subrange(a, a + comment_text(ls).len()) == comment_text(ls),
    ensures
        ws(t, a) == ws(t, a + comment_text(ls).len()),
    decreases ls.len(),
{
    reveal_strlit("// ");
    if ls.len() > 0 {
        let l = ls[0];
        let first = "// "@ + l + seq!['\n'];
        let rest = comment_text(ls.drop_first());
        assert(comment_text(ls) == first + rest);
        lemma_sub_split(t, a, first, rest);
        assert(no_newline(l));
        assert(header_line_ok(l));
        assert forall|y: int| 0 <= y < first.len() implies #[trigger] t[a + y] == first[y] by {
            lemma_sub_at(t, a, first, y);
        }
        assert("// "@ =~= seq!['/', '/', ' ']);
        lemma_sub_at(t, a, first, 0);
        lemma_sub_at(t, a, first, 1);
        assert(t[a] == '/' && t[a + 1] == '/');
        crate::grammar::lemma_span(l, 0, Class::NotLineEnd);
        let p = span(l, 0, Class::NotLineEnd);
        let e = a + 3 + p;
        assert forall|y: int| a + 2 <= y < e implies in_class(Class::NotLineEnd, #[trigger] t[y]) by {
            assert(t[a + (y - a)] == first[y - a]);
        }
        assert(t[a + (3 + p)] == first[3 + p]);
        lemma_span_over(t, a + 2, e, Class::NotLineEnd);
        assert(ws(t, a) == ws(t, e));
        let w = l.subrange(p, l.len() as int) + seq!['\n'];
        assert(t.subrange(e, e + w.len()) =~= w) by {
            assert forall|x: int| 0 <= x < w.len() implies t.subrange(e, e + w.len())[x] == w[x] by {
                assert(t[a + (3 + p + x)] == first[3 + p + x]);
            }
        }
        lemma_ws_local(t, e, w, 0);
        assert(e + w.len() == a + first.len());
        lemma_comment_skip(t, a + first.len(), ls.drop_first());
    }
}

/// `/dts-v1/;` on its line is read as the version.
proof fn lemma_version_item(t: Seq<char>, b: int, a: int)
    requires
        same_stop(t, b, a),
        a + 10 <= t.len(),
        t.subrange(a, a + 10) == "/dts-v1/;\n"@,
    ensures
        ws(t, b) == a,
        top_item(t, ws(t, b)) == Outcome::Done(TopV::Version, a + 9),
        t[a + 9] == '\n',
{
    reveal_strlit("/dts-v1/;\n");
    reveal_strlit("/dts-v1/");
    let w = "/dts-v1/;\n"@;
    assert(w =~= seq!['/', 'd', 't', 's', '-', 'v', '1', '/', ';', '\n']);
    assert forall|y: int| 0 <= y < 10 implies #[trigger] t[a + y] == w[y] by {
        lemma_sub_at(t, a, w, y);
    }
    lemma_sub_at(t, a, w, 0);
    lemma_sub_at(t, a, w, 1);
    lemma_sub_at(t, a, w, 8);
    lemma_sub_at(t, a, w, 9);
    lemma_ws_stop(t, a);
    assert(t.subrange(a, a + 8) =~= "/dts-v1/"@) by {
        assert forall|y: int| 0 <= y < 8 implies t.subrange(a, a + 8)[y] == "/dts-v1/"@[y] by {
            lemma_sub_at(t, a, w, y);
        }
    }
    lemma_ws_stop(t, a + 8);
}

/// `/plugin/;` on its line is read as the plugin marker.
proof fn lemma_plugin_item(t: Seq<char>, b: int, a: int)
    requires
        same_stop(t, b, a),
        a + 10 <= t.len(),
        t.subrange(a, a + 10) == "/plugin/;\n"@,
    ensures
        ws(t, b) == a,
        top_item(t, ws(t, b)) == Outcome::Done(TopV::Plugin, a + 9),
        t[a + 9] == '\n',
{
    reveal_strlit("/plugin/;\n");
    reveal_strlit("/plugin/");
    reveal_strlit("/dts-v1/");
    let w = "/plugin/;\n"@;
    assert(w =~= seq!['/', 'p', 'l', 'u', 'g', 'i', 'n', '/', ';', '\n']);
    lemma_sub_at(t, a, w, 0);
    lemma_sub_at(t, a, w, 1);
    lemma_sub_at(t, a, w, 8);
    lemma_sub_at(t, a, w, 9);
    lemma_ws_stop(t, a);
    assert(!starts(t, a, "/dts-v1/"@)) by {
        if starts(t, a, "/dts-v1/"@) {
            assert(t.subrange(a, a + 8)[1] == "/dts-v1/"@[1]);
        }
    }
    assert(t.subrange(a, a + 8) =~= "/plugin/"@) by {
        assert forall|y: int| 0 <= y < 8 implies t.subrange(a, a + 8)[y] == "/plugin/"@[y] by {
            lemma_sub_at(t, a, w, y);
        }
    }
    lemma_ws_stop(t, a + 8);
}

/// A path the reader reads whole between quotes.
pub open spec fn readable_path(p: Seq<char>) -> bool {
    forall|j: int| 0 <= j < p.len() ==> #[trigger] p[j] != '"'
}

/// An include on its line is read as that include.
#[verifier::spinoff_prover]
#[verifier::rlimit(30)]
proof fn lemma_include_item(t: Seq<char>, b: int, a: int, inc: IncludeV)
    requires
        readable_path(inc.path),
        same_stop(t, b, a),
        a + include_line(inc).len() <= t.len(),
        t.subrange(a, a + include_line(inc).len()) == include_line(inc),
    ensures
        include_line(inc).len() > 1,
        ws(t, b) == a,
        top_item(t, ws(t, b)) == Outcome::Done(TopV::Include(inc), a + include_line(inc).len() - 1),
        t[a + include_line(inc).len() - 1] == '\n',
{
    reveal_strlit("#include \"");
    reveal_strlit("/include/ \"");
    reveal_strlit("\"\n");
    reveal_strlit("include");
    reveal_strlit("/include/");
    reveal_strlit("/dts-v1/");
    reveal_strlit("/plugin/");
    let w = include_line(inc);
    let p = inc.path;
    match inc.kind {
        IncludeKind::CPreprocessor => {
            let h = "#include \""@;
            assert(h =~= seq!['#', 'i', 'n', 'c', 'l', 'u', 'd', 'e', ' ', '"']);
            assert("\"\n"@ =~= seq!['"', '\n']);
            assert(w =~= h + p + "\"\n"@);
            let q = a + 10 + p.len();
            assert forall|y: int| 0 <= y < 10 implies #[trigger] t[a + y] == h[y] by {
                lemma_sub_at(t, a, w, y);
            }
            assert forall|y: int| 0 <= y < p.len() implies #[trigger] t[a + 10 + y] == p[y] by {
                lemma_sub_at(t, a, w, 10 + y);
            }
            lemma_sub_at(t, a, w, 10int + p.len());
            lemma_sub_at(t, a, w, 11int + p.len());
            assert(t[a + 0] == h[0]);
            assert(t[a + 8] == h[8]);
            assert(t[a + 9] == h[9]);
            lemma_ws_stop(t, a);
            assert(!starts(t, a, "/dts-v1/"@)) by {
                if starts(t, a, "/dts-v1/"@) {
                    assert(t.subrange(a, a + 8)[0] == "/dts-v1/"@[0]);
                }
            }
            assert(!starts(t, a, "/plugin/"@)) by {
                if starts(t, a, "/plugin/"@) {
                    assert(t.subrange(a, a + 8)[0] == "/plugin/"@[0]);
                }
            }
            assert forall|y: int| a + 10 <= y < q implies #[trigger] t[y] != '"' by {
                assert(t[a + 10 + (y - a - 10)] == p[y - a - 10]);
            }
            lemma_find_char_over(t, a + 10, q, '"');
            assert(t.subrange(a + 1, a + 8) =~= "include"@) by {
                assert forall|y: int| 0 <= y < 7 implies t.subrange(a + 1, a + 8)[y] == "include"@[y] by {
                    assert(t[a + (1 + y)] == h[1 + y]);
                }
            }
            assert(span(t, a + 1, Class::Blank) == a + 1);
            assert(span(t, a + 9, Class::Blank) == a + 9);
            assert(span(t, a + 8, Class::Blank) == a + 9);
            assert(t.subrange(a + 10, q) =~= p) by {
                assert forall|y: int| 0 <= y < p.len() implies t.subrange(a + 10, q)[y] == p[y] by {
                    assert(t[a + 10 + y] == p[y]);
                }
            }
            assert(delimited_string(t, a + 9) == Some((p, q + 1)));
        },
        IncludeKind::DtsInclude => {
            let h = "/include/ \""@;
            assert(h =~= seq!['/', 'i', 'n', 'c', 'l', 'u', 'd', 'e', '/', ' ', '"']);
            assert("\"\n"@ =~= seq!['"', '\n']);
            assert(w =~= h + p + "\"\n"@);
            let q = a + 11 + p.len();
            assert forall|y: int| 0 <= y < 11 implies #[trigger] t[a + y] == h[y] by {
                lemma_sub_at(t, a, w, y);
            }
            assert forall|y: int| 0 <= y < p.len() implies #[trigger] t[a + 11 + y] == p[y] by {
                lemma_sub_at(t, a, w, 11 + y);
            }
            lemma_sub_at(t, a, w, 11int + p.len());
            lemma_sub_at(t, a, w, 12int + p.len());
            assert(t[a + 0] == h[0]);
            assert(t[a + 1] == h[1]);
            assert(t[a + 9] == h[9]);
            assert(t[a + 10] == h[10]);
            lemma_ws_stop(t, a);
            assert(!starts(t, a, "/dts-v1/"@)) by {
                if starts(t, a, "/dts-v1/"@) {
                    assert(t.subrange(a, a + 8)[1] == "/dts-v1/"@[1]);
                }
            }
            assert(!starts(t, a, "/plugin/"@)) by {
                if starts(t, a, "/plugin/"@) {
                    assert(t.subrange(a, a + 8)[1] == "/plugin/"@[1]);
                }
            }
            assert forall|y: int| a + 11 <= y < q implies #[trigger] t[y] != '"' by {
                assert(t[a + 11 + (y - a - 11)] == p[y - a - 11]);
            }
            lemma_find_char_over(t, a + 11, q, '"');
            assert(t.subrange(a, a + 9) =~= "/include/"@) by {
                assert forall|y: int| 0 <= y < 9 implies t.subrange(a, a + 9)[y] == "/include/"@[y] by {
                    assert(t[a + y] == h[y]);
                }
            }
            lemma_ws_stop(t, a + 10);
            assert(ws(t, a + 9) == a + 10);
            assert(t.subrange(a + 11, q) =~= p) by {
                assert forall|y: int| 0 <= y < p.len() implies t.subrange(a + 11, q)[y] == p[y] by {
                    assert(t[a + 11 + y] == p[y]);
                }
            }
            assert(delimited_string(t, a + 10) == Some((p, q + 1)));
        },
    }
}

/// `0x` and the hexadecimal digits of `n`, followed by no further digit,
/// are read as `n`.
proof fn lemma_hex_int_read(t: Seq<char>, k: int, n: u64)
    requires
        0 <= k,
        k + 2 + hex_str(n as nat).len() < t.len(),
        t[k] == '0',
        t[k + 1] == 'x',
        t.subrange(k + 2, k + 2 + hex_str(n as nat).len()) == hex_str(n as nat),
        !in_class(Class::HexOrUnderscore, t[k + 2 + hex_str(n as nat).len()]),
    ensures
        integer(t, k) == Some((n, k + 2 + hex_str(n as nat).len())),
{
    let h = hex_str(n as nat);
    let j = k + 2 + h.len();
    lemma_hex_str_chars(n as nat);
    assert forall|y: int| k + 2 <= y < j implies in_class(Class::HexOrUnderscore, #[trigger] t[y]) by {
        lemma_sub_at(t, k + 2, h, y - k - 2);
    }
    lemma_span_over(t, k + 2, j, Class::HexOrUnderscore);
    lemma_sub_at(t, k + 2, h, 0);
    assert(is_hex(t[k + 2]));
    assert(has_hex_digit(t, k + 2, j));
    lemma_hex_str_value(t, k + 2, n as nat);
    assert(hex_integer(t, k) == Some((n, j)));
}

/// The line a memory reservation is written on.
pub open spec fn memreserve_line(m: MemoryReservation) -> Seq<char> {
    "/memreserve/ 0x"@ + hex_str(m.address as nat) + " 0x"@ + hex_str(m.size as nat) + ";\n"@
}

/// A memory reservation on its line is read as that reservation.
#[verifier::spinoff_prover]
#[verifier::rlimit(30)]
proof fn lemma_memreserve_item(t: Seq<char>, b: int, a: int, m: MemoryReservation)
    requires
        same_stop(t, b, a),
        a + memreserve_line(m).len() <= t.len(),
        t.subrange(a, a + memreserve_line(m).len()) == memreserve_line(m),
    ensures
        ws(t, b) == a,
        top_item(t, ws(t, b)) == Outcome::Done(TopV::MemReserve(m), a + memreserve_line(m).len() - 1),
        t[a + memreserve_line(m).len() - 1] == '\n',
{
    reveal_strlit("/memreserve/ 0x");
    reveal_strlit(" 0x");
    reveal_strlit(";\n");
    reveal_strlit("/memreserve/");
    reveal_strlit("/dts-v1/");
    reveal_strlit("/plugin/");
    reveal_strlit("/include/");
    let h1 = "/memreserve/ 0x"@;
    let h2 = " 0x"@;
    let x = hex_str(m.address as nat);
    let y = hex_str(m.size as nat);
    lemma_hex_str_chars(m.address as nat);
    lemma_hex_str_chars(m.size as nat);
    assert(h1 =~= seq!['/', 'm', 'e', 'm', 'r', 'e', 's', 'e', 'r', 'v', 'e', '/', ' ', '0', 'x']);
    assert(h2 =~= seq![' ', '0', 'x']);
    assert(";\n"@ =~= seq![';', '\n']);
    let w = memreserve_line(m);
    lemma_sub_split(t, a, h1 + x + h2 + y, ";\n"@);
    lemma_sub_split(t, a, h1 + x + h2, y);
    lemma_sub_split(t, a, h1 + x, h2);
    lemma_sub_split(t, a, h1, x);
    let k1 = a + 13;
    let e1 = a + 15 + x.len();
    let k2 = e1 + 1;
    let e2 = k2 + 2 + y.len();
    assert forall|z: int| 0 <= z < 15 implies #[trigger] t[a + z] == h1[z] by {
        lemma_sub_at(t, a, h1, z);
    }
    assert forall|z: int| 0 <= z < 3 implies #[trigger] t[e1 + z] == h2[z] by {
        lemma_sub_at(t, e1, h2, z);
    }
    lemma_sub_at(t, e2, ";\n"@, 0);
    lemma_sub_at(t, e2, ";\n"@, 1);
    assert(t[a + 0] == h1[0]);
    assert(t[a + 1] == h1[1]);
    assert(t[a + 12] == h1[12]);
    assert(t[a + 13] == h1[13]);
    assert(t[a + 14] == h1[14]);
    assert(t[e1 + 0] == h2[0]);
    assert(t[e1 + 1] == h2[1]);
    assert(t[e1 + 2] == h2[2]);
    lemma_ws_stop(t, a);
    assert(!starts(t, a, "/dts-v1/"@)) by {
        if starts(t, a, "/dts-v1/"@) {
            assert(t.subrange(a, a + 8)[1] == "/dts-v1/"@[1]);
        }
    }
    assert(!starts(t, a, "/plugin/"@)) by {
        if starts(t, a, "/plugin/"@) {
            assert(t.subrange(a, a + 8)[1] == "/plugin/"@[1]);
        }
    }
    assert(!starts(t, a, "/include/"@)) by {
        if starts(t, a, "/include/"@) {
            assert(t.subrange(a, a + 9)[1] == "/include/"@[1]);
        }
    }
    assert(t.subrange(a, a + 12) =~= "/memreserve/"@) by {
        assert forall|z: int| 0 <= z < 12 implies t.subrange(a, a + 12)[z] == "/memreserve/"@[z] by {
            assert(t[a + z] == h1[z]);
        }
    }
    lemma_ws_stop(t, k1);
    assert(ws(t, a + 12) == k1);
    lemma_hex_int_read(t, k1, m.address);
    lemma_ws_stop(t, k2);
    assert(ws(t, e1) == k2);
    lemma_hex_int_read(t, k2, m.size);
    lemma_ws_stop(t, e2);
}

/// The text of the root node: its labels, `/ `, its body and `;`, and a
/// line feed.
pub open spec fn root_text(r: NodeV, c: ConfigV) -> Seq<char> {
    labels_text(r.labels) + seq!['/', ' '] + node_text(r, 0, c) + seq![';', '\n']
}

/// A node with neither name nor unit address: what the reader makes of the
/// root, whose name is not written.
pub open spec fn unnamed(n: NodeV) -> NodeV {
    NodeV { name: Seq::empty(), unit_address: None, ..n }
}

/// The written root is read as the root, related by `reads_as` to the
/// root without its name.
#[verifier::spinoff_prover]
#[verifier::rlimit(40)]
proof fn lemma_root_item(t: Seq<char>, b: int, a: int, r: NodeV, c: ConfigV) -> (m: NodeV)
    requires
        forall|j: int| 0 <= j < r.labels.len() ==> readable_label(#[trigger] r.labels[j]),
        readable_body(r),
        all_blank(c.indent),
        same_stop(t, b, a),
        a + root_text(r, c).len() <= t.len(),
        t.subrange(a, a + root_text(r, c).len()) == root_text(r, c),
    ensures
        ws(t, b) == a,
        top_item(t, ws(t, b)) == Outcome::Done(TopV::Root(m), a + root_text(r, c).len() - 1),
        t[a + root_text(r, c).len() - 1] == '\n',
        reads_as(m, unnamed(r), c),
{
    reveal_strlit("/dts-v1/");
    reveal_strlit("/plugin/");
    reveal_strlit("/include/");
    reveal_strlit("/memreserve/");
    let lt = labels_text(r.labels);
    let nt = node_text(r, 0, c);
    lemma_sub_split(t, a, lt + seq!['/', ' '] + nt, seq![';', '\n']);
    lemma_sub_split(t, a, lt + seq!['/', ' '], nt);
    lemma_sub_split(t, a, lt, seq!['/', ' ']);
    let e = a + lt.len();
    let q = e + 2;
    lemma_sub_at(t, e, seq!['/', ' '], 0);
    lemma_sub_at(t, e, seq!['/', ' '], 1);
    lemma_sub_at(t, q + nt.len(), seq![';', '\n'], 0);
    lemma_sub_at(t, q + nt.len(), seq![';', '\n'], 1);
    assert(nt[0] == '{');
    lemma_sub_at(t, q, nt, 0);
    if r.labels.len() > 0 {
        lemma_labels_text_first(r.labels);
        lemma_sub_at(t, a, lt, 0);
        assert(readable_label(r.labels[0]));
    }
    lemma_ws_stop(t, a);
    assert(t[a] == '/' ==> t[a + 1] == ' ') by {
        if r.labels.len() > 0 {
            assert(t[a] != '/');
        }
    }
    assert(!starts(t, a, "/dts-v1/"@)) by {
        if starts(t, a, "/dts-v1/"@) {
            assert(t.subrange(a, a + 8)[0] == "/dts-v1/"@[0]);
            assert(t.subrange(a, a + 8)[1] == "/dts-v1/"@[1]);
        }
    }
    assert(!starts(t, a, "/plugin/"@)) by {
        if starts(t, a, "/plugin/"@) {
            assert(t.subrange(a, a + 8)[0] == "/plugin/"@[0]);
            assert(t.subrange(a, a + 8)[1] == "/plugin/"@[1]);
        }
    }
    assert(!starts(t, a, "/include/"@)) by {
        if starts(t, a, "/include/"@) {
            assert(t.subrange(a, a + 9)[0] == "/include/"@[0]);
            assert(t.subrange(a, a + 9)[1] == "/include/"@[1]);
        }
    }
    assert(!starts(t, a, "/memreserve/"@)) by {
        if starts(t, a, "/memreserve/"@) {
            assert(t.subrange(a, a + 12)[0] == "/memreserve/"@[0]);
            assert(t.subrange(a, a + 12)[1] == "/memreserve/"@[1]);
        }
    }
    assert(label_def(t, e) is None);
    lemma_labels_read_at(t, a, r.labels, 0);
    assert(r.labels.take(0) =~= Seq::<Seq<char>>::empty());
    lemma_ws_stop(t, q);
    assert(ws(t, e + 1) == q);
    let mb = lemma_node_body_read(t, q, r, 0, c);
    let m = NodeV { name: Seq::empty(), labels: r.labels, ..mb };
    lemma_orders_range(r, c);
    lemma_children_read_as(m, unnamed(r), c, r.children.len() as int);
    assert(root_node(t, a) == Outcome::Done(m, q + nt.len() + 1));
    m
}

/// The text of a node override: a line feed, the reference, the body and
/// `;`, and a line feed.
pub open spec fn ref_node_text(rn: RefNodeV, c: ConfigV) -> Seq<char> {
    ref_text(rn.reference) + seq![' '] + node_text(rn.node, 0, c) + seq![';', '\n']
}

/// A written node override is read as an override of the same reference,
/// whose node is related by `reads_as` to the written one without name,
/// unit address or labels.
#[verifier::spinoff_prover]
#[verifier::rlimit(40)]
proof fn lemma_ref_node_item(t: Seq<char>, b: int, a: int, rn: RefNodeV, c: ConfigV) -> (m: NodeV)
    requires
        readable_ref(rn.reference),
        readable_body(rn.node),
        all_blank(c.indent),
        same_stop(t, b, a),
        a + ref_node_text(rn, c).len() <= t.len(),
        t.subrange(a, a + ref_node_text(rn, c).len()) == ref_node_text(rn, c),
    ensures
        ws(t, b) == a,
        top_item(t, ws(t, b)) == Outcome::Done(
            TopV::RefNode(RefNodeV { reference: rn.reference, node: m }),
            a + ref_node_text(rn, c).len() - 1,
        ),
        t[a + ref_node_text(rn, c).len() - 1] == '\n',
        reads_as(m, NodeV { labels: Seq::empty(), ..unnamed(rn.node) }, c),
{
    reveal_strlit("/dts-v1/");
    reveal_strlit("/plugin/");
    reveal_strlit("/include/");
    reveal_strlit("/memreserve/");
    let rt = ref_text(rn.reference);
    let n = rn.node;
    let nt = node_text(n, 0, c);
    lemma_sub_split(t, a, rt + seq![' '] + nt, seq![';', '\n']);
    lemma_sub_split(t, a, rt + seq![' '], nt);
    lemma_sub_split(t, a, rt, seq![' ']);
    let j = a + rt.len();
    let q = j + 1;
    lemma_sub_at(t, j, seq![' '], 0);
    lemma_sub_at(t, q + nt.len(), seq![';', '\n'], 0);
    lemma_sub_at(t, q + nt.len(), seq![';', '\n'], 1);
    assert(nt[0] == '{');
    lemma_sub_at(t, q, nt, 0);
    lemma_ref_read(t, a, rn.reference);
    lemma_ws_stop(t, a);
    assert(!starts(t, a, "/dts-v1/"@)) by {
        if starts(t, a, "/dts-v1/"@) {
            assert(t.subrange(a, a + 8)[0] == "/dts-v1/"@[0]);
        }
    }
    assert(!starts(t, a, "/plugin/"@)) by {
        if starts(t, a, "/plugin/"@) {
            assert(t.subrange(a, a + 8)[0] == "/plugin/"@[0]);
        }
    }
    assert(!starts(t, a, "/include/"@)) by {
        if starts(t, a, "/include/"@) {
            assert(t.subrange(a, a + 9)[0] == "/include/"@[0]);
        }
    }
    assert(!starts(t, a, "/memreserve/"@)) by {
        if starts(t, a, "/memreserve/"@) {
            assert(t.subrange(a, a + 12)[0] == "/memreserve/"@[0]);
        }
    }
    assert(label_def(t, a) is None);
    assert(labels(t, a, Seq::empty()) == (Seq::<Seq<char>>::empty(), a));
    assert(root_node(t, a) is Backtrack);
    lemma_ws_stop(t, q);
    assert(ws(t, j) == q);
    let mb = lemma_node_body_read(t, q, n, 0, c);
    let target = NodeV { labels: Seq::empty(), ..unnamed(n) };
    lemma_orders_range(n, c);
    lemma_children_read_as(mb, target, c, n.children.len() as int);
    assert(reference_node(t, a) == Outcome::Done(
        RefNodeV { reference: rn.reference, node: mb },
        q + nt.len() + 1,
    ));
    mb
}

/// Whitespace from `b` stops where it stops from `a`, and blanks follow
/// `a` up to `a2`: it stops where it stops from `a2`.
proof fn lemma_stop_extend(t: Seq<char>, b: int, a: int, a2: int)
    requires
        same_stop(t, b, a),
        blank_between(t, a, a2),
    ensures
        same_stop(t, b, a2),
{
    lemma_ws_run(t, a, a2);
}

/// Include lines are read as those includes, in order.
proof fn lemma_includes_read(t: Seq<char>, b: int, a: int, incs: Seq<IncludeV>, k: int, acc: TreeV) -> (b2: int)
    requires
        forall|x: int| 0 <= x < incs.len() ==> readable_path(#[trigger] incs[x].path),
        0 <= k <= incs.len(),
        same_stop(t, b, a),
        a + includes_text(incs, k).len() <= t.len(),
        t.subrange(a, a + includes_text(incs, k).len()) == includes_text(incs, k),
    ensures
        same_stop(t, b2, a + includes_text(incs, k).len()),
        file_items(t, b, acc) == file_items(
            t,
            b2,
            TreeV { includes: acc.includes + incs.take(k), ..acc },
        ),
    decreases k,
{
    if k == 0 {
        assert(acc.includes + incs.take(0) =~= acc.includes);
        b
    } else {
        let d0 = includes_text(incs, k - 1);
        let line = include_line(incs[k - 1]);
        lemma_sub_split(t, a, d0, line);
        let b1 = lemma_includes_read(t, b, a, incs, k - 1, acc);
        let a1 = a + d0.len();
        let acc1 = TreeV { includes: acc.includes + incs.take(k - 1), ..acc };
        lemma_include_item(t, b1, a1, incs[k - 1]);
        let e = a1 + line.len() - 1;
        crate::grammar::lemma_ws(t, b1);
        lemma_file_step(t, b1, acc1, TopV::Include(incs[k - 1]), e);
        assert(incs.take(k - 1).push(incs[k - 1]) =~= incs.take(k));
        assert(acc1.includes.push(incs[k - 1]) =~= acc.includes + incs.take(k));
        lemma_ws_run(t, e, e + 1);
        e
    }
}

/// Memory reservation lines are read as those reservations, in order.
proof fn lemma_memreserves_read(
    t: Seq<char>,
    b: int,
    a: int,
    ms: Seq<MemoryReservation>,
    k: int,
    acc: TreeV,
) -> (b2: int)
    requires
        0 <= k <= ms.len(),
        same_stop(t, b, a),
        a + memreserve_text(ms, k).len() <= t.len(),
        t.subrange(a, a + memreserve_text(ms, k).len()) == memreserve_text(ms, k),
    ensures
        same_stop(t, b2, a + memreserve_text(ms, k).len()),
        file_items(t, b, acc) == file_items(
            t,
            b2,
            TreeV { memory_reservations: acc.memory_reservations + ms.take(k), ..acc },
        ),
    decreases k,
{
    if k == 0 {
        assert(acc.memory_reservations + ms.take(0) =~= acc.memory_reservations);
        b
    } else {
        let d0 = memreserve_text(ms, k - 1);
        let line = memreserve_line(ms[k - 1]);
        assert(memreserve_text(ms, k) =~= d0 + line);
        lemma_sub_split(t, a, d0, line);
        let b1 = lemma_memreserves_read(t, b, a, ms, k - 1, acc);
        let a1 = a + d0.len();
        let acc1 = TreeV { memory_reservations: acc.memory_reservations + ms.take(k - 1), ..acc };
        lemma_memreserve_item(t, b1, a1, ms[k - 1]);
        let e = a1 + line.len() - 1;
        crate::grammar::lemma_ws(t, b1);
        lemma_file_step(t, b1, acc1, TopV::MemReserve(ms[k - 1]), e);
        assert(ms.take(k - 1).push(ms[k - 1]) =~= ms.take(k));
        assert(acc1.memory_reservations.push(ms[k - 1]) =~= acc.memory_reservations + ms.take(k));
        lemma_ws_run(t, e, e + 1);
        e
    }
}

/// An override read back: the same reference, and its node related by
/// `reads_as` to the written one without name, unit address or labels.
pub open spec fn ref_read_as(m: RefNodeV, rn: RefNodeV, c: ConfigV) -> bool {
    m.reference == rn.reference && reads_as(m.node, NodeV { labels: Seq::empty(), ..unnamed(rn.node) }, c)
}

/// Override blocks are read as those overrides, in order.
#[verifier::spinoff_prover]
#[verifier::rlimit(40)]
proof fn lemma_ref_nodes_read(
    t: Seq<char>,
    b: int,
    a: int,
    rs: Seq<RefNodeV>,
    c: ConfigV,
    k: int,
    acc: TreeV,
) -> (r: (int, Seq<RefNodeV>))
    requires
        forall|x: int|
            0 <= x < rs.len() ==> readable_ref(#[trigger] rs[x].reference) && readable_body(rs[x].node),
        all_blank(c.indent),
        0 <= k <= rs.len(),
        same_stop(t, b, a),
        a + ref_nodes_text(rs, k, c).len() <= t.len(),
        t.subrange(a, a + ref_nodes_text(rs, k, c).len()) == ref_nodes_text(rs, k, c),
    ensures
        same_stop(t, r.0, a + ref_nodes_text(rs, k, c).len()),
        r.1.len() == k,
        forall|x: int| 0 <= x < k ==> ref_read_as(#[trigger] r.1[x], rs[x], c),
        file_items(t, b, acc) == file_items(
            t,
            r.0,
            TreeV { reference_nodes: acc.reference_nodes + r.1, ..acc },
        ),
    decreases k,
{
    if k == 0 {
        assert(acc.reference_nodes + Seq::<RefNodeV>::empty() =~= acc.reference_nodes);
        (b, Seq::empty())
    } else {
        let d0 = ref_nodes_text(rs, k - 1, c);
        let body_text = ref_node_text(rs[k - 1], c);
        assert(ref_nodes_text(rs, k, c) =~= d0 + seq!['\n'] + body_text);
        lemma_sub_split(t, a, d0 + seq!['\n'], body_text);
        lemma_sub_split(t, a, d0, seq!['\n']);
        let (b1, r0) = lemma_ref_nodes_read(t, b, a, rs, c, k - 1, acc);
        let a1 = a + d0.len();
        lemma_sub_at(t, a1, seq!['\n'], 0);
        lemma_stop_extend(t, b1, a1, a1 + 1);
        let acc1 = TreeV { reference_nodes: acc.reference_nodes + r0, ..acc };
        let mnode = lemma_ref_node_item(t, b1, a1 + 1, rs[k - 1], c);
        let rn = RefNodeV { reference: rs[k - 1].reference, node: mnode };
        let e = a1 + 1 + body_text.len() - 1;
        crate::grammar::lemma_ws(t, b1);
        lemma_file_step(t, b1, acc1, TopV::RefNode(rn), e);
        let r1 = r0.push(rn);
        assert(acc1.reference_nodes.push(rn) =~= acc.reference_nodes + r1);
        lemma_ws_run(t, e, e + 1);
        assert forall|x: int| 0 <= x < k implies ref_read_as(#[trigger] r1[x], rs[x], c) by {
            if x < k - 1 {
                assert(r1[x] == r0[x]);
            }
        }
        (e, r1)
    }
}

/// A tree the writer writes under `c` in a form the reader gives back: an
/// indentation of blanks, a header whose lines the reader skips as comments
/// (see `header_line_ok`: what follows a carriage return inside a line must
/// be whitespace or comments, since a `//` comment ends there), include paths
/// without quotes, a root with readable labels and body, and overrides of
/// readable references with readable bodies.
pub open spec fn readable_tree(t: TreeV, c: ConfigV) -> bool {
    &&& all_blank(c.indent)
    &&& match c.header_comment {
        Some(h) => forall|k: int|
            0 <= k < lines_from(h, 0).len() ==> header_line_ok(#[trigger] lines_from(h, 0)[k]),
        None => true,
    }
    &&& forall|k: int| 0 <= k < t.includes.len() ==> readable_path(#[trigger] t.includes[k].path)
    &&& match t.root {
        Some(r) => (forall|j: int| 0 <= j < r.labels.len() ==> readable_label(#[trigger] r.labels[j]))
            && readable_body(r),
        None => true,
    }
    &&& forall|k: int|
        0 <= k < t.reference_nodes.len() ==> readable_ref(#[trigger] t.reference_nodes[k].reference)
            && readable_body(t.reference_nodes[k].node)
}

/// `m` is what reading the text written for `t` under `c` gives: the
/// version where it was written, the plugin marker where it was written,
/// the same includes and memory reservations, the root read back without
/// its name, and each override read back.
pub open spec fn tree_reads_as(m: TreeV, t: TreeV, c: ConfigV) -> bool {
    &&& m.version == (if c.include_version && t.version == Some(DtsVersion::V1) {
        Some(DtsVersion::V1)
    } else {
        None
    })
    &&& m.is_plugin == (c.output_format == OutputFormat::Overlay || t.is_plugin)
    &&& m.includes == t.includes
    &&& m.memory_reservations == t.memory_reservations
    &&& match t.root {
        Some(r) => m.root matches Some(x) && reads_as(x, unnamed(r), c),
        None => m.root is None,
    }
    &&& m.reference_nodes.len() == t.reference_nodes.len()
    &&& forall|k: int|
        0 <= k < t.reference_nodes.len() ==> ref_read_as(
            #[trigger] m.reference_nodes[k],
            t.reference_nodes[k],
            c,
        )
}

/// The header written before the tree is skipped as whitespace.
proof fn lemma_header_skip(t: Seq<char>, h: Option<Seq<char>>)
    requires
        match h {
            Some(x) => forall|k: int|
                0 <= k < lines_from(x, 0).len() ==> header_line_ok(#[trigger] lines_from(x, 0)[k]),
            None => true,
        },
        header_text(h).len() <= t.len(),
        t.subrange(0, header_text(h).len() as int) == header_text(h),
    ensures
        ws(t, 0) == ws(t, header_text(h).len() as int),
{
    if let Some(x) = h {
        let ls = lines_from(x, 0);
        let ct = comment_text(ls);
        lemma_lines_clean(x, 0);
        lemma_sub_split(t, 0, ct, seq!['\n']);
        lemma_comment_skip(t, 0, ls);
        lemma_sub_at(t, ct.len() as int, seq!['\n'], 0);
        lemma_ws_run(t, ct.len() as int, ct.len() + 1int);
    }
}

/// The header comment and the empty line after it, where there is one.
pub open spec fn header_text(h: Option<Seq<char>>) -> Seq<char> {
    match h {
        Some(x) => comment_text(lines_from(x, 0)) + seq!['\n'],
        None => Seq::empty(),
    }
}

/// The version line, where it is written.
pub open spec fn version_text(t: TreeV, c: ConfigV) -> Seq<char> {
    if c.include_version && t.version == Some(DtsVersion::V1) {
        "/dts-v1/;\n"@
    } else {
        Seq::empty()
    }
}

/// The plugin line, where it is written.
pub open spec fn plugin_text(t: TreeV, c: ConfigV) -> Seq<char> {
    if c.output_format == OutputFormat::Overlay || t.is_plugin {
        "/plugin/;\n"@
    } else {
        Seq::empty()
    }
}

/// The empty line after a non-empty list.
pub open spec fn gap(n: nat) -> Seq<char> {
    if n > 0 {
        seq!['\n']
    } else {
        Seq::empty()
    }
}

/// The root's text, where there is a root.
pub open spec fn root_part(t: TreeV, c: ConfigV) -> Seq<char> {
    match t.root {
        Some(r) => root_text(r, c),
        None => Seq::empty(),
    }
}

/// The parts of the written text, one after the other.
pub open spec fn parts(t: TreeV, c: ConfigV) -> Seq<Seq<char>> {
    seq![
        header_text(c.header_comment),
        version_text(t, c),
        plugin_text(t, c),
        includes_text(t.includes, t.includes.len() as int),
        gap(t.includes.len()),
        memreserve_text(t.memory_reservations, t.memory_reservations.len() as int),
        gap(t.memory_reservations.len()),
        root_part(t, c),
        ref_nodes_text(t.reference_nodes, t.reference_nodes.len() as int, c),
    ]
}

/// Where part `k` of the written text starts.
pub open spec fn part_start(t: TreeV, c: ConfigV, k: int) -> int
    decreases k,
{
    if k <= 0 {
        0
    } else {
        part_start(t, c, k - 1) + parts(t, c)[k - 1].len()
    }
}

/// Each part of the written text stands where it starts, and the last
/// ends the text.
#[verifier::spinoff_prover]
#[verifier::rlimit(60)]
proof fn lemma_tree_parts(t: TreeV, c: ConfigV)
    ensures
        forall|k: int|
            0 <= k < 9 ==> 0 <= part_start(t, c, k) && part_start(t, c, k) + parts(t, c)[k].len()
                <= tree_text(t, c).len() && #[trigger] tree_text(t, c).subrange(
                part_start(t, c, k),
                part_start(t, c, k) + parts(t, c)[k].len(),
            ) == parts(t, c)[k],
        part_start(t, c, 9) == tree_text(t, c).len(),
{
    let s = tree_text(t, c);
    let q = parts(t, c);
    let x1 = q[0];
    let x2 = x1 + q[1];
    let x3 = x2 + q[2];
    let x4 = x3 + q[3];
    let x5 = x4 + q[4];
    let x6 = x5 + q[5];
    let x7 = x6 + q[6];
    let x8 = x7 + q[7];
    assert(s =~= x8 + q[8]);
    assert(s.subrange(0, s.len() as int) =~= s);
    lemma_sub_split(s, 0, x8, q[8]);
    lemma_sub_split(s, 0, x7, q[7]);
    lemma_sub_split(s, 0, x6, q[6]);
    lemma_sub_split(s, 0, x5, q[5]);
    lemma_sub_split(s, 0, x4, q[4]);
    lemma_sub_split(s, 0, x3, q[3]);
    lemma_sub_split(s, 0, x2, q[2]);
    lemma_sub_split(s, 0, x1, q[1]);
    assert(part_start(t, c, 0) == 0);
    assert(part_start(t, c, 1) == x1.len());
    assert(part_start(t, c, 2) == x2.len());
    assert(part_start(t, c, 3) == x3.len());
    assert(part_start(t, c, 4) == x4.len());
    assert(part_start(t, c, 5) == x5.len());
    assert(part_start(t, c, 6) == x6.len());
    assert(part_start(t, c, 7) == x7.len());
    assert(part_start(t, c, 8) == x8.len());
    assert(part_start(t, c, 9) == s.len());
}

/// The version line, where it is written, is read as the version.
proof fn lemma_version_part(s: Seq<char>, b: int, a: int, acc: TreeV, present: bool) -> (r: (int, TreeV))
    requires
        same_stop(s, b, a),
        present ==> a + 10 <= s.len() && s.subrange(a, a + 10) == "/dts-v1/;\n"@,
    ensures
        same_stop(s, r.0, a + (if present { 10int } else { 0int })),
        file_items(s, b, acc) == file_items(s, r.0, r.1),
        r.1 == (if present { apply_top(acc, TopV::Version) } else { acc }),
{
    if present {
        lemma_version_item(s, b, a);
        crate::grammar::lemma_ws(s, b);
        lemma_file_step(s, b, acc, TopV::Version, a + 9);
        lemma_ws_run(s, a + 9, a + 10);
        (a + 9, apply_top(acc, TopV::Version))
    } else {
        (b, acc)
    }
}

/// The plugin line, where it is written, is read as the plugin marker.
proof fn lemma_plugin_part(s: Seq<char>, b: int, a: int, acc: TreeV, present: bool) -> (r: (int, TreeV))
    requires
        same_stop(s, b, a),
        present ==> a + 10 <= s.len() && s.subrange(a, a + 10) == "/plugin/;\n"@,
    ensures
        same_stop(s, r.0, a + (if present { 10int } else { 0int })),
        file_items(s, b, acc) == file_items(s, r.0, r.1),
        r.1 == (if present { apply_top(acc, TopV::Plugin) } else { acc }),
{
    if present {
        lemma_plugin_item(s, b, a);
        crate::grammar::lemma_ws(s, b);
        lemma_file_step(s, b, acc, TopV::Plugin, a + 9);
        lemma_ws_run(s, a + 9, a + 10);
        (a + 9, apply_top(acc, TopV::Plugin))
    } else {
        (b, acc)
    }
}

/// An empty line after a list keeps where whitespace stops.
proof fn lemma_gap_part(s: Seq<char>, b: int, a: int, n: nat)
    requires
        same_stop(s, b, a),
        a + gap(n).len() <= s.len(),
        s.subrange(a, a + gap(n).len()) == gap(n),
    ensures
        same_stop(s, b, a + gap(n).len()),
{
    if n > 0 {
        lemma_sub_at(s, a, gap(n), 0);
        lemma_stop_extend(s, b, a, a + 1);
    }
}

/// The root, where there is one, is read as the root.
#[verifier::spinoff_prover]
#[verifier::rlimit(30)]
proof fn lemma_root_part(s: Seq<char>, b: int, a: int, acc: TreeV, t: TreeV, c: ConfigV) -> (r: (int, TreeV))
    requires
        readable_tree(t, c),
        acc.root is None,
        same_stop(s, b, a),
        a + root_part(t, c).len() <= s.len(),
        s.subrange(a, a + root_part(t, c).len()) == root_part(t, c),
    ensures
        same_stop(s, r.0, a + root_part(t, c).len()),
        file_items(s, b, acc) == file_items(s, r.0, r.1),
        r.1.version == acc.version,
        r.1.is_plugin == acc.is_plugin,
        r.1.includes == acc.includes,
        r.1.memory_reservations == acc.memory_reservations,
        r.1.reference_nodes == acc.reference_nodes,
        match t.root {
            Some(x) => r.1.root matches Some(y) && reads_as(y, unnamed(x), c),
            None => r.1.root is None,
        },
{
    match t.root {
        Some(x) => {
            let m = lemma_root_item(s, b, a, x, c);
            let e = a + root_text(x, c).len() - 1;
            crate::grammar::lemma_ws(s, b);
            lemma_file_step(s, b, acc, TopV::Root(m), e);
            lemma_ws_run(s, e, e + 1);
            (e, apply_top(acc, TopV::Root(m)))
        },
        None => (b, acc),
    }
}

/// A readable tree written under `c` reads back, to the end of the text,
/// as a tree related to it by `tree_reads_as`.
#[verifier::spinoff_prover]
#[verifier::rlimit(60)]
pub proof fn law_tree_round_trip(t: TreeV, c: ConfigV)
    requires
        readable_tree(t, c),
    ensures
        file(tree_text(t, c)) matches Outcome::Done(m, e) && e == tree_text(t, c).len()
            && tree_reads_as(m, t, c),
{
    reveal_strlit("/dts-v1/;\n");
    reveal_strlit("/plugin/;\n");
    let s = tree_text(t, c);
    let q = parts(t, c);
    lemma_tree_parts(t, c);
    let p1 = part_start(t, c, 1);
    let p2 = part_start(t, c, 2);
    let p3 = part_start(t, c, 3);
    let p4 = part_start(t, c, 4);
    let p5 = part_start(t, c, 5);
    let p6 = part_start(t, c, 6);
    let p7 = part_start(t, c, 7);
    let p8 = part_start(t, c, 8);
    assert(s.subrange(part_start(t, c, 0), part_start(t, c, 0) + q[0].len()) == q[0]);
    assert(s.subrange(part_start(t, c, 1), part_start(t, c, 1) + q[1].len()) == q[1]);
    assert(s.subrange(part_start(t, c, 2), part_start(t, c, 2) + q[2].len()) == q[2]);
    assert(s.subrange(part_start(t, c, 3), part_start(t, c, 3) + q[3].len()) == q[3]);
    assert(s.subrange(part_start(t, c, 4), part_start(t, c, 4) + q[4].len()) == q[4]);
    assert(s.subrange(part_start(t, c, 5), part_start(t, c, 5) + q[5].len()) == q[5]);
    assert(s.subrange(part_start(t, c, 6), part_start(t, c, 6) + q[6].len()) == q[6]);
    assert(s.subrange(part_start(t, c, 7), part_start(t, c, 7) + q[7].len()) == q[7]);
    assert(s.subrange(part_start(t, c, 8), part_start(t, c, 8) + q[8].len()) == q[8]);
    lemma_header_skip(s, c.header_comment);
    let w0 = ws(s, 0);
    crate::grammar::lemma_ws(s, 0);
    lemma_ws_idem(s, 0);
    let acc0 = empty_tree_v();
    let vp = c.include_version && t.version == Some(DtsVersion::V1);
    let (b1, acc1) = lemma_version_part(s, w0, p1, acc0, vp);
    let pp = c.output_format == OutputFormat::Overlay || t.is_plugin;
    let (b2, acc2) = lemma_plugin_part(s, b1, p2, acc1, pp);
    let b3 = lemma_includes_read(s, b2, p3, t.includes, t.includes.len() as int, acc2);
    let acc3 = TreeV { includes: acc2.includes + t.includes.take(t.includes.len() as int), ..acc2 };
    lemma_gap_part(s, b3, p4, t.includes.len());
    let b4 = lemma_memreserves_read(
        s,
        b3,
        p5,
        t.memory_reservations,
        t.memory_reservations.len() as int,
        acc3,
    );
    let acc4 = TreeV {
        memory_reservations: acc3.memory_reservations + t.memory_reservations.take(
            t.memory_reservations.len() as int,
        ),
        ..acc3
    };
    lemma_gap_part(s, b4, p6, t.memory_reservations.len());
    let (b5, acc5) = lemma_root_part(s, b4, p7, acc4, t, c);
    let (b6, rds) = lemma_ref_nodes_read(
        s,
        b5,
        p8,
        t.reference_nodes,
        c,
        t.reference_nodes.len() as int,
        acc5,
    );
    let acc6 = TreeV { reference_nodes: acc5.reference_nodes + rds, ..acc5 };
    lemma_file_end(s, b6, acc6);
    assert(t.includes.take(t.includes.len() as int) =~= t.includes);
    assert(t.memory_reservations.take(t.memory_reservations.len() as int) =~= t.memory_reservations);
    assert(acc6.includes =~= t.includes);
    assert(acc6.memory_reservations =~= t.memory_reservations);
    assert(acc6.reference_nodes =~= rds);
}

/// The parser's answer on the text written for a readable tree is a tree
/// that reads as it: reading succeeds and leaves nothing over.
pub proof fn law_write_then_parse(t: TreeV, c: ConfigV)
    requires
        readable_tree(t, c),
    ensures
        dts_reportable(tree_text(t, c)),
        dts_result(tree_text(t, c)) matches Ok(m) && tree_reads_as(m, t, c),
{
    let s = tree_text(t, c);
    law_tree_round_trip(t, c);
    assert(trim_start(s, s.len() as int) == s.len());
    assert(trim_end(s, s.len() as int, s.len() as int) == s.len());
    assert(!has_trailing(s, s.len() as int));
}

/// The tree that reading gives back where nothing is sorted: the version
/// and plugin marker as written, the root without its name, and each
/// override's node without name, unit address or labels.
pub open spec fn read_back_unsorted(t: TreeV, c: ConfigV) -> TreeV {
    TreeV {
        version: if c.include_version && t.version == Some(DtsVersion::V1) {
            Some(DtsVersion::V1)
        } else {
            None
        },
        is_plugin: c.output_format == OutputFormat::Overlay || t.is_plugin,
        root: match t.root {
            Some(r) => Some(unnamed(r)),
            None => None,
        },
        reference_nodes: t.reference_nodes.map_values(
            |rn: RefNodeV|
                RefNodeV {
                    reference: rn.reference,
                    node: NodeV { labels: Seq::empty(), ..unnamed(rn.node) },
                },
        ),
        ..t
    }
}

/// With neither properties nor nodes sorted, the parser gives back the
/// written tree itself, but for what is not written: the root's name, and
/// the names, unit addresses and labels of override nodes.
pub proof fn law_write_then_parse_unsorted(t: TreeV, c: ConfigV)
    requires
        readable_tree(t, c),
        !c.sort_properties,
        !c.sort_nodes,
    ensures
        dts_result(tree_text(t, c)) == Ok::<TreeV, crate::error::ParseErrorV>(read_back_unsorted(t, c)),
{
    law_write_then_parse(t, c);
    let m = dts_result(tree_text(t, c))->Ok_0;
    let w = read_back_unsorted(t, c);
    if let Some(r) = t.root {
        lemma_reads_as_unsorted(m.root->Some_0, unnamed(r), c);
    }
    assert forall|k: int| 0 <= k < t.reference_nodes.len() implies #[trigger] m.reference_nodes[k]
        == w.reference_nodes[k] by {
        let rn = t.reference_nodes[k];
        assert(ref_read_as(m.reference_nodes[k], rn, c));
        lemma_reads_as_unsorted(
            m.reference_nodes[k].node,
            NodeV { labels: Seq::empty(), ..unnamed(rn.node) },
            c,
        );
    }
    assert(m.reference_nodes =~= w.reference_nodes);
    assert(m.includes =~= w.includes);
    assert(m.memory_reservations =~= w.memory_reservations);
}

/// The written text starts with the header comment, the version line and
/// the plugin line, each where it is written; for a tree with no include,
/// reservation, root or override, that is the whole text.
#[verifier::spinoff_prover]
#[verifier::rlimit(60)]
pub proof fn law_text_starts_with_header(t: TreeV, c: ConfigV)
    ensures
        ({
            let head = header_text(c.header_comment) + version_text(t, c) + plugin_text(t, c);
            &&& head.len() <= tree_text(t, c).len()
            &&& tree_text(t, c).subrange(0, head.len() as int) == head
            &&& (t.includes.len() == 0 && t.memory_reservations.len() == 0 && t.root is None
                && t.reference_nodes.len() == 0) ==> tree_text(t, c) == head
        }),
{
    let s = tree_text(t, c);
    let q = parts(t, c);
    let x3 = q[0] + q[1] + q[2];
    let x4 = x3 + q[3];
    let x5 = x4 + q[4];
    let x6 = x5 + q[5];
    let x7 = x6 + q[6];
    let x8 = x7 + q[7];
    assert(s =~= x8 + q[8]);
    assert(s.subrange(0, s.len() as int) =~= s);
    lemma_sub_split(s, 0, x8, q[8]);
    lemma_sub_split(s, 0, x7, q[7]);
    lemma_sub_split(s, 0, x6, q[6]);
    lemma_sub_split(s, 0, x5, q[5]);
    lemma_sub_split(s, 0, x4, q[4]);
    lemma_sub_split(s, 0, x3, q[3]);
    if t.includes.len() == 0 && t.memory_reservations.len() == 0 && t.root is None
        && t.reference_nodes.len() == 0 {
        assert(q[3] =~= Seq::<char>::empty());
        assert(q[4] =~= Seq::<char>::empty());
        assert(q[5] =~= Seq::<char>::empty());
        assert(q[6] =~= Seq::<char>::empty());
        assert(q[7] =~= Seq::<char>::empty());
        assert(q[8] =~= Seq::<char>::empty());
        assert(s =~= x3);
    }
}

} // verus!

//! What the writer and the reader of device tree source agree on.
use vstd::prelude::*;
use crate::grammar::{
    balanced, simple_escape, str_body, string_literal, value_part, ws, hex_byte, hex_bytes, byte_string,
    cell_array, at, cells, cell, span, in_class, Class, hex_integer, dec_integer, hex_digits_val,
    dec_digits_val, has_hex_digit, reference, ident, char_literal, integer, prop_value, value_rest,
    find_char, is_ident_start, is_prop_name_start, labels, label_def, prop_name, property, Outcome,
    lemma_span,
};
use crate::model::{PartV, CellV, RefV, PropV, ref_text};
use crate::serializer::{
    escape, escape_char, part_text, bytes_text, byte_text, cell_text, cells_text, parts_text,
    value_text, labels_text, prop_line,
};
use crate::text::{hex_char, hex_val, is_hex, is_multispace, hex_str, dec_char, dec_str, is_digit};
use crate::node_round_trip::{lemma_labels_read_at, lemma_sub_split, lemma_sub_at};

verus! {

/// Escaping text piece by piece is escaping it whole.
pub proof fn lemma_escape_concat(a: Seq<char>, b: Seq<char>)
    ensures
        escape(a + b) == escape(a) + escape(b),
    decreases b.len(),
{
    if b.len() == 0 {
        assert(a + b =~= a);
        assert(escape(a) + escape(b) =~= escape(a));
    } else {
        lemma_escape_concat(a, b.drop_last());
        assert((a + b).drop_last() =~= a + b.drop_last());
        assert((a + b).last() == b.last());
        assert(escape(a) + escape(b.drop_last()) + escape_char(b.last()) =~= escape(a) + escape(b));
    }
}

/// The escaped form of `c` followed by more text.
pub proof fn lemma_escape_first(c: char, x: Seq<char>)
    ensures
        escape(seq![c] + x) == escape_char(c) + escape(x),
{
    lemma_escape_concat(seq![c], x);
    assert(seq![c].drop_last() =~= Seq::<char>::empty());
    assert(seq![c].last() == c);
    assert(escape(Seq::<char>::empty()) == Seq::<char>::empty());
    assert(escape(seq![c]) == escape(seq![c].drop_last()) + escape_char(c));
    assert(escape(seq![c]) =~= escape_char(c));
}

/// Reading the escaped form of `x` inside a string literal gives `x` back.
pub proof fn lemma_str_body_escaped(t: Seq<char>, i: int, acc: Seq<char>, x: Seq<char>)
    requires
        0 <= i,
        i + escape(x).len() <= t.len(),
        t.subrange(i, i + escape(x).len()) == escape(x),
    ensures
        str_body(t, i, acc) == str_body(t, i + escape(x).len(), acc + x),
    decreases x.len(),
{
    if x.len() == 0 {
        assert(acc + x =~= acc);
    } else {
        let c = x[0];
        let rest = x.drop_first();
        assert(x =~= seq![c] + rest);
        lemma_escape_first(c, rest);
        let ec = escape_char(c);
        let n = ec.len() as int;
        assert(escape(x) == ec + escape(rest));
        assert(t[i] == escape(x)[0]);
        assert(escape(x)[0] == ec[0]);
        if n == 2 {
            assert(t[i + 1] == escape(x)[1]);
            assert(escape(x)[1] == ec[1]);
            assert(simple_escape(ec[1]) == Some(c));
        }
        assert(str_body(t, i, acc) == str_body(t, i + n, acc.push(c)));
        assert(t.subrange(i + n, i + n + escape(rest).len()) =~= escape(rest)) by {
            assert forall|k: int| 0 <= k < escape(rest).len() implies t.subrange(
                i + n,
                i + n + escape(rest).len(),
            )[k] == escape(rest)[k] by {
                assert(t[i + n + k] == escape(x)[n + k]);
            }
        }
        lemma_str_body_escaped(t, i + n, acc.push(c), rest);
        assert(acc.push(c) + rest =~= acc + x);
    }
}

/// A string written as a value part reads back as the same string: the
/// text of `"..."` with its escapes, found anywhere in a source, is read as
/// a string literal holding exactly the written string, and reading ends
/// right after the closing quote.
pub proof fn law_string_round_trip(t: Seq<char>, i: int, s: Seq<char>)
    requires
        0 <= i,
        i + part_text(PartV::StringLiteral(s)).len() <= t.len(),
        t.subrange(i, i + part_text(PartV::StringLiteral(s)).len()) == part_text(
            PartV::StringLiteral(s),
        ),
    ensures
        value_part(t, i) == Some(
            (PartV::StringLiteral(s), i + part_text(PartV::StringLiteral(s)).len()),
        ),
{
    let w = part_text(PartV::StringLiteral(s));
    let e = escape(s);
    assert(w == seq!['"'] + e + seq!['"']);
    assert(t[i] == w[0]);
    assert(t[i + 1 + e.len()] == w[1 + e.len() as int]);
    assert(t.subrange(i + 1, i + 1 + e.len()) =~= e) by {
        assert forall|k: int| 0 <= k < e.len() implies t.subrange(i + 1, i + 1 + e.len())[k]
            == e[k] by {
            assert(t[i + 1 + k] == w[1 + k]);
        }
    }
    lemma_str_body_escaped(t, i + 1, Seq::empty(), s);
    assert(Seq::<char>::empty() + s =~= s);
    assert(string_literal(t, i) == Some((s, i + w.len())));
}

/// A lowercase hexadecimal digit reads back as its value.
pub proof fn lemma_hex_digit(d: nat)
    requires
        d < 16,
    ensures
        is_hex(hex_char(d)),
        hex_val(hex_char(d)) == d,
        hex_char(d) != '/',
        hex_char(d) != ']',
        hex_char(d) != '_',
        !is_multispace(hex_char(d)),
{
    if d < 10 {
        assert((('0' as nat) + d) as char as nat == ('0' as nat) + d);
    } else {
        assert((('a' as nat) + d - 10) as char as nat == ('a' as nat) + d - 10);
    }
}

/// The character `d` places after the start of the `j`-th group of three.
pub open spec fn in_group(t: Seq<char>, j: int, d: int) -> char {
    t[3 * j + d]
}

/// Where the digits and spaces of written bytes stand: byte `j` takes
/// places `3j` and `3j + 1`, and a space follows each byte but the last.
pub proof fn lemma_bytes_text_shape(bs: Seq<u8>, k: int)
    requires
        0 <= k <= bs.len(),
    ensures
        bytes_text(bs, k).len() == if k == 0 {
            0
        } else {
            3 * k - 1
        },
        forall|j: int|
            0 <= j < k ==> #[trigger] in_group(bytes_text(bs, k), j, 0) == hex_char(
                (bs[j] / 16) as nat,
            ) && in_group(bytes_text(bs, k), j, 1) == hex_char((bs[j] % 16) as nat),
        forall|j: int| 0 <= j < k - 1 ==> #[trigger] in_group(bytes_text(bs, k), j, 2) == ' ',
    decreases k,
{
    if k > 0 {
        lemma_bytes_text_shape(bs, k - 1);
        let prev = bytes_text(bs, k - 1);
        let sep: Seq<char> = if k > 1 {
            seq![' ']
        } else {
            Seq::empty()
        };
        let t = bytes_text(bs, k);
        assert(t == prev + sep + byte_text(bs[k - 1]));
        assert forall|j: int| 0 <= j < k implies #[trigger] in_group(t, j, 0) == hex_char(
            (bs[j] / 16) as nat,
        ) && in_group(t, j, 1) == hex_char((bs[j] % 16) as nat) by {
            if j < k - 1 {
                assert(in_group(prev, j, 0) == hex_char((bs[j] / 16) as nat));
                assert(t[3 * j] == prev[3 * j]);
                assert(t[3 * j + 1] == prev[3 * j + 1]);
            } else {
                assert(t[3 * j] == byte_text(bs[k - 1])[0]);
                assert(t[3 * j + 1] == byte_text(bs[k - 1])[1]);
            }
        }
        assert forall|j: int| 0 <= j < k - 1 implies #[trigger] in_group(t, j, 2) == ' ' by {
            if j < k - 2 {
                assert(in_group(prev, j, 2) == ' ');
                assert(t[3 * j + 2] == prev[3 * j + 2]);
            } else {
                assert(t[3 * j + 2] == sep[0]);
            }
        }
    }
}

/// Reading the bytes written in `t` from byte `j` on gives the rest of them,
/// and stops at the closing bracket.
proof fn lemma_hex_bytes_read(t: Seq<char>, i: int, bs: Seq<u8>, j: int)
    requires
        0 <= i,
        0 <= j <= bs.len(),
        i + 1 + bytes_text(bs, bs.len() as int).len() < t.len(),
        t.subrange(i + 1, i + 1 + bytes_text(bs, bs.len() as int).len()) == bytes_text(
            bs,
            bs.len() as int,
        ),
        t[i + 1 + bytes_text(bs, bs.len() as int).len()] == ']',
    ensures
        hex_bytes(t, if j == 0 { i + 1 } else { i + 3 * j }, bs.take(j)) == (
            bs,
            i + 1 + bytes_text(bs, bs.len() as int).len(),
        ),
    decreases bs.len() - j,
{
    let n = bs.len() as int;
    let w = bytes_text(bs, n);
    let end = i + 1 + w.len();
    lemma_bytes_text_shape(bs, n);
    let q = if j == 0 {
        i + 1
    } else {
        i + 3 * j
    };
    if j == n {
        assert(q == end);
        assert(bs.take(j) =~= bs);
        assert(ws(t, q) == q);
        assert(hex_byte(t, q) is None);
    } else {
        let b = bs[j];
        lemma_hex_digit((b / 16) as nat);
        lemma_hex_digit((b % 16) as nat);
        let k = i + 1 + 3 * j;
        assert(in_group(w, j, 0) == hex_char((b / 16) as nat));
        assert(t[k] == w[3 * j]);
        assert(t[k + 1] == w[3 * j + 1]);
        if j > 0 {
            assert(in_group(w, j - 1, 2) == ' ');
            assert(t[q] == w[3 * (j - 1) + 2]);
            assert(ws(t, q + 1) == q + 1);
            assert(ws(t, q) == ws(t, q + 1));
        } else {
            assert(ws(t, q) == q);
        }
        assert(ws(t, q) == k);
        assert(hex_val(t[k]) * 16 + hex_val(t[k + 1]) == b) by (nonlinear_arith)
            requires
                hex_val(t[k]) == b / 16,
                hex_val(t[k + 1]) == b % 16,
                b < 256,
        ;
        assert(hex_byte(t, k) == Some((b, k + 2)));
        assert(bs.take(j).push(b) =~= bs.take(j + 1));
        lemma_hex_bytes_read(t, i, bs, j + 1);
        assert(k + 2 == i + 3 * (j + 1));
    }
}

/// Bytes written as a value part read back as the same bytes: the text of
/// `[..]`, found anywhere in a source, is read as a byte string holding
/// exactly the written bytes, and reading ends right after the bracket.
pub proof fn law_bytes_round_trip(t: Seq<char>, i: int, bs: Seq<u8>)
    requires
        0 <= i,
        i + part_text(PartV::ByteString(bs)).len() <= t.len(),
        t.subrange(i, i + part_text(PartV::ByteString(bs)).len()) == part_text(
            PartV::ByteString(bs),
        ),
    ensures
        value_part(t, i) == Some(
            (PartV::ByteString(bs), i + part_text(PartV::ByteString(bs)).len()),
        ),
{
    let w = part_text(PartV::ByteString(bs));
    let b = bytes_text(bs, bs.len() as int);
    assert(w == seq!['['] + b + seq![']']);
    assert(t[i] == w[0]);
    assert(t[i + 1 + b.len()] == w[1 + b.len() as int]);
    assert(t.subrange(i + 1, i + 1 + b.len()) =~= b) by {
        assert forall|k: int| 0 <= k < b.len() implies t.subrange(i + 1, i + 1 + b.len())[k]
            == b[k] by {
            assert(t[i + 1 + k] == w[1 + k]);
        }
    }
    lemma_hex_bytes_read(t, i, bs, 0);
    assert(bs.take(0) =~= Seq::<u8>::empty());
    let end = i + 1 + b.len();
    assert(ws(t, end) == end);
    assert(byte_string(t, i) == Some((bs, end + 1)));
    assert(string_literal(t, i) is None);
    assert(cell_array(t, i) is None);
}

/// A reference the reader gives back as written: a label that is an
/// identifier, or a path without `}`.
pub open spec fn readable_ref(r: RefV) -> bool {
    match r {
        RefV::Label(l) => l.len() >= 1 && is_ident_start(l[0]) && forall|j: int|
            1 <= j < l.len() ==> in_class(Class::IdentRest, #[trigger] l[j]),
        RefV::Path(p) => forall|j: int| 0 <= j < p.len() ==> #[trigger] p[j] != '}',
    }
}

/// A cell the reader gives back as written: a number, a readable
/// reference, a parenthesized expression whose parentheses balance, or a
/// macro whose name is an identifier and whose arguments' parentheses
/// balance.
pub open spec fn readable_cell(c: CellV) -> bool {
    match c {
        CellV::Literal(_) => true,
        CellV::Reference(r) => readable_ref(r),
        CellV::Expression(e) => parens_close_at_end(e, 1),
        CellV::Macro(n, a) => readable_label(n) && parens_close_at_end(a, 1),
    }
}

/// How a character changes the nesting of parentheses.
pub open spec fn paren_step(c: char) -> int {
    if c == '(' {
        1
    } else if c == ')' {
        -1
    } else {
        0
    }
}

/// Whether `e`, read inside `d` open parentheses, never closes the one it
/// started in and leaves exactly one open at its end: the text inside a
/// pair of parentheses that the reader takes whole.
pub open spec fn parens_close_at_end(e: Seq<char>, d: int) -> bool
    decreases e.len(),
{
    if e.len() == 0 {
        d == 1
    } else {
        d + paren_step(e[0]) >= 1 && parens_close_at_end(e.drop_first(), d + paren_step(e[0]))
    }
}

/// Text inside parentheses whose nesting closes at its end is read up to
/// the closing parenthesis that follows it.
proof fn lemma_balanced_read(t: Seq<char>, i: int, e: Seq<char>, d: nat, acc: Seq<char>)
    requires
        1 <= d,
        0 <= i,
        i + e.len() < t.len(),
        t.subrange(i, i + e.len()) == e,
        t[i + e.len()] == ')',
        parens_close_at_end(e, d as int),
    ensures
        balanced(t, i, d, acc) == Some((acc + e, i + e.len() + 1)),
    decreases e.len(),
{
    if e.len() == 0 {
        assert(acc + e =~= acc);
    } else {
        let c = e[0];
        let e2 = e.drop_first();
        assert(t[i] == t.subrange(i, i + e.len())[0]);
        assert(t.subrange(i + 1, i + 1 + e2.len()) =~= e2) by {
            assert forall|x: int| 0 <= x < e2.len() implies t.subrange(i + 1, i + 1 + e2.len())[x]
                == e2[x] by {
                assert(t.subrange(i, i + e.len())[x + 1] == e[x + 1]);
            }
        }
        assert(acc.push(c) + e2 =~= acc + e);
        if c == '(' {
            lemma_balanced_read(t, i + 1, e2, d + 1, acc.push(c));
        } else if c == ')' {
            lemma_balanced_read(t, i + 1, e2, (d - 1) as nat, acc.push(c));
        } else {
            lemma_balanced_read(t, i + 1, e2, d, acc.push(c));
        }
    }
}

/// Whether every cell is readable.
pub open spec fn readable_cells(cs: Seq<CellV>) -> bool {
    forall|j: int| 0 <= j < cs.len() ==> readable_cell(#[trigger] cs[j])
}

/// A span over characters of a class ends where the class ends.
pub(crate) proof fn lemma_span_over(t: Seq<char>, a: int, b: int, k: Class)
    requires
        0 <= a <= b <= t.len(),
        forall|j: int| a <= j < b ==> in_class(k, #[trigger] t[j]),
        b == t.len() || !in_class(k, t[b]),
    ensures
        span(t, a, k) == b,
    decreases b - a,
{
    if a < b {
        lemma_span_over(t, a + 1, b, k);
    }
}

/// The digits of a number written in hexadecimal.
pub(crate) proof fn lemma_hex_str_chars(n: nat)
    ensures
        hex_str(n).len() >= 1,
        forall|j: int|
            0 <= j < hex_str(n).len() ==> is_hex(#[trigger] hex_str(n)[j]) && hex_str(n)[j]
                != '_',
    decreases n,
{
    if n < 16 {
        lemma_hex_digit(n);
    } else {
        lemma_hex_str_chars(n / 16);
        lemma_hex_digit(n % 16);
        let h = hex_str(n);
        let h2 = hex_str(n / 16);
        assert forall|j: int| 0 <= j < h.len() implies is_hex(#[trigger] h[j]) && h[j] != '_' by {
            if j < h2.len() {
                assert(h[j] == h2[j]);
            }
        }
    }
}

/// The hexadecimal digits of `n`, read at `a`, have the value `n`.
pub(crate) proof fn lemma_hex_str_value(t: Seq<char>, a: int, n: nat)
    requires
        0 <= a,
        a + hex_str(n).len() <= t.len(),
        t.subrange(a, a + hex_str(n).len()) == hex_str(n),
    ensures
        hex_digits_val(t, a, a + hex_str(n).len()) == n,
    decreases n,
{
    let h = hex_str(n);
    let b = a + h.len();
    lemma_hex_str_chars(n);
    lemma_hex_digit(n % 16);
    if n < 16 {
        assert(t[a] == h[0]);
        assert(hex_digits_val(t, a, a) == 0);
    } else {
        let h2 = hex_str(n / 16);
        lemma_hex_str_chars(n / 16);
        assert(t.subrange(a, a + h2.len()) =~= h2) by {
            assert forall|k: int| 0 <= k < h2.len() implies t.subrange(a, a + h2.len())[k]
                == h2[k] by {
                assert(t[a + k] == h[k]);
            }
        }
        lemma_hex_str_value(t, a, n / 16);
        assert(t[b - 1] == h[h.len() - 1]);
        assert(n / 16 * 16 + n % 16 == n);
    }
}

/// A number written as a cell reads back as that number when a space or
/// `>` follows it.
proof fn lemma_literal_cell_read(t: Seq<char>, k: int, n: u64)
    requires
        0 <= k,
        k + cell_text(CellV::Literal(n)).len() < t.len(),
        t.subrange(k, k + cell_text(CellV::Literal(n)).len()) == cell_text(CellV::Literal(n)),
        t[k + cell_text(CellV::Literal(n)).len()] == ' ' || t[k
            + cell_text(CellV::Literal(n)).len()] == '>',
    ensures
        cell(t, k) == Some((CellV::Literal(n), k + cell_text(CellV::Literal(n)).len())),
        cell_text(CellV::Literal(n)).len() >= 1,
        is_digit(t[k]),
{
    let w = cell_text(CellV::Literal(n));
    let e = k + w.len();
    assert(t[k] == w[0]);
    assert(reference(t, k) is None);
    assert(ident(t, k) is None);
    assert(char_literal(t, k) is None);
    if n > 9 {
        let h = hex_str(n as nat);
        lemma_hex_str_chars(n as nat);
        assert(w == seq!['0', 'x'] + h);
        assert(t[k + 1] == w[1]);
        assert(t.subrange(k + 2, e) =~= h) by {
            assert forall|m: int| 0 <= m < h.len() implies t.subrange(k + 2, e)[m] == h[m] by {
                assert(t[k + 2 + m] == w[2 + m]);
            }
        }
        assert forall|j: int| k + 2 <= j < e implies in_class(Class::HexOrUnderscore, #[trigger] t[j]) by {
            assert(t[j] == h[j - k - 2]);
        }
        lemma_span_over(t, k + 2, e, Class::HexOrUnderscore);
        lemma_hex_str_value(t, k + 2, n as nat);
        assert(t[k + 2] == w[2]);
        assert(w[2] == h[0]);
        assert(is_hex(hex_str(n as nat)[0]));
        assert(has_hex_digit(t, k + 2, e));
        assert(hex_integer(t, k) == Some((n, e)));
        assert(integer(t, k) == Some((n, e)));
    } else {
        assert(w == seq![dec_char(n as nat)]);
        assert((('0' as nat) + n) as char as nat == ('0' as nat) + n);
        assert(hex_integer(t, k) is None);
        lemma_span_over(t, k, k + 1, Class::Digit);
        assert(dec_digits_val(t, k, k) == 0);
        assert(dec_integer(t, k) == Some((n, e)));
        assert(integer(t, k) == Some((n, e)));
    }
}

/// The first `c` from `a` is at `b` when none comes before.
pub(crate) proof fn lemma_find_char_over(t: Seq<char>, a: int, b: int, c: char)
    requires
        0 <= a <= b < t.len(),
        forall|j: int| a <= j < b ==> #[trigger] t[j] != c,
        t[b] == c,
    ensures
        find_char(t, a, c) == Some(b),
    decreases b - a,
{
    if a < b {
        lemma_find_char_over(t, a + 1, b, c);
    }
}

/// A readable reference written anywhere in a source reads back as
/// itself, when what follows it cannot continue a label.
pub(crate) proof fn lemma_ref_read(t: Seq<char>, k: int, r: RefV)
    requires
        readable_ref(r),
        0 <= k,
        k + ref_text(r).len() <= t.len(),
        t.subrange(k, k + ref_text(r).len()) == ref_text(r),
        k + ref_text(r).len() == t.len() || !in_class(Class::IdentRest, t[k + ref_text(r).len()]),
    ensures
        reference(t, k) == Some((r, k + ref_text(r).len())),
        t[k] == '&',
{
    reveal_strlit("&");
    reveal_strlit("&{");
    reveal_strlit("}");
    let w = ref_text(r);
    let e = k + w.len();
    assert(t[k] == w[0]);
    match r {
        RefV::Label(l) => {
            assert(w == seq!['&'] + l);
            assert(t[k + 1] == w[1]);
            assert forall|j: int| k + 2 <= j < e implies in_class(Class::IdentRest, #[trigger] t[j]) by {
                assert(t[j] == w[j - k]);
                assert(w[j - k] == l[j - k - 1]);
            }
            lemma_span_over(t, k + 2, e, Class::IdentRest);
            assert(ident(t, k + 1) == Some(e));
            assert(t.subrange(k + 1, e) =~= l) by {
                assert forall|j: int| 0 <= j < l.len() implies t.subrange(k + 1, e)[j] == l[j] by {
                    assert(t[k + 1 + j] == w[1 + j]);
                }
            }
        },
        RefV::Path(p) => {
            assert(w == seq!['&', '{'] + p + seq!['}']);
            assert(t[k + 1] == w[1]);
            assert(t[e - 1] == w[w.len() - 1]);
            assert forall|j: int| k + 2 <= j < e - 1 implies #[trigger] t[j] != '}' by {
                assert(t[j] == w[j - k]);
                assert(w[j - k] == p[j - k - 2]);
            }
            lemma_find_char_over(t, k + 2, e - 1, '}');
            assert(t.subrange(k + 2, e - 1) =~= p) by {
                assert forall|j: int| 0 <= j < p.len() implies t.subrange(k + 2, e - 1)[j] == p[j] by {
                    assert(t[k + 2 + j] == w[2 + j]);
                }
            }
        },
    }
}

/// A readable cell reads back as itself when a space or `>` follows it.
proof fn lemma_cell_read(t: Seq<char>, k: int, c: CellV)
    requires
        readable_cell(c),
        0 <= k,
        k + cell_text(c).len() < t.len(),
        t.subrange(k, k + cell_text(c).len()) == cell_text(c),
        t[k + cell_text(c).len()] == ' ' || t[k + cell_text(c).len()] == '>',
    ensures
        cell(t, k) == Some((c, k + cell_text(c).len())),
        cell_text(c).len() >= 1,
        !is_multispace(t[k]),
        t[k] != '/',
{
    match c {
        CellV::Literal(n) => lemma_literal_cell_read(t, k, n),
        CellV::Reference(r) => {
            reveal_strlit("&");
            reveal_strlit("&{");
            assert(ref_text(r).len() >= 1);
            lemma_ref_read(t, k, r);
        },
        CellV::Expression(e) => {
            let w = cell_text(c);
            assert(w == seq!['('] + e + seq![')']);
            lemma_sub_split(t, k, seq!['('] + e, seq![')']);
            lemma_sub_split(t, k, seq!['('], e);
            lemma_sub_at(t, k, seq!['('], 0);
            lemma_sub_at(t, k + 1 + e.len(), seq![')'], 0);
            assert(reference(t, k) is None);
            lemma_balanced_read(t, k + 1, e, 1, Seq::empty());
            assert(Seq::<char>::empty() + e =~= e);
        },
        CellV::Macro(n, a) => {
            let w = cell_text(c);
            assert(w == n + seq!['('] + a + seq![')']);
            lemma_sub_split(t, k, n + seq!['('] + a, seq![')']);
            lemma_sub_split(t, k, n + seq!['('], a);
            lemma_sub_split(t, k, n, seq!['(']);
            lemma_sub_at(t, k + n.len(), seq!['('], 0);
            lemma_sub_at(t, k + n.len() + 1 + a.len(), seq![')'], 0);
            lemma_sub_at(t, k, n, 0);
            assert(readable_label(n));
            assert(reference(t, k) is None);
            assert forall|x: int| k + 1 <= x < k + n.len() implies in_class(
                Class::IdentRest,
                #[trigger] t[x],
            ) by {
                lemma_sub_at(t, k, n, x - k);
            }
            lemma_span_over(t, k + 1, k + n.len(), Class::IdentRest);
            assert(ident(t, k) == Some(k + n.len()));
            lemma_balanced_read(t, k + n.len() + 1, a, 1, Seq::empty());
            assert(Seq::<char>::empty() + a =~= a);
        },
    }
}

/// The text of the first `m` cells begins the text of the first `n`.
proof fn lemma_cells_text_prefix(cs: Seq<CellV>, m: int, n: int)
    requires
        0 <= m <= n <= cs.len(),
    ensures
        cells_text(cs, m).len() <= cells_text(cs, n).len(),
        cells_text(cs, n).subrange(0, cells_text(cs, m).len() as int) == cells_text(cs, m),
    decreases n - m,
{
    if m < n {
        lemma_cells_text_prefix(cs, m, n - 1);
        let a = cells_text(cs, m);
        let b = cells_text(cs, n - 1);
        let c = cells_text(cs, n);
        assert(c == b + (if n > 1 {
            seq![' ']
        } else {
            Seq::empty()
        }) + cell_text(cs[n - 1]));
        assert(c.subrange(0, a.len() as int) =~= a) by {
            assert forall|x: int| 0 <= x < a.len() implies c.subrange(0, a.len() as int)[x] == a[x] by {
                assert(c[x] == b[x]);
                assert(b.subrange(0, a.len() as int)[x] == a[x]);
            }
        }
    } else {
        assert(cells_text(cs, n).subrange(0, cells_text(cs, n).len() as int) =~= cells_text(cs, n));
    }
}

/// Reading the cells written in `t` from cell `j` on gives the rest of
/// them, and stops at the closing `>`.
proof fn lemma_cells_read(t: Seq<char>, i: int, cs: Seq<CellV>, j: int)
    requires
        readable_cells(cs),
        0 <= i,
        0 <= j <= cs.len(),
        i + 1 + cells_text(cs, cs.len() as int).len() < t.len(),
        t.subrange(i + 1, i + 1 + cells_text(cs, cs.len() as int).len()) == cells_text(
            cs,
            cs.len() as int,
        ),
        t[i + 1 + cells_text(cs, cs.len() as int).len()] == '>',
    ensures
        cells(t, i + 1 + cells_text(cs, j).len(), cs.take(j)) == (
            cs,
            i + 1 + cells_text(cs, cs.len() as int).len(),
        ),
    decreases cs.len() - j,
{
    let n = cs.len() as int;
    let w = cells_text(cs, n);
    let end = i + 1 + w.len();
    let p = i + 1 + cells_text(cs, j).len();
    lemma_cells_text_prefix(cs, j, n);
    if j == n {
        assert(cs.take(j) =~= cs);
        assert(ws(t, p) == p);
        assert(cell(t, p) is None);
    } else {
        let c = cs[j];
        assert(readable_cell(c));
        let ct = cell_text(c);
        let sep: Seq<char> = if j + 1 > 1 {
            seq![' ']
        } else {
            Seq::empty()
        };
        lemma_cells_text_prefix(cs, j + 1, n);
        let pre = cells_text(cs, j);
        let nxt = cells_text(cs, j + 1);
        assert(nxt == pre + sep + ct);
        let k = p + sep.len();
        let q = i + 1 + nxt.len();
        assert(q == k + ct.len());
        assert(t.subrange(k, q) =~= ct) by {
            assert forall|x: int| 0 <= x < ct.len() implies t.subrange(k, q)[x] == ct[x] by {
                assert(t[k + x] == w[k + x - i - 1]);
                assert(w.subrange(0, nxt.len() as int)[k + x - i - 1] == nxt[k + x - i - 1]);
            }
        }
        if j + 1 < n {
            lemma_cells_text_prefix(cs, j + 2, n);
            let nn = cells_text(cs, j + 2);
            assert(nn == nxt + seq![' '] + cell_text(cs[j + 1]));
            assert(t[q] == w[nxt.len() as int]);
            assert(w.subrange(0, nn.len() as int)[nxt.len() as int] == nn[nxt.len() as int]);
        } else {
            assert(q == end);
        }
        lemma_cell_read(t, k, c);
        if j > 0 {
            assert(t[p] == w[pre.len() as int]);
            assert(w.subrange(0, nxt.len() as int)[pre.len() as int] == nxt[pre.len() as int]);
            assert(ws(t, p + 1) == p + 1);
        }
        assert(ws(t, p) == k);
        assert(cs.take(j).push(c) =~= cs.take(j + 1));
        lemma_cells_read(t, i, cs, j + 1);
    }
}

/// Readable cells (see `readable_cell`) written as a cell array read back
/// as the same cells: the text of `<..>`, found anywhere in a source, is
/// read as a cell array holding exactly the written cells, and reading
/// ends right after `>`.
pub proof fn law_cells_round_trip(t: Seq<char>, i: int, cs: Seq<CellV>)
    requires
        readable_cells(cs),
        0 <= i,
        i + part_text(PartV::CellArray(cs)).len() <= t.len(),
        t.subrange(i, i + part_text(PartV::CellArray(cs)).len()) == part_text(
            PartV::CellArray(cs),
        ),
    ensures
        value_part(t, i) == Some(
            (PartV::CellArray(cs), i + part_text(PartV::CellArray(cs)).len()),
        ),
{
    let w = part_text(PartV::CellArray(cs));
    let b = cells_text(cs, cs.len() as int);
    assert(w == seq!['<'] + b + seq!['>']);
    assert(t[i] == w[0]);
    assert(t[i + 1 + b.len()] == w[1 + b.len() as int]);
    assert(t.subrange(i + 1, i + 1 + b.len()) =~= b) by {
        assert forall|k: int| 0 <= k < b.len() implies t.subrange(i + 1, i + 1 + b.len())[k]
            == b[k] by {
            assert(t[i + 1 + k] == w[1 + k]);
        }
    }
    lemma_cells_read(t, i, cs, 0);
    assert(cs.take(0) =~= Seq::<CellV>::empty());
    assert(cells_text(cs, 0).len() == 0);
    let end = i + 1 + b.len();
    assert(ws(t, end) == end);
    assert(cell_array(t, i) == Some((cs, end + 1)));
    assert(string_literal(t, i) is None);
}

/// A part the reader gives back as written: a string, a byte string, an
/// array of numbers and readable references, or a readable reference.
pub open spec fn plain_part(p: PartV) -> bool {
    match p {
        PartV::StringLiteral(_) => true,
        PartV::ByteString(_) => true,
        PartV::CellArray(cs) => readable_cells(cs),
        PartV::Reference(r) => readable_ref(r),
    }
}

/// A plain part written anywhere in a source reads back as itself.
proof fn lemma_plain_part_read(t: Seq<char>, i: int, p: PartV)
    requires
        plain_part(p),
        0 <= i,
        i + part_text(p).len() < t.len(),
        t.subrange(i, i + part_text(p).len()) == part_text(p),
        t[i + part_text(p).len()] == ',' || t[i + part_text(p).len()] == ';',
    ensures
        value_part(t, i) == Some((p, i + part_text(p).len())),
        part_text(p).len() >= 2,
        t[i] == '"' || t[i] == '[' || t[i] == '<' || t[i] == '&',
{
    reveal_strlit("&");
    reveal_strlit("&{");
    reveal_strlit("}");
    assert(part_text(p).len() >= 2);
    assert(t[i] == part_text(p)[0]);
    match p {
        PartV::StringLiteral(x) => law_string_round_trip(t, i, x),
        PartV::ByteString(bs) => law_bytes_round_trip(t, i, bs),
        PartV::CellArray(cs) => law_cells_round_trip(t, i, cs),
        PartV::Reference(r) => lemma_ref_read(t, i, r),
    }
}

/// The text of the first `m` parts begins the text of the first `n`.
proof fn lemma_parts_text_prefix(ps: Seq<PartV>, m: int, n: int)
    requires
        0 <= m <= n <= ps.len(),
    ensures
        parts_text(ps, m).len() <= parts_text(ps, n).len(),
        parts_text(ps, n).subrange(0, parts_text(ps, m).len() as int) == parts_text(ps, m),
    decreases n - m,
{
    if m < n {
        lemma_parts_text_prefix(ps, m, n - 1);
        let a = parts_text(ps, m);
        let b = parts_text(ps, n - 1);
        let c = parts_text(ps, n);
        assert(c == b + (if n > 1 {
            seq![',', ' ']
        } else {
            Seq::empty()
        }) + part_text(ps[n - 1]));
        assert(c.subrange(0, a.len() as int) =~= a) by {
            assert forall|x: int| 0 <= x < a.len() implies c.subrange(0, a.len() as int)[x] == a[x] by {
                assert(c[x] == b[x]);
                assert(b.subrange(0, a.len() as int)[x] == a[x]);
            }
        }
    } else {
        assert(parts_text(ps, n).subrange(0, parts_text(ps, n).len() as int) =~= parts_text(ps, n));
    }
}

/// Reading the further parts written in `t` after part `j` gives the rest
/// of them, and stops at the `;` after the value.
proof fn lemma_parts_read(t: Seq<char>, i: int, ps: Seq<PartV>, j: int)
    requires
        forall|m: int| 0 <= m < ps.len() ==> plain_part(#[trigger] ps[m]),
        0 <= i,
        1 <= j <= ps.len(),
        i + value_text(ps).len() < t.len(),
        t.subrange(i, i + value_text(ps).len()) == value_text(ps),
        t[i + value_text(ps).len()] == ';',
    ensures
        value_rest(t, i + parts_text(ps, j).len(), ps.take(j)) == (ps, i + value_text(ps).len()),
    decreases ps.len() - j,
{
    let n = ps.len() as int;
    let w = value_text(ps);
    let end = i + w.len();
    let p = i + parts_text(ps, j).len();
    lemma_parts_text_prefix(ps, j, n);
    if j == n {
        assert(ps.take(j) =~= ps);
        assert(ws(t, p) == p);
    } else {
        let q = ps[j];
        let pre = parts_text(ps, j);
        let nxt = parts_text(ps, j + 1);
        lemma_parts_text_prefix(ps, j + 1, n);
        assert(nxt == pre + seq![',', ' '] + part_text(q));
        let k = p + 2;
        let e = i + nxt.len();
        assert(e == k + part_text(q).len());
        assert(t.subrange(k, e) =~= part_text(q)) by {
            assert forall|x: int| 0 <= x < part_text(q).len() implies t.subrange(k, e)[x]
                == part_text(q)[x] by {
                assert(t[k + x] == w[k + x - i]);
                assert(w.subrange(0, nxt.len() as int)[k + x - i] == nxt[k + x - i]);
            }
        }
        if j + 1 < n {
            lemma_parts_text_prefix(ps, j + 2, n);
            let nn = parts_text(ps, j + 2);
            assert(nn == nxt + seq![',', ' '] + part_text(ps[j + 1]));
            assert(t[e] == w[nxt.len() as int]);
            assert(w.subrange(0, nn.len() as int)[nxt.len() as int] == nn[nxt.len() as int]);
        } else {
            assert(e == end);
        }
        lemma_plain_part_read(t, k, q);
        assert(t[p] == w[pre.len() as int]);
        assert(w.subrange(0, nxt.len() as int)[pre.len() as int] == nxt[pre.len() as int]);
        assert(t[p + 1] == w[pre.len() as int + 1]);
        assert(w.subrange(0, nxt.len() as int)[pre.len() as int + 1] == nxt[pre.len() as int + 1]);
        assert(ws(t, p) == p);
        assert(ws(t, p + 2) == p + 2);
        assert(ws(t, p + 1) == p + 2);
        assert(ps.take(j).push(q) =~= ps.take(j + 1));
        lemma_parts_read(t, i, ps, j + 1);
    }
}

/// A property value made of readable parts (see `plain_part`), written as
/// the writer writes it and followed by `;`, reads back as the same value,
/// and reading ends at the `;`.
pub proof fn law_value_round_trip(t: Seq<char>, i: int, ps: Seq<PartV>)
    requires
        ps.len() >= 1,
        forall|m: int| 0 <= m < ps.len() ==> plain_part(#[trigger] ps[m]),
        0 <= i,
        i + value_text(ps).len() < t.len(),
        t.subrange(i, i + value_text(ps).len()) == value_text(ps),
        t[i + value_text(ps).len()] == ';',
    ensures
        prop_value(t, i) == Some((ps, i + value_text(ps).len())),
{
    let w = value_text(ps);
    let first = part_text(ps[0]);
    lemma_parts_text_prefix(ps, 1, ps.len() as int);
    assert(parts_text(ps, 1) == parts_text(ps, 0) + Seq::<char>::empty() + first);
    assert(parts_text(ps, 1) =~= first);
    assert(t.subrange(i, i + first.len()) =~= first) by {
        assert forall|x: int| 0 <= x < first.len() implies t.subrange(i, i + first.len())[x]
            == first[x] by {
            assert(t[i + x] == w[x]);
            assert(w.subrange(0, first.len() as int)[x] == first[x]);
        }
    }
    assert(plain_part(ps[0]));
    if ps.len() > 1 {
        lemma_parts_text_prefix(ps, 2, ps.len() as int);
        let nn = parts_text(ps, 2);
        assert(nn == parts_text(ps, 1) + seq![',', ' '] + part_text(ps[1]));
        assert(t[i + first.len()] == w[first.len() as int]);
        assert(w.subrange(0, nn.len() as int)[first.len() as int] == nn[first.len() as int]);
    }
    lemma_plain_part_read(t, i, ps[0]);
    lemma_parts_read(t, i, ps, 1);
    assert(ps.take(1) =~= seq![ps[0]]);
}

/// A label the reader gives back: an identifier.
pub open spec fn readable_label(l: Seq<char>) -> bool {
    l.len() >= 1 && is_ident_start(l[0]) && forall|j: int|
        1 <= j < l.len() ==> in_class(Class::IdentRest, #[trigger] l[j])
}

/// A property the reader gives back as written: labels that are
/// identifiers, a well-formed name, and no value or a value of readable
/// parts.
pub open spec fn readable_property(p: PropV) -> bool {
    &&& forall|j: int| 0 <= j < p.labels.len() ==> readable_label(#[trigger] p.labels[j])
    &&& p.name.len() >= 1
    &&& is_prop_name_start(p.name[0])
    &&& forall|j: int| 1 <= j < p.name.len() ==> in_class(Class::PropNameRest, #[trigger] p.name[j])
    &&& match p.value {
        Some(v) => v.len() >= 1 && forall|m: int| 0 <= m < v.len() ==> plain_part(#[trigger] v[m]),
        None => true,
    }
}

/// The text of the first `m` labels begins the text of the first `n`.
pub(crate) proof fn lemma_labels_text_take(ls: Seq<Seq<char>>, j: int)
    requires
        0 <= j < ls.len(),
    ensures
        labels_text(ls.take(j + 1)) == labels_text(ls.take(j)) + ls[j] + seq![':', ' '],
{
    assert(ls.take(j + 1).drop_last() =~= ls.take(j));
    assert(ls.take(j + 1).last() == ls[j]);
}

pub(crate) proof fn lemma_labels_text_prefix(ls: Seq<Seq<char>>, m: int, n: int)
    requires
        0 <= m <= n <= ls.len(),
    ensures
        labels_text(ls.take(m)).len() <= labels_text(ls.take(n)).len(),
        labels_text(ls.take(n)).subrange(0, labels_text(ls.take(m)).len() as int) == labels_text(
            ls.take(m),
        ),
    decreases n - m,
{
    if m < n {
        lemma_labels_text_prefix(ls, m, n - 1);
        lemma_labels_text_take(ls, n - 1);
        let a = labels_text(ls.take(m));
        let b = labels_text(ls.take(n - 1));
        let c = labels_text(ls.take(n));
        assert(c.subrange(0, a.len() as int) =~= a) by {
            assert forall|x: int| 0 <= x < a.len() implies c.subrange(0, a.len() as int)[x] == a[x] by {
                assert(c[x] == b[x]);
                assert(b.subrange(0, a.len() as int)[x] == a[x]);
            }
        }
    } else {
        assert(labels_text(ls.take(n)).subrange(0, labels_text(ls.take(n)).len() as int)
            =~= labels_text(ls.take(n)));
    }
}

/// The text after a property's labels: the name, ` = value` when there
/// is a value, and `;` and a line feed.
pub open spec fn after_labels(p: PropV) -> Seq<char> {
    p.name + match p.value {
        Some(v) => seq![' ', '=', ' '] + value_text(v),
        None => Seq::empty(),
    } + seq![';', '\n']
}

pub(crate) proof fn lemma_prop_line_parts(p: PropV)
    ensures
        prop_line(p, Seq::empty()) == labels_text(p.labels) + after_labels(p),
{
    let rest = match p.value {
        Some(v) => seq![' ', '=', ' '] + value_text(v),
        None => Seq::<char>::empty(),
    };
    assert(seq![' ', '='] + seq![' '] =~= seq![' ', '=', ' ']);
    assert(prop_line(p, Seq::empty()) =~= labels_text(p.labels) + after_labels(p));
}

/// Where the name of a written property starts, no label is read.
proof fn lemma_name_is_no_label(t: Seq<char>, pos: int, p: PropV)
    requires
        readable_property(p),
        0 <= pos,
        pos + after_labels(p).len() <= t.len(),
        t.subrange(pos, pos + after_labels(p).len()) == after_labels(p),
    ensures
        label_def(t, pos) is None,
{
    let a = after_labels(p);
    let ne = pos + p.name.len();
    assert forall|x: int| pos <= x < ne implies #[trigger] t[x] == p.name[x - pos] by {
        assert(t[x] == a[x - pos]);
    }
    assert(t[ne] == a[p.name.len() as int]);
    assert(t[ne] == ' ' || t[ne] == ';');
    if let Some(q) = ident(t, pos) {
        lemma_span(t, pos + 1, Class::IdentRest);
        if q > ne {
            assert(in_class(Class::IdentRest, t[ne]));
        }
        if q < ne {
            assert(!in_class(Class::IdentRest, t[q]));
            assert(ws(t, q) == q);
        } else {
            if t[ne] == ' ' {
                assert(t[ne + 1] == a[p.name.len() + 1int]);
                assert(t[ne + 1] == '=');
                assert(ws(t, ne + 1) == ne + 1);
                assert(ws(t, ne) == ne + 1);
            } else {
                assert(ws(t, ne) == ne);
            }
        }
    }
}

/// Reading the labels written in `t` from label `j` on gives the rest of
/// them and stops where the property's name starts.
pub(crate) proof fn lemma_labels_read(t: Seq<char>, i: int, p: PropV, j: int)
    requires
        readable_property(p),
        0 <= i,
        0 <= j <= p.labels.len(),
        i + prop_line(p, Seq::empty()).len() <= t.len(),
        t.subrange(i, i + prop_line(p, Seq::empty()).len()) == prop_line(p, Seq::empty()),
    ensures
        labels(t, i + labels_text(p.labels.take(j)).len(), p.labels.take(j)) == (
            p.labels,
            i + labels_text(p.labels).len(),
        ),
{
    let lt = labels_text(p.labels);
    let a = after_labels(p);
    lemma_prop_line_parts(p);
    lemma_sub_split(t, i, lt, a);
    let e = i + lt.len();
    lemma_name_is_no_label(t, e, p);
    lemma_sub_at(t, e, a, 0);
    assert(a[0] == p.name[0]);
    lemma_labels_read_at(t, i, p.labels, j);
}

/// The text after the labels stands in `t` right after them.
pub(crate) proof fn lemma_after_labels_at(t: Seq<char>, i: int, p: PropV)
    requires
        0 <= i,
        i + prop_line(p, Seq::empty()).len() <= t.len(),
        t.subrange(i, i + prop_line(p, Seq::empty()).len()) == prop_line(p, Seq::empty()),
    ensures
        i + labels_text(p.labels).len() + after_labels(p).len() <= t.len(),
        t.subrange(
            i + labels_text(p.labels).len(),
            i + labels_text(p.labels).len() + after_labels(p).len(),
        ) == after_labels(p),
{
    let w = prop_line(p, Seq::empty());
    let lt = labels_text(p.labels);
    let a = after_labels(p);
    lemma_prop_line_parts(p);
    let i1 = i + lt.len();
    assert(t.subrange(i1, i1 + a.len()) =~= a) by {
        assert forall|x: int| 0 <= x < a.len() implies t.subrange(i1, i1 + a.len())[x] == a[x] by {
            assert(t[i1 + x] == w[lt.len() + x]);
        }
    }
}

/// The name written at `i1` is read as a property name that ends where
/// the written name ends.
proof fn lemma_name_read(t: Seq<char>, i1: int, p: PropV)
    requires
        readable_property(p),
        0 <= i1,
        i1 + after_labels(p).len() <= t.len(),
        t.subrange(i1, i1 + after_labels(p).len()) == after_labels(p),
    ensures
        prop_name(t, i1) == Some(i1 + p.name.len()),
        t.subrange(i1, i1 + p.name.len()) == p.name,
{
    let a = after_labels(p);
    let ne = i1 + p.name.len();
    assert forall|x: int| 0 <= x < a.len() implies #[trigger] t[i1 + x] == a[x] by {
        assert(t.subrange(i1, i1 + a.len())[x] == a[x]);
    }
    assert(t[i1 + 0] == a[0]);
    assert forall|x: int| i1 + 1 <= x < ne implies in_class(Class::PropNameRest, #[trigger] t[x]) by {
        assert(t[i1 + (x - i1)] == a[x - i1]);
    }
    assert(t[i1 + p.name.len()] == a[p.name.len() as int]);
    lemma_span_over(t, i1 + 1, ne, Class::PropNameRest);
    assert(t.subrange(i1, ne) =~= p.name) by {
        assert forall|x: int| 0 <= x < p.name.len() implies t.subrange(i1, ne)[x] == p.name[x] by {
            assert(t[i1 + x] == a[x]);
        }
    }
}

/// After a written name: ` = ` and the value read back, then `;`; or `;`
/// at once where there is no value.
proof fn lemma_after_name_read(t: Seq<char>, i1: int, p: PropV)
    requires
        readable_property(p),
        0 <= i1,
        i1 + after_labels(p).len() <= t.len(),
        t.subrange(i1, i1 + after_labels(p).len()) == after_labels(p),
    ensures
        ({
            let ne = i1 + p.name.len();
            match p.value {
                Some(v) => {
                    &&& ws(t, ne) == ne + 1
                    &&& at(t, ne + 1, '=')
                    &&& ws(t, ne + 2) == ne + 3
                    &&& prop_value(t, ne + 3) == Some((v, ne + 3 + value_text(v).len()))
                    &&& ws(t, ne + 3 + value_text(v).len()) == ne + 3 + value_text(v).len()
                    &&& at(t, ne + 3 + value_text(v).len(), ';')
                    &&& i1 + after_labels(p).len() == ne + 3 + value_text(v).len() + 2
                },
                None => {
                    &&& ws(t, ne) == ne
                    &&& at(t, ne, ';')
                    &&& i1 + after_labels(p).len() == ne + 2
                },
            }
        }),
{
    let a = after_labels(p);
    let ne = i1 + p.name.len();
    let nl = p.name.len() as int;
    assert forall|x: int| 0 <= x < a.len() implies #[trigger] t[i1 + x] == a[x] by {
        assert(t.subrange(i1, i1 + a.len())[x] == a[x]);
    }
    match p.value {
        Some(v) => {
            let vt = value_text(v);
            let vs = ne + 3;
            assert(t[i1 + nl] == a[nl]);
            assert(t[i1 + (nl + 1)] == a[nl + 1]);
            assert(t[i1 + (nl + 2)] == a[nl + 2]);
            assert(t[ne] == ' ');
            assert(t[ne + 1] == '=');
            assert(t[ne + 2] == ' ');
            assert(ws(t, ne + 1) == ne + 1);
            assert(ws(t, ne) == ne + 1);
            assert(t.subrange(vs, vs + vt.len()) =~= vt) by {
                assert forall|x: int| 0 <= x < vt.len() implies t.subrange(vs, vs + vt.len())[x]
                    == vt[x] by {
                    assert(t[i1 + (nl + 3 + x)] == a[nl + 3 + x]);
                }
            }
            assert(t[i1 + (nl + 3 + vt.len())] == a[nl + 3 + vt.len()]);
            assert(plain_part(v[0]));
            lemma_parts_text_prefix(v, 1, v.len() as int);
            assert(parts_text(v, 0) == Seq::<char>::empty());
            assert(parts_text(v, 1) =~= part_text(v[0]));
            lemma_plain_part_first(v[0]);
            assert(vt.subrange(0, parts_text(v, 1).len() as int)[0] == parts_text(v, 1)[0]);
            assert(t[vs] == vt[0]);
            assert(ws(t, vs) == vs);
            assert(ws(t, ne + 2) == vs);
            law_value_round_trip(t, vs, v);
            assert(ws(t, vs + vt.len()) == vs + vt.len());
        },
        None => {
            assert(t[i1 + nl] == a[nl]);
            assert(t[ne] == ';');
            assert(ws(t, ne) == ne);
        },
    }
}

/// A property written on its line reads back as the same property: its
/// labels, its name and its value, and reading ends right after the `;`.
pub proof fn law_property_round_trip(t: Seq<char>, i: int, p: PropV)
    requires
        readable_property(p),
        0 <= i,
        i + prop_line(p, Seq::empty()).len() <= t.len(),
        t.subrange(i, i + prop_line(p, Seq::empty()).len()) == prop_line(p, Seq::empty()),
    ensures
        property(t, i) == Outcome::Done(p, i + prop_line(p, Seq::empty()).len() - 1),
{
    lemma_prop_line_parts(p);
    lemma_labels_read(t, i, p, 0);
    assert(p.labels.take(0) =~= Seq::<Seq<char>>::empty());
    assert(labels_text(Seq::<Seq<char>>::empty()).len() == 0);
    let i1 = i + labels_text(p.labels).len();
    lemma_after_labels_at(t, i, p);
    lemma_name_read(t, i1, p);
    lemma_after_name_read(t, i1, p);
}

/// The first character of a readable part opens it.
proof fn lemma_plain_part_first(p: PartV)
    requires
        plain_part(p),
    ensures
        part_text(p).len() >= 1,
        part_text(p)[0] == '"' || part_text(p)[0] == '[' || part_text(p)[0] == '<'
            || part_text(p)[0] == '&',
{
    reveal_strlit("&");
    reveal_strlit("&{");
}

/// Decimal digits read the same whatever follows them.
proof fn lemma_dec_digits_prefix(s: Seq<char>, x: Seq<char>, a: int, b: int)
    requires
        0 <= a <= b <= s.len(),
    ensures
        dec_digits_val(s + x, a, b) == dec_digits_val(s, a, b),
    decreases b - a,
{
    if a < b {
        lemma_dec_digits_prefix(s, x, a, b - 1);
        assert((s + x)[b - 1] == s[b - 1]);
    }
}

/// The decimal text of a number is made of digits only.
proof fn lemma_dec_str_digits(n: nat)
    ensures
        dec_str(n).len() >= 1,
        forall|j: int| 0 <= j < dec_str(n).len() ==> is_digit(#[trigger] dec_str(n)[j]),
    decreases n,
{
    if n < 10 {
        assert((('0' as nat) + n) as char as nat == ('0' as nat) + n);
    } else {
        lemma_dec_str_digits(n / 10);
        let d = n % 10;
        assert((('0' as nat) + d) as char as nat == ('0' as nat) + d);
        let p = dec_str(n / 10);
        assert forall|j: int| 0 <= j < dec_str(n).len() implies is_digit(#[trigger] dec_str(n)[j]) by {
            if j < p.len() {
                assert(dec_str(n)[j] == p[j]);
            }
        }
    }
}

/// Reading the decimal text of any number gives that number: each digit
/// counts ten times the one after it.
pub proof fn law_decimal_text_value(n: nat)
    ensures
        dec_digits_val(dec_str(n), 0, dec_str(n).len() as int) == n,
    decreases n,
{
    if n < 10 {
        assert((('0' as nat) + n) as char as nat == ('0' as nat) + n);
        assert(dec_digits_val(dec_str(n), 0, 0) == 0);
    } else {
        law_decimal_text_value(n / 10);
        let p = dec_str(n / 10);
        let d = n % 10;
        let c = dec_char(d);
        assert(dec_str(n) == p.push(c));
        assert(p.push(c) =~= p + seq![c]);
        lemma_dec_digits_prefix(p, seq![c], 0, p.len() as int);
        assert((('0' as nat) + d) as char as nat == ('0' as nat) + d);
        assert(dec_str(n)[p.len() as int] == c);
        assert(n == (n / 10) * 10 + d);
    }
}

/// The reader's decimal integer, at the decimal text of a number that fits
/// in 64 bits and is not followed by a digit, is that number, and it ends
/// where the text ends.
pub proof fn law_dec_integer_reads_decimal_text(n: u64, x: Seq<char>)
    requires
        x.len() == 0 || !is_digit(x[0]),
    ensures
        dec_integer(dec_str(n as nat) + x, 0) == Some((n, dec_str(n as nat).len() as int)),
{
    let d = dec_str(n as nat);
    let t = d + x;
    lemma_dec_str_digits(n as nat);
    law_decimal_text_value(n as nat);
    lemma_dec_digits_prefix(d, x, 0, d.len() as int);
    assert forall|j: int| 0 <= j < d.len() implies in_class(Class::Digit, #[trigger] t[j]) by {
        assert(t[j] == d[j]);
    }
    if x.len() > 0 {
        assert(t[d.len() as int] == x[0]);
    }
    lemma_span_over(t, 0, d.len() as int, Class::Digit);
}

} // verus!

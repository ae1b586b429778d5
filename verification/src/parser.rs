//! The device tree source parser: each function here computes the grammar
//! function of the same name in `grammar`.
use vstd::prelude::*;
use crate::grammar::{
    apply_top, c_include, dts_include, file, file_items, keyword_semi, memreserve, merge_labels,
    merge_node_v, preprocessor, reference_node, root_node, top_delete_node, top_item, TopV,
    add_item, body, child_node, delete_node, delete_property, node_close, node_item, property,
    unit_address, ItemV, at, balanced, byte_string, cell, cell_array, cells, char_literal, dec_digits_val, dec_integer,
    has_hex_digit, hex_byte, hex_bytes, hex_digits_val, hex_integer, integer, lemma_balanced,
    prop_value, value_part, value_rest, delimited_string, find_char, find_comment_end, hex_escape, ident, in_class, label_def,
    labels, lemma_find_char, lemma_find_comment_end, lemma_names, lemma_reference, lemma_span,
    lemma_str_body, lemma_ws, node_name, prop_name, reference, simple_escape, span, starts,
    str_body, string_literal, ws, Class, ErrKind, Outcome,
};
use crate::model::{
    empty_tree_v, DeviceTree, DtsVersion, Include, IncludeKind, MemoryReservation, ReferenceNode,
    bare_node_v, node_v, opt_str_v, props_v, Node, Property, cells_v, strs_v, Cell, CellV, PropertyValue, Reference, ValuePart,
};
use crate::error::{
    byte_index, byte_position, bytes_in, friendly_error_message, has_trailing, lemma_byte_index,
    lemma_bytes_len_parts, location, location_at, syntax_message, trailing_offset, trim_end,
    trim_start, ErrorKindV, ParseError, ParseErrorKind, ParseErrorV, lemma_bytes_len_step,
};
use crate::model::TreeV;
use crate::text::{bytes_len, char_utf8_len, unicode_ws,is_hex, alnum, alpha, digit, hex_digit, hex_value, multispace, substring, to_chars};

verus! {

/// The outcome of a parse.
pub enum Parsed<T> {
    Done(T, usize),
    Backtrack,
    Cut(usize, ErrKind),
}

/// `r` is the executable form of the grammar outcome `o`, with values related by `f`.
pub open spec fn parsed_is<T, V>(r: Parsed<T>, o: Outcome<V>, f: spec_fn(T) -> V) -> bool {
    match (r, o) {
        (Parsed::Done(t, j), Outcome::Done(v, k)) => f(t) == v && j == k,
        (Parsed::Backtrack, Outcome::Backtrack) => true,
        (Parsed::Cut(p, e), Outcome::Cut(q, g)) => p == q && e == g,
        _ => false,
    }
}

/// `r` is the executable form of the optional grammar result `o`.
pub open spec fn opt_is<T, V>(r: Option<(T, usize)>, o: Option<(V, int)>, f: spec_fn(T) -> V) -> bool {
    match (r, o) {
        (Some((t, j)), Some((v, k))) => f(t) == v && j == k,
        (None, None) => true,
        _ => false,
    }
}

pub open spec fn opt_pos(r: Option<usize>) -> Option<int> {
    match r {
        Some(j) => Some(j as int),
        None => None,
    }
}

pub fn class_has(k: Class, c: char) -> (b: bool)
    ensures
        b == in_class(k, c),
{
    match k {
        Class::IdentRest => alnum(c) || c == '_',
        Class::NodeNameRest => alnum(c) || c == ',' || c == '.' || c == '_' || c == '+' || c == '-'
            || c == '#',
        Class::PropNameRest => alnum(c) || c == ',' || c == '.' || c == '_' || c == '+' || c == '-'
            || c == '?' || c == '#',
        Class::UnitAddress => alnum(c) || c == ',' || c == '.' || c == '_',
        Class::HexOrUnderscore => hex_digit(c) || c == '_',
        Class::Digit => digit(c),
        Class::NotLineFeed => c != '\n',
        Class::NotLineEnd => c != '\n' && c != '\r',
        Class::Blank => c == ' ' || c == '\t',
    }
}

pub fn char_at(s: &Vec<char>, i: usize, c: char) -> (b: bool)
    ensures
        b == at(s@, i as int, c),
{
    i < s.len() && s[i] == c
}

pub fn scan(s: &Vec<char>, i: usize, k: Class) -> (j: usize)
    requires
        i <= s.len(),
    ensures
        j == span(s@, i as int, k),
{
    let mut j = i;
    while j < s.len() && class_has(k, s[j])
        invariant
            i <= j <= s.len(),
            span(s@, i as int, k) == span(s@, j as int, k),
        decreases s.len() - j,
    {
        j = j + 1;
    }
    j
}

pub fn starts_at(s: &Vec<char>, i: usize, p: &str) -> (b: bool)
    ensures
        b == starts(s@, i as int, p@),
{
    let pv = to_chars(p);
    if i > s.len() || s.len() - i < pv.len() {
        return false;
    }
    let mut k: usize = 0;
    while k < pv.len()
        invariant
            k <= pv.len(),
            i + pv.len() <= s.len(),
            pv@ == p@,
            s@.subrange(i as int, i + k) == pv@.subrange(0, k as int),
        decreases pv.len() - k,
    {
        if s[i + k] != pv[k] {
            assert(s@.subrange(i as int, i + pv.len())[k as int] != pv@[k as int]);
            return false;
        }
        k = k + 1;
        assert(s@.subrange(i as int, i + k) =~= pv@.subrange(0, k as int));
    }
    assert(pv@.subrange(0, pv.len() as int) =~= pv@);
    true
}

pub fn find_char_from(s: &Vec<char>, i: usize, c: char) -> (r: Option<usize>)
    ensures
        opt_pos(r) == find_char(s@, i as int, c),
{
    let mut j = i;
    while j < s.len()
        invariant
            i <= j,
            find_char(s@, i as int, c) == find_char(s@, j as int, c),
        decreases s.len() - j,
    {
        if s[j] == c {
            return Some(j);
        }
        j = j + 1;
    }
    None
}

pub fn find_comment_end_from(s: &Vec<char>, i: usize) -> (r: Option<usize>)
    ensures
        opt_pos(r) == find_comment_end(s@, i as int),
{
    let mut j = i;
    while j < s.len() && j + 1 < s.len()
        invariant
            i <= j,
            find_comment_end(s@, i as int) == find_comment_end(s@, j as int),
        decreases s.len() - j,
    {
        if s[j] == '*' && s[j + 1] == '/' {
            return Some(j);
        }
        j = j + 1;
    }
    None
}

/// Skips whitespace and comments.
pub fn skip_ws(s: &Vec<char>, i: usize) -> (j: usize)
    requires
        i <= s.len(),
    ensures
        j == ws(s@, i as int),
        i <= j <= s.len(),
{
    let mut j = i;
    proof {
        lemma_ws(s@, i as int);
    }
    loop
        invariant
            i <= j <= s.len(),
            ws(s@, i as int) == ws(s@, j as int),
        decreases s.len() - j,
    {
        if j >= s.len() {
            return j;
        }
        if multispace(s[j]) {
            j = j + 1;
        } else if char_at(s, j, '/') && char_at(s, j + 1, '/') {
            proof {
                lemma_span(s@, j + 2, Class::NotLineEnd);
            }
            j = scan(s, j + 2, Class::NotLineEnd);
        } else if char_at(s, j, '/') && char_at(s, j + 1, '*') {
            proof {
                lemma_find_comment_end(s@, j + 2);
            }
            match find_comment_end_from(s, j + 2) {
                Some(k) => {
                    j = k + 2;
                },
                None => {
                    return j;
                },
            }
        } else {
            return j;
        }
    }
}

// -------------------------------------------------------------------------
// Names
// -------------------------------------------------------------------------

pub fn p_ident(s: &Vec<char>, i: usize) -> (r: Option<usize>)
    requires
        i <= s.len(),
    ensures
        opt_pos(r) == ident(s@, i as int),
        r matches Some(j) ==> i < j <= s.len(),
{
    proof {
        lemma_names(s@, i as int);
    }
    if i < s.len() && (alpha(s[i]) || s[i] == '_') {
        Some(scan(s, i + 1, Class::IdentRest))
    } else {
        None
    }
}

pub fn p_node_name(s: &Vec<char>, i: usize) -> (r: Option<usize>)
    requires
        i <= s.len(),
    ensures
        opt_pos(r) == node_name(s@, i as int),
        r matches Some(j) ==> i < j <= s.len(),
{
    proof {
        lemma_names(s@, i as int);
    }
    if i < s.len() && (alnum(s[i]) || s[i] == '_') {
        Some(scan(s, i + 1, Class::NodeNameRest))
    } else {
        None
    }
}

pub fn p_prop_name(s: &Vec<char>, i: usize) -> (r: Option<usize>)
    requires
        i <= s.len(),
    ensures
        opt_pos(r) == prop_name(s@, i as int),
        r matches Some(j) ==> i < j <= s.len(),
{
    proof {
        lemma_names(s@, i as int);
    }
    if i < s.len() && (alnum(s[i]) || s[i] == '_' || s[i] == '#') {
        Some(scan(s, i + 1, Class::PropNameRest))
    } else {
        None
    }
}

pub fn p_label_def(s: &Vec<char>, i: usize) -> (r: Option<(String, usize)>)
    requires
        i <= s.len(),
    ensures
        opt_is(r, label_def(s@, i as int), |x: String| x@),
        r matches Some((l, j)) ==> i < j <= s.len(),
{
    match p_ident(s, i) {
        Some(j) => {
            let k = skip_ws(s, j);
            if char_at(s, k, ':') {
                Some((substring(s, i, j), k + 1))
            } else {
                None
            }
        },
        None => None,
    }
}

pub fn p_labels(s: &Vec<char>, i: usize) -> (r: (Vec<String>, usize))
    requires
        i <= s.len(),
    ensures
        labels(s@, i as int, Seq::empty()) == (strs_v(r.0@), r.1 as int),
        i <= r.1 <= s.len(),
{
    let mut acc: Vec<String> = Vec::new();
    let mut j = i;
    assert(strs_v(acc@) =~= Seq::<Seq<char>>::empty());
    loop
        invariant
            i <= j <= s.len(),
            labels(s@, i as int, Seq::empty()) == labels(s@, j as int, strs_v(acc@)),
        decreases s.len() - j,
    {
        match p_label_def(s, j) {
            Some((l, k)) => {
                let ghost old_acc = acc@;
                let m = skip_ws(s, k);
                acc.push(l);
                assert(strs_v(acc@) =~= strs_v(old_acc).push(l@));
                j = m;
            },
            None => {
                return (acc, j);
            },
        }
    }
}

// -------------------------------------------------------------------------
// References and strings
// -------------------------------------------------------------------------

pub fn p_reference(s: &Vec<char>, i: usize) -> (r: Option<(Reference, usize)>)
    requires
        i <= s.len(),
    ensures
        opt_is(r, reference(s@, i as int), |x: Reference| x@),
        r matches Some((x, j)) ==> i < j <= s.len(),
{
    proof {
        lemma_reference(s@, i as int);
    }
    if !char_at(s, i, '&') {
        return None;
    }
    if char_at(s, i + 1, '{') {
        match find_char_from(s, i + 2, '}') {
            Some(k) => {
                proof {
                    lemma_find_char(s@, i + 2, '}');
                }
                return Some((Reference::Path(substring(s, i + 2, k)), k + 1));
            },
            None => {},
        }
    }
    match p_ident(s, i + 1) {
        Some(j) => Some((Reference::Label(substring(s, i + 1, j)), j)),
        None => None,
    }
}

pub fn p_delimited_string(s: &Vec<char>, i: usize) -> (r: Option<(String, usize)>)
    requires
        i <= s.len(),
    ensures
        opt_is(r, delimited_string(s@, i as int), |x: String| x@),
        r matches Some((x, j)) ==> i < j <= s.len(),
{
    if char_at(s, i, '"') {
        match find_char_from(s, i + 1, '"') {
            Some(k) => {
                proof {
                    lemma_find_char(s@, i + 1, '"');
                }
                Some((substring(s, i + 1, k), k + 1))
            },
            None => None,
        }
    } else {
        None
    }
}

pub fn p_hex_escape(s: &Vec<char>, i: usize) -> (r: Option<(u8, usize)>)
    requires
        i <= s.len(),
    ensures
        opt_is(r, hex_escape(s@, i as int), |x: u8| x),
{
    let m: usize = if s.len() - i >= 2 {
        2
    } else {
        s.len() - i
    };
    if m == 0 {
        None
    } else if s[i] == '+' {
        if m == 2 && hex_digit(s[i + 1]) {
            Some((hex_value(s[i + 1]), i + 2))
        } else {
            None
        }
    } else if m == 1 {
        if hex_digit(s[i]) {
            Some((hex_value(s[i]), i + 1))
        } else {
            None
        }
    } else if hex_digit(s[i]) && hex_digit(s[i + 1]) {
        let a = hex_value(s[i]);
        let b = hex_value(s[i + 1]);
        Some((a * 16 + b, i + 2))
    } else {
        None
    }
}

pub fn p_simple_escape(c: char) -> (r: Option<char>)
    ensures
        r == simple_escape(c),
{
    if c == 'n' {
        Some('\n')
    } else if c == 't' {
        Some('\t')
    } else if c == 'r' {
        Some('\r')
    } else if c == '\\' {
        Some('\\')
    } else if c == '"' {
        Some('"')
    } else if c == '0' {
        Some('\0')
    } else {
        None
    }
}

pub fn p_string_literal(s: &Vec<char>, i: usize) -> (r: Option<(String, usize)>)
    requires
        i <= s.len(),
    ensures
        opt_is(r, string_literal(s@, i as int), |x: String| x@),
        r matches Some((x, j)) ==> i < j <= s.len(),
{
    if !char_at(s, i, '"') {
        return None;
    }
    proof {
        lemma_str_body(s@, i + 1, Seq::empty());
    }
    let mut acc = String::new();
    let mut j = i + 1;
    while j < s.len()
        invariant
            i < j <= s.len(),
            at(s@, i as int, '"'),
            str_body(s@, i + 1, Seq::empty()) == str_body(s@, j as int, acc@),
        decreases s.len() - j,
    {
        let c = s[j];
        if c == '"' {
            return Some((acc, j + 1));
        } else if c == '\\' {
            if j + 1 >= s.len() {
                return None;
            }
            let d = s[j + 1];
            match p_simple_escape(d) {
                Some(e) => {
                    acc.push(e);
                    j = j + 2;
                },
                None => {
                    if d == 'x' {
                        match p_hex_escape(s, j + 2) {
                            Some((b, k)) => {
                                if k > j {
                                    acc.push(b as char);
                                    j = k;
                                } else {
                                    return None;
                                }
                            },
                            None => {
                                j = j + 2;
                            },
                        }
                    } else {
                        acc.push(d);
                        j = j + 2;
                    }
                },
            }
        } else {
            acc.push(c);
            j = j + 1;
        }
    }
    None
}


// -------------------------------------------------------------------------
// Numbers
// -------------------------------------------------------------------------

pub fn p_hex_integer(s: &Vec<char>, i: usize) -> (r: Option<(u64, usize)>)
    requires
        i <= s.len(),
    ensures
        opt_is(r, hex_integer(s@, i as int), |x: u64| x),
        r matches Some((v, j)) ==> i < j <= s.len(),
{
    if !(char_at(s, i, '0') && (char_at(s, i + 1, 'x') || char_at(s, i + 1, 'X'))) {
        return None;
    }
    let a = i + 2;
    let j = scan(s, a, Class::HexOrUnderscore);
    proof {
        lemma_span(s@, a as int, Class::HexOrUnderscore);
    }
    if j == a {
        return None;
    }
    let mut val: u64 = 0;
    let mut over = false;
    let mut seen_digit = false;
    let mut k = a;
    while k < j
        invariant
            a <= k <= j <= s.len(),
            j == span(s@, a as int, Class::HexOrUnderscore),
            forall|m: int| a <= m < j ==> in_class(Class::HexOrUnderscore, #[trigger] s@[m]),
            !over ==> val == hex_digits_val(s@, a as int, k as int),
            over ==> hex_digits_val(s@, a as int, k as int) > u64::MAX,
            seen_digit == has_hex_digit(s@, a as int, k as int),
        decreases j - k,
    {
        let c = s[k];
        assert(in_class(Class::HexOrUnderscore, s@[k as int]));
        if c != '_' {
            let d = hex_value(c) as u64;
            if !over {
                match val.checked_mul(16) {
                    Some(m) => match m.checked_add(d) {
                        Some(v2) => {
                            val = v2;
                        },
                        None => {
                            over = true;
                        },
                    },
                    None => {
                        over = true;
                    },
                }
            }
            assert(has_hex_digit(s@, a as int, k + 1)) by {
                assert(is_hex(s@[k as int]));
            }
            seen_digit = true;
        } else {
            assert(has_hex_digit(s@, a as int, k + 1) == has_hex_digit(s@, a as int, k as int)) by {
                if has_hex_digit(s@, a as int, k + 1) {
                    let w = choose|w: int| a <= w < k + 1 && is_hex(s@[w]);
                    assert(w != k);
                    assert(a <= w < k && is_hex(s@[w]));
                }
                if has_hex_digit(s@, a as int, k as int) {
                    let w = choose|w: int| a <= w < k && is_hex(s@[w]);
                    assert(a <= w < k + 1 && is_hex(s@[w]));
                }
            }
        }
        k = k + 1;
    }
    if !seen_digit || over {
        return None;
    }
    Some((val, j))
}

pub fn p_dec_integer(s: &Vec<char>, i: usize) -> (r: Option<(u64, usize)>)
    requires
        i <= s.len(),
    ensures
        opt_is(r, dec_integer(s@, i as int), |x: u64| x),
        r matches Some((v, j)) ==> i < j <= s.len(),
{
    let j = scan(s, i, Class::Digit);
    proof {
        lemma_span(s@, i as int, Class::Digit);
    }
    if j == i {
        return None;
    }
    let mut val: u64 = 0;
    let mut over = false;
    let mut k = i;
    while k < j
        invariant
            i <= k <= j <= s.len(),
            j == span(s@, i as int, Class::Digit),
            forall|m: int| i <= m < j ==> in_class(Class::Digit, #[trigger] s@[m]),
            !over ==> val == dec_digits_val(s@, i as int, k as int),
            over ==> dec_digits_val(s@, i as int, k as int) > u64::MAX,
        decreases j - k,
    {
        let c = s[k];
        assert(in_class(Class::Digit, s@[k as int]));
        let d = (c as u32 - '0' as u32) as u64;
        if !over {
            match val.checked_mul(10) {
                Some(m) => match m.checked_add(d) {
                    Some(v2) => {
                        val = v2;
                    },
                    None => {
                        over = true;
                    },
                },
                None => {
                    over = true;
                },
            }
        }
        k = k + 1;
    }
    if over {
        return None;
    }
    Some((val, j))
}

pub fn p_integer(s: &Vec<char>, i: usize) -> (r: Option<(u64, usize)>)
    requires
        i <= s.len(),
    ensures
        opt_is(r, integer(s@, i as int), |x: u64| x),
        r matches Some((v, j)) ==> i < j <= s.len(),
{
    match p_hex_integer(s, i) {
        Some(r) => Some(r),
        None => p_dec_integer(s, i),
    }
}

// -------------------------------------------------------------------------
// Cells, byte strings, values
// -------------------------------------------------------------------------

/// The text up to the parenthesis that closes the one just before `i`.
pub fn p_balanced(s: &Vec<char>, i: usize) -> (r: Option<(String, usize)>)
    requires
        1 <= i <= s.len(),
    ensures
        opt_is(r, balanced(s@, i as int, 1, Seq::empty()), |x: String| x@),
        r matches Some((x, j)) ==> i < j <= s.len(),
{
    proof {
        lemma_balanced(s@, i as int, 1, Seq::empty());
    }
    let mut acc = String::new();
    let mut depth: usize = 1;
    let mut j = i;
    while j < s.len()
        invariant
            1 <= i <= j <= s.len(),
            1 <= depth <= j - i + 1,
            balanced(s@, i as int, 1, Seq::empty()) == balanced(s@, j as int, depth as nat, acc@),
        decreases s.len() - j,
    {
        let c = s[j];
        if c == '(' {
            acc.push('(');
            depth = depth + 1;
        } else if c == ')' {
            if depth <= 1 {
                return Some((acc, j + 1));
            }
            acc.push(')');
            depth = depth - 1;
        } else {
            acc.push(c);
        }
        j = j + 1;
    }
    None
}

pub fn p_char_literal(s: &Vec<char>, i: usize) -> (r: Option<(u64, usize)>)
    requires
        i <= s.len(),
    ensures
        opt_is(r, char_literal(s@, i as int), |x: u64| x),
        r matches Some((v, j)) ==> i < j <= s.len(),
{
    if char_at(s, i, '\'') && i + 1 < s.len() && s[i + 1] != '\'' && char_at(s, i + 2, '\'') {
        Some((s[i + 1] as u64, i + 3))
    } else {
        None
    }
}

pub fn p_cell(s: &Vec<char>, i: usize) -> (r: Option<(Cell, usize)>)
    requires
        i <= s.len(),
    ensures
        opt_is(r, cell(s@, i as int), |x: Cell| x@),
        r matches Some((v, j)) ==> i < j <= s.len(),
{
    match p_reference(s, i) {
        Some((x, j)) => {
            return Some((Cell::Reference(x), j));
        },
        None => {},
    }
    if char_at(s, i, '(') {
        match p_balanced(s, i + 1) {
            Some((e, j)) => {
                return Some((Cell::Expression(e), j));
            },
            None => {},
        }
    }
    match p_ident(s, i) {
        Some(n) => {
            if char_at(s, n, '(') {
                match p_balanced(s, n + 1) {
                    Some((a, j)) => {
                        return Some((Cell::Macro(substring(s, i, n), a), j));
                    },
                    None => {},
                }
            }
        },
        None => {},
    }
    match p_char_literal(s, i) {
        Some((v, j)) => {
            return Some((Cell::Literal(v), j));
        },
        None => {},
    }
    match p_integer(s, i) {
        Some((v, j)) => Some((Cell::Literal(v), j)),
        None => None,
    }
}

pub fn p_cell_array(s: &Vec<char>, i: usize) -> (r: Option<(Vec<Cell>, usize)>)
    requires
        i <= s.len(),
    ensures
        opt_is(r, cell_array(s@, i as int), |x: Vec<Cell>| cells_v(x@)),
        r matches Some((v, j)) ==> i < j <= s.len(),
{
    if !char_at(s, i, '<') {
        return None;
    }
    let mut acc: Vec<Cell> = Vec::new();
    let mut j = i + 1;
    assert(cells_v(acc@) =~= Seq::<CellV>::empty());
    loop
        invariant
            i < j <= s.len(),
            at(s@, i as int, '<'),
            cells(s@, i + 1, Seq::empty()) == cells(s@, j as int, cells_v(acc@)),
        decreases s.len() - j,
    {
        let k = skip_ws(s, j);
        match p_cell(s, k) {
            Some((c, e)) => {
                let ghost old_acc = acc@;
                acc.push(c);
                assert(cells_v(acc@) =~= cells_v(old_acc).push(c@));
                j = e;
            },
            None => {
                let k2 = skip_ws(s, j);
                if char_at(s, k2, '>') {
                    return Some((acc, k2 + 1));
                } else {
                    return None;
                }
            },
        }
    }
}

pub fn p_hex_byte(s: &Vec<char>, i: usize) -> (r: Option<(u8, usize)>)
    requires
        i <= s.len(),
    ensures
        opt_is(r, hex_byte(s@, i as int), |x: u8| x),
        r matches Some((v, j)) ==> i < j <= s.len(),
{
    if i < s.len() && i + 1 < s.len() && hex_digit(s[i]) && hex_digit(s[i + 1]) {
        let a = hex_value(s[i]);
        let b = hex_value(s[i + 1]);
        Some((a * 16 + b, i + 2))
    } else {
        None
    }
}

pub fn p_byte_string(s: &Vec<char>, i: usize) -> (r: Option<(Vec<u8>, usize)>)
    requires
        i <= s.len(),
    ensures
        opt_is(r, byte_string(s@, i as int), |x: Vec<u8>| x@),
        r matches Some((v, j)) ==> i < j <= s.len(),
{
    if !char_at(s, i, '[') {
        return None;
    }
    let mut acc: Vec<u8> = Vec::new();
    let mut j = i + 1;
    loop
        invariant
            i < j <= s.len(),
            at(s@, i as int, '['),
            hex_bytes(s@, i + 1, Seq::empty()) == hex_bytes(s@, j as int, acc@),
        decreases s.len() - j,
    {
        let k = skip_ws(s, j);
        match p_hex_byte(s, k) {
            Some((b, e)) => {
                acc.push(b);
                j = e;
            },
            None => {
                if char_at(s, k, ']') {
                    return Some((acc, k + 1));
                } else {
                    return None;
                }
            },
        }
    }
}

pub fn p_value_part(s: &Vec<char>, i: usize) -> (r: Option<(ValuePart, usize)>)
    requires
        i <= s.len(),
    ensures
        opt_is(r, value_part(s@, i as int), |x: ValuePart| x@),
        r matches Some((v, j)) ==> i < j <= s.len(),
{
    match p_string_literal(s, i) {
        Some((v, j)) => {
            return Some((ValuePart::StringLiteral(v), j));
        },
        None => {},
    }
    match p_cell_array(s, i) {
        Some((v, j)) => {
            return Some((ValuePart::CellArray(v), j));
        },
        None => {},
    }
    match p_byte_string(s, i) {
        Some((v, j)) => {
            return Some((ValuePart::ByteString(v), j));
        },
        None => {},
    }
    match p_reference(s, i) {
        Some((v, j)) => Some((ValuePart::Reference(v), j)),
        None => None,
    }
}

pub fn p_prop_value(s: &Vec<char>, i: usize) -> (r: Option<(PropertyValue, usize)>)
    requires
        i <= s.len(),
    ensures
        opt_is(r, prop_value(s@, i as int), |x: PropertyValue| x@),
        r matches Some((v, j)) ==> i < j <= s.len(),
{
    let (first, j0) = match p_value_part(s, i) {
        Some(x) => x,
        None => {
            return None;
        },
    };
    let mut acc: Vec<ValuePart> = Vec::new();
    acc.push(first);
    let ghost pv = |x: ValuePart| x@;
    assert(acc@.map_values(pv) =~= seq![first@]);
    let mut j = j0;
    loop
        invariant
            i < j0 <= j <= s.len(),
            value_part(s@, i as int) == Some((first@, j0 as int)),
            value_rest(s@, j0 as int, seq![first@]) == value_rest(s@, j as int, acc@.map_values(pv)),
            pv == (|x: ValuePart| x@),
        decreases s.len() - j,
    {
        let k = skip_ws(s, j);
        if char_at(s, k, ',') {
            let m = skip_ws(s, k + 1);
            match p_value_part(s, m) {
                Some((p, e)) => {
                    let ghost old_acc = acc@;
                    acc.push(p);
                    assert(acc@.map_values(pv) =~= old_acc.map_values(pv).push(p@));
                    j = e;
                },
                None => {
                    return Some((PropertyValue(acc), j));
                },
            }
        } else {
            return Some((PropertyValue(acc), j));
        }
    }
}


// -------------------------------------------------------------------------
// Nodes and properties
// -------------------------------------------------------------------------

/// An item of a node body.
pub enum Item {
    Prop(Property),
    Child(Node),
    DeleteProp(String),
    DeleteNode(String),
}

impl View for Item {
    type V = ItemV;

    open spec fn view(&self) -> ItemV {
        match self {
            Item::Prop(p) => ItemV::Prop(p@),
            Item::Child(n) => ItemV::Child(n@),
            Item::DeleteProp(x) => ItemV::DeleteProp(x@),
            Item::DeleteNode(x) => ItemV::DeleteNode(x@),
        }
    }
}

pub fn push_item(n: &mut Node, it: Item)
    ensures
        final(n)@ == add_item(old(n)@, it@),
{
    let ghost old_n = *n;
    match it {
        Item::Prop(p) => {
            n.properties.push(p);
            assert(props_v(n.properties@) =~= props_v(old_n.properties@).push(p@));
        },
        Item::Child(c) => {
            n.children.push(c);
            assert(node_v(*n).children =~= node_v(old_n).children.push(c@));
        },
        Item::DeleteProp(x) => {
            n.deleted_properties.push(x);
            assert(strs_v(n.deleted_properties@) =~= strs_v(old_n.deleted_properties@).push(x@));
        },
        Item::DeleteNode(x) => {
            n.deleted_nodes.push(x);
            assert(strs_v(n.deleted_nodes@) =~= strs_v(old_n.deleted_nodes@).push(x@));
        },
    }
    assert(node_v(*n).children =~= add_item(node_v(old_n), it@).children);
}

pub fn p_property(s: &Vec<char>, i: usize) -> (r: Parsed<Property>)
    requires
        i <= s.len(),
    ensures
        parsed_is(r, property(s@, i as int), |x: Property| x@),
        r matches Parsed::Done(x, j) ==> i < j <= s.len(),
        r matches Parsed::Cut(p, e) ==> p <= s.len(),
{
    let (ls, i1) = p_labels(s, i);
    let j = match p_prop_name(s, i1) {
        Some(j) => j,
        None => {
            return Parsed::Backtrack;
        },
    };
    let i2 = skip_ws(s, j);
    if char_at(s, i2, '=') {
        let i3 = skip_ws(s, i2 + 1);
        match p_prop_value(s, i3) {
            None => {
                if char_at(s, i3, '&') {
                    Parsed::Cut(i3 + 1, ErrKind::Satisfy)
                } else {
                    Parsed::Cut(i3, ErrKind::Char)
                }
            },
            Some((v, i4)) => {
                let i5 = skip_ws(s, i4);
                if char_at(s, i5, ';') {
                    Parsed::Done(Property { name: substring(s, i1, j), value: Some(v), labels: ls }, i5 + 1)
                } else {
                    Parsed::Cut(i5, ErrKind::Char)
                }
            },
        }
    } else if char_at(s, i2, ';') {
        Parsed::Done(Property { name: substring(s, i1, j), value: None, labels: ls }, i2 + 1)
    } else {
        Parsed::Backtrack
    }
}

/// `/delete-property/ name;` at `i`.
pub fn p_delete_property(s: &Vec<char>, i: usize) -> (r: Option<(String, usize)>)
    requires
        i <= s.len(),
    ensures
        opt_is(r, delete_property(s@, i as int), |x: String| x@),
        r matches Some((x, j)) ==> i < j <= s.len(),
{
    if !starts_at(s, i, "/delete-property/") {
        return None;
    }
    proof {
        reveal_strlit("/delete-property/");
    }
    let k = skip_ws(s, i + 17);
    match p_prop_name(s, k) {
        Some(e) => {
            let m = skip_ws(s, e);
            if char_at(s, m, ';') {
                Some((substring(s, k, e), m + 1))
            } else {
                None
            }
        },
        None => None,
    }
}

/// `/delete-node/ name;` at `i`, inside a node.
pub fn p_delete_node(s: &Vec<char>, i: usize) -> (r: Option<(String, usize)>)
    requires
        i <= s.len(),
    ensures
        opt_is(r, delete_node(s@, i as int), |x: String| x@),
        r matches Some((x, j)) ==> i < j <= s.len(),
{
    if !starts_at(s, i, "/delete-node/") {
        return None;
    }
    proof {
        reveal_strlit("/delete-node/");
    }
    let k = skip_ws(s, i + 13);
    match p_node_name(s, k) {
        Some(e) => {
            let m = skip_ws(s, e);
            if char_at(s, m, ';') {
                Some((substring(s, k, e), m + 1))
            } else {
                None
            }
        },
        None => None,
    }
}

/// The closing `};` of a node whose body ended at `i`.
pub fn p_node_close(s: &Vec<char>, i: usize) -> (r: Parsed<()>)
    requires
        i <= s.len(),
    ensures
        parsed_is(r, node_close(s@, i as int), |x: ()| x),
        r matches Parsed::Done(x, j) ==> i < j <= s.len(),
        r matches Parsed::Cut(p, e) ==> p <= s.len(),
{
    let i6 = skip_ws(s, i);
    if !char_at(s, i6, '}') {
        return Parsed::Cut(i6, ErrKind::Char);
    }
    let i7 = skip_ws(s, i6 + 1);
    if !char_at(s, i7, ';') {
        return Parsed::Cut(i7, ErrKind::Char);
    }
    Parsed::Done((), i7 + 1)
}

/// The items of a node body from `i`.
pub fn p_body(s: &Vec<char>, i: usize) -> (r: Parsed<Node>)
    requires
        i <= s.len(),
    ensures
        parsed_is(r, body(s@, i as int, bare_node_v(Seq::empty())), |x: Node| x@),
        r matches Parsed::Done(x, j) ==> i <= j <= s.len(),
        r matches Parsed::Cut(p, e) ==> p <= s.len(),
    decreases s.len() - i, 2nat,
{
    let mut acc = Node::new("");
    proof {
        reveal_strlit("");
        assert(""@ =~= Seq::<char>::empty());
    }
    let mut j = i;
    loop
        invariant
            i <= j <= s.len(),
            body(s@, i as int, bare_node_v(Seq::empty())) == body(s@, j as int, acc@),
        decreases s.len() - j,
    {
        let k = skip_ws(s, j);
        match p_node_item(s, k) {
            Parsed::Done(it, e) => {
                if j < e && e <= s.len() {
                    push_item(&mut acc, it);
                    j = e;
                } else {
                    return Parsed::Done(acc, j);
                }
            },
            Parsed::Backtrack => {
                return Parsed::Done(acc, j);
            },
            Parsed::Cut(p, kind) => {
                return Parsed::Cut(p, kind);
            },
        }
    }
}

/// One item of a node body at `i`.
pub fn p_node_item(s: &Vec<char>, i: usize) -> (r: Parsed<Item>)
    requires
        i <= s.len(),
    ensures
        parsed_is(r, node_item(s@, i as int), |x: Item| x@),
        r matches Parsed::Done(x, j) ==> j <= s.len(),
        r matches Parsed::Cut(p, e) ==> p <= s.len(),
    decreases s.len() - i, 1nat,
{
    match p_delete_property(s, i) {
        Some((x, k)) => {
            return Parsed::Done(Item::DeleteProp(x), k);
        },
        None => {},
    }
    match p_delete_node(s, i) {
        Some((x, k)) => {
            return Parsed::Done(Item::DeleteNode(x), k);
        },
        None => {},
    }
    match p_child_node(s, i) {
        Parsed::Done(n, k) => Parsed::Done(Item::Child(n), k),
        Parsed::Cut(p, e) => Parsed::Cut(p, e),
        Parsed::Backtrack => match p_property(s, i) {
            Parsed::Done(p, k) => Parsed::Done(Item::Prop(p), k),
            Parsed::Cut(p, e) => Parsed::Cut(p, e),
            Parsed::Backtrack => Parsed::Backtrack,
        },
    }
}

/// A child node at `i`.
pub fn p_child_node(s: &Vec<char>, i: usize) -> (r: Parsed<Node>)
    requires
        i <= s.len(),
    ensures
        parsed_is(r, child_node(s@, i as int), |x: Node| x@),
        r matches Parsed::Done(x, j) ==> i < j <= s.len(),
        r matches Parsed::Cut(p, e) ==> p <= s.len(),
    decreases s.len() - i, 0nat,
{
    let i1 = if starts_at(s, i, "/omit-if-no-ref/") {
        proof {
            reveal_strlit("/omit-if-no-ref/");
        }
        skip_ws(s, i + 16)
    } else {
        i
    };
    let (ls, i2) = p_labels(s, i1);
    let j = match p_node_name(s, i2) {
        Some(j) => j,
        None => {
            return Parsed::Backtrack;
        },
    };
    let mut ua: Option<String> = None;
    let mut i3 = j;
    if char_at(s, j, '@') {
        let ue = scan(s, j + 1, Class::UnitAddress);
        if ue > j + 1 {
            proof {
                lemma_span(s@, j + 1, Class::UnitAddress);
            }
            ua = Some(substring(s, j + 1, ue));
            i3 = ue;
        }
    }
    assert(unit_address(s@, j as int) == (opt_str_v(ua), i3 as int));
    let i4 = skip_ws(s, i3);
    if !char_at(s, i4, '{') {
        return Parsed::Backtrack;
    }
    match p_body(s, i4 + 1) {
        Parsed::Done(n, i5) => match p_node_close(s, i5) {
            Parsed::Done(_, e) => {
                let ghost nv = n@;
                let mut n = n;
                n.name = substring(s, i2, j);
                n.unit_address = ua;
                n.labels = ls;
                assert(node_v(n).children =~= nv.children);
                Parsed::Done(n, e)
            },
            Parsed::Cut(p, k) => Parsed::Cut(p, k),
            Parsed::Backtrack => Parsed::Backtrack,
        },
        Parsed::Cut(p, k) => Parsed::Cut(p, k),
        Parsed::Backtrack => Parsed::Backtrack,
    }
}


// -------------------------------------------------------------------------
// Top level
// -------------------------------------------------------------------------

/// A keyword followed by `;` at `i`.
pub fn p_keyword_semi(s: &Vec<char>, i: usize, kw: &str) -> (r: Option<usize>)
    requires
        i <= s.len(),
    ensures
        opt_pos(r) == keyword_semi(s@, i as int, kw@),
        r matches Some(j) ==> i < j <= s.len(),
{
    if !starts_at(s, i, kw) {
        return None;
    }
    let n = to_chars(kw).len();
    let k = skip_ws(s, i + n);
    if char_at(s, k, ';') {
        Some(k + 1)
    } else {
        None
    }
}

pub fn p_c_include(s: &Vec<char>, i: usize) -> (r: Option<(Include, usize)>)
    requires
        i <= s.len(),
    ensures
        opt_is(r, c_include(s@, i as int), |x: Include| x@),
        r matches Some((x, j)) ==> i < j <= s.len(),
{
    if !char_at(s, i, '#') {
        return None;
    }
    let j = scan(s, i + 1, Class::Blank);
    proof {
        lemma_span(s@, i + 1, Class::Blank);
    }
    if !starts_at(s, j, "include") {
        return None;
    }
    proof {
        reveal_strlit("include");
    }
    let k = scan(s, j + 7, Class::Blank);
    proof {
        lemma_span(s@, j + 7, Class::Blank);
    }
    match p_delimited_string(s, k) {
        Some((p, e)) => {
            return Some((Include { path: p, kind: IncludeKind::CPreprocessor }, e));
        },
        None => {},
    }
    if char_at(s, k, '<') {
        match find_char_from(s, k + 1, '>') {
            Some(m) => {
                proof {
                    lemma_find_char(s@, k + 1, '>');
                }
                return Some(
                    (Include { path: substring(s, k + 1, m), kind: IncludeKind::CPreprocessor }, m + 1),
                );
            },
            None => {},
        }
    }
    None
}

pub fn p_dts_include(s: &Vec<char>, i: usize) -> (r: Option<(Include, usize)>)
    requires
        i <= s.len(),
    ensures
        opt_is(r, dts_include(s@, i as int), |x: Include| x@),
        r matches Some((x, j)) ==> i < j <= s.len(),
{
    if !starts_at(s, i, "/include/") {
        return None;
    }
    proof {
        reveal_strlit("/include/");
    }
    let k = skip_ws(s, i + 9);
    match p_delimited_string(s, k) {
        Some((p, e)) => Some((Include { path: p, kind: IncludeKind::DtsInclude }, e)),
        None => None,
    }
}

pub fn p_memreserve(s: &Vec<char>, i: usize) -> (r: Option<(MemoryReservation, usize)>)
    requires
        i <= s.len(),
    ensures
        opt_is(r, memreserve(s@, i as int), |x: MemoryReservation| x),
        r matches Some((x, j)) ==> i < j <= s.len(),
{
    if !starts_at(s, i, "/memreserve/") {
        return None;
    }
    proof {
        reveal_strlit("/memreserve/");
    }
    let k = skip_ws(s, i + 12);
    let (a, j) = match p_integer(s, k) {
        Some(x) => x,
        None => {
            return None;
        },
    };
    let k2 = skip_ws(s, j);
    let (z, j2) = match p_integer(s, k2) {
        Some(x) => x,
        None => {
            return None;
        },
    };
    let m = skip_ws(s, j2);
    if char_at(s, m, ';') {
        Some((MemoryReservation { address: a, size: z }, m + 1))
    } else {
        None
    }
}

pub fn p_preprocessor(s: &Vec<char>, i: usize) -> (r: Option<usize>)
    requires
        i <= s.len(),
    ensures
        opt_pos(r) == preprocessor(s@, i as int),
        r matches Some(j) ==> i < j <= s.len(),
{
    if char_at(s, i, '#') {
        proof {
            lemma_span(s@, i + 1, Class::NotLineFeed);
        }
        Some(scan(s, i + 1, Class::NotLineFeed))
    } else {
        None
    }
}

pub fn p_top_delete_node(s: &Vec<char>, i: usize) -> (r: Option<usize>)
    requires
        i <= s.len(),
    ensures
        opt_pos(r) == top_delete_node(s@, i as int),
        r matches Some(j) ==> i < j <= s.len(),
{
    if !starts_at(s, i, "/delete-node/") {
        return None;
    }
    proof {
        reveal_strlit("/delete-node/");
    }
    let k = skip_ws(s, i + 13);
    let e = match p_reference(s, k) {
        Some((_, e)) => e,
        None => match p_node_name(s, k) {
            Some(e) => e,
            None => {
                return None;
            },
        },
    };
    let m = skip_ws(s, e);
    if char_at(s, m, ';') {
        Some(m + 1)
    } else {
        None
    }
}

pub fn p_root_node(s: &Vec<char>, i: usize) -> (r: Parsed<Node>)
    requires
        i <= s.len(),
    ensures
        parsed_is(r, root_node(s@, i as int), |x: Node| x@),
        r matches Parsed::Done(x, j) ==> i < j <= s.len(),
        r matches Parsed::Cut(p, e) ==> p <= s.len(),
{
    let (ls, i1) = p_labels(s, i);
    if !char_at(s, i1, '/') {
        return Parsed::Backtrack;
    }
    let i2 = skip_ws(s, i1 + 1);
    if !char_at(s, i2, '{') {
        return Parsed::Backtrack;
    }
    match p_body(s, i2 + 1) {
        Parsed::Done(n, i3) => match p_node_close(s, i3) {
            Parsed::Done(_, e) => {
                let ghost nv = n@;
                let mut n = n;
                n.name = String::new();
                n.labels = ls;
                assert(node_v(n).children =~= nv.children);
                Parsed::Done(n, e)
            },
            Parsed::Cut(p, k) => Parsed::Cut(p, k),
            Parsed::Backtrack => Parsed::Backtrack,
        },
        Parsed::Cut(p, k) => Parsed::Cut(p, k),
        Parsed::Backtrack => Parsed::Backtrack,
    }
}

pub fn p_reference_node(s: &Vec<char>, i: usize) -> (r: Parsed<ReferenceNode>)
    requires
        i <= s.len(),
    ensures
        parsed_is(r, reference_node(s@, i as int), |x: ReferenceNode| x@),
        r matches Parsed::Done(x, j) ==> i < j <= s.len(),
        r matches Parsed::Cut(p, e) ==> p <= s.len(),
{
    let (x, j) = match p_reference(s, i) {
        Some(v) => v,
        None => {
            return Parsed::Backtrack;
        },
    };
    let i2 = skip_ws(s, j);
    if !char_at(s, i2, '{') {
        return Parsed::Backtrack;
    }
    match p_body(s, i2 + 1) {
        Parsed::Done(n, i3) => match p_node_close(s, i3) {
            Parsed::Done(_, e) => Parsed::Done(ReferenceNode { reference: x, node: n }, e),
            Parsed::Cut(p, k) => Parsed::Cut(p, k),
            Parsed::Backtrack => Parsed::Backtrack,
        },
        Parsed::Cut(p, k) => Parsed::Cut(p, k),
        Parsed::Backtrack => Parsed::Backtrack,
    }
}

/// An item at the top level of a file.
pub enum TopItem {
    Version,
    Plugin,
    Include(Include),
    MemReserve(MemoryReservation),
    Root(Node),
    RefNode(ReferenceNode),
    Skip,
}

impl View for TopItem {
    type V = TopV;

    open spec fn view(&self) -> TopV {
        match self {
            TopItem::Version => TopV::Version,
            TopItem::Plugin => TopV::Plugin,
            TopItem::Include(x) => TopV::Include(x@),
            TopItem::MemReserve(m) => TopV::MemReserve(*m),
            TopItem::Root(n) => TopV::Root(n@),
            TopItem::RefNode(r) => TopV::RefNode(r@),
            TopItem::Skip => TopV::Skip,
        }
    }
}

pub fn p_top_item(s: &Vec<char>, i: usize) -> (r: Parsed<TopItem>)
    requires
        i <= s.len(),
    ensures
        parsed_is(r, top_item(s@, i as int), |x: TopItem| x@),
        r matches Parsed::Done(x, j) ==> i < j <= s.len(),
        r matches Parsed::Cut(p, e) ==> p <= s.len(),
{
    match p_keyword_semi(s, i, "/dts-v1/") {
        Some(j) => {
            return Parsed::Done(TopItem::Version, j);
        },
        None => {},
    }
    match p_keyword_semi(s, i, "/plugin/") {
        Some(j) => {
            return Parsed::Done(TopItem::Plugin, j);
        },
        None => {},
    }
    match p_c_include(s, i) {
        Some((x, j)) => {
            return Parsed::Done(TopItem::Include(x), j);
        },
        None => {},
    }
    match p_dts_include(s, i) {
        Some((x, j)) => {
            return Parsed::Done(TopItem::Include(x), j);
        },
        None => {},
    }
    match p_memreserve(s, i) {
        Some((x, j)) => {
            return Parsed::Done(TopItem::MemReserve(x), j);
        },
        None => {},
    }
    match p_root_node(s, i) {
        Parsed::Done(n, j) => {
            return Parsed::Done(TopItem::Root(n), j);
        },
        Parsed::Cut(p, e) => {
            return Parsed::Cut(p, e);
        },
        Parsed::Backtrack => {},
    }
    match p_reference_node(s, i) {
        Parsed::Done(n, j) => {
            return Parsed::Done(TopItem::RefNode(n), j);
        },
        Parsed::Cut(p, e) => {
            return Parsed::Cut(p, e);
        },
        Parsed::Backtrack => {},
    }
    match p_top_delete_node(s, i) {
        Some(j) => {
            return Parsed::Done(TopItem::Skip, j);
        },
        None => {},
    }
    match p_preprocessor(s, i) {
        Some(j) => Parsed::Done(TopItem::Skip, j),
        None => Parsed::Backtrack,
    }
}

/// Whether `v` holds `x`.
pub fn contains_string(v: &Vec<String>, x: &String) -> (b: bool)
    ensures
        b == strs_v(v@).contains(x@),
{
    let mut k: usize = 0;
    while k < v.len()
        invariant
            k <= v.len(),
            forall|m: int| 0 <= m < k ==> v@[m]@ != x@,
        decreases v.len() - k,
    {
        if v[k] == *x {
            assert(strs_v(v@)[k as int] == x@);
            return true;
        }
        k = k + 1;
    }
    assert(!strs_v(v@).contains(x@)) by {
        if strs_v(v@).contains(x@) {
            let w = choose|w: int| 0 <= w < strs_v(v@).len() && strs_v(v@)[w] == x@;
            assert(v@[w]@ == x@);
        }
    }
    false
}

/// Merges `source` into `target`: its properties, children and deletions are
/// appended, and each of its labels that `target` does not hold yet is added.
pub fn merge_nodes(target: &mut Node, source: Node)
    ensures
        final(target)@ == merge_node_v(old(target)@, source@),
{
    let ghost t0 = *target;
    let mut source = source;
    let ghost s0 = source;
    target.properties.append(&mut source.properties);
    target.children.append(&mut source.children);
    target.deleted_properties.append(&mut source.deleted_properties);
    target.deleted_nodes.append(&mut source.deleted_nodes);
    let ghost src_labels = strs_v(s0.labels@);
    let mut k: usize = 0;
    assert(src_labels.subrange(0, src_labels.len() as int) =~= src_labels);
    while k < source.labels.len()
        invariant
            k <= source.labels.len(),
            source.labels == s0.labels,
            src_labels == strs_v(s0.labels@),
            target.name == t0.name,
            target.unit_address == t0.unit_address,
            target.properties@ == t0.properties@ + s0.properties@,
            target.children@ == t0.children@ + s0.children@,
            target.deleted_properties@ == t0.deleted_properties@ + s0.deleted_properties@,
            target.deleted_nodes@ == t0.deleted_nodes@ + s0.deleted_nodes@,
            merge_labels(strs_v(t0.labels@), src_labels) == merge_labels(
                strs_v(target.labels@),
                src_labels.subrange(k as int, src_labels.len() as int),
            ),
        decreases source.labels.len() - k,
    {
        let l = &source.labels[k];
        let ghost rest = src_labels.subrange(k as int, src_labels.len() as int);
        assert(rest[0] == l@);
        assert(rest.drop_first() =~= src_labels.subrange(k + 1, src_labels.len() as int));
        if !contains_string(&target.labels, l) {
            let ghost old_labels = target.labels@;
            target.labels.push(l.clone());
            assert(strs_v(target.labels@) =~= strs_v(old_labels).push(l@));
        }
        k = k + 1;
    }
    proof {
        assert(src_labels.subrange(k as int, src_labels.len() as int) =~= Seq::<Seq<char>>::empty());
        assert(props_v(target.properties@) =~= props_v(t0.properties@) + props_v(s0.properties@));
        assert(strs_v(target.deleted_properties@) =~= strs_v(t0.deleted_properties@) + strs_v(
            s0.deleted_properties@,
        ));
        assert(strs_v(target.deleted_nodes@) =~= strs_v(t0.deleted_nodes@) + strs_v(
            s0.deleted_nodes@,
        ));
        assert(node_v(*target).children =~= node_v(t0).children + node_v(s0).children);
    }
}

/// The tree with a top-level item taken into account.
pub fn apply_item(t: &mut DeviceTree, it: TopItem)
    ensures
        final(t)@ == apply_top(old(t)@, it@),
{
    let ghost t0 = t@;
    match it {
        TopItem::Version => {
            t.version = Some(DtsVersion::V1);
        },
        TopItem::Plugin => {
            t.is_plugin = true;
        },
        TopItem::Include(x) => {
            t.includes.push(x);
            assert(t@.includes =~= t0.includes.push(x@));
        },
        TopItem::MemReserve(m) => {
            t.memory_reservations.push(m);
        },
        TopItem::Root(n) => {
            match t.root.take() {
                Some(mut r) => {
                    merge_nodes(&mut r, n);
                    t.root = Some(r);
                },
                None => {
                    t.root = Some(n);
                },
            }
        },
        TopItem::RefNode(r) => {
            t.reference_nodes.push(r);
            assert(t@.reference_nodes =~= t0.reference_nodes.push(r@));
        },
        TopItem::Skip => {},
    }
}

/// Parses a whole file: the tree and the position where parsing stopped.
pub fn p_file(s: &Vec<char>) -> (r: Parsed<DeviceTree>)
    ensures
        parsed_is(r, file(s@), |x: DeviceTree| x@),
        r matches Parsed::Done(x, j) ==> j <= s.len(),
        r matches Parsed::Cut(p, e) ==> p <= s.len(),
{
    let mut t = DeviceTree::new();
    let mut j = skip_ws(s, 0);
    loop
        invariant
            j <= s.len(),
            file_items(s@, ws(s@, 0), empty_tree_v()) == file_items(s@, j as int, t@),
        decreases s.len() - j,
    {
        let k = skip_ws(s, j);
        match p_top_item(s, k) {
            Parsed::Done(it, e) => {
                if j < e && e <= s.len() {
                    apply_item(&mut t, it);
                    j = e;
                } else {
                    let end = skip_ws(s, j);
                    return Parsed::Done(t, end);
                }
            },
            Parsed::Backtrack => {
                let end = skip_ws(s, j);
                return Parsed::Done(t, end);
            },
            Parsed::Cut(p, kind) => {
                return Parsed::Cut(p, kind);
            },
        }
    }
}


// -------------------------------------------------------------------------
// Public entry point
// -------------------------------------------------------------------------

/// What parsing `s` gives: the tree, or the error with its location.
pub open spec fn dts_result(s: Seq<char>) -> Result<TreeV, ParseErrorV> {
    match file(s) {
        Outcome::Done(t, e) => {
            if !has_trailing(s, e) {
                Ok(t)
            } else {
                let (l, c, x) = location(s, byte_index(s, trailing_offset(s, e))->0);
                Err(
                    ParseErrorV {
                        line: l,
                        column: c,
                        kind: ErrorKindV::TrailingInput,
                        context_line: x,
                    },
                )
            }
        },
        Outcome::Cut(p, kind) => {
            let (l, c, x) = location(s, p);
            Err(
                ParseErrorV {
                    line: l,
                    column: c,
                    kind: ErrorKindV::Syntax(syntax_message(s, p, kind)),
                    context_line: x,
                },
            )
        },
        Outcome::Backtrack => Ok(empty_tree_v()),
    }
}

/// Whether the place of any input left over after parsing `s` falls on a
/// character boundary, where it can be reported.
pub open spec fn dts_reportable(s: Seq<char>) -> bool {
    match file(s) {
        Outcome::Done(t, e) => has_trailing(s, e) ==> byte_index(s, trailing_offset(s, e)) is Some,
        _ => true,
    }
}

/// The number of bytes UTF-8 takes for `s`, when it is below the largest
/// `usize`.
fn bytes_below_max(s: &Vec<char>) -> (r: Option<usize>)
    ensures
        match r {
            Some(n) => n == bytes_len(s@) && n < usize::MAX,
            None => bytes_len(s@) >= usize::MAX,
        },
{
    let mut n: usize = 0;
    let mut k: usize = 0;
    assert(s@.subrange(0, 0) =~= Seq::<char>::empty());
    while k < s.len()
        invariant
            k <= s.len(),
            n == bytes_len(s@.subrange(0, k as int)),
            n < usize::MAX,
        decreases s.len() - k,
    {
        proof {
            lemma_bytes_len_step(s@, 0, k as int);
            lemma_bytes_len_parts(s@, 0, k + 1);
        }
        let c = char_utf8_len(s[k]);
        if usize::MAX - n <= c {
            return None;
        }
        n = n + c;
        k = k + 1;
    }
    assert(s@.subrange(0, k as int) =~= s@);
    Some(n)
}

/// Parses a complete DTS / DTSI source, or gives `None` on the inputs that
/// `parse_dts` leaves out: text of `usize::MAX` bytes or more, and text
/// whose leftover input would be reported off a character boundary.
pub fn try_parse_dts(input: &str) -> (r: Option<Result<DeviceTree, ParseError>>)
    ensures
        r is None <==> !(bytes_len(input@) < usize::MAX && dts_reportable(input@)),
        r matches Some(x) ==> match (x, dts_result(input@)) {
            (Ok(t), Ok(v)) => t@ == v,
            (Err(e), Err(v)) => e@ == v,
            _ => false,
        },
{
    let s = to_chars(input);
    proof {
        assert(s@.subrange(0, s@.len() as int) =~= s@);
    }
    if bytes_below_max(&s).is_none() {
        return None;
    }
    match p_file(&s) {
        Parsed::Done(t, e) => {
            let mut a = e;
            while a < s.len() && unicode_ws(s[a])
                invariant
                    e <= a <= s.len(),
                    trim_start(s@, e as int) == trim_start(s@, a as int),
                decreases s.len() - a,
            {
                a = a + 1;
            }
            let mut b = s.len();
            while b > a && unicode_ws(s[b - 1])
                invariant
                    a <= b <= s.len(),
                    trim_end(s@, a as int, s.len() as int) == trim_end(s@, a as int, b as int),
                decreases b,
            {
                b = b - 1;
            }
            if a >= b {
                return Some(Ok(t));
            }
            let total = bytes_in(&s, 0, s.len());
            let part = bytes_in(&s, a, b);
            proof {
                lemma_bytes_len_parts(s@, a as int, b as int);
            }
            match byte_position(&s, total - part) {
                Some(k) => {
                    proof {
                        lemma_byte_index(s@, 0, (total - part) as int);
                    }
                    let (line, column, context_line) = location_at(&s, k);
                    Some(
                        Err(
                            ParseError {
                                line,
                                column,
                                kind: ParseErrorKind::TrailingInput,
                                context_line,
                            },
                        ),
                    )
                },
                None => None,
            }
        },
        Parsed::Cut(p, kind) => {
            let (line, column, context_line) = location_at(&s, p);
            let msg = friendly_error_message(&s, p, kind);
            Some(Err(ParseError { line, column, kind: ParseErrorKind::Syntax(msg), context_line }))
        },
        Parsed::Backtrack => Some(Ok(DeviceTree::new())),
    }
}

/// Parses a complete DTS / DTSI source into a [`DeviceTree`].
pub fn parse_dts(input: &str) -> (r: Result<DeviceTree, ParseError>)
    requires
        bytes_len(input@) < usize::MAX,
        dts_reportable(input@),
    ensures
        match (r, dts_result(input@)) {
            (Ok(t), Ok(v)) => t@ == v,
            (Err(e), Err(v)) => e@ == v,
            _ => false,
        },
{
    try_parse_dts(input).unwrap()
}

} // verus!

//! The device tree source grammar, stated over the characters of the input.
//!
//! Every function here takes the whole input `s` and a position `i` in it.
//! A parse either succeeds with a value and the position after it, backtracks
//! (the construct is not present at `i`, and an enclosing choice may try the
//! next alternative), or fails for good at a committed point (after the opening
//! brace of a node, after the `=` of a property), with the position of the
//! failure and what was expected there.
use vstd::prelude::*;
use crate::model::{
    bare_node_v, empty_tree_v, CellV, DtsVersion, IncludeKind, IncludeV, MemoryReservation, NodeV,
    PartV, PropV, RefNodeV, RefV, TreeV,
};
use crate::text::{is_alnum, is_alpha, is_digit, is_hex, hex_val, is_multispace};

verus! {

/// What a committed parse expected where it failed.
#[derive(Debug, Clone, Copy, PartialEq, Eq, Structural)]
pub enum ErrKind {
    /// A specific character (such as `;` or `}`) was expected.
    Char,
    /// A character of a given class (such as the start of a label) was expected.
    Satisfy,
}

/// The outcome of a parse, at the level of the grammar.
pub enum Outcome<T> {
    Done(T, int),
    Backtrack,
    Cut(int, ErrKind),
}

/// Classes of characters that a run of input may consist of.
#[derive(Debug, Clone, Copy, PartialEq, Eq, Structural)]
pub enum Class {
    /// Letters, digits and `_` (the rest of an identifier).
    IdentRest,
    /// Letters, digits and `,._+-#` (the rest of a node name).
    NodeNameRest,
    /// Letters, digits and `,._+-?#` (the rest of a property name).
    PropNameRest,
    /// Letters, digits and `,._` (a unit address).
    UnitAddress,
    /// Hexadecimal digits and `_`.
    HexOrUnderscore,
    /// Decimal digits.
    Digit,
    /// Anything but a line feed.
    NotLineFeed,
    /// Anything but a line feed or a carriage return.
    NotLineEnd,
    /// Space and tab.
    Blank,
}

pub open spec fn in_class(k: Class, c: char) -> bool {
    match k {
        Class::IdentRest => is_alnum(c) || c == '_',
        Class::NodeNameRest => is_alnum(c) || c == ',' || c == '.' || c == '_' || c == '+'
            || c == '-' || c == '#',
        Class::PropNameRest => is_alnum(c) || c == ',' || c == '.' || c == '_' || c == '+'
            || c == '-' || c == '?' || c == '#',
        Class::UnitAddress => is_alnum(c) || c == ',' || c == '.' || c == '_',
        Class::HexOrUnderscore => is_hex(c) || c == '_',
        Class::Digit => is_digit(c),
        Class::NotLineFeed => c != '\n',
        Class::NotLineEnd => c != '\n' && c != '\r',
        Class::Blank => c == ' ' || c == '\t',
    }
}

pub open spec fn at(s: Seq<char>, i: int, c: char) -> bool {
    0 <= i < s.len() && s[i] == c
}

pub open spec fn starts(s: Seq<char>, i: int, p: Seq<char>) -> bool {
    0 <= i && i + p.len() <= s.len() && s.subrange(i, i + p.len()) == p
}

/// The end of the longest run of characters of class `k` that starts at `i`.
pub open spec fn span(s: Seq<char>, i: int, k: Class) -> int
    decreases s.len() - i,
{
    if 0 <= i < s.len() && in_class(k, s[i]) {
        span(s, i + 1, k)
    } else {
        i
    }
}

pub proof fn lemma_span(s: Seq<char>, i: int, k: Class)
    requires
        0 <= i <= s.len(),
    ensures
        i <= span(s, i, k) <= s.len(),
        forall|j: int| i <= j < span(s, i, k) ==> in_class(k, #[trigger] s[j]),
        span(s, i, k) == s.len() || !in_class(k, s[span(s, i, k)]),
    decreases s.len() - i,
{
    if 0 <= i < s.len() && in_class(k, s[i]) {
        lemma_span(s, i + 1, k);
    }
}

/// The first position at or after `i` that holds `c`.
pub open spec fn find_char(s: Seq<char>, i: int, c: char) -> Option<int>
    decreases s.len() - i,
{
    if !(0 <= i < s.len()) {
        None
    } else if s[i] == c {
        Some(i)
    } else {
        find_char(s, i + 1, c)
    }
}

pub proof fn lemma_find_char(s: Seq<char>, i: int, c: char)
    requires
        0 <= i,
    ensures
        find_char(s, i, c) matches Some(k) ==> i <= k < s.len() && s[k] == c,
    decreases s.len() - i,
{
    if 0 <= i < s.len() && s[i] != c {
        lemma_find_char(s, i + 1, c);
    }
}

/// The first position at or after `i` where `*/` starts.
pub open spec fn find_comment_end(s: Seq<char>, i: int) -> Option<int>
    decreases s.len() - i,
{
    if !(0 <= i && i + 1 < s.len()) {
        None
    } else if s[i] == '*' && s[i + 1] == '/' {
        Some(i)
    } else {
        find_comment_end(s, i + 1)
    }
}

pub proof fn lemma_find_comment_end(s: Seq<char>, i: int)
    requires
        0 <= i,
    ensures
        find_comment_end(s, i) matches Some(k) ==> i <= k && k + 1 < s.len(),
    decreases s.len() - i,
{
    if 0 <= i && i + 1 < s.len() && !(s[i] == '*' && s[i + 1] == '/') {
        lemma_find_comment_end(s, i + 1);
    }
}

/// Skips whitespace, `//` comments and `/* */` comments.
pub open spec fn ws(s: Seq<char>, i: int) -> int
    decreases s.len() - i,
{
    if !(0 <= i < s.len()) {
        i
    } else if is_multispace(s[i]) {
        ws(s, i + 1)
    } else if at(s, i, '/') && at(s, i + 1, '/') {
        proof {
            lemma_span(s, i + 2, Class::NotLineEnd);
        }
        ws(s, span(s, i + 2, Class::NotLineEnd))
    } else if at(s, i, '/') && at(s, i + 1, '*') {
        proof {
            lemma_find_comment_end(s, i + 2);
        }
        match find_comment_end(s, i + 2) {
            Some(k) => ws(s, k + 2),
            None => i,
        }
    } else {
        i
    }
}

pub proof fn lemma_ws(s: Seq<char>, i: int)
    requires
        0 <= i <= s.len(),
    ensures
        i <= ws(s, i) <= s.len(),
    decreases s.len() - i,
{
    if i < s.len() {
        if is_multispace(s[i]) {
            lemma_ws(s, i + 1);
        } else if at(s, i, '/') && at(s, i + 1, '/') {
            lemma_span(s, i + 2, Class::NotLineEnd);
            lemma_ws(s, span(s, i + 2, Class::NotLineEnd));
        } else if at(s, i, '/') && at(s, i + 1, '*') {
            lemma_find_comment_end(s, i + 2);
            if let Some(k) = find_comment_end(s, i + 2) {
                lemma_ws(s, k + 2);
            }
        }
    }
}

// -------------------------------------------------------------------------
// Names
// -------------------------------------------------------------------------

pub open spec fn is_ident_start(c: char) -> bool {
    is_alpha(c) || c == '_'
}

pub open spec fn is_node_name_start(c: char) -> bool {
    is_alnum(c) || c == '_'
}

pub open spec fn is_prop_name_start(c: char) -> bool {
    is_alnum(c) || c == '_' || c == '#'
}

/// The end of the identifier at `i`.
pub open spec fn ident(s: Seq<char>, i: int) -> Option<int> {
    if 0 <= i < s.len() && is_ident_start(s[i]) {
        Some(span(s, i + 1, Class::IdentRest))
    } else {
        None
    }
}

/// The end of the node name at `i`.
pub open spec fn node_name(s: Seq<char>, i: int) -> Option<int> {
    if 0 <= i < s.len() && is_node_name_start(s[i]) {
        Some(span(s, i + 1, Class::NodeNameRest))
    } else {
        None
    }
}

/// The end of the property name at `i`.
pub open spec fn prop_name(s: Seq<char>, i: int) -> Option<int> {
    if 0 <= i < s.len() && is_prop_name_start(s[i]) {
        Some(span(s, i + 1, Class::PropNameRest))
    } else {
        None
    }
}

pub proof fn lemma_names(s: Seq<char>, i: int)
    requires
        0 <= i <= s.len(),
    ensures
        ident(s, i) matches Some(j) ==> i < j <= s.len(),
        node_name(s, i) matches Some(j) ==> i < j <= s.len(),
        prop_name(s, i) matches Some(j) ==> i < j <= s.len(),
{
    if i < s.len() {
        lemma_span(s, i + 1, Class::IdentRest);
        lemma_span(s, i + 1, Class::NodeNameRest);
        lemma_span(s, i + 1, Class::PropNameRest);
    }
}

/// `label:` at `i`; the label and the position after the colon.
pub open spec fn label_def(s: Seq<char>, i: int) -> Option<(Seq<char>, int)> {
    match ident(s, i) {
        Some(j) => {
            let k = ws(s, j);
            if at(s, k, ':') {
                Some((s.subrange(i, j), k + 1))
            } else {
                None
            }
        },
        None => None,
    }
}

pub proof fn lemma_label_def(s: Seq<char>, i: int)
    requires
        0 <= i <= s.len(),
    ensures
        label_def(s, i) matches Some((l, j)) ==> i < j <= s.len(),
{
    lemma_names(s, i);
    if let Some(j) = ident(s, i) {
        lemma_ws(s, j);
    }
}

/// Labels, each followed by whitespace, added to `acc`.
pub open spec fn labels(s: Seq<char>, i: int, acc: Seq<Seq<char>>) -> (Seq<Seq<char>>, int)
    decreases s.len() - i,
{
    if !(0 <= i <= s.len()) {
        (acc, i)
    } else {
        match label_def(s, i) {
            Some((l, j)) => {
                proof {
                    lemma_label_def(s, i);
                    lemma_ws(s, j);
                }
                labels(s, ws(s, j), acc.push(l))
            },
            None => (acc, i),
        }
    }
}

pub proof fn lemma_labels(s: Seq<char>, i: int, acc: Seq<Seq<char>>)
    requires
        0 <= i <= s.len(),
    ensures
        i <= labels(s, i, acc).1 <= s.len(),
    decreases s.len() - i,
{
    lemma_label_def(s, i);
    if let Some((l, j)) = label_def(s, i) {
        lemma_ws(s, j);
        lemma_labels(s, ws(s, j), acc.push(l));
    }
}

// -------------------------------------------------------------------------
// References and strings
// -------------------------------------------------------------------------

/// `&label` or `&{/path}` at `i`.
pub open spec fn reference(s: Seq<char>, i: int) -> Option<(RefV, int)> {
    if !at(s, i, '&') {
        None
    } else if at(s, i + 1, '{') && find_char(s, i + 2, '}') is Some {
        let k = find_char(s, i + 2, '}')->0;
        Some((RefV::Path(s.subrange(i + 2, k)), k + 1))
    } else {
        match ident(s, i + 1) {
            Some(j) => Some((RefV::Label(s.subrange(i + 1, j)), j)),
            None => None,
        }
    }
}

pub proof fn lemma_reference(s: Seq<char>, i: int)
    requires
        0 <= i <= s.len(),
    ensures
        reference(s, i) matches Some((r, j)) ==> i < j <= s.len(),
{
    if at(s, i, '&') {
        lemma_find_char(s, i + 2, '}');
        lemma_names(s, i + 1);
    }
}

/// `"..."` at `i` with its content taken verbatim.
pub open spec fn delimited_string(s: Seq<char>, i: int) -> Option<(Seq<char>, int)> {
    if at(s, i, '"') && find_char(s, i + 1, '"') is Some {
        let k = find_char(s, i + 1, '"')->0;
        Some((s.subrange(i + 1, k), k + 1))
    } else {
        None
    }
}

/// The byte that the digits after `\x` stand for, and the position after them.
/// Up to two characters are read, as a number in base 16 (a leading `+` is
/// accepted before a single digit); when they do not form such a number,
/// nothing is read.
pub open spec fn hex_escape(s: Seq<char>, i: int) -> Option<(u8, int)> {
    let m = if s.len() - i >= 2 {
        2
    } else {
        s.len() - i
    };
    if !(0 <= i) || m <= 0 {
        None
    } else if s[i] == '+' {
        if m == 2 && is_hex(s[i + 1]) {
            Some((hex_val(s[i + 1]) as u8, i + 2))
        } else {
            None
        }
    } else if m == 1 {
        if is_hex(s[i]) {
            Some((hex_val(s[i]) as u8, i + 1))
        } else {
            None
        }
    } else if is_hex(s[i]) && is_hex(s[i + 1]) {
        Some(((hex_val(s[i]) * 16 + hex_val(s[i + 1])) as u8, i + 2))
    } else {
        None
    }
}

/// The character that `\c` stands for, for the simple escapes.
pub open spec fn simple_escape(c: char) -> Option<char> {
    if c == 'n' {
        Some('\n')
    } else if c == 't' {
        Some('\t')
    } else if c == 'r' {
        Some('\r')
    } else if c == '\\' {
        Some('\\')
    } else if c == '"' {
        Some('"')
    } else if c == '0' {
        Some('\0')
    } else {
        None
    }
}

/// The rest of a string literal from `i` (after the opening quote), with the
/// escapes replaced, added to `acc`.
pub open spec fn str_body(s: Seq<char>, i: int, acc: Seq<char>) -> Option<(Seq<char>, int)>
    decreases s.len() - i,
{
    if !(0 <= i < s.len()) {
        None
    } else if s[i] == '"' {
        Some((acc, i + 1))
    } else if s[i] == '\\' {
        if i + 1 >= s.len() {
            None
        } else if simple_escape(s[i + 1]) is Some {
            str_body(s, i + 2, acc.push(simple_escape(s[i + 1])->0))
        } else if s[i + 1] == 'x' {
            match hex_escape(s, i + 2) {
                Some((b, j)) => {
                    if j > i {
                        str_body(s, j, acc.push(b as char))
                    } else {
                        None
                    }
                },
                None => str_body(s, i + 2, acc),
            }
        } else {
            str_body(s, i + 2, acc.push(s[i + 1]))
        }
    } else {
        str_body(s, i + 1, acc.push(s[i]))
    }
}

/// A string literal at `i`.
pub open spec fn string_literal(s: Seq<char>, i: int) -> Option<(Seq<char>, int)> {
    if at(s, i, '"') {
        str_body(s, i + 1, Seq::empty())
    } else {
        None
    }
}

pub proof fn lemma_str_body(s: Seq<char>, i: int, acc: Seq<char>)
    requires
        0 <= i,
    ensures
        str_body(s, i, acc) matches Some((v, j)) ==> i < j <= s.len(),
    decreases s.len() - i,
{
    if 0 <= i < s.len() && s[i] != '"' {
        if s[i] == '\\' {
            if i + 1 < s.len() {
                if simple_escape(s[i + 1]) is Some {
                    lemma_str_body(s, i + 2, acc.push(simple_escape(s[i + 1])->0));
                } else if s[i + 1] == 'x' {
                    match hex_escape(s, i + 2) {
                        Some((b, j)) => {
                            if j > i {
                                lemma_str_body(s, j, acc.push(b as char));
                            }
                        },
                        None => lemma_str_body(s, i + 2, acc),
                    }
                } else {
                    lemma_str_body(s, i + 2, acc.push(s[i + 1]));
                }
            }
        } else {
            lemma_str_body(s, i + 1, acc.push(s[i]));
        }
    }
}

// -------------------------------------------------------------------------
// Numbers
// -------------------------------------------------------------------------

/// The value of the hexadecimal digits in `s[a..b]`, with `_` ignored.
pub open spec fn hex_digits_val(s: Seq<char>, a: int, b: int) -> nat
    decreases b - a,
{
    if b <= a {
        0
    } else if s[b - 1] == '_' {
        hex_digits_val(s, a, b - 1)
    } else {
        hex_digits_val(s, a, b - 1) * 16 + hex_val(s[b - 1])
    }
}

/// Whether `s[a..b]` holds at least one hexadecimal digit.
pub open spec fn has_hex_digit(s: Seq<char>, a: int, b: int) -> bool {
    exists|k: int| a <= k < b && is_hex(s[k])
}

/// The value of the decimal digits in `s[a..b]`.
pub open spec fn dec_digits_val(s: Seq<char>, a: int, b: int) -> nat
    decreases b - a,
{
    if b <= a {
        0
    } else {
        dec_digits_val(s, a, b - 1) * 10 + (s[b - 1] as nat - '0' as nat) as nat
    }
}

/// `0x...` at `i`.
pub open spec fn hex_integer(s: Seq<char>, i: int) -> Option<(u64, int)> {
    if at(s, i, '0') && (at(s, i + 1, 'x') || at(s, i + 1, 'X')) {
        let j = span(s, i + 2, Class::HexOrUnderscore);
        if j > i + 2 && has_hex_digit(s, i + 2, j) && hex_digits_val(s, i + 2, j) <= u64::MAX {
            Some((hex_digits_val(s, i + 2, j) as u64, j))
        } else {
            None
        }
    } else {
        None
    }
}

/// Decimal digits at `i`.
pub open spec fn dec_integer(s: Seq<char>, i: int) -> Option<(u64, int)> {
    let j = span(s, i, Class::Digit);
    if 0 <= i && j > i && dec_digits_val(s, i, j) <= u64::MAX {
        Some((dec_digits_val(s, i, j) as u64, j))
    } else {
        None
    }
}

/// A hexadecimal or else a decimal integer at `i`.
pub open spec fn integer(s: Seq<char>, i: int) -> Option<(u64, int)> {
    match hex_integer(s, i) {
        Some(r) => Some(r),
        None => dec_integer(s, i),
    }
}

pub proof fn lemma_integer(s: Seq<char>, i: int)
    requires
        0 <= i <= s.len(),
    ensures
        integer(s, i) matches Some((v, j)) ==> i < j <= s.len(),
{
    lemma_span(s, i, Class::Digit);
    if i + 2 <= s.len() {
        lemma_span(s, i + 2, Class::HexOrUnderscore);
    }
}

// -------------------------------------------------------------------------
// Cells, byte strings, values
// -------------------------------------------------------------------------

/// The text up to the parenthesis that closes `depth` open ones, added to `acc`.
pub open spec fn balanced(s: Seq<char>, i: int, depth: nat, acc: Seq<char>) -> Option<(Seq<char>, int)>
    decreases s.len() - i,
{
    if !(0 <= i < s.len()) {
        None
    } else if s[i] == '(' {
        balanced(s, i + 1, depth + 1, acc.push('('))
    } else if s[i] == ')' {
        if depth <= 1 {
            Some((acc, i + 1))
        } else {
            balanced(s, i + 1, (depth - 1) as nat, acc.push(')'))
        }
    } else {
        balanced(s, i + 1, depth, acc.push(s[i]))
    }
}

pub proof fn lemma_balanced(s: Seq<char>, i: int, depth: nat, acc: Seq<char>)
    requires
        0 <= i,
    ensures
        balanced(s, i, depth, acc) matches Some((v, j)) ==> i < j <= s.len(),
    decreases s.len() - i,
{
    if 0 <= i < s.len() {
        if s[i] == '(' {
            lemma_balanced(s, i + 1, depth + 1, acc.push('('));
        } else if s[i] == ')' {
            if depth > 1 {
                lemma_balanced(s, i + 1, (depth - 1) as nat, acc.push(')'));
            }
        } else {
            lemma_balanced(s, i + 1, depth, acc.push(s[i]));
        }
    }
}

/// `'c'` at `i`, as the code of `c`.
pub open spec fn char_literal(s: Seq<char>, i: int) -> Option<(u64, int)> {
    if at(s, i, '\'') && i + 1 < s.len() && s[i + 1] != '\'' && at(s, i + 2, '\'') {
        Some((s[i + 1] as u64, i + 3))
    } else {
        None
    }
}

/// One cell of a cell array at `i`.
pub open spec fn cell(s: Seq<char>, i: int) -> Option<(CellV, int)> {
    if reference(s, i) is Some {
        let (r, j) = reference(s, i)->0;
        Some((CellV::Reference(r), j))
    } else if at(s, i, '(') && balanced(s, i + 1, 1, Seq::empty()) is Some {
        let (e, j) = balanced(s, i + 1, 1, Seq::empty())->0;
        Some((CellV::Expression(e), j))
    } else if ident(s, i) is Some && at(s, ident(s, i)->0, '(') && balanced(
        s,
        ident(s, i)->0 + 1,
        1,
        Seq::empty(),
    ) is Some {
        let n = ident(s, i)->0;
        let (a, j) = balanced(s, n + 1, 1, Seq::empty())->0;
        Some((CellV::Macro(s.subrange(i, n), a), j))
    } else if char_literal(s, i) is Some {
        let (v, j) = char_literal(s, i)->0;
        Some((CellV::Literal(v), j))
    } else if integer(s, i) is Some {
        let (v, j) = integer(s, i)->0;
        Some((CellV::Literal(v), j))
    } else {
        None
    }
}

pub proof fn lemma_cell(s: Seq<char>, i: int)
    requires
        0 <= i <= s.len(),
    ensures
        cell(s, i) matches Some((c, j)) ==> i < j <= s.len(),
{
    lemma_reference(s, i);
    lemma_balanced(s, i + 1, 1, Seq::empty());
    lemma_names(s, i);
    if let Some(n) = ident(s, i) {
        lemma_balanced(s, n + 1, 1, Seq::empty());
    }
    lemma_integer(s, i);
}

/// Cells, each after whitespace, added to `acc`.
pub open spec fn cells(s: Seq<char>, i: int, acc: Seq<CellV>) -> (Seq<CellV>, int)
    decreases s.len() - i,
{
    if !(0 <= i <= s.len()) {
        (acc, i)
    } else {
        let k = ws(s, i);
        proof {
            lemma_ws(s, i);
            lemma_cell(s, k);
        }
        match cell(s, k) {
            Some((c, j)) => cells(s, j, acc.push(c)),
            None => (acc, i),
        }
    }
}

pub proof fn lemma_cells(s: Seq<char>, i: int, acc: Seq<CellV>)
    requires
        0 <= i <= s.len(),
    ensures
        i <= cells(s, i, acc).1 <= s.len(),
    decreases s.len() - i,
{
    lemma_ws(s, i);
    lemma_cell(s, ws(s, i));
    if let Some((c, j)) = cell(s, ws(s, i)) {
        lemma_cells(s, j, acc.push(c));
    }
}

/// `<...>` at `i`.
pub open spec fn cell_array(s: Seq<char>, i: int) -> Option<(Seq<CellV>, int)> {
    if at(s, i, '<') {
        let (cs, j) = cells(s, i + 1, Seq::empty());
        let k = ws(s, j);
        if at(s, k, '>') {
            Some((cs, k + 1))
        } else {
            None
        }
    } else {
        None
    }
}

/// Two hexadecimal digits at `i`.
pub open spec fn hex_byte(s: Seq<char>, i: int) -> Option<(u8, int)> {
    if 0 <= i && i + 1 < s.len() && is_hex(s[i]) && is_hex(s[i + 1]) {
        Some(((hex_val(s[i]) * 16 + hex_val(s[i + 1])) as u8, i + 2))
    } else {
        None
    }
}

/// Bytes, each after whitespace, added to `acc`.
pub open spec fn hex_bytes(s: Seq<char>, i: int, acc: Seq<u8>) -> (Seq<u8>, int)
    decreases s.len() - i,
{
    if !(0 <= i <= s.len()) {
        (acc, i)
    } else {
        let k = ws(s, i);
        proof {
            lemma_ws(s, i);
        }
        match hex_byte(s, k) {
            Some((b, j)) => hex_bytes(s, j, acc.push(b)),
            None => (acc, i),
        }
    }
}

pub proof fn lemma_hex_bytes(s: Seq<char>, i: int, acc: Seq<u8>)
    requires
        0 <= i <= s.len(),
    ensures
        i <= hex_bytes(s, i, acc).1 <= s.len(),
    decreases s.len() - i,
{
    lemma_ws(s, i);
    if let Some((b, j)) = hex_byte(s, ws(s, i)) {
        lemma_hex_bytes(s, j, acc.push(b));
    }
}

/// `[...]` at `i`.
pub open spec fn byte_string(s: Seq<char>, i: int) -> Option<(Seq<u8>, int)> {
    if at(s, i, '[') {
        let (bs, j) = hex_bytes(s, i + 1, Seq::empty());
        let k = ws(s, j);
        if at(s, k, ']') {
            Some((bs, k + 1))
        } else {
            None
        }
    } else {
        None
    }
}

/// One comma-separated part of a property value at `i`.
pub open spec fn value_part(s: Seq<char>, i: int) -> Option<(PartV, int)> {
    if string_literal(s, i) is Some {
        let (v, j) = string_literal(s, i)->0;
        Some((PartV::StringLiteral(v), j))
    } else if cell_array(s, i) is Some {
        let (v, j) = cell_array(s, i)->0;
        Some((PartV::CellArray(v), j))
    } else if byte_string(s, i) is Some {
        let (v, j) = byte_string(s, i)->0;
        Some((PartV::ByteString(v), j))
    } else if reference(s, i) is Some {
        let (v, j) = reference(s, i)->0;
        Some((PartV::Reference(v), j))
    } else {
        None
    }
}

pub proof fn lemma_value_part(s: Seq<char>, i: int)
    requires
        0 <= i <= s.len(),
    ensures
        value_part(s, i) matches Some((p, j)) ==> i < j <= s.len(),
{
    lemma_str_body(s, i + 1, Seq::empty());
    if i < s.len() {
        lemma_cells(s, i + 1, Seq::empty());
        lemma_ws(s, cells(s, i + 1, Seq::empty()).1);
        lemma_hex_bytes(s, i + 1, Seq::empty());
        lemma_ws(s, hex_bytes(s, i + 1, Seq::empty()).1);
    }
    lemma_reference(s, i);
}

/// Further `, part` items, added to `acc`.
pub open spec fn value_rest(s: Seq<char>, i: int, acc: Seq<PartV>) -> (Seq<PartV>, int)
    decreases s.len() - i,
{
    if !(0 <= i <= s.len()) {
        (acc, i)
    } else {
        let j = ws(s, i);
        proof {
            lemma_ws(s, i);
        }
        if at(s, j, ',') {
            let k = ws(s, j + 1);
            proof {
                lemma_ws(s, j + 1);
                lemma_value_part(s, k);
            }
            match value_part(s, k) {
                Some((p, e)) => value_rest(s, e, acc.push(p)),
                None => (acc, i),
            }
        } else {
            (acc, i)
        }
    }
}

pub proof fn lemma_value_rest(s: Seq<char>, i: int, acc: Seq<PartV>)
    requires
        0 <= i <= s.len(),
    ensures
        i <= value_rest(s, i, acc).1 <= s.len(),
    decreases s.len() - i,
{
    let j = ws(s, i);
    lemma_ws(s, i);
    if at(s, j, ',') {
        lemma_ws(s, j + 1);
        lemma_value_part(s, ws(s, j + 1));
        if let Some((p, e)) = value_part(s, ws(s, j + 1)) {
            lemma_value_rest(s, e, acc.push(p));
        }
    }
}

/// A property value at `i`: one part and then any further `, part` items.
pub open spec fn prop_value(s: Seq<char>, i: int) -> Option<(Seq<PartV>, int)> {
    match value_part(s, i) {
        Some((p, j)) => Some(value_rest(s, j, seq![p])),
        None => None,
    }
}

/// Where and why a property value that does not parse at `i` is reported.
pub open spec fn value_error(s: Seq<char>, i: int) -> (int, ErrKind) {
    if at(s, i, '&') {
        (i + 1, ErrKind::Satisfy)
    } else {
        (i, ErrKind::Char)
    }
}


// -------------------------------------------------------------------------
// Nodes and properties
// -------------------------------------------------------------------------

/// A property at `i`: labels, a name, and either `;` or `= value;`.
pub open spec fn property(s: Seq<char>, i: int) -> Outcome<PropV> {
    if !(0 <= i <= s.len()) {
        Outcome::Backtrack
    } else {
        let (ls, i1) = labels(s, i, Seq::empty());
        match prop_name(s, i1) {
            None => Outcome::Backtrack,
            Some(j) => {
                let i2 = ws(s, j);
                if at(s, i2, '=') {
                    let i3 = ws(s, i2 + 1);
                    match prop_value(s, i3) {
                        None => Outcome::Cut(value_error(s, i3).0, value_error(s, i3).1),
                        Some((v, i4)) => {
                            let i5 = ws(s, i4);
                            if at(s, i5, ';') {
                                Outcome::Done(
                                    PropV { name: s.subrange(i1, j), value: Some(v), labels: ls },
                                    i5 + 1,
                                )
                            } else {
                                Outcome::Cut(i5, ErrKind::Char)
                            }
                        },
                    }
                } else if at(s, i2, ';') {
                    Outcome::Done(PropV { name: s.subrange(i1, j), value: None, labels: ls }, i2 + 1)
                } else {
                    Outcome::Backtrack
                }
            },
        }
    }
}

/// `/delete-property/ name;` at `i`.
pub open spec fn delete_property(s: Seq<char>, i: int) -> Option<(Seq<char>, int)> {
    if starts(s, i, "/delete-property/"@) {
        let k = ws(s, i + "/delete-property/"@.len());
        match prop_name(s, k) {
            Some(e) => {
                let m = ws(s, e);
                if at(s, m, ';') {
                    Some((s.subrange(k, e), m + 1))
                } else {
                    None
                }
            },
            None => None,
        }
    } else {
        None
    }
}

/// `/delete-node/ name;` at `i`, inside a node.
pub open spec fn delete_node(s: Seq<char>, i: int) -> Option<(Seq<char>, int)> {
    if starts(s, i, "/delete-node/"@) {
        let k = ws(s, i + "/delete-node/"@.len());
        match node_name(s, k) {
            Some(e) => {
                let m = ws(s, e);
                if at(s, m, ';') {
                    Some((s.subrange(k, e), m + 1))
                } else {
                    None
                }
            },
            None => None,
        }
    } else {
        None
    }
}

/// An item of a node body.
pub enum ItemV {
    Prop(PropV),
    Child(NodeV),
    DeleteProp(Seq<char>),
    DeleteNode(Seq<char>),
}

/// `n` with the item added to the list it belongs to.
pub open spec fn add_item(n: NodeV, it: ItemV) -> NodeV {
    match it {
        ItemV::Prop(p) => NodeV { properties: n.properties.push(p), ..n },
        ItemV::Child(c) => NodeV { children: n.children.push(c), ..n },
        ItemV::DeleteProp(x) => NodeV { deleted_properties: n.deleted_properties.push(x), ..n },
        ItemV::DeleteNode(x) => NodeV { deleted_nodes: n.deleted_nodes.push(x), ..n },
    }
}

/// The items of a node body from `i`, each after whitespace, added to `acc`.
pub open spec fn body(s: Seq<char>, i: int, acc: NodeV) -> Outcome<NodeV>
    decreases s.len() - i, 2nat,
{
    if !(0 <= i <= s.len()) {
        Outcome::Done(acc, i)
    } else {
        let j = ws(s, i);
        proof {
            lemma_ws(s, i);
        }
        match node_item(s, j) {
            Outcome::Done(it, k) => {
                if i < k <= s.len() {
                    body(s, k, add_item(acc, it))
                } else {
                    Outcome::Done(acc, i)
                }
            },
            Outcome::Backtrack => Outcome::Done(acc, i),
            Outcome::Cut(p, e) => Outcome::Cut(p, e),
        }
    }
}

/// One item of a node body at `i`.
pub open spec fn node_item(s: Seq<char>, i: int) -> Outcome<ItemV>
    decreases s.len() - i, 1nat,
{
    if delete_property(s, i) is Some {
        let (x, k) = delete_property(s, i)->0;
        Outcome::Done(ItemV::DeleteProp(x), k)
    } else if delete_node(s, i) is Some {
        let (x, k) = delete_node(s, i)->0;
        Outcome::Done(ItemV::DeleteNode(x), k)
    } else {
        match child_node(s, i) {
            Outcome::Done(n, k) => Outcome::Done(ItemV::Child(n), k),
            Outcome::Cut(p, e) => Outcome::Cut(p, e),
            Outcome::Backtrack => match property(s, i) {
                Outcome::Done(p, k) => Outcome::Done(ItemV::Prop(p), k),
                Outcome::Cut(p, e) => Outcome::Cut(p, e),
                Outcome::Backtrack => Outcome::Backtrack,
            },
        }
    }
}

/// The position after an optional `/omit-if-no-ref/` marker at `i`.
pub open spec fn omit_marker(s: Seq<char>, i: int) -> int {
    if starts(s, i, "/omit-if-no-ref/"@) {
        ws(s, i + "/omit-if-no-ref/"@.len())
    } else {
        i
    }
}

/// The unit address after the node name that ends at `j`, and the position after it.
pub open spec fn unit_address(s: Seq<char>, j: int) -> (Option<Seq<char>>, int) {
    if at(s, j, '@') && span(s, j + 1, Class::UnitAddress) > j + 1 {
        (Some(s.subrange(j + 1, span(s, j + 1, Class::UnitAddress))), span(s, j + 1, Class::UnitAddress))
    } else {
        (None, j)
    }
}

/// The closing `};` of a node whose body ended at `i`: the position after it.
pub open spec fn node_close(s: Seq<char>, i: int) -> Outcome<()> {
    let i6 = ws(s, i);
    if !at(s, i6, '}') {
        Outcome::Cut(i6, ErrKind::Char)
    } else {
        let i7 = ws(s, i6 + 1);
        if !at(s, i7, ';') {
            Outcome::Cut(i7, ErrKind::Char)
        } else {
            Outcome::Done((), i7 + 1)
        }
    }
}

/// A child node at `i`.
pub open spec fn child_node(s: Seq<char>, i: int) -> Outcome<NodeV>
    decreases s.len() - i, 0nat,
{
    if !(0 <= i <= s.len()) {
        Outcome::Backtrack
    } else {
        let i1 = omit_marker(s, i);
        proof {
            if starts(s, i, "/omit-if-no-ref/"@) {
                lemma_ws(s, i + "/omit-if-no-ref/"@.len());
            }
            lemma_labels(s, i1, Seq::empty());
        }
        let (ls, i2) = labels(s, i1, Seq::empty());
        proof {
            lemma_names(s, i2);
        }
        match node_name(s, i2) {
            None => Outcome::Backtrack,
            Some(j) => {
                let (ua, i3) = unit_address(s, j);
                proof {
                    if at(s, j, '@') {
                        lemma_span(s, j + 1, Class::UnitAddress);
                    }
                    lemma_ws(s, i3);
                }
                let i4 = ws(s, i3);
                if !at(s, i4, '{') {
                    Outcome::Backtrack
                } else {
                    match body(s, i4 + 1, bare_node_v(Seq::empty())) {
                        Outcome::Done(n, i5) => match node_close(s, i5) {
                            Outcome::Done(_, e) => Outcome::Done(
                                NodeV { name: s.subrange(i2, j), unit_address: ua, labels: ls, ..n },
                                e,
                            ),
                            Outcome::Cut(p, k) => Outcome::Cut(p, k),
                            Outcome::Backtrack => Outcome::Backtrack,
                        },
                        Outcome::Cut(p, k) => Outcome::Cut(p, k),
                        Outcome::Backtrack => Outcome::Backtrack,
                    }
                }
            },
        }
    }
}

// -------------------------------------------------------------------------
// Top level
// -------------------------------------------------------------------------

/// A keyword followed by `;` (after optional whitespace) at `i`.
pub open spec fn keyword_semi(s: Seq<char>, i: int, kw: Seq<char>) -> Option<int> {
    if starts(s, i, kw) && at(s, ws(s, i + kw.len()), ';') {
        Some(ws(s, i + kw.len()) + 1)
    } else {
        None
    }
}

/// `#include "file"` or `#include <file>` at `i`.
pub open spec fn c_include(s: Seq<char>, i: int) -> Option<(IncludeV, int)> {
    if !at(s, i, '#') {
        None
    } else {
        let j = span(s, i + 1, Class::Blank);
        if !starts(s, j, "include"@) {
            None
        } else {
            let k = span(s, j + "include"@.len(), Class::Blank);
            if delimited_string(s, k) is Some {
                let (p, e) = delimited_string(s, k)->0;
                Some((IncludeV { path: p, kind: IncludeKind::CPreprocessor }, e))
            } else if at(s, k, '<') && find_char(s, k + 1, '>') is Some {
                let m = find_char(s, k + 1, '>')->0;
                Some((IncludeV { path: s.subrange(k + 1, m), kind: IncludeKind::CPreprocessor }, m + 1))
            } else {
                None
            }
        }
    }
}

/// `/include/ "file"` at `i`.
pub open spec fn dts_include(s: Seq<char>, i: int) -> Option<(IncludeV, int)> {
    if starts(s, i, "/include/"@) {
        match delimited_string(s, ws(s, i + "/include/"@.len())) {
            Some((p, e)) => Some((IncludeV { path: p, kind: IncludeKind::DtsInclude }, e)),
            None => None,
        }
    } else {
        None
    }
}

/// `/memreserve/ address size;` at `i`.
pub open spec fn memreserve(s: Seq<char>, i: int) -> Option<(MemoryReservation, int)> {
    if starts(s, i, "/memreserve/"@) {
        match integer(s, ws(s, i + "/memreserve/"@.len())) {
            Some((a, j)) => match integer(s, ws(s, j)) {
                Some((z, k)) => {
                    let m = ws(s, k);
                    if at(s, m, ';') {
                        Some((MemoryReservation { address: a, size: z }, m + 1))
                    } else {
                        None
                    }
                },
                None => None,
            },
            None => None,
        }
    } else {
        None
    }
}

/// Any other preprocessor line at `i`: the position of the line feed that ends it.
pub open spec fn preprocessor(s: Seq<char>, i: int) -> Option<int> {
    if at(s, i, '#') {
        Some(span(s, i + 1, Class::NotLineFeed))
    } else {
        None
    }
}

/// `/delete-node/ &label;` or `/delete-node/ name;` at the top level.
pub open spec fn top_delete_node(s: Seq<char>, i: int) -> Option<int> {
    if starts(s, i, "/delete-node/"@) {
        let k = ws(s, i + "/delete-node/"@.len());
        let e = if reference(s, k) is Some {
            Some((reference(s, k)->0).1)
        } else {
            node_name(s, k)
        };
        match e {
            Some(e) => {
                let m = ws(s, e);
                if at(s, m, ';') {
                    Some(m + 1)
                } else {
                    None
                }
            },
            None => None,
        }
    } else {
        None
    }
}

/// The root node `/ { ... };` (with optional labels) at `i`.
pub open spec fn root_node(s: Seq<char>, i: int) -> Outcome<NodeV> {
    if !(0 <= i <= s.len()) {
        Outcome::Backtrack
    } else {
        let (ls, i1) = labels(s, i, Seq::empty());
        let i2 = ws(s, i1 + 1);
        if !at(s, i1, '/') || !at(s, i2, '{') {
            Outcome::Backtrack
        } else {
            match body(s, i2 + 1, bare_node_v(Seq::empty())) {
                Outcome::Done(n, i3) => match node_close(s, i3) {
                    Outcome::Done(_, e) => Outcome::Done(NodeV { name: Seq::empty(), labels: ls, ..n }, e),
                    Outcome::Cut(p, k) => Outcome::Cut(p, k),
                    Outcome::Backtrack => Outcome::Backtrack,
                },
                Outcome::Cut(p, k) => Outcome::Cut(p, k),
                Outcome::Backtrack => Outcome::Backtrack,
            }
        }
    }
}

/// A node override `&ref { ... };` at `i`.
pub open spec fn reference_node(s: Seq<char>, i: int) -> Outcome<RefNodeV> {
    match reference(s, i) {
        None => Outcome::Backtrack,
        Some((r, j)) => {
            let i2 = ws(s, j);
            if !at(s, i2, '{') {
                Outcome::Backtrack
            } else {
                match body(s, i2 + 1, bare_node_v(Seq::empty())) {
                    Outcome::Done(n, i3) => match node_close(s, i3) {
                        Outcome::Done(_, e) => Outcome::Done(RefNodeV { reference: r, node: n }, e),
                        Outcome::Cut(p, k) => Outcome::Cut(p, k),
                        Outcome::Backtrack => Outcome::Backtrack,
                    },
                    Outcome::Cut(p, k) => Outcome::Cut(p, k),
                    Outcome::Backtrack => Outcome::Backtrack,
                }
            }
        },
    }
}

/// An item at the top level of a file.
pub enum TopV {
    Version,
    Plugin,
    Include(IncludeV),
    MemReserve(MemoryReservation),
    Root(NodeV),
    RefNode(RefNodeV),
    Skip,
}

/// The top-level item at `i`, trying each form in turn.
pub open spec fn top_item(s: Seq<char>, i: int) -> Outcome<TopV> {
    if keyword_semi(s, i, "/dts-v1/"@) is Some {
        Outcome::Done(TopV::Version, keyword_semi(s, i, "/dts-v1/"@)->0)
    } else if keyword_semi(s, i, "/plugin/"@) is Some {
        Outcome::Done(TopV::Plugin, keyword_semi(s, i, "/plugin/"@)->0)
    } else if c_include(s, i) is Some {
        Outcome::Done(TopV::Include((c_include(s, i)->0).0), (c_include(s, i)->0).1)
    } else if dts_include(s, i) is Some {
        Outcome::Done(TopV::Include((dts_include(s, i)->0).0), (dts_include(s, i)->0).1)
    } else if memreserve(s, i) is Some {
        Outcome::Done(TopV::MemReserve((memreserve(s, i)->0).0), (memreserve(s, i)->0).1)
    } else {
        match root_node(s, i) {
            Outcome::Done(n, k) => Outcome::Done(TopV::Root(n), k),
            Outcome::Cut(p, e) => Outcome::Cut(p, e),
            Outcome::Backtrack => match reference_node(s, i) {
                Outcome::Done(r, k) => Outcome::Done(TopV::RefNode(r), k),
                Outcome::Cut(p, e) => Outcome::Cut(p, e),
                Outcome::Backtrack => if top_delete_node(s, i) is Some {
                    Outcome::Done(TopV::Skip, top_delete_node(s, i)->0)
                } else if preprocessor(s, i) is Some {
                    Outcome::Done(TopV::Skip, preprocessor(s, i)->0)
                } else {
                    Outcome::Backtrack
                },
            },
        }
    }
}

/// The labels of `t` followed by those of `src` that it does not hold yet,
/// each taken once as it comes.
pub open spec fn merge_labels(t: Seq<Seq<char>>, src: Seq<Seq<char>>) -> Seq<Seq<char>>
    decreases src.len(),
{
    if src.len() == 0 {
        t
    } else if t.contains(src[0]) {
        merge_labels(t, src.drop_first())
    } else {
        merge_labels(t.push(src[0]), src.drop_first())
    }
}

/// `src` merged into `t`: its properties, children and deletions appended,
/// its new labels added.
pub open spec fn merge_node_v(t: NodeV, src: NodeV) -> NodeV {
    NodeV {
        properties: t.properties + src.properties,
        children: t.children + src.children,
        deleted_properties: t.deleted_properties + src.deleted_properties,
        deleted_nodes: t.deleted_nodes + src.deleted_nodes,
        labels: merge_labels(t.labels, src.labels),
        ..t
    }
}

/// Merging labels keeps those of `t` first and in order, holds exactly the
/// labels of either side, and adds no repeat to a list without one.
pub proof fn lemma_merge_labels(t: Seq<Seq<char>>, src: Seq<Seq<char>>)
    ensures
        merge_labels(t, src).len() >= t.len(),
        merge_labels(t, src).subrange(0, t.len() as int) == t,
        forall|l: Seq<char>|
            #[trigger] merge_labels(t, src).contains(l) <==> t.contains(l) || src.contains(l),
        t.no_duplicates() ==> merge_labels(t, src).no_duplicates(),
    decreases src.len(),
{
    if src.len() > 0 {
        let x = src[0];
        let rest = src.drop_first();
        let t2 = if t.contains(x) {
            t
        } else {
            t.push(x)
        };
        lemma_merge_labels(t2, rest);
        let r = merge_labels(t, src);
        assert(r == merge_labels(t2, rest));
        assert(r.subrange(0, t.len() as int) =~= t) by {
            assert forall|i: int| 0 <= i < t.len() implies r.subrange(0, t.len() as int)[i] == t[i] by {
                assert(r[i] == r.subrange(0, t2.len() as int)[i]);
                assert(t2[i] == t[i]);
            }
        }
        assert forall|l: Seq<char>| #[trigger] r.contains(l) <==> t.contains(l) || src.contains(l) by {
            if src.contains(l) && !rest.contains(l) {
                let j = choose|j: int| 0 <= j < src.len() && src[j] == l;
                if j > 0 {
                    assert(rest[j - 1] == l);
                }
                assert(l == x);
                if !t.contains(x) {
                    assert(t2[t.len() as int] == x);
                }
            }
            if rest.contains(l) {
                let j = choose|j: int| 0 <= j < rest.len() && rest[j] == l;
                assert(src[j + 1] == l);
            }
            if t.contains(l) {
                let j = choose|j: int| 0 <= j < t.len() && t[j] == l;
                assert(t2[j] == l);
            }
            if t2.contains(l) && !t.contains(l) {
                let j = choose|j: int| 0 <= j < t2.len() && t2[j] == l;
                assert(j == t.len());
                assert(src[0] == l);
            }
        }
        if t.no_duplicates() && !t.contains(x) {
            assert(t2.no_duplicates()) by {
                assert forall|i: int, j: int| 0 <= i < t2.len() && 0 <= j < t2.len() && i != j
                    implies t2[i] != t2[j] by {
                    if i < t.len() && j < t.len() {
                        assert(t2[i] == t[i] && t2[j] == t[j]);
                    } else if i < t.len() {
                        assert(t2[i] == t[i]);
                    } else if j < t.len() {
                        assert(t2[j] == t[j]);
                    }
                }
            }
        }
    }
}

/// Merging node `src` into node `t` keeps the name and unit address of `t`,
/// puts the properties, children, deleted properties and deleted nodes of
/// `src` after those of `t`, and keeps the labels of `t` first, followed by
/// those of `src` that `t` lacks: every label of either side, none twice
/// where `t` had none twice.
pub proof fn law_merge_node_appends(t: NodeV, src: NodeV)
    ensures
        merge_node_v(t, src).name == t.name,
        merge_node_v(t, src).unit_address == t.unit_address,
        merge_node_v(t, src).properties.len() == t.properties.len() + src.properties.len(),
        merge_node_v(t, src).properties.subrange(0, t.properties.len() as int) == t.properties,
        merge_node_v(t, src).properties.subrange(
            t.properties.len() as int,
            merge_node_v(t, src).properties.len() as int,
        ) == src.properties,
        merge_node_v(t, src).children.len() == t.children.len() + src.children.len(),
        forall|i: int| 0 <= i < t.children.len() ==> #[trigger] merge_node_v(t, src).children[i] == t.children[i],
        forall|i: int|
            0 <= i < src.children.len() ==> #[trigger] merge_node_v(t, src).children[t.children.len()
                + i] == src.children[i],
        merge_node_v(t, src).deleted_properties == t.deleted_properties + src.deleted_properties,
        merge_node_v(t, src).deleted_nodes == t.deleted_nodes + src.deleted_nodes,
        merge_node_v(t, src).labels.subrange(0, t.labels.len() as int) == t.labels,
        forall|l: Seq<char>|
            #[trigger] merge_node_v(t, src).labels.contains(l) <==> t.labels.contains(l)
                || src.labels.contains(l),
        t.labels.no_duplicates() ==> merge_node_v(t, src).labels.no_duplicates(),
{
    lemma_merge_labels(t.labels, src.labels);
    let r = merge_node_v(t, src);
    assert(r.properties.subrange(0, t.properties.len() as int) =~= t.properties);
    assert(r.properties.subrange(t.properties.len() as int, r.properties.len() as int)
        =~= src.properties);
}

/// A second root block merges into the first: the root keeps its own
/// children and gets those of the second block after them, and likewise
/// its properties.
pub proof fn law_second_root_block_appends(t: TreeV, n: NodeV)
    requires
        t.root is Some,
    ensures
        apply_top(t, TopV::Root(n)).root is Some,
        apply_top(t, TopV::Root(n)).root->0.children.len() == t.root->0.children.len()
            + n.children.len(),
        forall|i: int|
            0 <= i < t.root->0.children.len() ==> #[trigger] apply_top(
                t,
                TopV::Root(n),
            ).root->0.children[i] == t.root->0.children[i],
        forall|i: int|
            0 <= i < n.children.len() ==> #[trigger] apply_top(t, TopV::Root(n)).root->0.children[t.root->0.children.len()
                + i] == n.children[i],
        apply_top(t, TopV::Root(n)).root->0.properties.len() == t.root->0.properties.len()
            + n.properties.len(),
{
    law_merge_node_appends(t.root->0, n);
}

/// The tree with a top-level item taken into account.
pub open spec fn apply_top(t: TreeV, it: TopV) -> TreeV {
    match it {
        TopV::Version => TreeV { version: Some(DtsVersion::V1), ..t },
        TopV::Plugin => TreeV { is_plugin: true, ..t },
        TopV::Include(inc) => TreeV { includes: t.includes.push(inc), ..t },
        TopV::MemReserve(m) => TreeV { memory_reservations: t.memory_reservations.push(m), ..t },
        TopV::Root(n) => match t.root {
            Some(r) => TreeV { root: Some(merge_node_v(r, n)), ..t },
            None => TreeV { root: Some(n), ..t },
        },
        TopV::RefNode(r) => TreeV { reference_nodes: t.reference_nodes.push(r), ..t },
        TopV::Skip => t,
    }
}

/// The top-level items from `i`, each after whitespace, applied to `acc`.
pub open spec fn file_items(s: Seq<char>, i: int, acc: TreeV) -> Outcome<TreeV>
    decreases s.len() - i,
{
    if !(0 <= i <= s.len()) {
        Outcome::Done(acc, i)
    } else {
        match top_item(s, ws(s, i)) {
            Outcome::Done(it, k) => {
                if i < k <= s.len() {
                    file_items(s, k, apply_top(acc, it))
                } else {
                    Outcome::Done(acc, i)
                }
            },
            Outcome::Backtrack => Outcome::Done(acc, i),
            Outcome::Cut(p, e) => Outcome::Cut(p, e),
        }
    }
}

/// A whole file: the tree and the position where parsing stopped.
pub open spec fn file(s: Seq<char>) -> Outcome<TreeV> {
    match file_items(s, ws(s, 0), empty_tree_v()) {
        Outcome::Done(t, e) => Outcome::Done(t, ws(s, e)),
        Outcome::Cut(p, k) => Outcome::Cut(p, k),
        Outcome::Backtrack => Outcome::Backtrack,
    }
}

} // verus!

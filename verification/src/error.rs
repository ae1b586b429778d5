//! Parse errors: where in the source they are and what went wrong.
use vstd::prelude::*;
use crate::grammar::{at, find_char, file, lemma_find_char, ErrKind, Outcome};
use crate::model::{TreeV, DeviceTree};
use crate::parser::{find_char_from, p_file, parsed_is, Parsed, opt_pos};
use crate::text::{
    ascii_ws, bytes_len, char_utf8_len, is_ascii_ws, is_unicode_ws, push_chars, push_str,
    substring, to_chars, unicode_ws, utf8_len, decimal, dec_str,
};

verus! {

#[derive(Debug)]
pub enum ParseErrorKind {
    /// The source does not follow the grammar; the message says what was found.
    Syntax(String),
    /// The grammar was followed up to a point after which text remains.
    TrailingInput,
}

#[derive(Debug)]
pub struct ParseError {
    /// The line of the error, counted from 1.
    pub line: usize,
    /// The column of the error in bytes, counted from 1.
    pub column: usize,
    pub kind: ParseErrorKind,
    /// The source line that holds the error.
    pub context_line: String,
}

pub enum ErrorKindV {
    Syntax(Seq<char>),
    TrailingInput,
}

pub struct ParseErrorV {
    pub line: int,
    pub column: int,
    pub kind: ErrorKindV,
    pub context_line: Seq<char>,
}

impl View for ParseError {
    type V = ParseErrorV;

    open spec fn view(&self) -> ParseErrorV {
        ParseErrorV {
            line: self.line as int,
            column: self.column as int,
            kind: match self.kind {
                ParseErrorKind::Syntax(m) => ErrorKindV::Syntax(m@),
                ParseErrorKind::TrailingInput => ErrorKindV::TrailingInput,
            },
            context_line: self.context_line@,
        }
    }
}

/// `n` spaces.
pub open spec fn spaces(n: nat) -> Seq<char> {
    Seq::new(n, |i: int| ' ')
}

/// `s` right-aligned in a field of `w` characters.
pub open spec fn pad_left(s: Seq<char>, w: nat) -> Seq<char> {
    if s.len() < w {
        spaces((w - s.len()) as nat) + s
    } else {
        s
    }
}

/// The report of a parse error: where it is, the line with a caret under
/// the column, and what went wrong.
pub open spec fn error_text(e: ParseErrorV) -> Seq<char> {
    let l = dec_str(e.line as nat);
    let c = dec_str(e.column as nat);
    let head = match e.kind {
        ErrorKindV::Syntax(_) => "parse error at line "@,
        ErrorKindV::TrailingInput => "unexpected input at line "@,
    };
    let tail = match e.kind {
        ErrorKindV::Syntax(m) => m,
        ErrorKindV::TrailingInput => "parser finished but input remains; possible missing `;` or `}`"@,
    };
    head + l + ", column "@ + c + ":\n  --> "@ + l + ":"@ + c + "\n   |\n"@ + pad_left(l, 3)
        + " | "@ + e.context_line + "\n   | "@ + spaces(
        if e.column > 0 {
            (e.column - 1) as nat
        } else {
            0
        },
    ) + "^\n   = "@ + tail
}

/// Adds `n` spaces.
fn push_spaces(out: &mut String, n: usize)
    ensures
        final(out)@ == old(out)@ + spaces(n as nat),
{
    let mut k: usize = 0;
    while k < n
        invariant
            k <= n,
            out@ == old(out)@ + spaces(k as nat),
        decreases n - k,
    {
        out.push(' ');
        k = k + 1;
        assert(out@ =~= old(out)@ + spaces(k as nat));
    }
}

impl ParseError {
    /// The report of the error, as `error_text` lays it out.
    pub fn to_text(&self) -> (r: String)
        ensures
            r@ == error_text(self@),
    {
        let l = decimal(self.line as u64);
        let c = decimal(self.column as u64);
        let mut out = String::new();
        match &self.kind {
            ParseErrorKind::Syntax(_) => push_str(&mut out, "parse error at line "),
            ParseErrorKind::TrailingInput => push_str(&mut out, "unexpected input at line "),
        }
        push_str(&mut out, l.as_str());
        push_str(&mut out, ", column ");
        push_str(&mut out, c.as_str());
        push_str(&mut out, ":\n  --> ");
        push_str(&mut out, l.as_str());
        push_str(&mut out, ":");
        push_str(&mut out, c.as_str());
        push_str(&mut out, "\n   |\n");
        let digits = to_chars(l.as_str()).len();
        if digits < 3 {
            push_spaces(&mut out, 3 - digits);
        }
        push_str(&mut out, l.as_str());
        push_str(&mut out, " | ");
        push_str(&mut out, self.context_line.as_str());
        push_str(&mut out, "\n   | ");
        push_spaces(
            &mut out,
            if self.column > 0 {
                self.column - 1
            } else {
                0
            },
        );
        push_str(&mut out, "^\n   = ");
        match &self.kind {
            ParseErrorKind::Syntax(m) => push_str(&mut out, m.as_str()),
            ParseErrorKind::TrailingInput => push_str(
                &mut out,
                "parser finished but input remains; possible missing `;` or `}`",
            ),
        }
        out
    }
}

// -------------------------------------------------------------------------
// Locations
// -------------------------------------------------------------------------

/// The number of line feeds in `s`.
pub open spec fn count_lf(s: Seq<char>) -> nat
    decreases s.len(),
{
    if s.len() == 0 {
        0
    } else {
        count_lf(s.drop_last()) + if s.last() == '\n' {
            1nat
        } else {
            0nat
        }
    }
}

/// The start of the line that holds position `k`.
pub open spec fn line_start(s: Seq<char>, k: int) -> int
    decreases k,
{
    if k <= 0 {
        0
    } else if s[k - 1] == '\n' {
        k
    } else {
        line_start(s, k - 1)
    }
}

/// The end (line feed or end of text) of the line that holds position `k`.
pub open spec fn line_end(s: Seq<char>, k: int) -> int {
    match find_char(s, k, '\n') {
        Some(m) => m,
        None => s.len() as int,
    }
}

/// Line (from 1), column in bytes (from 1) and text of the line at position `k`.
pub open spec fn location(s: Seq<char>, k: int) -> (int, int, Seq<char>) {
    (
        (count_lf(s.subrange(0, k)) + 1) as int,
        (bytes_len(s.subrange(line_start(s, k), k)) + 1) as int,
        s.subrange(line_start(s, k), line_end(s, k)),
    )
}

/// The position from `k` on whose prefix takes exactly `off` bytes.
pub open spec fn byte_index_from(s: Seq<char>, k: int, off: int) -> Option<int>
    decreases s.len() - k,
{
    if !(0 <= k <= s.len()) {
        None
    } else if bytes_len(s.subrange(0, k)) == off {
        Some(k)
    } else if k == s.len() {
        None
    } else {
        byte_index_from(s, k + 1, off)
    }
}

/// The position whose prefix takes exactly `off` bytes, if there is one.
pub open spec fn byte_index(s: Seq<char>, off: int) -> Option<int> {
    byte_index_from(s, 0, off)
}

pub proof fn lemma_bytes_len_concat(x: Seq<char>, y: Seq<char>)
    ensures
        bytes_len(x + y) == bytes_len(x) + bytes_len(y),
    decreases y.len(),
{
    if y.len() > 0 {
        lemma_bytes_len_concat(x, y.drop_last());
        assert((x + y).drop_last() =~= x + y.drop_last());
    } else {
        assert(x + y =~= x);
    }
}

pub proof fn lemma_bytes_len_parts(s: Seq<char>, a: int, b: int)
    requires
        0 <= a <= b <= s.len(),
    ensures
        bytes_len(s.subrange(a, b)) <= bytes_len(s),
        b - a <= bytes_len(s.subrange(a, b)),
    decreases b - a,
{
    lemma_bytes_len_concat(s.subrange(0, a), s.subrange(a, b));
    lemma_bytes_len_concat(s.subrange(0, a) + s.subrange(a, b), s.subrange(b, s.len() as int));
    assert(s.subrange(0, a) + s.subrange(a, b) + s.subrange(b, s.len() as int) =~= s);
    if b > a {
        lemma_bytes_len_parts(s, a, b - 1);
        assert(s.subrange(a, b).drop_last() =~= s.subrange(a, b - 1));
    }
}

pub proof fn lemma_bytes_len_step(s: Seq<char>, a: int, b: int)
    requires
        0 <= a <= b < s.len(),
    ensures
        bytes_len(s.subrange(a, b + 1)) == bytes_len(s.subrange(a, b)) + utf8_len(s[b]),
{
    assert(s.subrange(a, b + 1).drop_last() =~= s.subrange(a, b));
}

/// The number of bytes that UTF-8 takes for `v[a..b]`.
pub fn bytes_in(v: &Vec<char>, a: usize, b: usize) -> (n: usize)
    requires
        a <= b <= v.len(),
        bytes_len(v@) <= usize::MAX,
    ensures
        n == bytes_len(v@.subrange(a as int, b as int)),
{
    let mut n: usize = 0;
    let mut k = a;
    assert(v@.subrange(a as int, a as int) =~= Seq::<char>::empty());
    while k < b
        invariant
            a <= k <= b <= v.len(),
            bytes_len(v@) <= usize::MAX,
            n == bytes_len(v@.subrange(a as int, k as int)),
        decreases b - k,
    {
        proof {
            lemma_bytes_len_step(v@, a as int, k as int);
            lemma_bytes_len_parts(v@, a as int, k + 1);
        }
        n = n + char_utf8_len(v[k]);
        k = k + 1;
    }
    n
}

/// The position of `v` whose prefix takes exactly `off` bytes, if there is one.
pub fn byte_position(v: &Vec<char>, off: usize) -> (r: Option<usize>)
    requires
        bytes_len(v@) <= usize::MAX,
    ensures
        opt_pos(r) == byte_index(v@, off as int),
{
    let mut k: usize = 0;
    let mut n: usize = 0;
    assert(v@.subrange(0, 0) =~= Seq::<char>::empty());
    loop
        invariant
            k <= v.len(),
            bytes_len(v@) <= usize::MAX,
            n == bytes_len(v@.subrange(0, k as int)),
            byte_index(v@, off as int) == byte_index_from(v@, k as int, off as int),
        decreases v.len() - k,
    {
        if n == off {
            return Some(k);
        }
        if k == v.len() {
            return None;
        }
        proof {
            lemma_bytes_len_step(v@, 0, k as int);
            lemma_bytes_len_parts(v@, 0, k + 1);
        }
        n = n + char_utf8_len(v[k]);
        k = k + 1;
    }
}

/// Line, column and line text at position `k` of `s`.
pub fn location_at(s: &Vec<char>, k: usize) -> (r: (usize, usize, String))
    requires
        k <= s.len(),
        bytes_len(s@) < usize::MAX,
    ensures
        (r.0 as int, r.1 as int, r.2@) == location(s@, k as int),
{
    let mut lines: usize = 0;
    let mut start: usize = 0;
    let mut m: usize = 0;
    assert(s@.subrange(0, 0) =~= Seq::<char>::empty());
    proof {
        lemma_bytes_len_parts(s@, 0, s.len() as int);
        assert(s@.subrange(0, s.len() as int) =~= s@);
    }
    while m < k
        invariant
            m <= k <= s.len(),
            s.len() <= bytes_len(s@) < usize::MAX,
            lines == count_lf(s@.subrange(0, m as int)),
            lines <= m,
            start == line_start(s@, m as int),
            start <= m,
        decreases k - m,
    {
        assert(s@.subrange(0, m + 1).drop_last() =~= s@.subrange(0, m as int));
        if s[m] == '\n' {
            lines = lines + 1;
            start = m + 1;
        }
        m = m + 1;
    }
    let col = bytes_in(s, start, k);
    proof {
        lemma_bytes_len_parts(s@, start as int, k as int);
    }
    let end = match find_char_from(s, k, '\n') {
        Some(e) => e,
        None => s.len(),
    };
    proof {
        lemma_find_char(s@, k as int, '\n');
    }
    (lines + 1, col + 1, substring(s, start, end))
}

/// Line, column and line text of the place where `remaining` starts in
/// `source`, taking `remaining` to be the last bytes of `source`.
pub fn location_in(source: &str, remaining: &str) -> (r: (usize, usize, String))
    requires
        bytes_len(remaining@) <= bytes_len(source@) < usize::MAX,
        byte_index(source@, bytes_len(source@) - bytes_len(remaining@)) is Some,
    ensures
        (r.0 as int, r.1 as int, r.2@) == location(
            source@,
            byte_index(source@, bytes_len(source@) - bytes_len(remaining@))->0,
        ),
{
    let s = to_chars(source);
    let rest = to_chars(remaining);
    let total = bytes_in(&s, 0, s.len());
    let tail = bytes_in(&rest, 0, rest.len());
    proof {
        assert(s@.subrange(0, s@.len() as int) =~= s@);
        assert(rest@.subrange(0, rest@.len() as int) =~= rest@);
    }
    let k = byte_position(&s, total - tail).unwrap();
    proof {
        lemma_byte_index(s@, 0, (total - tail) as int);
    }
    location_at(&s, k)
}

/// `find_char` gives the first occurrence: none lies before it, and where
/// it finds none there is none.
proof fn lemma_find_char_first(s: Seq<char>, i: int, c: char)
    requires
        0 <= i <= s.len(),
    ensures
        match find_char(s, i, c) {
            Some(m) => forall|j: int| i <= j < m ==> s[j] != c,
            None => forall|j: int| i <= j < s.len() ==> s[j] != c,
        },
    decreases s.len() - i,
{
    if i < s.len() && s[i] != c {
        lemma_find_char_first(s, i + 1, c);
    }
}

/// Where the line of position `k` starts: just after the last line feed
/// before `k`, or at 0.
proof fn lemma_line_start(s: Seq<char>, k: int)
    requires
        0 <= k <= s.len(),
    ensures
        0 <= line_start(s, k) <= k,
        line_start(s, k) == 0 || s[line_start(s, k) - 1] == '\n',
        forall|j: int| line_start(s, k) <= j < k ==> s[j] != '\n',
    decreases k,
{
    if k > 0 && s[k - 1] != '\n' {
        lemma_line_start(s, k - 1);
    }
}

/// The location of position `k` by the line feeds around it: the line is one
/// more than the line feeds before `k`; the line runs from just after the
/// last line feed before `k` (or the start) to the first line feed from `k`
/// on (or the end), and holds none; the column is one more than the bytes
/// from the line's start to `k`.
pub proof fn law_location_by_line_feeds(s: Seq<char>, k: int)
    requires
        0 <= k <= s.len(),
    ensures
        location(s, k).0 == count_lf(s.subrange(0, k)) + 1,
        location(s, k).0 >= 1,
        location(s, k).1 >= 1,
        0 <= line_start(s, k) <= k <= line_end(s, k) <= s.len(),
        line_start(s, k) == 0 || s[line_start(s, k) - 1] == '\n',
        line_end(s, k) == s.len() || s[line_end(s, k)] == '\n',
        forall|j: int| line_start(s, k) <= j < line_end(s, k) ==> s[j] != '\n',
        location(s, k).1 == bytes_len(s.subrange(line_start(s, k), k)) + 1,
        location(s, k).2 == s.subrange(line_start(s, k), line_end(s, k)),
        !location(s, k).2.contains('\n'),
{
    lemma_line_start(s, k);
    lemma_find_char(s, k, '\n');
    lemma_find_char_first(s, k, '\n');
    let a = line_start(s, k);
    let b = line_end(s, k);
    let t = location(s, k).2;
    assert forall|j: int| 0 <= j < t.len() implies t[j] != '\n' by {
        assert(t[j] == s[a + j]);
    }
}

pub proof fn lemma_byte_index(s: Seq<char>, k: int, off: int)
    requires
        0 <= k,
    ensures
        byte_index_from(s, k, off) matches Some(p) ==> k <= p <= s.len(),
    decreases s.len() - k,
{
    if 0 <= k < s.len() && bytes_len(s.subrange(0, k)) != off {
        lemma_byte_index(s, k + 1, off);
    }
}


// -------------------------------------------------------------------------
// Messages
// -------------------------------------------------------------------------

/// The end of the word at `k`: up to `left` characters that are not ASCII whitespace.
pub open spec fn word_end(s: Seq<char>, k: int, left: nat) -> int
    decreases left,
{
    if left == 0 || !(0 <= k < s.len()) || is_ascii_ws(s[k]) {
        k
    } else {
        word_end(s, k + 1, (left - 1) as nat)
    }
}

/// The word (at most 20 characters up to whitespace) at position `k`.
pub open spec fn next_word(s: Seq<char>, k: int) -> Seq<char> {
    s.subrange(k, word_end(s, k, 20))
}

/// The message for a committed parse that failed at `k`, expecting `kind`.
pub open spec fn syntax_message(s: Seq<char>, k: int, kind: ErrKind) -> Seq<char> {
    let w = next_word(s, k);
    match kind {
        ErrKind::Char => {
            if w.len() == 0 {
                "unexpected end of input (expected `}` or `;`)"@
            } else if at(s, k, '{') || at(s, k, '}') {
                "unexpected `"@ + w + "`; check for missing `;`"@
            } else {
                "unexpected token `"@ + w + "`; expected `}`, `;`, or a property/node name"@
            }
        },
        ErrKind::Satisfy => "unexpected `"@ + w + "`"@,
    }
}

/// The message for a parse that failed at position `k`, expecting `kind`.
pub fn friendly_error_message(s: &Vec<char>, k: usize, kind: ErrKind) -> (r: String)
    requires
        k <= s.len(),
    ensures
        r@ == syntax_message(s@, k as int, kind),
{
    let mut e = k;
    let mut left: usize = 20;
    while left > 0 && e < s.len() && !ascii_ws(s[e])
        invariant
            k <= e <= s.len(),
            word_end(s@, k as int, 20) == word_end(s@, e as int, left as nat),
        decreases left,
    {
        e = e + 1;
        left = left - 1;
    }
    let w = substring(s, k, e);
    let mut r = String::new();
    match kind {
        ErrKind::Char => {
            if e == k {
                push_str(&mut r, "unexpected end of input (expected `}` or `;`)");
            } else if s[k] == '{' || s[k] == '}' {
                push_str(&mut r, "unexpected `");
                push_str(&mut r, w.as_str());
                push_str(&mut r, "`; check for missing `;`");
            } else {
                push_str(&mut r, "unexpected token `");
                push_str(&mut r, w.as_str());
                push_str(&mut r, "`; expected `}`, `;`, or a property/node name");
            }
        },
        ErrKind::Satisfy => {
            push_str(&mut r, "unexpected `");
            push_str(&mut r, w.as_str());
            push_str(&mut r, "`");
        },
    }
    r
}

// -------------------------------------------------------------------------
// Trailing input
// -------------------------------------------------------------------------

/// The first position at or after `e` that is not whitespace.
pub open spec fn trim_start(s: Seq<char>, e: int) -> int
    decreases s.len() - e,
{
    if 0 <= e < s.len() && is_unicode_ws(s[e]) {
        trim_start(s, e + 1)
    } else {
        e
    }
}

/// The end of `s[a..b]` without its trailing whitespace.
pub open spec fn trim_end(s: Seq<char>, a: int, b: int) -> int
    decreases b,
{
    if a < b && 0 < b <= s.len() && is_unicode_ws(s[b - 1]) {
        trim_end(s, a, b - 1)
    } else {
        b
    }
}

/// The byte offset that the input left after position `e` is reported at:
/// the length of the input less that of the left text without surrounding
/// whitespace.
pub open spec fn trailing_offset(s: Seq<char>, e: int) -> int {
    let a = trim_start(s, e);
    let b = trim_end(s, a, s.len() as int);
    bytes_len(s) - bytes_len(s.subrange(a, b))
}

/// Whether text other than whitespace is left after position `e`.
pub open spec fn has_trailing(s: Seq<char>, e: int) -> bool {
    trim_start(s, e) < trim_end(s, trim_start(s, e), s.len() as int)
}

pub proof fn lemma_trim(s: Seq<char>, e: int, a: int, b: int)
    requires
        0 <= e <= s.len(),
        0 <= a <= b <= s.len(),
    ensures
        e <= trim_start(s, e) <= s.len(),
        a <= trim_end(s, a, b) <= b,
    decreases s.len() - e + b,
{
    if 0 <= e < s.len() && is_unicode_ws(s[e]) {
        lemma_trim(s, e + 1, a, b);
    }
    if a < b && 0 < b <= s.len() && is_unicode_ws(s[b - 1]) {
        lemma_trim(s, e, a, b - 1);
    }
}

} // verus!

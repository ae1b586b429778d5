//! Colouring of DTS source lines: a line is cut into pieces, each marked
//! with the kind of text it holds (comment, keyword, reference, property
//! name and value, node name).
use vstd::prelude::*;
use crate::error::{trim_start, trim_end};
use crate::grammar::{find_char, lemma_find_char};
use crate::parser::find_char_from;
use crate::text::{to_chars, substring, string_of, unicode_ws};
use crate::workspace::include_word;

verus! {

/// What a piece of a line holds, and so how it is coloured.
#[derive(Debug, Clone, Copy, PartialEq, Eq, Structural)]
pub enum TokenKind {
    Plain,
    Comment,
    /// The `#include` keyword.
    IncludeKeyword,
    /// What follows `#include`.
    IncludePath,
    /// `/dts-v1/` and `/plugin/` lines.
    Keyword,
    Reference,
    /// Braces and what follows a reference.
    Dim,
    PropertyName,
    PropertyValue,
    NodeName,
}

/// Whether `s` starts with `p`.
pub open spec fn begins(s: Seq<char>, p: Seq<char>) -> bool {
    p.len() <= s.len() && s.subrange(0, p.len() as int) == p
}

/// The first position at or after `i` of a space, `{` or `;`, or the end.
pub open spec fn ref_end(s: Seq<char>, i: int) -> int
    decreases s.len() - i,
{
    if !(0 <= i < s.len()) {
        s.len() as int
    } else if s[i] == ' ' || s[i] == '{' || s[i] == ';' {
        i
    } else {
        ref_end(s, i + 1)
    }
}

/// The end of `s[a..b]` without its trailing `{`s.
pub open spec fn brace_end(s: Seq<char>, a: int, b: int) -> int
    decreases b,
{
    if a < b && 0 < b <= s.len() && s[b - 1] == '{' {
        brace_end(s, a, b - 1)
    } else {
        b
    }
}

/// The pieces of a line.  Leading whitespace is kept as plain text.  Whole
/// lines are comments (`//`, `/*` or `*` first), keywords (`/dts-v1/`,
/// `/plugin/`) or closing braces; an `#include` line is the keyword and
/// the rest; a line starting with `&` is the reference (up to a space, `{`
/// or `;`) and the rest; a line with `=` is the property name (trimmed),
/// a space and the value from the `=` on; a line ending in `{` is the node
/// name (without the braces, trimmed) and ` {`.
pub open spec fn tokens_of(line: Seq<char>) -> Seq<(TokenKind, Seq<char>)> {
    let n = line.len() as int;
    let a = trim_start(line, 0);
    let t = line.subrange(a, n);
    let lead = line.subrange(0, a);
    if a >= n {
        seq![(TokenKind::Plain, line)]
    } else if begins(t, seq!['/', '/']) || begins(t, seq!['/', '*']) || line[a] == '*' {
        seq![(TokenKind::Comment, line)]
    } else if begins(t, include_word()) {
        seq![
            (TokenKind::Plain, lead),
            (TokenKind::IncludeKeyword, include_word()),
            (TokenKind::IncludePath, line.subrange(a + 8, n)),
        ]
    } else if begins(t, seq!['/', 'd', 't', 's', '-', 'v', '1', '/']) || begins(
        t,
        seq!['/', 'p', 'l', 'u', 'g', 'i', 'n', '/'],
    ) {
        seq![(TokenKind::Keyword, line)]
    } else if line[a] == '&' {
        let e = ref_end(line, a);
        if e < n {
            seq![
                (TokenKind::Plain, lead),
                (TokenKind::Reference, line.subrange(a, e)),
                (TokenKind::Dim, line.subrange(e, n)),
            ]
        } else {
            seq![(TokenKind::Plain, lead), (TokenKind::Reference, t)]
        }
    } else if find_char(line, a, '=') is Some {
        let q = find_char(line, a, '=')->0;
        seq![
            (TokenKind::Plain, lead),
            (TokenKind::PropertyName, line.subrange(a, trim_end(line, a, q))),
            (TokenKind::Plain, seq![' ']),
            (TokenKind::PropertyValue, line.subrange(q, n)),
        ]
    } else if line[n - 1] == '{' {
        let b = brace_end(line, a, n);
        seq![
            (TokenKind::Plain, lead),
            (TokenKind::NodeName, line.subrange(a, trim_end(line, a, b))),
            (TokenKind::Dim, seq![' ', '{']),
        ]
    } else if line[a] == '}' {
        seq![(TokenKind::Dim, line)]
    } else {
        seq![(TokenKind::Plain, line)]
    }
}

/// The views of a list of pieces.
pub open spec fn pieces_v(v: Seq<(TokenKind, String)>) -> Seq<(TokenKind, Seq<char>)> {
    v.map_values(|p: (TokenKind, String)| (p.0, p.1@))
}

/// Whether `t[a..]` starts with the characters of `w`.
fn begins_with(t: &Vec<char>, a: usize, w: &str) -> (r: bool)
    requires
        a <= t.len(),
    ensures
        r == begins(t@.subrange(a as int, t@.len() as int), w@),
{
    let x = to_chars(w);
    let ghost s = t@.subrange(a as int, t@.len() as int);
    if t.len() - a < x.len() {
        return false;
    }
    let mut k: usize = 0;
    while k < x.len()
        invariant
            k <= x.len(),
            a + x.len() <= t.len(),
            x@ == w@,
            s == t@.subrange(a as int, t@.len() as int),
            forall|j: int| 0 <= j < k ==> s[j] == x@[j],
        decreases x.len() - k,
    {
        if t[a + k] != x[k] {
            assert(s.subrange(0, x@.len() as int)[k as int] != x@[k as int]);
            return false;
        }
        k = k + 1;
    }
    assert(s.subrange(0, x@.len() as int) =~= x@);
    true
}

/// A piece of a line.
fn piece(kind: TokenKind, v: &Vec<char>, i: usize, j: usize) -> (r: (TokenKind, String))
    requires
        i <= j <= v.len(),
    ensures
        r.0 == kind,
        r.1@ == v@.subrange(i as int, j as int),
{
    (kind, substring(v, i, j))
}

/// The pieces of a line, for colouring (see `tokens_of`).
pub fn tokenize_dts_line(line: &str) -> (r: Vec<(TokenKind, String)>)
    ensures
        pieces_v(r@) == tokens_of(line@),
{
    let v = to_chars(line);
    let n = v.len();
    let ghost s = line@;
    let mut a: usize = 0;
    while a < n && unicode_ws(v[a])
        invariant
            a <= n == v@.len(),
            v@ == s,
            trim_start(s, 0) == trim_start(s, a as int),
        decreases n - a,
    {
        a = a + 1;
    }
    assert(trim_start(s, a as int) == a as int);
    let ghost t = s.subrange(a as int, n as int);
    let mut out: Vec<(TokenKind, String)> = Vec::new();
    if a >= n {
        out.push((TokenKind::Plain, string_of(line)));
        assert(pieces_v(out@) =~= tokens_of(s));
        return out;
    }
    proof {
        reveal_strlit("//");
        reveal_strlit("/*");
        reveal_strlit("#include");
        reveal_strlit("/dts-v1/");
        reveal_strlit("/plugin/");
        assert("//"@ =~= seq!['/', '/']);
        assert("/*"@ =~= seq!['/', '*']);
        assert("#include"@ =~= include_word());
        assert("/dts-v1/"@ =~= seq!['/', 'd', 't', 's', '-', 'v', '1', '/']);
        assert("/plugin/"@ =~= seq!['/', 'p', 'l', 'u', 'g', 'i', 'n', '/']);
    }
    if begins_with(&v, a, "//") || begins_with(&v, a, "/*") || v[a] == '*' {
        out.push((TokenKind::Comment, string_of(line)));
        assert(pieces_v(out@) =~= tokens_of(s));
        return out;
    }
    if begins_with(&v, a, "#include") {
        out.push(piece(TokenKind::Plain, &v, 0, a));
        out.push((TokenKind::IncludeKeyword, string_of("#include")));
        out.push(piece(TokenKind::IncludePath, &v, a + 8, n));
        assert(pieces_v(out@) =~= tokens_of(s));
        return out;
    }
    if begins_with(&v, a, "/dts-v1/") || begins_with(&v, a, "/plugin/") {
        out.push((TokenKind::Keyword, string_of(line)));
        assert(pieces_v(out@) =~= tokens_of(s));
        return out;
    }
    if v[a] == '&' {
        let mut e = a;
        while e < n && !(v[e] == ' ' || v[e] == '{' || v[e] == ';')
            invariant
                a <= e <= n == v@.len(),
                v@ == s,
                ref_end(s, a as int) == ref_end(s, e as int),
            decreases n - e,
        {
            e = e + 1;
        }
        out.push(piece(TokenKind::Plain, &v, 0, a));
        out.push(piece(TokenKind::Reference, &v, a, e));
        if e < n {
            out.push(piece(TokenKind::Dim, &v, e, n));
        }
        assert(pieces_v(out@) =~= tokens_of(s));
        return out;
    }
    match find_char_from(&v, a, '=') {
        Some(q) => {
            proof {
                lemma_find_char(s, a as int, '=');
            }
            let mut c = q;
            while c > a && unicode_ws(v[c - 1])
                invariant
                    a <= c <= q <= n == v@.len(),
                    v@ == s,
                    trim_end(s, a as int, q as int) == trim_end(s, a as int, c as int),
                decreases c,
            {
                c = c - 1;
            }
            out.push(piece(TokenKind::Plain, &v, 0, a));
            out.push(piece(TokenKind::PropertyName, &v, a, c));
            out.push((TokenKind::Plain, string_of(" ")));
            out.push(piece(TokenKind::PropertyValue, &v, q, n));
            proof {
                reveal_strlit(" ");
                assert(" "@ =~= seq![' ']);
            }
            assert(pieces_v(out@) =~= tokens_of(s));
            return out;
        },
        None => {},
    }
    if v[n - 1] == '{' {
        let mut b = n;
        while b > a && v[b - 1] == '{'
            invariant
                a <= b <= n == v@.len(),
                v@ == s,
                brace_end(s, a as int, n as int) == brace_end(s, a as int, b as int),
            decreases b,
        {
            b = b - 1;
        }
        let mut c = b;
        while c > a && unicode_ws(v[c - 1])
            invariant
                a <= c <= b <= n == v@.len(),
                v@ == s,
                trim_end(s, a as int, b as int) == trim_end(s, a as int, c as int),
            decreases c,
        {
            c = c - 1;
        }
        out.push(piece(TokenKind::Plain, &v, 0, a));
        out.push(piece(TokenKind::NodeName, &v, a, c));
        out.push((TokenKind::Dim, string_of(" {")));
        proof {
            reveal_strlit(" {");
            assert(" {"@ =~= seq![' ', '{']);
        }
        assert(pieces_v(out@) =~= tokens_of(s));
        return out;
    }
    if v[a] == '}' {
        out.push((TokenKind::Dim, string_of(line)));
    } else {
        out.push((TokenKind::Plain, string_of(line)));
    }
    assert(pieces_v(out@) =~= tokens_of(s));
    out
}

} // verus!

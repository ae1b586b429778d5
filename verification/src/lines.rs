//! Line-oriented text helpers: splitting text into lines as `str::lines`
//! does, and trimming whitespace as `str::trim` does.
use vstd::prelude::*;
use crate::error::{trim_start, trim_end, lemma_trim};
use crate::grammar::{find_char, lemma_find_char};
use crate::parser::find_char_from;
use crate::serializer::{lines_from, strip_cr};
use crate::text::{unicode_ws, is_unicode_ws, to_chars};

verus! {

/// The lines of `s`: split at `\n`, a `\r` before the `\n` dropped, and no
/// empty line after a final `\n`.
pub open spec fn text_lines(s: Seq<char>) -> Seq<Seq<char>> {
    lines_from(s, 0)
}

/// `x` without leading and trailing whitespace.
pub open spec fn trim(x: Seq<char>) -> Seq<char> {
    let a = trim_start(x, 0);
    x.subrange(a, trim_end(x, a, x.len() as int))
}

/// The views of a list of character vectors.
pub open spec fn rows_v(v: Seq<Vec<char>>) -> Seq<Seq<char>> {
    v.map_values(|r: Vec<char>| r@)
}

/// The lines of `s`, each as its characters.
pub fn split_lines(s: &str) -> (r: Vec<Vec<char>>)
    ensures
        rows_v(r@) == text_lines(s@),
{
    let v = to_chars(s);
    let mut out: Vec<Vec<char>> = Vec::new();
    let mut i: usize = 0;
    while i < v.len()
        invariant
            i <= v.len(),
            v@ == s@,
            rows_v(out@) + lines_from(v@, i as int) == lines_from(v@, 0),
        decreases v.len() - i,
    {
        let e = match find_char_from(&v, i, '\n') {
            Some(k) => k,
            None => v.len(),
        };
        proof {
            lemma_find_char(v@, i as int, '\n');
        }
        let mut stop = e;
        if e < v.len() && e > i && v[e - 1] == '\r' {
            stop = e - 1;
        }
        let mut line: Vec<char> = Vec::new();
        let mut j = i;
        while j < stop
            invariant
                i <= j <= stop <= v.len(),
                line@ == v@.subrange(i as int, j as int),
            decreases stop - j,
        {
            line.push(v[j]);
            j = j + 1;
            assert(line@ =~= v@.subrange(i as int, j as int));
        }
        let ghost before = out@;
        out.push(line);
        proof {
            let rest = lines_from(v@, i as int);
            if e < v.len() {
                assert(strip_cr(v@.subrange(i as int, e as int)) =~= v@.subrange(
                    i as int,
                    stop as int,
                ));
                assert(rest =~= seq![v@.subrange(i as int, stop as int)] + lines_from(v@, e + 1));
            } else {
                assert(rest == seq![v@.subrange(i as int, v.len() as int)]);
                assert(lines_from(v@, e as int) =~= Seq::<Seq<char>>::empty());
                assert(rest =~= seq![v@.subrange(i as int, stop as int)] + lines_from(
                    v@,
                    e as int,
                ));
            }
            assert(rows_v(out@) =~= rows_v(before).push(v@.subrange(i as int, stop as int)));
        }
        i = if e < v.len() {
            e + 1
        } else {
            e
        };
        assert(rows_v(out@) + lines_from(v@, i as int) =~= lines_from(v@, 0));
    }
    assert(lines_from(v@, i as int) =~= Seq::<Seq<char>>::empty());
    assert(rows_v(out@) =~= rows_v(out@) + lines_from(v@, i as int));
    out
}

/// The bounds of `x[a..b]` without its surrounding whitespace.
pub fn trim_bounds(x: &Vec<char>, a: usize, b: usize) -> (r: (usize, usize))
    requires
        a <= b <= x.len(),
    ensures
        r.0 as int == trim_start(x@.subrange(a as int, b as int), 0) + a,
        r.1 as int == trim_end(
            x@.subrange(a as int, b as int),
            trim_start(x@.subrange(a as int, b as int), 0),
            (b - a) as int,
        ) + a,
        a <= r.0 <= r.1 <= b,
{
    let ghost y = x@.subrange(a as int, b as int);
    proof {
        lemma_trim(y, 0, 0, y.len() as int);
    }
    let mut s = a;
    while s < b && unicode_ws(x[s])
        invariant
            a <= s <= b <= x.len(),
            y == x@.subrange(a as int, b as int),
            trim_start(y, 0) == trim_start(y, s - a),
        decreases b - s,
    {
        s = s + 1;
    }
    let ghost ts = trim_start(y, 0);
    proof {
        lemma_trim(y, (s - a) as int, ts, y.len() as int);
    }
    let mut e = b;
    while e > s && unicode_ws(x[e - 1])
        invariant
            a <= s <= e <= b <= x.len(),
            y == x@.subrange(a as int, b as int),
            ts == (s - a) as int,
            trim_end(y, ts, y.len() as int) == trim_end(y, ts, (e - a) as int),
        decreases e,
    {
        e = e - 1;
    }
    (s, e)
}

/// `x[a..b]` without its surrounding whitespace.
pub fn trimmed(x: &Vec<char>, a: usize, b: usize) -> (r: Vec<char>)
    requires
        a <= b <= x.len(),
    ensures
        r@ == trim(x@.subrange(a as int, b as int)),
{
    let (s, e) = trim_bounds(x, a, b);
    let mut r: Vec<char> = Vec::new();
    let mut j = s;
    while j < e
        invariant
            a <= s <= j <= e <= b <= x.len(),
            r@ == x@.subrange(s as int, j as int),
        decreases e - j,
    {
        r.push(x[j]);
        j = j + 1;
        assert(r@ =~= x@.subrange(s as int, j as int));
    }
    proof {
        let y = x@.subrange(a as int, b as int);
        assert(trim(y) =~= x@.subrange(s as int, e as int));
    }
    r
}

/// Whether the characters of `x` spell `w`.
pub fn chars_are(x: &Vec<char>, w: &str) -> (r: bool)
    ensures
        r == (x@ == w@),
{
    let y = to_chars(w);
    if x.len() != y.len() {
        return false;
    }
    let mut k: usize = 0;
    while k < x.len()
        invariant
            k <= x.len() == y.len(),
            y@ == w@,
            x@.subrange(0, k as int) == y@.subrange(0, k as int),
        decreases x.len() - k,
    {
        if x[k] != y[k] {
            assert(x@[k as int] != y@[k as int]);
            return false;
        }
        k = k + 1;
        assert(x@.subrange(0, k as int) =~= y@.subrange(0, k as int));
    }
    assert(x@ =~= x@.subrange(0, k as int));
    assert(y@ =~= y@.subrange(0, k as int));
    true
}

/// A `String` holding the characters of `x`.
pub fn string_from(x: &Vec<char>) -> (r: String)
    ensures
        r@ == x@,
{
    let mut r = String::new();
    crate::text::push_chars(&mut r, x);
    r
}

} // verus!

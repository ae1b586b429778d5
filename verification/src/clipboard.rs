//! Copying text to the terminal's clipboard: the text is encoded in
//! base64 and framed in an OSC 52 escape sequence.
use vstd::prelude::*;
use crate::text::{push_str, string_of};
use vstd::string::StringSliceAdditionalSpecFns;

verus! {

/// The base64 digit for `n` (below 64).
pub open spec fn b64_digit(n: int) -> char {
    if n < 26 {
        (65 + n) as char
    } else if n < 52 {
        (97 + n - 26) as char
    } else if n < 62 {
        (48 + n - 52) as char
    } else if n == 62 {
        '+'
    } else {
        '/'
    }
}

/// The four digits of a group of up to three bytes (`k` of them present;
/// missing bytes count as zero and their digits are `=`).
pub open spec fn b64_group(b0: u8, b1: u8, b2: u8, k: int) -> Seq<char> {
    let n = b0 * 65536 + b1 * 256 + b2;
    seq![
        b64_digit((n / 262144) % 64),
        b64_digit((n / 4096) % 64),
        if k > 1 {
            b64_digit((n / 64) % 64)
        } else {
            '='
        },
        if k > 2 {
            b64_digit(n % 64)
        } else {
            '='
        },
    ]
}

/// The base64 encoding (with `=` padding) of `b`.
pub open spec fn base64(b: Seq<u8>) -> Seq<char>
    decreases b.len(),
{
    if b.len() == 0 {
        Seq::empty()
    } else if b.len() == 1 {
        b64_group(b[0], 0, 0, 1)
    } else if b.len() == 2 {
        b64_group(b[0], b[1], 0, 2)
    } else {
        b64_group(b[0], b[1], b[2], 3) + base64(b.subrange(3, b.len() as int))
    }
}

fn digit(n: u32) -> (c: char)
    requires
        n < 64,
    ensures
        c == b64_digit(n as int),
{
    if n < 26 {
        ((65 + n) as u8) as char
    } else if n < 52 {
        ((97 + n - 26) as u8) as char
    } else if n < 62 {
        ((48 + n - 52) as u8) as char
    } else if n == 62 {
        '+'
    } else {
        '/'
    }
}

/// The base64 encoding of `bytes`.
pub fn base64_encode(bytes: &[u8]) -> (r: String)
    ensures
        r@ == base64(bytes@),
{
    let mut out = String::new();
    let mut i: usize = 0;
    assert(bytes@.subrange(0, bytes@.len() as int) =~= bytes@);
    assert(out@ + base64(bytes@) =~= base64(bytes@));
    while i < bytes.len()
        invariant
            i <= bytes.len(),
            out@ + base64(bytes@.subrange(i as int, bytes@.len() as int)) == base64(bytes@),
        decreases bytes.len() - i,
    {
        let rest = bytes.len() - i;
        let k: usize = if rest >= 3 {
            3
        } else {
            rest
        };
        let b0 = bytes[i] as u32;
        let b1 = if k > 1 {
            bytes[i + 1] as u32
        } else {
            0
        };
        let b2 = if k > 2 {
            bytes[i + 2] as u32
        } else {
            0
        };
        let n: u32 = b0 * 65536 + b1 * 256 + b2;
        let ghost g = bytes@.subrange(i as int, bytes@.len() as int);
        let ghost before = out@;
        out.push(digit((n / 262144) % 64));
        out.push(digit((n / 4096) % 64));
        if k > 1 {
            out.push(digit((n / 64) % 64));
        } else {
            out.push('=');
        }
        if k > 2 {
            out.push(digit(n % 64));
        } else {
            out.push('=');
        }
        proof {
            let grp = b64_group(
                bytes@[i as int],
                if k > 1 {
                    bytes@[i + 1]
                } else {
                    0u8
                },
                if k > 2 {
                    bytes@[i + 2]
                } else {
                    0u8
                },
                k as int,
            );
            assert(out@ =~= before + grp);
            assert(g[0] == bytes@[i as int]);
            if k > 1 {
                assert(g[1] == bytes@[i + 1]);
            }
            if k > 2 {
                assert(g[2] == bytes@[i + 2]);
                assert(g.subrange(3, g.len() as int) =~= bytes@.subrange(i + 3, bytes@.len() as int));
            }
            assert(base64(g) == grp + base64(bytes@.subrange(i + k, bytes@.len() as int))) by {
                assert(g.len() == rest);
                if k < 3 {
                    assert(bytes@.subrange(i + k, bytes@.len() as int) =~= Seq::<u8>::empty());
                    assert(grp + Seq::<char>::empty() =~= grp);
                }
            }
        }
        i = i + k;
    }
    assert(bytes@.subrange(i as int, bytes@.len() as int) =~= Seq::<u8>::empty());
    assert(out@ + Seq::<char>::empty() =~= out@);
    out
}

} // verus!

verus! {

/// The escape sequence that puts `text` on the terminal's clipboard:
/// OSC 52 with the text in base64.
pub open spec fn clipboard_text(bytes: Seq<u8>) -> Seq<char> {
    seq!['\x1b', ']', '5', '2', ';', 'c', ';'] + base64(bytes) + seq!['\x07']
}

/// The OSC 52 sequence that copies `text` to the clipboard.
pub fn clipboard_sequence(text: &str) -> (r: String)
    ensures
        r@ == clipboard_text(text.spec_bytes()),
{
    let mut r = String::new();
    r.push('\x1b');
    r.push(']');
    r.push('5');
    r.push('2');
    r.push(';');
    r.push('c');
    r.push(';');
    let b = base64_encode(text.as_bytes());
    push_str(&mut r, b.as_str());
    r.push('\x07');
    assert(r@ =~= clipboard_text(text.spec_bytes()));
    r
}

} // verus!

//! String-level helpers: equality, ASCII case folding, and decimal
//! formatting into `String`.

use vstd::prelude::*;
use vstd::string::StrSliceExecFns;
use vstd::string::StringExecFns;
use vstd::string::StringSliceAdditionalSpecFns;
use crate::bytes;

verus! {

/// String equality through the byte encoding, with the character-level fact
/// recovered from UTF-8 round-tripping.
pub fn str_eq(a: &str, b: &str) -> (r: bool)
    ensures
        r == (a@ == b@),
{
    let r = bytes::bytes_eq(a.as_bytes(), b.as_bytes());
    proof {
        broadcast use vstd::utf8::encode_utf8_decode_utf8;

        if a.spec_bytes() == b.spec_bytes() {
            assert(vstd::utf8::decode_utf8(vstd::utf8::encode_utf8(a@)) == vstd::utf8::decode_utf8(
                vstd::utf8::encode_utf8(b@),
            ));
        }
    }
    r
}

/// ASCII uppercase letters fold to lowercase; every other character is
/// unchanged.
pub open spec fn lower_char(c: char) -> char {
    if 65 <= c as u32 <= 90 {
        ((c as u32) + 32) as char
    } else {
        c
    }
}

pub open spec fn lower_chars(s: Seq<char>) -> Seq<char> {
    s.map_values(|c: char| lower_char(c))
}

/// Relies on `str::to_ascii_lowercase`: ASCII letters are mapped to their
/// lowercase equivalents, all other characters are unchanged.
#[verifier::external_body]
pub fn ascii_lower(s: &str) -> (r: String)
    ensures
        r@ == lower_chars(s@),
{
    s.to_ascii_lowercase()
}

/// Index of the last `/` in `s`, or -1.
pub open spec fn last_slash(s: Seq<char>) -> int
    decreases s.len(),
{
    if s.len() == 0 {
        -1
    } else if s.last() == '/' {
        s.len() - 1
    } else {
        last_slash(s.drop_last())
    }
}

/// Split a path into the part before and after its last `/`.  Without a
/// slash the directory part is empty and the file part is the whole input.
pub fn split_path(p: &str) -> (r: (String, String))
    ensures
        ({
            let d = last_slash(p@);
            if d >= 0 {
                r.0@ == p@.subrange(0, d) && r.1@ == p@.subrange(d + 1, p@.len() as int)
            } else {
                r.0@ == Seq::<char>::empty() && r.1@ == p@
            }
        }),
{
    let n = p.unicode_len();
    let mut i: usize = n;
    proof {
        assert(p@.take(n as int) =~= p@);
    }
    while i > 0
        invariant
            i <= n,
            n == p@.len(),
            last_slash(p@) == last_slash(p@.take(i as int)),
        decreases i,
    {
        proof {
            assert(p@.take(i as int).drop_last() =~= p@.take(i - 1));
        }
        if p.get_char(i - 1) == '/' {
            proof {
                assert(p@.take(i as int).last() == p@[i - 1]);
                assert(last_slash(p@.take(i as int)) == i - 1);
            }
            let dirname = p.substring_char(0, i - 1);
            let filename = p.substring_char(i, n);
            proof {
                assert(dirname@ =~= p@.subrange(0, i - 1));
                assert(filename@ =~= p@.subrange(i as int, p@.len() as int));
            }
            return (String::from_str(dirname), String::from_str(filename));
        }
        i = i - 1;
    }
    proof {
        assert(p@.take(0) =~= Seq::<char>::empty());
        assert(last_slash(p@) == -1);
    }
    (String::new(), String::from_str(p))
}

/// The decimal digit characters of `n`, most significant first.
pub open spec fn dec_chars_of(n: nat) -> Seq<char>
    decreases n,
{
    if n < 10 {
        seq![dec_digit_char(n)]
    } else {
        dec_chars_of(n / 10).push(dec_digit_char(n % 10))
    }
}

pub open spec fn dec_digit_char(n: nat) -> char {
    (48 + n) as char
}

/// A one-character string for a decimal digit.
fn digit_str(d: u64) -> (r: &'static str)
    requires
        d < 10,
    ensures
        r@ =~= seq![dec_digit_char(d as nat)],
{
    proof {
        reveal_strlit("0");
        reveal_strlit("1");
        reveal_strlit("2");
        reveal_strlit("3");
        reveal_strlit("4");
        reveal_strlit("5");
        reveal_strlit("6");
        reveal_strlit("7");
        reveal_strlit("8");
        reveal_strlit("9");
    }
    match d {
        0 => "0",
        1 => "1",
        2 => "2",
        3 => "3",
        4 => "4",
        5 => "5",
        6 => "6",
        7 => "7",
        8 => "8",
        _ => "9",
    }
}

/// Format an unsigned number as a decimal `String`.
pub fn u64_to_string(n: u64) -> (r: String)
    ensures
        r@ == dec_chars_of(n as nat),
    decreases n,
{
    if n < 10 {
        let r = String::from_str(digit_str(n));
        assert(r@ =~= dec_chars_of(n as nat));
        r
    } else {
        let r = u64_to_string(n / 10);
        let r = r.concat(digit_str(n % 10));
        assert(r@ =~= dec_chars_of(n as nat));
        r
    }
}

} // verus!

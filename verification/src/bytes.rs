//! Byte-level text helpers.
//!
//! The catalog's text semantics (case folding, wildcard matching, token
//! splitting, decimal parsing and formatting) are byte-oriented, like the
//! storage engine they model: only ASCII letters fold, and patterns match
//! byte for byte.  Every helper has an exact specification.

use vstd::prelude::*;

verus! {

/// The UTF-8 encoding of a character sequence; `s.spec_bytes()` for the view
/// of an owned `String`.
pub open spec fn utf8(s: Seq<char>) -> Seq<u8> {
    vstd::utf8::encode_utf8(s)
}

/// ASCII uppercase letters fold to lowercase; every other byte is unchanged.
pub open spec fn lower_byte(b: u8) -> u8 {
    if 65 <= b <= 90 {
        (b + 32) as u8
    } else {
        b
    }
}

pub open spec fn lower_bytes(s: Seq<u8>) -> Seq<u8> {
    s.map_values(|b: u8| lower_byte(b))
}

/// Case-fold ASCII letters in a byte string.
pub fn to_lower_bytes(s: &[u8]) -> (r: Vec<u8>)
    ensures
        r@ == lower_bytes(s@),
{
    let mut r: Vec<u8> = Vec::new();
    let mut i: usize = 0;
    while i < s.len()
        invariant
            i <= s@.len(),
            r@ == lower_bytes(s@.take(i as int)),
        decreases s@.len() - i,
    {
        let b = s[i];
        if 65 <= b && b <= 90 {
            r.push(b + 32);
        } else {
            r.push(b);
        }
        i = i + 1;
        assert(s@.take(i as int).drop_last() =~= s@.take(i - 1));
        assert(r@ =~= lower_bytes(s@.take(i as int)));
    }
    assert(s@.take(s@.len() as int) =~= s@);
    r
}

/// `p` is a prefix of `s`.
pub open spec fn is_prefix_of(p: Seq<u8>, s: Seq<u8>) -> bool {
    p.len() <= s.len() && s.subrange(0, p.len() as int) == p
}

/// `s` contains `n` as a contiguous subsequence.
pub open spec fn contains_seq(s: Seq<u8>, n: Seq<u8>) -> bool {
    exists|i: int|
        0 <= i && i + n.len() <= s.len() && #[trigger] s.subrange(i, i + n.len() as int) == n
}

/// Whether the bytes at offset `at` of `s` equal `n`.
pub(crate) fn matches_at(s: &[u8], n: &[u8], at: usize) -> (r: bool)
    requires
        at + n@.len() <= s@.len(),
    ensures
        r == (s@.subrange(at as int, at + n@.len() as int) == n@),
{
    let slen = s.len();
    let mut j: usize = 0;
    while j < n.len()
        invariant
            slen == s@.len(),
            at + n@.len() <= s@.len(),
            j <= n@.len(),
            forall|k: int| 0 <= k < j ==> s@[at + k] == n@[k],
        decreases n@.len() - j,
    {
        if s[at + j] != n[j] {
            assert(s@.subrange(at as int, at + n@.len() as int)[j as int] != n@[j as int]);
            return false;
        }
        j = j + 1;
    }
    assert(s@.subrange(at as int, at + n@.len() as int) =~= n@);
    true
}

/// Copy a byte vector.
pub fn clone_bytes(v: &Vec<u8>) -> (r: Vec<u8>)
    ensures
        r@ == v@,
{
    let mut r: Vec<u8> = Vec::new();
    let mut i: usize = 0;
    while i < v.len()
        invariant
            i <= v@.len(),
            r@ == v@.take(i as int),
        decreases v@.len() - i,
    {
        r.push(v[i]);
        i = i + 1;
        assert(r@ =~= v@.take(i as int));
    }
    assert(v@.take(v@.len() as int) =~= v@);
    r
}

/// Prefix test with an exact contract.
pub fn starts_with_bytes(s: &[u8], p: &[u8]) -> (r: bool)
    ensures
        r == is_prefix_of(p@, s@),
{
    if p.len() > s.len() {
        return false;
    }
    matches_at(s, p, 0)
}

/// Substring test with an exact contract.
pub fn contains_bytes(s: &[u8], n: &[u8]) -> (r: bool)
    ensures
        r == contains_seq(s@, n@),
{
    if n.len() > s.len() {
        assert(!contains_seq(s@, n@));
        return false;
    }
    if n.len() == 0 {
        assert(s@.subrange(0, 0 + n@.len() as int) =~= n@);
        assert(contains_seq(s@, n@));
        return true;
    }
    let slen = s.len();
    let limit = s.len() - n.len();
    let mut i: usize = 0;
    while i <= limit
        invariant
            slen == s@.len(),
            0 < n@.len() <= s@.len(),
            limit == s@.len() - n@.len(),
            i <= limit + 1,
            forall|k: int|
                0 <= k < i ==> #[trigger] s@.subrange(k, k + n@.len() as int) != n@,
        decreases limit + 1 - i,
    {
        if matches_at(s, n, i) {
            return true;
        }
        i = i + 1;
    }
    assert(forall|k: int|
        0 <= k && k + n@.len() <= s@.len() ==> #[trigger] s@.subrange(k, k + n@.len() as int)
            != n@);
    false
}

/// Byte-string equality with an exact contract.
pub fn bytes_eq(a: &[u8], b: &[u8]) -> (r: bool)
    ensures
        r == (a@ == b@),
{
    if a.len() != b.len() {
        assert(a@ != b@);
        return false;
    }
    let r = matches_at(a, b, 0);
    assert(a@.subrange(0, a@.len() as int) =~= a@);
    r
}

/// ASCII whitespace, as the token splitter sees it.
pub open spec fn is_ws(b: u8) -> bool {
    b == 32 || b == 9 || b == 10 || b == 13
}

/// The whitespace-separated tokens of `s`, defined by a single left-to-right
/// pass: `cur` is the token being accumulated, `acc` the tokens already
/// finished.
pub open spec fn split_ws_from(s: Seq<u8>, i: int, cur: Seq<u8>, acc: Seq<Seq<u8>>) -> Seq<
    Seq<u8>,
>
    decreases s.len() - i,
{
    if i < 0 || i >= s.len() {
        if cur.len() > 0 {
            acc.push(cur)
        } else {
            acc
        }
    } else if is_ws(s[i]) {
        if cur.len() > 0 {
            split_ws_from(s, i + 1, Seq::empty(), acc.push(cur))
        } else {
            split_ws_from(s, i + 1, cur, acc)
        }
    } else {
        split_ws_from(s, i + 1, cur.push(s[i]), acc)
    }
}

pub open spec fn split_ws(s: Seq<u8>) -> Seq<Seq<u8>> {
    split_ws_from(s, 0, Seq::empty(), Seq::empty())
}

/// Split a byte string on ASCII whitespace.
pub fn split_whitespace_bytes(s: &[u8]) -> (r: Vec<Vec<u8>>)
    ensures
        r@.map_values(|t: Vec<u8>| t@) == split_ws(s@),
{
    let mut acc: Vec<Vec<u8>> = Vec::new();
    let mut cur: Vec<u8> = Vec::new();
    let mut i: usize = 0;
    proof {
        assert(acc@.map_values(|t: Vec<u8>| t@) =~= Seq::<Seq<u8>>::empty());
        assert(cur@ =~= Seq::<u8>::empty());
    }
    while i < s.len()
        invariant
            i <= s@.len(),
            split_ws_from(s@, i as int, cur@, acc@.map_values(|t: Vec<u8>| t@)) == split_ws(
                s@,
            ),
        decreases s@.len() - i,
    {
        let ghost prev_i = i as int;
        let ghost prev_cur = cur@;
        let ghost prev_acc = acc@.map_values(|t: Vec<u8>| t@);
        let b = s[i];
        if b == 32 || b == 9 || b == 10 || b == 13 {
            if cur.len() > 0 {
                let done = cur;
                cur = Vec::new();
                acc.push(done);
                proof {
                    assert(acc@.map_values(|t: Vec<u8>| t@) =~= prev_acc.push(prev_cur));
                    assert(cur@ =~= Seq::<u8>::empty());
                }
            }
        } else {
            cur.push(b);
        }
        i = i + 1;
        proof {
            assert(split_ws_from(s@, prev_i, prev_cur, prev_acc) == split_ws_from(
                s@,
                i as int,
                cur@,
                acc@.map_values(|t: Vec<u8>| t@),
            ));
        }
    }
    if cur.len() > 0 {
        let ghost prev_cur = cur@;
        let ghost prev_acc = acc@.map_values(|t: Vec<u8>| t@);
        acc.push(cur);
        proof {
            assert(acc@.map_values(|t: Vec<u8>| t@) =~= prev_acc.push(prev_cur));
        }
    }
    acc
}

/// Glob semantics over bytes: `*` matches any run of bytes, `?` any single
/// byte, anything else itself.
pub open spec fn glob_matches(p: Seq<u8>, t: Seq<u8>) -> bool
    decreases p.len(), t.len(),
{
    if p.len() == 0 {
        t.len() == 0
    } else if p[0] == 42 {
        glob_matches(p.drop_first(), t) || (t.len() > 0 && glob_matches(p, t.drop_first()))
    } else if t.len() == 0 {
        false
    } else {
        (p[0] == 63 || p[0] == t[0]) && glob_matches(p.drop_first(), t.drop_first())
    }
}

fn glob_match_from(p: &[u8], t: &[u8], pi: usize, ti: usize) -> (r: bool)
    requires
        pi <= p@.len(),
        ti <= t@.len(),
    ensures
        r == glob_matches(
            p@.subrange(pi as int, p@.len() as int),
            t@.subrange(ti as int, t@.len() as int),
        ),
    decreases p@.len() - pi, t@.len() - ti,
{
    let ghost ps = p@.subrange(pi as int, p@.len() as int);
    let ghost ts = t@.subrange(ti as int, t@.len() as int);
    if pi == p.len() {
        return ti == t.len();
    }
    assert(ps[0] == p@[pi as int]);
    if p[pi] == 42 {
        assert(ps.drop_first() =~= p@.subrange(pi + 1, p@.len() as int));
        if glob_match_from(p, t, pi + 1, ti) {
            return true;
        }
        if ti < t.len() {
            assert(ts.drop_first() =~= t@.subrange(ti + 1, t@.len() as int));
            return glob_match_from(p, t, pi, ti + 1);
        }
        return false;
    }
    if ti == t.len() {
        return false;
    }
    assert(ts[0] == t@[ti as int]);
    if p[pi] == 63 || p[pi] == t[ti] {
        assert(ps.drop_first() =~= p@.subrange(pi + 1, p@.len() as int));
        assert(ts.drop_first() =~= t@.subrange(ti + 1, t@.len() as int));
        glob_match_from(p, t, pi + 1, ti + 1)
    } else {
        false
    }
}

/// Match a glob pattern (`*`, `?`) against a byte string.
pub fn glob_match(p: &[u8], t: &[u8]) -> (r: bool)
    ensures
        r == glob_matches(p@, t@),
{
    let r = glob_match_from(p, t, 0, 0);
    assert(p@.subrange(0, p@.len() as int) =~= p@);
    assert(t@.subrange(0, t@.len() as int) =~= t@);
    r
}

/// Three-way byte-string comparison, `memcmp` style: -1, 0 or 1.
pub open spec fn spec_cmp_bytes(a: Seq<u8>, b: Seq<u8>) -> int
    decreases a.len(),
{
    if a.len() == 0 && b.len() == 0 {
        0
    } else if a.len() == 0 {
        -1
    } else if b.len() == 0 {
        1
    } else if a[0] < b[0] {
        -1
    } else if a[0] > b[0] {
        1
    } else {
        spec_cmp_bytes(a.drop_first(), b.drop_first())
    }
}

fn cmp_bytes_from(a: &[u8], b: &[u8], i: usize) -> (r: i32)
    requires
        i <= a@.len(),
        i <= b@.len(),
    ensures
        r == spec_cmp_bytes(
            a@.subrange(i as int, a@.len() as int),
            b@.subrange(i as int, b@.len() as int),
        ),
    decreases a@.len() - i,
{
    let ghost sa = a@.subrange(i as int, a@.len() as int);
    let ghost sb = b@.subrange(i as int, b@.len() as int);
    if i == a.len() && i == b.len() {
        0
    } else if i == a.len() {
        -1
    } else if i == b.len() {
        1
    } else if a[i] < b[i] {
        assert(sa[0] == a@[i as int] && sb[0] == b@[i as int]);
        -1
    } else if a[i] > b[i] {
        assert(sa[0] == a@[i as int] && sb[0] == b@[i as int]);
        1
    } else {
        assert(sa[0] == a@[i as int] && sb[0] == b@[i as int]);
        assert(sa.drop_first() =~= a@.subrange(i + 1, a@.len() as int));
        assert(sb.drop_first() =~= b@.subrange(i + 1, b@.len() as int));
        cmp_bytes_from(a, b, i + 1)
    }
}

/// The comparison only takes the values -1, 0 and 1.
pub proof fn lemma_cmp_bytes_range(a: Seq<u8>, b: Seq<u8>)
    ensures
        -1 <= spec_cmp_bytes(a, b) <= 1,
    decreases a.len(),
{
    if a.len() > 0 && b.len() > 0 && a[0] == b[0] {
        lemma_cmp_bytes_range(a.drop_first(), b.drop_first());
    }
}

/// Three-way byte-string comparison.
pub fn cmp_bytes(a: &[u8], b: &[u8]) -> (r: i32)
    ensures
        r == spec_cmp_bytes(a@, b@),
        -1 <= r <= 1,
{
    proof {
        lemma_cmp_bytes_range(a@, b@);
    }
    let r = cmp_bytes_from(a, b, 0);
    assert(a@.subrange(0, a@.len() as int) =~= a@);
    assert(b@.subrange(0, b@.len() as int) =~= b@);
    r
}

/// A comparison of equal byte strings is 0, and 0 only for equal strings.
pub proof fn lemma_cmp_bytes_eq(a: Seq<u8>, b: Seq<u8>)
    ensures
        (spec_cmp_bytes(a, b) == 0) <==> (a == b),
    decreases a.len(),
{
    if a.len() > 0 && b.len() > 0 && a[0] == b[0] {
        lemma_cmp_bytes_eq(a.drop_first(), b.drop_first());
        if a.drop_first() == b.drop_first() && a[0] == b[0] {
            assert(a.drop_first().len() == b.drop_first().len());
            assert forall|i: int| 0 <= i < a.len() implies a[i] == b[i] by {
                if i > 0 {
                    assert(a.drop_first()[i - 1] == b.drop_first()[i - 1]);
                }
            }
            assert(a =~= b);
        }
    } else if a.len() == 0 && b.len() == 0 {
        assert(a =~= b);
    }
}

/// The comparison flips with its arguments.
pub proof fn lemma_cmp_bytes_antisym(a: Seq<u8>, b: Seq<u8>)
    ensures
        spec_cmp_bytes(a, b) == -spec_cmp_bytes(b, a),
    decreases a.len(),
{
    if a.len() > 0 && b.len() > 0 && a[0] == b[0] {
        lemma_cmp_bytes_antisym(a.drop_first(), b.drop_first());
    }
}

/// Non-positive comparisons chain, and stay strict when either link is.
pub proof fn lemma_cmp_bytes_trans(a: Seq<u8>, b: Seq<u8>, c: Seq<u8>)
    requires
        spec_cmp_bytes(a, b) <= 0,
        spec_cmp_bytes(b, c) <= 0,
    ensures
        spec_cmp_bytes(a, c) <= 0,
        spec_cmp_bytes(a, b) < 0 || spec_cmp_bytes(b, c) < 0 ==> spec_cmp_bytes(a, c) < 0,
    decreases a.len() + b.len() + c.len(),
{
    lemma_cmp_bytes_eq(a, b);
    lemma_cmp_bytes_eq(b, c);
    if spec_cmp_bytes(a, b) == 0 || spec_cmp_bytes(b, c) == 0 {
        // one side is equality, so the other comparison carries over
    } else if a.len() > 0 && b.len() > 0 && c.len() > 0 {
        if a[0] == b[0] && b[0] == c[0] {
            lemma_cmp_bytes_trans(a.drop_first(), b.drop_first(), c.drop_first());
        }
    }
}

/// The decimal digit string of `n`, most significant digit first.
pub open spec fn dec_of(n: nat) -> Seq<u8>
    decreases n,
{
    if n < 10 {
        seq![(48 + n) as u8]
    } else {
        dec_of(n / 10).push((48 + n % 10) as u8)
    }
}

/// Format an unsigned number in decimal.
pub fn u64_to_dec(n: u64) -> (r: Vec<u8>)
    ensures
        r@ == dec_of(n as nat),
    decreases n,
{
    if n < 10 {
        let mut r: Vec<u8> = Vec::new();
        r.push(48 + n as u8);
        assert(r@ =~= dec_of(n as nat));
        r
    } else {
        let mut r = u64_to_dec(n / 10);
        r.push(48 + (n % 10) as u8);
        r
    }
}

pub open spec fn is_digit(b: u8) -> bool {
    48 <= b <= 57
}

pub open spec fn all_digits(s: Seq<u8>) -> bool {
    forall|i: int| 0 <= i < s.len() ==> is_digit(#[trigger] s[i])
}

/// The numeric value of a digit string.
pub open spec fn dec_val(s: Seq<u8>) -> nat
    decreases s.len(),
{
    if s.len() == 0 {
        0
    } else {
        dec_val(s.drop_last()) * 10 + (s.last() - 48) as nat
    }
}

proof fn lemma_dec_val_prefix_le(s: Seq<u8>, i: int)
    requires
        0 <= i <= s.len(),
        all_digits(s),
    ensures
        dec_val(s.take(i)) <= dec_val(s),
    decreases s.len() - i,
{
    if i < s.len() {
        lemma_dec_val_prefix_le(s, i + 1);
        assert(s.take(i + 1).drop_last() =~= s.take(i));
        assert(s.take(i + 1).last() == s[i]);
        assert(dec_val(s.take(i)) <= dec_val(s.take(i + 1)));
    } else {
        assert(s.take(i) =~= s);
    }
}

/// Parse a decimal digit string into a `u64`.  Succeeds exactly on non-empty
/// all-digit strings whose value fits.
pub fn parse_u64(s: &[u8]) -> (r: Option<u64>)
    ensures
        match r {
            Some(v) => s@.len() > 0 && all_digits(s@) && dec_val(s@) == v,
            None => s@.len() == 0 || !all_digits(s@) || dec_val(s@) > u64::MAX,
        },
{
    if s.len() == 0 {
        return None;
    }
    let mut acc: u64 = 0;
    let mut i: usize = 0;
    while i < s.len()
        invariant
            i <= s@.len(),
            s@.len() > 0,
            all_digits(s@.take(i as int)),
            acc == dec_val(s@.take(i as int)),
        decreases s@.len() - i,
    {
        let b = s[i];
        if b < 48 || b > 57 {
            assert(!is_digit(s@[i as int]));
            return None;
        }
        let d = (b - 48) as u64;
        if acc > (u64::MAX - d) / 10 {
            proof {
                // The value of the prefix read so far already exceeds what
                // fits, so the whole string's value does too.
                assert(s@.take(i + 1).drop_last() =~= s@.take(i as int));
                assert(s@.take(i + 1).last() == s@[i as int]);
                assert(dec_val(s@.take(i + 1)) == acc * 10 + d);
                assert(acc >= (u64::MAX - d) / 10 + 1);
                assert(((u64::MAX - d) / 10 + 1) * 10 > u64::MAX - d) by (nonlinear_arith);
                assert(acc * 10 >= ((u64::MAX - d) / 10 + 1) * 10) by (nonlinear_arith)
                    requires
                        acc >= (u64::MAX - d) / 10 + 1,
                ;
                if all_digits(s@) {
                    lemma_dec_val_prefix_le(s@, i + 1);
                }
            }
            return None;
        }
        assert(acc * 10 + d <= u64::MAX) by (nonlinear_arith)
            requires
                acc <= (u64::MAX - d) / 10,
                d <= 9,
        ;
        acc = acc * 10 + d;
        i = i + 1;
        proof {
            assert(s@.take(i as int).drop_last() =~= s@.take(i - 1));
            assert(s@.take(i as int).last() == s@[i - 1]);
        }
    }
    assert(s@.take(s@.len() as int) =~= s@);
    Some(acc)
}

} // verus!

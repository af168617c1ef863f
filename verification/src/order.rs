//! Orderings over catalog rows: the listing sort keys and the two ranked
//! search orders, with a verified insertion sort.
//!
//! Every ordering is reduced to one comparison key per row — an optional
//! byte string (with direction) followed by three integers — so one set of
//! totality and transitivity lemmas covers them all.

use vstd::prelude::*;
use crate::bytes::{
    contains_seq, lower_bytes, spec_cmp_bytes, lemma_cmp_bytes_antisym, lemma_cmp_bytes_eq,
    lemma_cmp_bytes_trans, utf8,
};
use crate::catalog::{clone_asset, Asset};
use vstd::multiset::Multiset;

verus! {

/// A column to list by.
#[derive(Clone, Copy, Debug, PartialEq, Eq, Structural)]
pub enum SortKey {
    ById,
    ByFilename,
    BySize,
    ByMtime,
    ByTakenAt,
}

/// How a result set is ordered.  A text rank compares against a needle,
/// carried separately.
#[derive(Clone, Copy, Debug, PartialEq, Eq, Structural)]
pub enum AssetOrder {
    /// One listing column, ascending or descending (capture time sorts
    /// nulls last either way).
    List { key: SortKey, asc: bool },
    /// Wildcard search: filename ascending, then capture time descending
    /// nulls last, then mtime descending.
    WildcardRank,
    /// Text search: match priority against the needle (filename, dirname,
    /// path, other), then capture time descending nulls last, then mtime
    /// descending.
    TextRank,
    /// No query at all: capture time descending nulls last, then mtime
    /// descending.
    PlainRank,
}

/// Three-way comparison of integers.
pub open spec fn cmpi(x: int, y: int) -> int {
    if x < y {
        -1
    } else if x > y {
        1
    } else {
        0
    }
}

/// A value strictly above every encoded `i64`, standing for a null that
/// sorts last.
pub open spec fn null_last() -> int {
    0x8000_0000_0000_0000int + 1
}

/// Encode an optional capture time for one direction with nulls last.
pub open spec fn enc_opt(v: Option<i64>, asc: bool) -> int {
    match v {
        Some(x) => if asc {
            x as int
        } else {
            -(x as int)
        },
        None => null_last(),
    }
}

/// Where a row ranks for a text query: 1 for a filename hit, 2 for a
/// dirname hit, 3 for a path hit, 4 otherwise (case-folded containment).
pub open spec fn spec_text_priority(a: Asset, needle: Seq<u8>) -> int {
    if contains_seq(lower_bytes(utf8(a.filename@)), needle) {
        1
    } else if contains_seq(lower_bytes(utf8(a.dirname@)), needle) {
        2
    } else if contains_seq(lower_bytes(utf8(a.path@)), needle) {
        3
    } else {
        4
    }
}

/// The comparison key of a row under an ordering: a byte string with its
/// direction, then three integers compared ascending.
pub open spec fn spec_key(o: AssetOrder, needle: Seq<u8>, a: Asset) -> (
    Seq<u8>,
    bool,
    int,
    int,
    int,
) {
    match o {
        AssetOrder::List { key, asc } => match key {
            SortKey::ById => (Seq::empty(), false, if asc {
                a.id as int
            } else {
                -(a.id as int)
            }, 0, 0),
            SortKey::ByFilename => (utf8(a.filename@), !asc, 0, 0, 0),
            SortKey::BySize => (Seq::empty(), false, if asc {
                a.size_bytes as int
            } else {
                -(a.size_bytes as int)
            }, 0, 0),
            SortKey::ByMtime => (Seq::empty(), false, if asc {
                a.mtime_ns as int
            } else {
                -(a.mtime_ns as int)
            }, 0, 0),
            SortKey::ByTakenAt => (Seq::empty(), false, enc_opt(a.taken_at, asc), 0, 0),
        },
        AssetOrder::WildcardRank => (
            utf8(a.filename@),
            false,
            enc_opt(a.taken_at, false),
            -(a.mtime_ns as int),
            0,
        ),
        AssetOrder::TextRank => (
            Seq::empty(),
            false,
            spec_text_priority(a, needle),
            enc_opt(a.taken_at, false),
            -(a.mtime_ns as int),
        ),
        AssetOrder::PlainRank => (
            Seq::empty(),
            false,
            enc_opt(a.taken_at, false),
            -(a.mtime_ns as int),
            0,
        ),
    }
}

/// Three-way comparison of two rows under an ordering.
pub open spec fn spec_asset_cmp(o: AssetOrder, needle: Seq<u8>, a: Asset, b: Asset) -> int {
    let (sa, da, xa, ya, za) = spec_key(o, needle, a);
    let (sb, db, xb, yb, zb) = spec_key(o, needle, b);
    let cb = if da {
        -spec_cmp_bytes(sa, sb)
    } else {
        spec_cmp_bytes(sa, sb)
    };
    if cb != 0 {
        cb
    } else if cmpi(xa, xb) != 0 {
        cmpi(xa, xb)
    } else if cmpi(ya, yb) != 0 {
        cmpi(ya, yb)
    } else {
        cmpi(za, zb)
    }
}

/// `a` sorts no later than `b`.
pub open spec fn spec_asset_le(o: AssetOrder, needle: Seq<u8>, a: Asset, b: Asset) -> bool {
    spec_asset_cmp(o, needle, a, b) <= 0
}

/// A sequence sorted under an ordering.
pub open spec fn sorted_by_order(s: Seq<Asset>, o: AssetOrder, needle: Seq<u8>) -> bool {
    forall|i: int, j: int|
        0 <= i < j < s.len() ==> spec_asset_le(o, needle, #[trigger] s[i], #[trigger] s[j])
}

/// Any two rows are comparable.
pub proof fn lemma_asset_le_total(o: AssetOrder, needle: Seq<u8>, a: Asset, b: Asset)
    ensures
        spec_asset_le(o, needle, a, b) || spec_asset_le(o, needle, b, a),
{
    let (sa, da, xa, ya, za) = spec_key(o, needle, a);
    let (sb, db, xb, yb, zb) = spec_key(o, needle, b);
    lemma_cmp_bytes_antisym(sa, sb);
}

/// The ordering chains.
pub proof fn lemma_asset_le_trans(o: AssetOrder, needle: Seq<u8>, a: Asset, b: Asset, c: Asset)
    requires
        spec_asset_le(o, needle, a, b),
        spec_asset_le(o, needle, b, c),
    ensures
        spec_asset_le(o, needle, a, c),
{
    let (sa, da, xa, ya, za) = spec_key(o, needle, a);
    let (sb, db, xb, yb, zb) = spec_key(o, needle, b);
    let (sc, dc, xc, yc, zc) = spec_key(o, needle, c);
    lemma_cmp_bytes_eq(sa, sb);
    lemma_cmp_bytes_eq(sb, sc);
    lemma_cmp_bytes_eq(sa, sc);
    lemma_cmp_bytes_antisym(sa, sb);
    lemma_cmp_bytes_antisym(sb, sc);
    lemma_cmp_bytes_antisym(sa, sc);
    if spec_cmp_bytes(sa, sb) <= 0 && spec_cmp_bytes(sb, sc) <= 0 {
        lemma_cmp_bytes_trans(sa, sb, sc);
    }
    if spec_cmp_bytes(sb, sa) <= 0 && spec_cmp_bytes(sc, sb) <= 0 {
        lemma_cmp_bytes_trans(sc, sb, sa);
    }
}

/// Compare two optional capture times for one direction, nulls last,
/// matching `cmpi` over `enc_opt`.
fn cmp_opt(a: &Option<i64>, b: &Option<i64>, asc: bool) -> (r: i32)
    ensures
        r == cmpi(enc_opt(*a, asc), enc_opt(*b, asc)),
{
    match (a, b) {
        (Some(x), Some(y)) => {
            if *x == *y {
                0
            } else if (*x < *y) == asc {
                -1
            } else {
                1
            }
        },
        (None, Some(_)) => 1,
        (Some(_), None) => -1,
        (None, None) => 0,
    }
}

fn cmp_i64_dir(x: i64, y: i64, asc: bool) -> (r: i32)
    ensures
        r == (if asc {
            cmpi(x as int, y as int)
        } else {
            cmpi(-(x as int), -(y as int))
        }),
{
    if x == y {
        0
    } else if (x < y) == asc {
        -1
    } else {
        1
    }
}

/// The rank of a row for a text query, over case-folded fields.
pub fn text_priority(a: &Asset, needle: &[u8]) -> (r: i32)
    ensures
        r == spec_text_priority(*a, needle@),
{
    let f = crate::bytes::to_lower_bytes(a.filename.as_str().as_bytes());
    if crate::bytes::contains_bytes(f.as_slice(), needle) {
        return 1;
    }
    let d = crate::bytes::to_lower_bytes(a.dirname.as_str().as_bytes());
    if crate::bytes::contains_bytes(d.as_slice(), needle) {
        return 2;
    }
    let p = crate::bytes::to_lower_bytes(a.path.as_str().as_bytes());
    if crate::bytes::contains_bytes(p.as_slice(), needle) {
        return 3;
    }
    4
}

/// Three-way comparison of two rows under an ordering.
pub fn asset_cmp(o: &AssetOrder, needle: &[u8], a: &Asset, b: &Asset) -> (r: i32)
    ensures
        r == spec_asset_cmp(*o, needle@, *a, *b),
{
    match o {
        AssetOrder::List { key, asc } => match key {
            SortKey::ById => cmp_i64_dir(a.id, b.id, *asc),
            SortKey::ByFilename => {
                let c = crate::bytes::cmp_bytes(
                    a.filename.as_str().as_bytes(),
                    b.filename.as_str().as_bytes(),
                );
                if *asc {
                    c
                } else {
                    -c
                }
            },
            SortKey::BySize => cmp_i64_dir(a.size_bytes, b.size_bytes, *asc),
            SortKey::ByMtime => cmp_i64_dir(a.mtime_ns, b.mtime_ns, *asc),
            SortKey::ByTakenAt => cmp_opt(&a.taken_at, &b.taken_at, *asc),
        },
        AssetOrder::WildcardRank => {
            let c = crate::bytes::cmp_bytes(
                a.filename.as_str().as_bytes(),
                b.filename.as_str().as_bytes(),
            );
            if c != 0 {
                c
            } else {
                let c2 = cmp_opt(&a.taken_at, &b.taken_at, false);
                if c2 != 0 {
                    c2
                } else {
                    cmp_i64_dir(a.mtime_ns, b.mtime_ns, false)
                }
            }
        },
        AssetOrder::TextRank => {
            let pa = text_priority(a, needle);
            let pb = text_priority(b, needle);
            if pa != pb {
                if pa < pb {
                    -1
                } else {
                    1
                }
            } else {
                let c2 = cmp_opt(&a.taken_at, &b.taken_at, false);
                if c2 != 0 {
                    c2
                } else {
                    cmp_i64_dir(a.mtime_ns, b.mtime_ns, false)
                }
            }
        },
        AssetOrder::PlainRank => {
            let c2 = cmp_opt(&a.taken_at, &b.taken_at, false);
            if c2 != 0 {
                c2
            } else {
                cmp_i64_dir(a.mtime_ns, b.mtime_ns, false)
            }
        },
    }
}

/// The first position whose element sorts after `x`.
fn find_insert_pos(out: &Vec<Asset>, x: &Asset, o: &AssetOrder, needle: &[u8]) -> (j: usize)
    ensures
        j <= out@.len(),
        forall|k: int| 0 <= k < j ==> spec_asset_le(*o, needle@, #[trigger] out@[k], *x),
        j < out@.len() ==> spec_asset_le(*o, needle@, *x, out@[j as int]),
{
    let mut j: usize = 0;
    while j < out.len()
        invariant
            j <= out@.len(),
            forall|k: int| 0 <= k < j ==> spec_asset_le(*o, needle@, #[trigger] out@[k], *x),
        decreases out@.len() - j,
    {
        let c = asset_cmp(o, needle, &out[j], x);
        if c > 0 {
            proof {
                lemma_asset_le_total(*o, needle@, out@[j as int], *x);
            }
            return j;
        }
        j = j + 1;
    }
    j
}

/// Inserting an element anywhere adds exactly that element to the
/// sequence's multiset.
pub proof fn lemma_insert_to_multiset<A>(s: Seq<A>, j: int, x: A)
    requires
        0 <= j <= s.len(),
    ensures
        s.insert(j, x).to_multiset() == s.to_multiset().insert(x),
{
    broadcast use vstd::seq_lib::group_to_multiset_ensures;
    broadcast use vstd::seq_lib::lemma_multiset_commutative;
    broadcast use vstd::multiset::group_multiset_axioms;

    let l = s.subrange(0, j);
    let r = s.subrange(j, s.len() as int);
    assert(s.insert(j, x) =~= l + (seq![x] + r));
    assert(s =~= l + r);
    assert(seq![x] =~= Seq::<A>::empty().push(x));
    assert(Seq::<A>::empty().to_multiset() =~= Multiset::<A>::empty());
    assert(seq![x].to_multiset() =~= Multiset::<A>::empty().insert(x));
    assert((l + (seq![x] + r)).to_multiset() =~= l.to_multiset().add(
        seq![x].to_multiset().add(r.to_multiset()),
    ));
    assert((l + r).to_multiset() =~= l.to_multiset().add(r.to_multiset()));
    assert(l.to_multiset().add(seq![x].to_multiset().add(r.to_multiset()))
        =~= (l.to_multiset().add(r.to_multiset())).insert(x));
}

/// Insert a row into a sorted vector, keeping it sorted.
fn insert_sorted(out: Vec<Asset>, x: Asset, o: &AssetOrder, needle: &[u8]) -> (r: Vec<Asset>)
    requires
        sorted_by_order(out@, *o, needle@),
    ensures
        r@.len() == out@.len() + 1,
        sorted_by_order(r@, *o, needle@),
        r@.to_multiset() == out@.to_multiset().insert(x),
        forall|y: Asset| r@.contains(y) <==> (out@.contains(y) || y == x),
{
    let j = find_insert_pos(&out, &x, o, needle);
    let ghost oldv = out@;
    let ghost jj = j as int;
    let mut r = out;
    r.insert(j, x);
    proof {
        assert(r@ == oldv.insert(jj, x));
        lemma_insert_to_multiset(oldv, jj, x);
        assert(r@.len() == oldv.len() + 1);
        assert(r@[jj] == x);
        assert(forall|k: int| 0 <= k < jj ==> r@[k] == oldv[k]);
        assert(forall|k: int| jj < k < r@.len() ==> r@[k] == oldv[k - 1]);
        // sortedness across the insertion point
        assert forall|p: int, q: int| 0 <= p < q < r@.len() implies spec_asset_le(
            *o,
            needle@,
            #[trigger] r@[p],
            #[trigger] r@[q],
        ) by {
            if p == jj {
                // x against a suffix element: x sorts before oldv[jj], which
                // sorts before everything after it
                assert(spec_asset_le(*o, needle@, x, oldv[jj]));
                if q - 1 > jj {
                    assert(spec_asset_le(*o, needle@, oldv[jj], oldv[q - 1]));
                    lemma_asset_le_trans(*o, needle@, x, oldv[jj], oldv[q - 1]);
                }
            } else if q == jj {
                assert(spec_asset_le(*o, needle@, oldv[p], x));
            } else if p < jj && q > jj {
                assert(spec_asset_le(*o, needle@, oldv[p], oldv[q - 1]) || p == q - 1);
                if p == q - 1 {
                    lemma_asset_le_total(*o, needle@, oldv[p], oldv[p]);
                }
            } else if q < jj {
                assert(spec_asset_le(*o, needle@, oldv[p], oldv[q]));
            } else {
                assert(spec_asset_le(*o, needle@, oldv[p - 1], oldv[q - 1]));
            }
        }
        // membership
        assert forall|y: Asset| r@.contains(y) <==> (oldv.contains(y) || y == x) by {
            if r@.contains(y) {
                let w = choose|w: int| 0 <= w < r@.len() && r@[w] == y;
                if w == jj {
                } else if w < jj {
                    assert(oldv[w] == y);
                } else {
                    assert(oldv[w - 1] == y);
                }
            }
            if oldv.contains(y) {
                let w = choose|w: int| 0 <= w < oldv.len() && oldv[w] == y;
                if w < jj {
                    assert(r@[w] == y);
                } else {
                    assert(r@[w + 1] == y);
                }
            }
            if y == x {
                assert(r@[jj] == y);
            }
        }
    }
    r
}

/// Sort rows under an ordering.  The result holds the same rows, arranged
/// so that every earlier row sorts no later than every later one.
pub fn sort_assets(input: &Vec<Asset>, o: &AssetOrder, needle: &[u8]) -> (out: Vec<Asset>)
    ensures
        out@.len() == input@.len(),
        sorted_by_order(out@, *o, needle@),
        out@.to_multiset() == input@.to_multiset(),
        forall|y: Asset| out@.contains(y) <==> input@.contains(y),
{
    let mut out: Vec<Asset> = Vec::new();
    let mut i: usize = 0;
    proof {
        assert(input@.take(0) =~= Seq::<Asset>::empty());
        assert(out@.to_multiset() =~= input@.take(0).to_multiset());
    }
    while i < input.len()
        invariant
            i <= input@.len(),
            out@.len() == i,
            sorted_by_order(out@, *o, needle@),
            out@.to_multiset() == input@.take(i as int).to_multiset(),
            forall|y: Asset| out@.contains(y) <==> input@.take(i as int).contains(y),
        decreases input@.len() - i,
    {
        let x = clone_asset(&input[i]);
        assert(x == input@[i as int]);
        let ghost prev = out@;
        out = insert_sorted(out, x, o, needle);
        i = i + 1;
        proof {
            broadcast use vstd::seq_lib::group_to_multiset_ensures;

            assert(input@.take(i as int) =~= input@.take(i - 1).push(input@[i - 1]));
            assert(out@.to_multiset() =~= input@.take(i as int).to_multiset());
            assert forall|y: Asset| out@.contains(y) <==> input@.take(i as int).contains(
                y,
            ) by {
                assert(input@.take(i as int).drop_last() =~= input@.take(i - 1));
                assert(input@.take(i as int).last() == input@[i - 1]);
                if input@.take(i as int).contains(y) {
                    let w = choose|w: int|
                        0 <= w < i && input@.take(i as int)[w] == y;
                    if w < i - 1 {
                        assert(input@.take(i - 1)[w] == y);
                        assert(prev.contains(y));
                    } else {
                        assert(y == input@[i - 1]);
                    }
                }
                if out@.contains(y) {
                    if prev.contains(y) {
                        assert(input@.take(i - 1).contains(y));
                        let w = choose|w: int|
                            0 <= w < i - 1 && #[trigger] input@.take(i - 1)[w] == y;
                        assert(input@.take(i as int)[w] == y);
                    } else {
                        assert(y == input@[i - 1]);
                        assert(input@.take(i as int)[i - 1] == y);
                    }
                }
            }
        }
    }
    proof {
        assert(input@.take(input@.len() as int) =~= input@);
    }
    out
}

} // verus!

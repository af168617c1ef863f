//! The directory listing behind the path picker: entries ordered with
//! directories first, then files, each group alphabetically.

use vstd::prelude::*;
use vstd::string::StringSliceAdditionalSpecFns;
use crate::bytes::{
    lemma_cmp_bytes_antisym, lemma_cmp_bytes_eq, lemma_cmp_bytes_trans, spec_cmp_bytes, utf8,
};

verus! {

/// One entry of a browsed directory.
pub struct BrowseEntry {
    pub name: String,
    pub path: String,
    pub is_dir: bool,
}

/// `a` lists no later than `b`: directories before files, then by name.
pub open spec fn spec_browse_le(a: BrowseEntry, b: BrowseEntry) -> bool {
    if a.is_dir != b.is_dir {
        a.is_dir
    } else {
        spec_cmp_bytes(utf8(a.name@), utf8(b.name@)) <= 0
    }
}

pub open spec fn browse_sorted(s: Seq<BrowseEntry>) -> bool {
    forall|i: int, j: int|
        0 <= i < j < s.len() ==> spec_browse_le(#[trigger] s[i], #[trigger] s[j])
}

proof fn lemma_browse_le_total(a: BrowseEntry, b: BrowseEntry)
    ensures
        spec_browse_le(a, b) || spec_browse_le(b, a),
{
    lemma_cmp_bytes_antisym(utf8(a.name@), utf8(b.name@));
}

proof fn lemma_browse_le_trans(a: BrowseEntry, b: BrowseEntry, c: BrowseEntry)
    requires
        spec_browse_le(a, b),
        spec_browse_le(b, c),
    ensures
        spec_browse_le(a, c),
{
    if a.is_dir == b.is_dir && b.is_dir == c.is_dir {
        lemma_cmp_bytes_trans(utf8(a.name@), utf8(b.name@), utf8(c.name@));
    }
}

fn clone_entry(e: &BrowseEntry) -> (r: BrowseEntry)
    ensures
        r == *e,
{
    BrowseEntry { name: e.name.clone(), path: e.path.clone(), is_dir: e.is_dir }
}

fn browse_le(a: &BrowseEntry, b: &BrowseEntry) -> (r: bool)
    ensures
        r == spec_browse_le(*a, *b),
{
    if a.is_dir != b.is_dir {
        a.is_dir
    } else {
        crate::bytes::cmp_bytes(a.name.as_str().as_bytes(), b.name.as_str().as_bytes()) <= 0
    }
}

/// Arrange a directory's entries for display: directories first, then
/// files, each group by name.
pub fn order_browse_entries(input: &Vec<BrowseEntry>) -> (out: Vec<BrowseEntry>)
    ensures
        out@.len() == input@.len(),
        browse_sorted(out@),
        out@.to_multiset() == input@.to_multiset(),
        forall|y: BrowseEntry| out@.contains(y) <==> input@.contains(y),
{
    let mut out: Vec<BrowseEntry> = Vec::new();
    let mut i: usize = 0;
    proof {
        assert(input@.take(0) =~= Seq::<BrowseEntry>::empty());
        assert(out@.to_multiset() =~= input@.take(0).to_multiset());
    }
    while i < input.len()
        invariant
            i <= input@.len(),
            out@.len() == i,
            browse_sorted(out@),
            out@.to_multiset() == input@.take(i as int).to_multiset(),
            forall|y: BrowseEntry| out@.contains(y) <==> input@.take(i as int).contains(y),
        decreases input@.len() - i,
    {
        let x = clone_entry(&input[i]);
        assert(x == input@[i as int]);
        let ghost prev = out@;
        // find the first position whose entry sorts after x
        let mut j: usize = 0;
        while j < out.len() && browse_le(&out[j], &x)
            invariant
                j <= out@.len(),
                out@ == prev,
                forall|k: int| 0 <= k < j ==> spec_browse_le(#[trigger] out@[k], x),
            decreases out@.len() - j,
        {
            j = j + 1;
        }
        proof {
            if j < out@.len() {
                lemma_browse_le_total(out@[j as int], x);
            }
        }
        let ghost jj = j as int;
        out.insert(j, x);
        i = i + 1;
        proof {
            broadcast use vstd::seq_lib::group_to_multiset_ensures;

            assert(out@ == prev.insert(jj, x));
            crate::order::lemma_insert_to_multiset(prev, jj, x);
            assert(input@.take(i as int) =~= input@.take(i - 1).push(input@[i - 1]));
            assert(out@.to_multiset() =~= input@.take(i as int).to_multiset());
            assert forall|p: int, q: int| 0 <= p < q < out@.len() implies spec_browse_le(
                #[trigger] out@[p],
                #[trigger] out@[q],
            ) by {
                if p == jj {
                    assert(spec_browse_le(x, prev[jj]));
                    if q - 1 > jj {
                        assert(spec_browse_le(prev[jj], prev[q - 1]));
                        lemma_browse_le_trans(x, prev[jj], prev[q - 1]);
                    }
                } else if q == jj {
                    assert(spec_browse_le(prev[p], x));
                } else if p < jj && q > jj {
                    if p < q - 1 {
                        assert(spec_browse_le(prev[p], prev[q - 1]));
                    } else {
                        lemma_browse_le_total(prev[p], prev[p]);
                    }
                } else if q < jj {
                    assert(spec_browse_le(prev[p], prev[q]));
                } else {
                    assert(spec_browse_le(prev[p - 1], prev[q - 1]));
                }
            }
            assert forall|y: BrowseEntry| out@.contains(y) <==> (input@.take(
                i as int,
            ).contains(y)) by {
                assert(input@.take(i as int).drop_last() =~= input@.take(i - 1));
                assert(input@.take(i as int).last() == input@[i - 1]);
                if out@.contains(y) {
                    let w = choose|w: int| 0 <= w < out@.len() && out@[w] == y;
                    if w == jj {
                        assert(input@.take(i as int)[i - 1] == y);
                    } else {
                        let wo = if w < jj {
                            w
                        } else {
                            w - 1
                        };
                        assert(prev[wo] == y);
                        assert(prev.contains(y));
                        assert(input@.take(i - 1).contains(y));
                        let v = choose|v: int|
                            0 <= v < i - 1 && #[trigger] input@.take(i - 1)[v] == y;
                        assert(input@.take(i as int)[v] == y);
                    }
                }
                if input@.take(i as int).contains(y) {
                    let w = choose|w: int|
                        0 <= w < i && #[trigger] input@.take(i as int)[w] == y;
                    if w < i - 1 {
                        assert(input@.take(i - 1)[w] == y);
                        assert(prev.contains(y));
                        let v = choose|v: int| 0 <= v < prev.len() && prev[v] == y;
                        if v < jj {
                            assert(out@[v] == y);
                        } else {
                            assert(out@[v + 1] == y);
                        }
                    } else {
                        assert(out@[jj] == y);
                    }
                }
            }
        }
    }
    proof {
        assert(input@.take(input@.len() as int) =~= input@);
    }
    out
}

} // verus!

//! Listing and search over the catalog.
//!
//! A query string splits into whitespace tokens.  Tokens holding `*` or `?`
//! are wildcard patterns matched case-insensitively against the filename
//! (`*.*` means no constraint); each remaining token must, case-folded,
//! prefix a token of the row's filename, dirname or path — the prefix
//! match a full-text index performs.  Wildcard queries order by filename
//! ascending; text queries by match priority; empty queries by capture time
//! descending (nulls last) then mtime descending.

use vstd::prelude::*;
use vstd::string::StringSliceAdditionalSpecFns;
use crate::bytes::{
    contains_seq, glob_matches, is_digit, lower_bytes, split_ws, utf8,
};
use crate::catalog::{clone_asset, Asset, Catalog};
use crate::order::{sorted_by_order, sort_assets, spec_asset_le, AssetOrder, SortKey};

verus! {

/// The inputs of one search call.
pub struct SearchParams {
    pub q: String,
    pub from: Option<i64>,
    pub to: Option<i64>,
    pub camera_make: Option<String>,
    pub camera_model: Option<String>,
    pub platform_type: Option<String>,
    pub offset: i64,
    pub limit: i64,
}

/// How many matches hit each column, for text queries.
#[derive(Clone, Copy, Debug, PartialEq, Eq, Structural)]
pub struct SearchMatchCounts {
    pub filename: i64,
    pub dirname: i64,
    pub path: i64,
}

/// One search answer: the overall match count, one page of rows, and the
/// per-column hit counts where a text query was given.
pub struct SearchResult {
    pub total: i64,
    pub items: Vec<Asset>,
    pub match_counts: Option<SearchMatchCounts>,
}

/// One listing page.
pub struct Paged {
    pub total: i64,
    pub items: Vec<Asset>,
}

/// Whether a token is a wildcard pattern.
pub open spec fn is_wild_token(t: Seq<u8>) -> bool {
    t.contains(42) || t.contains(63)
}

/// The wildcard members of a token list.
pub open spec fn wild_of(ts: Seq<Seq<u8>>) -> Seq<Seq<u8>> {
    ts.filter(|t: Seq<u8>| is_wild_token(t))
}

/// The plain-text members of a token list.
pub open spec fn text_of(ts: Seq<Seq<u8>>) -> Seq<Seq<u8>> {
    ts.filter(|t: Seq<u8>| !is_wild_token(t))
}

pub open spec fn spec_wild_tokens(q: Seq<u8>) -> Seq<Seq<u8>> {
    wild_of(split_ws(q))
}

pub open spec fn spec_text_tokens(q: Seq<u8>) -> Seq<Seq<u8>> {
    text_of(split_ws(q))
}

proof fn lemma_token_filters_push(ts: Seq<Seq<u8>>, x: Seq<u8>)
    ensures
        wild_of(ts.push(x)) == (if is_wild_token(x) {
            wild_of(ts).push(x)
        } else {
            wild_of(ts)
        }),
        text_of(ts.push(x)) == (if !is_wild_token(x) {
            text_of(ts).push(x)
        } else {
            text_of(ts)
        }),
{
    broadcast use vstd::prelude::Seq::lemma_filter_push;

}

/// The bytes of `*.*`, the pattern that means "no filename constraint".
pub open spec fn star_dot_star() -> Seq<u8> {
    seq![42u8, 46u8, 42u8]
}

/// Tokens joined with single spaces.
pub open spec fn spec_join_sp(ts: Seq<Seq<u8>>) -> Seq<u8>
    decreases ts.len(),
{
    if ts.len() == 0 {
        Seq::empty()
    } else if ts.len() == 1 {
        ts[0]
    } else {
        spec_join_sp(ts.drop_last()) + seq![32u8] + ts.last()
    }
}

/// The case-folded needle a text query ranks and counts by.
pub open spec fn spec_needle(q: Seq<u8>) -> Seq<u8> {
    lower_bytes(spec_join_sp(spec_text_tokens(q)))
}

/// A byte the tokenizer keeps inside a token: ASCII alphanumerics, and all
/// non-ASCII bytes.
pub open spec fn is_word_byte(b: u8) -> bool {
    (48 <= b <= 57) || (65 <= b <= 90) || (97 <= b <= 122) || b >= 128
}

/// `t` occurs in `h` at `p`, starting a token: the byte before `p` (if any)
/// is a separator.
pub open spec fn token_prefix_at(h: Seq<u8>, t: Seq<u8>, p: int) -> bool {
    &&& 0 <= p
    &&& p + t.len() <= h.len()
    &&& h.subrange(p, p + t.len() as int) == t
    &&& (p == 0 || !is_word_byte(h[p - 1]))
}

/// `t` is a prefix of some token of `h` — the match the full-text index
/// performs for one search term.
pub open spec fn contains_token_prefix(h: Seq<u8>, t: Seq<u8>) -> bool {
    exists|p: int| #[trigger] token_prefix_at(h, t, p)
}

/// Search `h` for an occurrence of `t` at a token start.
fn matches_token_prefix(h: &[u8], t: &[u8]) -> (r: bool)
    ensures
        r == contains_token_prefix(h@, t@),
{
    if t.len() > h.len() {
        assert(!contains_token_prefix(h@, t@));
        return false;
    }
    if t.len() == 0 {
        assert(h@.subrange(0, 0 + t@.len() as int) =~= t@);
        assert(token_prefix_at(h@, t@, 0));
        return true;
    }
    let hlen = h.len();
    let limit = h.len() - t.len();
    let mut p: usize = 0;
    while p <= limit
        invariant
            hlen == h@.len(),
            0 < t@.len() <= h@.len(),
            limit == h@.len() - t@.len(),
            p <= limit + 1,
            forall|m: int| 0 <= m < p ==> !token_prefix_at(h@, t@, m),
        decreases limit + 1 - p,
    {
        let boundary = if p == 0 {
            true
        } else {
            let b = h[p - 1];
            !((48 <= b && b <= 57) || (65 <= b && b <= 90) || (97 <= b && b <= 122) || b
                >= 128)
        };
        if boundary {
            if crate::bytes::matches_at(h, t, p) {
                assert(token_prefix_at(h@, t@, p as int));
                return true;
            }
        }
        assert(!token_prefix_at(h@, t@, p as int));
        p = p + 1;
    }
    assert forall|m: int| !token_prefix_at(h@, t@, m) by {
        if 0 <= m <= limit {
        }
    }
    false
}

pub open spec fn is_upper_byte(b: u8) -> bool {
    65 <= b <= 90
}

/// The canned filename shape of a messaging-app export: three capitals, a
/// dash, eight digits, a dash, `WA`, four digits, then a dot.
pub open spec fn is_whatsapp_filename(f: Seq<u8>) -> bool {
    &&& f.len() >= 20
    &&& is_upper_byte(f[0]) && is_upper_byte(f[1]) && is_upper_byte(f[2])
    &&& f[3] == 45
    &&& (forall|i: int| 4 <= i < 12 ==> is_digit(#[trigger] f[i]))
    &&& f[12] == 45
    &&& f[13] == 87 && f[14] == 65
    &&& (forall|i: int| 15 <= i < 19 ==> is_digit(#[trigger] f[i]))
    &&& f[19] == 46
}

/// The canned filename shape of a phone camera capture: `PXL_`, eight
/// digits, `_`, nine digits, then a dot.
pub open spec fn is_pxl_filename(f: Seq<u8>) -> bool {
    &&& f.len() >= 23
    &&& f[0] == 80 && f[1] == 88 && f[2] == 76 && f[3] == 95
    &&& (forall|i: int| 4 <= i < 12 ==> is_digit(#[trigger] f[i]))
    &&& f[12] == 95
    &&& (forall|i: int| 13 <= i < 22 ==> is_digit(#[trigger] f[i]))
    &&& f[22] == 46
}

/// Whether a row satisfies every constraint of a search call: every text
/// token, case-folded, prefixes a token of the row's case-folded filename,
/// dirname or path (the prefix match the full-text index performs); every
/// wildcard pattern except `*.*` matches its filename case-insensitively;
/// the capture-time range, camera fields and platform shape hold where
/// given.
pub open spec fn spec_row_matches(a: Asset, p: SearchParams) -> bool {
    let q = utf8(p.q@);
    &&& (forall|k: int|
        0 <= k < spec_text_tokens(q).len() ==> {
            let t = lower_bytes(#[trigger] spec_text_tokens(q)[k]);
            contains_token_prefix(lower_bytes(utf8(a.filename@)), t) || contains_token_prefix(
                lower_bytes(utf8(a.dirname@)),
                t,
            ) || contains_token_prefix(lower_bytes(utf8(a.path@)), t)
        })
    &&& (forall|k: int|
        0 <= k < spec_wild_tokens(q).len() && #[trigger] spec_wild_tokens(q)[k]
            != star_dot_star() ==> glob_matches(
            lower_bytes(spec_wild_tokens(q)[k]),
            lower_bytes(utf8(a.filename@)),
        ))
    &&& (match p.from {
        Some(f) => a.taken_at matches Some(t) && t >= f,
        None => true,
    })
    &&& (match p.to {
        Some(u) => a.taken_at matches Some(t) && t <= u,
        None => true,
    })
    &&& (match p.camera_make {
        Some(m) => a.camera_make matches Some(x) && x@ == m@,
        None => true,
    })
    &&& (match p.camera_model {
        Some(m) => a.camera_model matches Some(x) && x@ == m@,
        None => true,
    })
    &&& (match p.platform_type {
        Some(pt) => if pt@ == "whatsapp"@ {
            is_whatsapp_filename(utf8(a.filename@))
        } else if pt@ == "pxl"@ {
            is_pxl_filename(utf8(a.filename@))
        } else {
            true
        },
        None => true,
    })
}

/// The rows a search matches, in catalog order.
pub open spec fn spec_matching(rows: Seq<Asset>, p: SearchParams) -> Seq<Asset> {
    rows.filter(|a: Asset| spec_row_matches(a, p))
}

proof fn lemma_matching_push(rows: Seq<Asset>, x: Asset, p: SearchParams)
    ensures
        spec_matching(rows.push(x), p) == (if spec_row_matches(x, p) {
            spec_matching(rows, p).push(x)
        } else {
            spec_matching(rows, p)
        }),
{
    broadcast use vstd::prelude::Seq::lemma_filter_push;

}

/// The matches whose case-folded filename holds the needle.
pub open spec fn fname_hits(m: Seq<Asset>, needle: Seq<u8>) -> Seq<Asset> {
    m.filter(|a: Asset| contains_seq(lower_bytes(utf8(a.filename@)), needle))
}

/// The matches whose case-folded dirname (but not filename) holds the
/// needle.
pub open spec fn dirname_hits(m: Seq<Asset>, needle: Seq<u8>) -> Seq<Asset> {
    m.filter(
        |a: Asset|
            !contains_seq(lower_bytes(utf8(a.filename@)), needle) && contains_seq(
                lower_bytes(utf8(a.dirname@)),
                needle,
            ),
    )
}

/// The matches whose case-folded path (but neither filename nor dirname)
/// holds the needle.
pub open spec fn path_hits(m: Seq<Asset>, needle: Seq<u8>) -> Seq<Asset> {
    m.filter(
        |a: Asset|
            !contains_seq(lower_bytes(utf8(a.filename@)), needle) && !contains_seq(
                lower_bytes(utf8(a.dirname@)),
                needle,
            ) && contains_seq(lower_bytes(utf8(a.path@)), needle),
    )
}

proof fn lemma_hits_push(m: Seq<Asset>, x: Asset, needle: Seq<u8>)
    ensures
        fname_hits(m.push(x), needle) == (if contains_seq(
            lower_bytes(utf8(x.filename@)),
            needle,
        ) {
            fname_hits(m, needle).push(x)
        } else {
            fname_hits(m, needle)
        }),
        dirname_hits(m.push(x), needle) == (if !contains_seq(
            lower_bytes(utf8(x.filename@)),
            needle,
        ) && contains_seq(lower_bytes(utf8(x.dirname@)), needle) {
            dirname_hits(m, needle).push(x)
        } else {
            dirname_hits(m, needle)
        }),
        path_hits(m.push(x), needle) == (if !contains_seq(
            lower_bytes(utf8(x.filename@)),
            needle,
        ) && !contains_seq(lower_bytes(utf8(x.dirname@)), needle) && contains_seq(
            lower_bytes(utf8(x.path@)),
            needle,
        ) {
            path_hits(m, needle).push(x)
        } else {
            path_hits(m, needle)
        }),
{
    broadcast use vstd::prelude::Seq::lemma_filter_push;

}

/// Which ordering a query gets: wildcard rank when any wildcard token is
/// present, text rank when text tokens are present, and the listing order
/// (capture time descending nulls last, then mtime descending) otherwise.
pub open spec fn spec_search_order(q: Seq<u8>) -> AssetOrder {
    if spec_wild_tokens(q).len() > 0 {
        AssetOrder::WildcardRank
    } else if spec_text_tokens(q).len() > 0 {
        AssetOrder::TextRank
    } else {
        AssetOrder::PlainRank
    }
}

/// Clamp an `i64` offset to a page start within `n` rows: negative means 0.
pub open spec fn spec_page_start(offset: i64, n: int) -> int {
    if offset < 0 {
        0
    } else if offset > n {
        n
    } else {
        offset as int
    }
}

/// The page end for a limit: negative means no limit.
pub open spec fn spec_page_end(offset: i64, limit: i64, n: int) -> int {
    let start = spec_page_start(offset, n);
    if limit < 0 {
        n
    } else if start + limit > n {
        n
    } else {
        start + limit
    }
}

/// Split a query into its wildcard and text tokens.
fn partition_tokens(q: &str) -> (r: (Vec<Vec<u8>>, Vec<Vec<u8>>))
    ensures
        r.0@.map_values(|t: Vec<u8>| t@) == spec_wild_tokens(q.spec_bytes()),
        r.1@.map_values(|t: Vec<u8>| t@) == spec_text_tokens(q.spec_bytes()),
{
    let tokens = crate::bytes::split_whitespace_bytes(q.as_bytes());
    let ghost toks = tokens@.map_values(|t: Vec<u8>| t@);
    let mut wild: Vec<Vec<u8>> = Vec::new();
    let mut text: Vec<Vec<u8>> = Vec::new();
    let mut i: usize = 0;
    proof {
        assert(toks.take(0) =~= Seq::<Seq<u8>>::empty());
        assert(wild@.map_values(|t: Vec<u8>| t@) =~= wild_of(toks.take(0)));
        assert(text@.map_values(|t: Vec<u8>| t@) =~= text_of(toks.take(0)));
    }
    while i < tokens.len()
        invariant
            i <= tokens@.len(),
            toks == tokens@.map_values(|t: Vec<u8>| t@),
            wild@.map_values(|t: Vec<u8>| t@) == wild_of(toks.take(i as int)),
            text@.map_values(|t: Vec<u8>| t@) == text_of(toks.take(i as int)),
        decreases tokens@.len() - i,
    {
        let t = &tokens[i];
        let ghost pw = wild@.map_values(|t: Vec<u8>| t@);
        let ghost px = text@.map_values(|t: Vec<u8>| t@);
        let mut has: bool = false;
        let mut k: usize = 0;
        while k < t.len()
            invariant
                k <= t@.len(),
                has == exists|m: int| 0 <= m < k && (#[trigger] t@[m] == 42 || t@[m] == 63),
            decreases t@.len() - k,
        {
            if t[k] == 42 || t[k] == 63 {
                has = true;
            }
            k = k + 1;
        }
        assert(has == is_wild_token(t@)) by {
            if t@.contains(42) {
                let m = choose|m: int| 0 <= m < t@.len() && t@[m] == 42;
                assert(t@[m] == 42 || t@[m] == 63);
            }
            if t@.contains(63) {
                let m = choose|m: int| 0 <= m < t@.len() && t@[m] == 63;
                assert(t@[m] == 42 || t@[m] == 63);
            }
            if has {
                let m = choose|m: int| 0 <= m < t@.len() && (#[trigger] t@[m] == 42 || t@[m] == 63);
                if t@[m] == 42 {
                    assert(t@.contains(42));
                } else {
                    assert(t@.contains(63));
                }
            }
        }
        let copy = crate::bytes::clone_bytes(t);
        if has {
            wild.push(copy);
        } else {
            text.push(copy);
        }
        i = i + 1;
        proof {
            assert(toks.take(i as int) =~= toks.take(i - 1).push(toks[i - 1]));
            assert(toks[i - 1] == t@);
            lemma_token_filters_push(toks.take(i - 1), t@);
            if has {
                assert(wild@.map_values(|t: Vec<u8>| t@) =~= pw.push(t@));
                assert(text@.map_values(|t: Vec<u8>| t@) =~= px);
            } else {
                assert(wild@.map_values(|t: Vec<u8>| t@) =~= pw);
                assert(text@.map_values(|t: Vec<u8>| t@) =~= px.push(t@));
            }
        }
    }
    proof {
        assert(toks.take(toks.len() as int) =~= toks);
    }
    (wild, text)
}

/// Join tokens with single spaces.
fn join_tokens(ts: &Vec<Vec<u8>>) -> (r: Vec<u8>)
    ensures
        r@ == spec_join_sp(ts@.map_values(|t: Vec<u8>| t@)),
{
    let ghost tv = ts@.map_values(|t: Vec<u8>| t@);
    let mut out: Vec<u8> = Vec::new();
    let mut i: usize = 0;
    proof {
        assert(out@ =~= spec_join_sp(tv.take(0)));
    }
    while i < ts.len()
        invariant
            i <= ts@.len(),
            tv == ts@.map_values(|t: Vec<u8>| t@),
            out@ == spec_join_sp(tv.take(i as int)),
        decreases ts@.len() - i,
    {
        let ghost prev = out@;
        if i > 0 {
            out.push(32);
        }
        let t = &ts[i];
        let mut k: usize = 0;
        let ghost mid = out@;
        while k < t.len()
            invariant
                k <= t@.len(),
                out@ == mid + t@.take(k as int),
            decreases t@.len() - k,
        {
            out.push(t[k]);
            k = k + 1;
            assert(out@ =~= mid + t@.take(k as int));
        }
        assert(t@.take(t@.len() as int) =~= t@);
        i = i + 1;
        proof {
            assert(tv.take(i as int).drop_last() =~= tv.take(i - 1));
            assert(tv.take(i as int).last() == tv[i - 1]);
            assert(tv[i - 1] == t@);
            if i == 1 {
                assert(out@ =~= spec_join_sp(tv.take(1)));
            } else {
                assert(out@ =~= spec_join_sp(tv.take(i - 1)) + seq![32u8] + t@);
            }
        }
    }
    proof {
        assert(tv.take(tv.len() as int) =~= tv);
    }
    out
}

fn check_whatsapp(f: &[u8]) -> (r: bool)
    ensures
        r == is_whatsapp_filename(f@),
{
    if f.len() < 20 {
        return false;
    }
    if !(65 <= f[0] && f[0] <= 90 && 65 <= f[1] && f[1] <= 90 && 65 <= f[2] && f[2] <= 90) {
        return false;
    }
    if f[3] != 45 || f[12] != 45 || f[13] != 87 || f[14] != 65 || f[19] != 46 {
        return false;
    }
    let mut i: usize = 4;
    while i < 12
        invariant
            4 <= i <= 12,
            f@.len() >= 20,
            forall|k: int| 4 <= k < i ==> is_digit(#[trigger] f@[k]),
        decreases 12 - i,
    {
        if f[i] < 48 || f[i] > 57 {
            return false;
        }
        i = i + 1;
    }
    let mut i: usize = 15;
    while i < 19
        invariant
            15 <= i <= 19,
            f@.len() >= 20,
            forall|k: int| 15 <= k < i ==> is_digit(#[trigger] f@[k]),
        decreases 19 - i,
    {
        if f[i] < 48 || f[i] > 57 {
            return false;
        }
        i = i + 1;
    }
    true
}

fn check_pxl(f: &[u8]) -> (r: bool)
    ensures
        r == is_pxl_filename(f@),
{
    if f.len() < 23 {
        return false;
    }
    if f[0] != 80 || f[1] != 88 || f[2] != 76 || f[3] != 95 || f[12] != 95 || f[22] != 46 {
        return false;
    }
    let mut i: usize = 4;
    while i < 12
        invariant
            4 <= i <= 12,
            f@.len() >= 23,
            forall|k: int| 4 <= k < i ==> is_digit(#[trigger] f@[k]),
        decreases 12 - i,
    {
        if f[i] < 48 || f[i] > 57 {
            return false;
        }
        i = i + 1;
    }
    let mut i: usize = 13;
    while i < 22
        invariant
            13 <= i <= 22,
            f@.len() >= 23,
            forall|k: int| 13 <= k < i ==> is_digit(#[trigger] f@[k]),
        decreases 22 - i,
    {
        if f[i] < 48 || f[i] > 57 {
            return false;
        }
        i = i + 1;
    }
    true
}

/// Whether a row satisfies every constraint of the search call.
fn row_matches(a: &Asset, p: &SearchParams, wild: &Vec<Vec<u8>>, text: &Vec<Vec<u8>>) -> (r:
    bool)
    requires
        wild@.map_values(|t: Vec<u8>| t@) == spec_wild_tokens(utf8(p.q@)),
        text@.map_values(|t: Vec<u8>| t@) == spec_text_tokens(utf8(p.q@)),
    ensures
        r == spec_row_matches(*a, *p),
{
    let ghost q = utf8(p.q@);
    let fname_l = crate::bytes::to_lower_bytes(a.filename.as_str().as_bytes());
    let dname_l = crate::bytes::to_lower_bytes(a.dirname.as_str().as_bytes());
    let path_l = crate::bytes::to_lower_bytes(a.path.as_str().as_bytes());
    let mut k: usize = 0;
    while k < text.len()
        invariant
            q == utf8(p.q@),
            k <= text@.len(),
            text@.map_values(|t: Vec<u8>| t@) == spec_text_tokens(q),
            fname_l@ == lower_bytes(utf8(a.filename@)),
            dname_l@ == lower_bytes(utf8(a.dirname@)),
            path_l@ == lower_bytes(utf8(a.path@)),
            forall|m: int|
                0 <= m < k ==> {
                    let t = lower_bytes(#[trigger] spec_text_tokens(q)[m]);
                    contains_token_prefix(lower_bytes(utf8(a.filename@)), t)
                        || contains_token_prefix(lower_bytes(utf8(a.dirname@)), t)
                        || contains_token_prefix(lower_bytes(utf8(a.path@)), t)
                },
        decreases text@.len() - k,
    {
        let tok_l = crate::bytes::to_lower_bytes(text[k].as_slice());
        assert(text@.map_values(|t: Vec<u8>| t@)[k as int] == text@[k as int]@);
        assert(tok_l@ == lower_bytes(spec_text_tokens(q)[k as int]));
        if !(matches_token_prefix(fname_l.as_slice(), tok_l.as_slice())
            || matches_token_prefix(dname_l.as_slice(), tok_l.as_slice())
            || matches_token_prefix(path_l.as_slice(), tok_l.as_slice())) {
            return false;
        }
        k = k + 1;
    }
    let star: Vec<u8> = vec![42u8, 46u8, 42u8];
    assert(star@ =~= star_dot_star());
    let mut k: usize = 0;
    while k < wild.len()
        invariant
            q == utf8(p.q@),
            k <= wild@.len(),
            wild@.map_values(|t: Vec<u8>| t@) == spec_wild_tokens(q),
            star@ == star_dot_star(),
            fname_l@ == lower_bytes(utf8(a.filename@)),
            forall|m: int|
                0 <= m < k && #[trigger] spec_wild_tokens(q)[m] != star_dot_star()
                    ==> glob_matches(
                    lower_bytes(spec_wild_tokens(q)[m]),
                    lower_bytes(utf8(a.filename@)),
                ),
        decreases wild@.len() - k,
    {
        assert(wild@.map_values(|t: Vec<u8>| t@)[k as int] == wild@[k as int]@);
        assert(wild@[k as int]@ == spec_wild_tokens(q)[k as int]);
        if !crate::bytes::bytes_eq(wild[k].as_slice(), star.as_slice()) {
            let pat_l = crate::bytes::to_lower_bytes(wild[k].as_slice());
            if !crate::bytes::glob_match(pat_l.as_slice(), fname_l.as_slice()) {
                assert(spec_wild_tokens(q)[k as int] != star_dot_star());
                assert(!glob_matches(
                    lower_bytes(spec_wild_tokens(q)[k as int]),
                    lower_bytes(utf8(a.filename@)),
                ));
                return false;
            }
        }
        k = k + 1;
    }
    match &p.from {
        Some(f) => match &a.taken_at {
            Some(t) => if *t < *f {
                return false;
            },
            None => {
                return false;
            },
        },
        None => {},
    }
    match &p.to {
        Some(u) => match &a.taken_at {
            Some(t) => if *t > *u {
                return false;
            },
            None => {
                return false;
            },
        },
        None => {},
    }
    match &p.camera_make {
        Some(m) => match &a.camera_make {
            Some(x) => if !crate::text::str_eq(x.as_str(), m.as_str()) {
                return false;
            },
            None => {
                return false;
            },
        },
        None => {},
    }
    match &p.camera_model {
        Some(m) => match &a.camera_model {
            Some(x) => if !crate::text::str_eq(x.as_str(), m.as_str()) {
                return false;
            },
            None => {
                return false;
            },
        },
        None => {},
    }
    match &p.platform_type {
        Some(pt) => {
            if crate::text::str_eq(pt.as_str(), "whatsapp") {
                if !check_whatsapp(a.filename.as_str().as_bytes()) {
                    return false;
                }
            } else if crate::text::str_eq(pt.as_str(), "pxl") {
                if !check_pxl(a.filename.as_str().as_bytes()) {
                    return false;
                }
            }
        },
        None => {},
    }
    true
}

impl Catalog {
    /// Search the catalog.  The answer's total counts every matching row;
    /// the page is a window of the matching rows arranged in the query's
    /// order; the per-column counts accompany text queries, and a
    /// wildcard-only query reports its whole total as filename hits.
    pub fn search_assets(&self, p: &SearchParams) -> (r: SearchResult)
        requires
            self.wf(),
        ensures
            ({
                let q = utf8(p.q@);
                let m = spec_matching(self.assets@, *p);
                &&& r.total == m.len()
                &&& sorted_by_order(r.items@, spec_search_order(q), spec_needle(q))
                &&& (forall|y: Asset| r.items@.contains(y) ==> m.contains(y))
                &&& (exists|s: Seq<Asset>|
                    s.len() == m.len() && sorted_by_order(s, spec_search_order(q), spec_needle(q))
                        && s.to_multiset() == m.to_multiset() && (forall|y: Asset|
                        s.contains(y) <==> m.contains(y)) && r.items@
                        == s.subrange(
                        spec_page_start(p.offset, m.len() as int),
                        spec_page_end(p.offset, p.limit, m.len() as int),
                    ))
                &&& (match r.match_counts {
                    Some(c) => ({
                        &&& spec_text_tokens(q).len() > 0
                        &&& c.filename == fname_hits(m, spec_needle(q)).len()
                        &&& c.dirname == dirname_hits(m, spec_needle(q)).len()
                        &&& c.path == path_hits(m, spec_needle(q)).len()
                    }) || (spec_text_tokens(q).len() == 0 && spec_wild_tokens(q).len() > 0
                        && c.filename == m.len() && c.dirname == 0 && c.path == 0),
                    None => spec_text_tokens(q).len() == 0 && spec_wild_tokens(q).len() == 0,
                })
            }),
    {
        let ghost q = utf8(p.q@);
        let ghost m = spec_matching(self.assets@, *p);
        let (wild, text) = partition_tokens(p.q.as_str());
        let needle_raw = join_tokens(&text);
        let needle = crate::bytes::to_lower_bytes(needle_raw.as_slice());
        assert(needle@ == spec_needle(q));

        // collect the matching rows, in catalog order
        let mut filtered: Vec<Asset> = Vec::new();
        let mut i: usize = 0;
        proof {
            assert(self.assets@.take(0) =~= Seq::<Asset>::empty());
            assert(filtered@ =~= spec_matching(self.assets@.take(0), *p));
        }
        while i < self.assets.len()
            invariant
                self.wf(),
                i <= self.assets@.len(),
                wild@.map_values(|t: Vec<u8>| t@) == spec_wild_tokens(utf8(p.q@)),
                text@.map_values(|t: Vec<u8>| t@) == spec_text_tokens(utf8(p.q@)),
                filtered@ == spec_matching(self.assets@.take(i as int), *p),
            decreases self.assets@.len() - i,
        {
            let ghost prev = filtered@;
            if row_matches(&self.assets[i], p, &wild, &text) {
                filtered.push(clone_asset(&self.assets[i]));
            }
            i = i + 1;
            proof {
                assert(self.assets@.take(i as int) =~= self.assets@.take(i - 1).push(
                    self.assets@[i - 1],
                ));
                lemma_matching_push(self.assets@.take(i - 1), self.assets@[i - 1], *p);
            }
        }
        proof {
            assert(self.assets@.take(self.assets@.len() as int) =~= self.assets@);
            broadcast use vstd::seq_lib::group_filter_ensures;

            assert(m.len() <= self.assets@.len());
        }
        let total = filtered.len() as i64;

        // per-column counts for text queries
        let match_counts = if text.len() > 0 {
            let mut cf: usize = 0;
            let mut cd: usize = 0;
            let mut cp: usize = 0;
            let mut k: usize = 0;
            proof {
                assert(m.take(0) =~= Seq::<Asset>::empty());
                assert(fname_hits(m.take(0), spec_needle(q)) =~= Seq::<Asset>::empty());
                assert(dirname_hits(m.take(0), spec_needle(q)) =~= Seq::<Asset>::empty());
                assert(path_hits(m.take(0), spec_needle(q)) =~= Seq::<Asset>::empty());
            }
            while k < filtered.len()
                invariant
                    k <= filtered@.len(),
                    filtered@ == m,
                    needle@ == spec_needle(q),
                    cf <= k && cd <= k && cp <= k,
                    cf == fname_hits(m.take(k as int), spec_needle(q)).len(),
                    cd == dirname_hits(m.take(k as int), spec_needle(q)).len(),
                    cp == path_hits(m.take(k as int), spec_needle(q)).len(),
                decreases filtered@.len() - k,
            {
                let a = &filtered[k];
                let fl = crate::bytes::to_lower_bytes(a.filename.as_str().as_bytes());
                let dl = crate::bytes::to_lower_bytes(a.dirname.as_str().as_bytes());
                let pl = crate::bytes::to_lower_bytes(a.path.as_str().as_bytes());
                let inf = crate::bytes::contains_bytes(fl.as_slice(), needle.as_slice());
                let ind = crate::bytes::contains_bytes(dl.as_slice(), needle.as_slice());
                let inp = crate::bytes::contains_bytes(pl.as_slice(), needle.as_slice());
                if inf {
                    cf = cf + 1;
                } else if ind {
                    cd = cd + 1;
                } else if inp {
                    cp = cp + 1;
                }
                k = k + 1;
                proof {
                    assert(m.take(k as int) =~= m.take(k - 1).push(m[k - 1]));
                    lemma_hits_push(m.take(k - 1), m[k - 1], spec_needle(q));
                    assert(filtered@[k - 1] == m[k - 1]);
                }
            }
            proof {
                assert(m.take(m.len() as int) =~= m);
                broadcast use vstd::seq_lib::group_filter_ensures;

                assert(fname_hits(m, spec_needle(q)).len() <= m.len());
                assert(dirname_hits(m, spec_needle(q)).len() <= m.len());
                assert(path_hits(m, spec_needle(q)).len() <= m.len());
            }
            Some(SearchMatchCounts { filename: cf as i64, dirname: cd as i64, path: cp as i64 })
        } else if wild.len() > 0 {
            Some(SearchMatchCounts { filename: total, dirname: 0, path: 0 })
        } else {
            None
        };

        // order the matches
        let order = if wild.len() > 0 {
            AssetOrder::WildcardRank
        } else if text.len() > 0 {
            AssetOrder::TextRank
        } else {
            AssetOrder::PlainRank
        };
        assert(order == spec_search_order(q));
        let sorted = sort_assets(&filtered, &order, needle.as_slice());

        // take the requested page
        let n = sorted.len();
        assert(n <= i64::MAX);
        let n_i: i64 = n as i64;
        let start_i: i64 = if p.offset < 0 {
            0
        } else if p.offset > n_i {
            n_i
        } else {
            p.offset
        };
        let end_i: i64 = if p.limit < 0 {
            n_i
        } else if p.limit > n_i - start_i {
            n_i
        } else {
            start_i + p.limit
        };
        let start: usize = start_i as usize;
        let end: usize = end_i as usize;
        assert(start == spec_page_start(p.offset, m.len() as int));
        assert(end == spec_page_end(p.offset, p.limit, m.len() as int));
        let mut items: Vec<Asset> = Vec::new();
        let mut k: usize = start;
        while k < end
            invariant
                start <= k <= end <= sorted@.len(),
                items@ == sorted@.subrange(start as int, k as int),
            decreases end - k,
        {
            items.push(clone_asset(&sorted[k]));
            k = k + 1;
            assert(items@ =~= sorted@.subrange(start as int, k as int));
        }
        proof {
            if start == end {
                assert(items@ =~= sorted@.subrange(start as int, end as int));
            }
            assert forall|a: int, b: int| 0 <= a < b < items@.len() implies spec_asset_le(
                spec_search_order(q),
                spec_needle(q),
                #[trigger] items@[a],
                #[trigger] items@[b],
            ) by {
                assert(items@[a] == sorted@[start + a]);
                assert(items@[b] == sorted@[start + b]);
            }
            assert forall|y: Asset| items@.contains(y) implies m.contains(y) by {
                let w = choose|w: int| 0 <= w < items@.len() && items@[w] == y;
                assert(sorted@[start + w] == y);
                assert(sorted@.contains(y));
            }
        }
        SearchResult { total, items, match_counts }
    }

    /// One listing page: all rows counted, one window of them arranged by
    /// the requested column (unknown columns fall back to mtime) and
    /// direction.
    pub fn list_assets(&self, offset: i64, limit: i64, sort: &str, order: &str) -> (r: Paged)
        requires
            self.wf(),
        ensures
            r.total == self.assets@.len(),
            ({
                let key = spec_sort_key(sort@);
                let asc = order@ == "asc"@;
                let o = AssetOrder::List { key, asc };
                &&& sorted_by_order(r.items@, o, Seq::empty())
                &&& (forall|y: Asset| r.items@.contains(y) ==> self.assets@.contains(y))
                &&& (exists|s: Seq<Asset>|
                    s.len() == self.assets@.len() && sorted_by_order(s, o, Seq::empty())
                        && s.to_multiset() == self.assets@.to_multiset() && (forall|y: Asset|
                        s.contains(y) <==> self.assets@.contains(y)) && r.items@
                        == s.subrange(
                        spec_page_start(offset, self.assets@.len() as int),
                        spec_page_end(offset, limit, self.assets@.len() as int),
                    ))
            }),
    {
        let key = if crate::text::str_eq(sort, "none") {
            SortKey::ById
        } else if crate::text::str_eq(sort, "taken_at") {
            SortKey::ByTakenAt
        } else if crate::text::str_eq(sort, "filename") {
            SortKey::ByFilename
        } else if crate::text::str_eq(sort, "size_bytes") {
            SortKey::BySize
        } else {
            SortKey::ByMtime
        };
        let asc = crate::text::str_eq(order, "asc");
        let o = AssetOrder::List { key, asc };
        let empty_needle: Vec<u8> = Vec::new();
        let sorted = sort_assets(&self.assets, &o, empty_needle.as_slice());
        assert(empty_needle@ =~= Seq::<u8>::empty());
        let n = sorted.len();
        assert(n <= i64::MAX);
        let n_i: i64 = n as i64;
        let start_i: i64 = if offset < 0 {
            0
        } else if offset > n_i {
            n_i
        } else {
            offset
        };
        let end_i: i64 = if limit < 0 {
            n_i
        } else if limit > n_i - start_i {
            n_i
        } else {
            start_i + limit
        };
        let start: usize = start_i as usize;
        let end: usize = end_i as usize;
        assert(start == spec_page_start(offset, self.assets@.len() as int));
        assert(end == spec_page_end(offset, limit, self.assets@.len() as int));
        let mut items: Vec<Asset> = Vec::new();
        let mut k: usize = start;
        while k < end
            invariant
                start <= k <= end <= sorted@.len(),
                items@ == sorted@.subrange(start as int, k as int),
            decreases end - k,
        {
            items.push(clone_asset(&sorted[k]));
            k = k + 1;
            assert(items@ =~= sorted@.subrange(start as int, k as int));
        }
        proof {
            if start == end {
                assert(items@ =~= sorted@.subrange(start as int, end as int));
            }
            assert forall|a: int, b: int| 0 <= a < b < items@.len() implies spec_asset_le(
                o,
                Seq::empty(),
                #[trigger] items@[a],
                #[trigger] items@[b],
            ) by {
                assert(items@[a] == sorted@[start + a]);
                assert(items@[b] == sorted@[start + b]);
            }
            assert forall|y: Asset| items@.contains(y) implies self.assets@.contains(y) by {
                let w = choose|w: int| 0 <= w < items@.len() && items@[w] == y;
                assert(sorted@[start + w] == y);
                assert(sorted@.contains(y));
            }
        }
        Paged { total: self.count_assets(), items }
    }
}

/// A whitespace-only query yields no tokens.
proof fn lemma_split_ws_all_blank(s: Seq<u8>, i: int, acc: Seq<Seq<u8>>)
    requires
        0 <= i <= s.len(),
        forall|k: int| 0 <= k < s.len() ==> crate::bytes::is_ws(#[trigger] s[k]),
    ensures
        crate::bytes::split_ws_from(s, i, Seq::empty(), acc) == acc,
    decreases s.len() - i,
{
    if i < s.len() {
        lemma_split_ws_all_blank(s, i + 1, acc);
    }
}

/// A query of nothing but spaces constrains nothing: every row matches,
/// and the results take the listing order — capture time descending with
/// nulls last, then mtime descending.
pub proof fn lemma_blank_query_takes_listing_order(p: SearchParams, a: Asset)
    requires
        forall|k: int|
            0 <= k < utf8(p.q@).len() ==> crate::bytes::is_ws(#[trigger] utf8(p.q@)[k]),
        p.from is None,
        p.to is None,
        p.camera_make is None,
        p.camera_model is None,
        p.platform_type is None,
    ensures
        spec_row_matches(a, p),
        spec_search_order(utf8(p.q@)) == AssetOrder::PlainRank,
{
    let q = utf8(p.q@);
    lemma_split_ws_all_blank(q, 0, Seq::empty());
    assert(crate::bytes::split_ws(q) =~= Seq::<Seq<u8>>::empty());
    assert(spec_wild_tokens(q) =~= Seq::<Seq<u8>>::empty());
    assert(spec_text_tokens(q) =~= Seq::<Seq<u8>>::empty());
}

/// The query `*.*` with no text and no filters matches every row, and its
/// results are ordered by the wildcard rank, whose first key is the
/// filename ascending.
pub proof fn lemma_star_query_lists_all(p: SearchParams, a: Asset)
    requires
        utf8(p.q@) == star_dot_star(),
        p.from is None,
        p.to is None,
        p.camera_make is None,
        p.camera_model is None,
        p.platform_type is None,
    ensures
        spec_row_matches(a, p),
        spec_search_order(utf8(p.q@)) == AssetOrder::WildcardRank,
{
    let q = star_dot_star();
    // the query splits into its single token
    assert(!crate::bytes::is_ws(q[0]) && !crate::bytes::is_ws(q[1]) && !crate::bytes::is_ws(
        q[2],
    ));
    assert(crate::bytes::split_ws_from(q, 3, q, Seq::empty()) =~= seq![q]);
    assert(Seq::<u8>::empty().push(q[0]).push(q[1]).push(q[2]) =~= q);
    assert(crate::bytes::split_ws_from(q, 0, Seq::empty(), Seq::empty())
        == crate::bytes::split_ws_from(q, 1, Seq::<u8>::empty().push(q[0]), Seq::empty()));
    assert(crate::bytes::split_ws_from(q, 1, Seq::<u8>::empty().push(q[0]), Seq::empty())
        == crate::bytes::split_ws_from(
        q,
        2,
        Seq::<u8>::empty().push(q[0]).push(q[1]),
        Seq::empty(),
    ));
    assert(crate::bytes::split_ws_from(q, 2, Seq::<u8>::empty().push(q[0]).push(q[1]), Seq::empty())
        == crate::bytes::split_ws_from(q, 3, q, Seq::empty()));
    assert(crate::bytes::split_ws(q) == seq![q]);
    // the one token is a wildcard, and it is exactly the unconstrained one
    assert(q.contains(42)) by {
        assert(q[0] == 42);
    }
    assert(is_wild_token(q));
    broadcast use vstd::prelude::Seq::lemma_filter_push;

    assert(seq![q] =~= Seq::<Seq<u8>>::empty().push(q));
    assert(wild_of(Seq::<Seq<u8>>::empty()) =~= Seq::<Seq<u8>>::empty());
    assert(text_of(Seq::<Seq<u8>>::empty()) =~= Seq::<Seq<u8>>::empty());
    assert(spec_wild_tokens(q) =~= seq![q]);
    assert(spec_text_tokens(q) =~= Seq::<Seq<u8>>::empty());
    assert forall|k: int|
        0 <= k < spec_wild_tokens(q).len() && #[trigger] spec_wild_tokens(q)[k]
            != star_dot_star() implies glob_matches(
        lower_bytes(spec_wild_tokens(q)[k]),
        lower_bytes(utf8(a.filename@)),
    ) by {
        assert(spec_wild_tokens(q)[k] == q);
    }
}

/// Which listing column a sort-field name selects; unknown names fall back
/// to mtime.
pub open spec fn spec_sort_key(sort: Seq<char>) -> SortKey {
    if sort == "none"@ {
        SortKey::ById
    } else if sort == "taken_at"@ {
        SortKey::ByTakenAt
    } else if sort == "filename"@ {
        SortKey::ByFilename
    } else if sort == "size_bytes"@ {
        SortKey::BySize
    } else {
        SortKey::ByMtime
    }
}

} // verus!

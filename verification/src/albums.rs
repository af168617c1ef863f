//! Albums: named sets of assets with membership edges, kept consistent with
//! the catalog (deleting an album removes its membership).

use vstd::prelude::*;
use crate::catalog::{Album, AlbumEdge, Catalog, spec_album_exists};
use vstd::string::StringExecFns;

verus! {

/// Clone an album, value for value.
fn clone_album(a: &Album) -> (r: Album)
    ensures
        r == *a,
{
    Album {
        id: a.id,
        name: a.name.clone(),
        description: crate::catalog::clone_opt_string(&a.description),
        created_at: a.created_at,
        updated_at: a.updated_at,
    }
}

/// Whether an edge is present.
fn edge_in(edges: &Vec<AlbumEdge>, e: AlbumEdge) -> (r: bool)
    ensures
        r == edges@.contains(e),
{
    let mut i: usize = 0;
    while i < edges.len()
        invariant
            i <= edges@.len(),
            forall|k: int| 0 <= k < i ==> #[trigger] edges@[k] != e,
        decreases edges@.len() - i,
    {
        if edges[i].album_id == e.album_id && edges[i].asset_id == e.asset_id {
            assert(edges@[i as int] == e);
            return true;
        }
        i = i + 1;
    }
    false
}

/// Sort ids ascending.
pub fn sort_i64_asc(input: Vec<i64>) -> (out: Vec<i64>)
    ensures
        out@.len() == input@.len(),
        forall|i: int, j: int| 0 <= i < j < out@.len() ==> #[trigger] out@[i] <= #[trigger] out@[j],
        out@.to_multiset() == input@.to_multiset(),
        forall|y: i64| out@.contains(y) <==> input@.contains(y),
{
    let mut out: Vec<i64> = Vec::new();
    let mut i: usize = 0;
    proof {
        assert(input@.take(0) =~= Seq::<i64>::empty());
        assert(out@.to_multiset() =~= input@.take(0).to_multiset());
    }
    while i < input.len()
        invariant
            i <= input@.len(),
            out@.len() == i,
            forall|p: int, q: int| 0 <= p < q < out@.len() ==> #[trigger] out@[p] <= #[trigger] out@[q],
            out@.to_multiset() == input@.take(i as int).to_multiset(),
            forall|y: i64| out@.contains(y) <==> input@.take(i as int).contains(y),
        decreases input@.len() - i,
    {
        let x = input[i];
        let ghost prev = out@;
        let mut j: usize = 0;
        while j < out.len() && out[j] <= x
            invariant
                j <= out@.len(),
                out@ == prev,
                forall|k: int| 0 <= k < j ==> #[trigger] out@[k] <= x,
            decreases out@.len() - j,
        {
            j = j + 1;
        }
        assert(forall|k: int| 0 <= k < j ==> #[trigger] out@[k] <= x);
        assert(j < out@.len() ==> x <= out@[j as int]);
        let ghost jj = j as int;
        out.insert(j, x);
        i = i + 1;
        proof {
            broadcast use vstd::seq_lib::group_to_multiset_ensures;

            assert(out@ == prev.insert(jj, x));
            crate::order::lemma_insert_to_multiset(prev, jj, x);
            assert(input@.take(i as int) =~= input@.take(i - 1).push(input@[i - 1]));
            assert(out@.to_multiset() =~= input@.take(i as int).to_multiset());
            assert forall|p: int, q: int| 0 <= p < q < out@.len() implies #[trigger] out@[p]
                <= #[trigger] out@[q] by {
                if p != jj && q != jj {
                    let po = if p < jj {
                        p
                    } else {
                        p - 1
                    };
                    let qo = if q < jj {
                        q
                    } else {
                        q - 1
                    };
                    if po < qo {
                        assert(prev[po] <= prev[qo]);
                    }
                } else if p == jj {
                    assert(x <= prev[jj]);
                    assert(out@[q] == prev[q - 1]);
                    if q - 1 > jj {
                        assert(prev[jj] <= prev[q - 1]);
                    }
                } else {
                    assert(out@[p] == prev[p]);
                    assert(prev[p] <= x);
                }
            }
            assert forall|y: i64| out@.contains(y) <==> input@.take(i as int).contains(
                y,
            ) by {
                assert(input@.take(i as int).drop_last() =~= input@.take(i - 1));
                assert(input@.take(i as int).last() == input@[i - 1]);
                if out@.contains(y) {
                    let w = choose|w: int| 0 <= w < out@.len() && out@[w] == y;
                    if w == jj {
                        assert(input@.take(i as int)[i - 1] == y);
                    } else {
                        let wo = if w < jj {
                            w
                        } else {
                            w - 1
                        };
                        assert(prev[wo] == y);
                        assert(prev.contains(y));
                        assert(input@.take(i - 1).contains(y));
                        let v = choose|v: int|
                            0 <= v < i - 1 && #[trigger] input@.take(i - 1)[v] == y;
                        assert(input@.take(i as int)[v] == y);
                    }
                }
                if input@.take(i as int).contains(y) {
                    let w = choose|w: int|
                        0 <= w < i && #[trigger] input@.take(i as int)[w] == y;
                    if w < i - 1 {
                        assert(input@.take(i - 1)[w] == y);
                        assert(prev.contains(y));
                        let v = choose|v: int| 0 <= v < prev.len() && prev[v] == y;
                        if v < jj {
                            assert(out@[v] == y);
                        } else {
                            assert(out@[v + 1] == y);
                        }
                    } else {
                        assert(out@[jj] == y);
                    }
                }
            }
        }
    }
    proof {
        assert(input@.take(input@.len() as int) =~= input@);
    }
    out
}

impl Catalog {
    /// Index of the album with `id`, if any.
    fn find_album(&self, id: i64) -> (r: Option<usize>)
        ensures
            match r {
                Some(i) => i < self.albums@.len() && self.albums@[i as int].id == id,
                None => !spec_album_exists(self.albums@, id),
            },
    {
        let mut i: usize = 0;
        while i < self.albums.len()
            invariant
                i <= self.albums@.len(),
                forall|k: int| 0 <= k < i ==> #[trigger] self.albums@[k].id != id,
            decreases self.albums@.len() - i,
        {
            if self.albums[i].id == id {
                return Some(i);
            }
            i = i + 1;
        }
        None
    }

    /// Create an album; returns its id.
    pub fn create_album(&mut self, name: &str, description: Option<&str>, now: i64) -> (r: i64)
        requires
            old(self).wf(),
            old(self).next_album_id < i64::MAX,
        ensures
            final(self).wf(),
            r == old(self).next_album_id,
            spec_album_exists(final(self).albums@, r),
            final(self).albums@.len() == old(self).albums@.len() + 1,
            final(self).albums@.take(old(self).albums@.len() as int) == old(self).albums@,
            final(self).albums@.last().id == r,
            final(self).albums@.last().name@ == name@,
            match description {
                Some(d) => final(self).albums@.last().description matches Some(s) && s@ == d@,
                None => final(self).albums@.last().description is None,
            },
            final(self).albums@.last().created_at == now,
            final(self).albums@.last().updated_at == now,
            final(self).next_album_id == old(self).next_album_id + 1,
            final(self).assets@ == old(self).assets@,
            final(self).fts@ == old(self).fts@,
            final(self).scan_paths@ == old(self).scan_paths@,
            final(self).album_assets@ == old(self).album_assets@,
            final(self).next_id == old(self).next_id,
    {
        let id = self.next_album_id;
        let album = Album {
            id,
            name: String::from_str(name),
            description: match description {
                Some(d) => Some(String::from_str(d)),
                None => None,
            },
            created_at: now,
            updated_at: now,
        };
        let ghost prev = self.albums@;
        self.albums.push(album);
        self.next_album_id = id + 1;
        proof {
            assert(self.albums@.take(prev.len() as int) =~= prev);
            assert(self.albums@.last().id == id);
        }
        id
    }

    /// One album with its member asset ids, ascending.
    pub fn get_album(&self, id: i64) -> (r: Option<
        (i64, String, Option<String>, i64, i64, Vec<i64>),
    >)
        requires
            self.wf(),
        ensures
            match r {
                Some(t) => exists|i: int|
                    0 <= i < self.albums@.len() && #[trigger] self.albums@[i].id == id && t.0
                        == id && t.1@ == self.albums@[i].name@ && (match (
                        t.2,
                        self.albums@[i].description,
                    ) {
                        (Some(a), Some(b)) => a@ == b@,
                        (None, None) => true,
                        _ => false,
                    }) && t.3 == self.albums@[i].created_at && t.4 == self.albums@[i].updated_at
                        && (forall|p: int, q: int|
                        0 <= p < q < t.5@.len() ==> #[trigger] t.5@[p] <= #[trigger] t.5@[q]) && (
                    forall|e: i64|
                        t.5@.contains(e) <==> self.album_assets@.contains(
                            AlbumEdge { album_id: id, asset_id: e },
                        )),
                None => !spec_album_exists(self.albums@, id),
            },
    {
        let i = match self.find_album(id) {
            Some(i) => i,
            None => {
                return None;
            },
        };
        let a = clone_album(&self.albums[i]);
        let mut ids: Vec<i64> = Vec::new();
        let mut k: usize = 0;
        while k < self.album_assets.len()
            invariant
                k <= self.album_assets@.len(),
                forall|e: i64| #[trigger]
                    ids@.contains(e) <==> self.album_assets@.take(k as int).contains(
                        AlbumEdge { album_id: id, asset_id: e },
                    ),
            decreases self.album_assets@.len() - k,
        {
            let edge = self.album_assets[k];
            let ghost prev = ids@;
            if edge.album_id == id {
                ids.push(edge.asset_id);
            }
            k = k + 1;
            proof {
                let edges = self.album_assets@;
                assert(edges.take(k as int).drop_last() =~= edges.take(k - 1));
                assert(edges.take(k as int).last() == edges[k - 1]);
                assert forall|e: i64| #[trigger]
                    ids@.contains(e) <==> edges.take(k as int).contains(
                        AlbumEdge { album_id: id, asset_id: e },
                    ) by {
                    let target = AlbumEdge { album_id: id, asset_id: e };
                    if ids@.contains(e) {
                        if prev.contains(e) {
                            assert(edges.take(k - 1).contains(target));
                            let w = choose|w: int|
                                0 <= w < k - 1 && #[trigger] edges.take(k - 1)[w] == target;
                            assert(edges.take(k as int)[w] == target);
                        } else {
                            assert(e == edge.asset_id && edge.album_id == id);
                            assert(edges.take(k as int)[k - 1] == target);
                        }
                    }
                    if edges.take(k as int).contains(target) {
                        let w = choose|w: int|
                            0 <= w < k && #[trigger] edges.take(k as int)[w] == target;
                        if w < k - 1 {
                            assert(edges.take(k - 1)[w] == target);
                            assert(prev.contains(e));
                            if edge.album_id == id {
                                assert(ids@ == prev.push(edge.asset_id));
                            }
                            let v = choose|v: int| 0 <= v < prev.len() && prev[v] == e;
                            assert(ids@[v] == e);
                        } else {
                            assert(edges[k - 1] == target);
                            assert(ids@.last() == e);
                        }
                    }
                }
            }
        }
        proof {
            assert(self.album_assets@.take(self.album_assets@.len() as int)
                =~= self.album_assets@);
        }
        let sorted = sort_i64_asc(ids);
        Some((a.id, a.name, a.description, a.created_at, a.updated_at, sorted))
    }

    /// Rename or re-describe an album; any update bumps `updated_at`.
    pub fn update_album(
        &mut self,
        id: i64,
        name: Option<&str>,
        description: Option<&str>,
        now: i64,
    ) -> (r: bool)
        requires
            old(self).wf(),
        ensures
            final(self).wf(),
            r == spec_album_exists(old(self).albums@, id),
            if r {
                ({
                    let i = choose|i: int|
                        0 <= i < old(self).albums@.len() && #[trigger] old(self).albums@[i].id
                            == id;
                    &&& final(self).albums@.len() == old(self).albums@.len()
                    &&& (forall|k: int|
                        0 <= k < old(self).albums@.len() && k != i
                            ==> #[trigger] final(self).albums@[k] == old(self).albums@[k])
                    &&& final(self).albums@[i].id == id
                    &&& final(self).albums@[i].created_at == old(self).albums@[i].created_at
                    &&& final(self).albums@[i].updated_at == now
                    &&& (match name {
                        Some(n) => final(self).albums@[i].name@ == n@,
                        None => final(self).albums@[i].name == old(self).albums@[i].name,
                    })
                    &&& (match description {
                        Some(d) => final(self).albums@[i].description matches Some(s) && s@
                            == d@,
                        None => final(self).albums@[i].description == old(
                            self,
                        ).albums@[i].description,
                    })
                })
            } else {
                final(self).albums@ == old(self).albums@
            },
            final(self).assets@ == old(self).assets@,
            final(self).fts@ == old(self).fts@,
            final(self).scan_paths@ == old(self).scan_paths@,
            final(self).album_assets@ == old(self).album_assets@,
    {
        let i = match self.find_album(id) {
            Some(i) => i,
            None => {
                return false;
            },
        };
        let mut a = clone_album(&self.albums[i]);
        match name {
            Some(n) => {
                a.name = String::from_str(n);
            },
            None => {},
        }
        match description {
            Some(d) => {
                a.description = Some(String::from_str(d));
            },
            None => {},
        }
        a.updated_at = now;
        let ghost prev = self.albums@;
        self.albums.set(i, a);
        proof {
            let j = choose|j: int| 0 <= j < prev.len() && #[trigger] prev[j].id == id;
            assert(prev[j].id == prev[i as int].id);
            assert(j == i as int);
            assert forall|p: int, q: int| 0 <= p < q < self.albums@.len() implies #[trigger] self.albums@[p].id
                != #[trigger] self.albums@[q].id by {
                assert(prev[p].id != prev[q].id);
            }
        }
        true
    }

    /// Delete an album and all of its membership edges.
    pub fn delete_album(&mut self, id: i64) -> (r: bool)
        requires
            old(self).wf(),
        ensures
            final(self).wf(),
            r == spec_album_exists(old(self).albums@, id),
            !spec_album_exists(final(self).albums@, id),
            forall|e: AlbumEdge| #[trigger]
                final(self).album_assets@.contains(e) <==> (old(self).album_assets@.contains(e)
                    && (!r || e.album_id != id)),
            if r {
                final(self).albums@ == old(self).albums@.remove(
                    choose|i: int|
                        0 <= i < old(self).albums@.len() && #[trigger] old(self).albums@[i].id
                            == id,
                )
            } else {
                final(self).albums@ == old(self).albums@
            },
            final(self).assets@ == old(self).assets@,
            final(self).fts@ == old(self).fts@,
            final(self).scan_paths@ == old(self).scan_paths@,
    {
        let i = match self.find_album(id) {
            Some(i) => i,
            None => {
                return false;
            },
        };
        let ghost prev = self.albums@;
        self.albums.remove(i);
        proof {
            let j = choose|j: int| 0 <= j < prev.len() && #[trigger] prev[j].id == id;
            assert(prev[j].id == prev[i as int].id);
            assert(j == i as int);
            if spec_album_exists(self.albums@, id) {
                let w = choose|w: int|
                    0 <= w < self.albums@.len() && #[trigger] self.albums@[w].id == id;
                let ow = if w < i as int {
                    w
                } else {
                    w + 1
                };
                assert(prev[ow].id == id);
                assert(prev[ow].id == prev[i as int].id);
            }
        }
        self.retain_edges_without_album(id);
        true
    }

    /// Remove the membership edges of album `id`.
    fn retain_edges_without_album(&mut self, id: i64)
        requires
            forall|i: int, j: int|
                0 <= i < j < old(self).album_assets@.len()
                    ==> #[trigger] old(self).album_assets@[i]
                    != #[trigger] old(self).album_assets@[j],
        ensures
            forall|i: int, j: int|
                0 <= i < j < final(self).album_assets@.len()
                    ==> #[trigger] final(self).album_assets@[i]
                    != #[trigger] final(self).album_assets@[j],
            forall|e: AlbumEdge| #[trigger]
                final(self).album_assets@.contains(e) <==> (old(self).album_assets@.contains(e)
                    && e.album_id != id),
            final(self).assets@ == old(self).assets@,
            final(self).fts@ == old(self).fts@,
            final(self).next_id == old(self).next_id,
            final(self).scan_paths@ == old(self).scan_paths@,
            final(self).albums@ == old(self).albums@,
            final(self).next_album_id == old(self).next_album_id,
    {
        let ghost edges = self.album_assets@;
        let mut out: Vec<AlbumEdge> = Vec::new();
        let mut i: usize = 0;
        while i < self.album_assets.len()
            invariant
                i <= edges.len(),
                edges == self.album_assets@,
                forall|a: int, b: int|
                    0 <= a < b < edges.len() ==> #[trigger] edges[a] != #[trigger] edges[b],
                forall|a: int, b: int|
                    0 <= a < b < out@.len() ==> #[trigger] out@[a] != #[trigger] out@[b],
                forall|e: AlbumEdge| #[trigger]
                    out@.contains(e) <==> (edges.take(i as int).contains(e) && e.album_id
                        != id),
            decreases edges.len() - i,
        {
            let e = self.album_assets[i];
            let ghost prev = out@;
            if e.album_id != id {
                proof {
                    if prev.contains(e) {
                        assert(edges.take(i as int).contains(e));
                        let m = choose|m: int|
                            0 <= m < i && #[trigger] edges.take(i as int)[m] == e;
                        assert(edges[m] == edges[i as int]);
                    }
                }
                out.push(e);
            }
            i = i + 1;
            proof {
                assert forall|x: AlbumEdge| #[trigger]
                    out@.contains(x) <==> (edges.take(i as int).contains(x) && x.album_id
                        != id) by {
                    assert(edges.take(i as int).drop_last() =~= edges.take(i - 1));
                    assert(edges.take(i as int).last() == edges[i - 1]);
                    if out@.contains(x) {
                        if prev.contains(x) {
                            assert(edges.take(i - 1).contains(x));
                            let w = choose|w: int|
                                0 <= w < i - 1 && #[trigger] edges.take(i - 1)[w] == x;
                            assert(edges.take(i as int)[w] == x);
                        } else {
                            assert(x == edges[i - 1]);
                            assert(edges.take(i as int)[i - 1] == x);
                        }
                    }
                    if edges.take(i as int).contains(x) && x.album_id != id {
                        let w = choose|w: int| 0 <= w < i && edges.take(i as int)[w] == x;
                        if w < i - 1 {
                            assert(edges.take(i - 1)[w] == x);
                            assert(prev.contains(x));
                            let v = choose|v: int| 0 <= v < prev.len() && prev[v] == x;
                            assert(out@[v] == x);
                        } else {
                            assert(x == edges[i - 1]);
                            assert(out@[out@.len() - 1] == x);
                        }
                    }
                }
            }
        }
        proof {
            assert(edges.take(edges.len() as int) =~= edges);
        }
        self.album_assets = out;
    }

    /// Add assets to an album, skipping pairs already present (re-adding a
    /// member list changes nothing and counts zero); bumps the album's
    /// `updated_at`.  Returns how many edges were added.
    pub fn add_assets_to_album(&mut self, album_id: i64, asset_ids: &Vec<i64>, now: i64) -> (r:
        usize)
        requires
            old(self).wf(),
        ensures
            final(self).wf(),
            forall|e: AlbumEdge| #[trigger]
                final(self).album_assets@.contains(e) <==> (old(self).album_assets@.contains(e)
                    || (e.album_id == album_id && asset_ids@.contains(e.asset_id))),
            r == final(self).album_assets@.len() - old(self).album_assets@.len(),
            // idempotence: a list of already-present members adds nothing
            (forall|k: int|
                0 <= k < asset_ids@.len() ==> old(self).album_assets@.contains(
                    AlbumEdge { album_id, asset_id: #[trigger] asset_ids@[k] },
                )) ==> (final(self).album_assets@ == old(self).album_assets@ && r == 0),
            // the touched album's clock is refreshed; everything else stays
            if spec_album_exists(old(self).albums@, album_id) {
                final(self).albums@ == old(self).albums@.update(
                    choose|i: int|
                        0 <= i < old(self).albums@.len() && #[trigger] old(self).albums@[i].id
                            == album_id,
                    (Album {
                        updated_at: now,
                        ..old(self).albums@[choose|i: int|
                            0 <= i < old(self).albums@.len() && #[trigger] old(
                                self,
                            ).albums@[i].id == album_id]
                    }),
                )
            } else {
                final(self).albums@ == old(self).albums@
            },
            final(self).assets@ == old(self).assets@,
            final(self).fts@ == old(self).fts@,
            final(self).scan_paths@ == old(self).scan_paths@,
    {
        let mut added: usize = 0;
        let mut k: usize = 0;
        let ghost base = self.album_assets@;
        while k < asset_ids.len()
            invariant
                old(self).wf(),
                self.wf(),
                k <= asset_ids@.len(),
                base == old(self).album_assets@,
                added == self.album_assets@.len() - base.len(),
                added <= k,
                self.album_assets@.len() >= base.len(),
                forall|e: AlbumEdge| #[trigger]
                    self.album_assets@.contains(e) <==> (base.contains(e) || (e.album_id
                        == album_id && asset_ids@.take(k as int).contains(e.asset_id))),
                (forall|m: int|
                    0 <= m < k ==> base.contains(
                        AlbumEdge { album_id, asset_id: #[trigger] asset_ids@[m] },
                    )) ==> self.album_assets@ == base,
                forall|a: int, b: int|
                    0 <= a < b < self.album_assets@.len()
                        ==> #[trigger] self.album_assets@[a]
                        != #[trigger] self.album_assets@[b],
                self.assets@ == old(self).assets@,
                self.fts@ == old(self).fts@,
                self.scan_paths@ == old(self).scan_paths@,
                self.albums@ == old(self).albums@,
                self.next_album_id == old(self).next_album_id,
                self.next_id == old(self).next_id,
            decreases asset_ids@.len() - k,
        {
            let e = AlbumEdge { album_id, asset_id: asset_ids[k] };
            let ghost prev = self.album_assets@;
            if !edge_in(&self.album_assets, e) {
                self.album_assets.push(e);
                added = added + 1;
            }
            k = k + 1;
            proof {
                assert(asset_ids@.take(k as int).drop_last() =~= asset_ids@.take(k - 1));
                assert(asset_ids@.take(k as int).last() == asset_ids@[k - 1]);
                assert forall|x: AlbumEdge| #[trigger]
                    self.album_assets@.contains(x) <==> (base.contains(x) || (x.album_id
                        == album_id && asset_ids@.take(k as int).contains(x.asset_id))) by {
                    if self.album_assets@.contains(x) {
                        if prev.contains(x) {
                        } else {
                            assert(x == e);
                            assert(asset_ids@.take(k as int)[k - 1] == x.asset_id);
                        }
                    }
                    if x.album_id == album_id && asset_ids@.take(k as int).contains(
                        x.asset_id,
                    ) {
                        let w = choose|w: int|
                            0 <= w < k && #[trigger] asset_ids@.take(k as int)[w]
                                == x.asset_id;
                        if w < k - 1 {
                            assert(asset_ids@.take(k - 1)[w] == x.asset_id);
                            assert(prev.contains(x));
                        } else {
                            assert(x == e);
                            if !prev.contains(e) {
                                assert(self.album_assets@.last() == e);
                            }
                        }
                        if prev.contains(x) {
                            let v = choose|v: int| 0 <= v < prev.len() && prev[v] == x;
                            assert(self.album_assets@[v] == x);
                        }
                    }
                    if base.contains(x) && !prev.contains(x) {
                    }
                    if base.contains(x) {
                        assert(prev.contains(x));
                        let v = choose|v: int| 0 <= v < prev.len() && prev[v] == x;
                        assert(self.album_assets@[v] == x);
                    }
                }
            }
        }
        proof {
            assert(asset_ids@.take(asset_ids@.len() as int) =~= asset_ids@);
        }
        self.touch_album(album_id, now);
        added
    }

    /// Remove assets from an album; bumps the album's `updated_at`.
    /// Returns how many edges were removed.
    pub fn remove_assets_from_album(&mut self, album_id: i64, asset_ids: &Vec<i64>, now: i64) -> (r:
        usize)
        requires
            old(self).wf(),
        ensures
            final(self).wf(),
            forall|e: AlbumEdge| #[trigger]
                final(self).album_assets@.contains(e) <==> (old(self).album_assets@.contains(e)
                    && !(e.album_id == album_id && asset_ids@.contains(e.asset_id))),
            r == old(self).album_assets@.len() - final(self).album_assets@.len(),
            // the touched album's clock is refreshed; everything else stays
            if spec_album_exists(old(self).albums@, album_id) {
                final(self).albums@ == old(self).albums@.update(
                    choose|i: int|
                        0 <= i < old(self).albums@.len() && #[trigger] old(self).albums@[i].id
                            == album_id,
                    (Album {
                        updated_at: now,
                        ..old(self).albums@[choose|i: int|
                            0 <= i < old(self).albums@.len() && #[trigger] old(
                                self,
                            ).albums@[i].id == album_id]
                    }),
                )
            } else {
                final(self).albums@ == old(self).albums@
            },
            final(self).assets@ == old(self).assets@,
            final(self).fts@ == old(self).fts@,
            final(self).scan_paths@ == old(self).scan_paths@,
    {
        let ghost edges = self.album_assets@;
        let mut out: Vec<AlbumEdge> = Vec::new();
        let mut i: usize = 0;
        while i < self.album_assets.len()
            invariant
                old(self).wf(),
                self == old(self),
                i <= edges.len(),
                edges == self.album_assets@,
                out@.len() <= i,
                forall|a: int, b: int|
                    0 <= a < b < out@.len() ==> #[trigger] out@[a] != #[trigger] out@[b],
                forall|e: AlbumEdge| #[trigger]
                    out@.contains(e) <==> (edges.take(i as int).contains(e) && !(e.album_id
                        == album_id && asset_ids@.contains(e.asset_id))),
            decreases edges.len() - i,
        {
            let e = self.album_assets[i];
            let ghost prev = out@;
            let mut hit = false;
            if e.album_id == album_id {
                let mut k: usize = 0;
                while k < asset_ids.len()
                    invariant
                        k <= asset_ids@.len(),
                        hit == exists|m: int|
                            0 <= m < k && #[trigger] asset_ids@[m] == e.asset_id,
                    decreases asset_ids@.len() - k,
                {
                    if asset_ids[k] == e.asset_id {
                        hit = true;
                    }
                    k = k + 1;
                }
                assert(hit == asset_ids@.contains(e.asset_id));
            }
            if !hit {
                proof {
                    if prev.contains(e) {
                        assert(edges.take(i as int).contains(e));
                        let m = choose|m: int|
                            0 <= m < i && #[trigger] edges.take(i as int)[m] == e;
                        assert(edges[m] == edges[i as int]);
                    }
                }
                out.push(e);
            }
            i = i + 1;
            proof {
                assert forall|x: AlbumEdge| #[trigger]
                    out@.contains(x) <==> (edges.take(i as int).contains(x) && !(x.album_id
                        == album_id && asset_ids@.contains(x.asset_id))) by {
                    assert(edges.take(i as int).drop_last() =~= edges.take(i - 1));
                    assert(edges.take(i as int).last() == edges[i - 1]);
                    if out@.contains(x) {
                        if prev.contains(x) {
                            assert(edges.take(i - 1).contains(x));
                            let w = choose|w: int|
                                0 <= w < i - 1 && #[trigger] edges.take(i - 1)[w] == x;
                            assert(edges.take(i as int)[w] == x);
                        } else {
                            assert(x == edges[i - 1]);
                            assert(edges.take(i as int)[i - 1] == x);
                        }
                    }
                    if edges.take(i as int).contains(x) && !(x.album_id == album_id
                        && asset_ids@.contains(x.asset_id)) {
                        let w = choose|w: int| 0 <= w < i && edges.take(i as int)[w] == x;
                        if w < i - 1 {
                            assert(edges.take(i - 1)[w] == x);
                            assert(prev.contains(x));
                            let v = choose|v: int| 0 <= v < prev.len() && prev[v] == x;
                            assert(out@[v] == x);
                        } else {
                            assert(x == edges[i - 1]);
                            assert(out@[out@.len() - 1] == x);
                        }
                    }
                }
            }
        }
        proof {
            assert(edges.take(edges.len() as int) =~= edges);
        }
        let removed = self.album_assets.len() - out.len();
        self.album_assets = out;
        self.touch_album(album_id, now);
        removed
    }

    /// Bump an album's `updated_at`, if it exists.
    fn touch_album(&mut self, id: i64, now: i64)
        requires
            old(self).wf(),
        ensures
            final(self).wf(),
            if spec_album_exists(old(self).albums@, id) {
                final(self).albums@ == old(self).albums@.update(
                    choose|i: int|
                        0 <= i < old(self).albums@.len() && #[trigger] old(self).albums@[i].id
                            == id,
                    (Album {
                        updated_at: now,
                        ..old(self).albums@[choose|i: int|
                            0 <= i < old(self).albums@.len() && #[trigger] old(
                                self,
                            ).albums@[i].id == id]
                    }),
                )
            } else {
                final(self).albums@ == old(self).albums@
            },
            final(self).assets@ == old(self).assets@,
            final(self).fts@ == old(self).fts@,
            final(self).scan_paths@ == old(self).scan_paths@,
            final(self).album_assets@ == old(self).album_assets@,
            final(self).next_album_id == old(self).next_album_id,
            final(self).next_id == old(self).next_id,
    {
        let i = match self.find_album(id) {
            Some(i) => i,
            None => {
                return ;
            },
        };
        let mut a = clone_album(&self.albums[i]);
        a.updated_at = now;
        let ghost prev = self.albums@;
        self.albums.set(i, a);
        proof {
            let j = choose|j: int| 0 <= j < prev.len() && #[trigger] prev[j].id == id;
            assert(prev[j].id == prev[i as int].id);
            assert(j == i as int);
            assert(self.albums@ =~= prev.update(j, (Album { updated_at: now, ..prev[j] })));
            assert forall|p: int, q: int| 0 <= p < q < self.albums@.len() implies #[trigger] self.albums@[p].id
                != #[trigger] self.albums@[q].id by {
                assert(prev[p].id != prev[q].id);
            }
        }
    }

    /// The ids of the albums holding an asset, in storage order.
    pub fn get_albums_for_asset(&self, asset_id: i64) -> (r: Vec<i64>)
        ensures
            forall|aid: i64| #[trigger]
                r@.contains(aid) <==> self.album_assets@.contains(
                    AlbumEdge { album_id: aid, asset_id },
                ),
    {
        let mut out: Vec<i64> = Vec::new();
        let mut i: usize = 0;
        while i < self.album_assets.len()
            invariant
                i <= self.album_assets@.len(),
                forall|aid: i64| #[trigger]
                    out@.contains(aid) <==> self.album_assets@.take(i as int).contains(
                        AlbumEdge { album_id: aid, asset_id },
                    ),
            decreases self.album_assets@.len() - i,
        {
            let e = self.album_assets[i];
            let ghost prev = out@;
            if e.asset_id == asset_id {
                out.push(e.album_id);
            }
            i = i + 1;
            proof {
                let edges = self.album_assets@;
                assert(edges.take(i as int).drop_last() =~= edges.take(i - 1));
                assert(edges.take(i as int).last() == edges[i - 1]);
                assert forall|aid: i64| #[trigger]
                    out@.contains(aid) <==> edges.take(i as int).contains(
                        AlbumEdge { album_id: aid, asset_id },
                    ) by {
                    let target = AlbumEdge { album_id: aid, asset_id };
                    if out@.contains(aid) {
                        if prev.contains(aid) {
                            assert(edges.take(i - 1).contains(target));
                            let w = choose|w: int|
                                0 <= w < i - 1 && #[trigger] edges.take(i - 1)[w] == target;
                            assert(edges.take(i as int)[w] == target);
                        } else {
                            assert(aid == e.album_id && e.asset_id == asset_id);
                            assert(edges.take(i as int)[i - 1] == target);
                        }
                    }
                    if edges.take(i as int).contains(target) {
                        let w = choose|w: int|
                            0 <= w < i && #[trigger] edges.take(i as int)[w] == target;
                        if w < i - 1 {
                            assert(edges.take(i - 1)[w] == target);
                            assert(prev.contains(aid));
                            let v = choose|v: int| 0 <= v < prev.len() && prev[v] == aid;
                            assert(out@[v] == aid);
                        } else {
                            assert(edges[i - 1] == target);
                            assert(out@.last() == aid);
                        }
                    }
                }
            }
        }
        proof {
            assert(self.album_assets@.take(self.album_assets@.len() as int)
                =~= self.album_assets@);
        }
        out
    }

    /// All albums with their member asset ids (ascending), in storage order.
    pub fn list_albums(&self) -> (r: Vec<(i64, String, Option<String>, i64, i64, Vec<i64>)>)
        requires
            self.wf(),
        ensures
            r@.len() == self.albums@.len(),
            forall|k: int|
                0 <= k < r@.len() ==> (#[trigger] r@[k]).0 == self.albums@[k].id,
    {
        let mut out: Vec<(i64, String, Option<String>, i64, i64, Vec<i64>)> = Vec::new();
        let mut i: usize = 0;
        while i < self.albums.len()
            invariant
                self.wf(),
                i <= self.albums@.len(),
                out@.len() == i,
                forall|k: int|
                    0 <= k < i ==> (#[trigger] out@[k]).0 == self.albums@[k].id,
            decreases self.albums@.len() - i,
        {
            let id = self.albums[i].id;
            assert(spec_album_exists(self.albums@, id));
            match self.get_album(id) {
                Some(t) => {
                    assert(t.0 == id);
                    out.push(t);
                },
                None => {
                    // unreachable: the album exists
                },
            }
            i = i + 1;
        }
        out
    }
}

} // verus!

//! The catalog writer: batches of write items committed in one step, with
//! the thumbnail fan-out.
//!
//! Every committed row with a non-empty digest produces a thumbnail job,
//! enqueued with a non-blocking send: a full queue drops the job (the next
//! scan will produce it again).  No job is ever enqueued without a digest.

use vstd::prelude::*;
use crate::catalog::{has_path, Catalog, DbWriteItem};
use crate::stats::{sat_add, Stats};

verus! {

/// The batch size that forces a flush.
pub const BATCH_SIZE: usize = 500;

/// The flush interval in milliseconds.
pub const FLUSH_INTERVAL_MS: u64 = 2000;

/// One thumbnail job: the asset, where its content lives, and the digest
/// that addresses its derived artifacts.
pub struct ThumbJob {
    pub id: i64,
    pub path: String,
    pub sha256_hex: String,
    pub mime: String,
}

/// A bounded queue with non-blocking send, modelling the thumbnail channel.
pub struct BoundedQueue {
    pub items: Vec<ThumbJob>,
    pub cap: usize,
}

impl BoundedQueue {
    pub open spec fn wf(self) -> bool {
        self.items@.len() <= self.cap
    }

    pub fn new(cap: usize) -> (r: BoundedQueue)
        ensures
            r.wf(),
            r.items@.len() == 0,
            r.cap == cap,
    {
        BoundedQueue { items: Vec::new(), cap }
    }

    /// Non-blocking send: accepted only while the queue has room.
    pub fn try_send(&mut self, job: ThumbJob) -> (r: bool)
        requires
            old(self).wf(),
        ensures
            final(self).wf(),
            final(self).cap == old(self).cap,
            if old(self).items@.len() < old(self).cap {
                r && final(self).items@ == old(self).items@.push(job)
            } else {
                !r && final(self).items@ == old(self).items@
            },
    {
        if self.items.len() < self.cap {
            self.items.push(job);
            true
        } else {
            false
        }
    }

    /// Receive the oldest queued job.
    pub fn try_recv(&mut self) -> (r: Option<ThumbJob>)
        requires
            old(self).wf(),
        ensures
            final(self).wf(),
            final(self).cap == old(self).cap,
            match r {
                Some(job) => old(self).items@.len() > 0 && job == old(self).items@[0]
                    && final(self).items@ == old(self).items@.drop_first(),
                None => old(self).items@.len() == 0 && final(self).items@ == old(self).items@,
            },
    {
        if self.items.len() > 0 {
            let job = self.items.remove(0);
            proof {
                assert(final(self).items@ =~= old(self).items@.drop_first());
            }
            Some(job)
        } else {
            None
        }
    }
}

/// Whether the writer flushes its buffer now: a full batch or an elapsed
/// interval.
pub fn should_flush(buf_len: usize, elapsed_ms: u64) -> (r: bool)
    ensures
        r == (buf_len >= BATCH_SIZE || elapsed_ms >= FLUSH_INTERVAL_MS),
{
    buf_len >= BATCH_SIZE || elapsed_ms >= FLUSH_INTERVAL_MS
}

/// How many items of a batch carry a digest.
pub open spec fn spec_digest_count(batch: Seq<DbWriteItem>) -> int
    decreases batch.len(),
{
    if batch.len() == 0 {
        0
    } else {
        spec_digest_count(batch.drop_last()) + (if batch.last().sha256 is Some {
            1int
        } else {
            0int
        })
    }
}

/// A thumbnail job drawn from this batch: some digest-bearing batch item
/// carries exactly the job's path, digest and MIME.
pub open spec fn spec_job_from_batch(job: ThumbJob, batch: Seq<DbWriteItem>) -> bool {
    exists|b: int|
        0 <= b < batch.len() && (#[trigger] batch[b]).sha256 == Some(job.sha256_hex)
            && batch[b].path == job.path && batch[b].mime == job.mime
}

/// A thumbnail job addressed at its own row: the catalog's row for the
/// job's path carries the job's id.
pub open spec fn spec_job_row_bound(job: ThumbJob, rows: Seq<crate::catalog::Asset>) -> bool {
    exists|m: int|
        0 <= m < rows.len() && #[trigger] rows[m].path@ == job.path@ && rows[m].id == job.id
}

/// Commit one batch: every item is upserted (with its full-text entry) in
/// order, the counters grow by the batch, and each row with a digest has a
/// thumbnail job enqueued or — exactly when the queue is out of room —
/// dropped.  Every enqueued job carries a batch item's path, digest and
/// MIME, under the id of that path's committed row.  Returns
/// `(enqueued, dropped)`.
pub fn commit_batch(
    catalog: &mut Catalog,
    stats: &mut Stats,
    thumb_q: &mut BoundedQueue,
    batch: Vec<DbWriteItem>,
) -> (r: (usize, usize))
    requires
        old(catalog).wf(),
        old(thumb_q).wf(),
        forall|i: int| 0 <= i < batch@.len() ==> (#[trigger] batch@[i]).valid(),
        old(catalog).next_id + batch@.len() <= i64::MAX,
    ensures
        final(catalog).wf(),
        final(thumb_q).wf(),
        // every batched path has its row (and, by well-formedness, exactly
        // one)
        forall|i: int|
            0 <= i < batch@.len() ==> has_path(
                final(catalog).assets@,
                (#[trigger] batch@[i]).path@,
            ),
        // the durable counters grow by the whole batch
        final(stats).files_committed == sat_add(old(stats).files_committed, batch@.len() as u64),
        // thumbnail fan-out: a job per digest-bearing row, enqueued or
        // dropped; nothing else changes the queue
        r.0 == final(thumb_q).items@.len() - old(thumb_q).items@.len(),
        r.0 + r.1 == spec_digest_count(batch@),
        // no job without a digest: every new queue entry carries 64 hex
        // digits
        forall|k: int|
            old(thumb_q).items@.len() <= k < final(thumb_q).items@.len()
                ==> (#[trigger] final(thumb_q).items@[k]).sha256_hex@.len() == 64,
        // every new queue entry is one of the batch's digest-bearing items,
        // addressed at its own committed row
        forall|k: int|
            old(thumb_q).items@.len() <= k < final(thumb_q).items@.len()
                ==> spec_job_from_batch(#[trigger] final(thumb_q).items@[k], batch@)
                    && spec_job_row_bound(final(thumb_q).items@[k], final(catalog).assets@),
        // a drop happens only against a full queue
        r.1 > 0 ==> final(thumb_q).items@.len() == final(thumb_q).cap,
        final(thumb_q).cap == old(thumb_q).cap,
{
    let ghost qbase = thumb_q.items@;
    let mut enqueued: usize = 0;
    let mut dropped: usize = 0;
    let mut i: usize = 0;
    let n = batch.len();
    proof {
        assert(batch@.take(0) =~= Seq::<DbWriteItem>::empty());
    }
    while i < n
        invariant
            catalog.wf(),
            thumb_q.wf(),
            n == batch@.len(),
            i <= n,
            forall|k: int| 0 <= k < batch@.len() ==> (#[trigger] batch@[k]).valid(),
            catalog.next_id + (batch@.len() - i) <= i64::MAX,
            forall|k: int|
                0 <= k < i ==> has_path(catalog.assets@, (#[trigger] batch@[k]).path@),
            enqueued == thumb_q.items@.len() - qbase.len(),
            thumb_q.items@.len() >= qbase.len(),
            enqueued + dropped == spec_digest_count(batch@.take(i as int)),
            enqueued <= i && dropped <= i,
            forall|k: int|
                qbase.len() <= k < thumb_q.items@.len()
                    ==> (#[trigger] thumb_q.items@[k]).sha256_hex@.len() == 64,
            forall|k: int|
                qbase.len() <= k < thumb_q.items@.len() ==> spec_job_from_batch(
                    #[trigger] thumb_q.items@[k],
                    batch@,
                ) && spec_job_row_bound(thumb_q.items@[k], catalog.assets@),
            dropped > 0 ==> thumb_q.items@.len() == thumb_q.cap,
            thumb_q.cap == old(thumb_q).cap,
            qbase == old(thumb_q).items@,
        decreases n - i,
    {
        let item = take_item(&batch, i);
        let ghost itemv = item;
        let path_copy = item.path.clone();
        let mime_copy = item.mime.clone();
        let sha_copy = crate::catalog::clone_opt_string(&item.sha256);
        let ghost rows_before = catalog.assets@;
        let id = catalog.upsert(item);
        proof {
            assert(has_path(catalog.assets@, itemv.path@));
            assert forall|k: int| 0 <= k < i implies has_path(
                catalog.assets@,
                (#[trigger] batch@[k]).path@,
            ) by {
                lemma_upsert_keeps_paths(rows_before, catalog.assets@, itemv, id, batch@[k].path@);
            }
            // the jobs already queued stay bound to their rows: an upsert
            // never moves a path's id
            assert forall|k: int| qbase.len() <= k < thumb_q.items@.len() implies spec_job_row_bound(
                #[trigger] thumb_q.items@[k],
                catalog.assets@,
            ) by {
                lemma_upsert_keeps_path_id(
                    rows_before,
                    catalog.assets@,
                    itemv,
                    id,
                    thumb_q.items@[k].path@,
                    thumb_q.items@[k].id,
                );
            }
            // the item just written sits under the returned id
            if has_path(rows_before, itemv.path@) {
                let w = choose|w: int|
                    0 <= w < rows_before.len() && #[trigger] rows_before[w].path@ == itemv.path@;
                assert(catalog.assets@[w] == crate::catalog::spec_row(itemv, rows_before[w].id));
                assert(catalog.assets@[w].path == itemv.path && catalog.assets@[w].id == id);
            } else {
                assert(catalog.assets@.last() == crate::catalog::spec_row(itemv, id));
                assert(catalog.assets@[rows_before.len() as int].path == itemv.path
                    && catalog.assets@[rows_before.len() as int].id == id);
            }
        }
        match sha_copy {
            Some(sha_hex) => {
                let job = ThumbJob { id, path: path_copy, sha256_hex: sha_hex, mime: mime_copy };
                let ghost jobv = job;
                proof {
                    assert(jobv.path == batch@[i as int].path);
                    assert(jobv.mime == batch@[i as int].mime);
                    assert(batch@[i as int].sha256 == Some(jobv.sha256_hex));
                    assert(spec_job_from_batch(jobv, batch@));
                    assert(spec_job_row_bound(jobv, catalog.assets@));
                }
                if thumb_q.try_send(job) {
                    enqueued = enqueued + 1;
                } else {
                    dropped = dropped + 1;
                }
            },
            None => {},
        }
        i = i + 1;
        proof {
            assert(batch@.take(i as int).drop_last() =~= batch@.take(i - 1));
            assert(batch@.take(i as int).last() == batch@[i - 1]);
        }
    }
    proof {
        assert(batch@.take(n as int) =~= batch@);
    }
    stats.inc_files_committed(n as u64);
    let mut bytes: u64 = 0;
    let mut k: usize = 0;
    while k < n
        invariant
            n == batch@.len(),
            k <= n,
        decreases n - k,
    {
        let sz = batch[k].size_bytes;
        let add: u64 = if sz > 0 {
            sz as u64
        } else {
            0
        };
        bytes = if bytes <= u64::MAX - add {
            bytes + add
        } else {
            u64::MAX
        };
        k = k + 1;
    }
    stats.inc_bytes(bytes);
    (enqueued, dropped)
}

/// Copy the item at `i` out of the batch.
fn take_item(batch: &Vec<DbWriteItem>, i: usize) -> (r: DbWriteItem)
    requires
        i < batch@.len(),
    ensures
        r == batch@[i as int],
{
    crate::catalog::clone_item(&batch[i])
}

/// Upserting one item never moves another path's id: a row carrying path
/// `p` under id `d` keeps that pairing (paths must be unique beforehand).
proof fn lemma_upsert_keeps_path_id(
    before: Seq<crate::catalog::Asset>,
    after: Seq<crate::catalog::Asset>,
    item: DbWriteItem,
    id: i64,
    p: Seq<char>,
    d: i64,
)
    requires
        forall|a: int, b: int|
            0 <= a < b < before.len() ==> #[trigger] before[a].path@ != #[trigger] before[b].path@,
        exists|w: int| 0 <= w < before.len() && #[trigger] before[w].path@ == p && before[w].id == d,
        ({
            if has_path(before, item.path@) {
                let i = choose|i: int|
                    0 <= i < before.len() && #[trigger] before[i].path@ == item.path@;
                after == before.update(i, crate::catalog::spec_row(item, before[i].id))
            } else {
                after == before.push(crate::catalog::spec_row(item, id))
            }
        }),
    ensures
        exists|m: int| 0 <= m < after.len() && #[trigger] after[m].path@ == p && after[m].id == d,
{
    let w = choose|w: int|
        0 <= w < before.len() && #[trigger] before[w].path@ == p && before[w].id == d;
    if has_path(before, item.path@) {
        let i = choose|i: int| 0 <= i < before.len() && #[trigger] before[i].path@ == item.path@;
        if w == i {
            assert(after[i] == crate::catalog::spec_row(item, before[i].id));
            assert(after[i].path@ == item.path@ && after[i].path@ == p && after[i].id == d);
        } else {
            assert(after[w].path@ == p && after[w].id == d);
        }
    } else {
        assert(after[w].path@ == p && after[w].id == d);
    }
}

/// Upserting one item never removes another path.
proof fn lemma_upsert_keeps_paths(
    before: Seq<crate::catalog::Asset>,
    after: Seq<crate::catalog::Asset>,
    item: DbWriteItem,
    id: i64,
    p: Seq<char>,
)
    requires
        has_path(before, p),
        ({
            if has_path(before, item.path@) {
                let i = choose|i: int|
                    0 <= i < before.len() && #[trigger] before[i].path@ == item.path@;
                after == before.update(i, crate::catalog::spec_row(item, before[i].id))
            } else {
                after == before.push(crate::catalog::spec_row(item, id))
            }
        }),
    ensures
        has_path(after, p),
{
    let w = choose|w: int| 0 <= w < before.len() && #[trigger] before[w].path@ == p;
    if has_path(before, item.path@) {
        let i = choose|i: int| 0 <= i < before.len() && #[trigger] before[i].path@ == item.path@;
        if w == i {
            assert(after[i].path@ == item.path@);
            assert(before[i].path@ == p);
            assert(after[i].path@ == p);
        } else {
            assert(after[w].path@ == p);
        }
    } else {
        assert(after[w].path@ == p);
    }
}

} // verus!

//! The download queue's decisions: entering the queue, a worker's turn and
//! its end, cancelling, retrying and removing. Workers wait for a free slot;
//! when a worker's turn comes it runs only if its download is still queued.

use vstd::prelude::*;
use crate::text::{decimal, owned, push_char, push_decimal, push_signed_decimal, signed_decimal};
use crate::store;
use crate::store::{
    DownloadItem, DownloadTable, ItemView, has_id, keep_rows, lookup, update_row, with_completed,
    with_status, is_finished, index_of, lemma_index_of, unique_ids,
};

verus! {

/// The id of a new download: the time it was made and a counter, "now-n".
pub open spec fn spec_gen_id(now: i64, n: u64) -> Seq<char> {
    signed_decimal(now as int) + seq!['-'] + decimal(n as nat)
}

/// The id of a new download made at `now` (seconds) as the `n`-th of this run.
pub fn gen_id(now: i64, n: u64) -> (id: String)
    ensures
        id@ == spec_gen_id(now, n),
{
    let mut s = String::new();
    push_signed_decimal(&mut s, now);
    push_char(&mut s, '-');
    push_decimal(&mut s, n);
    s
}

/// The counter `k` steps after `n`, wrapping around after `u64::MAX` as the
/// process-wide counter does.
pub open spec fn counter_after(n: u64, k: nat) -> u64 {
    ((n as nat + k) % 0x1_0000_0000_0000_0000) as u64
}

/// The process-wide source of download ids: the counter the next id takes.
pub struct IdGenerator {
    pub next: u64,
}

impl IdGenerator {
    /// A generator whose first id takes the counter 0.
    pub fn new() -> (g: Self)
        ensures
            g.next == 0,
    {
        IdGenerator { next: 0 }
    }

    /// A new id made at `now`: it takes the current counter, which then moves
    /// on by one (wrapping).
    pub fn fresh(&mut self, now: i64) -> (id: String)
        ensures
            id@ == spec_gen_id(now, old(self).next),
            final(self).next == counter_after(old(self).next, 1),
    {
        let n = self.next;
        self.next = if n == u64::MAX {
            0
        } else {
            n + 1
        };
        gen_id(now, n)
    }
}

/// Ids handed out by one generator differ: the `i`-th and `j`-th calls after a
/// counter of `n` take different counters while fewer than 2^64 calls lie
/// between them, so their ids differ whatever the times; and each call moves
/// the counter one step on.
pub proof fn law_fresh_ids_differ(n: u64, i: nat, j: nat, now_i: i64, now_j: i64)
    requires
        i < j,
        j - i < 0x1_0000_0000_0000_0000,
    ensures
        spec_gen_id(now_i, counter_after(n, i)) != spec_gen_id(now_j, counter_after(n, j)),
        counter_after(counter_after(n, i), 1) == counter_after(n, i + 1),
{
    let m: int = 0x1_0000_0000_0000_0000;
    let a: int = n as int + i;
    let b: int = n as int + j;
    assert(a % m != b % m) by (nonlinear_arith)
        requires
            0 < b - a < m,
            m > 0,
    ;
    law_gen_id_distinct(now_i, counter_after(n, i), now_j, counter_after(n, j));
    assert((a % m + 1) % m == (a + 1) % m) by (nonlinear_arith)
        requires
            m > 0,
    ;
}

/// A new queued download.
pub open spec fn queued_item(
    id: Seq<char>,
    url: Seq<char>,
    title: Seq<char>,
    format: Seq<char>,
    out_dir: Seq<char>,
    thumbnail: Seq<char>,
    options: Seq<char>,
    created_at: i64,
) -> ItemView {
    ItemView {
        id,
        url,
        title,
        format,
        out_dir,
        filepath: Seq::empty(),
        status: "queued"@,
        error: Seq::empty(),
        thumbnail,
        created_at,
        options,
    }
}

/// Puts a new download in the queue under `id`; returns its id, or the
/// table's error when the id is taken.
pub fn enqueue(
    table: &mut DownloadTable,
    id: String,
    url: String,
    title: String,
    format: String,
    out_dir: String,
    thumbnail: String,
    options: String,
    created_at: i64,
) -> (r: Result<String, String>)
    requires
        old(table).wf(),
    ensures
        final(table).wf(),
        match r {
            Ok(rid) => rid@ == id@ && !has_id(old(table)@, id@) && final(table)@ == old(table)@.push(
                queued_item(id@, url@, title@, format@, out_dir@, thumbnail@, options@, created_at),
            ),
            Err(e) => has_id(old(table)@, id@) && final(table)@ == old(table)@ && e@
                == crate::store::duplicate_id_message(),
        },
{
    let item = DownloadItem {
        id: id.clone(),
        url,
        title,
        format,
        out_dir,
        filepath: String::new(),
        status: owned("queued"),
        error: String::new(),
        thumbnail,
        created_at,
        options,
    };
    match store::insert(table, item) {
        Ok(()) => Ok(id),
        Err(e) => Err(e),
    }
}

/// The state after a worker's turn comes for `id`, and whether it runs: it
/// runs, and is marked running, only when the download is still queued.
pub open spec fn spec_begin_run(items: Seq<ItemView>, id: Seq<char>) -> (Seq<ItemView>, bool) {
    match lookup(items, id) {
        Some(it) => if it.status == "queued"@ {
            (update_row(items, id, |x: ItemView| with_status(x, "running"@, Seq::empty())), true)
        } else {
            (items, false)
        },
        None => (items, false),
    }
}

/// A worker's turn has come for `id`: it goes ahead only if the download is
/// still queued (it may have been cancelled or removed while waiting), and
/// then marks it running.
pub fn begin_run(table: &mut DownloadTable, id: &str) -> (run: bool)
    requires
        old(table).wf(),
    ensures
        final(table).wf(),
        (final(table)@, run) == spec_begin_run(old(table)@, id@),
{
    match store::status_of(table, id) {
        Some(st) => {
            if st == owned("queued") {
                store::set_status(table, id, "running", None);
                assert(final(table)@ == update_row(old(table)@, id@, |x: ItemView| with_status(x, "running"@, Seq::empty())));
                true
            } else {
                false
            }
        },
        None => false,
    }
}

/// The state after the download `id` ended with `res`.
pub open spec fn spec_finish_run(items: Seq<ItemView>, id: Seq<char>, res: Result<Seq<char>, Seq<char>>) -> Seq<
    ItemView,
> {
    match res {
        Ok(path) => update_row(items, id, |x: ItemView| with_completed(x, path)),
        Err(e) => update_row(items, id, |x: ItemView| with_status(x, "failed"@, e)),
    }
}

/// The view of a download's result.
pub open spec fn result_view(res: Result<String, String>) -> Result<Seq<char>, Seq<char>> {
    match res {
        Ok(p) => Ok(p@),
        Err(e) => Err(e@),
    }
}

/// Records how the download `id` ended: completed with its file, or failed
/// with its error.
pub fn finish_run(table: &mut DownloadTable, id: &str, res: &Result<String, String>)
    requires
        old(table).wf(),
    ensures
        final(table).wf(),
        final(table)@ == spec_finish_run(old(table)@, id@, result_view(*res)),
{
    match res {
        Ok(path) => store::set_completed(table, id, path.as_str()),
        Err(e) => store::set_status(table, id, "failed", Some(e.as_str())),
    }
}

/// The state after cancelling `id`.
pub open spec fn spec_cancel(items: Seq<ItemView>, id: Seq<char>) -> Seq<ItemView> {
    update_row(items, id, |x: ItemView| with_status(x, "cancelled"@, "已取消"@))
}

/// Cancels the download `id` (its task is stopped by the application).
pub fn cancel(table: &mut DownloadTable, id: &str)
    requires
        old(table).wf(),
    ensures
        final(table).wf(),
        final(table)@ == spec_cancel(old(table)@, id@),
{
    store::set_status(table, id, "cancelled", Some("已取消"));
}

/// The state after queueing `id` again.
pub open spec fn spec_retry(items: Seq<ItemView>, id: Seq<char>) -> Seq<ItemView> {
    update_row(items, id, |x: ItemView| with_status(x, "queued"@, Seq::empty()))
}

/// Queues the download `id` again (the application then starts a worker for it).
pub fn retry(table: &mut DownloadTable, id: &str)
    requires
        old(table).wf(),
    ensures
        final(table).wf(),
        final(table)@ == spec_retry(old(table)@, id@),
{
    store::set_status(table, id, "queued", None);
}

/// Removes the download `id` (its task is stopped by the application).
pub fn remove(table: &mut DownloadTable, id: &str)
    requires
        old(table).wf(),
    ensures
        final(table).wf(),
        final(table)@ == crate::store::without_id(old(table)@, id@),
{
    store::delete(table, id);
}

/// All downloads, newest first.
pub fn list(table: &DownloadTable) -> (r: Vec<DownloadItem>)
    requires
        table.wf(),
    ensures
        crate::store::item_views(r@).to_multiset() == table@.to_multiset(),
        crate::store::newest_first(crate::store::item_views(r@)),
{
    store::list(table)
}

/// Removes the downloads that are over.
pub fn clear_finished(table: &mut DownloadTable)
    requires
        old(table).wf(),
    ensures
        final(table).wf(),
        final(table)@ == crate::store::unfinished_rows(old(table)@),
{
    store::clear_finished(table);
}

// ---------------------------------------------------------------------------
// Laws
// ---------------------------------------------------------------------------

/// `update_row` changes the row with `id` alone, and keeps ids unique.
pub proof fn lemma_update_row(items: Seq<ItemView>, id: Seq<char>, f: spec_fn(ItemView) -> ItemView)
    requires
        unique_ids(items),
        forall|x: ItemView| #[trigger] f(x).id == x.id,
    ensures
        unique_ids(update_row(items, id, f)),
        index_of(update_row(items, id, f), id) == index_of(items, id),
        lookup(update_row(items, id, f), id) == match lookup(items, id) {
            Some(it) => Some(f(it)),
            None => None,
        },
        forall|other: Seq<char>| other != id ==> #[trigger] lookup(update_row(items, id, f), other) == lookup(items, other),
{
    let u = update_row(items, id, f);
    assert forall|i: int| 0 <= i < items.len() implies #[trigger] u[i].id == items[i].id by {}
    assert forall|i: int, j: int|
        0 <= i < u.len() && 0 <= j < u.len() && i != j implies #[trigger] u[i].id != #[trigger] u[j].id by {
        assert(u[i].id == items[i].id && u[j].id == items[j].id);
    }
    lemma_same_ids_same_index(items, u, id);
    lemma_index_of(items, id);
    assert forall|other: Seq<char>| other != id implies #[trigger] lookup(u, other) == lookup(items, other) by {
        lemma_same_ids_same_index(items, u, other);
        lemma_index_of(items, other);
    }
}

/// Two tables whose rows have the same ids find an id at the same index.
proof fn lemma_same_ids_same_index(a: Seq<ItemView>, b: Seq<ItemView>, id: Seq<char>)
    requires
        a.len() == b.len(),
        forall|i: int| 0 <= i < a.len() ==> #[trigger] b[i].id == a[i].id,
    ensures
        index_of(b, id) == index_of(a, id),
{
    lemma_same_ids_from(a, b, id, 0);
}

proof fn lemma_same_ids_from(a: Seq<ItemView>, b: Seq<ItemView>, id: Seq<char>, i: int)
    requires
        a.len() == b.len(),
        forall|k: int| 0 <= k < a.len() ==> #[trigger] b[k].id == a[k].id,
    ensures
        crate::store::index_from(b, id, i) == crate::store::index_from(a, id, i),
    decreases a.len() - i,
{
    if i >= 0 && i < a.len() {
        assert(b[i].id == a[i].id);
        lemma_same_ids_from(a, b, id, i + 1);
    }
}

/// A download entered in the queue reads back as entered, queued.
pub proof fn law_enqueue_then_get(items: Seq<ItemView>, it: ItemView)
    requires
        unique_ids(items),
        !has_id(items, it.id),
    ensures
        lookup(items.push(it), it.id) == Some(it),
{
    lemma_index_of(items, it.id);
    let p = items.push(it);
    crate::store::lemma_index_from(p, it.id, 0);
    if let Some(k) = index_of(p, it.id) {
        if k < items.len() {
            assert(p[k] == items[k]);
        }
    } else {
        assert(p[items.len() as int].id == it.id);
    }
}

/// A download cancelled while it waited for a slot is not run when its
/// worker's turn comes, and the table is left as it is.
pub proof fn law_cancelled_is_not_run(items: Seq<ItemView>, id: Seq<char>)
    requires
        unique_ids(items),
    ensures
        spec_begin_run(spec_cancel(items, id), id) == (spec_cancel(items, id), false),
{
    lemma_update_row(items, id, |x: ItemView| with_status(x, "cancelled"@, "已取消"@));
    reveal_strlit("cancelled");
    reveal_strlit("queued");
    assert("cancelled"@.len() != "queued"@.len());
    assert("cancelled"@ != "queued"@);
}

/// A download removed while it waited for a slot is not run when its
/// worker's turn comes.
pub proof fn law_removed_is_not_run(items: Seq<ItemView>, id: Seq<char>)
    requires
        unique_ids(items),
    ensures
        spec_begin_run(crate::store::without_id(items, id), id).1 == false,
{
    let k = keep_rows(items, |it: ItemView| it.id != id);
    crate::store::lemma_keep_rows(items, |it: ItemView| it.id != id);
    crate::store::lemma_index_from(k, id, 0);
    if let Some(j) = index_of(k, id) {
        assert(k[j].id != id);
    }
}

/// A download that exists runs when its worker's turn comes after a retry,
/// and is then marked running.
pub proof fn law_retry_then_run(items: Seq<ItemView>, id: Seq<char>)
    requires
        unique_ids(items),
        has_id(items, id),
    ensures
        spec_begin_run(spec_retry(items, id), id).1,
        lookup(spec_begin_run(spec_retry(items, id), id).0, id) matches Some(it) && it.status
            == "running"@,
{
    let f = |x: ItemView| with_status(x, "queued"@, Seq::empty());
    lemma_update_row(items, id, f);
    lemma_index_of(items, id);
    let r = spec_retry(items, id);
    let g = |x: ItemView| with_status(x, "running"@, Seq::empty());
    lemma_update_row(r, id, g);
}

/// Once a running download ends, it is completed with its file or failed
/// with its error; nothing else changes.
pub proof fn law_finish_outcome(items: Seq<ItemView>, id: Seq<char>, res: Result<Seq<char>, Seq<char>>)
    requires
        unique_ids(items),
        has_id(items, id),
    ensures
        lookup(spec_finish_run(items, id, res), id) matches Some(it) && match res {
            Ok(path) => it.status == "completed"@ && it.filepath == path && it.error.len() == 0,
            Err(e) => it.status == "failed"@ && it.error == e,
        },
        forall|other: Seq<char>| other != id ==> #[trigger] lookup(spec_finish_run(items, id, res), other) == lookup(items, other),
{
    lemma_index_of(items, id);
    match res {
        Ok(path) => lemma_update_row(items, id, |x: ItemView| with_completed(x, path)),
        Err(e) => lemma_update_row(items, id, |x: ItemView| with_status(x, "failed"@, e)),
    }
}

/// Clearing finished downloads removes every one that is over and keeps
/// every one that is not (queued and running downloads stay).
pub proof fn law_clear_finished(items: Seq<ItemView>)
    ensures
        forall|i: int|
            0 <= i < crate::store::unfinished_rows(items).len() ==> !is_finished(
                #[trigger] crate::store::unfinished_rows(items)[i].status,
            ),
        forall|i: int|
            0 <= i < items.len() && !is_finished(#[trigger] items[i].status)
                ==> crate::store::unfinished_rows(items).contains(items[i]),
{
    crate::store::lemma_keep_rows(items, |it: ItemView| !is_finished(it.status));
}

/// After a restart, no download is left queued or running: those that were
/// are failed with the interruption message; the others are unchanged.
pub proof fn law_reset_stale(items: Seq<ItemView>)
    ensures
        forall|i: int|
            0 <= i < items.len() ==> !crate::store::is_stale(
                #[trigger] crate::store::reset_rows(items)[i].status,
            ),
        forall|i: int|
            0 <= i < items.len() && crate::store::is_stale(items[i].status) ==> (
            #[trigger] crate::store::reset_rows(items)[i]).status == "failed"@
                && crate::store::reset_rows(items)[i].error == crate::store::interrupted_message(),
        forall|i: int|
            0 <= i < items.len() && !crate::store::is_stale(items[i].status) ==> #[trigger] crate::store::reset_rows(items)[i] == items[i],
{
    reveal_strlit("failed");
    reveal_strlit("running");
    reveal_strlit("queued");
    assert("failed"@[0] != "queued"@[0]);
    assert("failed"@ != "queued"@);
    assert("failed"@.len() != "running"@.len());
    assert("failed"@ != "running"@);
}

/// Ids made with different counter values differ, whatever the times.
pub proof fn law_gen_id_distinct(now1: i64, n1: u64, now2: i64, n2: u64)
    requires
        n1 != n2,
    ensures
        spec_gen_id(now1, n1) != spec_gen_id(now2, n2),
{
    let e1 = decimal(n1 as nat);
    let e2 = decimal(n2 as nat);
    crate::text::lemma_decimal_digits(n1 as nat);
    crate::text::lemma_decimal_digits(n2 as nat);
    let s1 = spec_gen_id(now1, n1);
    let s2 = spec_gen_id(now2, n2);
    let p1 = signed_decimal(now1 as int);
    let p2 = signed_decimal(now2 as int);
    assert(s1 =~= p1 + seq!['-'] + e1);
    assert(s2 =~= p2 + seq!['-'] + e2);
    if s1 == s2 {
        if e1.len() < e2.len() {
            let k = s1.len() - 1 - e1.len();
            assert(s1[k] == '-');
            assert(s2[k] == e2[k - p2.len() - 1]);
            assert(crate::text::is_digit(e2[k - p2.len() - 1]));
        } else if e2.len() < e1.len() {
            let k = s2.len() - 1 - e2.len();
            assert(s2[k] == '-');
            assert(s1[k] == e1[k - p1.len() - 1]);
            assert(crate::text::is_digit(e1[k - p1.len() - 1]));
        } else {
            assert(e1 =~= s1.skip(s1.len() - e1.len()));
            assert(e2 =~= s2.skip(s2.len() - e2.len()));
            assert(e1 == e2);
        }
    }
}

/// A download entered in the queue reads back with every field it was given:
/// its id, link, title, format, output directory, thumbnail, options and
/// creation time are the arguments of `enqueue`; it is queued, with no file
/// and no error yet. The other downloads read back as before.
pub proof fn law_enqueue_keeps_fields(
    items: Seq<ItemView>,
    id: Seq<char>,
    url: Seq<char>,
    title: Seq<char>,
    format: Seq<char>,
    out_dir: Seq<char>,
    thumbnail: Seq<char>,
    options: Seq<char>,
    created_at: i64,
)
    requires
        unique_ids(items),
        !has_id(items, id),
    ensures
        ({
            let after = items.push(
                queued_item(id, url, title, format, out_dir, thumbnail, options, created_at),
            );
            &&& lookup(after, id) matches Some(it) && it.id == id && it.url == url && it.title == title
                && it.format == format && it.out_dir == out_dir && it.thumbnail == thumbnail && it.options
                == options && it.created_at == created_at && it.status == "queued"@ && it.filepath.len() == 0
                && it.error.len() == 0
            &&& forall|other: Seq<char>| other != id ==> #[trigger] lookup(after, other) == lookup(items, other)
        }),
{
    let it = queued_item(id, url, title, format, out_dir, thumbnail, options, created_at);
    let after = items.push(it);
    law_enqueue_then_get(items, it);
    assert forall|other: Seq<char>| other != id implies #[trigger] lookup(after, other) == lookup(items, other) by {
        lemma_index_of(items, other);
        crate::store::lemma_index_from(after, other, 0);
        lemma_push_index_from(items, it, other, 0);
    }
}

proof fn lemma_push_index_from(items: Seq<ItemView>, it: ItemView, other: Seq<char>, i: int)
    requires
        0 <= i,
        it.id != other,
    ensures
        crate::store::index_from(items.push(it), other, i) == crate::store::index_from(items, other, i),
    decreases items.len() + 1 - i,
{
    let p = items.push(it);
    if i < p.len() {
        if i < items.len() {
            assert(p[i] == items[i]);
        }
        lemma_push_index_from(items, it, other, i + 1);
    }
}

} // verus!

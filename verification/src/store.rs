//! The downloads table: queue entries and history, one row per download,
//! keyed by id. The application persists it; the rules of every change are here.

use vstd::prelude::*;
use crate::text::{owned, opt_view};

verus! {

/// One download (queue entry and history entry alike).
pub struct DownloadItem {
    pub id: String,
    pub url: String,
    pub title: String,
    pub format: String,
    pub out_dir: String,
    pub filepath: String,
    /// queued | running | completed | failed | cancelled
    pub status: String,
    pub error: String,
    pub thumbnail: String,
    pub created_at: i64,
    /// The download's options as JSON.
    pub options: String,
}

/// The content of a download row.
pub struct ItemView {
    pub id: Seq<char>,
    pub url: Seq<char>,
    pub title: Seq<char>,
    pub format: Seq<char>,
    pub out_dir: Seq<char>,
    pub filepath: Seq<char>,
    pub status: Seq<char>,
    pub error: Seq<char>,
    pub thumbnail: Seq<char>,
    pub created_at: i64,
    pub options: Seq<char>,
}

impl View for DownloadItem {
    type V = ItemView;

    open spec fn view(&self) -> ItemView {
        ItemView {
            id: self.id@,
            url: self.url@,
            title: self.title@,
            format: self.format@,
            out_dir: self.out_dir@,
            filepath: self.filepath@,
            status: self.status@,
            error: self.error@,
            thumbnail: self.thumbnail@,
            created_at: self.created_at,
            options: self.options@,
        }
    }
}

impl Clone for DownloadItem {
    fn clone(&self) -> (r: Self)
        ensures
            r@ == self@,
    {
        DownloadItem {
            id: self.id.clone(),
            url: self.url.clone(),
            title: self.title.clone(),
            format: self.format.clone(),
            out_dir: self.out_dir.clone(),
            filepath: self.filepath.clone(),
            status: self.status.clone(),
            error: self.error.clone(),
            thumbnail: self.thumbnail.clone(),
            created_at: self.created_at,
            options: self.options.clone(),
        }
    }
}

/// The views of a sequence of rows.
pub open spec fn item_views(v: Seq<DownloadItem>) -> Seq<ItemView> {
    v.map_values(|x: DownloadItem| x@)
}

/// No two rows share an id.
pub open spec fn unique_ids(items: Seq<ItemView>) -> bool {
    forall|i: int, j: int|
        0 <= i < items.len() && 0 <= j < items.len() && i != j ==> #[trigger] items[i].id
            != #[trigger] items[j].id
}

/// The index of the row with `id`, searching from `i`.
pub open spec fn index_from(items: Seq<ItemView>, id: Seq<char>, i: int) -> Option<int>
    decreases items.len() - i,
{
    if i < 0 || i >= items.len() {
        None
    } else if items[i].id == id {
        Some(i)
    } else {
        index_from(items, id, i + 1)
    }
}

/// The index of the row with `id`.
pub open spec fn index_of(items: Seq<ItemView>, id: Seq<char>) -> Option<int> {
    index_from(items, id, 0)
}

/// The row with `id`, if there is one.
pub open spec fn lookup(items: Seq<ItemView>, id: Seq<char>) -> Option<ItemView> {
    match index_of(items, id) {
        Some(i) => Some(items[i]),
        None => None,
    }
}

/// Whether a row has `id`.
pub open spec fn has_id(items: Seq<ItemView>, id: Seq<char>) -> bool {
    exists|i: int| 0 <= i < items.len() && #[trigger] items[i].id == id
}

/// `index_from` finds the first row with `id` from `i` on.
pub proof fn lemma_index_from(items: Seq<ItemView>, id: Seq<char>, i: int)
    requires
        0 <= i,
    ensures
        index_from(items, id, i) matches Some(k) ==> i <= k < items.len() && items[k].id == id,
        index_from(items, id, i) is None ==> forall|k: int|
            i <= k < items.len() ==> #[trigger] items[k].id != id,
    decreases items.len() - i,
{
    if i >= items.len() {
    } else if items[i].id == id {
    } else {
        lemma_index_from(items, id, i + 1);
    }
}

/// With unique ids, the row found is the only row with that id.
pub proof fn lemma_index_of(items: Seq<ItemView>, id: Seq<char>)
    requires
        unique_ids(items),
    ensures
        index_of(items, id) matches Some(k) ==> 0 <= k < items.len() && items[k].id == id
            && forall|j: int| 0 <= j < items.len() && j != k ==> #[trigger] items[j].id != id,
        index_of(items, id) is None <==> !has_id(items, id),
{
    lemma_index_from(items, id, 0);
}

/// Each row, with the function `f` applied to the row with `id`.
pub open spec fn update_row(items: Seq<ItemView>, id: Seq<char>, f: spec_fn(ItemView) -> ItemView) -> Seq<
    ItemView,
> {
    items.map_values(|it: ItemView| if it.id == id { f(it) } else { it })
}

/// A row with a new status and error.
pub open spec fn with_status(it: ItemView, status: Seq<char>, error: Seq<char>) -> ItemView {
    ItemView { status: status, error: error, ..it }
}

/// A row completed with its file.
pub open spec fn with_completed(it: ItemView, filepath: Seq<char>) -> ItemView {
    ItemView { status: "completed"@, error: Seq::empty(), filepath: filepath, ..it }
}

/// The rows that satisfy `keep`, in order.
pub open spec fn keep_rows(items: Seq<ItemView>, keep: spec_fn(ItemView) -> bool) -> Seq<ItemView>
    decreases items.len(),
{
    if items.len() == 0 {
        Seq::empty()
    } else {
        keep_rows(items.drop_last(), keep) + if keep(items.last()) {
            seq![items.last()]
        } else {
            Seq::empty()
        }
    }
}

/// The rows kept are exactly those that satisfy `keep`, in their order.
pub proof fn lemma_keep_rows(items: Seq<ItemView>, keep: spec_fn(ItemView) -> bool)
    ensures
        forall|i: int| 0 <= i < keep_rows(items, keep).len() ==> keep(#[trigger] keep_rows(items, keep)[i]),
        forall|i: int|
            0 <= i < items.len() && keep(#[trigger] items[i]) ==> keep_rows(items, keep).contains(
                items[i],
            ),
        forall|x: ItemView| #[trigger] keep_rows(items, keep).contains(x) ==> items.contains(x),
        keep_rows(items, keep).len() <= items.len(),
    decreases items.len(),
{
    if items.len() > 0 {
        let rest = items.drop_last();
        lemma_keep_rows(rest, keep);
        let k = keep_rows(items, keep);
        let kr = keep_rows(rest, keep);
        assert forall|i: int| 0 <= i < k.len() implies keep(#[trigger] k[i]) by {
            if i < kr.len() {
                assert(k[i] == kr[i]);
            }
        }
        assert forall|i: int| 0 <= i < items.len() && keep(#[trigger] items[i]) implies k.contains(
            items[i],
        ) by {
            if i < items.len() - 1 {
                assert(rest[i] == items[i]);
                let j = choose|j: int| 0 <= j < kr.len() && kr[j] == items[i];
                assert(k[j] == items[i]);
            } else {
                assert(k[k.len() - 1] == items[i]);
            }
        }
        assert forall|x: ItemView| #[trigger] k.contains(x) implies items.contains(x) by {
            let j = choose|j: int| 0 <= j < k.len() && k[j] == x;
            if j < kr.len() {
                assert(kr[j] == x);
                assert(kr.contains(x));
                assert(rest.contains(x));
                let m = choose|m: int| 0 <= m < rest.len() && rest[m] == x;
                assert(items[m] == x);
            } else {
                assert(items[items.len() - 1] == x);
            }
        }
    }
}

/// The statuses that mark a download as over.
pub open spec fn is_finished(status: Seq<char>) -> bool {
    status == "completed"@ || status == "failed"@ || status == "cancelled"@
}

/// The statuses of downloads that were in progress.
pub open spec fn is_stale(status: Seq<char>) -> bool {
    status == "running"@ || status == "queued"@
}

/// The message of downloads interrupted by closing the application.
pub open spec fn interrupted_message() -> Seq<char> {
    "应用关闭导致中断"@
}

/// A row marked interrupted when it was in progress.
pub open spec fn reset_row(it: ItemView) -> ItemView {
    if is_stale(it.status) {
        with_status(it, "failed"@, interrupted_message())
    } else {
        it
    }
}

/// The rows other than the one with `id`.
pub open spec fn without_id(items: Seq<ItemView>, id: Seq<char>) -> Seq<ItemView> {
    keep_rows(items, |it: ItemView| it.id != id)
}

/// The rows whose download is not over.
pub open spec fn unfinished_rows(items: Seq<ItemView>) -> Seq<ItemView> {
    keep_rows(items, |it: ItemView| !is_finished(it.status))
}

/// The rows after a restart: those in progress marked interrupted.
pub open spec fn reset_rows(items: Seq<ItemView>) -> Seq<ItemView> {
    items.map_values(|it: ItemView| reset_row(it))
}

/// Rows sorted newest first.
pub open spec fn newest_first(items: Seq<ItemView>) -> bool {
    forall|i: int, j: int|
        0 <= i < j < items.len() ==> #[trigger] items[i].created_at >= #[trigger] items[j].created_at
}

/// The downloads table.
pub struct DownloadTable {
    pub items: Vec<DownloadItem>,
}

impl View for DownloadTable {
    type V = Seq<ItemView>;

    open spec fn view(&self) -> Seq<ItemView> {
        item_views(self.items@)
    }
}

/// The message of an insert whose id is taken.
pub open spec fn duplicate_id_message() -> Seq<char> {
    "UNIQUE constraint failed: downloads.id"@
}

impl DownloadTable {
    /// The table's invariant: ids are unique.
    pub open spec fn wf(&self) -> bool {
        unique_ids(self@)
    }

    /// An empty table.
    pub fn new() -> (t: Self)
        ensures
            t@ == Seq::<ItemView>::empty(),
            t.wf(),
    {
        let t = DownloadTable { items: Vec::new() };
        assert(t@ =~= Seq::<ItemView>::empty());
        t
    }

    /// The index of the row with `id`.
    fn position(&self, id: &String) -> (r: Option<usize>)
        requires
            self.wf(),
        ensures
            r matches Some(k) ==> index_of(self@, id@) == Some(k as int),
            r is None ==> index_of(self@, id@) is None,
    {
        let n = self.items.len();
        let mut i: usize = 0;
        while i < n
            invariant
                i <= n,
                n == self@.len(),
                index_of(self@, id@) == index_from(self@, id@, i as int),
            decreases n - i,
        {
            if self.items[i].id == *id {
                assert(self@[i as int].id == id@);
                return Some(i);
            }
            i = i + 1;
        }
        None
    }

    fn update_at(&mut self, k: usize, status: String, error: String, filepath: Option<String>)
        requires
            old(self).wf(),
            k < old(self)@.len(),
        ensures
            final(self)@ == old(self)@.update(
                k as int,
                match opt_view(filepath) {
                    Some(f) => ItemView { status: status@, error: error@, filepath: f, ..old(self)@[k as int] },
                    None => ItemView { status: status@, error: error@, ..old(self)@[k as int] },
                },
            ),
            final(self).wf(),
    {
        let ghost before = self@;
        let mut it = self.items[k].clone();
        it.status = status;
        it.error = error;
        match filepath {
            Some(f) => {
                it.filepath = f;
            },
            None => {},
        }
        let ghost iv = it@;
        self.items.set(k, it);
        assert(self@ =~= before.update(k as int, iv));
        assert forall|i: int, j: int|
            0 <= i < self@.len() && 0 <= j < self@.len() && i != j implies #[trigger] self@[i].id
            != #[trigger] self@[j].id by {
            assert(self@[i].id == before[i].id);
            assert(self@[j].id == before[j].id);
        }
    }

    fn retain_rows(&mut self, filter: &RowFilter)
        requires
            old(self).wf(),
        ensures
            final(self).wf(),
            final(self)@ == keep_rows(old(self)@, |it: ItemView| filter.keeps(it)),
    {
        let ghost keep = |it: ItemView| filter.keeps(it);
        let ghost before = self@;
        let mut out: Vec<DownloadItem> = Vec::new();
        let n = self.items.len();
        let mut i: usize = 0;
        while i < n
            invariant
                i <= n,
                n == before.len(),
                before == item_views(self.items@),
                keep == (|it: ItemView| filter.keeps(it)),
                item_views(out@) == keep_rows(before.take(i as int), keep),
            decreases n - i,
        {
            let it = &self.items[i];
            let ghost prev = item_views(out@);
            assert(before.take(i + 1).drop_last() =~= before.take(i as int));
            assert(before.take(i + 1).last() == it@);
            if filter.keeps_exec(it) {
                out.push(it.clone());
                assert(item_views(out@) =~= prev + seq![it@]);
            } else {
                assert(item_views(out@) =~= prev + Seq::<ItemView>::empty());
            }
            i = i + 1;
        }
        assert(before.take(n as int) =~= before);
        self.items = out;
        proof {
            lemma_keep_rows(before, keep);
            let k = keep_rows(before, keep);
            lemma_keep_unique(before, keep);
        }
    }

}

/// Adds a download; fails when its id is taken.
pub fn insert(table: &mut DownloadTable, item: DownloadItem) -> (r: Result<(), String>)
    requires
        old(table).wf(),
    ensures
        final(table).wf(),
        match r {
            Ok(()) => !has_id(old(table)@, item@.id) && final(table)@ == old(table)@.push(item@),
            Err(e) => has_id(old(table)@, item@.id) && final(table)@ == old(table)@ && e@
                == duplicate_id_message(),
        },
{
    proof {
        lemma_index_of(table@, item@.id);
    }
    if table.position(&item.id).is_some() {
        return Err(owned("UNIQUE constraint failed: downloads.id"));
    }
    let ghost before = table@;
    let ghost iv = item@;
    table.items.push(item);
    assert(table@ =~= before.push(iv));
    assert forall|i: int, j: int|
        0 <= i < table@.len() && 0 <= j < table@.len() && i != j implies #[trigger] table@[i].id
        != #[trigger] table@[j].id by {
        if i < before.len() && j < before.len() {
        } else if i == before.len() {
            assert(table@[j] == before[j]);
        } else {
            assert(table@[i] == before[i]);
        }
    }
    Ok(())
}


/// Sets the status and error of the download `id` (the error is empty
/// when none is given); other rows are unchanged.
pub fn set_status(table: &mut DownloadTable, id: &str, status: &str, error: Option<&str>)
    requires
        old(table).wf(),
    ensures
        final(table).wf(),
        final(table)@ == update_row(
            old(table)@,
            id@,
            |it: ItemView|
                with_status(
                    it,
                    status@,
                    match error {
                        Some(e) => e@,
                        None => Seq::empty(),
                    },
                ),
        ),
{
    let key = owned(id);
    proof {
        lemma_index_of(table@, id@);
    }
    let ghost before = table@;
    let ghost ev = match error {
        Some(e) => e@,
        None => Seq::<char>::empty(),
    };
    match table.position(&key) {
        Some(k) => {
            let e = match error {
                Some(e) => owned(e),
                None => String::new(),
            };
            table.update_at(k, owned(status), e, None);
            assert(table@ =~= update_row(before, id@, |it: ItemView| with_status(it, status@, ev)));
        },
        None => {
            assert(before =~= update_row(before, id@, |it: ItemView| with_status(it, status@, ev)));
        },
    }
}


/// Marks the download `id` completed with its file, clearing its error.
pub fn set_completed(table: &mut DownloadTable, id: &str, filepath: &str)
    requires
        old(table).wf(),
    ensures
        final(table).wf(),
        final(table)@ == update_row(old(table)@, id@, |it: ItemView| with_completed(it, filepath@)),
{
    let key = owned(id);
    proof {
        lemma_index_of(table@, id@);
    }
    let ghost before = table@;
    match table.position(&key) {
        Some(k) => {
            table.update_at(k, owned("completed"), String::new(), Some(owned(filepath)));
            assert(table@ =~= update_row(before, id@, |it: ItemView| with_completed(it, filepath@)));
        },
        None => {
            assert(before =~= update_row(before, id@, |it: ItemView| with_completed(it, filepath@)));
        },
    }
}


/// The status of the download `id`.
pub fn status_of(table: &DownloadTable, id: &str) -> (r: Option<String>)
    requires
        table.wf(),
    ensures
        opt_view(r) == match lookup(table@, id@) {
            Some(it) => Some(it.status),
            None => None,
        },
{
    let key = owned(id);
    proof {
        lemma_index_of(table@, id@);
    }
    match table.position(&key) {
        Some(k) => Some(table.items[k].status.clone()),
        None => None,
    }
}


/// The download `id`.
pub fn get(table: &DownloadTable, id: &str) -> (r: Option<DownloadItem>)
    requires
        table.wf(),
    ensures
        match r {
            Some(it) => lookup(table@, id@) == Some(it@),
            None => lookup(table@, id@) is None,
        },
{
    let key = owned(id);
    proof {
        lemma_index_of(table@, id@);
    }
    match table.position(&key) {
        Some(k) => Some(table.items[k].clone()),
        None => None,
    }
}


/// Removes the download `id`.
pub fn delete(table: &mut DownloadTable, id: &str)
    requires
        old(table).wf(),
    ensures
        final(table).wf(),
        final(table)@ == without_id(old(table)@, id@),
{
    let key = owned(id);
    let filter = RowFilter::OtherThan(key);
    table.retain_rows(&filter);
    assert((|it: ItemView| filter.keeps(it)) =~= (|it: ItemView| it.id != id@));
}


/// Removes the downloads that are over (completed, failed or cancelled).
pub fn clear_finished(table: &mut DownloadTable)
    requires
        old(table).wf(),
    ensures
        final(table).wf(),
        final(table)@ == unfinished_rows(old(table)@),
{
    let filter = RowFilter::Unfinished;
    table.retain_rows(&filter);
    assert((|it: ItemView| filter.keeps(it)) =~= (|it: ItemView| !is_finished(it.status)));
}


/// Marks the downloads still queued or running as failed, interrupted by
/// closing the application (they do not survive a restart).
pub fn reset_stale(table: &mut DownloadTable)
    requires
        old(table).wf(),
    ensures
        final(table).wf(),
        final(table)@ == reset_rows(old(table)@),
{
    let ghost before = table@;
    let n = table.items.len();
    let mut i: usize = 0;
    while i < n
        invariant
            i <= n,
            n == before.len(),
            n == table@.len(),
            unique_ids(table@),
            forall|j: int| 0 <= j < i ==> #[trigger] table@[j] == reset_row(before[j]),
            forall|j: int| i <= j < n ==> #[trigger] table@[j] == before[j],
        decreases n - i,
    {
        let st = &table.items[i].status;
        if *st == owned("running") || *st == owned("queued") {
            table.update_at(i, owned("failed"), owned("应用关闭导致中断"), None);
        }
        i = i + 1;
    }
    assert(table@ =~= reset_rows(before));
}


/// All downloads, newest first.
pub fn list(table: &DownloadTable) -> (r: Vec<DownloadItem>)
    requires
        table.wf(),
    ensures
        item_views(r@).to_multiset() == table@.to_multiset(),
        newest_first(item_views(r@)),
{
    let mut out: Vec<DownloadItem> = Vec::new();
    let n = table.items.len();
    let mut i: usize = 0;
    assert(item_views(out@) =~= Seq::<ItemView>::empty());
    assert(table@.take(0) =~= Seq::<ItemView>::empty());
    while i < n
        invariant
            i <= n,
            n == table@.len(),
            item_views(out@).to_multiset() == table@.take(i as int).to_multiset(),
            newest_first(item_views(out@)),
        decreases n - i,
    {
        let it = table.items[i].clone();
        let c = it.created_at;
        let mut p: usize = 0;
        while p < out.len() && out[p].created_at >= c
            invariant
                p <= out@.len(),
                forall|j: int| 0 <= j < p ==> #[trigger] out@[j].created_at >= c,
            decreases out@.len() - p,
        {
            p = p + 1;
        }
        let ghost prev = item_views(out@);
        let ghost iv = it@;
        out.insert(p, it);
        proof {
            assert(item_views(out@) =~= prev.insert(p as int, iv));
            lemma_insert_multiset(prev, p as int, iv);
            assert(table@.take(i + 1) =~= table@.take(i as int).push(iv));
            table@.take(i as int).to_multiset_ensures();
            assert(item_views(out@).to_multiset() =~= table@.take(i + 1).to_multiset());
            assert forall|a: int, b: int|
                0 <= a < b < item_views(out@).len() implies #[trigger] item_views(out@)[a].created_at
                >= #[trigger] item_views(out@)[b].created_at by {
                let o = item_views(out@);
                if b < p {
                    assert(o[a] == prev[a] && o[b] == prev[b]);
                } else if b == p {
                    assert(o[a] == prev[a]);
                } else if a < p {
                    assert(o[a] == prev[a] && o[b] == prev[b - 1]);
                    if b - 1 > p {
                        assert(prev[p as int].created_at < c);
                    }
                } else if a == p {
                    assert(o[b] == prev[b - 1]);
                    assert(prev[p as int].created_at < c);
                } else {
                    assert(o[a] == prev[a - 1] && o[b] == prev[b - 1]);
                }
            }
        }
        i = i + 1;
    }
    assert(table@.take(n as int) =~= table@);
    out
}


/// Inserting into a sequence adds the element to its multiset.
pub proof fn lemma_insert_multiset(s: Seq<ItemView>, i: int, x: ItemView)
    requires
        0 <= i <= s.len(),
    ensures
        s.insert(i, x).to_multiset() == s.to_multiset().insert(x),
{
    let a = s.take(i);
    let b = s.skip(i);
    assert(s =~= a + b);
    assert(s.insert(i, x) =~= a.push(x) + b);
    vstd::seq_lib::lemma_multiset_commutative(a.push(x), b);
    vstd::seq_lib::lemma_multiset_commutative(a, b);
    assert(a.push(x).to_multiset() =~= a.to_multiset().insert(x)) by {
        a.to_multiset_ensures();
    }
}

/// Keeping some rows of a table with unique ids keeps ids unique.
pub proof fn lemma_keep_unique(items: Seq<ItemView>, keep: spec_fn(ItemView) -> bool)
    requires
        unique_ids(items),
    ensures
        unique_ids(keep_rows(items, keep)),
    decreases items.len(),
{
    if items.len() > 0 {
        let rest = items.drop_last();
        assert(unique_ids(rest)) by {
            assert forall|i: int, j: int|
                0 <= i < rest.len() && 0 <= j < rest.len() && i != j implies #[trigger] rest[i].id
                != #[trigger] rest[j].id by {
                assert(rest[i] == items[i] && rest[j] == items[j]);
            }
        }
        lemma_keep_unique(rest, keep);
        lemma_keep_rows(rest, keep);
        let k = keep_rows(items, keep);
        let kr = keep_rows(rest, keep);
        if keep(items.last()) {
            assert forall|i: int, j: int|
                0 <= i < k.len() && 0 <= j < k.len() && i != j implies #[trigger] k[i].id
                != #[trigger] k[j].id by {
                if i < kr.len() && j < kr.len() {
                    assert(k[i] == kr[i] && k[j] == kr[j]);
                } else if i < kr.len() {
                    assert(kr.contains(kr[i]));
                    let m = choose|m: int| 0 <= m < rest.len() && rest[m] == kr[i];
                    assert(items[m] == kr[i]);
                    assert(k[j] == items[items.len() - 1]);
                } else {
                    assert(kr.contains(kr[j]));
                    let m = choose|m: int| 0 <= m < rest.len() && rest[m] == kr[j];
                    assert(items[m] == kr[j]);
                    assert(k[i] == items[items.len() - 1]);
                }
            }
        } else {
            assert(k =~= kr);
        }
    }
}

/// Which rows a removal keeps.
pub enum RowFilter {
    /// The rows whose id is not the given one.
    OtherThan(String),
    /// The rows whose download is not over.
    Unfinished,
}

impl RowFilter {
    /// Whether the filter keeps a row.
    pub open spec fn keeps(&self, it: ItemView) -> bool {
        match self {
            RowFilter::OtherThan(id) => it.id != id@,
            RowFilter::Unfinished => !is_finished(it.status),
        }
    }

    /// Whether the filter keeps a row.
    pub fn keeps_exec(&self, it: &DownloadItem) -> (b: bool)
        ensures
            b == self.keeps(it@),
    {
        match self {
            RowFilter::OtherThan(id) => it.id != *id,
            RowFilter::Unfinished => !(it.status == owned("completed") || it.status == owned(
                "failed",
            ) || it.status == owned("cancelled")),
        }
    }
}

} // verus!

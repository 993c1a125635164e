use aerodl::queue::{IdGenerator, begin_run, cancel, clear_finished, enqueue, finish_run, gen_id, list, remove, retry};
use aerodl::store::{self as table_ops, DownloadItem, DownloadTable};

fn table_with(ids: &[(&str, i64)]) -> DownloadTable {
    let mut t = DownloadTable::new();
    for (id, at) in ids {
        enqueue(
            &mut t,
            id.to_string(),
            format!("https://v/{id}"),
            "t".to_string(),
            "best".to_string(),
            "/out".to_string(),
            String::new(),
            "{}".to_string(),
            *at,
        )
        .unwrap();
    }
    t
}

#[test]
fn ids() {
    assert_eq!(gen_id(1_700_000_000, 0), "1700000000-0");
    assert_eq!(gen_id(-5, 12), "-5-12");
    assert_ne!(gen_id(1, 23), gen_id(12, 3));
}

#[test]
fn enqueue_then_get() {
    let mut t = table_with(&[("a", 1)]);
    let it: DownloadItem = table_ops::get(&t, "a").unwrap();
    assert_eq!(it.status, "queued");
    assert_eq!(it.url, "https://v/a");
    assert_eq!(it.filepath, "");
    assert_eq!(it.error, "");
    let dup = enqueue(&mut t, "a".to_string(), String::new(), String::new(), String::new(), String::new(), String::new(), String::new(), 2);
    assert_eq!(dup, Err("UNIQUE constraint failed: downloads.id".to_string()));
    assert_eq!(t.items.len(), 1);
    assert!(table_ops::get(&t, "zzz").is_none());
    assert!(table_ops::status_of(&t, "zzz").is_none());
}

#[test]
fn worker_lifecycle() {
    let mut t = table_with(&[("a", 1), ("b", 2)]);
    assert!(begin_run(&mut t, "a"));
    assert_eq!(table_ops::status_of(&t, "a"), Some("running".to_string()));
    assert!(!begin_run(&mut t, "a"));
    finish_run(&mut t, "a", &Ok("/out/x.mkv".to_string()));
    let a = table_ops::get(&t, "a").unwrap();
    assert_eq!((a.status.as_str(), a.filepath.as_str(), a.error.as_str()), ("completed", "/out/x.mkv", ""));
    assert!(begin_run(&mut t, "b"));
    finish_run(&mut t, "b", &Err("boom".to_string()));
    let b = table_ops::get(&t, "b").unwrap();
    assert_eq!((b.status.as_str(), b.error.as_str()), ("failed", "boom"));
}

#[test]
fn cancelled_or_removed_downloads_do_not_run() {
    let mut t = table_with(&[("a", 1), ("b", 2)]);
    cancel(&mut t, "a");
    let a = table_ops::get(&t, "a").unwrap();
    assert_eq!((a.status.as_str(), a.error.as_str()), ("cancelled", "已取消"));
    assert!(!begin_run(&mut t, "a"));
    remove(&mut t, "b");
    assert!(table_ops::get(&t, "b").is_none());
    assert!(!begin_run(&mut t, "b"));
    retry(&mut t, "a");
    assert_eq!(table_ops::get(&t, "a").unwrap().error, "");
    assert!(begin_run(&mut t, "a"));
}

#[test]
fn clear_and_reset() {
    let mut t = table_with(&[("q", 1), ("r", 2), ("c", 3), ("f", 4), ("x", 5)]);
    assert!(begin_run(&mut t, "r"));
    finish_run(&mut t, "c", &Ok("p".to_string()));
    finish_run(&mut t, "f", &Err("e".to_string()));
    cancel(&mut t, "x");
    let mut u = DownloadTable::new();
    for it in &t.items {
        table_ops::insert(&mut u, it.clone()).unwrap();
    }
    clear_finished(&mut t);
    let left: Vec<String> = t.items.iter().map(|i| i.id.clone()).collect();
    assert_eq!(left, vec!["q", "r"]);
    table_ops::reset_stale(&mut u);
    assert_eq!(table_ops::get(&u, "q").unwrap().status, "failed");
    assert_eq!(table_ops::get(&u, "q").unwrap().error, "应用关闭导致中断");
    assert_eq!(table_ops::get(&u, "r").unwrap().status, "failed");
    assert_eq!(table_ops::get(&u, "c").unwrap().status, "completed");
    assert_eq!(table_ops::get(&u, "x").unwrap().error, "已取消");
}

#[test]
fn list_is_newest_first() {
    let t = table_with(&[("old", 1), ("new", 9), ("mid", 5), ("mid2", 5)]);
    let ids: Vec<String> = list(&t).iter().map(|i| i.id.clone()).collect();
    assert_eq!(ids, vec!["new", "mid", "mid2", "old"]);
    assert_eq!(table_ops::list(&t).len(), 4);
    assert!(table_ops::list(&DownloadTable::new()).is_empty());
}

#[test]
fn status_updates_touch_one_row() {
    let mut t = table_with(&[("a", 1), ("b", 2)]);
    table_ops::set_status(&mut t, "a", "running", Some("note"));
    assert_eq!(table_ops::get(&t, "a").unwrap().error, "note");
    assert_eq!(table_ops::get(&t, "b").unwrap().status, "queued");
    table_ops::set_completed(&mut t, "b", "/f");
    table_ops::delete(&mut t, "a");
    assert_eq!(t.items.len(), 1);
    table_ops::set_status(&mut t, "missing", "failed", None);
    assert_eq!(t.items.len(), 1);
}

#[test]
fn generator_ids_differ() {
    let mut g = IdGenerator::new();
    let a = g.fresh(1_700_000_000);
    let b = g.fresh(1_700_000_000);
    assert_eq!(a, "1700000000-0");
    assert_eq!(b, "1700000000-1");
    assert_ne!(a, b);
    let mut g = IdGenerator { next: u64::MAX };
    assert_eq!(g.fresh(5), format!("5-{}", u64::MAX));
    assert_eq!(g.next, 0);
}

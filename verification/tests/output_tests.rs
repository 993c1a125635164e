use aerodl::options::DownloadOptions;
use aerodl::output::{
    aria2c_fields, download_outcome, line_without_end, needs_bilingual_merge, parse_dest,
    stdout_event, template_fields, StdoutEvent,
};

#[test]
fn destinations() {
    assert_eq!(parse_dest("[download] Destination: /tmp/a b.webm"), Some("/tmp/a b.webm".to_string()));
    assert_eq!(parse_dest("  [ExtractAudio] Destination:  x.mp3 "), Some("x.mp3".to_string()));
    assert_eq!(
        parse_dest("[Merger] Merging formats into \"/v/T.mkv\""),
        Some("/v/T.mkv".to_string())
    );
    assert_eq!(parse_dest("[Merger] Merging formats into \"unterminated"), None);
    assert_eq!(parse_dest("[download]  12.0% of 10MiB"), None);
}

#[test]
fn aria2c_progress_line() {
    let f = aria2c_fields("[#abc123 100MiB/531MiB(18%) CN:16 DL:50MiB ETA:8s]").unwrap();
    assert_eq!(f.percent, "18");
    assert_eq!(f.speed, "50MiB");
    assert_eq!(f.eta, "8s");
    let g = aria2c_fields("[#a 1MiB/2MiB( 50 %) CN:1]").unwrap();
    assert_eq!(g.percent, "50");
    assert_eq!(g.speed, "");
    assert_eq!(g.eta, "");
    assert!(aria2c_fields("no progress here").is_none());
    assert!(aria2c_fields("(18 percent)").is_none());
}

#[test]
fn template_lines() {
    let f = template_fields("AERODL|  42.5%| 1.2MiB/s |00:10").unwrap();
    assert_eq!(f.percent, "42.5");
    assert_eq!(f.speed, "1.2MiB/s");
    assert_eq!(f.eta, "00:10");
    let g = template_fields("AERODL|7%%").unwrap();
    assert_eq!(g.percent, "7");
    assert_eq!(g.speed, "");
    assert_eq!(g.eta, "");
    assert!(template_fields("[download] x").is_none());
}

#[test]
fn stdout_events() {
    match stdout_event("AERODL|10%|1KiB/s|5s\r\n", false) {
        StdoutEvent::Progress(f) => assert_eq!(f.percent, "10"),
        _ => panic!("expected progress"),
    }
    match stdout_event("[download] Destination: f.mp4\n", true) {
        StdoutEvent::Log { line, dest, aria2c } => {
            assert_eq!(line, "[download] Destination: f.mp4");
            assert_eq!(dest, Some("f.mp4".to_string()));
            assert!(aria2c.is_none());
        }
        _ => panic!("expected log"),
    }
    match stdout_event("[#1 1MiB/4MiB(25%) DL:1MiB ETA:3s]", true) {
        StdoutEvent::Log { aria2c, .. } => assert_eq!(aria2c.unwrap().percent, "25"),
        _ => panic!("expected log"),
    }
    match stdout_event("[#1 1MiB/4MiB(25%) DL:1MiB ETA:3s]", false) {
        StdoutEvent::Log { aria2c, .. } => assert!(aria2c.is_none()),
        _ => panic!("expected log"),
    }
    assert_eq!(line_without_end("abc\r\n\r"), "abc");
}

#[test]
fn outcomes() {
    assert_eq!(download_outcome(true, "f.mkv".to_string(), "warn"), Ok("f.mkv".to_string()));
    assert_eq!(download_outcome(false, String::new(), " \n "), Err("下载失败".to_string()));
    assert_eq!(download_outcome(false, String::new(), "ERROR: x\n"), Err("ERROR: x".to_string()));
}

#[test]
fn bilingual_merge_needs_a_file() {
    let mut o = DownloadOptions::default();
    o.bilingual = true;
    o.bi_main = "en".to_string();
    o.bi_secondary = "ja".to_string();
    assert!(needs_bilingual_merge(&o, "x.mkv"));
    assert!(!needs_bilingual_merge(&o, ""));
    o.bilingual = false;
    assert!(!needs_bilingual_merge(&o, "x.mkv"));
}

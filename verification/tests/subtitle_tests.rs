use aerodl::subtitle::{
    ass_escape, ass_ts, bilingual_ass, merge_to_ass, missing_subtitle_message, parse_srt, parse_ts, Cue,
};

#[test]
fn parse_ts_comma_and_dot() {
    assert_eq!(parse_ts("00:01:02,345"), Some(62_345));
    assert_eq!(parse_ts("01:00:00.5"), Some(3_600_500));
    assert_eq!(parse_ts(" 02:03.04 "), Some(123_040));
    assert_eq!(parse_ts("1:2:3:4"), None);
    assert_eq!(parse_ts("aa:bb:cc"), None);
    assert_eq!(parse_ts("00:00:01"), Some(1_000));
    assert_eq!(parse_ts("00:00:01,12345"), Some(1_123));
}

#[test]
fn ass_ts_renders_centiseconds() {
    assert_eq!(ass_ts(3_723_456), "1:02:03.45");
    assert_eq!(ass_ts(0), "0:00:00.00");
}

#[test]
fn ass_escape_replaces_braces_and_newlines() {
    assert_eq!(ass_escape("a{b}\nc"), "a(b) c");
}

#[test]
fn parse_srt_reads_blocks() {
    let srt = "1\r\n00:00:01,000 --> 00:00:02,500\r\nHello\r\nworld\r\n\r\n2\r\n00:00:03,000 --> 00:00:04,000\r\n\r\n3\r\nno timing\r\n";
    let cues = parse_srt(srt);
    assert_eq!(cues.len(), 1);
    assert_eq!(cues[0].start, 1_000);
    assert_eq!(cues[0].end, 2_500);
    assert_eq!(cues[0].text, "Hello world");
}

#[test]
fn merge_overlaps_secondary() {
    let main = vec![Cue { start: 1000, end: 2000, text: "Hi".to_string() }];
    let sec = vec![
        Cue { start: 1500, end: 2500, text: "你好".to_string() },
        Cue { start: 3000, end: 4000, text: "later".to_string() },
    ];
    let ass = merge_to_ass(&main, &sec);
    assert!(ass.starts_with("[Script Info]\nScriptType: v4.00+\n"));
    assert!(ass.ends_with("Dialogue: 0,0:00:01.00,0:00:02.00,Default,,0,0,0,,{\\fs28}Hi\\N{\\fs18}你好\n"));
}

#[test]
fn parse_ts_plus_sign_and_errors() {
    assert_eq!(parse_ts("+1:02"), Some(62_000));
    assert_eq!(parse_ts("-1:02"), None);
    assert_eq!(parse_ts(""), None);
    assert_eq!(parse_ts("12"), None);
    assert_eq!(parse_ts("00:00:01.x"), None);
    assert_eq!(parse_ts("00:00:01.2.3"), None);
}

#[test]
fn ass_ts_reads_back_cut_to_centiseconds() {
    for ms in [0u64, 9, 10, 999, 61_001, 3_723_456, 360_000_007] {
        assert_eq!(parse_ts(&ass_ts(ms)), Some(ms / 10 * 10));
    }
}

#[test]
fn parse_srt_skips_blocks_without_text_and_keeps_order() {
    let srt = "1\n00:00:05.000 --> 00:00:06.000\n  first  \n\n2\n00:00:01.000 --> 00:00:02.000\nsecond\n\n";
    let cues = parse_srt(srt);
    assert_eq!(cues.len(), 2);
    assert_eq!(cues[0].text, "first");
    assert_eq!(cues[1].start, 1_000);
    assert_eq!(cues[1].text, "second");
    assert_eq!(parse_srt("").len(), 0);
    assert_eq!(parse_srt("1\n00:00:01,000 --> 00:00:02,000 --> x\nbad\n").len(), 0);
}

#[test]
fn merge_without_overlap_has_main_only() {
    let main = vec![Cue { start: 0, end: 1500, text: "a{b}".to_string() }];
    let sec = vec![Cue { start: 1500, end: 2000, text: "touching".to_string() }];
    let ass = merge_to_ass(&main, &sec);
    assert!(ass.ends_with("Dialogue: 0,0:00:00.00,0:00:01.50,Default,,0,0,0,,{\\fs28}a(b)\n"));
    assert_eq!(ass.matches("Dialogue:").count(), 1);
}

#[test]
fn merge_joins_several_secondary_lines() {
    let main = vec![
        Cue { start: 0, end: 5000, text: "main".to_string() },
        Cue { start: 6000, end: 7000, text: "alone".to_string() },
    ];
    let sec = vec![
        Cue { start: 0, end: 1000, text: "one".to_string() },
        Cue { start: 2000, end: 3000, text: "two".to_string() },
    ];
    let ass = merge_to_ass(&main, &sec);
    assert!(ass.contains("{\\fs28}main\\N{\\fs18}one two\n"));
    assert!(ass.contains("Dialogue: 0,0:00:06.00,0:00:07.00,Default,,0,0,0,,{\\fs28}alone\n"));
}

#[test]
fn bilingual_ass_refuses_empty_main() {
    assert_eq!(bilingual_ass("", "1\n00:00:01,000 --> 00:00:02,000\nx\n"), Err("主字幕为空".to_string()));
    let ok = bilingual_ass("1\n00:00:01,000 --> 00:00:02,000\nHi\n", "").unwrap();
    assert!(ok.ends_with("Dialogue: 0,0:00:01.00,0:00:02.00,Default,,0,0,0,,{\\fs28}Hi\n"));
}

#[test]
fn parse_srt_same_with_any_line_ending() {
    let unix = "1\n00:00:01,000 --> 00:00:02,500\nHello\nthere\n\n2\n00:00:03,000 --> 00:00:04,000\nBye\n";
    let key = |v: Vec<Cue>| v.into_iter().map(|c| (c.start, c.end, c.text)).collect::<Vec<_>>();
    let expected = key(parse_srt(unix));
    assert_eq!(expected.len(), 2);
    assert_eq!(key(parse_srt(&unix.replace('\n', "\r\n"))), expected);
    assert_eq!(key(parse_srt(&unix.replace('\n', "\r"))), expected);
}

#[test]
fn missing_subtitle_messages() {
    assert_eq!(missing_subtitle_message(true), "主字幕下载失败（该语言可能不可用）");
    assert_eq!(missing_subtitle_message(false), "副字幕下载失败（该语言可能不可用）");
}

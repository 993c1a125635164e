use aerodl::media::{
    decode_json, display_resolution, extract_subs, format_summary, hdr_from_upper, is_hdr, RawFormat,
    SubtitleEntry,
};

fn entry(code: &str, name: Option<&str>) -> SubtitleEntry {
    SubtitleEntry { code: code.to_string(), name: name.map(|n| n.to_string()) }
}

#[test]
fn subtitle_languages() {
    let manual = vec![entry("en", Some("English")), entry("zh", None), entry("en", Some("again"))];
    let auto = vec![entry("en", Some("English (auto)"))];
    let r = extract_subs(&manual, &auto);
    let v: Vec<(String, String, bool)> = r.iter().map(|l| (l.code.clone(), l.name.clone(), l.auto)).collect();
    assert_eq!(
        v,
        vec![
            ("en".to_string(), "English".to_string(), false),
            ("zh".to_string(), "zh".to_string(), false),
            ("en".to_string(), "English (auto)".to_string(), true),
        ]
    );
    assert!(extract_subs(&vec![], &vec![]).is_empty());
}

#[test]
fn format_fields() {
    assert_eq!(display_resolution("", "720p"), "720p");
    assert_eq!(display_resolution("1280x720", "720p"), "1280x720");
    assert!(is_hdr("hdr10", ""));
    assert!(is_hdr("SDR", "1080p HDR"));
    assert!(!is_hdr("SDR", "1080p"));
}

#[test]
fn json_documents() {
    let v = decode_json(br#"{"title":"x"}"#, "解析 JSON 失败: ").unwrap();
    assert_eq!(v["title"], "x");
    let e = decode_json(b"{oops", "解析 JSON 失败: ").unwrap_err();
    assert!(e.starts_with("解析 JSON 失败: "));
    assert!(e.len() > "解析 JSON 失败: ".len());
}

#[test]
fn json_value_is_the_parsed_document() {
    let v = decode_json(br#"{"formats":[{"height":720}],"title":null}"#, "").unwrap();
    assert_eq!(v["formats"][0]["height"], 720);
    assert!(v["title"].is_null());
}

#[test]
fn hdr_from_upper_cased_fields() {
    assert!(hdr_from_upper("HDR10", ""));
    assert!(!hdr_from_upper("hdr10", "sdr"));
}

#[test]
fn format_summaries() {
    let raw = RawFormat {
        format_id: "303".to_string(),
        ext: "webm".to_string(),
        resolution: "".to_string(),
        format_note: "1080p60 HDR".to_string(),
        vcodec: "VP09.02.51.10".to_string(),
        acodec: "none".to_string(),
        dynamic_range: "".to_string(),
        height: Some(1080),
        filesize: None,
        filesize_approx: Some(123),
    };
    let s = format_summary(raw);
    assert_eq!(s.format_id, "303");
    assert_eq!(s.ext, "webm");
    assert_eq!(s.resolution, "1080p60 HDR");
    assert_eq!(s.note, "1080p60 HDR");
    assert_eq!(s.filesize, Some(123));
    assert_eq!(s.codec_label, "VP9");
    assert_eq!(s.height, Some(1080));
    assert!(s.hdr);
    let raw = RawFormat {
        format_id: "140".to_string(),
        ext: "m4a".to_string(),
        resolution: "audio only".to_string(),
        format_note: "medium".to_string(),
        vcodec: "none".to_string(),
        acodec: "mp4a.40.2".to_string(),
        dynamic_range: "SDR".to_string(),
        height: None,
        filesize: Some(5),
        filesize_approx: Some(7),
    };
    let s = format_summary(raw);
    assert_eq!(s.resolution, "audio only");
    assert_eq!(s.filesize, Some(5));
    assert_eq!(s.codec_label, "AAC");
    assert!(!s.hdr);
}

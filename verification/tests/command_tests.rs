use aerodl::command::{
    aria2c_args, download_args, info_args, js_runtime_args, mux_args, out_template,
    subtitle_fetch_args, version_args,
};
use aerodl::options::DownloadOptions;

#[test]
fn version_and_info() {
    assert_eq!(version_args(), vec!["--version"]);
    let js = js_runtime_args(&Some(("node".to_string(), "/usr/bin/node".to_string())));
    assert_eq!(js, vec!["--js-runtimes", "node:/usr/bin/node"]);
    assert!(js_runtime_args(&None).is_empty());
    let cookies = vec!["--cookies".to_string(), "c.txt".to_string()];
    assert_eq!(
        info_args("https://x/y", &cookies, &js),
        vec!["-J", "--no-playlist", "--no-warnings", "--cookies", "c.txt", "--js-runtimes", "node:/usr/bin/node", "https://x/y"]
    );
}

#[test]
fn templates_and_aria2c() {
    assert_eq!(out_template("C:\\Downloads\\/"), "C:\\Downloads/%(title)s.%(ext)s");
    assert_eq!(out_template(""), "/%(title)s.%(ext)s");
    assert_eq!(
        aria2c_args("/bin/aria2c", 0),
        vec!["--downloader", "/bin/aria2c", "--downloader-args", "aria2c:-x1 -s1 -k1M --summary-interval=1 --console-log-level=warn"]
    );
    assert_eq!(aria2c_args("a", 16)[3], "aria2c:-x16 -s16 -k1M --summary-interval=1 --console-log-level=warn");
}

#[test]
fn full_download_command() {
    let mut o = DownloadOptions::default();
    o.embed_thumbnail = true;
    let a = download_args(
        "URL",
        "bv*+ba",
        "/out/",
        &vec![],
        &aria2c_args("aria2c", 4),
        &vec![],
        &o,
        &Some("/usr/bin/ffmpeg".to_string()),
    );
    assert_eq!(&a[0..4], &["-f", "bv*+ba", "-o", "/out/%(title)s.%(ext)s"]);
    assert_eq!(a[13], "--progress-template");
    assert_eq!(a[14], "download:AERODL|%(progress._percent_str)s|%(progress._speed_str)s|%(progress._eta_str)s");
    assert_eq!(a[15], "--downloader");
    assert_eq!(a[19], "--embed-thumbnail");
    assert_eq!(&a[20..], &["--ffmpeg-location", "/usr/bin/ffmpeg", "URL"]);
}

#[test]
fn subtitle_and_mux() {
    let a = subtitle_fetch_args("U", "en", "/tmp/s", &vec![], &vec![]);
    assert_eq!(
        a,
        vec!["--skip-download", "--write-subs", "--write-auto-subs", "--sub-langs", "en", "--convert-subs", "srt", "--no-playlist", "--no-warnings", "-o", "subtitle:/tmp/s/sub.%(ext)s", "U"]
    );
    assert_eq!(
        mux_args("v.mkv", "b.ass", "v.bisub.mkv"),
        vec!["-y", "-i", "v.mkv", "-i", "b.ass", "-map", "0", "-map", "1", "-c", "copy", "-metadata:s:s:0", "title=双语字幕", "v.bisub.mkv"]
    );
}

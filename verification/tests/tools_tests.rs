use aerodl::tools::{
    backdrop_plan, bin, ffmpeg_entry_target, first_path_line, is_aria2c_entry, is_deno_entry,
    is_system_copy, js_runtime_choice, pick_copy, prefers_bundled, select_aria2c_asset, Backdrop,
    ProgressMeter, ReleaseAsset,
};

#[test]
fn binaries() {
    assert_eq!(bin("yt-dlp", true), "yt-dlp.exe");
    assert_eq!(bin("yt-dlp", false), "yt-dlp");
}

#[test]
fn which_output() {
    assert_eq!(first_path_line("C:\\bin\\ffmpeg.exe\r\nC:\\other\\ffmpeg.exe\r\n"), Some("C:\\bin\\ffmpeg.exe".to_string()));
    assert_eq!(first_path_line("/usr/bin/node\n"), Some("/usr/bin/node".to_string()));
    assert_eq!(first_path_line(""), None);
    assert_eq!(first_path_line("   \n/usr/bin/x"), None);
}

#[test]
fn archive_entries() {
    assert_eq!(ffmpeg_entry_target("ffmpeg-master/bin/ffmpeg.exe"), Some("ffmpeg.exe".to_string()));
    assert_eq!(ffmpeg_entry_target("ffmpeg-master\\bin\\ffprobe.exe"), Some("ffprobe.exe".to_string()));
    assert_eq!(ffmpeg_entry_target("ffmpeg-master/doc/ffmpeg.html"), None);
    assert!(is_aria2c_entry("aria2-1.37.0-win-64bit-build1\\aria2c.exe"));
    assert!(is_aria2c_entry("aria2c.exe"));
    assert!(!is_aria2c_entry("xaria2c.exe"));
    assert!(is_deno_entry("deno"));
    assert!(is_deno_entry("dir/deno.exe"));
    assert!(!is_deno_entry("denox"));
}

#[test]
fn release_assets() {
    let asset = |n: Option<&str>, u: Option<&str>| ReleaseAsset {
        name: n.map(|s| s.to_string()),
        download_url: u.map(|s| s.to_string()),
    };
    assert_eq!(select_aria2c_asset(&None), Err("release 无 assets 字段".to_string()));
    let list = vec![asset(None, Some("x")), asset(Some("aria2-win-32bit.zip"), Some("u32")), asset(Some("aria2-win-64bit.zip"), Some("u64"))];
    assert_eq!(select_aria2c_asset(&Some(list)), Ok("u64".to_string()));
    let no_url = vec![asset(Some("aria2-win-64bit.zip"), None), asset(Some("aria2-win-64bit-2.zip"), Some("u"))];
    assert_eq!(select_aria2c_asset(&Some(no_url)), Err("未找到 win-64bit 资源".to_string()));
    assert_eq!(select_aria2c_asset(&Some(vec![])), Err("未找到 win-64bit 资源".to_string()));
}

#[test]
fn progress_reports_changes_only() {
    let mut m = ProgressMeter::new(200);
    assert_eq!(m.advance(1), Some(0));
    assert_eq!(m.advance(1), Some(1));
    assert_eq!(m.advance(0), None);
    assert_eq!(m.advance(198), Some(100));
    let mut u = ProgressMeter::new(0);
    assert_eq!(u.advance(5), Some(0));
    assert_eq!(u.advance(5), None);
}

#[test]
fn backdrops() {
    assert!(matches!(backdrop_plan("mica", false), Ok(Backdrop::Mica)));
    assert!(matches!(backdrop_plan("acrylic", true), Ok(Backdrop::Acrylic(10, 12, 18, 95))));
    assert!(matches!(backdrop_plan("acrylic", false), Ok(Backdrop::Acrylic(250, 250, 252, 95))));
    assert!(matches!(backdrop_plan("aero", true), Ok(Backdrop::Acrylic(224, 235, 252, 120))));
    assert!(matches!(backdrop_plan("none", true), Ok(Backdrop::Plain)));
    match backdrop_plan("glass", false) {
        Err(e) => assert_eq!(e, "未知的背景材质: glass"),
        Ok(_) => panic!("expected an error"),
    }
}

#[test]
fn tool_copies() {
    assert!(prefers_bundled("yt-dlp"));
    assert!(!prefers_bundled("ffmpeg"));
    assert_eq!(pick_copy(Some("/a".to_string()), Some("/b".to_string())), Some("/a".to_string()));
    assert_eq!(pick_copy(None, Some("/b".to_string())), Some("/b".to_string()));
    assert_eq!(pick_copy(None, None), None);
    assert_eq!(
        js_runtime_choice(Some("/n".to_string()), Some("/d".to_string())),
        Some(("node".to_string(), "/n".to_string()))
    );
    assert_eq!(js_runtime_choice(None, Some("/d".to_string())), Some(("deno".to_string(), "/d".to_string())));
    assert_eq!(js_runtime_choice(None, None), None);
    assert!(is_system_copy("/usr/bin/yt-dlp", &Some("/data/tools/yt-dlp".to_string())));
    assert!(!is_system_copy("/data/tools/yt-dlp", &Some("/data/tools/yt-dlp".to_string())));
    assert!(is_system_copy("/usr/bin/yt-dlp", &None));
}

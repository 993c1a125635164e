use aerodl::options::{build_option_args, DownloadOptions};

fn args(o: &DownloadOptions) -> Vec<String> {
    build_option_args(o)
}

#[test]
fn default_options_give_no_arguments() {
    let o = DownloadOptions::default();
    assert!(args(&o).is_empty());
    assert!(!o.bilingual_on());
}

#[test]
fn embedded_subtitles_default_to_english_in_mkv() {
    let mut o = DownloadOptions::default();
    o.embed_subs = true;
    assert_eq!(args(&o), vec!["--embed-subs", "--sub-langs", "en", "--merge-output-format", "mkv"]);
    o.auto_subs = true;
    o.sub_langs = "  zh-Hans,en ".to_string();
    o.recode_mp4 = true;
    assert_eq!(
        args(&o),
        vec!["--embed-subs", "--write-auto-subs", "--sub-langs", "zh-Hans,en", "--recode-video", "mp4"]
    );
}

#[test]
fn bilingual_needs_both_languages() {
    let mut o = DownloadOptions::default();
    o.bilingual = true;
    o.bi_main = "en".to_string();
    o.bi_secondary = "  ".to_string();
    assert!(!o.bilingual_on());
    o.bi_secondary = "zh".to_string();
    assert!(o.bilingual_on());
    o.embed_subs = true;
    o.recode_mp4 = true;
    assert_eq!(args(&o), vec!["--merge-output-format", "mkv"]);
}

#[test]
fn metadata_and_everything_else() {
    let mut o = DownloadOptions::default();
    o.embed_thumbnail = true;
    o.embed_chapters = true;
    o.custom_title = " My Title ".to_string();
    o.custom_artist = "Me".to_string();
    o.live_from_start = true;
    o.sponsorblock = true;
    o.extra = "  --limit-rate 1M\t--no-part ".to_string();
    assert_eq!(
        args(&o),
        vec![
            "--embed-thumbnail",
            "--embed-chapters",
            "--parse-metadata",
            "My Title:%(meta_title)s",
            "--parse-metadata",
            "Me:%(meta_artist)s",
            "--embed-metadata",
            "--live-from-start",
            "--sponsorblock-remove",
            "all",
            "--limit-rate",
            "1M",
            "--no-part",
        ]
    );
}

#[test]
fn embed_metadata_alone() {
    let mut o = DownloadOptions::default();
    o.embed_metadata = true;
    assert_eq!(args(&o), vec!["--embed-metadata"]);
}

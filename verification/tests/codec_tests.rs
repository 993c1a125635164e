use aerodl::codec::{codec_label, family_from_lower, label_from_lower, reference_bitrate, video_family, VideoFamily};

#[test]
fn video_labels() {
    assert_eq!(codec_label("av01.0.08M.08", "none"), "AV1");
    assert_eq!(codec_label("hev1.1.6.L93.B0", ""), "HEVC");
    assert_eq!(codec_label("vp09.00.40.08", ""), "VP9");
    assert_eq!(codec_label("vp8", ""), "VP8");
    assert_eq!(codec_label("AVC1.64001F", "mp4a.40.2"), "H.264");
}

#[test]
fn audio_labels() {
    assert_eq!(codec_label("none", "opus"), "Opus");
    assert_eq!(codec_label("none", "mp4a.40.2"), "AAC");
    assert_eq!(codec_label("", "MP3"), "MP3");
    assert_eq!(codec_label("", "flac"), "FLAC");
    assert_eq!(codec_label("", "vorbis"), "Vorbis");
    assert_eq!(codec_label("", "ec-3"), "AC3");
    assert_eq!(codec_label("", "pcm_s16le"), "pcm_s16le");
    assert_eq!(codec_label("", "NONE"), "—");
    assert_eq!(codec_label("", ""), "—");
}

#[test]
fn families() {
    assert_eq!(video_family("H265"), VideoFamily::Hevc);
    assert_eq!(video_family("avc1"), VideoFamily::H264);
    assert_eq!(video_family("theora"), VideoFamily::Unknown);
}

#[test]
fn reference_bitrate_interpolates_by_height() {
    let kbps = |h: i64, hi: bool| {
        let (n, d) = reference_bitrate(h, hi);
        n as f64 / d as f64
    };
    assert_eq!(reference_bitrate(144, false), (170, 1));
    assert_eq!(reference_bitrate(-5, false), (170, 1));
    assert_eq!(kbps(720, false), 2200.0);
    assert_eq!(kbps(1080, false), 4500.0);
    assert_eq!(kbps(900, false), 3350.0);
    assert!(kbps(721, false) > 2200.0 && kbps(721, false) < 4500.0);
    assert_eq!(kbps(192, false), 300.0);
    assert_eq!(kbps(2160, false), 26000.0);
    assert_eq!(kbps(8000, false), 90000.0);
    assert_eq!(kbps(1080, true), 6750.0);
}

#[test]
fn lowered_codec_strings() {
    assert_eq!(family_from_lower("av01.0.08m.08"), VideoFamily::Av1);
    assert_eq!(family_from_lower("AV01"), VideoFamily::Unknown);
    assert_eq!(label_from_lower("none", "mp4a.40.2", "mp4a.40.2"), "AAC");
    assert_eq!(label_from_lower("none", "pcm", "PCM"), "PCM");
    assert_eq!(label_from_lower("none", "none", "NONE"), "—");
}

//! Friendly names for the codec strings that yt-dlp reports.

use vstd::prelude::*;
use crate::text::{
    chars_of, contains, contains_exec, lowercase, owned, starts_with, starts_with_exec,
    to_lowercase,
};

verus! {

/// The video codec families the library tells apart.
#[derive(PartialEq, Eq, Structural, Clone, Copy, Debug)]
pub enum VideoFamily {
    Av1,
    Hevc,
    Vp9,
    Vp8,
    H264,
    Unknown,
}

/// The family of a lower-cased video codec string.
pub open spec fn family_of_lower(v: Seq<char>) -> VideoFamily {
    if starts_with(v, "av01"@) || contains(v, "av1"@) {
        VideoFamily::Av1
    } else if starts_with(v, "hev"@) || starts_with(v, "hvc"@) || contains(v, "hevc"@) || contains(
        v,
        "h265"@,
    ) {
        VideoFamily::Hevc
    } else if starts_with(v, "vp9"@) || starts_with(v, "vp09"@) {
        VideoFamily::Vp9
    } else if starts_with(v, "vp8"@) || starts_with(v, "vp08"@) {
        VideoFamily::Vp8
    } else if starts_with(v, "avc"@) || contains(v, "h264"@) {
        VideoFamily::H264
    } else {
        VideoFamily::Unknown
    }
}

/// The family of a video codec string, compared without case.
pub open spec fn spec_video_family(vcodec: Seq<char>) -> VideoFamily {
    family_of_lower(lowercase(vcodec))
}

fn starts(v: &Vec<char>, p: &str) -> (b: bool)
    ensures
        b == starts_with(v@, p@),
{
    let pc = chars_of(p);
    starts_with_exec(v, &pc)
}

fn has(v: &Vec<char>, p: &str) -> (b: bool)
    ensures
        b == contains(v@, p@),
{
    let pc = chars_of(p);
    contains_exec(v, &pc)
}

/// The family of an already lower-cased video codec string.
pub fn family_from_lower(lower: &str) -> (f: VideoFamily)
    ensures
        f == family_of_lower(lower@),
{
    let v = chars_of(lower);
    if starts(&v, "av01") || has(&v, "av1") {
        VideoFamily::Av1
    } else if starts(&v, "hev") || starts(&v, "hvc") || has(&v, "hevc") || has(&v, "h265") {
        VideoFamily::Hevc
    } else if starts(&v, "vp9") || starts(&v, "vp09") {
        VideoFamily::Vp9
    } else if starts(&v, "vp8") || starts(&v, "vp08") {
        VideoFamily::Vp8
    } else if starts(&v, "avc") || has(&v, "h264") {
        VideoFamily::H264
    } else {
        VideoFamily::Unknown
    }
}

/// The family of a video codec string ("av01.0.08M.08" is AV1, "avc1.64001F"
/// is H.264, and so on), compared without case.
pub fn video_family(vcodec: &str) -> (f: VideoFamily)
    ensures
        f == spec_video_family(vcodec@),
{
    let lower = to_lowercase(vcodec);
    family_from_lower(lower.as_str())
}

/// The label of an audio codec from its lower-cased string `a`; `acodec` is
/// the string as reported.
pub open spec fn audio_label(a: Seq<char>, acodec: Seq<char>) -> Seq<char> {
    if contains(a, "opus"@) {
        "Opus"@
    } else if contains(a, "mp4a"@) || contains(a, "aac"@) {
        "AAC"@
    } else if contains(a, "mp3"@) {
        "MP3"@
    } else if contains(a, "flac"@) {
        "FLAC"@
    } else if contains(a, "vorbis"@) {
        "Vorbis"@
    } else if contains(a, "ac-3"@) || contains(a, "eac-3"@) || contains(a, "ec-3"@) {
        "AC3"@
    } else if a.len() != 0 && a != "none"@ {
        acodec
    } else {
        "—"@
    }
}

/// The label for a lower-cased video codec `v`, a lower-cased audio codec `a`,
/// and the audio codec as reported: the video family's name when there is
/// one, otherwise the audio codec's.
pub open spec fn label_of_lower(v: Seq<char>, a: Seq<char>, acodec: Seq<char>) -> Seq<char> {
    match family_of_lower(v) {
        VideoFamily::Av1 => "AV1"@,
        VideoFamily::Hevc => "HEVC"@,
        VideoFamily::Vp9 => "VP9"@,
        VideoFamily::Vp8 => "VP8"@,
        VideoFamily::H264 => "H.264"@,
        VideoFamily::Unknown => audio_label(a, acodec),
    }
}

/// What `codec_label` returns: the label of the lower-cased codec strings.
pub open spec fn spec_codec_label(vcodec: Seq<char>, acodec: Seq<char>) -> Seq<char> {
    label_of_lower(lowercase(vcodec), lowercase(acodec), acodec)
}

/// The codec label from already lower-cased codec strings (`acodec` is the
/// audio codec as reported, returned as the label of an unknown audio codec).
pub fn label_from_lower(v_lower: &str, a_lower: &str, acodec: &str) -> (r: String)
    ensures
        r@ == label_of_lower(v_lower@, a_lower@, acodec@),
{
    match family_from_lower(v_lower) {
        VideoFamily::Av1 => owned("AV1"),
        VideoFamily::Hevc => owned("HEVC"),
        VideoFamily::Vp9 => owned("VP9"),
        VideoFamily::Vp8 => owned("VP8"),
        VideoFamily::H264 => owned("H.264"),
        VideoFamily::Unknown => {
            let a = chars_of(a_lower);
            if has(&a, "opus") {
                owned("Opus")
            } else if has(&a, "mp4a") || has(&a, "aac") {
                owned("AAC")
            } else if has(&a, "mp3") {
                owned("MP3")
            } else if has(&a, "flac") {
                owned("FLAC")
            } else if has(&a, "vorbis") {
                owned("Vorbis")
            } else if has(&a, "ac-3") || has(&a, "eac-3") || has(&a, "ec-3") {
                owned("AC3")
            } else if a.len() != 0 && owned(a_lower) != owned("none") {
                owned(acodec)
            } else {
                owned("—")
            }
        },
    }
}

/// A friendly codec name: AV1 / HEVC / VP9 / VP8 / H.264 for video, otherwise
/// Opus / AAC / MP3 / FLAC / Vorbis / AC3 for audio, otherwise the audio codec
/// string as given, or "—" when there is none. Codec strings are compared
/// without case.
pub fn codec_label(vcodec: &str, acodec: &str) -> (r: String)
    ensures
        r@ == spec_codec_label(vcodec@, acodec@),
{
    let v = to_lowercase(vcodec);
    let a = to_lowercase(acodec);
    label_from_lower(v.as_str(), a.as_str(), acodec)
}

// ---------------------------------------------------------------------------
// Reference bitrate
// ---------------------------------------------------------------------------

/// The straight line through (h0, b0) and (h1, b1) at height `h`, as a
/// fraction (numerator, denominator): b0 + (b1 - b0) * (h - h0) / (h1 - h0).
pub open spec fn interp(h0: int, b0: int, h1: int, b1: int, h: int) -> (int, int) {
    (b0 * (h1 - h0) + (b1 - b0) * (h - h0), h1 - h0)
}

/// The ladder segment a height falls in, as (h0, b0, h1, b1): the points of
/// the high-quality H.264 bitrates (kbps) at 144, 240, 360, 480, 720, 1080,
/// 1440, 2160 and 4320 lines, calibrated to YouTube's high-quality rates.
/// Heights up to 144 use the first point alone, heights above 4320 the last.
pub open spec fn ladder_segment(height: int) -> (int, int, int, int) {
    if height <= 144 {
        (144, 170, 144, 170)
    } else if height <= 240 {
        (144, 170, 240, 430)
    } else if height <= 360 {
        (240, 430, 360, 850)
    } else if height <= 480 {
        (360, 850, 480, 1400)
    } else if height <= 720 {
        (480, 1400, 720, 2200)
    } else if height <= 1080 {
        (720, 2200, 1080, 4500)
    } else if height <= 1440 {
        (1080, 4500, 1440, 13000)
    } else if height <= 2160 {
        (1440, 13000, 2160, 26000)
    } else if height <= 4320 {
        (2160, 26000, 4320, 90000)
    } else {
        (4320, 90000, 4320, 90000)
    }
}

/// The H.264 bitrate (kbps) of high quality at a height, as a fraction: the
/// ladder interpolated by height (the end points below 144 and above 4320
/// lines), and half as much again at high frame rates (above 35 fps).
pub open spec fn spec_reference_bitrate(height: int, high_fps: bool) -> (int, int) {
    let (h0, b0, h1, b1) = ladder_segment(height);
    let (n, d) = if h0 == h1 {
        (b0, 1)
    } else {
        interp(h0, b0, h1, b1, height)
    };
    if high_fps {
        (n * 3, d * 2)
    } else {
        (n, d)
    }
}

/// The reference bitrate (kbps) at which a stream of this height counts as
/// high quality, as (numerator, denominator): the bitrate ladder
/// interpolated by height, raised by half for high frame rates.
pub fn reference_bitrate(height: i64, high_fps: bool) -> (r: (u64, u64))
    ensures
        r.1 > 0,
        (r.0 as int, r.1 as int) == spec_reference_bitrate(height as int, high_fps),
{
    let (h0, b0, h1, b1): (i64, u64, i64, u64) = if height <= 144 {
        (144, 170, 144, 170)
    } else if height <= 240 {
        (144, 170, 240, 430)
    } else if height <= 360 {
        (240, 430, 360, 850)
    } else if height <= 480 {
        (360, 850, 480, 1400)
    } else if height <= 720 {
        (480, 1400, 720, 2200)
    } else if height <= 1080 {
        (720, 2200, 1080, 4500)
    } else if height <= 1440 {
        (1080, 4500, 1440, 13000)
    } else if height <= 2160 {
        (1440, 13000, 2160, 26000)
    } else if height <= 4320 {
        (2160, 26000, 4320, 90000)
    } else {
        (4320, 90000, 4320, 90000)
    };
    let (n, d): (u64, u64) = if h0 == h1 {
        (b0, 1)
    } else {
        let span = (h1 - h0) as u64;
        let up = (height - h0) as u64;
        assert(up <= span);
        assert(b0 * span <= 26000 * 2160) by (nonlinear_arith)
            requires
                b0 <= 26000,
                span <= 2160,
        ;
        assert((b1 - b0) * up <= 64000 * 2160) by (nonlinear_arith)
            requires
                b1 - b0 <= 64000,
                up <= span,
                span <= 2160,
                b0 <= b1,
        ;
        (b0 * span + (b1 - b0) * up, span)
    };
    if high_fps {
        (n * 3, d * 2)
    } else {
        (n, d)
    }
}

/// Between two points of the ladder the reference rate lies on the straight
/// line between them: at a point it is that point's rate, strictly between
/// two points it is strictly between their rates; outside the ladder it is
/// the rate of the nearer end.
pub proof fn law_ladder_interpolates(height: int)
    ensures
        ({
            let (h0, b0, h1, b1) = ladder_segment(height);
            let (n, d) = spec_reference_bitrate(height, false);
            &&& d > 0
            &&& height <= 144 ==> n == 170 * d
            &&& height >= 4320 ==> n == 90000 * d
            &&& (h0 < height <= h1) ==> n == b0 * d + (b1 - b0) * (height - h0)
            &&& (h0 < height < h1) ==> b0 * d < n < b1 * d
            &&& (h0 < h1 && height == h1) ==> n == b1 * d
        }),
{
    let (h0, b0, h1, b1) = ladder_segment(height);
    if h0 < height && height < h1 {
        assert(b0 < b1);
        assert((b1 - b0) * (height - h0) > 0) by (nonlinear_arith)
            requires
                b0 < b1,
                h0 < height,
        ;
        assert((b1 - b0) * (height - h0) < (b1 - b0) * (h1 - h0)) by (nonlinear_arith)
            requires
                b0 < b1,
                height < h1,
        ;
        assert(b0 * (h1 - h0) + (b1 - b0) * (h1 - h0) == b1 * (h1 - h0)) by (nonlinear_arith);
    }
    if h0 < h1 && height == h1 {
        assert(b0 * (h1 - h0) + (b1 - b0) * (h1 - h0) == b1 * (h1 - h0)) by (nonlinear_arith);
    }
}

/// A string starting with "vp" starts with none of "av01", "hev", "hvc", "avc".
proof fn lemma_vp_prefix(v: Seq<char>)
    requires
        v.len() >= 2,
        v[0] == 'v',
        v[1] == 'p',
    ensures
        !starts_with(v, "av01"@),
        !starts_with(v, "hev"@),
        !starts_with(v, "hvc"@),
        !starts_with(v, "avc"@),
{
    reveal_strlit("av01");
    reveal_strlit("hev");
    reveal_strlit("hvc");
    reveal_strlit("avc");
    if starts_with(v, "av01"@) {
        assert(v.take(4)[0] == v[0]);
    }
    if starts_with(v, "hev"@) {
        assert(v.take(3)[0] == v[0]);
    }
    if starts_with(v, "hvc"@) {
        assert(v.take(3)[0] == v[0]);
    }
    if starts_with(v, "avc"@) {
        assert(v.take(3)[0] == v[0]);
    }
}

/// The video families by the (lower-cased) codec string, earlier families
/// winning: AV1 for "av01…" or any "av1"; HEVC for "hev…", "hvc…", or any
/// "hevc" or "h265"; VP9 for "vp9…" or "vp09…"; VP8 for "vp8…" or "vp08…";
/// H.264 for "avc…" or any "h264"; otherwise none. Each family is labelled
/// by its name, whatever the audio codec.
pub proof fn law_video_families(v: Seq<char>, a: Seq<char>, acodec: Seq<char>)
    ensures
        starts_with(v, "av01"@) || contains(v, "av1"@) ==> family_of_lower(v) == VideoFamily::Av1
            && label_of_lower(v, a, acodec) == "AV1"@,
        !starts_with(v, "av01"@) && !contains(v, "av1"@) && (starts_with(v, "hev"@) || starts_with(v, "hvc"@) || contains(v, "hevc"@)
            || contains(v, "h265"@)) ==> family_of_lower(v) == VideoFamily::Hevc && label_of_lower(v, a, acodec)
            == "HEVC"@,
        !contains(v, "av1"@) && !contains(v, "hevc"@) && !contains(v, "h265"@) && (starts_with(v, "vp9"@)
            || starts_with(v, "vp09"@)) ==> family_of_lower(v) == VideoFamily::Vp9 && label_of_lower(
            v,
            a,
            acodec,
        ) == "VP9"@,
        !contains(v, "av1"@) && !contains(v, "hevc"@) && !contains(v, "h265"@) && (starts_with(v, "vp8"@)
            || starts_with(v, "vp08"@)) ==> family_of_lower(v) == VideoFamily::Vp8 && label_of_lower(
            v,
            a,
            acodec,
        ) == "VP8"@,
        !contains(v, "av1"@) && !contains(v, "hevc"@) && !contains(v, "h265"@) && starts_with(v, "avc"@)
            ==> family_of_lower(v) == VideoFamily::H264 && label_of_lower(v, a, acodec) == "H.264"@,
        !starts_with(v, "av01"@) && !contains(v, "av1"@) && !starts_with(v, "hev"@) && !starts_with(v, "hvc"@)
            && !contains(v, "hevc"@) && !contains(v, "h265"@) && !starts_with(v, "vp9"@) && !starts_with(
            v,
            "vp09"@,
        ) && !starts_with(v, "vp8"@) && !starts_with(v, "vp08"@) && !starts_with(v, "avc"@) && !contains(
            v,
            "h264"@,
        ) ==> family_of_lower(v) == VideoFamily::Unknown && label_of_lower(v, a, acodec) == audio_label(
            a,
            acodec,
        ),
{
    reveal_strlit("vp9");
    reveal_strlit("vp09");
    reveal_strlit("vp8");
    reveal_strlit("vp08");
    reveal_strlit("avc");
    reveal_strlit("av01");
    reveal_strlit("hev");
    reveal_strlit("hvc");
    if starts_with(v, "vp9"@) || starts_with(v, "vp09"@) || starts_with(v, "vp8"@) || starts_with(v, "vp08"@) {
        assert(v[0] == v.take(3)[0]);
        assert(v[1] == v.take(3)[1]);
        lemma_vp_prefix(v);
        if starts_with(v, "vp8"@) || starts_with(v, "vp08"@) {
            assert(v.take(3)[2] == v[2]);
            if starts_with(v, "vp08"@) {
                assert(v.take(4)[3] == v[3]);
                assert(v.take(4)[2] == v[2]);
            }
            assert(!starts_with(v, "vp9"@));
            assert(!starts_with(v, "vp09"@));
        }
    }
    if starts_with(v, "avc"@) {
        assert(v.take(3)[2] == v[2]);
        assert(v.take(3)[0] == v[0]);
        assert(!starts_with(v, "av01"@)) by {
            if starts_with(v, "av01"@) {
                assert(v.take(4)[2] == v[2]);
            }
        }
        assert(!starts_with(v, "hev"@));
        assert(!starts_with(v, "hvc"@));
        assert(!starts_with(v, "vp9"@));
        assert(!starts_with(v, "vp09"@));
        assert(!starts_with(v, "vp8"@));
        assert(!starts_with(v, "vp08"@));
    }
}

/// The audio labels by the (lower-cased) audio codec string `a`, earlier ones
/// winning: Opus, AAC ("mp4a" or "aac"), MP3, FLAC, Vorbis, AC3 ("ac-3",
/// "eac-3" or "ec-3"); any other non-empty string but "none" is shown as
/// reported, and no audio codec as "—". Without a video family, the codec
/// label is the audio label.
pub proof fn law_audio_labels(v: Seq<char>, a: Seq<char>, acodec: Seq<char>)
    requires
        family_of_lower(v) == VideoFamily::Unknown,
    ensures
        contains(a, "opus"@) ==> label_of_lower(v, a, acodec) == "Opus"@,
        !contains(a, "opus"@) && (contains(a, "mp4a"@) || contains(a, "aac"@)) ==> label_of_lower(v, a, acodec)
            == "AAC"@,
        !contains(a, "opus"@) && !contains(a, "mp4a"@) && !contains(a, "aac"@) && contains(a, "mp3"@)
            ==> label_of_lower(v, a, acodec) == "MP3"@,
        !contains(a, "opus"@) && !contains(a, "mp4a"@) && !contains(a, "aac"@) && !contains(a, "mp3"@)
            && contains(a, "flac"@) ==> label_of_lower(v, a, acodec) == "FLAC"@,
        !contains(a, "opus"@) && !contains(a, "mp4a"@) && !contains(a, "aac"@) && !contains(a, "mp3"@)
            && !contains(a, "flac"@) && contains(a, "vorbis"@) ==> label_of_lower(v, a, acodec) == "Vorbis"@,
        !contains(a, "opus"@) && !contains(a, "mp4a"@) && !contains(a, "aac"@) && !contains(a, "mp3"@)
            && !contains(a, "flac"@) && !contains(a, "vorbis"@) && (contains(a, "ac-3"@) || contains(
            a,
            "eac-3"@,
        ) || contains(a, "ec-3"@)) ==> label_of_lower(v, a, acodec) == "AC3"@,
        !contains(a, "opus"@) && !contains(a, "mp4a"@) && !contains(a, "aac"@) && !contains(a, "mp3"@)
            && !contains(a, "flac"@) && !contains(a, "vorbis"@) && !contains(a, "ac-3"@) && !contains(
            a,
            "eac-3"@,
        ) && !contains(a, "ec-3"@) ==> label_of_lower(v, a, acodec) == (if a.len() == 0 || a == "none"@ {
            "—"@
        } else {
            acodec
        }),
{
}

} // verus!

//! The command lines handed to yt-dlp and ffmpeg.

use vstd::prelude::*;
use crate::text::{
    chars_of, copy_range, owned, push_decimal, push_str, string_of, string_views, decimal,
};
use crate::options::{DownloadOptions, build_option_args, spec_option_args};

verus! {

/// Appends one argument.
fn push_arg(a: &mut Vec<String>, s: &str)
    ensures
        string_views(final(a)@) == string_views(old(a)@).push(s@),
{
    let ghost before = string_views(a@);
    a.push(owned(s));
    assert(string_views(a@) =~= before.push(s@));
}

/// Appends an owned argument.
fn push_owned(a: &mut Vec<String>, s: String)
    ensures
        string_views(final(a)@) == string_views(old(a)@).push(s@),
{
    let ghost before = string_views(a@);
    let ghost sv = s@;
    a.push(s);
    assert(string_views(a@) =~= before.push(sv));
}

/// Appends copies of the arguments `b`.
fn extend_args(a: &mut Vec<String>, b: &Vec<String>)
    ensures
        string_views(final(a)@) == string_views(old(a)@) + string_views(b@),
{
    let n = b.len();
    let mut i: usize = 0;
    while i < n
        invariant
            i <= n,
            n == b@.len(),
            string_views(a@) == string_views(old(a)@) + string_views(b@.take(i as int)),
        decreases n - i,
    {
        let ghost before = string_views(a@);
        let c = b[i].clone();
        assert(c@ == b@[i as int]@);
        a.push(c);
        assert(string_views(a@) =~= before.push(b@[i as int]@));
        i = i + 1;
        assert(string_views(b@.take(i as int)) =~= string_views(b@.take((i - 1) as int)).push(
            b@[i - 1]@,
        ));
        assert(string_views(a@) =~= string_views(old(a)@) + string_views(b@.take(i as int)));
    }
    assert(b@.take(n as int) =~= b@);
}

/// The arguments naming the JavaScript runtime (name and path) yt-dlp uses.
pub open spec fn spec_js_runtime_args(rt: Option<(Seq<char>, Seq<char>)>) -> Seq<Seq<char>> {
    match rt {
        Some((name, path)) => seq!["--js-runtimes"@, name + ":"@ + path],
        None => Seq::empty(),
    }
}

/// The view of an optional pair of strings.
pub open spec fn pair_view(rt: Option<(String, String)>) -> Option<(Seq<char>, Seq<char>)> {
    match rt {
        Some((a, b)) => Some((a@, b@)),
        None => None,
    }
}

/// The arguments naming the JavaScript runtime yt-dlp uses to solve
/// signatures, when one was found.
pub fn js_runtime_args(rt: &Option<(String, String)>) -> (a: Vec<String>)
    ensures
        string_views(a@) == spec_js_runtime_args(pair_view(*rt)),
{
    let mut a: Vec<String> = Vec::new();
    match rt {
        Some((name, path)) => {
            push_arg(&mut a, "--js-runtimes");
            let mut v = owned(name.as_str());
            push_str(&mut v, ":");
            push_str(&mut v, path.as_str());
            push_owned(&mut a, v);
        },
        None => {},
    }
    assert(string_views(a@) =~= spec_js_runtime_args(pair_view(*rt)));
    a
}

/// yt-dlp's arguments to print its version.
pub fn version_args() -> (a: Vec<String>)
    ensures
        string_views(a@) == seq!["--version"@],
{
    let mut a: Vec<String> = Vec::new();
    push_arg(&mut a, "--version");
    assert(string_views(a@) =~= seq!["--version"@]);
    a
}

/// What `info_args` returns.
pub open spec fn spec_info_args(url: Seq<char>, cookies: Seq<Seq<char>>, js: Seq<Seq<char>>) -> Seq<
    Seq<char>,
> {
    seq!["-J"@, "--no-playlist"@, "--no-warnings"@] + cookies + js + seq![url]
}

/// yt-dlp's arguments to print a link's information as JSON.
pub fn info_args(url: &str, cookies: &Vec<String>, js: &Vec<String>) -> (a: Vec<String>)
    ensures
        string_views(a@) == spec_info_args(url@, string_views(cookies@), string_views(js@)),
{
    let mut a: Vec<String> = Vec::new();
    push_arg(&mut a, "-J");
    push_arg(&mut a, "--no-playlist");
    push_arg(&mut a, "--no-warnings");
    extend_args(&mut a, cookies);
    extend_args(&mut a, js);
    push_arg(&mut a, url);
    assert(string_views(a@) =~= spec_info_args(url@, string_views(cookies@), string_views(js@)));
    a
}

/// `s` without its trailing '/' and '\\' characters.
pub open spec fn strip_separators(s: Seq<char>) -> Seq<char>
    decreases s.len(),
{
    if s.len() > 0 && (s.last() == '/' || s.last() == '\\') {
        strip_separators(s.drop_last())
    } else {
        s
    }
}

/// The output template: the directory without trailing separators, then
/// "/%(title)s.%(ext)s".
pub open spec fn spec_out_template(out_dir: Seq<char>) -> Seq<char> {
    strip_separators(out_dir) + "/%(title)s.%(ext)s"@
}

/// The output file template for a download directory.
pub fn out_template(out_dir: &str) -> (r: String)
    ensures
        r@ == spec_out_template(out_dir@),
{
    let v = chars_of(out_dir);
    let mut b = v.len();
    assert(v@.take(b as int) =~= v@);
    while b > 0 && (v[b - 1] == '/' || v[b - 1] == '\\')
        invariant
            b <= v@.len(),
            strip_separators(v@.take(b as int)) == strip_separators(v@),
        decreases b,
    {
        assert(v@.take(b as int).drop_last() =~= v@.take(b - 1));
        b = b - 1;
    }
    let mut r = string_of(&copy_range(&v, 0, b));
    push_str(&mut r, "/%(title)s.%(ext)s");
    r
}

/// The arguments that make aria2c the downloader, with `conns` connections
/// (at least one).
pub open spec fn spec_aria2c_args(path: Seq<char>, conns: u32) -> Seq<Seq<char>> {
    let c = decimal((if conns < 1 {
        1
    } else {
        conns
    }) as nat);
    seq![
        "--downloader"@,
        path,
        "--downloader-args"@,
        "aria2c:-x"@ + c + " -s"@ + c + " -k1M --summary-interval=1 --console-log-level=warn"@,
    ]
}

/// The arguments that make aria2c the downloader.
pub fn aria2c_args(path: &str, conns: u32) -> (a: Vec<String>)
    ensures
        string_views(a@) == spec_aria2c_args(path@, conns),
{
    let c: u64 = if conns < 1 {
        1
    } else {
        conns as u64
    };
    let mut a: Vec<String> = Vec::new();
    push_arg(&mut a, "--downloader");
    push_arg(&mut a, path);
    push_arg(&mut a, "--downloader-args");
    let mut v = owned("aria2c:-x");
    push_decimal(&mut v, c);
    push_str(&mut v, " -s");
    push_decimal(&mut v, c);
    push_str(&mut v, " -k1M --summary-interval=1 --console-log-level=warn");
    push_owned(&mut a, v);
    assert(string_views(a@) =~= spec_aria2c_args(path@, conns));
    a
}

/// The fixed arguments of a download: format, output template, no playlists,
/// one progress line per update, chunked HTTP with retries, and the
/// machine-readable progress template.
pub open spec fn download_base_args(format: Seq<char>, template: Seq<char>) -> Seq<Seq<char>> {
    seq![
        "-f"@,
        format,
        "-o"@,
        template,
        "--no-playlist"@,
        "--newline"@,
        "--no-warnings"@,
        "--http-chunk-size"@,
        "10M"@,
        "--retries"@,
        "10"@,
        "--fragment-retries"@,
        "10"@,
        "--progress-template"@,
        "download:AERODL|%(progress._percent_str)s|%(progress._speed_str)s|%(progress._eta_str)s"@,
    ]
}

/// The ffmpeg location arguments, when ffmpeg was found.
pub open spec fn spec_ffmpeg_args(ffmpeg: Option<Seq<char>>) -> Seq<Seq<char>> {
    match ffmpeg {
        Some(p) => seq!["--ffmpeg-location"@, p],
        None => Seq::empty(),
    }
}

/// What `download_args` returns.
pub open spec fn spec_download_args(
    url: Seq<char>,
    format: Seq<char>,
    out_dir: Seq<char>,
    cookies: Seq<Seq<char>>,
    aria2c: Seq<Seq<char>>,
    js: Seq<Seq<char>>,
    o: &DownloadOptions,
    ffmpeg: Option<Seq<char>>,
) -> Seq<Seq<char>> {
    download_base_args(format, spec_out_template(out_dir)) + cookies + aria2c + js
        + spec_option_args(o) + spec_ffmpeg_args(ffmpeg) + seq![url]
}

fn push_base_args(a: &mut Vec<String>, format: &str, template: String)
    ensures
        string_views(final(a)@) == string_views(old(a)@) + download_base_args(format@, template@),
{
    let ghost start = string_views(a@);
    let ghost t = template@;
    push_arg(a, "-f");
    push_arg(a, format);
    push_arg(a, "-o");
    push_owned(a, template);
    push_arg(a, "--no-playlist");
    push_arg(a, "--newline");
    push_arg(a, "--no-warnings");
    push_arg(a, "--http-chunk-size");
    push_arg(a, "10M");
    push_arg(a, "--retries");
    push_arg(a, "10");
    push_arg(a, "--fragment-retries");
    push_arg(a, "10");
    push_arg(a, "--progress-template");
    push_arg(
        a,
        "download:AERODL|%(progress._percent_str)s|%(progress._speed_str)s|%(progress._eta_str)s",
    );
    assert(string_views(a@) =~= start + download_base_args(format@, t));
}

/// yt-dlp's arguments for a download: the fixed ones, then cookies, aria2c
/// (`aria2c` holds its arguments when it downloads), the JavaScript runtime,
/// the download's options, ffmpeg's location, and the link.
pub fn download_args(
    url: &str,
    format: &str,
    out_dir: &str,
    cookies: &Vec<String>,
    aria2c: &Vec<String>,
    js: &Vec<String>,
    o: &DownloadOptions,
    ffmpeg: &Option<String>,
) -> (a: Vec<String>)
    ensures
        string_views(a@) == spec_download_args(
            url@,
            format@,
            out_dir@,
            string_views(cookies@),
            string_views(aria2c@),
            string_views(js@),
            o,
            crate::text::opt_view(*ffmpeg),
        ),
{
    let mut a: Vec<String> = Vec::new();
    let template = out_template(out_dir);
    push_base_args(&mut a, format, template);
    let ghost s1 = string_views(a@);
    extend_args(&mut a, cookies);
    extend_args(&mut a, aria2c);
    extend_args(&mut a, js);
    let ghost s2 = string_views(a@);
    let opts = build_option_args(o);
    extend_args(&mut a, &opts);
    let ghost s3 = string_views(a@);
    match ffmpeg {
        Some(p) => {
            push_arg(&mut a, "--ffmpeg-location");
            push_arg(&mut a, p.as_str());
        },
        None => {},
    }
    let ghost s4 = string_views(a@);
    assert(s4 =~= s3 + spec_ffmpeg_args(crate::text::opt_view(*ffmpeg)));
    push_arg(&mut a, url);
    assert(string_views(a@) =~= spec_download_args(
        url@,
        format@,
        out_dir@,
        string_views(cookies@),
        string_views(aria2c@),
        string_views(js@),
        o,
        crate::text::opt_view(*ffmpeg),
    ));
    a
}

/// What `subtitle_fetch_args` returns.
pub open spec fn spec_subtitle_fetch_args(
    url: Seq<char>,
    lang: Seq<char>,
    dir: Seq<char>,
    cookies: Seq<Seq<char>>,
    js: Seq<Seq<char>>,
) -> Seq<Seq<char>> {
    seq![
        "--skip-download"@,
        "--write-subs"@,
        "--write-auto-subs"@,
        "--sub-langs"@,
        lang,
        "--convert-subs"@,
        "srt"@,
        "--no-playlist"@,
        "--no-warnings"@,
        "-o"@,
        "subtitle:"@ + dir + "/sub.%(ext)s"@,
    ] + cookies + js + seq![url]
}

/// yt-dlp's arguments to fetch the subtitles of one language (written by
/// people, generated or translated) as SRT into `dir`, without the video.
pub fn subtitle_fetch_args(
    url: &str,
    lang: &str,
    dir: &str,
    cookies: &Vec<String>,
    js: &Vec<String>,
) -> (a: Vec<String>)
    ensures
        string_views(a@) == spec_subtitle_fetch_args(
            url@,
            lang@,
            dir@,
            string_views(cookies@),
            string_views(js@),
        ),
{
    let mut a: Vec<String> = Vec::new();
    push_arg(&mut a, "--skip-download");
    push_arg(&mut a, "--write-subs");
    push_arg(&mut a, "--write-auto-subs");
    push_arg(&mut a, "--sub-langs");
    push_arg(&mut a, lang);
    push_arg(&mut a, "--convert-subs");
    push_arg(&mut a, "srt");
    push_arg(&mut a, "--no-playlist");
    push_arg(&mut a, "--no-warnings");
    push_arg(&mut a, "-o");
    let mut t = owned("subtitle:");
    push_str(&mut t, dir);
    push_str(&mut t, "/sub.%(ext)s");
    push_owned(&mut a, t);
    extend_args(&mut a, cookies);
    extend_args(&mut a, js);
    push_arg(&mut a, url);
    assert(string_views(a@) =~= spec_subtitle_fetch_args(
        url@,
        lang@,
        dir@,
        string_views(cookies@),
        string_views(js@),
    ));
    a
}

/// What `mux_args` returns.
pub open spec fn spec_mux_args(video: Seq<char>, ass: Seq<char>, out: Seq<char>) -> Seq<Seq<char>> {
    seq![
        "-y"@,
        "-i"@,
        video,
        "-i"@,
        ass,
        "-map"@,
        "0"@,
        "-map"@,
        "1"@,
        "-c"@,
        "copy"@,
        "-metadata:s:s:0"@,
        "title=双语字幕"@,
        out,
    ]
}

/// ffmpeg's arguments to add the ASS file as a soft subtitle track to the
/// video, copying the picture and sound without re-encoding.
pub fn mux_args(video: &str, ass: &str, out: &str) -> (a: Vec<String>)
    ensures
        string_views(a@) == spec_mux_args(video@, ass@, out@),
{
    let mut a: Vec<String> = Vec::new();
    push_arg(&mut a, "-y");
    push_arg(&mut a, "-i");
    push_arg(&mut a, video);
    push_arg(&mut a, "-i");
    push_arg(&mut a, ass);
    push_arg(&mut a, "-map");
    push_arg(&mut a, "0");
    push_arg(&mut a, "-map");
    push_arg(&mut a, "1");
    push_arg(&mut a, "-c");
    push_arg(&mut a, "copy");
    push_arg(&mut a, "-metadata:s:s:0");
    push_arg(&mut a, "title=双语字幕");
    push_arg(&mut a, out);
    assert(string_views(a@) =~= spec_mux_args(video@, ass@, out@));
    a
}

/// The layout of a download command: the fixed arguments (format and output
/// template first), then the cookie arguments as given, the aria2c arguments,
/// the JavaScript runtime arguments, the download's option arguments, the
/// ffmpeg location when known, and the link last. Nothing given is dropped
/// or reordered.
pub proof fn law_download_args_layout(
    url: Seq<char>,
    format: Seq<char>,
    out_dir: Seq<char>,
    cookies: Seq<Seq<char>>,
    aria2c: Seq<Seq<char>>,
    js: Seq<Seq<char>>,
    o: &DownloadOptions,
    ffmpeg: Option<Seq<char>>,
)
    ensures
        ({
            let a = spec_download_args(url, format, out_dir, cookies, aria2c, js, o, ffmpeg);
            let opts = spec_option_args(o);
            let c = cookies.len() as int;
            let r = aria2c.len() as int;
            let j = js.len() as int;
            let q = opts.len() as int;
            let f: int = if ffmpeg is Some { 2 } else { 0 };
            &&& a.len() == 15 + c + r + j + q + f + 1
            &&& a[0] == "-f"@ && a[1] == format && a[2] == "-o"@ && a[3] == spec_out_template(out_dir)
            &&& a.take(15) == download_base_args(format, spec_out_template(out_dir))
            &&& a.subrange(15, 15 + c) == cookies
            &&& a.subrange(15 + c, 15 + c + r) == aria2c
            &&& a.subrange(15 + c + r, 15 + c + r + j) == js
            &&& a.subrange(15 + c + r + j, 15 + c + r + j + q) == opts
            &&& (ffmpeg matches Some(p) ==> a[a.len() - 3] == "--ffmpeg-location"@ && a[a.len() - 2] == p)
            &&& a.last() == url
        }),
{
    let a = spec_download_args(url, format, out_dir, cookies, aria2c, js, o, ffmpeg);
    let base = download_base_args(format, spec_out_template(out_dir));
    let opts = spec_option_args(o);
    let c = cookies.len() as int;
    let r = aria2c.len() as int;
    let j = js.len() as int;
    let q = opts.len() as int;
    assert(a.take(15) =~= base);
    assert(a.subrange(15, 15 + c) =~= cookies);
    assert(a.subrange(15 + c, 15 + c + r) =~= aria2c);
    assert(a.subrange(15 + c + r, 15 + c + r + j) =~= js);
    assert(a.subrange(15 + c + r + j, 15 + c + r + j + q) =~= opts);
}

/// The layout of an information query: "-J", no playlists, no warnings, then
/// the cookie arguments as given, the JavaScript runtime arguments, and the
/// link last.
pub proof fn law_info_args_layout(url: Seq<char>, cookies: Seq<Seq<char>>, js: Seq<Seq<char>>)
    ensures
        ({
            let a = spec_info_args(url, cookies, js);
            let c = cookies.len() as int;
            let j = js.len() as int;
            &&& a.len() == 3 + c + j + 1
            &&& a[0] == "-J"@ && a[1] == "--no-playlist"@ && a[2] == "--no-warnings"@
            &&& a.subrange(3, 3 + c) == cookies
            &&& a.subrange(3 + c, 3 + c + j) == js
            &&& a.last() == url
        }),
{
    let a = spec_info_args(url, cookies, js);
    let c = cookies.len() as int;
    let j = js.len() as int;
    assert(a.subrange(3, 3 + c) =~= cookies);
    assert(a.subrange(3 + c, 3 + c + j) =~= js);
}

/// The layout of a subtitle fetch: the language after "--sub-langs", the
/// output template into `dir`, then the cookie arguments as given, the
/// JavaScript runtime arguments, and the link last.
pub proof fn law_subtitle_fetch_args_layout(
    url: Seq<char>,
    lang: Seq<char>,
    dir: Seq<char>,
    cookies: Seq<Seq<char>>,
    js: Seq<Seq<char>>,
)
    ensures
        ({
            let a = spec_subtitle_fetch_args(url, lang, dir, cookies, js);
            let c = cookies.len() as int;
            let j = js.len() as int;
            &&& a.len() == 11 + c + j + 1
            &&& a[0] == "--skip-download"@
            &&& a[3] == "--sub-langs"@ && a[4] == lang
            &&& a[9] == "-o"@ && a[10] == "subtitle:"@ + dir + "/sub.%(ext)s"@
            &&& a.subrange(11, 11 + c) == cookies
            &&& a.subrange(11 + c, 11 + c + j) == js
            &&& a.last() == url
        }),
{
    let a = spec_subtitle_fetch_args(url, lang, dir, cookies, js);
    let c = cookies.len() as int;
    let j = js.len() as int;
    assert(a.subrange(11, 11 + c) =~= cookies);
    assert(a.subrange(11 + c, 11 + c + j) =~= js);
}

} // verus!

//! Application settings (kept as settings.json by the application) and the
//! day of the last automatic update.

use vstd::prelude::*;
use crate::text::{
    all_digits, chars_of, digits_u64, digits_value, decimal, is_blank, owned, push_str,
    signed_decimal, push_signed_decimal, string_of, string_views, trim, trim_chars,
    lemma_trim_shape, is_ws, digit_char, is_digit, opt_view, lemma_decimal_digits,
};

verus! {

/// The user's settings.
pub struct Settings {
    /// The most downloads that run at once (applies after a restart).
    pub max_concurrent: usize,
    /// Where cookies come from: "none" | "file" | "browser".
    pub cookies_mode: String,
    /// The cookies.txt path (for "file").
    pub cookies_file: String,
    /// The browser to read cookies from (for "browser"): edge|chrome|firefox|brave|...
    pub cookies_browser: String,
    /// Whether aria2c downloads.
    pub use_aria2c: bool,
    /// aria2c's connections per download.
    pub aria2c_connections: u32,
}

impl Default for Settings {
    fn default() -> (s: Self)
        ensures
            s.max_concurrent == 3,
            s.cookies_mode@ == "none"@,
            s.cookies_file@.len() == 0,
            s.cookies_browser@ == "edge"@,
            !s.use_aria2c,
            s.aria2c_connections == 16,
    {
        Settings {
            max_concurrent: 3,
            cookies_mode: owned("none"),
            cookies_file: String::new(),
            cookies_browser: owned("edge"),
            use_aria2c: false,
            aria2c_connections: 16,
        }
    }
}

/// The number of downloads allowed at once: the setting clamped to 1..=10.
pub open spec fn spec_concurrency(max: usize) -> usize {
    if max < 1 {
        1
    } else if max > 10 {
        10
    } else {
        max
    }
}

/// The number of downloads allowed at once, between 1 and 10.
pub fn concurrency_limit(cfg: &Settings) -> (n: usize)
    ensures
        n == spec_concurrency(cfg.max_concurrent),
        1 <= n <= 10,
{
    if cfg.max_concurrent < 1 {
        1
    } else if cfg.max_concurrent > 10 {
        10
    } else {
        cfg.max_concurrent
    }
}

/// The browser value for yt-dlp's --cookies-from-browser: yt-dlp has no
/// "operagx", so Opera GX is read with the opera engine from its profile
/// under APPDATA (plain "opera" when APPDATA is unknown).
pub open spec fn browser_value(b: Seq<char>, appdata: Option<Seq<char>>) -> Seq<char> {
    if b == "operagx"@ {
        match appdata {
            Some(a) => "opera:"@ + a + "\\Opera Software\\Opera GX Stable"@,
            None => "opera"@,
        }
    } else {
        b
    }
}

/// What `cookie_args` returns.
pub open spec fn spec_cookie_args(cfg: &Settings, appdata: Option<Seq<char>>) -> Seq<Seq<char>> {
    if cfg.cookies_mode@ == "file"@ && !is_blank(cfg.cookies_file@) {
        seq!["--cookies"@, trim(cfg.cookies_file@)]
    } else if cfg.cookies_mode@ == "browser"@ && !is_blank(cfg.cookies_browser@) {
        seq!["--cookies-from-browser"@, browser_value(trim(cfg.cookies_browser@), appdata)]
    } else {
        Seq::empty()
    }
}

/// The yt-dlp arguments that pass the configured cookies; `appdata` is the
/// APPDATA directory, where known.
pub fn cookie_args(cfg: &Settings, appdata: Option<String>) -> (a: Vec<String>)
    ensures
        string_views(a@) == spec_cookie_args(cfg, opt_view(appdata)),
{
    let ghost ad = opt_view(appdata);
    let mut a: Vec<String> = Vec::new();
    let file = trim_chars(&chars_of(cfg.cookies_file.as_str()));
    let browser = trim_chars(&chars_of(cfg.cookies_browser.as_str()));
    if cfg.cookies_mode == owned("file") && file.len() != 0 {
        a.push(owned("--cookies"));
        a.push(string_of(&file));
        assert(string_views(a@) =~= spec_cookie_args(cfg, ad));
    } else if cfg.cookies_mode == owned("browser") && browser.len() != 0 {
        let b = string_of(&browser);
        let value = if b == owned("operagx") {
            match appdata {
                Some(dir) => {
                    let mut v = owned("opera:");
                    push_str(&mut v, dir.as_str());
                    push_str(&mut v, "\\Opera Software\\Opera GX Stable");
                    v
                },
                None => owned("opera"),
            }
        } else {
            b
        };
        a.push(owned("--cookies-from-browser"));
        a.push(value);
        assert(string_views(a@) =~= spec_cookie_args(cfg, ad));
    } else {
        assert(string_views(a@) =~= spec_cookie_args(cfg, ad));
    }
    a
}

// ---------------------------------------------------------------------------
// The day of the last automatic update
// ---------------------------------------------------------------------------

/// What `str::parse::<i64>` gives: an optional sign, then one or more ASCII
/// digits whose value is within `i64`.
pub open spec fn parse_i64(s: Seq<char>) -> Option<i64> {
    if s.len() > 0 && s[0] == '-' {
        let d = s.skip(1);
        if all_digits(d) && digits_value(d) <= 9223372036854775808 {
            Some((-digits_value(d)) as i64)
        } else {
            None
        }
    } else {
        let d = if s.len() > 0 && s[0] == '+' {
            s.skip(1)
        } else {
            s
        };
        if all_digits(d) && digits_value(d) <= i64::MAX {
            Some(digits_value(d) as i64)
        } else {
            None
        }
    }
}

/// `str::parse::<i64>` on characters.
pub fn parse_i64_chars(v: &Vec<char>) -> (r: Option<i64>)
    ensures
        r == parse_i64(v@),
{
    if v.len() > 0 && v[0] == '-' {
        match digits_u64(v, 1) {
            Some(d) => {
                if d <= 9223372036854775808u64 {
                    if d == 9223372036854775808u64 {
                        Some(i64::MIN)
                    } else {
                        Some(-(d as i64))
                    }
                } else {
                    None
                }
            },
            None => {
                proof {
                    if all_digits(v@.skip(1)) {
                        assert(digits_value(v@.skip(1)) > u64::MAX);
                    }
                }
                None
            },
        }
    } else {
        let from: usize = if v.len() > 0 && v[0] == '+' {
            1
        } else {
            0
        };
        assert(from == 0 ==> v@.skip(0) =~= v@);
        match digits_u64(v, from) {
            Some(d) => {
                if d <= 9223372036854775807u64 {
                    Some(d as i64)
                } else {
                    None
                }
            },
            None => None,
        }
    }
}

/// What `parse_day` returns: the trimmed text as an `i64`, or 0.
pub open spec fn spec_parse_day(text: Seq<char>) -> i64 {
    match parse_i64(trim(text)) {
        Some(d) => d,
        None => 0,
    }
}

/// The stored day number read back from its text (0 when it is not a number).
pub fn parse_day(text: &str) -> (d: i64)
    ensures
        d == spec_parse_day(text@),
{
    match parse_i64_chars(&trim_chars(&chars_of(text))) {
        Some(d) => d,
        None => 0,
    }
}

/// The text a day number is stored as.
pub fn day_text(day: i64) -> (s: String)
    ensures
        s@ == signed_decimal(day as int),
{
    let mut s = String::new();
    push_signed_decimal(&mut s, day);
    s
}

/// A run of digits has no whitespace at either end, so trimming keeps it.
proof fn lemma_trim_digits(s: Seq<char>)
    requires
        s.len() > 0,
        !is_ws(s[0]),
        !is_ws(s.last()),
    ensures
        trim(s) == s,
{
    assert(trim_start_same(s));
    lemma_trim_shape(s);
}

spec fn trim_start_same(s: Seq<char>) -> bool {
    s.len() > 0 && !is_ws(s[0]) ==> crate::text::trim_start(s) == s
}

/// Reading back the stored day gives the day that was stored.
pub proof fn lemma_day_roundtrip(day: i64)
    ensures
        spec_parse_day(signed_decimal(day as int)) == day,
{
    let s = signed_decimal(day as int);
    if day < 0 {
        let m: nat = (-(day as int)) as nat;
        lemma_decimal_digits(m);
        assert(s.skip(1) =~= decimal(m));
        assert(decimal(m).len() > 0);
        assert(is_digit(decimal(m).last()));
        assert(s.last() == decimal(m).last());
        lemma_trim_digits(s);
    } else {
        let m: nat = day as nat;
        lemma_decimal_digits(m);
        assert(is_digit(s[0]));
        assert(is_digit(s.last()));
        lemma_trim_digits(s);
    }
}

// ---------------------------------------------------------------------------
// Daily update of the bundled yt-dlp
// ---------------------------------------------------------------------------

/// The day number of a timestamp: whole days since the epoch, the seconds
/// divided by 86400 with the quotient truncated toward zero (as `/` on `i64`).
pub open spec fn day_of(now_secs: i64) -> int {
    if now_secs >= 0 {
        now_secs as int / 86400
    } else {
        -((-(now_secs as int)) / 86400)
    }
}

/// The day number of a timestamp (truncating toward zero).
pub fn day_number(now_secs: i64) -> (d: i64)
    ensures
        d == day_of(now_secs),
{
    if now_secs >= 0 {
        now_secs / 86400
    } else if now_secs > -86400 {
        0
    } else {
        let m: i64 = -(now_secs + 86400);
        let q: i64 = m / 86400;
        assert((m as int + 86400) / 86400 == m as int / 86400 + 1) by (nonlinear_arith)
            requires
                m >= 0,
        ;
        -q - 1
    }
}

/// Whether the bundled yt-dlp is due for its daily update: it exists, and the
/// day recorded for the last update is not today.
pub open spec fn spec_update_due(bundled_exists: bool, last_day: int, now_secs: i64) -> bool {
    bundled_exists && last_day != day_of(now_secs)
}

/// The day recorded after the daily update was tried: today when the update
/// succeeded, otherwise the day recorded before.
pub open spec fn spec_recorded_day(last_day: int, now_secs: i64, updated: bool) -> int {
    if updated {
        day_of(now_secs)
    } else {
        last_day
    }
}

/// Whether the bundled yt-dlp is due for its daily update.
pub fn daily_update_due(bundled_exists: bool, last_day: i64, now_secs: i64) -> (due: bool)
    ensures
        due == spec_update_due(bundled_exists, last_day as int, now_secs),
{
    bundled_exists && last_day != day_number(now_secs)
}

/// The day to record once the daily update was tried.
pub fn recorded_day(last_day: i64, now_secs: i64, updated: bool) -> (d: i64)
    ensures
        d == spec_recorded_day(last_day as int, now_secs, updated),
{
    if updated {
        day_number(now_secs)
    } else {
        last_day
    }
}

/// The bundled yt-dlp is updated at most once a day: after an update that
/// succeeded, none is due again that day; after one that failed, it is due
/// again whenever it was due before.
pub proof fn law_update_once_a_day(bundled_exists: bool, last_day: int, now_secs: i64, later_secs: i64)
    ensures
        day_of(later_secs) == day_of(now_secs) ==> !spec_update_due(
            bundled_exists,
            spec_recorded_day(last_day, now_secs, true),
            later_secs,
        ),
        spec_update_due(bundled_exists, spec_recorded_day(last_day, now_secs, false), later_secs)
            == spec_update_due(bundled_exists, last_day, later_secs),
{
}

/// The cookies reach yt-dlp as configured: a cookies.txt file (trimmed) with
/// "--cookies", a browser (trimmed) with "--cookies-from-browser", Opera GX
/// through the opera engine and its profile under APPDATA; nothing when the
/// mode is neither, or its file or browser is blank.
pub proof fn law_cookie_args(cfg: &Settings, appdata: Option<Seq<char>>)
    ensures
        cfg.cookies_mode@ == "file"@ && !is_blank(cfg.cookies_file@) ==> spec_cookie_args(cfg, appdata) == seq![
            "--cookies"@,
            trim(cfg.cookies_file@),
        ],
        cfg.cookies_mode@ == "browser"@ && !is_blank(cfg.cookies_browser@) && trim(cfg.cookies_browser@)
            != "operagx"@ ==> spec_cookie_args(cfg, appdata) == seq![
            "--cookies-from-browser"@,
            trim(cfg.cookies_browser@),
        ],
        cfg.cookies_mode@ == "browser"@ && trim(cfg.cookies_browser@) == "operagx"@ ==> spec_cookie_args(
            cfg,
            appdata,
        ) == seq![
            "--cookies-from-browser"@,
            match appdata {
                Some(a) => "opera:"@ + a + "\\Opera Software\\Opera GX Stable"@,
                None => "opera"@,
            },
        ],
        (cfg.cookies_mode@ != "file"@ && cfg.cookies_mode@ != "browser"@) || (cfg.cookies_mode@ == "file"@
            && is_blank(cfg.cookies_file@)) || (cfg.cookies_mode@ == "browser"@ && is_blank(
            cfg.cookies_browser@,
        )) ==> spec_cookie_args(cfg, appdata).len() == 0,
{
    reveal_strlit("file");
    reveal_strlit("browser");
    reveal_strlit("operagx");
    assert("file"@.len() != "browser"@.len());
    assert("file"@ != "browser"@);
    if cfg.cookies_mode@ == "browser"@ && trim(cfg.cookies_browser@) == "operagx"@ {
        assert(trim(cfg.cookies_browser@).len() == 7);
        assert(!is_blank(cfg.cookies_browser@));
    }
}

} // verus!

//! The helper programs (yt-dlp, ffmpeg, aria2c, deno): their file names,
//! what `which` prints, which archive entries to unpack, which release asset
//! to fetch, and the progress of a fetch.

use vstd::prelude::*;
use crate::text::{
    chars_of, contains, contains_exec, copy_range, ends_with, ends_with_exec, find, find_from_exec,
    lemma_find_from, owned, opt_view, push_str, replace_char, replace_char_exec, string_of, trim,
    trim_chars,
};

verus! {

/// A progress report of a tool download (for the front end).
pub struct ToolProgress {
    pub tool: String,
    pub percent: u64,
    pub stage: String,
}

/// An executable's file name: with ".exe" on Windows, as it is elsewhere.
pub fn bin(name: &str, windows: bool) -> (r: String)
    ensures
        r@ == (if windows {
            name@ + ".exe"@
        } else {
            name@
        }),
{
    let mut r = owned(name);
    if windows {
        push_str(&mut r, ".exe");
    }
    r
}

/// What `first_path_line` returns: the first line of the output, trimmed,
/// when there is one and it is not empty.
pub open spec fn spec_first_path_line(out: Seq<char>) -> Option<Seq<char>> {
    if out.len() == 0 {
        None
    } else {
        let first = match find(out, seq!['\n']) {
            Some(i) => out.take(i),
            None => out,
        };
        if trim(first).len() == 0 {
            None
        } else {
            Some(trim(first))
        }
    }
}

/// The path that `which` / `where` printed: the first line of its output.
pub fn first_path_line(out: &str) -> (r: Option<String>)
    ensures
        opt_view(r) == spec_first_path_line(out@),
{
    let v = chars_of(out);
    if v.len() == 0 {
        return None;
    }
    let nl = vec!['\n'];
    assert(nl@ =~= seq!['\n']);
    let first = match find_from_exec(&v, &nl, 0) {
        Some(i) => {
            proof {
                lemma_find_from(v@, nl@, 0);
            }
            copy_range(&v, 0, i)
        },
        None => copy_range(&v, 0, v.len()),
    };
    assert(v@.subrange(0, v@.len() as int) =~= v@);
    let t = trim_chars(&first);
    if t.len() == 0 {
        None
    } else {
        Some(string_of(&t))
    }
}

/// The part of `s` after its last '/', or all of it.
pub open spec fn after_last_slash(s: Seq<char>) -> Seq<char>
    decreases s.len(),
{
    if s.len() == 0 {
        s
    } else if s.last() == '/' {
        Seq::empty()
    } else {
        after_last_slash(s.drop_last()).push(s.last())
    }
}

fn after_last_slash_exec(v: &Vec<char>) -> (r: Vec<char>)
    ensures
        r@ == after_last_slash(v@),
{
    let mut b = v.len();
    assert(v@.take(b as int) =~= v@);
    assert(after_last_slash(v@) + v@.skip(b as int) =~= after_last_slash(v@));
    while b > 0 && v[b - 1] != '/'
        invariant
            b <= v@.len(),
            after_last_slash(v@) == after_last_slash(v@.take(b as int)) + v@.skip(b as int),
        decreases b,
    {
        assert(v@.take(b as int).drop_last() =~= v@.take(b - 1));
        assert(v@.skip(b - 1) =~= seq![v@[b - 1]] + v@.skip(b as int));
        assert(after_last_slash(v@.take(b as int)) == after_last_slash(v@.take(b - 1)).push(v@[b - 1]));
        assert(after_last_slash(v@.take(b - 1)).push(v@[b - 1]) + v@.skip(b as int) =~= after_last_slash(
            v@.take(b - 1),
        ) + v@.skip(b - 1));
        b = b - 1;
    }
    proof {
        if b > 0 {
            assert(v@.take(b as int).last() == '/');
        } else {
            assert(v@.take(0) =~= Seq::<char>::empty());
        }
        assert(v@.skip(b as int) =~= v@.subrange(b as int, v@.len() as int));
    }
    copy_range(v, b, v.len())
}

/// An archive entry's name with '\\' read as '/'.
pub open spec fn entry_path(name: Seq<char>) -> Seq<char> {
    replace_char(name, '\\', '/')
}

/// The file name to unpack an ffmpeg archive entry to: the name after the
/// last '/' of entries ending in "bin/ffmpeg.exe" or "bin/ffprobe.exe".
pub open spec fn spec_ffmpeg_entry(name: Seq<char>) -> Option<Seq<char>> {
    let p = entry_path(name);
    if ends_with(p, "bin/ffmpeg.exe"@) || ends_with(p, "bin/ffprobe.exe"@) {
        Some(after_last_slash(p))
    } else {
        None
    }
}

/// Which file an entry of the ffmpeg archive is unpacked to, if any.
pub fn ffmpeg_entry_target(name: &str) -> (r: Option<String>)
    ensures
        opt_view(r) == spec_ffmpeg_entry(name@),
{
    let p = replace_char_exec(&chars_of(name), '\\', '/');
    if ends_with_exec(&p, &chars_of("bin/ffmpeg.exe")) || ends_with_exec(&p, &chars_of("bin/ffprobe.exe")) {
        Some(string_of(&after_last_slash_exec(&p)))
    } else {
        None
    }
}

/// Whether an entry of the aria2 archive is aria2c.exe.
pub fn is_aria2c_entry(name: &str) -> (b: bool)
    ensures
        b == (ends_with(entry_path(name@), "/aria2c.exe"@) || entry_path(name@) == "aria2c.exe"@),
{
    let p = replace_char_exec(&chars_of(name), '\\', '/');
    let target = chars_of("aria2c.exe");
    ends_with_exec(&p, &chars_of("/aria2c.exe")) || string_of(&p) == string_of(&target)
}

/// Whether an entry of the deno archive is the deno executable.
pub fn is_deno_entry(name: &str) -> (b: bool)
    ensures
        b == (after_last_slash(entry_path(name@)) == "deno"@ || after_last_slash(entry_path(name@))
            == "deno.exe"@),
{
    let p = replace_char_exec(&chars_of(name), '\\', '/');
    let base = string_of(&after_last_slash_exec(&p));
    base == owned("deno") || base == owned("deno.exe")
}

// ---------------------------------------------------------------------------
// aria2 release
// ---------------------------------------------------------------------------

/// An asset of a GitHub release: its "name" and "browser_download_url", where
/// they are strings.
pub struct ReleaseAsset {
    pub name: Option<String>,
    pub download_url: Option<String>,
}

/// The index of the first asset whose name contains "win-64bit", from `i` on.
pub open spec fn win64_asset_from(assets: Seq<ReleaseAsset>, i: int) -> Option<int>
    decreases assets.len() - i,
{
    if i < 0 || i >= assets.len() {
        None
    } else if assets[i].name matches Some(n) && contains(n@, "win-64bit"@) {
        Some(i)
    } else {
        win64_asset_from(assets, i + 1)
    }
}

/// The view of an optional asset list.
pub open spec fn assets_view(o: Option<Vec<ReleaseAsset>>) -> Option<Seq<ReleaseAsset>> {
    match o {
        Some(v) => Some(v@),
        None => None,
    }
}

/// What `select_aria2c_asset` returns.
pub open spec fn spec_select_aria2c_asset(assets: Option<Seq<ReleaseAsset>>) -> Result<Seq<char>, Seq<char>> {
    match assets {
        None => Err("release 无 assets 字段"@),
        Some(a) => match win64_asset_from(a, 0) {
            Some(i) => match a[i].download_url {
                Some(u) => Ok(u@),
                None => Err("未找到 win-64bit 资源"@),
            },
            None => Err("未找到 win-64bit 资源"@),
        },
    }
}

/// The download link of aria2's 64-bit Windows build among a release's
/// assets (`None` when the release has no asset list): the first asset
/// whose name contains "win-64bit", which must have a link.
pub fn select_aria2c_asset(assets: &Option<Vec<ReleaseAsset>>) -> (r: Result<String, String>)
    ensures
        match r {
            Ok(u) => spec_select_aria2c_asset(assets_view(*assets)) == Ok::<Seq<char>, Seq<char>>(u@),
            Err(e) => spec_select_aria2c_asset(assets_view(*assets)) == Err::<Seq<char>, Seq<char>>(e@),
        },
{
    let a = match assets {
        None => {
            return Err(owned("release 无 assets 字段"));
        },
        Some(a) => a,
    };
    assert(assets_view(*assets) == Some(a@));
    let pat = chars_of("win-64bit");
    let n = a.len();
    let mut i: usize = 0;
    while i < n
        invariant
            i <= n,
            n == a@.len(),
            pat@ == "win-64bit"@,
            assets_view(*assets) == Some(a@),
            win64_asset_from(a@, 0) == win64_asset_from(a@, i as int),
        decreases n - i,
    {
        let asset = &a[i];
        assert(*asset == a@[i as int]);
        let found = match &asset.name {
            Some(name) => contains_exec(&chars_of(name.as_str()), &pat),
            None => false,
        };
        assert(found == (a@[i as int].name matches Some(nm) && contains(nm@, "win-64bit"@)));
        if found {
            assert(win64_asset_from(a@, i as int) == Some(i as int));
            match &asset.download_url {
                Some(u) => {
                    let c = u.clone();
                    return Ok(c);
                },
                None => {
                    return Err(owned("未找到 win-64bit 资源"));
                },
            }
        }
        i = i + 1;
    }
    Err(owned("未找到 win-64bit 资源"))
}

// ---------------------------------------------------------------------------
// Download progress
// ---------------------------------------------------------------------------

/// The percentage of `total` bytes that `downloaded` bytes are (0 when the
/// total is unknown).
pub open spec fn spec_percent(downloaded: u64, total: u64) -> u64 {
    if total > 0 {
        ((downloaded * 100) / (total as int)) as u64
    } else {
        0
    }
}

/// The progress of a tool download: bytes expected (0 when unknown), bytes so
/// far, and the percentage last reported.
pub struct ProgressMeter {
    pub total: u64,
    pub downloaded: u64,
    pub last_pct: u64,
}

impl ProgressMeter {
    /// A meter for a download of `total` bytes (0 when unknown); no
    /// percentage has been reported yet.
    pub fn new(total: u64) -> (m: Self)
        ensures
            m.total == total,
            m.downloaded == 0,
            m.last_pct == u64::MAX,
    {
        ProgressMeter { total, downloaded: 0, last_pct: u64::MAX }
    }

    /// Counts a received chunk; returns the percentage to report when it
    /// differs from the one last reported.
    pub fn advance(&mut self, chunk_len: u64) -> (r: Option<u64>)
        requires
            (old(self).downloaded + chunk_len) * 100 <= u64::MAX,
        ensures
            final(self).total == old(self).total,
            final(self).downloaded == old(self).downloaded + chunk_len,
            ({
                let pct = spec_percent(final(self).downloaded, old(self).total);
                if pct != old(self).last_pct {
                    r == Some(pct) && final(self).last_pct == pct
                } else {
                    r is None && final(self).last_pct == old(self).last_pct
                }
            }),
    {
        self.downloaded = self.downloaded + chunk_len;
        let pct = if self.total > 0 {
            self.downloaded * 100 / self.total
        } else {
            0
        };
        if pct != self.last_pct {
            self.last_pct = pct;
            Some(pct)
        } else {
            None
        }
    }
}

// ---------------------------------------------------------------------------
// Window material
// ---------------------------------------------------------------------------

/// The window material to apply.
pub enum Backdrop {
    Mica,
    /// Acrylic with a tint (red, green, blue, alpha).
    Acrylic(u8, u8, u8, u8),
    /// No material.
    Plain,
}

/// What `backdrop_plan` returns.
pub open spec fn spec_backdrop_plan(kind: Seq<char>, is_dark: bool) -> Result<Backdrop, Seq<char>> {
    if kind == "mica"@ {
        Ok(Backdrop::Mica)
    } else if kind == "acrylic"@ {
        if is_dark {
            Ok(Backdrop::Acrylic(10, 12, 18, 95))
        } else {
            Ok(Backdrop::Acrylic(250, 250, 252, 95))
        }
    } else if kind == "aero"@ {
        Ok(Backdrop::Acrylic(224, 235, 252, 120))
    } else if kind == "none"@ {
        Ok(Backdrop::Plain)
    } else {
        Err("未知的背景材质: "@ + kind)
    }
}

/// The material for a window: "mica", "acrylic" (tinted for the theme),
/// "aero" (a light, bright acrylic) or "none"; other kinds are refused.
pub fn backdrop_plan(kind: &str, is_dark: bool) -> (r: Result<Backdrop, String>)
    ensures
        match r {
            Ok(b) => spec_backdrop_plan(kind@, is_dark) == Ok::<Backdrop, Seq<char>>(b),
            Err(e) => spec_backdrop_plan(kind@, is_dark) == Err::<Backdrop, Seq<char>>(e@),
        },
{
    let k = owned(kind);
    if k == owned("mica") {
        Ok(Backdrop::Mica)
    } else if k == owned("acrylic") {
        if is_dark {
            Ok(Backdrop::Acrylic(10, 12, 18, 95))
        } else {
            Ok(Backdrop::Acrylic(250, 250, 252, 95))
        }
    } else if k == owned("aero") {
        Ok(Backdrop::Acrylic(224, 235, 252, 120))
    } else if k == owned("none") {
        Ok(Backdrop::Plain)
    } else {
        let mut m = owned("未知的背景材质: ");
        push_str(&mut m, kind);
        Err(m)
    }
}

// ---------------------------------------------------------------------------
// Which copy of a tool is used
// ---------------------------------------------------------------------------

/// Whether the copy of a tool kept in the app's tools directory is looked for
/// before the system's: so for yt-dlp, whose version the app manages; the
/// system's ffmpeg, aria2c and deno come first.
pub fn prefers_bundled(tool: &str) -> (b: bool)
    ensures
        b == (tool@ == "yt-dlp"@),
{
    owned(tool) == owned("yt-dlp")
}

/// The tool path to use: the preferred copy when it exists, else the other.
pub fn pick_copy(preferred: Option<String>, other: Option<String>) -> (r: Option<String>)
    ensures
        opt_view(r) == (match opt_view(preferred) {
            Some(p) => Some(p),
            None => opt_view(other),
        }),
{
    match preferred {
        Some(p) => Some(p),
        None => other,
    }
}

/// The JavaScript runtime yt-dlp is given, as (name, path): the system's
/// node when there is one, else deno when found.
pub open spec fn spec_js_runtime_choice(node: Option<Seq<char>>, deno: Option<Seq<char>>) -> Option<
    (Seq<char>, Seq<char>),
> {
    match node {
        Some(p) => Some(("node"@, p)),
        None => match deno {
            Some(p) => Some(("deno"@, p)),
            None => None,
        },
    }
}

/// Chooses the JavaScript runtime from where node and deno were found.
pub fn js_runtime_choice(node: Option<String>, deno: Option<String>) -> (r: Option<(String, String)>)
    ensures
        crate::command::pair_view(r) == spec_js_runtime_choice(opt_view(node), opt_view(deno)),
{
    match node {
        Some(p) => Some((owned("node"), p)),
        None => match deno {
            Some(p) => Some((owned("deno"), p)),
            None => None,
        },
    }
}

/// Whether a tool found at `found` is the system's rather than the bundled
/// copy at `bundled` (when the bundled path is known).
pub fn is_system_copy(found: &str, bundled: &Option<String>) -> (b: bool)
    ensures
        b == !(opt_view(*bundled) == Some(found@)),
{
    match bundled {
        Some(p) => owned(found) != owned(p.as_str()),
        None => true,
    }
}

} // verus!

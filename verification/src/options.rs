//! Per-download options and the yt-dlp arguments they translate to.

use vstd::prelude::*;
use crate::text::{
    chars_of, char_is_ws, copy_range, is_blank, is_ws, owned, push_chars, push_str, string_of,
    string_views, trim, trim_chars,
};

verus! {

/// The options of one download (sent by the front end as JSON).
pub struct DownloadOptions {
    pub embed_thumbnail: bool,
    pub embed_subs: bool,
    pub auto_subs: bool,
    pub sub_langs: String,
    pub embed_chapters: bool,
    pub embed_metadata: bool,
    pub custom_title: String,
    pub custom_artist: String,
    pub live_from_start: bool,
    pub sponsorblock: bool,
    pub recode_mp4: bool,
    /// Extra raw arguments, separated by whitespace.
    pub extra: String,
    /// Bilingual subtitles: main (top, large) and secondary (bottom, small).
    pub bilingual: bool,
    pub bi_main: String,
    pub bi_secondary: String,
}

impl Default for DownloadOptions {
    fn default() -> (o: Self)
        ensures
            !o.embed_thumbnail && !o.embed_subs && !o.auto_subs && o.sub_langs@.len() == 0
                && !o.embed_chapters && !o.embed_metadata && o.custom_title@.len() == 0
                && o.custom_artist@.len() == 0 && !o.live_from_start && !o.sponsorblock
                && !o.recode_mp4 && o.extra@.len() == 0 && !o.bilingual && o.bi_main@.len() == 0
                && o.bi_secondary@.len() == 0,
    {
        DownloadOptions {
            embed_thumbnail: false,
            embed_subs: false,
            auto_subs: false,
            sub_langs: String::new(),
            embed_chapters: false,
            embed_metadata: false,
            custom_title: String::new(),
            custom_artist: String::new(),
            live_from_start: false,
            sponsorblock: false,
            recode_mp4: false,
            extra: String::new(),
            bilingual: false,
            bi_main: String::new(),
            bi_secondary: String::new(),
        }
    }
}

/// Bilingual subtitles are on: asked for, with both languages given.
pub open spec fn spec_bilingual_on(o: &DownloadOptions) -> bool {
    o.bilingual && !is_blank(o.bi_main@) && !is_blank(o.bi_secondary@)
}

impl DownloadOptions {
    /// Whether bilingual subtitles are on: asked for, with a main and a
    /// secondary language that are not blank.
    pub fn bilingual_on(&self) -> (b: bool)
        ensures
            b == spec_bilingual_on(self),
    {
        let m = trim_chars(&chars_of(self.bi_main.as_str()));
        let s = trim_chars(&chars_of(self.bi_secondary.as_str()));
        self.bilingual && m.len() != 0 && s.len() != 0
    }
}

// ---------------------------------------------------------------------------
// Whitespace-separated tokens (`str::split_whitespace`)
// ---------------------------------------------------------------------------

/// The first index at or after `i` that holds whitespace, or the length.
pub open spec fn run_end(s: Seq<char>, i: int) -> int
    decreases s.len() - i,
{
    if i < 0 || i >= s.len() || is_ws(s[i]) {
        i
    } else {
        run_end(s, i + 1)
    }
}

pub proof fn lemma_run_end(s: Seq<char>, i: int)
    requires
        0 <= i <= s.len(),
    ensures
        i <= run_end(s, i) <= s.len(),
        i < s.len() && !is_ws(s[i]) ==> i < run_end(s, i),
    decreases s.len() - i,
{
    if i >= s.len() || is_ws(s[i]) {
    } else {
        lemma_run_end(s, i + 1);
    }
}

/// The maximal runs of non-whitespace characters of `s[i..]`, in order.
pub open spec fn tokens_from(s: Seq<char>, i: int) -> Seq<Seq<char>>
    decreases s.len() - i,
{
    if i < 0 || i >= s.len() {
        Seq::empty()
    } else if is_ws(s[i]) {
        tokens_from(s, i + 1)
    } else {
        proof {
            lemma_run_end(s, i);
        }
        seq![s.subrange(i, run_end(s, i))] + tokens_from(s, run_end(s, i))
    }
}

/// The whitespace-separated tokens of `s`.
pub open spec fn ws_tokens(s: Seq<char>) -> Seq<Seq<char>> {
    tokens_from(s, 0)
}

/// Appends the whitespace-separated tokens of `v` to `out`.
fn push_tokens(out: &mut Vec<String>, v: &Vec<char>)
    ensures
        string_views(final(out)@) == string_views(old(out)@) + ws_tokens(v@),
{
    let n = v.len();
    let mut i: usize = 0;
    while i < n
        invariant
            i <= n,
            n == v@.len(),
            string_views(out@) + tokens_from(v@, i as int) == string_views(old(out)@) + ws_tokens(
                v@,
            ),
        decreases n - i,
    {
        if char_is_ws(v[i]) {
            i = i + 1;
        } else {
            let mut j = i;
            while j < n && !char_is_ws(v[j])
                invariant
                    i <= j <= n,
                    n == v@.len(),
                    run_end(v@, i as int) == run_end(v@, j as int),
                decreases n - j,
            {
                j = j + 1;
            }
            proof {
                lemma_run_end(v@, i as int);
            }
            let tok = string_of(&copy_range(v, i, j));
            let ghost before = string_views(out@);
            out.push(tok);
            assert(string_views(out@) =~= before.push(v@.subrange(i as int, j as int)));
            assert(string_views(out@) + tokens_from(v@, j as int) =~= before + tokens_from(
                v@,
                i as int,
            ));
            i = j;
        }
    }
}

// ---------------------------------------------------------------------------
// yt-dlp arguments
// ---------------------------------------------------------------------------

/// The subtitle languages to embed: "en" when none are given.
pub open spec fn sub_langs_arg(o: &DownloadOptions) -> Seq<char> {
    if is_blank(o.sub_langs@) {
        "en"@
    } else {
        trim(o.sub_langs@)
    }
}

/// The arguments for the container and the embedded subtitles.
pub open spec fn subtitle_args(o: &DownloadOptions) -> Seq<Seq<char>> {
    if spec_bilingual_on(o) {
        seq!["--merge-output-format"@, "mkv"@]
    } else if o.embed_subs || o.auto_subs {
        seq!["--embed-subs"@] + (if o.auto_subs {
            seq!["--write-auto-subs"@]
        } else {
            Seq::empty()
        }) + seq!["--sub-langs"@, sub_langs_arg(o)] + (if !o.recode_mp4 {
            seq!["--merge-output-format"@, "mkv"@]
        } else {
            Seq::empty()
        })
    } else {
        Seq::empty()
    }
}

/// The arguments for a custom title and artist, and for embedding metadata.
pub open spec fn metadata_args(o: &DownloadOptions) -> Seq<Seq<char>> {
    (if !is_blank(o.custom_title@) {
        seq!["--parse-metadata"@, trim(o.custom_title@) + ":%(meta_title)s"@]
    } else {
        Seq::empty()
    }) + (if !is_blank(o.custom_artist@) {
        seq!["--parse-metadata"@, trim(o.custom_artist@) + ":%(meta_artist)s"@]
    } else {
        Seq::empty()
    }) + (if o.embed_metadata || !is_blank(o.custom_title@) || !is_blank(o.custom_artist@) {
        seq!["--embed-metadata"@]
    } else {
        Seq::empty()
    })
}

/// A flag when `on` holds, nothing otherwise.
pub open spec fn flag_args(on: bool, args: Seq<Seq<char>>) -> Seq<Seq<char>> {
    if on {
        args
    } else {
        Seq::empty()
    }
}

/// The raw extra arguments, when they are not blank.
pub open spec fn extra_args(o: &DownloadOptions) -> Seq<Seq<char>> {
    if !is_blank(o.extra@) {
        ws_tokens(o.extra@)
    } else {
        Seq::empty()
    }
}

/// What `build_option_args` returns, in order.
pub open spec fn spec_option_args(o: &DownloadOptions) -> Seq<Seq<char>> {
    flag_args(o.embed_thumbnail, seq!["--embed-thumbnail"@]) + subtitle_args(o) + flag_args(
        o.embed_chapters,
        seq!["--embed-chapters"@],
    ) + metadata_args(o) + flag_args(o.live_from_start, seq!["--live-from-start"@]) + flag_args(
        o.sponsorblock,
        seq!["--sponsorblock-remove"@, "all"@],
    ) + flag_args(o.recode_mp4 && !spec_bilingual_on(o), seq!["--recode-video"@, "mp4"@])
        + extra_args(o)
}

fn push_arg(a: &mut Vec<String>, s: &str)
    ensures
        string_views(final(a)@) == string_views(old(a)@).push(s@),
{
    let ghost before = string_views(a@);
    a.push(owned(s));
    assert(string_views(a@) =~= before.push(s@));
}

fn push_subtitle_args(a: &mut Vec<String>, o: &DownloadOptions, bilingual: bool)
    requires
        bilingual == spec_bilingual_on(o),
    ensures
        string_views(final(a)@) == string_views(old(a)@) + subtitle_args(o),
{
    let ghost start = string_views(a@);
    if bilingual {
        push_arg(a, "--merge-output-format");
        push_arg(a, "mkv");
    } else if o.embed_subs || o.auto_subs {
        push_arg(a, "--embed-subs");
        if o.auto_subs {
            push_arg(a, "--write-auto-subs");
        }
        let t = trim_chars(&chars_of(o.sub_langs.as_str()));
        let langs = if t.len() == 0 {
            owned("en")
        } else {
            string_of(&t)
        };
        push_arg(a, "--sub-langs");
        let ghost mid = string_views(a@);
        a.push(langs);
        assert(string_views(a@) =~= mid.push(sub_langs_arg(o)));
        if !o.recode_mp4 {
            push_arg(a, "--merge-output-format");
            push_arg(a, "mkv");
        }
    }
    assert(string_views(a@) =~= start + subtitle_args(o));
}

fn push_metadata_args(a: &mut Vec<String>, o: &DownloadOptions)
    ensures
        string_views(final(a)@) == string_views(old(a)@) + metadata_args(o),
{
    let ghost start = string_views(a@);
    let mut need_meta = o.embed_metadata;
    let title = trim_chars(&chars_of(o.custom_title.as_str()));
    if title.len() != 0 {
        need_meta = true;
        push_arg(a, "--parse-metadata");
        let mut s = string_of(&title);
        push_str(&mut s, ":%(meta_title)s");
        let ghost mid = string_views(a@);
        a.push(s);
        assert(string_views(a@) =~= mid.push(trim(o.custom_title@) + ":%(meta_title)s"@));
    }
    let ghost after_title = string_views(a@);
    let artist = trim_chars(&chars_of(o.custom_artist.as_str()));
    if artist.len() != 0 {
        need_meta = true;
        push_arg(a, "--parse-metadata");
        let mut s = string_of(&artist);
        push_str(&mut s, ":%(meta_artist)s");
        let ghost mid = string_views(a@);
        a.push(s);
        assert(string_views(a@) =~= mid.push(trim(o.custom_artist@) + ":%(meta_artist)s"@));
    }
    if need_meta {
        push_arg(a, "--embed-metadata");
    }
    assert(string_views(a@) =~= start + metadata_args(o));
}

/// Translates download options into yt-dlp arguments. With bilingual
/// subtitles on, only the MKV container is asked for (the subtitles are merged
/// afterwards); otherwise embedded subtitles are soft tracks, in MKV unless
/// the video is re-encoded to MP4.
pub fn build_option_args(o: &DownloadOptions) -> (a: Vec<String>)
    ensures
        string_views(a@) == spec_option_args(o),
{
    let mut a: Vec<String> = Vec::new();
    let bilingual = o.bilingual_on();
    let ghost s0 = string_views(a@);
    assert(s0 =~= Seq::<Seq<char>>::empty());
    if o.embed_thumbnail {
        push_arg(&mut a, "--embed-thumbnail");
    }
    let ghost s1 = string_views(a@);
    assert(s1 =~= s0 + flag_args(o.embed_thumbnail, seq!["--embed-thumbnail"@]));
    push_subtitle_args(&mut a, o, bilingual);
    let ghost s2 = string_views(a@);
    if o.embed_chapters {
        push_arg(&mut a, "--embed-chapters");
    }
    let ghost s3 = string_views(a@);
    assert(s3 =~= s2 + flag_args(o.embed_chapters, seq!["--embed-chapters"@]));
    push_metadata_args(&mut a, o);
    let ghost s4 = string_views(a@);
    if o.live_from_start {
        push_arg(&mut a, "--live-from-start");
    }
    let ghost s5 = string_views(a@);
    assert(s5 =~= s4 + flag_args(o.live_from_start, seq!["--live-from-start"@]));
    if o.sponsorblock {
        push_arg(&mut a, "--sponsorblock-remove");
        push_arg(&mut a, "all");
    }
    let ghost s6 = string_views(a@);
    assert(s6 =~= s5 + flag_args(o.sponsorblock, seq!["--sponsorblock-remove"@, "all"@]));
    if o.recode_mp4 && !bilingual {
        push_arg(&mut a, "--recode-video");
        push_arg(&mut a, "mp4");
    }
    let ghost s7 = string_views(a@);
    assert(s7 =~= s6 + flag_args(o.recode_mp4 && !spec_bilingual_on(o), seq!["--recode-video"@, "mp4"@]));
    let extra = chars_of(o.extra.as_str());
    let te = trim_chars(&extra);
    if te.len() != 0 {
        push_tokens(&mut a, &extra);
    }
    let ghost s8 = string_views(a@);
    assert(s8 =~= s7 + extra_args(o));
    assert(s8 =~= spec_option_args(o));
    a
}

/// With bilingual subtitles on, the arguments ask only for the MKV container
/// for subtitles: no embedded subtitle tracks and no re-encoding to MP4 (the
/// subtitles are merged afterwards).
pub proof fn law_bilingual_uses_mkv(o: &DownloadOptions)
    requires
        spec_bilingual_on(o),
    ensures
        subtitle_args(o) == seq!["--merge-output-format"@, "mkv"@],
        flag_args(o.recode_mp4 && !spec_bilingual_on(o), seq!["--recode-video"@, "mp4"@]) == Seq::<
            Seq<char>,
        >::empty(),
{
}

/// Subtitles embedded without bilingual merging are soft tracks: the arguments
/// ask for them with "--embed-subs", and put the video in MKV unless it is
/// re-encoded to MP4.
pub proof fn law_soft_subs_in_mkv(o: &DownloadOptions)
    requires
        !spec_bilingual_on(o),
        o.embed_subs || o.auto_subs,
    ensures
        subtitle_args(o)[0] == "--embed-subs"@,
        !o.recode_mp4 ==> subtitle_args(o).skip(subtitle_args(o).len() - 2) == seq![
            "--merge-output-format"@,
            "mkv"@,
        ],
        o.recode_mp4 ==> flag_args(o.recode_mp4 && !spec_bilingual_on(o), seq!["--recode-video"@, "mp4"@])
            == seq!["--recode-video"@, "mp4"@],
{
    let a = subtitle_args(o);
    if !o.recode_mp4 {
        assert(a.skip(a.len() - 2) =~= seq!["--merge-output-format"@, "mkv"@]);
    }
}

proof fn lemma_concat_index(p: Seq<Seq<char>>, m: Seq<Seq<char>>, r: Seq<Seq<char>>, i: int)
    requires
        0 <= i < m.len(),
    ensures
        (p + m + r)[p.len() + i] == m[i],
        p.len() + i < (p + m + r).len(),
{
}

proof fn lemma_metadata_shape(o: &DownloadOptions)
    requires
        o.embed_metadata || !is_blank(o.custom_title@) || !is_blank(o.custom_artist@),
    ensures
        ({
            let m = metadata_args(o);
            let tl: int = if !is_blank(o.custom_title@) { 2 } else { 0 };
            let al: int = if !is_blank(o.custom_artist@) { 2 } else { 0 };
            &&& m.len() == tl + al + 1
            &&& m[tl + al] == "--embed-metadata"@
            &&& !is_blank(o.custom_title@) ==> m[0] == "--parse-metadata"@ && m[1] == trim(o.custom_title@)
                + ":%(meta_title)s"@
            &&& !is_blank(o.custom_artist@) ==> m[tl] == "--parse-metadata"@ && m[tl + 1] == trim(
                o.custom_artist@,
            ) + ":%(meta_artist)s"@
        }),
{
}

proof fn lemma_option_args_split(o: &DownloadOptions)
    ensures
        spec_option_args(o) == (flag_args(o.embed_thumbnail, seq!["--embed-thumbnail"@]) + subtitle_args(o)
            + flag_args(o.embed_chapters, seq!["--embed-chapters"@])) + metadata_args(o) + (flag_args(
            o.live_from_start,
            seq!["--live-from-start"@],
        ) + flag_args(o.sponsorblock, seq!["--sponsorblock-remove"@, "all"@]) + flag_args(
            o.recode_mp4 && !spec_bilingual_on(o),
            seq!["--recode-video"@, "mp4"@],
        ) + extra_args(o)),
{
    assert(spec_option_args(o) =~= (flag_args(o.embed_thumbnail, seq!["--embed-thumbnail"@]) + subtitle_args(o)
        + flag_args(o.embed_chapters, seq!["--embed-chapters"@])) + metadata_args(o) + (flag_args(
        o.live_from_start,
        seq!["--live-from-start"@],
    ) + flag_args(o.sponsorblock, seq!["--sponsorblock-remove"@, "all"@]) + flag_args(
        o.recode_mp4 && !spec_bilingual_on(o),
        seq!["--recode-video"@, "mp4"@],
    ) + extra_args(o)));
}

/// A custom title or artist is always embedded: the arguments hold a
/// "--parse-metadata" pair for each one that is not blank, and after them
/// "--embed-metadata"; plain "--embed-metadata" is asked for when metadata
/// embedding is on.
pub proof fn law_custom_metadata_embedded(o: &DownloadOptions)
    requires
        o.embed_metadata || !is_blank(o.custom_title@) || !is_blank(o.custom_artist@),
    ensures
        ({
            let a = spec_option_args(o);
            exists|k: int|
                0 <= k < a.len() && #[trigger] a[k] == "--embed-metadata"@ && (!is_blank(o.custom_title@) ==> exists|
                    j: int,
                |
                    0 <= j && j + 1 < k && #[trigger] a[j] == "--parse-metadata"@ && a[j + 1] == trim(
                        o.custom_title@,
                    ) + ":%(meta_title)s"@) && (!is_blank(o.custom_artist@) ==> exists|j: int|
                    0 <= j && j + 1 < k && #[trigger] a[j] == "--parse-metadata"@ && a[j + 1] == trim(
                        o.custom_artist@,
                    ) + ":%(meta_artist)s"@)
        }),
{
    let a = spec_option_args(o);
    let p = flag_args(o.embed_thumbnail, seq!["--embed-thumbnail"@]) + subtitle_args(o) + flag_args(
        o.embed_chapters,
        seq!["--embed-chapters"@],
    );
    let m = metadata_args(o);
    let r = flag_args(o.live_from_start, seq!["--live-from-start"@]) + flag_args(
        o.sponsorblock,
        seq!["--sponsorblock-remove"@, "all"@],
    ) + flag_args(o.recode_mp4 && !spec_bilingual_on(o), seq!["--recode-video"@, "mp4"@])
        + extra_args(o);
    lemma_option_args_split(o);
    assert(a == p + m + r);
    lemma_metadata_shape(o);
    let tl: int = if !is_blank(o.custom_title@) { 2 } else { 0 };
    let al: int = if !is_blank(o.custom_artist@) { 2 } else { 0 };
    let k = p.len() + tl + al;
    lemma_concat_index(p, m, r, tl + al);
    assert(a[k] == "--embed-metadata"@);
    if !is_blank(o.custom_title@) {
        let j = p.len() as int;
        lemma_concat_index(p, m, r, 0);
        lemma_concat_index(p, m, r, 1);
        assert(a[j] == "--parse-metadata"@);
    }
    if !is_blank(o.custom_artist@) {
        let j = p.len() + tl;
        lemma_concat_index(p, m, r, tl);
        lemma_concat_index(p, m, r, tl + 1);
        assert(a[j] == "--parse-metadata"@);
    }
}

} // verus!

//! What the library takes from yt-dlp's JSON description of a link: the
//! subtitle languages on offer and the text fields of each format.

use vstd::prelude::*;
use crate::text::{chars_of, contains, contains_exec, owned, push_str, uppercase, to_uppercase};
use crate::codec::{codec_label, spec_codec_label};

verus! {

/// serde_json's JSON value, carried through as it is.
#[verifier::external_type_specification]
#[verifier::external_body]
pub struct ExJsonValue(serde_json::Value);

/// What `serde_json::from_slice::<Value>` gives for `bytes`: the value they
/// hold when they are one JSON value, otherwise the text of its error.
pub uninterp spec fn json_parse(bytes: Seq<u8>) -> Result<serde_json::Value, Seq<char>>;

/// `serde_json::from_slice::<serde_json::Value>`: its result, the value or the
/// text of its error, is taken to depend on the bytes alone and is named
/// `json_parse`; what value a given text holds is not spelled out.
#[verifier::external_body]
fn json_from_slice(bytes: &[u8]) -> (r: Result<serde_json::Value, String>)
    ensures
        match r {
            Ok(v) => json_parse(bytes@) == Ok::<serde_json::Value, Seq<char>>(v),
            Err(e) => json_parse(bytes@) == Err::<serde_json::Value, Seq<char>>(e@),
        },
{
    match serde_json::from_slice::<serde_json::Value>(bytes) {
        Ok(v) => Ok(v),
        Err(e) => Err(e.to_string()),
    }
}

/// Reads a JSON document: the value the bytes hold, or, on failure, `what`
/// followed by the parser's error text.
pub fn decode_json(bytes: &[u8], what: &str) -> (r: Result<serde_json::Value, String>)
    ensures
        match r {
            Ok(v) => json_parse(bytes@) == Ok::<serde_json::Value, Seq<char>>(v),
            Err(e) => json_parse(bytes@) matches Err(t) && e@ == what@ + t,
        },
{
    match json_from_slice(bytes) {
        Ok(v) => Ok(v),
        Err(t) => {
            let mut m = owned(what);
            push_str(&mut m, t.as_str());
            Err(m)
        },
    }
}

// ---------------------------------------------------------------------------
// Subtitle languages
// ---------------------------------------------------------------------------

/// A subtitle language on offer.
pub struct SubLang {
    pub code: String,
    pub name: String,
    /// Generated or translated automatically.
    pub auto: bool,
}

impl View for SubLang {
    type V = (Seq<char>, Seq<char>, bool);

    open spec fn view(&self) -> (Seq<char>, Seq<char>, bool) {
        (self.code@, self.name@, self.auto)
    }
}

/// One language of yt-dlp's "subtitles" or "automatic_captions": its code, and
/// the "name" of its first format when that is a string.
pub struct SubtitleEntry {
    pub code: String,
    pub name: Option<String>,
}

/// The language an entry offers.
pub open spec fn entry_lang(e: SubtitleEntry, auto: bool) -> (Seq<char>, Seq<char>, bool) {
    (
        e.code@,
        match e.name {
            Some(n) => n@,
            None => e.code@,
        },
        auto,
    )
}

/// The languages of a list of entries.
pub open spec fn entry_langs(v: Seq<SubtitleEntry>, auto: bool) -> Seq<(Seq<char>, Seq<char>, bool)> {
    v.map_values(|e: SubtitleEntry| entry_lang(e, auto))
}

/// Whether `d` already holds a language with the code and kind of `l`.
pub open spec fn has_lang(d: Seq<(Seq<char>, Seq<char>, bool)>, l: (Seq<char>, Seq<char>, bool)) -> bool {
    exists|j: int| 0 <= j < d.len() && #[trigger] d[j].0 == l.0 && d[j].2 == l.2
}

/// The first language of each code and kind, in order.
pub open spec fn first_of_each(s: Seq<(Seq<char>, Seq<char>, bool)>) -> Seq<(Seq<char>, Seq<char>, bool)>
    decreases s.len(),
{
    if s.len() == 0 {
        Seq::empty()
    } else {
        let d = first_of_each(s.drop_last());
        if has_lang(d, s.last()) {
            d
        } else {
            d.push(s.last())
        }
    }
}

/// What `extract_subs` returns.
pub open spec fn spec_extract_subs(manual: Seq<SubtitleEntry>, automatic: Seq<SubtitleEntry>) -> Seq<
    (Seq<char>, Seq<char>, bool),
> {
    first_of_each(entry_langs(manual, false) + entry_langs(automatic, true))
}

/// The views of a sequence of languages.
pub open spec fn lang_views(v: Seq<SubLang>) -> Seq<(Seq<char>, Seq<char>, bool)> {
    v.map_values(|l: SubLang| l@)
}

fn seen(out: &Vec<SubLang>, code: &String, auto: bool) -> (b: bool)
    ensures
        b == has_lang(lang_views(out@), (code@, Seq::empty(), auto)),
{
    let n = out.len();
    let mut j: usize = 0;
    while j < n
        invariant
            j <= n,
            n == out@.len(),
            forall|k: int| 0 <= k < j ==> !(#[trigger] lang_views(out@)[k].0 == code@ && lang_views(
                out@,
            )[k].2 == auto),
        decreases n - j,
    {
        if out[j].code == *code && out[j].auto == auto {
            assert(lang_views(out@)[j as int].0 == code@);
            return true;
        }
        j = j + 1;
    }
    false
}

fn add_langs(out: &mut Vec<SubLang>, entries: &Vec<SubtitleEntry>, auto: bool)
    ensures
        lang_views(final(out)@) == first_of_each_from(lang_views(old(out)@), entry_langs(entries@, auto)),
{
    let n = entries.len();
    let mut i: usize = 0;
    while i < n
        invariant
            i <= n,
            n == entries@.len(),
            lang_views(out@) == first_of_each_from(
                lang_views(old(out)@),
                entry_langs(entries@, auto).take(i as int),
            ),
        decreases n - i,
    {
        let e = &entries[i];
        let ghost l = entry_lang(*e, auto);
        let ghost before = lang_views(out@);
        assert(entry_langs(entries@, auto).take(i + 1).drop_last() =~= entry_langs(entries@, auto).take(
            i as int,
        ));
        assert(entry_langs(entries@, auto).take(i + 1).last() == l);
        if !seen(out, &e.code, auto) {
            let name = match &e.name {
                Some(n) => n.clone(),
                None => e.code.clone(),
            };
            out.push(SubLang { code: e.code.clone(), name, auto });
            assert(lang_views(out@) =~= before.push(l));
        }
        i = i + 1;
    }
    assert(entry_langs(entries@, auto).take(n as int) =~= entry_langs(entries@, auto));
}

/// `first_of_each` continued from the languages `d` already kept.
pub open spec fn first_of_each_from(
    d: Seq<(Seq<char>, Seq<char>, bool)>,
    s: Seq<(Seq<char>, Seq<char>, bool)>,
) -> Seq<(Seq<char>, Seq<char>, bool)>
    decreases s.len(),
{
    if s.len() == 0 {
        d
    } else {
        let e = first_of_each_from(d, s.drop_last());
        if has_lang(e, s.last()) {
            e
        } else {
            e.push(s.last())
        }
    }
}

/// Continuing from what was kept of `a` over `b` keeps the same as over `a + b`.
proof fn lemma_first_of_each_concat(
    a: Seq<(Seq<char>, Seq<char>, bool)>,
    b: Seq<(Seq<char>, Seq<char>, bool)>,
)
    ensures
        first_of_each_from(first_of_each(a), b) == first_of_each(a + b),
    decreases b.len(),
{
    if b.len() == 0 {
        assert(a + b =~= a);
    } else {
        lemma_first_of_each_concat(a, b.drop_last());
        assert((a + b).drop_last() =~= a + b.drop_last());
        assert((a + b).last() == b.last());
    }
}

/// The subtitle languages on offer: those written by people, then the
/// automatic ones, each code of each kind once (the first one kept); a
/// language's name is that of its first format, or its code.
pub fn extract_subs(manual: &Vec<SubtitleEntry>, automatic: &Vec<SubtitleEntry>) -> (r: Vec<SubLang>)
    ensures
        lang_views(r@) == spec_extract_subs(manual@, automatic@),
{
    let mut out: Vec<SubLang> = Vec::new();
    assert(lang_views(out@) =~= first_of_each(Seq::empty()));
    add_langs(&mut out, manual, false);
    proof {
        lemma_first_of_each_concat(Seq::empty(), entry_langs(manual@, false));
        assert(Seq::<(Seq<char>, Seq<char>, bool)>::empty() + entry_langs(manual@, false) =~= entry_langs(
            manual@,
            false,
        ));
    }
    add_langs(&mut out, automatic, true);
    proof {
        lemma_first_of_each_concat(entry_langs(manual@, false), entry_langs(automatic@, true));
    }
    out
}

// ---------------------------------------------------------------------------
// Format fields
// ---------------------------------------------------------------------------

/// The resolution shown for a format: its "resolution", or its
/// "format_note" when that is empty.
pub fn display_resolution(resolution: &str, note: &str) -> (r: String)
    ensures
        r@ == (if resolution@.len() == 0 {
            note@
        } else {
            resolution@
        }),
{
    if chars_of(resolution).len() == 0 {
        owned(note)
    } else {
        owned(resolution)
    }
}

/// Whether a format is HDR from its upper-cased "dynamic_range" and
/// "format_note": "HDR" appears in either.
pub fn hdr_from_upper(dr_upper: &str, note_upper: &str) -> (b: bool)
    ensures
        b == (contains(dr_upper@, "HDR"@) || contains(note_upper@, "HDR"@)),
{
    let hdr = chars_of("HDR");
    contains_exec(&chars_of(dr_upper), &hdr) || contains_exec(&chars_of(note_upper), &hdr)
}

/// Whether a format is HDR: "HDR" appears, in any case, in its
/// "dynamic_range" or its "format_note".
pub fn is_hdr(dynamic_range: &str, note: &str) -> (b: bool)
    ensures
        b == (contains(uppercase(dynamic_range@), "HDR"@) || contains(uppercase(note@), "HDR"@)),
{
    let dr = to_uppercase(dynamic_range);
    let n = to_uppercase(note);
    hdr_from_upper(dr.as_str(), n.as_str())
}

// ---------------------------------------------------------------------------
// Formats
// ---------------------------------------------------------------------------

/// The text and integer fields of one entry of yt-dlp's "formats" (empty or
/// `None` where the JSON has no such string or integer).
pub struct RawFormat {
    pub format_id: String,
    pub ext: String,
    pub resolution: String,
    pub format_note: String,
    pub vcodec: String,
    pub acodec: String,
    pub dynamic_range: String,
    pub height: Option<i64>,
    pub filesize: Option<u64>,
    pub filesize_approx: Option<u64>,
}

/// What the front end is told of a format, but for the bitrates and the
/// quality estimate.
pub struct FormatSummary {
    pub format_id: String,
    pub ext: String,
    pub resolution: String,
    pub note: String,
    pub filesize: Option<u64>,
    pub vcodec: String,
    pub acodec: String,
    pub codec_label: String,
    pub height: Option<i64>,
    pub hdr: bool,
}

/// The size of a format: its exact size, else its approximate size.
pub open spec fn size_of(f: &RawFormat) -> Option<u64> {
    match f.filesize {
        Some(n) => Some(n),
        None => f.filesize_approx,
    }
}

/// Summarises a format: the resolution falls back to the note, the size to
/// the approximate size; the codec label and HDR flag are computed.
pub fn format_summary(f: RawFormat) -> (s: FormatSummary)
    ensures
        s.format_id@ == f.format_id@,
        s.ext@ == f.ext@,
        s.resolution@ == (if f.resolution@.len() == 0 {
            f.format_note@
        } else {
            f.resolution@
        }),
        s.note@ == f.format_note@,
        s.filesize == size_of(&f),
        s.vcodec@ == f.vcodec@,
        s.acodec@ == f.acodec@,
        s.codec_label@ == spec_codec_label(f.vcodec@, f.acodec@),
        s.height == f.height,
        s.hdr == (contains(uppercase(f.dynamic_range@), "HDR"@) || contains(
            uppercase(f.format_note@),
            "HDR"@,
        )),
{
    let resolution = display_resolution(f.resolution.as_str(), f.format_note.as_str());
    let codec_label = codec_label(f.vcodec.as_str(), f.acodec.as_str());
    let hdr = is_hdr(f.dynamic_range.as_str(), f.format_note.as_str());
    let filesize = match f.filesize {
        Some(n) => Some(n),
        None => f.filesize_approx,
    };
    FormatSummary {
        format_id: f.format_id,
        ext: f.ext,
        resolution,
        note: f.format_note,
        filesize,
        vcodec: f.vcodec,
        acodec: f.acodec,
        codec_label,
        height: f.height,
        hdr,
    }
}

/// No two languages listed share both code and kind.
pub proof fn law_subs_unique(manual: Seq<SubtitleEntry>, automatic: Seq<SubtitleEntry>)
    ensures
        ({
            let r = spec_extract_subs(manual, automatic);
            forall|i: int, j: int|
                0 <= i < j < r.len() ==> !(#[trigger] r[i].0 == #[trigger] r[j].0 && r[i].2 == r[j].2)
        }),
{
    lemma_first_of_each_unique(entry_langs(manual, false) + entry_langs(automatic, true));
}

proof fn lemma_first_of_each_unique(s: Seq<(Seq<char>, Seq<char>, bool)>)
    ensures
        forall|i: int, j: int|
            0 <= i < j < first_of_each(s).len() ==> !(#[trigger] first_of_each(s)[i].0
                == #[trigger] first_of_each(s)[j].0 && first_of_each(s)[i].2 == first_of_each(s)[j].2),
    decreases s.len(),
{
    if s.len() > 0 {
        lemma_first_of_each_unique(s.drop_last());
        let d = first_of_each(s.drop_last());
        if !has_lang(d, s.last()) {
            let e = d.push(s.last());
            assert forall|i: int, j: int| 0 <= i < j < e.len() implies !(#[trigger] e[i].0
                == #[trigger] e[j].0 && e[i].2 == e[j].2) by {
                if j < d.len() {
                    assert(e[i] == d[i] && e[j] == d[j]);
                } else {
                    assert(e[i] == d[i]);
                    if e[i].0 == e[j].0 && e[i].2 == e[j].2 {
                        assert(d[i].0 == s.last().0 && d[i].2 == s.last().2);
                    }
                }
            }
        }
    }
}

} // verus!

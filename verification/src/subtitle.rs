//! Bilingual subtitles: SRT parsing, ASS timestamps and the merged ASS script
//! (main line large on top, overlapping secondary lines small below).

use vstd::prelude::*;
use crate::text::{
    all_digits, digits_value, is_digit, lemma_decimal_digits, lemma_find_first_from,
    lemma_find_none_from, lemma_matches_char, lemma_parse_digits, lemma_two_digits, matches_at,
    split_from, chars_of, contains, contains_exec, copy_range, decimal, find, find_from_exec, is_blank, join,
    join_exec, lemma_find_from, lemma_split_nonempty, parse_u64, parse_u64_chars, push_char,
    push_decimal, push_str, push_two_digits, replace_char, replace_char_exec, split_exec, split_on,
    string_of, trim, trim_chars, two_digits, views,
};

verus! {

/// One subtitle cue: start and end in milliseconds, and its text.
pub struct Cue {
    pub start: u64,
    pub end: u64,
    pub text: String,
}

impl View for Cue {
    type V = (u64, u64, Seq<char>);

    open spec fn view(&self) -> (u64, u64, Seq<char>) {
        (self.start, self.end, self.text@)
    }
}

/// The views of a sequence of cues.
pub open spec fn cue_views(v: Seq<Cue>) -> Seq<(u64, u64, Seq<char>)> {
    v.map_values(|c: Cue| c@)
}

// ---------------------------------------------------------------------------
// Timestamps: "HH:MM:SS,mmm" / "HH:MM:SS.mmm" / "MM:SS.mmm"
// ---------------------------------------------------------------------------

/// The clock part and the fraction part of a timestamp: the trimmed text with
/// `,` read as `.`, split at its first `.` (the fraction is "0" when there is none).
pub open spec fn ts_fields(s: Seq<char>) -> (Seq<char>, Seq<char>) {
    let t = replace_char(trim(s), ',', '.');
    match find(t, seq!['.']) {
        Some(i) => (t.take(i), t.skip(i + 1)),
        None => (t, seq!['0']),
    }
}

/// The fraction padded on the right with '0' to three characters, then cut to three.
pub open spec fn millis_digits(ms: Seq<char>) -> Seq<char> {
    if ms.len() >= 3 {
        ms.take(3)
    } else {
        ms + Seq::new((3 - ms.len()) as nat, |_i: int| '0')
    }
}

/// Seconds of "H:M:S" or "M:S" whose fields each parse as a `u64`.
pub open spec fn clock_seconds(hms: Seq<char>) -> Option<int> {
    let parts = split_on(hms, seq![':']);
    if parts.len() == 3 {
        match (parse_u64(parts[0]), parse_u64(parts[1]), parse_u64(parts[2])) {
            (Some(h), Some(m), Some(x)) => Some(h * 3600 + m * 60 + x),
            _ => None,
        }
    } else if parts.len() == 2 {
        match (parse_u64(parts[0]), parse_u64(parts[1])) {
            (Some(m), Some(x)) => Some(m * 60 + x),
            _ => None,
        }
    } else {
        None
    }
}

/// The milliseconds a timestamp denotes, as an unbounded integer.
pub open spec fn ts_value(s: Seq<char>) -> Option<int> {
    let (hms, ms) = ts_fields(s);
    match (clock_seconds(hms), parse_u64(millis_digits(ms))) {
        (Some(t), Some(f)) => Some(t * 1000 + f),
        _ => None,
    }
}

/// The milliseconds a timestamp denotes fit in a `u64` (so computing them
/// does not overflow).
pub open spec fn ts_in_range(s: Seq<char>) -> bool {
    ts_value(s) matches Some(v) ==> v <= u64::MAX
}

/// What `parse_ts` returns for `s`.
pub open spec fn spec_parse_ts(s: Seq<char>) -> Option<u64> {
    match ts_value(s) {
        Some(v) => Some(v as u64),
        None => None,
    }
}

/// The fraction of a timestamp as three digit characters.
fn millis_chars(ms: &Vec<char>) -> (r: Vec<char>)
    ensures
        r@ == millis_digits(ms@),
{
    if ms.len() >= 3 {
        copy_range(ms, 0, 3)
    } else {
        let mut r = copy_range(ms, 0, ms.len());
        let ghost base = r@;
        let k = 3 - ms.len();
        let mut i: usize = 0;
        while i < k
            invariant
                i <= k,
                k == 3 - ms@.len(),
                base == ms@,
                r@ == base + Seq::new(i as nat, |_i: int| '0'),
            decreases k - i,
        {
            r.push('0');
            i = i + 1;
            assert(r@ =~= base + Seq::new(i as nat, |_i: int| '0'));
        }
        r
    }
}

/// Parses a timestamp given as characters.
pub fn parse_ts_chars(v: &Vec<char>) -> (r: Option<u64>)
    requires
        ts_in_range(v@),
    ensures
        r == spec_parse_ts(v@),
{
    match ts_checked(v) {
        Ok(x) => x,
        Err(()) => None,
    }
}

/// Parses a timestamp given as characters; `Err` when the milliseconds it
/// denotes do not fit in a `u64`.
pub fn ts_checked(v: &Vec<char>) -> (r: Result<Option<u64>, ()>)
    ensures
        match r {
            Ok(x) => ts_in_range(v@) && x == spec_parse_ts(v@),
            Err(()) => !ts_in_range(v@),
        },
{
    let trimmed = trim_chars(v);
    let t = replace_char_exec(&trimmed, ',', '.');
    let dot = vec!['.'];
    assert(dot@ =~= seq!['.']);
    let (hms, ms) = match find_from_exec(&t, &dot, 0) {
        Some(i) => {
            proof {
                lemma_find_from(t@, dot@, 0);
            }
            let len = t.len();
            assert(i < len);
            let j = i + 1;
            (copy_range(&t, 0, i), copy_range(&t, j, len))
        },
        None => (t, vec!['0']),
    };
    assert(hms@ =~= ts_fields(v@).0);
    assert(ms@ =~= ts_fields(v@).1);
    let colon = vec![':'];
    assert(colon@ =~= seq![':']);
    let parts = split_exec(&hms, &colon);
    assert(views(parts@) == split_on(hms@, seq![':']));
    let clock: Option<(u64, u64, u64)> = if parts.len() == 3 {
        assert(parts@[0]@ == split_on(hms@, seq![':'])[0]);
        assert(parts@[1]@ == split_on(hms@, seq![':'])[1]);
        assert(parts@[2]@ == split_on(hms@, seq![':'])[2]);
        match (parse_u64_chars(&parts[0]), parse_u64_chars(&parts[1]), parse_u64_chars(&parts[2])) {
            (Some(h), Some(m), Some(x)) => Some((h, m, x)),
            _ => None,
        }
    } else if parts.len() == 2 {
        assert(parts@[0]@ == split_on(hms@, seq![':'])[0]);
        assert(parts@[1]@ == split_on(hms@, seq![':'])[1]);
        match (parse_u64_chars(&parts[0]), parse_u64_chars(&parts[1])) {
            (Some(m), Some(x)) => Some((0, m, x)),
            _ => None,
        }
    } else {
        None
    };
    assert(clock is None ==> ts_value(v@) is None);
    match clock {
        None => Ok(None),
        Some((h, m, x)) => {
            let md = millis_chars(&ms);
            match parse_u64_chars(&md) {
                None => Ok(None),
                Some(f) => {
                    let ghost total: int = (h * 3600 + m * 60 + x) * 1000 + f;
                    assert(ts_value(v@) == Some(total));
                    assert(h * 3600 <= total && h * 3600 + m * 60 <= total && h * 3600 + m * 60
                        + x <= total && (h * 3600 + m * 60 + x) * 1000 <= total) by (nonlinear_arith)
                        requires
                            total == (h * 3600 + m * 60 + x) * 1000 + f,
                            h >= 0,
                            m >= 0,
                            x >= 0,
                            f >= 0,
                    ;
                    let h3600 = match h.checked_mul(3600) {
                        Some(a) => a,
                        None => {
                            return Err(());
                        },
                    };
                    let m60 = match m.checked_mul(60) {
                        Some(a) => a,
                        None => {
                            return Err(());
                        },
                    };
                    let hm = match h3600.checked_add(m60) {
                        Some(a) => a,
                        None => {
                            return Err(());
                        },
                    };
                    let secs = match hm.checked_add(x) {
                        Some(a) => a,
                        None => {
                            return Err(());
                        },
                    };
                    let ms_total = match secs.checked_mul(1000) {
                        Some(a) => a,
                        None => {
                            return Err(());
                        },
                    };
                    match ms_total.checked_add(f) {
                        Some(a) => Ok(Some(a)),
                        None => Err(()),
                    }
                },
            }
        },
    }
}

/// "HH:MM:SS,mmm" / "HH:MM:SS.mmm" (also "MM:SS.mmm") to milliseconds.
pub fn parse_ts(s: &str) -> (r: Option<u64>)
    requires
        ts_in_range(s@),
    ensures
        r == spec_parse_ts(s@),
{
    let v = chars_of(s);
    parse_ts_chars(&v)
}

/// The ASS rendering "H:MM:SS.cc" of a time in milliseconds.
pub open spec fn spec_ass_ts(ms: u64) -> Seq<char> {
    let total_s = ms / 1000;
    decimal((total_s / 3600) as nat) + seq![':'] + two_digits(((total_s / 60) % 60) as nat)
        + seq![':'] + two_digits((total_s % 60) as nat) + seq!['.'] + two_digits(
        ((ms % 1000) / 10) as nat,
    )
}

/// Appends the ASS rendering of a time in milliseconds.
fn push_ass_ts(out: &mut String, ms: u64)
    ensures
        final(out)@ == old(out)@ + spec_ass_ts(ms),
{
    let cs = (ms % 1000) / 10;
    let total_s = ms / 1000;
    let s = total_s % 60;
    let m = (total_s / 60) % 60;
    let h = total_s / 3600;
    push_decimal(out, h);
    push_char(out, ':');
    push_two_digits(out, m);
    push_char(out, ':');
    push_two_digits(out, s);
    push_char(out, '.');
    push_two_digits(out, cs);
    assert(final(out)@ =~= old(out)@ + spec_ass_ts(ms));
}

/// Milliseconds to the ASS time "H:MM:SS.cc" (centiseconds, truncated).
pub fn ass_ts(ms: u64) -> (r: String)
    ensures
        r@ == spec_ass_ts(ms),
{
    let mut out = String::new();
    push_ass_ts(&mut out, ms);
    out
}

/// Text made safe for an ASS event: newline to space, braces to parentheses.
pub open spec fn spec_ass_escape(t: Seq<char>) -> Seq<char> {
    t.map_values(
        |c: char|
            if c == '\n' {
                ' '
            } else if c == '{' {
                '('
            } else if c == '}' {
                ')'
            } else {
                c
            },
    )
}

/// Appends the escaped characters of `t`.
fn push_escaped(out: &mut String, t: &[char])
    ensures
        final(out)@ == old(out)@ + spec_ass_escape(t@),
{
    let n = t.len();
    let mut i: usize = 0;
    while i < n
        invariant
            i <= n,
            n == t@.len(),
            out@ == old(out)@ + spec_ass_escape(t@.take(i as int)),
        decreases n - i,
    {
        let c = t[i];
        let e = if c == '\n' {
            ' '
        } else if c == '{' {
            '('
        } else if c == '}' {
            ')'
        } else {
            c
        };
        push_char(out, e);
        i = i + 1;
        assert(spec_ass_escape(t@.take(i as int)) =~= spec_ass_escape(t@.take((i - 1) as int)).push(
            e,
        ));
    }
    assert(t@.take(n as int) =~= t@);
}

/// Escapes text for an ASS event line.
pub fn ass_escape(t: &str) -> (r: String)
    ensures
        r@ == spec_ass_escape(t@),
{
    let v = chars_of(t);
    let mut out = String::new();
    push_escaped(&mut out, &v);
    out
}

// ---------------------------------------------------------------------------
// SRT parsing
// ---------------------------------------------------------------------------

/// `s` with every "\r\n" and every other '\r' turned into '\n'.
pub open spec fn normalize_newlines(s: Seq<char>) -> Seq<char>
    decreases s.len(),
{
    if s.len() == 0 {
        s
    } else if s[0] == '\r' && s.len() > 1 && s[1] == '\n' {
        seq!['\n'] + normalize_newlines(s.skip(2))
    } else if s[0] == '\r' {
        seq!['\n'] + normalize_newlines(s.skip(1))
    } else {
        seq![s[0]] + normalize_newlines(s.skip(1))
    }
}

/// Normalizes line endings.
fn normalize_exec(v: &Vec<char>) -> (r: Vec<char>)
    ensures
        r@ == normalize_newlines(v@),
{
    let n = v.len();
    let mut r: Vec<char> = Vec::new();
    let mut i: usize = 0;
    assert(v@.skip(0) =~= v@);
    while i < n
        invariant
            i <= n,
            n == v@.len(),
            r@ + normalize_newlines(v@.skip(i as int)) == normalize_newlines(v@),
        decreases n - i,
    {
        let ghost rest = v@.skip(i as int);
        let ghost before = r@;
        r.push('\n');
        if v[i] == '\r' && i + 1 < n && v[i + 1] == '\n' {
            assert(rest.skip(2) =~= v@.skip(i + 2));
            assert(r@ + normalize_newlines(v@.skip(i + 2)) =~= before + normalize_newlines(rest));
            i = i + 2;
        } else if v[i] == '\r' {
            assert(rest.skip(1) =~= v@.skip(i + 1));
            assert(r@ + normalize_newlines(v@.skip(i + 1)) =~= before + normalize_newlines(rest));
            i = i + 1;
        } else {
            r.pop();
            r.push(v[i]);
            assert(rest.skip(1) =~= v@.skip(i + 1));
            assert(r@ + normalize_newlines(v@.skip(i + 1)) =~= before + normalize_newlines(rest));
            i = i + 1;
        }
    }
    assert(v@.skip(n as int) =~= Seq::<char>::empty());
    assert(r@ + Seq::<char>::empty() =~= r@);
    r
}

/// The blocks of an SRT text: its normalized text split at each blank line "\n\n".
pub open spec fn srt_blocks(content: Seq<char>) -> Seq<Seq<char>> {
    split_on(normalize_newlines(content), seq!['\n', '\n'])
}

/// The lines of a block (no '\r' remains after normalizing): pieces between
/// '\n', without the empty piece after a final '\n'.
pub open spec fn block_lines(b: Seq<char>) -> Seq<Seq<char>> {
    let parts = split_on(b, seq!['\n']);
    if parts.len() > 0 && parts.last().len() == 0 {
        parts.drop_last()
    } else {
        parts
    }
}

/// The index of the first line at or after `i` that contains `p`.
pub open spec fn first_line_with(lines: Seq<Seq<char>>, p: Seq<char>, i: int) -> Option<int>
    decreases lines.len() - i,
{
    if i < 0 || i >= lines.len() {
        None
    } else if contains(lines[i], p) {
        Some(i)
    } else {
        first_line_with(lines, p, i + 1)
    }
}

/// The two sides of the timing line of a block, when it has exactly one "-->".
pub open spec fn block_timing(b: Seq<char>) -> Option<(Seq<char>, Seq<char>)> {
    let lines = block_lines(b);
    match first_line_with(lines, "-->"@, 0) {
        None => None,
        Some(k) => {
            let parts = split_on(lines[k], "-->"@);
            if parts.len() == 2 {
                Some((parts[0], parts[1]))
            } else {
                None
            }
        },
    }
}

/// The cue a block holds: the first line with "-->" gives both times, the
/// lines after it joined with spaces and trimmed give a non-empty text.
pub open spec fn spec_parse_block(b: Seq<char>) -> Option<(u64, u64, Seq<char>)> {
    let lines = block_lines(b);
    match first_line_with(lines, "-->"@, 0) {
        None => None,
        Some(k) => {
            let parts = split_on(lines[k], "-->"@);
            if parts.len() != 2 {
                None
            } else {
                match (spec_parse_ts(parts[0]), spec_parse_ts(parts[1])) {
                    (Some(start), Some(end)) => {
                        let text = trim(join(lines.skip(k + 1), seq![' ']));
                        if text.len() == 0 {
                            None
                        } else {
                            Some((start, end, text))
                        }
                    },
                    _ => None,
                }
            }
        },
    }
}

/// Both times of a block's timing line fit in a `u64`.
pub open spec fn block_in_range(b: Seq<char>) -> bool {
    block_timing(b) matches Some((a, e)) ==> ts_in_range(a) && ts_in_range(e)
}

/// Every block of an SRT text has times that fit in a `u64`.
pub open spec fn srt_in_range(content: Seq<char>) -> bool {
    forall|i: int| 0 <= i < srt_blocks(content).len() ==> block_in_range(#[trigger] srt_blocks(content)[i])
}

/// The cues of a sequence of blocks, in order, skipping blocks that hold none.
pub open spec fn cues_of_blocks(bs: Seq<Seq<char>>) -> Seq<(u64, u64, Seq<char>)>
    decreases bs.len(),
{
    if bs.len() == 0 {
        Seq::empty()
    } else {
        cues_of_blocks(bs.drop_last()) + match spec_parse_block(bs.last()) {
            Some(c) => seq![c],
            None => Seq::empty(),
        }
    }
}

/// What `parse_srt` returns for a text.
pub open spec fn spec_parse_srt(content: Seq<char>) -> Seq<(u64, u64, Seq<char>)> {
    cues_of_blocks(srt_blocks(content))
}

/// The index of the first line at or after `from` that contains `p`.
fn first_line_with_exec(lines: &Vec<Vec<char>>, p: &[char], from: usize) -> (r: Option<usize>)
    ensures
        r matches Some(k) ==> first_line_with(views(lines@), p@, from as int) == Some(k as int),
        r is None ==> first_line_with(views(lines@), p@, from as int) is None,
{
    let n = lines.len();
    let mut i = from;
    while i < n
        invariant
            from <= i,
            n == lines@.len(),
            first_line_with(views(lines@), p@, from as int) == first_line_with(
                views(lines@),
                p@,
                i as int,
            ),
        decreases n - i,
    {
        if contains_exec(&lines[i], p) {
            return Some(i);
        }
        i = i + 1;
    }
    None
}

/// The lines of a block.
fn block_lines_exec(b: &Vec<char>) -> (r: Vec<Vec<char>>)
    ensures
        views(r@) == block_lines(b@),
{
    let nl = vec!['\n'];
    assert(nl@ =~= seq!['\n']);
    let mut parts = split_exec(b, &nl);
    proof {
        lemma_split_nonempty(b@, seq!['\n'], 0);
    }
    let n = parts.len();
    if n > 0 && parts[n - 1].len() == 0 {
        let ghost before = views(parts@);
        parts.pop();
        assert(views(parts@) =~= before.drop_last());
    }
    parts
}

/// The cue of one block; `Err` when a time of its timing line does not fit
/// in a `u64`.
fn parse_block(b: &Vec<char>) -> (r: Result<Option<Cue>, ()>)
    ensures
        match r {
            Ok(Some(c)) => block_in_range(b@) && spec_parse_block(b@) == Some(c@),
            Ok(None) => block_in_range(b@) && spec_parse_block(b@) is None,
            Err(()) => !block_in_range(b@),
        },
{
    let lines = block_lines_exec(b);
    let arrow = chars_of("-->");
    proof {
        reveal_strlit("-->");
    }
    let k = match first_line_with_exec(&lines, &arrow, 0) {
        Some(k) => k,
        None => {
            return Ok(None);
        },
    };
    proof {
        lemma_first_line_bounds(views(lines@), arrow@, 0);
        assert(views(lines@).len() == lines@.len());
    }
    assert(k < lines.len());
    let parts = split_exec(&lines[k], &arrow);
    if parts.len() != 2 {
        return Ok(None);
    }
    assert(parts@[0]@ == split_on(lines@[k as int]@, "-->"@)[0]);
    assert(parts@[1]@ == split_on(lines@[k as int]@, "-->"@)[1]);
    let start = ts_checked(&parts[0]);
    let end = ts_checked(&parts[1]);
    match (start, end) {
        (Ok(Some(start)), Ok(Some(end))) => {
            let sp = vec![' '];
            assert(sp@ =~= seq![' ']);
            let joined = join_exec(&lines, k + 1, &sp);
            let text = trim_chars(&joined);
            if text.len() == 0 {
                return Ok(None);
            }
            let c = Cue { start, end, text: string_of(&text) };
            Ok(Some(c))
        },
        (Ok(_), Ok(_)) => Ok(None),
        _ => Err(()),
    }
}

/// `first_line_with` returns an index of a line.
proof fn lemma_first_line_bounds(lines: Seq<Seq<char>>, p: Seq<char>, i: int)
    ensures
        first_line_with(lines, p, i) matches Some(k) ==> 0 <= k < lines.len(),
    decreases lines.len() - i,
{
    if i < 0 || i >= lines.len() {
    } else if contains(lines[i], p) {
    } else {
        lemma_first_line_bounds(lines, p, i + 1);
    }
}

/// Parses SRT text into cues: blocks are separated by blank lines; in each,
/// the first line with "-->" holds the start and end, the lines after it form
/// the text. Blocks without a readable timing line or without text are skipped.
pub fn parse_srt(content: &str) -> (r: Vec<Cue>)
    requires
        srt_in_range(content@),
    ensures
        cue_views(r@) == spec_parse_srt(content@),
{
    match parse_srt_checked(content) {
        Some(v) => v,
        None => Vec::new(),
    }
}

/// Whether every time in an SRT text fits in a `u64` (what `parse_srt` requires).
pub fn srt_times_fit(content: &str) -> (b: bool)
    ensures
        b == srt_in_range(content@),
{
    parse_srt_checked(content).is_some()
}

/// `parse_srt`, or `None` when some time in the text does not fit in a `u64`.
pub fn parse_srt_checked(content: &str) -> (r: Option<Vec<Cue>>)
    ensures
        match r {
            Some(v) => srt_in_range(content@) && cue_views(v@) == spec_parse_srt(content@),
            None => !srt_in_range(content@),
        },
{
    let v = chars_of(content);
    let normalized = normalize_exec(&v);
    let sep = vec!['\n', '\n'];
    assert(sep@ =~= seq!['\n', '\n']);
    let blocks = split_exec(&normalized, &sep);
    let ghost bs = views(blocks@);
    assert(bs == srt_blocks(content@));
    let mut cues: Vec<Cue> = Vec::new();
    let n = blocks.len();
    let mut i: usize = 0;
    while i < n
        invariant
            i <= n,
            n == blocks@.len(),
            bs == views(blocks@),
            bs == srt_blocks(content@),
            forall|j: int| 0 <= j < i ==> block_in_range(#[trigger] bs[j]),
            cue_views(cues@) == cues_of_blocks(bs.take(i as int)),
        decreases n - i,
    {
        assert(bs[i as int] == blocks@[i as int]@);
        let ghost before = cue_views(cues@);
        assert(bs.take(i + 1).drop_last() =~= bs.take(i as int));
        assert(bs.take(i + 1).last() == bs[i as int]);
        match parse_block(&blocks[i]) {
            Ok(Some(c)) => {
                cues.push(c);
                assert(cue_views(cues@) =~= before + seq![c@]);
            },
            Ok(None) => {
                assert(cue_views(cues@) =~= before + Seq::empty());
            },
            Err(()) => {
                assert(!block_in_range(srt_blocks(content@)[i as int]));
                return None;
            },
        }
        i = i + 1;
    }
    assert(bs.take(n as int) =~= bs);
    Some(cues)
}

// ---------------------------------------------------------------------------
// Merged ASS script
// ---------------------------------------------------------------------------

/// The script header and style of the merged ASS file.
pub const ASS_HEADER: &'static str = "[Script Info]\nScriptType: v4.00+\nPlayResX: 384\nPlayResY: 288\nWrapStyle: 2\n\n\
         [V4+ Styles]\n\
         Format: Name, Fontname, Fontsize, PrimaryColour, SecondaryColour, OutlineColour, BackColour, Bold, Italic, Underline, StrikeOut, ScaleX, ScaleY, Spacing, Angle, BorderStyle, Outline, Shadow, Alignment, MarginL, MarginR, MarginV, Encoding\n\
         Style: Default,Arial,28,&H00FFFFFF,&H000000FF,&H00000000,&H80000000,0,0,0,0,100,100,0,0,1,2,1,2,10,10,14,1\n\n\
         [Events]\n\
         Format: Layer, Start, End, Style, Name, MarginL, MarginR, MarginV, Effect, Text\n";

/// Whether two cues overlap in time.
pub open spec fn overlaps(sc: (u64, u64, Seq<char>), mc: (u64, u64, Seq<char>)) -> bool {
    sc.0 < mc.1 && sc.1 > mc.0
}

/// The texts of the secondary cues that overlap `mc`, in order.
pub open spec fn overlapping_texts(sec: Seq<(u64, u64, Seq<char>)>, mc: (u64, u64, Seq<char>)) -> Seq<
    Seq<char>,
>
    decreases sec.len(),
{
    if sec.len() == 0 {
        Seq::empty()
    } else {
        overlapping_texts(sec.drop_last(), mc) + if overlaps(sec.last(), mc) {
            seq![sec.last().2]
        } else {
            Seq::empty()
        }
    }
}

/// The text of the event for `mc`: the main text at size 28, and when some
/// secondary text overlaps it, a line break and that text at size 18.
pub open spec fn event_text(mc: (u64, u64, Seq<char>), sec: Seq<(u64, u64, Seq<char>)>) -> Seq<char> {
    let st = join(overlapping_texts(sec, mc), seq![' ']);
    if is_blank(st) {
        "{\\fs28}"@ + spec_ass_escape(mc.2)
    } else {
        "{\\fs28}"@ + spec_ass_escape(mc.2) + "\\N{\\fs18}"@ + spec_ass_escape(st)
    }
}

/// The "Dialogue:" line for `mc`.
pub open spec fn dialogue_line(mc: (u64, u64, Seq<char>), sec: Seq<(u64, u64, Seq<char>)>) -> Seq<
    char,
> {
    "Dialogue: 0,"@ + spec_ass_ts(mc.0) + ","@ + spec_ass_ts(mc.1) + ",Default,,0,0,0,,"@
        + event_text(mc, sec) + "\n"@
}

/// The dialogue lines for each main cue, in order.
pub open spec fn dialogue_lines(main: Seq<(u64, u64, Seq<char>)>, sec: Seq<(u64, u64, Seq<char>)>) -> Seq<
    char,
>
    decreases main.len(),
{
    if main.len() == 0 {
        Seq::empty()
    } else {
        dialogue_lines(main.drop_last(), sec) + dialogue_line(main.last(), sec)
    }
}

/// What `merge_to_ass` returns.
pub open spec fn spec_merge_to_ass(main: Seq<(u64, u64, Seq<char>)>, sec: Seq<(u64, u64, Seq<char>)>) -> Seq<
    char,
> {
    ASS_HEADER@ + dialogue_lines(main, sec)
}

/// The texts of the cues of `sec` that overlap `mc`.
fn overlapping_exec(sec: &[Cue], mc: &Cue) -> (r: Vec<Vec<char>>)
    ensures
        views(r@) == overlapping_texts(cue_views(sec@), mc@),
{
    let n = sec.len();
    let mut r: Vec<Vec<char>> = Vec::new();
    let mut j: usize = 0;
    while j < n
        invariant
            j <= n,
            n == sec@.len(),
            views(r@) == overlapping_texts(cue_views(sec@).take(j as int), mc@),
        decreases n - j,
    {
        let sc = &sec[j];
        let ghost before = views(r@);
        assert(cue_views(sec@).take(j + 1).drop_last() =~= cue_views(sec@).take(j as int));
        assert(cue_views(sec@).take(j + 1).last() == sc@);
        if sc.start < mc.end && sc.end > mc.start {
            let t = chars_of(sc.text.as_str());
            r.push(t);
            assert(views(r@) =~= before + seq![sc@.2]);
        } else {
            assert(views(r@) =~= before + Seq::empty());
        }
        j = j + 1;
    }
    assert(cue_views(sec@).take(n as int) =~= cue_views(sec@));
    r
}

/// Appends the "Dialogue:" line for `mc`.
fn push_dialogue(out: &mut String, mc: &Cue, sec: &[Cue])
    ensures
        final(out)@ == old(out)@ + dialogue_line(mc@, cue_views(sec@)),
{
    let texts = overlapping_exec(sec, mc);
    let sp = vec![' '];
    assert(sp@ =~= seq![' ']);
    let st = join_exec(&texts, 0, &sp);
    assert(views(texts@).skip(0) =~= views(texts@));
    let trimmed = trim_chars(&st);
    let mtext = chars_of(mc.text.as_str());
    push_str(out, "Dialogue: 0,");
    push_ass_ts(out, mc.start);
    push_str(out, ",");
    push_ass_ts(out, mc.end);
    push_str(out, ",Default,,0,0,0,,");
    let ghost mid = out@;
    push_str(out, "{\\fs28}");
    push_escaped(out, &mtext);
    if trimmed.len() != 0 {
        push_str(out, "\\N{\\fs18}");
        push_escaped(out, &st);
    }
    assert(out@ =~= mid + event_text(mc@, cue_views(sec@)));
    push_str(out, "\n");
    assert(out@ =~= old(out)@ + dialogue_line(mc@, cue_views(sec@)));
}

/// Builds the bilingual ASS script: one "Dialogue:" event per main cue, on the
/// main cue's timing; secondary cues that overlap it in time are joined with
/// spaces and shown small below the main text.
pub fn merge_to_ass(main: &[Cue], sec: &[Cue]) -> (r: String)
    ensures
        r@ == spec_merge_to_ass(cue_views(main@), cue_views(sec@)),
{
    let mut out = String::new();
    push_str(&mut out, ASS_HEADER);
    let n = main.len();
    let mut i: usize = 0;
    let ghost ms = cue_views(main@);
    let ghost ss = cue_views(sec@);
    while i < n
        invariant
            i <= n,
            n == main@.len(),
            ms == cue_views(main@),
            ss == cue_views(sec@),
            out@ == ASS_HEADER@ + dialogue_lines(ms.take(i as int), ss),
        decreases n - i,
    {
        let ghost before = out@;
        push_dialogue(&mut out, &main[i], sec);
        assert(ms.take(i + 1).drop_last() =~= ms.take(i as int));
        assert(ms.take(i + 1).last() == main@[i as int]@);
        assert(out@ =~= ASS_HEADER@ + dialogue_lines(ms.take(i + 1), ss));
        i = i + 1;
    }
    assert(ms.take(n as int) =~= ms);
    out
}

/// What `bilingual_ass` returns for the two SRT texts.
pub open spec fn spec_bilingual_ass(main_srt: Seq<char>, sec_srt: Seq<char>) -> Result<Seq<char>, Seq<char>> {
    if spec_parse_srt(main_srt).len() == 0 {
        Err("主字幕为空"@)
    } else {
        Ok(spec_merge_to_ass(spec_parse_srt(main_srt), spec_parse_srt(sec_srt)))
    }
}

/// The bilingual ASS script for a main and a secondary SRT text; refused
/// when the main text holds no cue.
pub fn bilingual_ass(main_srt: &str, sec_srt: &str) -> (r: Result<String, String>)
    requires
        srt_in_range(main_srt@),
        srt_in_range(sec_srt@),
    ensures
        match r {
            Ok(s) => spec_bilingual_ass(main_srt@, sec_srt@) == Ok::<Seq<char>, Seq<char>>(s@),
            Err(e) => spec_bilingual_ass(main_srt@, sec_srt@) == Err::<Seq<char>, Seq<char>>(e@),
        },
{
    let main_cues = parse_srt(main_srt);
    let sec_cues = parse_srt(sec_srt);
    if main_cues.len() == 0 {
        return Err(crate::text::owned("主字幕为空"));
    }
    Ok(merge_to_ass(&main_cues, &sec_cues))
}

/// The characters of a rendered time: digits, except ':' after the hours
/// and after the minutes, and '.' before the centiseconds.
proof fn lemma_ass_ts_chars(ms: u64)
    ensures
        ({
            let t = ms / 1000;
            let a = decimal((t / 3600) as nat).len() as int;
            let s = spec_ass_ts(ms);
            &&& a >= 1
            &&& s.len() == a + 9
            &&& s[a] == ':' && s[a + 3] == ':' && s[a + 6] == '.'
            &&& forall|i: int|
                0 <= i < s.len() && i != a && i != a + 3 && i != a + 6 ==> is_digit(#[trigger] s[i])
            &&& s.take(a) == decimal((t / 3600) as nat)
            &&& s.subrange(a + 1, a + 3) == two_digits(((t / 60) % 60) as nat)
            &&& s.subrange(a + 4, a + 6) == two_digits((t % 60) as nat)
            &&& s.skip(a + 7) == two_digits(((ms % 1000) / 10) as nat)
        }),
{
    let t = ms / 1000;
    let d = decimal((t / 3600) as nat);
    let x = two_digits(((t / 60) % 60) as nat);
    let y = two_digits((t % 60) as nat);
    let z = two_digits(((ms % 1000) / 10) as nat);
    let a = d.len() as int;
    let s = spec_ass_ts(ms);
    lemma_decimal_digits((t / 3600) as nat);
    lemma_two_digits(((t / 60) % 60) as nat);
    lemma_two_digits((t % 60) as nat);
    lemma_two_digits(((ms % 1000) / 10) as nat);
    assert(s =~= d + seq![':'] + x + seq![':'] + y + seq!['.'] + z);
    assert forall|i: int| 0 <= i < s.len() && i != a && i != a + 3 && i != a + 6 implies is_digit(
        #[trigger] s[i],
    ) by {
        if i < a {
            assert(s[i] == d[i]);
        } else if i < a + 3 {
            assert(s[i] == x[i - a - 1]);
        } else if i < a + 6 {
            assert(s[i] == y[i - a - 4]);
        } else {
            assert(s[i] == z[i - a - 7]);
        }
    }
    assert(s.take(a) =~= d);
    assert(s.subrange(a + 1, a + 3) =~= x);
    assert(s.subrange(a + 4, a + 6) =~= y);
    assert(s.skip(a + 7) =~= z);
}

/// A time rendered for ASS reads back as a timestamp: the same time cut to
/// whole centiseconds.
pub proof fn law_ass_ts_roundtrip(ms: u64)
    ensures
        spec_parse_ts(spec_ass_ts(ms)) == Some(((ms / 10) * 10) as u64),
        ts_in_range(spec_ass_ts(ms)),
{
    let t = ms / 1000;
    let h = t / 3600;
    let m = (t / 60) % 60;
    let sec = t % 60;
    let cs = (ms % 1000) / 10;
    let d = decimal(h as nat);
    let a = d.len() as int;
    let s = spec_ass_ts(ms);
    lemma_ass_ts_chars(ms);
    lemma_decimal_digits(h as nat);
    lemma_two_digits(m as nat);
    lemma_two_digits(sec as nat);
    lemma_two_digits(cs as nat);
    // No whitespace at the ends, no ',' anywhere.
    assert(is_digit(s[0]));
    assert(is_digit(s[s.len() - 1]));
    crate::text::lemma_trim_id(s);
    assert(replace_char(trim(s), ',', '.') =~= s) by {
        assert forall|i: int| 0 <= i < s.len() implies s[i] != ',' by {
            if i != a && i != a + 3 && i != a + 6 {
                assert(is_digit(s[i]));
            }
        }
    }
    // The first '.' is before the centiseconds.
    assert forall|j: int| 0 <= j < a + 6 implies !#[trigger] matches_at(s, seq!['.'], j) by {
        lemma_matches_char(s, '.', j);
        if j != a && j != a + 3 {
            assert(is_digit(s[j]));
        }
    }
    lemma_matches_char(s, '.', a + 6);
    lemma_find_first_from(s, seq!['.'], 0, a + 6);
    let hms = s.take(a + 6);
    assert(ts_fields(s) == (hms, s.skip(a + 7)));
    // The clock splits into hours, minutes and seconds.
    let c = seq![':'];
    assert forall|j: int| 0 <= j < a implies !#[trigger] matches_at(hms, c, j) by {
        lemma_matches_char(hms, ':', j);
        assert(hms[j] == s[j]);
    }
    lemma_matches_char(hms, ':', a);
    lemma_find_first_from(hms, c, 0, a);
    assert forall|j: int| a + 1 <= j < a + 3 implies !#[trigger] matches_at(hms, c, j) by {
        lemma_matches_char(hms, ':', j);
        assert(hms[j] == s[j]);
    }
    lemma_matches_char(hms, ':', a + 3);
    lemma_find_first_from(hms, c, a + 1, a + 3);
    assert forall|j: int| a + 4 <= j implies !#[trigger] matches_at(hms, c, j) by {
        lemma_matches_char(hms, ':', j);
        if j < hms.len() {
            assert(hms[j] == s[j]);
        }
    }
    lemma_find_none_from(hms, c, a + 4);
    assert(split_from(hms, c, a + 4) == seq![hms.subrange(a + 4, a + 6)]);
    assert(split_from(hms, c, a + 1) == seq![hms.subrange(a + 1, a + 3)] + split_from(hms, c, a + 4));
    assert(split_from(hms, c, 0) == seq![hms.subrange(0, a)] + split_from(hms, c, a + 1));
    let parts = split_on(hms, c);
    assert(parts =~= seq![d, s.subrange(a + 1, a + 3), s.subrange(a + 4, a + 6)]) by {
        assert(hms.subrange(0, a) =~= s.take(a));
        assert(hms.subrange(a + 1, a + 3) =~= s.subrange(a + 1, a + 3));
        assert(hms.subrange(a + 4, a + 6) =~= s.subrange(a + 4, a + 6));
    }
    assert(h <= u64::MAX);
    lemma_parse_digits(d);
    lemma_parse_digits(two_digits(m as nat));
    lemma_parse_digits(two_digits(sec as nat));
    assert(clock_seconds(hms) == Some(h * 3600 + m * 60 + sec));
    // The centiseconds gain a '0'.
    let z = two_digits(cs as nat);
    let md = millis_digits(z);
    assert(md =~= z.push('0'));
    assert(md.drop_last() =~= z);
    assert(digits_value(md) == cs * 10);
    assert(all_digits(md)) by {
        assert forall|i: int| 0 <= i < md.len() implies is_digit(#[trigger] md[i]) by {
            if i < 2 {
                assert(md[i] == z[i]);
            }
        }
    }
    lemma_parse_digits(md);
    // The arithmetic.
    assert(t == h * 3600 + m * 60 + sec) by {
        assert(t / 60 == h * 60 + m);
    }
    assert(ms == t * 1000 + cs * 10 + ms % 10);
    assert((ms / 10) * 10 == ms - ms % 10);
}

/// Every cue read from SRT text has text, trimmed and not empty.
pub proof fn law_cue_text_trimmed(content: Seq<char>)
    ensures
        forall|i: int|
            0 <= i < spec_parse_srt(content).len() ==> (#[trigger] spec_parse_srt(content)[i]).2.len()
                > 0 && trim(spec_parse_srt(content)[i].2) == spec_parse_srt(content)[i].2,
{
    lemma_cues_trimmed(srt_blocks(content));
}

proof fn lemma_cues_trimmed(bs: Seq<Seq<char>>)
    ensures
        forall|i: int|
            0 <= i < cues_of_blocks(bs).len() ==> (#[trigger] cues_of_blocks(bs)[i]).2.len() > 0
                && trim(cues_of_blocks(bs)[i].2) == cues_of_blocks(bs)[i].2,
    decreases bs.len(),
{
    if bs.len() > 0 {
        lemma_cues_trimmed(bs.drop_last());
        let prev = cues_of_blocks(bs.drop_last());
        let all = cues_of_blocks(bs);
        assert forall|i: int| 0 <= i < all.len() implies (#[trigger] all[i]).2.len() > 0 && trim(
            all[i].2,
        ) == all[i].2 by {
            if i < prev.len() {
                assert(all[i] == prev[i]);
            } else {
                let b = bs.last();
                let lines = block_lines(b);
                let k = first_line_with(lines, "-->"@, 0)->0;
                crate::text::lemma_trim_idempotent(join(lines.skip(k + 1), seq![' ']));
            }
        }
    }
}

/// `s` with every '\n' written as "\r\n" (Windows line endings).
pub open spec fn crlf_lines(s: Seq<char>) -> Seq<char>
    decreases s.len(),
{
    if s.len() == 0 {
        s
    } else if s[0] == '\n' {
        seq!['\r', '\n'] + crlf_lines(s.skip(1))
    } else {
        seq![s[0]] + crlf_lines(s.skip(1))
    }
}

proof fn lemma_normalize_plain(s: Seq<char>)
    requires
        !s.contains('\r'),
    ensures
        normalize_newlines(s) == s,
        normalize_newlines(crlf_lines(s)) == s,
        normalize_newlines(replace_char(s, '\n', '\r')) == s,
    decreases s.len(),
{
    if s.len() > 0 {
        let t = s.skip(1);
        assert(!t.contains('\r')) by {
            if t.contains('\r') {
                let k = choose|k: int| 0 <= k < t.len() && t[k] == '\r';
                assert(s[k + 1] == '\r');
            }
        }
        assert(s[0] != '\r') by {
            if s[0] == '\r' {
                assert(s.contains('\r'));
            }
        }
        lemma_normalize_plain(t);
        assert(seq![s[0]] + t =~= s);
        let c = crlf_lines(s);
        if s[0] == '\n' {
            assert(c.skip(2) =~= crlf_lines(t));
        } else {
            assert(c.skip(1) =~= crlf_lines(t));
        }
        let r = replace_char(s, '\n', '\r');
        assert(r.skip(1) =~= replace_char(t, '\n', '\r'));
        if r.len() > 1 {
            assert(r[1] == (if s[1] == '\n' { '\r' } else { s[1] }));
            assert(s[1] == t[0]);
            assert(t[0] != '\r') by {
                if t[0] == '\r' {
                    assert(t.contains('\r'));
                }
            }
        }
    }
}

/// SRT text reads the same with Unix, Windows ("\r\n") or old Mac ("\r")
/// line endings: the same cues, in the same order, and the same times in range.
pub proof fn law_srt_line_endings(s: Seq<char>)
    requires
        !s.contains('\r'),
    ensures
        spec_parse_srt(crlf_lines(s)) == spec_parse_srt(s),
        spec_parse_srt(replace_char(s, '\n', '\r')) == spec_parse_srt(s),
        srt_in_range(crlf_lines(s)) == srt_in_range(s),
        srt_in_range(replace_char(s, '\n', '\r')) == srt_in_range(s),
{
    lemma_normalize_plain(s);
    assert(srt_blocks(crlf_lines(s)) == srt_blocks(s));
    assert(srt_blocks(replace_char(s, '\n', '\r')) == srt_blocks(s));
}

/// The error when one of the two subtitle languages could not be fetched
/// (it may not be offered): for the main one when `main`, else the secondary.
pub fn missing_subtitle_message(main: bool) -> (m: String)
    ensures
        m@ == (if main {
            "主字幕下载失败（该语言可能不可用）"@
        } else {
            "副字幕下载失败（该语言可能不可用）"@
        }),
{
    if main {
        crate::text::owned("主字幕下载失败（该语言可能不可用）")
    } else {
        crate::text::owned("副字幕下载失败（该语言可能不可用）")
    }
}

proof fn lemma_overlapping_concat(a: Seq<(u64, u64, Seq<char>)>, b: Seq<(u64, u64, Seq<char>)>, mc: (u64, u64, Seq<char>))
    ensures
        overlapping_texts(a + b, mc) == overlapping_texts(a, mc) + overlapping_texts(b, mc),
    decreases b.len(),
{
    if b.len() == 0 {
        assert(a + b =~= a);
        assert(overlapping_texts(a, mc) + overlapping_texts(b, mc) =~= overlapping_texts(a, mc));
    } else {
        lemma_overlapping_concat(a, b.drop_last(), mc);
        assert((a + b).drop_last() =~= a + b.drop_last());
        assert((a + b).last() == b.last());
        let t = if overlaps(b.last(), mc) {
            seq![b.last().2]
        } else {
            Seq::<Seq<char>>::empty()
        };
        assert(overlapping_texts(a, mc) + overlapping_texts(b.drop_last(), mc) + t =~= overlapping_texts(a, mc)
            + (overlapping_texts(b.drop_last(), mc) + t));
    }
}

proof fn lemma_dialogue_lines_same(main: Seq<(u64, u64, Seq<char>)>, s1: Seq<(u64, u64, Seq<char>)>, s2: Seq<(u64, u64, Seq<char>)>)
    requires
        forall|k: int| 0 <= k < main.len() ==> overlapping_texts(s1, #[trigger] main[k]) == overlapping_texts(s2, main[k]),
    ensures
        dialogue_lines(main, s1) == dialogue_lines(main, s2),
    decreases main.len(),
{
    if main.len() > 0 {
        let m = main.drop_last();
        assert forall|k: int| 0 <= k < m.len() implies overlapping_texts(s1, #[trigger] m[k]) == overlapping_texts(s2, m[k]) by {
            assert(m[k] == main[k]);
        }
        lemma_dialogue_lines_same(m, s1, s2);
        assert(overlapping_texts(s1, main[main.len() - 1]) == overlapping_texts(s2, main[main.len() - 1]));
    }
}

/// A secondary cue that shares no time with any main cue (it ends at or before
/// the main cue's start, or starts at or after its end) changes nothing in the
/// merged script, wherever it stands among the secondary cues: cues that only
/// touch a main cue's edges are not shown with it.
pub proof fn law_merge_ignores_disjoint(
    main: Seq<(u64, u64, Seq<char>)>,
    sec: Seq<(u64, u64, Seq<char>)>,
    sc: (u64, u64, Seq<char>),
    i: int,
)
    requires
        0 <= i <= sec.len(),
        forall|k: int| 0 <= k < main.len() ==> sc.1 <= (#[trigger] main[k]).0 || sc.0 >= main[k].1,
    ensures
        spec_merge_to_ass(main, sec.take(i) + seq![sc] + sec.skip(i)) == spec_merge_to_ass(main, sec),
{
    let s2 = sec.take(i) + seq![sc] + sec.skip(i);
    assert forall|k: int| 0 <= k < main.len() implies overlapping_texts(s2, #[trigger] main[k]) == overlapping_texts(sec, main[k]) by {
        let mc = main[k];
        lemma_overlapping_concat(sec.take(i) + seq![sc], sec.skip(i), mc);
        lemma_overlapping_concat(sec.take(i), seq![sc], mc);
        lemma_overlapping_concat(sec.take(i), sec.skip(i), mc);
        assert(seq![sc].drop_last() =~= Seq::<(u64, u64, Seq<char>)>::empty());
        assert(seq![sc].last() == sc);
        assert(overlapping_texts(Seq::<(u64, u64, Seq<char>)>::empty(), mc) =~= Seq::<Seq<char>>::empty());
        assert(!(sc.0 < mc.1 && sc.1 > mc.0));
        assert(overlapping_texts(seq![sc], mc) =~= Seq::<Seq<char>>::empty());
        assert(sec.take(i) + sec.skip(i) =~= sec);
        assert(overlapping_texts(sec.take(i), mc) + Seq::<Seq<char>>::empty() =~= overlapping_texts(sec.take(i), mc));
    }
    lemma_dialogue_lines_same(main, s2, sec);
}

/// A secondary cue that shares time with a main cue (it starts before the main
/// cue ends and ends after it starts) is shown small below it: with no other
/// secondary cue, the event is the main text at size 28, a line break, and the
/// secondary text at size 18, on the main cue's timing.
pub proof fn law_merge_shows_overlapping(mc: (u64, u64, Seq<char>), sc: (u64, u64, Seq<char>))
    requires
        sc.0 < mc.1,
        sc.1 > mc.0,
        !is_blank(sc.2),
    ensures
        spec_merge_to_ass(seq![mc], seq![sc]) == ASS_HEADER@ + "Dialogue: 0,"@ + spec_ass_ts(mc.0) + ","@
            + spec_ass_ts(mc.1) + ",Default,,0,0,0,,"@ + "{\\fs28}"@ + spec_ass_escape(mc.2) + "\\N{\\fs18}"@
            + spec_ass_escape(sc.2) + "\n"@,
{
    let sec = seq![sc];
    assert(sec.drop_last() =~= Seq::<(u64, u64, Seq<char>)>::empty());
    assert(sec.last() == sc);
    assert(overlapping_texts(Seq::<(u64, u64, Seq<char>)>::empty(), mc) =~= Seq::<Seq<char>>::empty());
    assert(overlapping_texts(sec, mc) =~= seq![sc.2]);
    let m = seq![mc];
    assert(m.drop_last() =~= Seq::<(u64, u64, Seq<char>)>::empty());
    assert(m.last() == mc);
    assert(dialogue_lines(Seq::<(u64, u64, Seq<char>)>::empty(), sec) =~= Seq::<char>::empty());
    assert(dialogue_lines(m, sec) =~= dialogue_line(mc, sec));
}

} // verus!

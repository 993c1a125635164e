//! Reading yt-dlp's output lines: progress records, the destination file,
//! aria2c progress, and the outcome of a finished download.

use vstd::prelude::*;
use crate::text::{
    chars_of, copy_range, find, find_from, find_from_exec, is_blank, lemma_find_from, owned,
    split_exec, split_on, starts_with, starts_with_exec, string_of, trim, trim_chars, views,
};
use crate::options::{DownloadOptions, spec_bilingual_on};

verus! {

/// The text fields of a progress report: the percentage (as text, without '%'),
/// the speed and the remaining time.
pub struct ProgressFields {
    pub percent: String,
    pub speed: String,
    pub eta: String,
}

impl View for ProgressFields {
    type V = (Seq<char>, Seq<char>, Seq<char>);

    open spec fn view(&self) -> (Seq<char>, Seq<char>, Seq<char>) {
        (self.percent@, self.speed@, self.eta@)
    }
}

/// A line of the download log, with the download's id.
pub struct DownloadLog {
    pub id: String,
    pub line: String,
}

// ---------------------------------------------------------------------------
// Destination file
// ---------------------------------------------------------------------------

/// What `parse_dest` returns for a log line.
pub open spec fn spec_parse_dest(line: Seq<char>) -> Option<Seq<char>> {
    let l = trim(line);
    if starts_with(l, "[download] Destination:"@) {
        Some(trim(l.skip("[download] Destination:"@.len() as int)))
    } else if starts_with(l, "[ExtractAudio] Destination:"@) {
        Some(trim(l.skip("[ExtractAudio] Destination:"@.len() as int)))
    } else {
        match find(l, "Merging formats into \""@) {
            Some(i) => {
                let after = l.skip(i + "Merging formats into \""@.len());
                match find(after, "\""@) {
                    Some(e) => Some(after.take(e)),
                    None => None,
                }
            },
            None => None,
        }
    }
}

/// The file a yt-dlp log line names as its result, where it names one:
/// "[download] Destination: F", "[ExtractAudio] Destination: F" or
/// `Merging formats into "F"`.
pub fn parse_dest(line: &str) -> (r: Option<String>)
    ensures
        r matches Some(s) ==> spec_parse_dest(line@) == Some(s@),
        r is None ==> spec_parse_dest(line@) is None,
{
    let l = trim_chars(&chars_of(line));
    let p1 = chars_of("[download] Destination:");
    if starts_with_exec(&l, &p1) {
        let rest = trim_chars(&copy_range(&l, p1.len(), l.len()));
        assert(l@.subrange(p1@.len() as int, l@.len() as int) =~= l@.skip(p1@.len() as int));
        return Some(string_of(&rest));
    }
    let p2 = chars_of("[ExtractAudio] Destination:");
    if starts_with_exec(&l, &p2) {
        let rest = trim_chars(&copy_range(&l, p2.len(), l.len()));
        assert(l@.subrange(p2@.len() as int, l@.len() as int) =~= l@.skip(p2@.len() as int));
        return Some(string_of(&rest));
    }
    let m = chars_of("Merging formats into \"");
    match find_from_exec(&l, &m, 0) {
        Some(i) => {
            proof {
                lemma_find_from(l@, m@, 0);
            }
            let len = l.len();
            let ml = m.len();
            assert(i + ml <= len);
            let after = copy_range(&l, i + ml, len);
            assert(after@ =~= l@.skip(i + m@.len()));
            let q = chars_of("\"");
            match find_from_exec(&after, &q, 0) {
                Some(e) => {
                    proof {
                        lemma_find_from(after@, q@, 0);
                    }
                    let name = copy_range(&after, 0, e);
                    assert(name@ =~= after@.take(e as int));
                    Some(string_of(&name))
                },
                None => None,
            }
        },
        None => None,
    }
}

// ---------------------------------------------------------------------------
// aria2c progress: "[#abc123 100MiB/531MiB(18%) CN:16 DL:50MiB ETA:8s]"
// ---------------------------------------------------------------------------

/// The first index at or after `i` holding ' ' or ']', or the length.
pub open spec fn field_end(s: Seq<char>, i: int) -> int
    decreases s.len() - i,
{
    if i < 0 || i >= s.len() || s[i] == ' ' || s[i] == ']' {
        i
    } else {
        field_end(s, i + 1)
    }
}

/// The value after the first `key` in `line`, up to ' ' or ']', trimmed;
/// empty when `key` does not occur.
pub open spec fn grab(line: Seq<char>, key: Seq<char>) -> Seq<char> {
    match find(line, key) {
        Some(i) => trim(line.subrange(i + key.len(), field_end(line, i + key.len()))),
        None => Seq::empty(),
    }
}

/// What `aria2c_fields` returns: the text between the first '(' and the
/// next "%)", and the "DL:" and "ETA:" values.
pub open spec fn spec_aria2c_fields(line: Seq<char>) -> Option<(Seq<char>, Seq<char>, Seq<char>)> {
    match find(line, "("@) {
        None => None,
        Some(open) => match find_from(line, "%)"@, open) {
            None => None,
            Some(pctend) => Some(
                (trim(line.subrange(open + 1, pctend)), grab(line, "DL:"@), grab(line, "ETA:"@)),
            ),
        },
    }
}

fn grab_exec(line: &Vec<char>, key: &str) -> (r: String)
    ensures
        r@ == grab(line@, key@),
{
    let k = chars_of(key);
    match find_from_exec(line, &k, 0) {
        Some(i) => {
            proof {
                lemma_find_from(line@, k@, 0);
            }
            let kl = k.len();
            assert(i + kl <= line.len());
            let start = i + kl;
            let mut j = start;
            while j < line.len() && line[j] != ' ' && line[j] != ']'
                invariant
                    start <= j <= line@.len(),
                    field_end(line@, start as int) == field_end(line@, j as int),
                decreases line@.len() - j,
            {
                j = j + 1;
            }
            string_of(&trim_chars(&copy_range(line, start, j)))
        },
        None => String::new(),
    }
}

/// The text fields of an aria2c progress line: the percentage between '('
/// and "%)" (as text), the speed after "DL:" and the time left after "ETA:".
pub fn aria2c_fields(line: &str) -> (r: Option<ProgressFields>)
    ensures
        r matches Some(f) ==> spec_aria2c_fields(line@) == Some(f@),
        r is None ==> spec_aria2c_fields(line@) is None,
{
    let v = chars_of(line);
    let open_p = chars_of("(");
    let open = match find_from_exec(&v, &open_p, 0) {
        Some(o) => o,
        None => {
            return None;
        },
    };
    proof {
        lemma_find_from(v@, open_p@, 0);
        reveal_strlit("(");
        reveal_strlit("%)");
    }
    let close_p = chars_of("%)");
    let pctend = match find_from_exec(&v, &close_p, open) {
        Some(e) => e,
        None => {
            return None;
        },
    };
    proof {
        lemma_find_from(v@, close_p@, open as int);
        if pctend == open {
            assert(v@.subrange(open as int, open + 2)[0] == '%');
        }
    }
    let percent = string_of(&trim_chars(&copy_range(&v, open + 1, pctend)));
    let speed = grab_exec(&v, "DL:");
    let eta = grab_exec(&v, "ETA:");
    Some(ProgressFields { percent, speed, eta })
}

// ---------------------------------------------------------------------------
// Progress template: "AERODL|<percent>|<speed>|<eta>"
// ---------------------------------------------------------------------------

/// `s` without its trailing `c` characters (`str::trim_end_matches` of one char).
pub open spec fn strip_trailing(s: Seq<char>, c: char) -> Seq<char>
    decreases s.len(),
{
    if s.len() > 0 && s.last() == c {
        strip_trailing(s.drop_last(), c)
    } else {
        s
    }
}

fn strip_trailing_exec(v: &Vec<char>, c: char) -> (r: Vec<char>)
    ensures
        r@ == strip_trailing(v@, c),
{
    let mut b = v.len();
    assert(v@.take(b as int) =~= v@);
    while b > 0 && v[b - 1] == c
        invariant
            b <= v@.len(),
            strip_trailing(v@.take(b as int), c) == strip_trailing(v@, c),
        decreases b,
    {
        assert(v@.take(b as int).drop_last() =~= v@.take(b - 1));
        b = b - 1;
    }
    proof {
        if b == v@.len() {
            assert(v@.take(b as int) =~= v@);
        }
    }
    copy_range(v, 0, b)
}

/// The piece of `parts` at `i` trimmed, or empty when there is none.
pub open spec fn part_or_empty(parts: Seq<Seq<char>>, i: int) -> Seq<char> {
    if i < parts.len() {
        trim(parts[i])
    } else {
        Seq::empty()
    }
}

/// What `template_fields` returns: for a line "AERODL|p|s|e", the percentage
/// `p` trimmed and without trailing '%', and `s` and `e` trimmed.
pub open spec fn spec_template_fields(line: Seq<char>) -> Option<(Seq<char>, Seq<char>, Seq<char>)> {
    if starts_with(line, "AERODL|"@) {
        let parts = split_on(line.skip(7), seq!['|']);
        Some((trim(strip_trailing(trim(parts[0]), '%')), part_or_empty(parts, 1), part_or_empty(parts, 2)))
    } else {
        None
    }
}

/// The fields of a line written by yt-dlp's progress template, if it is one.
pub fn template_fields(line: &str) -> (r: Option<ProgressFields>)
    ensures
        r matches Some(f) ==> spec_template_fields(line@) == Some(f@),
        r is None ==> spec_template_fields(line@) is None,
{
    let v = chars_of(line);
    let prefix = chars_of("AERODL|");
    proof {
        reveal_strlit("AERODL|");
    }
    if !starts_with_exec(&v, &prefix) {
        return None;
    }
    let rest = copy_range(&v, 7, v.len());
    assert(rest@ =~= v@.skip(7));
    let bar = vec!['|'];
    assert(bar@ =~= seq!['|']);
    let parts = split_exec(&rest, &bar);
    proof {
        crate::text::lemma_split_nonempty(rest@, seq!['|'], 0);
        assert(views(parts@)[0] == parts@[0]@);
    }
    let p0 = trim_chars(&parts[0]);
    let p0 = trim_chars(&strip_trailing_exec(&p0, '%'));
    let speed = if parts.len() > 1 {
        assert(views(parts@)[1] == parts@[1]@);
        string_of(&trim_chars(&parts[1]))
    } else {
        String::new()
    };
    let eta = if parts.len() > 2 {
        assert(views(parts@)[2] == parts@[2]@);
        string_of(&trim_chars(&parts[2]))
    } else {
        String::new()
    };
    Some(ProgressFields { percent: string_of(&p0), speed, eta })
}

// ---------------------------------------------------------------------------
// One line of yt-dlp's standard output, and the end of a download
// ---------------------------------------------------------------------------

/// What a line of yt-dlp's standard output calls for.
pub enum StdoutEvent {
    /// A progress-template record: report progress.
    Progress(ProgressFields),
    /// Any other line: log it; it may name the destination file, and with
    /// aria2c as downloader it may carry aria2c progress.
    Log { line: String, dest: Option<String>, aria2c: Option<ProgressFields> },
}

/// `s` without its trailing '\n' and '\r' characters.
pub open spec fn strip_line_end(s: Seq<char>) -> Seq<char>
    decreases s.len(),
{
    if s.len() > 0 && (s.last() == '\n' || s.last() == '\r') {
        strip_line_end(s.drop_last())
    } else {
        s
    }
}

/// A line without its line terminator characters.
pub fn line_without_end(line: &str) -> (r: String)
    ensures
        r@ == strip_line_end(line@),
{
    let v = chars_of(line);
    let mut b = v.len();
    assert(v@.take(b as int) =~= v@);
    while b > 0 && (v[b - 1] == '\n' || v[b - 1] == '\r')
        invariant
            b <= v@.len(),
            strip_line_end(v@.take(b as int)) == strip_line_end(v@),
        decreases b,
    {
        assert(v@.take(b as int).drop_last() =~= v@.take(b - 1));
        b = b - 1;
    }
    proof {
        if b == v@.len() {
            assert(v@.take(b as int) =~= v@);
        }
    }
    string_of(&copy_range(&v, 0, b))
}

/// What `stdout_event` returns for a raw line (progress template records are
/// recognised on the line without its terminator).
pub open spec fn stdout_event_matches(line: Seq<char>, using_aria2c: bool, e: StdoutEvent) -> bool {
    let l = strip_line_end(line);
    match e {
        StdoutEvent::Progress(f) => spec_template_fields(l) == Some(f@),
        StdoutEvent::Log { line: out, dest, aria2c } => {
            &&& spec_template_fields(l) is None
            &&& out@ == l
            &&& match dest {
                Some(d) => spec_parse_dest(l) == Some(d@),
                None => spec_parse_dest(l) is None,
            }
            &&& match aria2c {
                Some(f) => using_aria2c && spec_aria2c_fields(l) == Some(f@),
                None => !using_aria2c || spec_aria2c_fields(l) is None,
            }
        },
    }
}

/// Decides what a line of yt-dlp's standard output calls for: a progress
/// report for a progress-template record, otherwise a log entry with the
/// destination file it names and the aria2c progress it carries.
pub fn stdout_event(line: &str, using_aria2c: bool) -> (e: StdoutEvent)
    ensures
        stdout_event_matches(line@, using_aria2c, e),
{
    let l = line_without_end(line);
    match template_fields(l.as_str()) {
        Some(f) => StdoutEvent::Progress(f),
        None => {
            let dest = parse_dest(l.as_str());
            let aria2c = if using_aria2c {
                aria2c_fields(l.as_str())
            } else {
                None
            };
            StdoutEvent::Log { line: l, dest, aria2c }
        },
    }
}

/// What a finished download returns: the last destination file when yt-dlp
/// succeeded, otherwise its error output trimmed, or "下载失败" when that is blank.
pub open spec fn spec_download_outcome(success: bool, last_path: Seq<char>, errs: Seq<char>) -> Result<
    Seq<char>,
    Seq<char>,
> {
    if success {
        Ok(last_path)
    } else if is_blank(errs) {
        Err("下载失败"@)
    } else {
        Err(trim(errs))
    }
}

/// The result of a finished download.
pub fn download_outcome(success: bool, last_path: String, errs: &str) -> (r: Result<String, String>)
    ensures
        match r {
            Ok(p) => spec_download_outcome(success, last_path@, errs@) == Ok::<Seq<char>, Seq<char>>(p@),
            Err(e) => spec_download_outcome(success, last_path@, errs@) == Err::<Seq<char>, Seq<char>>(e@),
        },
{
    if success {
        Ok(last_path)
    } else {
        let t = trim_chars(&chars_of(errs));
        if t.len() == 0 {
            Err(owned("下载失败"))
        } else {
            Err(string_of(&t))
        }
    }
}

/// Whether a finished download gets its bilingual subtitles merged: they are
/// on, and a destination file is known.
pub fn needs_bilingual_merge(o: &DownloadOptions, last_path: &str) -> (b: bool)
    ensures
        b == (spec_bilingual_on(o) && last_path@.len() != 0),
{
    o.bilingual_on() && chars_of(last_path).len() != 0
}

} // verus!

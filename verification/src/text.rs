//! Character-level text operations with their specifications: trimming,
//! searching, splitting, joining and decimal numbers.

use vstd::prelude::*;

verus! {

// ---------------------------------------------------------------------------
// Conversions between `str`/`String` and vectors of characters
// ---------------------------------------------------------------------------

/// The characters of `s`, in order.
pub fn chars_of(s: &str) -> (v: Vec<char>)
    ensures
        v@ == s@,
{
    let mut v: Vec<char> = Vec::new();
    for c in it: s.chars()
        invariant
            v@ == it.seq().take(it.index() as int),
            it.seq() == s@,
    {
        v.push(c);
    }
    v
}

/// Appends one character to a string (`String::push`).
#[verifier::external_body]
pub fn push_char(s: &mut String, c: char)
    ensures
        final(s)@ == old(s)@.push(c),
{
    s.push(c);
}

/// Appends the characters of `v` to `out`.
pub fn push_chars(out: &mut String, v: &[char])
    ensures
        final(out)@ == old(out)@ + v@,
{
    let n = v.len();
    let mut i: usize = 0;
    while i < n
        invariant
            n == v@.len(),
            i <= n,
            out@ == old(out)@ + v@.take(i as int),
        decreases n - i,
    {
        push_char(out, v[i]);
        i = i + 1;
        assert(v@.take(i as int) =~= v@.take((i - 1) as int).push(v@[i - 1]));
    }
    assert(v@.take(n as int) =~= v@);
}

/// A new string holding the characters of `v`.
pub fn string_of(v: &[char]) -> (s: String)
    ensures
        s@ == v@,
{
    let mut s = String::new();
    push_chars(&mut s, v);
    s
}

/// Appends a string slice to `out`.
pub fn push_str(out: &mut String, s: &str)
    ensures
        final(out)@ == old(out)@ + s@,
{
    out.append(s);
}

/// An owned copy of a string slice.
pub fn owned(s: &str) -> (r: String)
    ensures
        r@ == s@,
{
    let mut r = String::new();
    push_str(&mut r, s);
    r
}

/// A copy of `v[from..to]`.
pub fn copy_range(v: &[char], from: usize, to: usize) -> (r: Vec<char>)
    requires
        from <= to <= v@.len(),
    ensures
        r@ == v@.subrange(from as int, to as int),
{
    let mut r: Vec<char> = Vec::new();
    let mut i = from;
    while i < to
        invariant
            from <= i <= to,
            to <= v@.len(),
            r@ == v@.subrange(from as int, i as int),
        decreases to - i,
    {
        r.push(v[i]);
        i = i + 1;
        assert(r@ =~= v@.subrange(from as int, i as int));
    }
    r
}

/// The view of each vector of characters in a sequence of them.
pub open spec fn views(v: Seq<Vec<char>>) -> Seq<Seq<char>> {
    v.map_values(|x: Vec<char>| x@)
}

/// The view of an optional string.
pub open spec fn opt_view(o: Option<String>) -> Option<Seq<char>> {
    match o {
        Some(s) => Some(s@),
        None => None,
    }
}

/// The view of each string in a sequence of them.
pub open spec fn string_views(v: Seq<String>) -> Seq<Seq<char>> {
    v.map_values(|x: String| x@)
}

// ---------------------------------------------------------------------------
// Whitespace and trimming
// ---------------------------------------------------------------------------

/// The characters with the Unicode property White_Space (`char::is_whitespace`).
pub open spec fn is_ws(c: char) -> bool {
    ||| ('\u{9}' <= c && c <= '\u{d}')
    ||| c == ' '
    ||| c == '\u{85}'
    ||| c == '\u{a0}'
    ||| c == '\u{1680}'
    ||| ('\u{2000}' <= c && c <= '\u{200a}')
    ||| c == '\u{2028}'
    ||| c == '\u{2029}'
    ||| c == '\u{202f}'
    ||| c == '\u{205f}'
    ||| c == '\u{3000}'
}

/// Whether `c` is a whitespace character.
pub fn char_is_ws(c: char) -> (b: bool)
    ensures
        b == is_ws(c),
{
    ('\u{9}' <= c && c <= '\u{d}') || c == ' ' || c == '\u{85}' || c == '\u{a0}' || c
        == '\u{1680}' || ('\u{2000}' <= c && c <= '\u{200a}') || c == '\u{2028}' || c
        == '\u{2029}' || c == '\u{202f}' || c == '\u{205f}' || c == '\u{3000}'
}

/// `s` without its leading whitespace.
pub open spec fn trim_start(s: Seq<char>) -> Seq<char>
    decreases s.len(),
{
    if s.len() > 0 && is_ws(s[0]) {
        trim_start(s.skip(1))
    } else {
        s
    }
}

/// `s` without its trailing whitespace.
pub open spec fn trim_end(s: Seq<char>) -> Seq<char>
    decreases s.len(),
{
    if s.len() > 0 && is_ws(s.last()) {
        trim_end(s.drop_last())
    } else {
        s
    }
}

/// `s` without leading and trailing whitespace (`str::trim`).
pub open spec fn trim(s: Seq<char>) -> Seq<char> {
    trim_end(trim_start(s))
}

/// Trimming leaves a sequence that neither starts nor ends with whitespace.
pub proof fn lemma_trim_shape(s: Seq<char>)
    ensures
        trim(s).len() > 0 ==> !is_ws(trim(s)[0]) && !is_ws(trim(s).last()),
        trim_start(s).len() > 0 ==> !is_ws(trim_start(s)[0]),
        trim_end(s).len() > 0 ==> !is_ws(trim_end(s).last()),
        trim_end(s).len() <= s.len(),
        trim_end(s) == s.take(trim_end(s).len() as int),
    decreases s.len(),
{
    if s.len() > 0 && is_ws(s[0]) {
        lemma_trim_shape(s.skip(1));
    }
    if s.len() > 0 && is_ws(s.last()) {
        lemma_trim_shape(s.drop_last());
        assert(s.drop_last().take(trim_end(s).len() as int) =~= s.take(trim_end(s).len() as int));
    } else {
        assert(s.take(s.len() as int) =~= s);
    }
    lemma_trim_end_start(trim_start(s));
}

/// A sequence that ends without whitespace is its own `trim_end`; the
/// first character survives `trim_end` when it is not whitespace.
pub proof fn lemma_trim_end_start(s: Seq<char>)
    ensures
        s.len() > 0 && !is_ws(s[0]) ==> trim_end(s).len() > 0 && trim_end(s)[0] == s[0],
    decreases s.len(),
{
    if s.len() > 0 && is_ws(s.last()) {
        lemma_trim_end_start(s.drop_last());
    }
}

/// A sequence that neither starts nor ends with whitespace is its own trim.
pub proof fn lemma_trim_id(s: Seq<char>)
    requires
        s.len() > 0 ==> !is_ws(s[0]) && !is_ws(s.last()),
    ensures
        trim(s) == s,
{
    assert(trim_start(s) == s);
    if s.len() > 0 {
        assert(trim_end(s) == s);
    }
}

/// Trimming twice is trimming once.
pub proof fn lemma_trim_idempotent(s: Seq<char>)
    ensures
        trim(trim(s)) == trim(s),
{
    lemma_trim_shape(s);
    lemma_trim_id(trim(s));
}

/// `trim` on characters.
pub fn trim_chars(v: &[char]) -> (r: Vec<char>)
    ensures
        r@ == trim(v@),
{
    let n = v.len();
    let mut a: usize = 0;
    assert(v@.skip(0) =~= v@);
    while a < n && char_is_ws(v[a])
        invariant
            a <= n,
            n == v@.len(),
            trim_start(v@.skip(a as int)) == trim_start(v@),
        decreases n - a,
    {
        assert(v@.skip(a as int).skip(1) =~= v@.skip(a + 1));
        a = a + 1;
    }
    let ghost t = v@.skip(a as int);
    assert(trim_start(t) == t);
    let mut b: usize = n;
    while b > a && char_is_ws(v[b - 1])
        invariant
            a <= b <= n,
            n == v@.len(),
            t == v@.skip(a as int),
            trim_end(v@.subrange(a as int, b as int)) == trim_end(t),
        decreases b,
    {
        assert(v@.subrange(a as int, b as int).drop_last() =~= v@.subrange(a as int, b - 1));
        b = b - 1;
    }
    assert(v@.subrange(a as int, n as int) =~= t);
    copy_range(v, a, b)
}

/// Whether `trim(s)` is empty.
pub open spec fn is_blank(s: Seq<char>) -> bool {
    trim(s).len() == 0
}

// ---------------------------------------------------------------------------
// Searching
// ---------------------------------------------------------------------------

/// Whether `p` occurs in `s` at index `i`.
pub open spec fn matches_at(s: Seq<char>, p: Seq<char>, i: int) -> bool {
    0 <= i && i + p.len() <= s.len() && s.subrange(i, i + p.len()) == p
}

/// The first index at or after `i` at which `p` occurs in `s`.
pub open spec fn find_from(s: Seq<char>, p: Seq<char>, i: int) -> Option<int>
    decreases s.len() + 1 - i,
{
    if i < 0 || i + p.len() > s.len() {
        None
    } else if matches_at(s, p, i) {
        Some(i)
    } else {
        find_from(s, p, i + 1)
    }
}

/// The first index at which `p` occurs in `s` (`str::find`).
pub open spec fn find(s: Seq<char>, p: Seq<char>) -> Option<int> {
    find_from(s, p, 0)
}

/// Whether `p` occurs in `s` (`str::contains`).
pub open spec fn contains(s: Seq<char>, p: Seq<char>) -> bool {
    find(s, p) is Some
}

/// Whether `s` starts with `p` (`str::starts_with`).
pub open spec fn starts_with(s: Seq<char>, p: Seq<char>) -> bool {
    p.len() <= s.len() && s.take(p.len() as int) == p
}

/// Whether `s` ends with `p` (`str::ends_with`).
pub open spec fn ends_with(s: Seq<char>, p: Seq<char>) -> bool {
    p.len() <= s.len() && s.skip(s.len() - p.len()) == p
}

/// What `find_from` returns is an occurrence, the first one from `i` on.
pub proof fn lemma_find_from(s: Seq<char>, p: Seq<char>, i: int)
    requires
        i >= 0,
    ensures
        find_from(s, p, i) matches Some(j) ==> i <= j && matches_at(s, p, j) && forall|k: int|
            i <= k < j ==> !#[trigger] matches_at(s, p, k),
        find_from(s, p, i) is None ==> forall|k: int| i <= k ==> !#[trigger] matches_at(s, p, k),
    decreases s.len() + 1 - i,
{
    if i + p.len() > s.len() {
    } else if matches_at(s, p, i) {
    } else {
        lemma_find_from(s, p, i + 1);
    }
}

/// An occurrence with none before it, from `i` on, is what `find_from` returns.
pub proof fn lemma_find_first_from(s: Seq<char>, p: Seq<char>, i: int, k: int)
    requires
        0 <= i <= k,
        matches_at(s, p, k),
        forall|j: int| i <= j < k ==> !#[trigger] matches_at(s, p, j),
    ensures
        find_from(s, p, i) == Some(k),
    decreases k - i,
{
    if i < k {
        assert(!matches_at(s, p, i));
        lemma_find_first_from(s, p, i + 1, k);
    }
}

/// With no occurrence from `i` on, `find_from` finds none.
pub proof fn lemma_find_none_from(s: Seq<char>, p: Seq<char>, i: int)
    requires
        0 <= i,
        forall|j: int| i <= j ==> !#[trigger] matches_at(s, p, j),
    ensures
        find_from(s, p, i) is None,
    decreases s.len() + 1 - i,
{
    if i + p.len() <= s.len() {
        assert(!matches_at(s, p, i));
        lemma_find_none_from(s, p, i + 1);
    }
}

/// A one-character pattern occurs exactly where that character is.
pub proof fn lemma_matches_char(s: Seq<char>, c: char, j: int)
    ensures
        matches_at(s, seq![c], j) <==> (0 <= j < s.len() && s[j] == c),
{
    if 0 <= j < s.len() {
        if s[j] == c {
            assert(s.subrange(j, j + 1) =~= seq![c]);
        } else {
            assert(s.subrange(j, j + 1)[0] != seq![c][0]);
        }
    }
}

/// Whether `p` occurs in `v` at index `i`.
pub fn matches_at_exec(v: &[char], p: &[char], i: usize) -> (b: bool)
    ensures
        b == matches_at(v@, p@, i as int),
{
    let n = v.len();
    let m = p.len();
    if i > n || m > n - i {
        return false;
    }
    let mut k: usize = 0;
    while k < m
        invariant
            k <= m,
            m == p@.len(),
            n == v@.len(),
            i + m <= n,
            forall|j: int| 0 <= j < k ==> v@[i + j] == p@[j],
        decreases m - k,
    {
        if v[i + k] != p[k] {
            assert(v@.subrange(i as int, i + m)[k as int] != p@[k as int]);
            return false;
        }
        k = k + 1;
    }
    assert(v@.subrange(i as int, i + m) =~= p@);
    true
}

/// The first occurrence of `p` in `v` at or after `from`.
pub fn find_from_exec(v: &[char], p: &[char], from: usize) -> (r: Option<usize>)
    ensures
        r matches Some(i) ==> find_from(v@, p@, from as int) == Some(i as int),
        r is None ==> find_from(v@, p@, from as int) is None,
{
    let n = v.len();
    let m = p.len();
    if m > n || from > n - m {
        return None;
    }
    let mut i = from;
    loop
        invariant
            from <= i <= n - m,
            m <= n,
            n == v@.len(),
            m == p@.len(),
            find_from(v@, p@, from as int) == find_from(v@, p@, i as int),
        decreases n - m - i,
    {
        if matches_at_exec(v, p, i) {
            return Some(i);
        }
        if i == n - m {
            assert(find_from(v@, p@, (i + 1) as int) is None);
            return None;
        }
        i = i + 1;
    }
}

/// Whether `p` occurs in `v`.
pub fn contains_exec(v: &[char], p: &[char]) -> (b: bool)
    ensures
        b == contains(v@, p@),
{
    find_from_exec(v, p, 0).is_some()
}

/// Whether `v` starts with `p`.
pub fn starts_with_exec(v: &[char], p: &[char]) -> (b: bool)
    ensures
        b == starts_with(v@, p@),
{
    if p.len() > v.len() {
        return false;
    }
    let b = matches_at_exec(v, p, 0);
    assert(v@.subrange(0, p@.len() as int) =~= v@.take(p@.len() as int));
    b
}

/// Whether `v` ends with `p`.
pub fn ends_with_exec(v: &[char], p: &[char]) -> (b: bool)
    ensures
        b == ends_with(v@, p@),
{
    if p.len() > v.len() {
        return false;
    }
    let b = matches_at_exec(v, p, v.len() - p.len());
    assert(v@.subrange(v@.len() - p@.len(), v@.len() as int) =~= v@.skip(
        v@.len() - p@.len(),
    ));
    b
}

// ---------------------------------------------------------------------------
// Splitting and joining
// ---------------------------------------------------------------------------

/// The pieces of `s[pos..]` between the occurrences of `p`, taken left to right
/// without overlap (`str::split` with a non-empty pattern).
pub open spec fn split_from(s: Seq<char>, p: Seq<char>, pos: int) -> Seq<Seq<char>>
    decreases s.len() - pos,
{
    if p.len() == 0 || pos < 0 || pos > s.len() {
        seq![s.subrange(pos, s.len() as int)]
    } else {
        match find_from(s, p, pos) {
            Some(i) => {
                proof {
                    lemma_find_from(s, p, pos);
                }
                seq![s.subrange(pos, i)] + split_from(s, p, i + p.len())
            },
            None => seq![s.subrange(pos, s.len() as int)],
        }
    }
}

/// The pieces of `s` between the occurrences of `p` (`str::split`).
pub open spec fn split_on(s: Seq<char>, p: Seq<char>) -> Seq<Seq<char>> {
    split_from(s, p, 0)
}

/// Splitting yields at least one piece.
pub proof fn lemma_split_nonempty(s: Seq<char>, p: Seq<char>, pos: int)
    ensures
        split_from(s, p, pos).len() >= 1,
    decreases s.len() - pos,
{
    if p.len() == 0 || pos < 0 || pos > s.len() {
    } else {
        match find_from(s, p, pos) {
            Some(i) => {
                lemma_find_from(s, p, pos);
                lemma_split_nonempty(s, p, i + p.len());
            },
            None => {},
        }
    }
}

/// The pieces of `v` between the occurrences of the non-empty pattern `p`.
pub fn split_exec(v: &[char], p: &[char]) -> (r: Vec<Vec<char>>)
    requires
        p@.len() > 0,
    ensures
        views(r@) == split_on(v@, p@),
{
    let n = v.len();
    let m = p.len();
    let mut r: Vec<Vec<char>> = Vec::new();
    let mut pos: usize = 0;
    loop
        invariant
            pos <= n,
            n == v@.len(),
            m == p@.len(),
            m > 0,
            views(r@) + split_from(v@, p@, pos as int) == split_on(v@, p@),
        decreases n - pos,
    {
        match find_from_exec(v, p, pos) {
            Some(i) => {
                proof {
                    lemma_find_from(v@, p@, pos as int);
                }
                let piece = copy_range(v, pos, i);
                let ghost before = r@;
                r.push(piece);
                assert(views(r@) =~= views(before).push(piece@));
                assert(views(r@) + split_from(v@, p@, (i + m) as int) =~= views(before) + split_from(
                    v@,
                    p@,
                    pos as int,
                ));
                pos = i + m;
            },
            None => {
                let piece = copy_range(v, pos, n);
                let ghost before = r@;
                r.push(piece);
                assert(views(r@) =~= views(before) + split_from(v@, p@, pos as int));
                return r;
            },
        }
    }
}

/// The pieces of `parts` joined with `sep` between them (`[T]::join`).
pub open spec fn join(parts: Seq<Seq<char>>, sep: Seq<char>) -> Seq<char>
    decreases parts.len(),
{
    if parts.len() == 0 {
        Seq::empty()
    } else if parts.len() == 1 {
        parts[0]
    } else {
        join(parts.drop_last(), sep) + sep + parts.last()
    }
}

/// `parts[from..]` joined with `sep` between them.
pub fn join_exec(parts: &Vec<Vec<char>>, from: usize, sep: &[char]) -> (r: Vec<char>)
    requires
        from <= parts@.len(),
    ensures
        r@ == join(views(parts@).skip(from as int), sep@),
{
    let n = parts.len();
    let mut r: Vec<char> = Vec::new();
    let mut i: usize = from;
    while i < n
        invariant
            from <= i <= n,
            n == parts@.len(),
            r@ == join(views(parts@).subrange(from as int, i as int), sep@),
        decreases n - i,
    {
        let ghost prev = views(parts@).subrange(from as int, i as int);
        if i > from {
            append_chars(&mut r, sep);
        }
        append_chars(&mut r, &parts[i]);
        i = i + 1;
        assert(views(parts@).subrange(from as int, i as int).drop_last() =~= prev);
        assert(views(parts@).subrange(from as int, i as int).last() == parts@[i - 1]@);
        if i == from + 1 {
            assert(r@ =~= join(views(parts@).subrange(from as int, i as int), sep@));
        }
    }
    assert(views(parts@).subrange(from as int, n as int) =~= views(parts@).skip(from as int));
    r
}

/// Appends the characters of `src` to `dst`.
pub fn append_chars(dst: &mut Vec<char>, src: &[char])
    ensures
        final(dst)@ == old(dst)@ + src@,
{
    let n = src.len();
    let mut i: usize = 0;
    while i < n
        invariant
            i <= n,
            n == src@.len(),
            dst@ == old(dst)@ + src@.take(i as int),
        decreases n - i,
    {
        dst.push(src[i]);
        i = i + 1;
        assert(dst@ =~= old(dst)@ + src@.take(i as int));
    }
    assert(src@.take(n as int) =~= src@);
}

/// Each character of `s`, with `from` replaced by `to` (`str::replace` of one char).
pub open spec fn replace_char(s: Seq<char>, from: char, to: char) -> Seq<char> {
    s.map_values(|c: char| if c == from { to } else { c })
}

/// `v` with every `from` replaced by `to`.
pub fn replace_char_exec(v: &[char], from: char, to: char) -> (r: Vec<char>)
    ensures
        r@ == replace_char(v@, from, to),
{
    let n = v.len();
    let mut r: Vec<char> = Vec::new();
    let mut i: usize = 0;
    while i < n
        invariant
            i <= n,
            n == v@.len(),
            r@ == replace_char(v@.take(i as int), from, to),
        decreases n - i,
    {
        let c = v[i];
        r.push(if c == from { to } else { c });
        i = i + 1;
        assert(r@ =~= replace_char(v@.take(i as int), from, to));
    }
    assert(v@.take(n as int) =~= v@);
    r
}

// ---------------------------------------------------------------------------
// Decimal numbers
// ---------------------------------------------------------------------------

/// Whether `c` is an ASCII digit.
pub open spec fn is_digit(c: char) -> bool {
    '0' <= c && c <= '9'
}

/// The value of the digit `c`.
pub open spec fn digit_value(c: char) -> nat {
    (c as u32 - '0' as u32) as nat
}

/// Whether `s` is a non-empty run of ASCII digits.
pub open spec fn all_digits(s: Seq<char>) -> bool {
    s.len() > 0 && forall|i: int| 0 <= i < s.len() ==> is_digit(#[trigger] s[i])
}

/// The value of the decimal digits `s`.
pub open spec fn digits_value(s: Seq<char>) -> nat
    decreases s.len(),
{
    if s.len() == 0 {
        0
    } else {
        digits_value(s.drop_last()) * 10 + digit_value(s.last())
    }
}

/// The digits of an unsigned number after an optional `+`, unbounded.
pub open spec fn unsigned_value(s: Seq<char>) -> Option<nat> {
    let d = if s.len() > 0 && s[0] == '+' {
        s.skip(1)
    } else {
        s
    };
    if all_digits(d) {
        Some(digits_value(d))
    } else {
        None
    }
}

/// What `str::parse::<u64>` gives: an optional `+`, then one or more ASCII
/// digits whose value fits in a `u64`.
pub open spec fn parse_u64(s: Seq<char>) -> Option<u64> {
    match unsigned_value(s) {
        Some(v) => if v <= u64::MAX {
            Some(v as u64)
        } else {
            None
        },
        None => None,
    }
}

/// A prefix of digits never has a larger value than the whole.
pub proof fn lemma_digits_prefix(s: Seq<char>, k: int)
    requires
        0 <= k <= s.len(),
    ensures
        digits_value(s.take(k)) <= digits_value(s),
    decreases s.len() - k,
{
    if k < s.len() {
        lemma_digits_prefix(s, k + 1);
        assert(s.take(k + 1).drop_last() =~= s.take(k));
    } else {
        assert(s.take(k) =~= s);
    }
}

/// The value of the digits in `v[from..]`, or `None` when they are not all
/// digits, are none, or exceed `u64::MAX`.
pub fn digits_u64(v: &[char], from: usize) -> (r: Option<u64>)
    requires
        from <= v@.len(),
    ensures
        r == (if all_digits(v@.skip(from as int)) && digits_value(v@.skip(from as int))
            <= u64::MAX {
            Some(digits_value(v@.skip(from as int)) as u64)
        } else {
            None
        }),
{
    let n = v.len();
    let ghost d = v@.skip(from as int);
    if from == n {
        return None;
    }
    let mut acc: u64 = 0;
    let mut i = from;
    while i < n
        invariant
            from <= i <= n,
            n == v@.len(),
            d == v@.skip(from as int),
            acc as nat == digits_value(d.take(i - from)),
            forall|j: int| 0 <= j < i - from ==> is_digit(#[trigger] d[j]),
        decreases n - i,
    {
        let c = v[i];
        assert(d[i - from] == c);
        if !('0' <= c && c <= '9') {
            return None;
        }
        let dv = (c as u32 - '0' as u32) as u64;
        assert(d.take(i - from + 1).drop_last() =~= d.take(i - from));
        proof {
            lemma_digits_prefix(d, i - from + 1);
        }
        match acc.checked_mul(10) {
            Some(a10) => match a10.checked_add(dv) {
                Some(a) => {
                    acc = a;
                },
                None => {
                    return None;
                },
            },
            None => {
                return None;
            },
        }
        i = i + 1;
    }
    assert(d.take(n - from) =~= d);
    Some(acc)
}

/// `str::parse::<u64>` on characters.
pub fn parse_u64_chars(v: &[char]) -> (r: Option<u64>)
    ensures
        r == parse_u64(v@),
{
    if v.len() > 0 && v[0] == '+' {
        digits_u64(v, 1)
    } else {
        assert(v@.skip(0) =~= v@);
        digits_u64(v, 0)
    }
}

/// The digit for `d < 10`.
pub open spec fn digit_char(d: nat) -> char {
    ((d + '0' as u32) as u32) as char
}

/// The decimal rendering of `n` (`u64::to_string`).
pub open spec fn decimal(n: nat) -> Seq<char>
    decreases n,
{
    if n < 10 {
        seq![digit_char(n)]
    } else {
        decimal(n / 10).push(digit_char(n % 10))
    }
}

/// The decimal rendering of a number is digits that read back as the number.
pub proof fn lemma_decimal_digits(n: nat)
    ensures
        all_digits(decimal(n)),
        digits_value(decimal(n)) == n,
        decimal(n).len() >= 1,
    decreases n,
{
    if n < 10 {
        assert(decimal(n) =~= seq![digit_char(n)]);
        assert(decimal(n).drop_last() =~= Seq::<char>::empty());
        assert(digit_char(n) as u32 == n + 48);
        assert(digit_value(decimal(n).last()) == n);
        assert(digits_value(decimal(n).drop_last()) == 0);
        assert(is_digit(decimal(n)[0]));
    } else {
        lemma_decimal_digits(n / 10);
        let d = decimal(n);
        assert(d.drop_last() =~= decimal(n / 10));
        assert(digit_char(n % 10) as u32 == n % 10 + 48);
        assert(d.last() == digit_char(n % 10));
        assert(digit_value(d.last()) == n % 10);
        assert(n == (n / 10) * 10 + n % 10);
        assert(digits_value(d) == digits_value(decimal(n / 10)) * 10 + n % 10);
        assert forall|i: int| 0 <= i < d.len() implies is_digit(#[trigger] d[i]) by {
            if i < d.len() - 1 {
                assert(d[i] == decimal(n / 10)[i]);
            }
        }
    }
}

/// Two digits for `n < 100` are digits that read back as `n`.
pub proof fn lemma_two_digits(n: nat)
    requires
        n < 100,
    ensures
        two_digits(n).len() == 2,
        all_digits(two_digits(n)),
        digits_value(two_digits(n)) == n,
{
    let t = two_digits(n);
    assert(digit_char(n / 10) as u32 == n / 10 + 48);
    assert(digit_char(n % 10) as u32 == n % 10 + 48);
    assert(t.drop_last() =~= seq![digit_char(n / 10)]);
    assert(t.drop_last().drop_last() =~= Seq::<char>::empty());
    assert(digit_value(t.drop_last().last()) == n / 10);
    assert(digit_value(t.last()) == n % 10);
    assert(digits_value(t.drop_last().drop_last()) == 0);
    assert(digits_value(t.drop_last()) == n / 10);
    assert(digits_value(t) == (n / 10) * 10 + n % 10);
    assert(forall|i: int| 0 <= i < 2 ==> is_digit(#[trigger] t[i]));
}

/// Digits parse as their value when it fits in a `u64`.
pub proof fn lemma_parse_digits(d: Seq<char>)
    requires
        all_digits(d),
        digits_value(d) <= u64::MAX,
    ensures
        parse_u64(d) == Some(digits_value(d) as u64),
{
    assert(is_digit(d[0]));
}

/// `n` rendered with at least two digits (`{:02}`), for `n < 100`.
pub open spec fn two_digits(n: nat) -> Seq<char> {
    seq![digit_char(n / 10), digit_char(n % 10)]
}

/// The character for the digit `d < 10`.
pub fn digit_to_char(d: u64) -> (c: char)
    requires
        d < 10,
    ensures
        c == digit_char(d as nat),
{
    let c = ('0' as u8 + d as u8) as char;
    c
}

/// Appends the decimal rendering of `n`.
pub fn push_decimal(out: &mut String, n: u64)
    ensures
        final(out)@ == old(out)@ + decimal(n as nat),
    decreases n,
{
    if n >= 10 {
        push_decimal(out, n / 10);
    }
    push_char(out, digit_to_char(n % 10));
    if n < 10 {
        assert(decimal(n as nat) =~= seq![digit_char(n as nat)]);
    }
}

/// Appends `n` with at least two digits, for `n < 100`.
pub fn push_two_digits(out: &mut String, n: u64)
    requires
        n < 100,
    ensures
        final(out)@ == old(out)@ + two_digits(n as nat),
{
    push_char(out, digit_to_char(n / 10));
    push_char(out, digit_to_char(n % 10));
    assert(final(out)@ =~= old(out)@ + two_digits(n as nat));
}

/// The decimal rendering of a signed number (`i64::to_string`).
pub open spec fn signed_decimal(n: int) -> Seq<char> {
    if n < 0 {
        seq!['-'] + decimal((-n) as nat)
    } else {
        decimal(n as nat)
    }
}

/// Appends the decimal rendering of a signed number.
pub fn push_signed_decimal(out: &mut String, n: i64)
    ensures
        final(out)@ == old(out)@ + signed_decimal(n as int),
{
    if n < 0 {
        push_char(out, '-');
        let m: u64 = if n == i64::MIN {
            9223372036854775808u64
        } else {
            (-n) as u64
        };
        push_decimal(out, m);
        assert(final(out)@ =~= old(out)@ + signed_decimal(n as int));
    } else {
        push_decimal(out, n as u64);
    }
}

// ---------------------------------------------------------------------------
// Case mapping (std)
// ---------------------------------------------------------------------------

/// What `str::to_lowercase` returns for the characters `s`.
pub uninterp spec fn lowercase(s: Seq<char>) -> Seq<char>;

/// What `str::to_uppercase` returns for the characters `s`.
pub uninterp spec fn uppercase(s: Seq<char>) -> Seq<char>;

/// `str::to_lowercase`: its result is taken to depend on the characters of `s`
/// alone, and is named `lowercase`; the Unicode case tables are not stated.
#[verifier::external_body]
pub fn to_lowercase(s: &str) -> (r: String)
    ensures
        r@ == lowercase(s@),
{
    s.to_lowercase()
}

/// `str::to_uppercase`: its result is taken to depend on the characters of `s`
/// alone, and is named `uppercase`; the Unicode case tables are not stated.
#[verifier::external_body]
pub fn to_uppercase(s: &str) -> (r: String)
    ensures
        r@ == uppercase(s@),
{
    s.to_uppercase()
}

} // verus!

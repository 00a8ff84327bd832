//! Character-level helpers shared by the line-oriented scanners.
use vstd::prelude::*;
use vstd::string::*;

verus! {

/// Unicode `White_Space`, the set that `char::is_whitespace` and `str::trim` use.
pub open spec fn is_ws_spec(c: char) -> bool {
    c == '\t' || c == '\n' || c == '\u{0B}' || c == '\u{0C}' || c == '\r' || c == ' '
        || c == '\u{85}' || c == '\u{A0}' || c == '\u{1680}'
        || ('\u{2000}' <= c && c <= '\u{200A}') || c == '\u{2028}' || c == '\u{2029}'
        || c == '\u{202F}' || c == '\u{205F}' || c == '\u{3000}'
}

pub fn is_ws(c: char) -> (r: bool)
    ensures
        r == is_ws_spec(c),
{
    c == '\t' || c == '\n' || c == '\u{0B}' || c == '\u{0C}' || c == '\r' || c == ' '
        || c == '\u{85}' || c == '\u{A0}' || c == '\u{1680}'
        || ('\u{2000}' <= c && c <= '\u{200A}') || c == '\u{2028}' || c == '\u{2029}'
        || c == '\u{202F}' || c == '\u{205F}' || c == '\u{3000}'
}

/// Index of the first character at or after `i` that is not whitespace (or `s.len()`).
pub open spec fn skip_ws(s: Seq<char>, i: int) -> int
    decreases s.len() - i,
{
    if i >= s.len() || i < 0 {
        i
    } else if is_ws_spec(s[i]) {
        skip_ws(s, i + 1)
    } else {
        i
    }
}

/// Index just past the last character before `j` that is not whitespace (or `lo`).
pub open spec fn back_ws(s: Seq<char>, lo: int, j: int) -> int
    decreases j - lo,
{
    if j <= lo {
        j
    } else if is_ws_spec(s[j - 1]) {
        back_ws(s, lo, j - 1)
    } else {
        j
    }
}

/// `s[a..b]` with leading and trailing whitespace removed.
pub open spec fn trim_range(s: Seq<char>, a: int, b: int) -> Seq<char> {
    let lo = skip_ws(s.subrange(0, b), a);
    s.subrange(lo, back_ws(s, lo, b))
}

/// `s` with leading and trailing whitespace removed.
pub open spec fn trim(s: Seq<char>) -> Seq<char> {
    trim_range(s, 0, s.len() as int)
}

pub proof fn lemma_skip_ws_bounds(s: Seq<char>, i: int)
    requires
        0 <= i <= s.len(),
    ensures
        i <= skip_ws(s, i) <= s.len(),
        forall|k: int| i <= k < skip_ws(s, i) ==> is_ws_spec(#[trigger] s[k]),
        skip_ws(s, i) < s.len() ==> !is_ws_spec(s[skip_ws(s, i)]),
    decreases s.len() - i,
{
    if i < s.len() && is_ws_spec(s[i]) {
        lemma_skip_ws_bounds(s, i + 1);
    }
}

/// Whitespace-trimmed range `[lo, hi)` of `s[a..b]`.
pub fn trim_bounds(s: &Vec<char>, a: usize, b: usize) -> (r: (usize, usize))
    requires
        a <= b <= s@.len(),
    ensures
        a <= r.0 <= r.1 <= b,
        s@.subrange(r.0 as int, r.1 as int) == trim_range(s@, a as int, b as int),
        r.0 == skip_ws(s@.subrange(0, b as int), a as int),
{
    let ghost pre = s@.subrange(0, b as int);
    let mut lo: usize = a;
    while lo < b && is_ws(s[lo])
        invariant
            a <= lo <= b <= s@.len(),
            pre == s@.subrange(0, b as int),
            skip_ws(pre, lo as int) == skip_ws(pre, a as int),
        decreases b - lo,
    {
        lo = lo + 1;
    }
    proof {
        lemma_skip_ws_bounds(pre, a as int);
    }
    let mut hi: usize = b;
    while hi > lo && is_ws(s[hi - 1])
        invariant
            a <= lo <= hi <= b <= s@.len(),
            back_ws(s@, lo as int, hi as int) == back_ws(s@, lo as int, b as int),
        decreases hi - lo,
    {
        hi = hi - 1;
    }
    (lo, hi)
}

/// The characters of `s`, one per element.
pub fn chars_of(s: &str) -> (r: Vec<char>)
    ensures
        r@ == s@,
{
    let mut out: Vec<char> = Vec::new();
    for c in it: s.chars()
        invariant
            it.seq() == s@,
            out@ == it.seq().subrange(0, it.index() as int),
    {
        out.push(c);
    }
    out
}


/// End of a line that runs from `start` to a line feed at `i`: a carriage
/// return right before the line feed belongs to the line ending.
pub open spec fn line_stop(s: Seq<char>, start: int, i: int) -> int {
    if i > start && s[i - 1] == '\r' {
        i - 1
    } else {
        i
    }
}

/// Spans of the lines of `s[start..]`, scanning from `i`, where the current line
/// began at `start`. Lines end at a line feed; a final line feed starts no new line.
pub open spec fn line_spans_from(s: Seq<char>, start: int, i: int) -> Seq<(int, int)>
    decreases s.len() - i,
{
    if i >= s.len() || i < 0 {
        if start < s.len() {
            seq![(start, s.len() as int)]
        } else {
            seq![]
        }
    } else if s[i] == '\n' {
        seq![(start, line_stop(s, start, i))].add(line_spans_from(s, i + 1, i + 1))
    } else {
        line_spans_from(s, start, i + 1)
    }
}

/// The `[start, end)` span of each line of `s`, as `str::lines` splits it.
pub open spec fn line_spans(s: Seq<char>) -> Seq<(int, int)> {
    line_spans_from(s, 0, 0)
}

/// Line `k` of `s`, without its line ending.
pub open spec fn line_at(s: Seq<char>, k: int) -> Seq<char> {
    s.subrange(line_spans(s)[k].0, line_spans(s)[k].1)
}

pub open spec fn spans_in_bounds(s: Seq<char>, spans: Seq<(int, int)>) -> bool {
    forall|k: int|
        0 <= k < spans.len() ==> 0 <= (#[trigger] spans[k]).0 <= spans[k].1 <= s.len()
}

pub proof fn lemma_line_spans_from_bounds(s: Seq<char>, start: int, i: int)
    requires
        0 <= start <= i <= s.len(),
    ensures
        spans_in_bounds(s, line_spans_from(s, start, i)),
    decreases s.len() - i,
{
    if i < s.len() {
        if s[i] == '\n' {
            lemma_line_spans_from_bounds(s, i + 1, i + 1);
            let rest = line_spans_from(s, i + 1, i + 1);
            let all = seq![(start, line_stop(s, start, i))].add(rest);
            assert forall|k: int| 0 <= k < all.len() implies 0 <= (#[trigger] all[k]).0 <= all[k].1
                <= s.len() by {
                if k > 0 {
                    assert(all[k] == rest[k - 1]);
                }
            }
        } else {
            lemma_line_spans_from_bounds(s, start, i + 1);
        }
    }
}

pub proof fn lemma_line_spans_bounds(s: Seq<char>)
    ensures
        spans_in_bounds(s, line_spans(s)),
{
    lemma_line_spans_from_bounds(s, 0, 0);
}

/// The spans of the lines of `s`.
pub fn split_lines(s: &Vec<char>) -> (r: Vec<(usize, usize)>)
    ensures
        r@.len() == line_spans(s@).len(),
        forall|k: int|
            0 <= k < r@.len() ==> (#[trigger] r@[k]).0 as int == line_spans(s@)[k].0 && r@[k].1
                as int == line_spans(s@)[k].1,
        forall|k: int| 0 <= k < r@.len() ==> (#[trigger] r@[k]).0 <= r@[k].1 <= s@.len(),
{
    proof {
        lemma_line_spans_bounds(s@);
    }
    let mut out: Vec<(usize, usize)> = Vec::new();
    let mut start: usize = 0;
    let mut i: usize = 0;
    let n = s.len();
    while i < n
        invariant
            n == s@.len(),
            start <= i <= n,
            line_spans(s@) == out@.map_values(|p: (usize, usize)| (p.0 as int, p.1 as int)).add(
                line_spans_from(s@, start as int, i as int),
            ),
        decreases n - i,
    {
        if s[i] == '\n' {
            let stop = if i > start && s[i - 1] == '\r' {
                i - 1
            } else {
                i
            };
            let ghost before = out@.map_values(|p: (usize, usize)| (p.0 as int, p.1 as int));
            out.push((start, stop));
            assert(out@.map_values(|p: (usize, usize)| (p.0 as int, p.1 as int)) =~= before.push(
                (start as int, stop as int),
            ));
            assert(line_spans_from(s@, start as int, i as int) == seq![
                (start as int, stop as int),
            ].add(line_spans_from(s@, i + 1, i + 1)));
            assert(before.push((start as int, stop as int)).add(
                line_spans_from(s@, i + 1, i + 1),
            ) =~= before.add(
                seq![(start as int, stop as int)].add(line_spans_from(s@, i + 1, i + 1)),
            ));
            start = i + 1;
        }
        i = i + 1;
    }
    let ghost before = out@.map_values(|p: (usize, usize)| (p.0 as int, p.1 as int));
    if start < n {
        out.push((start, n));
        assert(out@.map_values(|p: (usize, usize)| (p.0 as int, p.1 as int)) =~= before.push(
            (start as int, n as int),
        ));
        assert(line_spans(s@) =~= before.push((start as int, n as int)));
    } else {
        assert(line_spans(s@) =~= before);
    }
    proof {
        let m = out@.map_values(|p: (usize, usize)| (p.0 as int, p.1 as int));
        assert forall|k: int| 0 <= k < out@.len() implies (#[trigger] out@[k]).0 as int
            == line_spans(s@)[k].0 && out@[k].1 as int == line_spans(s@)[k].1 by {
            assert(m[k] == line_spans(s@)[k]);
        }
        assert forall|k: int| 0 <= k < out@.len() implies (#[trigger] out@[k]).0 <= out@[k].1
            <= s@.len() by {
            assert(m[k] == line_spans(s@)[k]);
        }
    }
    out
}

/// A copy of the characters `[a, b)` of `text`.
pub fn substring(text: &str, a: usize, b: usize) -> (r: String)
    requires
        a <= b <= text@.len(),
    ensures
        r@ == text@.subrange(a as int, b as int),
{
    String::from_str(text.substring_char(a, b))
}

/// Whether two strings hold the same characters.
pub fn str_eq(a: &str, b: &str) -> (r: bool)
    ensures
        r == (a@ == b@),
{
    let x = chars_of(a);
    let y = chars_of(b);
    if x.len() != y.len() {
        return false;
    }
    let mut i: usize = 0;
    while i < x.len()
        invariant
            x@ == a@,
            y@ == b@,
            x@.len() == y@.len(),
            i <= x@.len(),
            forall|j: int| 0 <= j < i ==> x@[j] == y@[j],
        decreases x@.len() - i,
    {
        if x[i] != y[i] {
            return false;
        }
        i = i + 1;
    }
    assert(x@ =~= y@);
    true
}

} // verus!

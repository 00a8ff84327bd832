//! Finding `[[target]]` and `[[target|title]]` occurrences on a line, and the
//! coarser check that gates link completion.
use crate::text::{chars_of, line_at, line_spans, split_lines, substring, trim_bounds, trim_range};
use vstd::prelude::*;

verus! {

/// A link occurrence as the scanner sees it: its span on the line, the trimmed
/// target, and the trimmed title when a `|` is present.
pub struct LinkMatch {
    pub start: int,
    pub end: int,
    pub target: Seq<char>,
    pub title: Option<Seq<char>>,
}

/// First index at or after `i` holding `]`, or `|` too when `pipe` holds; `s.len()` if none.
pub open spec fn first_stop(s: Seq<char>, i: int, pipe: bool) -> int
    decreases s.len() - i,
{
    if i < 0 || i >= s.len() {
        s.len() as int
    } else if s[i] == ']' || (pipe && s[i] == '|') {
        i
    } else {
        first_stop(s, i + 1, pipe)
    }
}

/// Whether a link starts at `st`: `(k, e)` where `k` is the index of the `|` or of the
/// first `]` of the closing `]]`, and `e` the index just past the closing `]]`.
pub open spec fn scan_link(s: Seq<char>, st: int) -> Option<(int, int)> {
    if !(0 <= st && st + 1 < s.len() && s[st] == '[' && s[st + 1] == '[') {
        None
    } else {
        let k = first_stop(s, st + 2, true);
        if k >= s.len() || k == st + 2 {
            None
        } else if s[k] == ']' {
            if k + 1 < s.len() && s[k + 1] == ']' {
                Some((k, k + 2))
            } else {
                None
            }
        } else {
            let j = first_stop(s, k + 1, false);
            if j > k + 1 && j + 1 < s.len() && s[j + 1] == ']' {
                Some((k, j + 2))
            } else {
                None
            }
        }
    }
}

/// The occurrence that starts at `st`, given `scan_link(s, st) == Some((k, e))`.
pub open spec fn link_at(s: Seq<char>, st: int, k: int, e: int) -> LinkMatch {
    LinkMatch {
        start: st,
        end: e,
        target: trim_range(s, st + 2, k),
        title: if s[k] == '|' {
            Some(trim_range(s, k + 1, e - 2))
        } else {
            None
        },
    }
}

/// The leftmost link that starts at or after `from`: `(start, k, end)`.
pub open spec fn next_link(s: Seq<char>, from: int) -> Option<(int, int, int)>
    decreases s.len() - from,
{
    if from < 0 || from >= s.len() {
        None
    } else {
        match scan_link(s, from) {
            Some(p) => Some((from, p.0, p.1)),
            None => next_link(s, from + 1),
        }
    }
}

/// Every non-overlapping occurrence at or after `from`, left to right.
pub open spec fn links_from(s: Seq<char>, from: int) -> Seq<LinkMatch>
    decreases s.len() - from,
{
    match next_link(s, from) {
        None => seq![],
        Some(t) => if from < t.2 <= s.len() {
            seq![link_at(s, t.0, t.1, t.2)].add(links_from(s, t.2))
        } else {
            seq![]
        },
    }
}

/// Every occurrence on the line `s`, left to right.
pub open spec fn links_of(s: Seq<char>) -> Seq<LinkMatch> {
    links_from(s, 0)
}

/// The first occurrence of `ms` whose span holds `c`, unless its target is empty.
pub open spec fn locate_in(ms: Seq<LinkMatch>, c: int) -> Option<LinkMatch>
    decreases ms.len(),
{
    if ms.len() == 0 {
        None
    } else if ms[0].start <= c <= ms[0].end {
        if ms[0].target.len() == 0 {
            None
        } else {
            Some(ms[0])
        }
    } else {
        locate_in(ms.drop_first(), c)
    }
}

/// The occurrence on line `s` under the cursor `c`, if any.
pub open spec fn locate(s: Seq<char>, c: int) -> Option<LinkMatch> {
    locate_in(links_of(s), c)
}

/// A located wiki-link: its span on the line and its trimmed target and title.
pub struct LinkOccurrence {
    pub match_start: usize,
    pub match_end: usize,
    pub target_path: String,
    pub title: Option<String>,
}

impl LinkOccurrence {
    pub open spec fn view(&self) -> LinkMatch {
        LinkMatch {
            start: self.match_start as int,
            end: self.match_end as int,
            target: self.target_path@,
            title: match self.title {
                Some(t) => Some(t@),
                None => None,
            },
        }
    }
}

fn find_stop(s: &Vec<char>, i: usize, pipe: bool) -> (r: usize)
    requires
        i <= s@.len(),
    ensures
        r as int == first_stop(s@, i as int, pipe),
        i <= r <= s@.len(),
{
    let mut j: usize = i;
    while j < s.len() && !(s[j] == ']' || (pipe && s[j] == '|'))
        invariant
            i <= j <= s@.len(),
            first_stop(s@, j as int, pipe) == first_stop(s@, i as int, pipe),
        decreases s@.len() - j,
    {
        j = j + 1;
    }
    j
}

fn scan_link_exec(s: &Vec<char>, st: usize) -> (r: Option<(usize, usize)>)
    requires
        st < s@.len(),
    ensures
        match r {
            Some(p) => scan_link(s@, st as int) == Some((p.0 as int, p.1 as int)),
            None => scan_link(s@, st as int) is None,
        },
        r matches Some(p) ==> st + 2 < p.0 < p.1 <= s@.len(),
        r matches Some(p) ==> (s@[p.0 as int] == '|' ==> p.0 + 1 < p.1 - 2),
{
    let n = s.len();
    if !(st + 1 < n && s[st] == '[' && s[st + 1] == '[') {
        return None;
    }
    let k = find_stop(s, st + 2, true);
    if k >= n || k == st + 2 {
        return None;
    }
    if s[k] == ']' {
        if k + 1 < n && s[k + 1] == ']' {
            Some((k, k + 2))
        } else {
            None
        }
    } else {
        let j = find_stop(s, k + 1, false);
        if j > k + 1 && j < n && j + 1 < n && s[j + 1] == ']' {
            Some((k, j + 2))
        } else {
            None
        }
    }
}

fn next_link_exec(s: &Vec<char>, from: usize) -> (r: Option<(usize, usize, usize)>)
    requires
        from <= s@.len(),
    ensures
        match r {
            Some(t) => next_link(s@, from as int) == Some((t.0 as int, t.1 as int, t.2 as int)),
            None => next_link(s@, from as int) is None,
        },
        r matches Some(t) ==> from <= t.0 && t.0 + 2 < t.1 < t.2 <= s@.len(),
        r matches Some(t) ==> (s@[t.1 as int] == '|' ==> t.1 + 1 < t.2 - 2),
{
    let mut st: usize = from;
    while st < s.len()
        invariant
            from <= st <= s@.len(),
            next_link(s@, st as int) == next_link(s@, from as int),
        decreases s@.len() - st,
    {
        match scan_link_exec(s, st) {
            Some(p) => {
                return Some((st, p.0, p.1));
            },
            None => {},
        }
        st = st + 1;
    }
    None
}

/// Finds the wiki-link under `cursor` (a character offset) on one line.
pub fn locate_wiki_link(line: &str, cursor: usize) -> (r: Option<LinkOccurrence>)
    ensures
        match r {
            Some(o) => locate(line@, cursor as int) == Some(o.view()),
            None => locate(line@, cursor as int) is None,
        },
{
    let s = chars_of(line);
    let mut from: usize = 0;
    while from < s.len()
        invariant
            s@ == line@,
            from <= s@.len(),
            locate(line@, cursor as int) == locate_in(links_from(s@, from as int), cursor as int),
        decreases s@.len() - from,
    {
        match next_link_exec(&s, from) {
            None => {
                return None;
            },
            Some(t) => {
                let (st, k, e) = t;
                let ghost m = link_at(s@, st as int, k as int, e as int);
                assert(links_from(s@, from as int) == seq![m].add(links_from(s@, e as int)));
                assert(seq![m].add(links_from(s@, e as int)).drop_first() =~= links_from(
                    s@,
                    e as int,
                ));
                if st <= cursor && cursor <= e {
                    let (tlo, thi) = trim_bounds(&s, st + 2, k);
                    if tlo == thi {
                        return None;
                    }
                    let target_path = substring(line, tlo, thi);
                    let title = if s[k] == '|' {
                        let (alo, ahi) = trim_bounds(&s, k + 1, e - 2);
                        Some(substring(line, alo, ahi))
                    } else {
                        None
                    };
                    let occ = LinkOccurrence { match_start: st, match_end: e, target_path, title };
                    assert(occ.view() == m);
                    return Some(occ);
                }
                from = e;
            },
        }
    }
    assert(links_from(s@, from as int) == Seq::<LinkMatch>::empty());
    None
}


/// The occurrence under the cursor at `(line, c)` of a document, if any.
pub open spec fn locate_in_document(text: Seq<char>, line: int, c: int) -> Option<LinkMatch> {
    if 0 <= line < line_spans(text).len() {
        locate(line_at(text, line), c)
    } else {
        None
    }
}

/// The text of line `line` of `text`, if the document has that many lines.
pub fn line_text(text: &str, line: usize) -> (r: Option<String>)
    ensures
        match r {
            Some(l) => line < line_spans(text@).len() && l@ == line_at(text@, line as int),
            None => line >= line_spans(text@).len(),
        },
{
    let s = chars_of(text);
    let spans = split_lines(&s);
    if line < spans.len() {
        let (a, b) = spans[line];
        Some(substring(text, a, b))
    } else {
        None
    }
}

/// The wiki-link under the cursor at `(line, character)` of a document.
pub fn wiki_link_at(document_text: &str, line: u32, character: u32) -> (r: Option<LinkOccurrence>)
    ensures
        match r {
            Some(o) => locate_in_document(document_text@, line as int, character as int) == Some(
                o.view(),
            ),
            None => locate_in_document(document_text@, line as int, character as int) is None,
        },
{
    match line_text(document_text, line as usize) {
        Some(l) => locate_wiki_link(l.as_str(), character as usize),
        None => None,
    }
}

/// The target path of the wiki-link under the cursor, to be resolved against
/// the vault root.
pub fn goto_wikilink(document_text: &str, line: u32, character: u32) -> (r: Option<String>)
    ensures
        match r {
            Some(p) => locate_in_document(document_text@, line as int, character as int) matches Some(
                m,
            ) && m.target == p@,
            None => locate_in_document(document_text@, line as int, character as int) is None,
        },
{
    match wiki_link_at(document_text, line, character) {
        Some(o) => Some(o.target_path),
        None => None,
    }
}

/// The wiki-link under the cursor, whose span becomes the hover range and whose
/// target names the note to preview.
pub fn hover_wikilink(document_text: &str, line: u32, character: u32) -> (r: Option<
    LinkOccurrence,
>)
    ensures
        match r {
            Some(o) => locate_in_document(document_text@, line as int, character as int) == Some(
                o.view(),
            ),
            None => locate_in_document(document_text@, line as int, character as int) is None,
        },
{
    wiki_link_at(document_text, line, character)
}

/// Start of the last `[[` that ends at or before `p`, or -1.
pub open spec fn last_open(l: Seq<char>, p: int) -> int
    decreases p,
{
    if p < 2 || p > l.len() {
        -1
    } else if l[p - 2] == '[' && l[p - 1] == '[' {
        p - 2
    } else {
        last_open(l, p - 1)
    }
}

/// Start of the first `]]` at or after `i`, or -1.
pub open spec fn first_close(l: Seq<char>, i: int) -> int
    decreases l.len() - i,
{
    if i < 0 || i + 1 >= l.len() {
        -1
    } else if l[i] == ']' && l[i + 1] == ']' {
        i
    } else {
        first_close(l, i + 1)
    }
}

/// Whether cursor `c` on line `l` sits in a `[[` span: the last `[[` before the
/// cursor is either unclosed on the line or closed at or after the cursor.
pub open spec fn in_link_span(l: Seq<char>, c: int) -> bool {
    let p = if c < l.len() {
        c
    } else {
        l.len() as int
    };
    let o = last_open(l, p);
    if o < 0 {
        false
    } else {
        let cl = first_close(l, o);
        cl < 0 || c <= cl
    }
}

/// Whether the cursor at `(line, character)` is inside a wiki-link, finished or
/// not, so that link completions are offered.
pub fn is_inside_wiki_link(text: &str, line: u32, character: u32) -> (r: bool)
    ensures
        r == (line < line_spans(text@).len() && in_link_span(
            line_at(text@, line as int),
            character as int,
        )),
{
    let l = match line_text(text, line as usize) {
        Some(l) => l,
        None => {
            return false;
        },
    };
    let s = chars_of(l.as_str());
    let c = character as usize;
    let p = if c < s.len() {
        c
    } else {
        s.len()
    };
    let mut q: usize = p;
    while q >= 2 && !(s[q - 2] == '[' && s[q - 1] == '[')
        invariant
            q <= p <= s@.len(),
            last_open(s@, q as int) == last_open(s@, p as int),
        decreases q,
    {
        q = q - 1;
    }
    if q < 2 {
        return false;
    }
    let o = q - 2;
    let mut i: usize = o;
    while i < s.len() && i + 1 < s.len() && !(s[i] == ']' && s[i + 1] == ']')
        invariant
            o <= i <= s@.len(),
            first_close(s@, i as int) == first_close(s@, o as int),
        decreases s@.len() - i,
    {
        i = i + 1;
    }
    if i >= s.len() || i + 1 >= s.len() {
        true
    } else {
        c <= i
    }
}

/// Spans of `ms` are ordered, non-empty and non-overlapping, all at or after `from`.
pub open spec fn spans_ordered(ms: Seq<LinkMatch>, from: int) -> bool {
    &&& forall|k: int| 0 <= k < ms.len() ==> from <= (#[trigger] ms[k]).start < ms[k].end
    &&& forall|j: int, k: int| 0 <= j < k < ms.len() ==> (#[trigger] ms[j]).end <= (#[trigger] ms[k]).start
}

proof fn lemma_first_stop_ge(s: Seq<char>, i: int, pipe: bool)
    requires
        0 <= i <= s.len(),
    ensures
        i <= first_stop(s, i, pipe),
    decreases s.len() - i,
{
    if i < s.len() && !(s[i] == ']' || (pipe && s[i] == '|')) {
        lemma_first_stop_ge(s, i + 1, pipe);
    }
}

proof fn lemma_next_link(s: Seq<char>, from: int)
    requires
        0 <= from,
    ensures
        next_link(s, from) matches Some(t) ==> from <= t.0 < t.2 && link_at(s, t.0, t.1, t.2).start
            == t.0 && link_at(s, t.0, t.1, t.2).end == t.2,
    decreases s.len() - from,
{
    if from < s.len() {
        match scan_link(s, from) {
            Some(p) => {
                lemma_first_stop_ge(s, from + 2, true);
                let k = first_stop(s, from + 2, true);
                if s[k] != ']' {
                    lemma_first_stop_ge(s, k + 1, false);
                }
            },
            None => {
                lemma_next_link(s, from + 1);
            },
        }
    }
}

proof fn lemma_links_ordered(s: Seq<char>, from: int)
    requires
        0 <= from,
    ensures
        spans_ordered(links_from(s, from), from),
    decreases s.len() - from,
{
    lemma_next_link(s, from);
    match next_link(s, from) {
        None => {},
        Some(t) => {
            if from < t.2 <= s.len() {
                lemma_links_ordered(s, t.2);
                let rest = links_from(s, t.2);
                let ms = links_from(s, from);
                assert(ms == seq![link_at(s, t.0, t.1, t.2)].add(rest));
                assert forall|k: int| 0 < k < ms.len() implies ms[k] == rest[k - 1] by {}
                assert forall|k: int| 0 <= k < ms.len() implies from <= (#[trigger] ms[k]).start
                    < ms[k].end by {
                    if k > 0 {
                        assert(ms[k] == rest[k - 1]);
                    }
                }
                assert forall|j: int, k: int| 0 <= j < k < ms.len() implies (#[trigger] ms[j]).end
                    <= (#[trigger] ms[k]).start by {
                    assert(ms[k] == rest[k - 1]);
                    if j > 0 {
                        assert(ms[j] == rest[j - 1]);
                    }
                }
            }
        },
    }
}

proof fn lemma_locate_in_index(ms: Seq<LinkMatch>, i: int, c: int, from: int)
    requires
        spans_ordered(ms, from),
        0 <= i < ms.len(),
        ms[i].start <= c <= ms[i].end,
        ms[i].target.len() > 0,
        i == 0 || ms[i - 1].end < c,
    ensures
        locate_in(ms, c) == Some(ms[i]),
    decreases i,
{
    if i > 0 {
        let rest = ms.drop_first();
        if i > 1 {
            assert(ms[0].end <= ms[i - 1].start);
        }
        assert(ms[i - 1].start < ms[i - 1].end);
        assert(spans_ordered(rest, from)) by {
            assert forall|j: int, k: int| 0 <= j < k < rest.len() implies (#[trigger] rest[j]).end
                <= (#[trigger] rest[k]).start by {
                assert(rest[j] == ms[j + 1] && rest[k] == ms[k + 1]);
            }
            assert forall|k: int| 0 <= k < rest.len() implies from <= (#[trigger] rest[k]).start
                < rest[k].end by {
                assert(rest[k] == ms[k + 1]);
            }
        }
        lemma_locate_in_index(rest, i - 1, c, from);
    }
}

proof fn lemma_locate_in_outside(ms: Seq<LinkMatch>, c: int)
    requires
        forall|k: int| 0 <= k < ms.len() ==> c < (#[trigger] ms[k]).start || c > ms[k].end,
    ensures
        locate_in(ms, c) is None,
    decreases ms.len(),
{
    if ms.len() > 0 {
        let rest = ms.drop_first();
        assert forall|k: int| 0 <= k < rest.len() implies c < (#[trigger] rest[k]).start || c
            > rest[k].end by {
            assert(rest[k] == ms[k + 1]);
        }
        lemma_locate_in_outside(rest, c);
    }
}

/// A cursor anywhere in the span of an occurrence with a non-empty target,
/// delimiters included, locates exactly that occurrence's target and title.
/// Where two occurrences touch, the shared offset belongs to the left one.
pub proof fn law_cursor_in_span_locates_link(s: Seq<char>, i: int, c: int)
    requires
        0 <= i < links_of(s).len(),
        links_of(s)[i].start <= c <= links_of(s)[i].end,
        links_of(s)[i].target.len() > 0,
        i == 0 || links_of(s)[i - 1].end < c,
    ensures
        locate(s, c) == Some(links_of(s)[i]),
{
    lemma_links_ordered(s, 0);
    lemma_locate_in_index(links_of(s), i, c, 0);
}

/// A cursor outside the span of every occurrence on the line locates nothing.
pub proof fn law_cursor_outside_spans_locates_nothing(s: Seq<char>, c: int)
    requires
        forall|k: int|
            0 <= k < links_of(s).len() ==> c < (#[trigger] links_of(s)[k]).start || c > links_of(
                s,
            )[k].end,
    ensures
        locate(s, c) is None,
{
    lemma_locate_in_outside(links_of(s), c);
}

} // verus!

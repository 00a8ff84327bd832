//! Markdown headings as document and workspace symbols, and the ordering of
//! workspace symbols by match score.
use crate::text::{chars_of, is_ws, is_ws_spec, line_spans, skip_ws, split_lines, substring, trim_bounds, trim_range};
use vstd::prelude::*;

verus! {

/// Index of the first character at or after `i` that is not `#`.
pub open spec fn hash_run_end(l: Seq<char>, i: int) -> int
    decreases l.len() - i,
{
    if i < 0 || i >= l.len() {
        i
    } else if l[i] == '#' {
        hash_run_end(l, i + 1)
    } else {
        i
    }
}

/// The name of the heading on line `l`: the line's first non-whitespace run is
/// one to six `#`, followed by whitespace; the name is the rest, trimmed.
pub open spec fn heading_name(l: Seq<char>) -> Option<Seq<char>> {
    let i = skip_ws(l, 0);
    let h = hash_run_end(l, i);
    if 1 <= h - i <= 6 && h < l.len() && is_ws_spec(l[h]) {
        Some(trim_range(l, h, l.len() as int))
    } else {
        None
    }
}

/// A heading of a document: its name, its line, and the length of that line.
pub struct Heading {
    pub name: Seq<char>,
    pub line: int,
    pub end: int,
}

pub open spec fn heading_row(s: Seq<char>, span: (int, int), k: int) -> Seq<Heading> {
    match heading_name(s.subrange(span.0, span.1)) {
        Some(name) => seq![Heading { name, line: k, end: span.1 - span.0 }],
        None => seq![],
    }
}

/// The headings among the first `n` lines of `s`, in line order.
pub open spec fn headings_upto(s: Seq<char>, n: int) -> Seq<Heading>
    decreases n,
{
    if n <= 0 {
        seq![]
    } else {
        headings_upto(s, n - 1).add(heading_row(s, line_spans(s)[n - 1], n - 1))
    }
}

/// Every heading of the document `s`, in line order, flat whatever its level.
pub open spec fn document_headings(s: Seq<char>) -> Seq<Heading> {
    headings_upto(s, line_spans(s).len() as int)
}

/// A heading found in a document; its range is the whole line.
pub struct HeadingSymbol {
    pub name: String,
    pub line: usize,
    pub end_character: usize,
}

impl HeadingSymbol {
    pub open spec fn view(&self) -> Heading {
        Heading { name: self.name@, line: self.line as int, end: self.end_character as int }
    }
}

/// Bounds of the heading name on line `l`, if it is a heading.
fn heading_bounds(l: &Vec<char>) -> (r: Option<(usize, usize)>)
    ensures
        match r {
            Some(p) => p.0 <= p.1 <= l@.len() && heading_name(l@) == Some(
                l@.subrange(p.0 as int, p.1 as int),
            ),
            None => heading_name(l@) is None,
        },
{
    let n = l.len();
    let mut i: usize = 0;
    while i < n && is_ws(l[i])
        invariant
            i <= n == l@.len(),
            skip_ws(l@, i as int) == skip_ws(l@, 0),
        decreases n - i,
    {
        i = i + 1;
    }
    let mut h: usize = i;
    while h < n && l[h] == '#'
        invariant
            i <= h <= n == l@.len(),
            hash_run_end(l@, h as int) == hash_run_end(l@, i as int),
        decreases n - h,
    {
        h = h + 1;
    }
    if h - i >= 1 && h - i <= 6 && h < n && is_ws(l[h]) {
        let (lo, hi) = trim_bounds(l, h, n);
        assert(l@.subrange(0, n as int) =~= l@);
        Some((lo, hi))
    } else {
        None
    }
}

/// The headings of a document, one per heading line, in line order.
pub fn document_symbols(text: &str) -> (r: Vec<HeadingSymbol>)
    ensures
        r@.map_values(|h: HeadingSymbol| h.view()) == document_headings(text@),
{
    let s = chars_of(text);
    let spans = split_lines(&s);
    let mut out: Vec<HeadingSymbol> = Vec::new();
    let mut k: usize = 0;
    while k < spans.len()
        invariant
            s@ == text@,
            k <= spans@.len() == line_spans(s@).len(),
            forall|q: int|
                0 <= q < spans@.len() ==> (#[trigger] spans@[q]).0 as int == line_spans(s@)[q].0
                    && spans@[q].1 as int == line_spans(s@)[q].1,
            forall|q: int| 0 <= q < spans@.len() ==> (#[trigger] spans@[q]).0 <= spans@[q].1 <= s@.len(),
            out@.map_values(|h: HeadingSymbol| h.view()) == headings_upto(s@, k as int),
        decreases spans@.len() - k,
    {
        let (a, b) = spans[k];
        let l = substring(text, a, b);
        let lc = chars_of(l.as_str());
        let ghost before = out@.map_values(|h: HeadingSymbol| h.view());
        match heading_bounds(&lc) {
            Some(p) => {
                let name = substring(l.as_str(), p.0, p.1);
                let sym = HeadingSymbol { name, line: k, end_character: b - a };
                out.push(sym);
                assert(out@.map_values(|h: HeadingSymbol| h.view()) =~= before.push(sym.view()));
            },
            None => {
                assert(out@.map_values(|h: HeadingSymbol| h.view()) =~= before);
            },
        }
        assert(headings_upto(s@, k + 1) == headings_upto(s@, k as int).add(
            heading_row(s@, line_spans(s@)[k as int], k as int),
        ));
        assert(out@.map_values(|h: HeadingSymbol| h.view()) =~= headings_upto(s@, k + 1));
        k = k + 1;
    }
    out
}


/// A note of the vault: its vault-relative path and its full text.
pub struct NoteText {
    pub path: String,
    pub content: String,
}

/// A heading found anywhere in the vault, with the note that holds it.
pub struct WorkspaceSymbol {
    pub name: String,
    pub note_path: String,
    pub line: usize,
    pub end_character: usize,
}

pub struct WorkspaceHeading {
    pub heading: Heading,
    pub note_path: Seq<char>,
}

impl WorkspaceSymbol {
    pub open spec fn view(&self) -> WorkspaceHeading {
        WorkspaceHeading {
            heading: Heading {
                name: self.name@,
                line: self.line as int,
                end: self.end_character as int,
            },
            note_path: self.note_path@,
        }
    }
}

pub open spec fn symbols_view(v: Seq<WorkspaceSymbol>) -> Seq<WorkspaceHeading> {
    v.map_values(|w: WorkspaceSymbol| w.view())
}

pub open spec fn in_note(path: Seq<char>, hs: Seq<Heading>) -> Seq<WorkspaceHeading> {
    hs.map_values(|h: Heading| WorkspaceHeading { heading: h, note_path: path })
}

/// The headings of the first `n` notes, note by note, each in line order.
pub open spec fn vault_headings_upto(notes: Seq<NoteText>, n: int) -> Seq<WorkspaceHeading>
    decreases n,
{
    if n <= 0 {
        seq![]
    } else {
        vault_headings_upto(notes, n - 1).add(
            in_note(notes[n - 1].path@, document_headings(notes[n - 1].content@)),
        )
    }
}

pub open spec fn vault_headings(notes: Seq<NoteText>) -> Seq<WorkspaceHeading> {
    vault_headings_upto(notes, notes.len() as int)
}

/// Every heading of every note, by the same rule as `document_symbols`.
pub fn collect_workspace_symbols(notes: &Vec<NoteText>) -> (r: Vec<WorkspaceSymbol>)
    ensures
        symbols_view(r@) == vault_headings(notes@),
{
    let mut out: Vec<WorkspaceSymbol> = Vec::new();
    let mut k: usize = 0;
    while k < notes.len()
        invariant
            k <= notes@.len(),
            symbols_view(out@) == vault_headings_upto(notes@, k as int),
        decreases notes@.len() - k,
    {
        let note = &notes[k];
        let hs = document_symbols(note.content.as_str());
        let ghost base = symbols_view(out@);
        let ghost hv = hs@.map_values(|h: HeadingSymbol| h.view());
        let mut q: usize = 0;
        while q < hs.len()
            invariant
                q <= hs@.len(),
                hv == hs@.map_values(|h: HeadingSymbol| h.view()),
                symbols_view(out@) == base.add(in_note(note.path@, hv.subrange(0, q as int))),
            decreases hs@.len() - q,
        {
            let h = &hs[q];
            let sym = WorkspaceSymbol {
                name: h.name.clone(),
                note_path: note.path.clone(),
                line: h.line,
                end_character: h.end_character,
            };
            let ghost prev = symbols_view(out@);
            out.push(sym);
            assert(symbols_view(out@) =~= prev.push(sym.view()));
            assert(hv[q as int] == h.view());
            assert(in_note(note.path@, hv.subrange(0, q + 1)) =~= in_note(
                note.path@,
                hv.subrange(0, q as int),
            ).push(sym.view()));
            assert(symbols_view(out@) =~= base.add(in_note(note.path@, hv.subrange(0, q + 1))));
            q = q + 1;
        }
        assert(hv.subrange(0, hs@.len() as int) =~= hv);
        k = k + 1;
    }
    out
}

pub open spec fn score_key(o: Option<u64>) -> int {
    match o {
        Some(k) => k as int,
        None => 0,
    }
}

/// Index `a` ranks before index `b`: a lower score, or an equal score and an
/// earlier position.
pub open spec fn ranks_before(scores: Seq<Option<u64>>, a: int, b: int) -> bool {
    score_key(scores[a]) < score_key(scores[b]) || (score_key(scores[a]) == score_key(scores[b])
        && a < b)
}

/// `order` lists each index with a score exactly once, best score first, ties in
/// their original order; unscored indices are left out.
pub open spec fn is_ranking(scores: Seq<Option<u64>>, order: Seq<int>) -> bool {
    &&& forall|i: int| 0 <= i < order.len() ==> 0 <= #[trigger] order[i] < scores.len() && scores[order[i]] is Some
    &&& forall|j: int| 0 <= j < scores.len() && (#[trigger] scores[j]) is Some ==> exists|i: int| 0 <= i < order.len() && order[i] == j
    &&& forall|i: int, k: int| 0 <= i < k < order.len() ==> ranks_before(scores, #[trigger] order[i], #[trigger] order[k])
}

fn scored_above(o: Option<u64>, key: u64) -> (r: bool)
    ensures
        r == (o is Some && score_key(o) > key),
{
    match o {
        Some(x) => x > key,
        None => false,
    }
}

/// The indices of the scored entries, best (lowest) score first; entries
/// without a score are dropped.
pub fn rank_indices(scores: &Vec<Option<u64>>) -> (r: Vec<usize>)
    ensures
        is_ranking(scores@, r@.map_values(|i: usize| i as int)),
{
    let mut r: Vec<usize> = Vec::new();
    let mut j: usize = 0;
    while j < scores.len()
        invariant
            j <= scores@.len(),
            forall|i: int| 0 <= i < r@.len() ==> (#[trigger] r@[i]) < j && scores@[r@[i] as int] is Some,
            forall|m: int| 0 <= m < j && (#[trigger] scores@[m]) is Some ==> exists|i: int| 0 <= i < r@.len() && r@[i] == m,
            forall|i: int, k: int| 0 <= i < k < r@.len() ==> ranks_before(scores@, #[trigger] r@[i] as int, #[trigger] r@[k] as int),
        decreases scores@.len() - j,
    {
        match scores[j] {
            None => {},
            Some(key) => {
                let mut p: usize = r.len();
                while p > 0 && scored_above(scores[r[p - 1]], key)
                    invariant
                        p <= r@.len(),
                        j < scores@.len(),
                        scores@[j as int] == Some(key),
                        forall|i: int| 0 <= i < r@.len() ==> (#[trigger] r@[i]) < j && scores@[r@[i] as int] is Some,
                        forall|q: int| p <= q < r@.len() ==> score_key(scores@[#[trigger] r@[q] as int]) > key,
                    decreases p,
                {
                    p = p - 1;
                }
                let ghost old_r = r@;
                assert forall|q: int| 0 <= q < p implies score_key(scores@[#[trigger] old_r[q] as int]) <= key by {
                    if q < p - 1 {
                        assert(ranks_before(scores@, old_r[q] as int, old_r[p - 1] as int));
                    }
                }
                r.insert(p, j);
                assert forall|i: int| 0 <= i < r@.len() implies (#[trigger] r@[i]) < j + 1 && scores@[r@[i] as int] is Some by {
                    if i < p {
                        assert(r@[i] == old_r[i]);
                    } else if i > p {
                        assert(r@[i] == old_r[i - 1]);
                    }
                }
                assert forall|m: int| 0 <= m < j + 1 && (#[trigger] scores@[m]) is Some implies exists|i: int| 0 <= i < r@.len() && r@[i] == m by {
                    if m < j {
                        let i0 = choose|i: int| 0 <= i < old_r.len() && old_r[i] == m;
                        if i0 < p {
                            assert(r@[i0] == m);
                        } else {
                            assert(r@[i0 + 1] == m);
                        }
                    } else {
                        assert(r@[p as int] == m);
                    }
                }
                assert forall|i: int, k: int| 0 <= i < k < r@.len() implies ranks_before(scores@, #[trigger] r@[i] as int, #[trigger] r@[k] as int) by {
                    if k < p {
                        assert(r@[i] == old_r[i] && r@[k] == old_r[k]);
                    } else if k == p {
                        assert(r@[i] == old_r[i]);
                    } else if i > p {
                        assert(r@[i] == old_r[i - 1] && r@[k] == old_r[k - 1]);
                    } else if i == p {
                        assert(r@[k] == old_r[k - 1]);
                    } else {
                        assert(r@[i] == old_r[i] && r@[k] == old_r[k - 1]);
                    }
                }
            },
        }
        j = j + 1;
    }
    proof {
        let o = r@.map_values(|i: usize| i as int);
        assert forall|j: int| 0 <= j < scores@.len() && (#[trigger] scores@[j]) is Some implies exists|i: int| 0 <= i < o.len() && o[i] == j by {
            let i0 = choose|i: int| 0 <= i < r@.len() && r@[i] == j;
            assert(o[i0] == j);
        }
        assert forall|i: int, k: int| 0 <= i < k < o.len() implies ranks_before(scores@, #[trigger] o[i], #[trigger] o[k]) by {
            assert(o[i] == r@[i] as int && o[k] == r@[k] as int);
        }
    }
    r
}

fn clone_symbol(w: &WorkspaceSymbol) -> (r: WorkspaceSymbol)
    ensures
        r.view() == w.view(),
{
    WorkspaceSymbol {
        name: w.name.clone(),
        note_path: w.note_path.clone(),
        line: w.line,
        end_character: w.end_character,
    }
}

/// The workspace symbols answered for `query`: all of them for an empty query;
/// otherwise those that the fuzzy matcher scored (`scores[i]` for `symbols[i]`,
/// lower is better), best first, ties in their original order.
pub fn get_workspace_symbols(symbols: &Vec<WorkspaceSymbol>, query: &str, scores: &Vec<Option<u64>>) -> (r: Vec<WorkspaceSymbol>)
    requires
        scores@.len() == symbols@.len(),
    ensures
        query@.len() == 0 ==> symbols_view(r@) == symbols_view(symbols@),
        query@.len() > 0 ==> exists|order: Seq<int>|
            is_ranking(scores@, order) && #[trigger] order.len() == r@.len()
                && forall|i: int| 0 <= i < order.len() ==> (#[trigger] r@[i]).view() == symbols@[order[i]].view(),
{
    let mut out: Vec<WorkspaceSymbol> = Vec::new();
    if query.unicode_len() == 0 {
        let mut k: usize = 0;
        while k < symbols.len()
            invariant
                k <= symbols@.len(),
                symbols_view(out@) == symbols_view(symbols@.subrange(0, k as int)),
            decreases symbols@.len() - k,
        {
            let c = clone_symbol(&symbols[k]);
            let ghost prev = out@;
            out.push(c);
            assert(symbols_view(out@) =~= symbols_view(prev).push(c.view()));
            assert(symbols_view(symbols@.subrange(0, k + 1)) =~= symbols_view(
                symbols@.subrange(0, k as int),
            ).push(symbols@[k as int].view()));
            k = k + 1;
        }
        assert(symbols@.subrange(0, symbols@.len() as int) =~= symbols@);
        return out;
    }
    let order = rank_indices(scores);
    let ghost o = order@.map_values(|i: usize| i as int);
    let mut k: usize = 0;
    while k < order.len()
        invariant
            k <= order@.len(),
            o == order@.map_values(|i: usize| i as int),
            is_ranking(scores@, o),
            scores@.len() == symbols@.len(),
            out@.len() == k,
            forall|i: int| 0 <= i < k ==> (#[trigger] out@[i]).view() == symbols@[o[i]].view(),
        decreases order@.len() - k,
    {
        assert(o[k as int] == order@[k as int] as int);
        let c = clone_symbol(&symbols[order[k]]);
        out.push(c);
        k = k + 1;
    }
    assert(o.len() == out@.len());
    assert(is_ranking(scores@, o) && o.len() == out@.len() && forall|i: int|
        0 <= i < o.len() ==> (#[trigger] out@[i]).view() == symbols@[o[i]].view());
    out
}

} // verus!

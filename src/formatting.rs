//! Markdown formatting that keeps wiki-links: parse, rewrite wiki-link events,
//! render, then drop the escapes the renderer put before `[[`.
use crate::text::{chars_of, str_eq, line_spans, split_lines, substring};
use crate::transform::{emitted, events_view, run, step, transform, EventView, MarkdownEvent, StateView, WikiLinkTransformer};
use pulldown_cmark::{CowStr, Event, LinkType, Options, Parser, Tag, TagEnd};
use vstd::prelude::*;

verus! {

#[verifier::external_type_specification]
#[verifier::external_body]
pub struct ExRenderError(pulldown_cmark_to_cmark::Error);

/// The markdown extensions recognised, as `pulldown_cmark::Options` bits:
/// tables, footnotes, strikethrough, task lists, smart punctuation, YAML
/// metadata blocks, math and wiki-links.
pub const MARKDOWN_OPTIONS: u32 = 2 | 4 | 8 | 16 | 32 | 128 | 1024 | 32768;

/// The events that the parser yields for `text` with the extensions whose
/// bits are set in `options`; each carries its position in that sequence.
pub uninterp spec fn parsed_events(text: Seq<char>, options: u32) -> Seq<EventView<usize>>;

/// The markdown text that the renderer writes for `events`, where an event
/// carried by position stands for the event at that position in the parse of
/// `text`; `None` when the renderer refuses them.
pub uninterp spec fn rendered(text: Seq<char>, options: u32, events: Seq<EventView<usize>>) -> Option<Seq<char>>;

/// Whether every event of `evs` that is carried by position points into a
/// parse of `n` events.
pub open spec fn positions_below(evs: Seq<EventView<usize>>, n: int) -> bool {
    forall|k: int|
        0 <= k < evs.len() ==> match #[trigger] evs[k] {
            EventView::Text(_) => true,
            EventView::LinkStart { raw, .. } => raw < n,
            EventView::LinkEnd(raw) => raw < n,
            EventView::Other(raw) => raw < n,
        }
}

/// Relies on `pulldown_cmark::Parser::new_ext`: the events of `text` with the
/// extensions of `options`, told apart by `Event`'s variants (text runs, link
/// starts with their kind, destination and title, link ends, and the rest),
/// each but a text run carried by its position.
#[verifier::external_body]
fn parse_markdown(text: &str, options: u32) -> (r: Vec<MarkdownEvent<usize>>)
    ensures
        events_view(r@) == parsed_events(text@, options),
        positions_below(events_view(r@), r@.len() as int),
{
    Parser::new_ext(text, Options::from_bits_truncate(options))
        .enumerate()
        .map(|(i, ev)| match ev {
            Event::Text(t) => MarkdownEvent::Text(t.to_string()),
            Event::End(TagEnd::Link) => MarkdownEvent::LinkEnd(i),
            Event::Start(Tag::Link { link_type, dest_url, title, .. }) => MarkdownEvent::LinkStart {
                wiki: matches!(link_type, LinkType::WikiLink { .. }),
                dest: dest_url.to_string(),
                title: title.to_string(),
                raw: i,
            },
            _ => MarkdownEvent::Other(i),
        })
        .collect()
}

/// Relies on `pulldown_cmark_to_cmark::cmark`: the markdown text of `events`,
/// each text run as a text event and each other event the one at its position
/// in the parse of `text` (the parser yields the same events for the same text
/// and options).
#[verifier::external_body]
fn render_markdown(text: &str, options: u32, events: &Vec<MarkdownEvent<usize>>) -> (r: Result<String, pulldown_cmark_to_cmark::Error>)
    requires
        positions_below(events_view(events@), parsed_events(text@, options).len() as int),
    ensures
        match r {
            Ok(s) => rendered(text@, options, events_view(events@)) == Some(s@),
            Err(_) => rendered(text@, options, events_view(events@)) is None,
        },
{
    let parsed: Vec<Event> = Parser::new_ext(text, Options::from_bits_truncate(options)).collect();
    let restored = events.iter().map(|e| match e {
        MarkdownEvent::Text(s) => Event::Text(CowStr::from(s.clone())),
        MarkdownEvent::LinkStart { raw, .. } | MarkdownEvent::LinkEnd(raw) | MarkdownEvent::Other(raw) => parsed[*raw].clone(),
    });
    let mut out = String::new();
    pulldown_cmark_to_cmark::cmark(restored, &mut out)?;
    Ok(out)
}

/// Relies on `Display` for `pulldown_cmark_to_cmark::Error`: its message.
#[verifier::external_body]
fn render_error_message(e: &pulldown_cmark_to_cmark::Error) -> String {
    e.to_string()
}

proof fn lemma_run_keeps_positions(st: StateView, evs: Seq<EventView<usize>>, n: int)
    requires
        positions_below(evs, n),
    ensures
        positions_below(run(st, evs), n),
    decreases evs.len(),
{
    if evs.len() > 0 {
        let (next, out) = step(st, evs[0]);
        let rest = evs.drop_first();
        assert(positions_below(rest, n)) by {
            assert forall|k: int| 0 <= k < rest.len() implies match #[trigger] rest[k] {
                EventView::Text(_) => true,
                EventView::LinkStart { raw, .. } => raw < n,
                EventView::LinkEnd(raw) => raw < n,
                EventView::Other(raw) => raw < n,
            } by {
                assert(rest[k] == evs[k + 1]);
            }
        }
        lemma_run_keeps_positions(next, rest, n);
        let r = run(next, rest);
        let all = emitted(out) + r;
        assert(run(st, evs) == all);
        assert forall|k: int| 0 <= k < all.len() implies match #[trigger] all[k] {
            EventView::Text(_) => true,
            EventView::LinkStart { raw, .. } => raw < n,
            EventView::LinkEnd(raw) => raw < n,
            EventView::Other(raw) => raw < n,
        } by {
            if k >= emitted(out).len() {
                assert(all[k] == r[k - emitted(out).len()]);
            } else {
                assert(evs[0] == evs[0]);
            }
        }
    }
}

/// Why formatting failed.
#[derive(Clone, Debug)]
pub enum FormatError {
    /// The renderer refused the event stream, with its message.
    RenderFailed(String),
}

/// `s[i..]` with each `\[[`, left to right, turned into `[[`.
pub open spec fn unescape_from(s: Seq<char>, i: int) -> Seq<char>
    decreases s.len() - i,
{
    if i < 0 || i >= s.len() {
        seq![]
    } else if i + 2 < s.len() && s[i] == '\\' && s[i + 1] == '[' && s[i + 2] == '[' {
        seq!['[', '['] + unescape_from(s, i + 3)
    } else {
        seq![s[i]] + unescape_from(s, i + 1)
    }
}

/// `s` with every escaped wiki-link opening `\[[` turned back into `[[`.
pub open spec fn unescape_wiki_openers(s: Seq<char>) -> Seq<char> {
    unescape_from(s, 0)
}

/// Drops the escape that a renderer puts before each `[[`.
pub fn strip_escaped_openers(s: &str) -> (r: String)
    ensures
        r@ == unescape_wiki_openers(s@),
{
    let c = chars_of(s);
    let n = c.len();
    let mut out = String::new();
    let mut seg: usize = 0;
    let mut i: usize = 0;
    while i < n
        invariant
            c@ == s@,
            n == c@.len(),
            seg <= i <= n,
            out@ + c@.subrange(seg as int, i as int) + unescape_from(c@, i as int) == unescape_from(
                c@,
                0,
            ),
        decreases n - i,
    {
        if n >= 2 && i < n - 2 && c[i] == '\\' && c[i + 1] == '[' && c[i + 2] == '[' {
            proof {
                reveal_strlit("[[");
            }
            let ghost prev = out@;
            let piece = substring(s, seg, i);
            out.append(piece.as_str());
            out.append("[[");
            assert(out@ =~= prev + c@.subrange(seg as int, i as int) + seq!['[', '[']);
            assert(out@ + c@.subrange(i + 3, i + 3) + unescape_from(c@, i + 3) =~= prev
                + c@.subrange(seg as int, i as int) + unescape_from(c@, i as int));
            seg = i + 3;
            i = i + 3;
        } else {
            assert(c@.subrange(seg as int, i as int) + unescape_from(c@, i as int) =~= c@.subrange(
                seg as int,
                i + 1,
            ) + unescape_from(c@, i + 1));
            i = i + 1;
        }
    }
    let piece = substring(s, seg, n);
    out.append(piece.as_str());
    assert(out@ =~= unescape_from(c@, 0));
    out
}

/// What formatting `text` renders: its parse, with every wiki-link rewritten
/// into a literal `[[target|title]]`.
pub open spec fn formatted_render(text: Seq<char>) -> Option<Seq<char>> {
    rendered(text, MARKDOWN_OPTIONS, transform(parsed_events(text, MARKDOWN_OPTIONS)))
}

/// Formats markdown text, keeping its wiki-links as `[[target|title]]`.
pub fn format_markdown(text: &str) -> (r: Result<String, FormatError>)
    ensures
        match r {
            Ok(s) => formatted_render(text@) matches Some(o) && s@ == unescape_wiki_openers(o),
            Err(_) => formatted_render(text@) is None,
        },
{
    let events = parse_markdown(text, MARKDOWN_OPTIONS);
    let ghost parsed = events_view(events@);
    proof {
        lemma_run_keeps_positions(StateView::Idle, parsed, events@.len() as int);
    }
    let transformed = WikiLinkTransformer::new(events).transform_all();
    match render_markdown(text, MARKDOWN_OPTIONS, &transformed) {
        Ok(out) => Ok(strip_escaped_openers(out.as_str())),
        Err(e) => Err(FormatError::RenderFailed(render_error_message(&e))),
    }
}

/// A replacement of a whole document: from the start to `(end_line, end_character)`.
pub struct FullEdit {
    pub end_line: usize,
    pub end_character: usize,
    pub new_text: String,
}

/// Where a whole-document edit of `s` ends: the line count, and the length of
/// the last line.
pub open spec fn document_end(s: Seq<char>) -> (int, int) {
    let n = line_spans(s).len();
    if n == 0 {
        (0, 0)
    } else {
        (n as int, line_spans(s)[n - 1].1 - line_spans(s)[n - 1].0)
    }
}

/// The edit that formatting answers: none when the formatted text equals the
/// original, else one edit that replaces the whole document.
pub fn formatting_edit(original: &str, formatted: String) -> (r: Option<FullEdit>)
    ensures
        r is None <==> formatted@ == original@,
        r matches Some(e) ==> e.new_text@ == formatted@ && (e.end_line as int, e.end_character as int)
            == document_end(original@),
{
    if str_eq(formatted.as_str(), original) {
        return None;
    }
    let c = chars_of(original);
    let spans = split_lines(&c);
    let n = spans.len();
    let end_character = if n == 0 {
        0
    } else {
        spans[n - 1].1 - spans[n - 1].0
    };
    Some(FullEdit { end_line: n, end_character, new_text: formatted })
}

} // verus!

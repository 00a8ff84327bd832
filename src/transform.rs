//! The wiki-link event transformer: a two-state machine that rewrites the
//! events of a wiki-link into one literal text event and relays the rest.
use std::collections::VecDeque;
use vstd::prelude::*;

verus! {

/// A markdown event as the transformer sees it. `P` is the parser's own event,
/// carried so that relayed events come out exactly as they went in.
#[verifier::reject_recursive_types(P)]
pub enum MarkdownEvent<P> {
    /// A run of text.
    Text(String),
    /// The start of a link: `wiki` tells a wiki-link from any other kind.
    LinkStart { wiki: bool, dest: String, title: String, raw: P },
    /// The end of a link.
    LinkEnd(P),
    /// Any other event.
    Other(P),
}

#[verifier::reject_recursive_types(P)]
pub enum EventView<P> {
    Text(Seq<char>),
    LinkStart { wiki: bool, dest: Seq<char>, title: Seq<char>, raw: P },
    LinkEnd(P),
    Other(P),
}

impl<P> MarkdownEvent<P> {
    pub open spec fn view(&self) -> EventView<P> {
        match self {
            MarkdownEvent::Text(s) => EventView::Text(s@),
            MarkdownEvent::LinkStart { wiki, dest, title, raw } => EventView::LinkStart {
                wiki: *wiki,
                dest: dest@,
                title: title@,
                raw: *raw,
            },
            MarkdownEvent::LinkEnd(p) => EventView::LinkEnd(*p),
            MarkdownEvent::Other(p) => EventView::Other(*p),
        }
    }
}

pub open spec fn events_view<P>(v: Seq<MarkdownEvent<P>>) -> Seq<EventView<P>> {
    v.map_values(|e: MarkdownEvent<P>| e.view())
}

/// Where the transformer stands between two events.
pub enum TransformerState {
    Idle,
    InsideWikiLink { target_path: String, accumulated_title: String },
}

pub enum StateView {
    Idle,
    Inside { target: Seq<char>, title: Seq<char> },
}

impl TransformerState {
    pub open spec fn view(&self) -> StateView {
        match self {
            TransformerState::Idle => StateView::Idle,
            TransformerState::InsideWikiLink { target_path, accumulated_title } => StateView::Inside {
                target: target_path@,
                title: accumulated_title@,
            },
        }
    }
}

/// `[[target]]`, or `[[target|title]]` when the title is not empty.
pub open spec fn wiki_literal(target: Seq<char>, title: Seq<char>) -> Seq<char> {
    let body = if title.len() > 0 {
        target + seq!['|'] + title
    } else {
        target
    };
    seq!['[', '['] + body + seq![']', ']']
}

/// One transition: the next state, and the event emitted, if any.
pub open spec fn step<P>(st: StateView, e: EventView<P>) -> (StateView, Option<EventView<P>>) {
    match st {
        StateView::Idle => match e {
            EventView::LinkStart { wiki: true, dest, title, raw: _ } => (
                StateView::Inside { target: dest, title },
                None,
            ),
            _ => (StateView::Idle, Some(e)),
        },
        StateView::Inside { target, title } => match e {
            EventView::Text(t) => (StateView::Inside { target, title: title + t }, None),
            EventView::LinkEnd(_) => (StateView::Idle, Some(EventView::Text(wiki_literal(target, title)))),
            _ => (st, None),
        },
    }
}

pub open spec fn emitted<P>(o: Option<EventView<P>>) -> Seq<EventView<P>> {
    match o {
        Some(e) => seq![e],
        None => seq![],
    }
}

/// What the machine emits from state `st` on the events `evs`; input that ends
/// inside a wiki-link emits nothing more.
pub open spec fn run<P>(st: StateView, evs: Seq<EventView<P>>) -> Seq<EventView<P>>
    decreases evs.len(),
{
    if evs.len() == 0 {
        seq![]
    } else {
        let (next, out) = step(st, evs[0]);
        emitted(out) + run(next, evs.drop_first())
    }
}

/// The state after the events `evs` from `st`.
pub open spec fn state_after<P>(st: StateView, evs: Seq<EventView<P>>) -> StateView
    decreases evs.len(),
{
    if evs.len() == 0 {
        st
    } else {
        state_after(step(st, evs[0]).0, evs.drop_first())
    }
}

/// The whole transformation of an event stream.
pub open spec fn transform<P>(evs: Seq<EventView<P>>) -> Seq<EventView<P>> {
    run(StateView::Idle, evs)
}

/// A pull-based adapter over a stream of markdown events that turns each
/// wiki-link into a single `[[target|title]]` text event.
#[verifier::reject_recursive_types(P)]
pub struct WikiLinkTransformer<P> {
    inner: VecDeque<MarkdownEvent<P>>,
    state: TransformerState,
}

impl<P> WikiLinkTransformer<P> {
    /// The events still to come out.
    pub closed spec fn pending(&self) -> Seq<EventView<P>> {
        run(self.state.view(), events_view(self.inner@))
    }

    /// How many input events are left to read.
    pub closed spec fn unread(&self) -> nat {
        self.inner@.len()
    }

    pub fn new(iter: Vec<MarkdownEvent<P>>) -> (r: Self)
        ensures
            r.pending() == transform(events_view(iter@)),
            r.unread() == iter@.len(),
    {
        let ghost all = iter@;
        let mut v = iter;
        let mut inner: VecDeque<MarkdownEvent<P>> = VecDeque::new();
        while v.len() > 0
            invariant
                all == v@ + inner@,
            decreases v@.len(),
        {
            let ghost pv = v@;
            let ghost pi = inner@;
            match v.pop() {
                Some(e) => {
                    inner.push_front(e);
                    assert(all =~= v@ + inner@) by {
                        assert(pv =~= v@.push(e));
                    }
                },
                None => {},
            }
        }
        assert(inner@ =~= all);
        WikiLinkTransformer { inner, state: TransformerState::Idle }
    }

    /// The next transformed event, or `None` once the input is used up.
    pub fn next(&mut self) -> (r: Option<MarkdownEvent<P>>)
        ensures
            match r {
                Some(e) => old(self).pending() == seq![e.view()] + final(self).pending()
                    && final(self).unread() < old(self).unread(),
                None => old(self).pending().len() == 0 && final(self).unread() == 0,
            },
    {
        loop
            invariant
                old(self).pending() == self.pending(),
                self.unread() <= old(self).unread(),
            decreases self.unread(),
        {
            let ghost before = self.inner@;
            let e = match self.inner.pop_front() {
                Some(e) => e,
                None => {
                    return None;
                },
            };
            assert(events_view(before) =~= seq![e.view()] + events_view(self.inner@));
            assert(events_view(before).drop_first() =~= events_view(self.inner@));
            let mut st = TransformerState::Idle;
            std::mem::swap(&mut st, &mut self.state);
            let (next_state, out) = transition(st, e);
            self.state = next_state;
            match out {
                Some(o) => {
                    return Some(o);
                },
                None => {},
            }
        }
    }

    /// Every remaining transformed event, in order.
    pub fn transform_all(self) -> (r: Vec<MarkdownEvent<P>>)
        ensures
            events_view(r@) == self.pending(),
    {
        let ghost all = self.pending();
        let mut t = self;
        let mut out: Vec<MarkdownEvent<P>> = Vec::new();
        loop
            invariant
                all == events_view(out@) + t.pending(),
                all == self.pending(),
            decreases t.unread(),
        {
            let ghost prev = out@;
            match t.next() {
                Some(e) => {
                    out.push(e);
                    assert(events_view(out@) =~= events_view(prev).push(e.view()));
                },
                None => {
                    assert(all =~= events_view(out@));
                    return out;
                },
            }
        }
    }
}

fn wiki_literal_exec(target: &String, title: &String) -> (r: String)
    ensures
        r@ == wiki_literal(target@, title@),
{
    proof {
        reveal_strlit("[[");
        reveal_strlit("|");
        reveal_strlit("]]");
    }
    let mut out = String::new();
    out.append("[[");
    out.append(target.as_str());
    if title.unicode_len() > 0 {
        out.append("|");
        out.append(title.as_str());
    }
    out.append("]]");
    assert(out@ =~= wiki_literal(target@, title@));
    out
}

fn transition<P>(st: TransformerState, e: MarkdownEvent<P>) -> (r: (TransformerState, Option<MarkdownEvent<P>>))
    ensures
        r.0.view() == step(st.view(), e.view()).0,
        match r.1 {
            Some(o) => step(st.view(), e.view()).1 == Some(o.view()),
            None => step(st.view(), e.view()).1 is None,
        },
{
    match st {
        TransformerState::Idle => match e {
            MarkdownEvent::LinkStart { wiki, dest, title, raw } => {
                if wiki {
                    (TransformerState::InsideWikiLink { target_path: dest, accumulated_title: title }, None)
                } else {
                    (TransformerState::Idle, Some(MarkdownEvent::LinkStart { wiki, dest, title, raw }))
                }
            },
            other => (TransformerState::Idle, Some(other)),
        },
        TransformerState::InsideWikiLink { target_path, accumulated_title } => match e {
            MarkdownEvent::Text(t) => {
                let mut title = accumulated_title;
                title.append(t.as_str());
                (TransformerState::InsideWikiLink { target_path, accumulated_title: title }, None)
            },
            MarkdownEvent::LinkEnd(_) => {
                let lit = wiki_literal_exec(&target_path, &accumulated_title);
                (TransformerState::Idle, Some(MarkdownEvent::Text(lit)))
            },
            _ => (TransformerState::InsideWikiLink { target_path, accumulated_title }, None),
        },
    }
}


/// One text event per part.
pub open spec fn text_events<P>(parts: Seq<Seq<char>>) -> Seq<EventView<P>> {
    parts.map_values(|t: Seq<char>| EventView::<P>::Text(t))
}

/// The parts joined end to end.
pub open spec fn concat_parts(parts: Seq<Seq<char>>) -> Seq<char>
    decreases parts.len(),
{
    if parts.len() == 0 {
        seq![]
    } else {
        parts[0] + concat_parts(parts.drop_first())
    }
}

proof fn lemma_run_append<P>(st: StateView, a: Seq<EventView<P>>, b: Seq<EventView<P>>)
    ensures
        run(st, a + b) == run(st, a) + run(state_after(st, a), b),
    decreases a.len(),
{
    if a.len() == 0 {
        assert(a + b =~= b);
    } else {
        let (next, out) = step(st, a[0]);
        assert((a + b)[0] == a[0]);
        assert((a + b).drop_first() =~= a.drop_first() + b);
        lemma_run_append(next, a.drop_first(), b);
        assert(run(st, a + b) =~= emitted(out) + run(next, a.drop_first() + b));
    }
}

proof fn lemma_texts_inside<P>(
    target: Seq<char>,
    acc: Seq<char>,
    parts: Seq<Seq<char>>,
    rest: Seq<EventView<P>>,
)
    ensures
        run(StateView::Inside { target, title: acc }, text_events::<P>(parts) + rest) == run(
            StateView::Inside { target, title: acc + concat_parts(parts) },
            rest,
        ),
    decreases parts.len(),
{
    let xs = text_events::<P>(parts) + rest;
    if parts.len() == 0 {
        assert(xs =~= rest);
        assert(acc + concat_parts(parts) =~= acc);
    } else {
        assert(xs[0] == EventView::<P>::Text(parts[0]));
        assert(xs.drop_first() =~= text_events::<P>(parts.drop_first()) + rest);
        lemma_texts_inside(target, acc + parts[0], parts.drop_first(), rest);
        assert(acc + parts[0] + concat_parts(parts.drop_first()) =~= acc + concat_parts(parts));
    }
}

/// A wiki-link reaches the output as one text event `[[target|title]]`, whose
/// title is the link's initial title followed by its text runs (`[[target]]`
/// when that is empty); the events around it are transformed as if it were not
/// there, provided the events before it close every wiki-link they open.
pub proof fn law_wiki_link_becomes_literal<P>(
    before: Seq<EventView<P>>,
    target: Seq<char>,
    title: Seq<char>,
    raw_start: P,
    parts: Seq<Seq<char>>,
    raw_end: P,
    after: Seq<EventView<P>>,
)
    requires
        state_after(StateView::Idle, before) == StateView::Idle,
    ensures
        transform(
            before + seq![EventView::LinkStart { wiki: true, dest: target, title, raw: raw_start }]
                + text_events::<P>(parts) + seq![EventView::LinkEnd(raw_end)] + after,
        ) == transform(before) + seq![
            EventView::<P>::Text(wiki_literal(target, title + concat_parts(parts))),
        ] + transform(after),
{
    let start = EventView::LinkStart { wiki: true, dest: target, title, raw: raw_start };
    let end_ev = seq![EventView::<P>::LinkEnd(raw_end)] + after;
    let tail = seq![start] + (text_events::<P>(parts) + end_ev);
    let whole = before + seq![start] + text_events::<P>(parts) + seq![EventView::LinkEnd(raw_end)]
        + after;
    assert(whole =~= before + tail);
    lemma_run_append(StateView::Idle, before, tail);
    assert(tail[0] == start);
    assert(tail.drop_first() =~= text_events::<P>(parts) + end_ev);
    lemma_texts_inside(target, title, parts, end_ev);
    let full = title + concat_parts(parts);
    assert(end_ev[0] == EventView::<P>::LinkEnd(raw_end));
    assert(end_ev.drop_first() =~= after);
    assert(run(StateView::Inside { target, title: full }, end_ev) =~= seq![
        EventView::<P>::Text(wiki_literal(target, full)),
    ] + run(StateView::Idle, after));
    assert(run(StateView::Idle, tail) =~= seq![]
        + run(StateView::Inside { target, title }, tail.drop_first()));
}

} // verus!

//! Workspace directives embedded in a note: lines such as `%%atw name` that are
//! taken out of the text and handed on as commands.
use crate::text::{chars_of, line_at, is_ws, is_ws_spec, line_spans, skip_ws, split_lines, substring, trim, trim_bounds};
use vstd::prelude::*;

verus! {

/// The three workspace commands.
#[derive(PartialEq, Eq, Structural, Clone, Copy, Debug)]
pub enum DirectiveKind {
    /// `%%nw`: create the workspace with the current note.
    NewWorkspace,
    /// `%%atw`: add the current note to the workspace.
    AppendToWorkspace,
    /// `%%dfw`: remove the current note from the workspace.
    RemoveFromWorkspace,
}

/// The command that `t` opens with, and where the command word ends.
pub open spec fn command_prefix(t: Seq<char>) -> Option<(DirectiveKind, int)> {
    if t.len() >= 4 && t[0] == '%' && t[1] == '%' && t[2] == 'n' && t[3] == 'w' {
        Some((DirectiveKind::NewWorkspace, 4))
    } else if t.len() >= 5 && t[0] == '%' && t[1] == '%' && t[2] == 'a' && t[3] == 't' && t[4]
        == 'w' {
        Some((DirectiveKind::AppendToWorkspace, 5))
    } else if t.len() >= 5 && t[0] == '%' && t[1] == '%' && t[2] == 'd' && t[3] == 'f' && t[4]
        == 'w' {
        Some((DirectiveKind::RemoveFromWorkspace, 5))
    } else {
        None
    }
}

/// The directive that the trimmed line `t` is: `%%` and a command word, then
/// whitespace, then a workspace name without whitespace that ends the line.
pub open spec fn directive_of(t: Seq<char>) -> Option<(DirectiveKind, Seq<char>)> {
    match command_prefix(t) {
        None => None,
        Some(p) => {
            let n = p.1;
            let q = skip_ws(t, n);
            if n < t.len() && is_ws_spec(t[n]) && q < t.len() && (forall|i: int|
                q <= i < t.len() ==> !is_ws_spec(#[trigger] t[i])) {
                Some((p.0, t.subrange(q, t.len() as int)))
            } else {
                None
            }
        },
    }
}

/// The directive on line `l`, judged on the line trimmed.
pub open spec fn directive_line(l: Seq<char>) -> Option<(DirectiveKind, Seq<char>)> {
    directive_of(trim(l))
}

/// The lines among the first `n` of `s` that are not directives.
pub open spec fn kept_upto(s: Seq<char>, n: int) -> Seq<Seq<char>>
    decreases n,
{
    if n <= 0 {
        seq![]
    } else if directive_line(line_at(s, n - 1)) is None {
        kept_upto(s, n - 1).push(line_at(s, n - 1))
    } else {
        kept_upto(s, n - 1)
    }
}

/// The directives among the first `n` lines of `s`, in order.
pub open spec fn directives_upto(s: Seq<char>, n: int) -> Seq<(DirectiveKind, Seq<char>)>
    decreases n,
{
    if n <= 0 {
        seq![]
    } else {
        match directive_line(line_at(s, n - 1)) {
            Some(d) => directives_upto(s, n - 1).push(d),
            None => directives_upto(s, n - 1),
        }
    }
}

/// The lines joined by line feeds.
pub open spec fn join_lines(ls: Seq<Seq<char>>) -> Seq<char>
    decreases ls.len(),
{
    if ls.len() == 0 {
        seq![]
    } else if ls.len() == 1 {
        ls[0]
    } else {
        join_lines(ls.drop_last()) + seq!['\n'] + ls.last()
    }
}

/// One directive found in a note.
pub struct Directive {
    pub kind: DirectiveKind,
    pub workspace: String,
}

/// A note with its directive lines taken out, and those directives in order.
pub struct DirectiveScan {
    pub text: String,
    pub commands: Vec<Directive>,
}

pub open spec fn directives_view(v: Seq<Directive>) -> Seq<(DirectiveKind, Seq<char>)> {
    v.map_values(|d: Directive| (d.kind, d.workspace@))
}

fn directive_exec(t: &Vec<char>) -> (r: Option<(DirectiveKind, usize)>)
    ensures
        match r {
            Some(p) => p.1 <= t@.len() && directive_of(t@) == Some(
                (p.0, t@.subrange(p.1 as int, t@.len() as int)),
            ),
            None => directive_of(t@) is None,
        },
{
    let len = t.len();
    let (kind, n) = if len >= 4 && t[0] == '%' && t[1] == '%' && t[2] == 'n' && t[3] == 'w' {
        (DirectiveKind::NewWorkspace, 4usize)
    } else if len >= 5 && t[0] == '%' && t[1] == '%' && t[2] == 'a' && t[3] == 't' && t[4] == 'w' {
        (DirectiveKind::AppendToWorkspace, 5usize)
    } else if len >= 5 && t[0] == '%' && t[1] == '%' && t[2] == 'd' && t[3] == 'f' && t[4] == 'w' {
        (DirectiveKind::RemoveFromWorkspace, 5usize)
    } else {
        return None;
    };
    if !(n < len && is_ws(t[n])) {
        return None;
    }
    let mut q: usize = n;
    while q < len && is_ws(t[q])
        invariant
            n <= q <= len == t@.len(),
            skip_ws(t@, q as int) == skip_ws(t@, n as int),
        decreases len - q,
    {
        q = q + 1;
    }
    assert(command_prefix(t@) == Some((kind, n as int)));
    assert(skip_ws(t@, q as int) == q as int);
    if q >= len {
        return None;
    }
    let mut i: usize = q;
    while i < len
        invariant
            q <= i <= len == t@.len(),
            forall|m: int| q <= m < i ==> !is_ws_spec(#[trigger] t@[m]),
            command_prefix(t@) == Some((kind, n as int)),
            q as int == skip_ws(t@, n as int),
            n < q < len,
            is_ws_spec(t@[n as int]),
        decreases len - i,
    {
        if is_ws(t[i]) {
            return None;
        }
        i = i + 1;
    }
    Some((kind, q))
}

/// Takes the directive lines out of `text` and returns the remaining lines
/// joined by line feeds, with the directives in the order they appeared.
pub fn process_custom_commands(text: &str) -> (r: DirectiveScan)
    ensures
        r.text@ == join_lines(kept_upto(text@, line_spans(text@).len() as int)),
        directives_view(r.commands@) == directives_upto(text@, line_spans(text@).len() as int),
{
    let s = chars_of(text);
    let spans = split_lines(&s);
    let mut out = String::new();
    let mut commands: Vec<Directive> = Vec::new();
    let mut kept: usize = 0;
    let mut k: usize = 0;
    while k < spans.len()
        invariant
            s@ == text@,
            k <= spans@.len() == line_spans(s@).len(),
            forall|q: int|
                0 <= q < spans@.len() ==> (#[trigger] spans@[q]).0 as int == line_spans(s@)[q].0
                    && spans@[q].1 as int == line_spans(s@)[q].1,
            forall|q: int| 0 <= q < spans@.len() ==> (#[trigger] spans@[q]).0 <= spans@[q].1 <= s@.len(),
            kept == kept_upto(s@, k as int).len(),
            kept <= k,
            out@ == join_lines(kept_upto(s@, k as int)),
            directives_view(commands@) == directives_upto(s@, k as int),
        decreases spans@.len() - k,
    {
        let (a, b) = spans[k];
        let l = substring(text, a, b);
        let lc = chars_of(l.as_str());
        let (lo, hi) = trim_bounds(&lc, 0, lc.len());
        assert(lc@.subrange(0, lc@.len() as int) =~= lc@);
        let t = substring(l.as_str(), lo, hi);
        let tc = chars_of(t.as_str());
        assert(line_at(s@, k as int) == l@);
        let ghost prev_kept = kept_upto(s@, k as int);
        match directive_exec(&tc) {
            Some(p) => {
                let workspace = substring(t.as_str(), p.1, tc.len());
                let d = Directive { kind: p.0, workspace };
                let ghost prev = commands@;
                commands.push(d);
                assert(directives_view(commands@) =~= directives_view(prev).push((p.0, workspace@)));
            },
            None => {
                let ghost before = out@;
                if kept > 0 {
                    out.append("\n");
                }
                out.append(l.as_str());
                let ghost nk = prev_kept.push(l@);
                assert(nk.drop_last() =~= prev_kept);
                if kept > 0 {
                    assert(nk.len() >= 2 && nk.last() == l@);
                    proof {
                        reveal_strlit("\n");
                    }
                    assert("\n"@ =~= seq!['\n']);
                    assert(out@ =~= join_lines(nk.drop_last()) + seq!['\n'] + nk.last());
                    assert(out@ =~= join_lines(nk));
                } else {
                    assert(prev_kept.len() == 0);
                    assert(nk =~= seq![l@]);
                    assert(before =~= Seq::<char>::empty());
                    assert(out@ =~= join_lines(nk));
                }
                kept = kept + 1;
            },
        }
        k = k + 1;
    }
    DirectiveScan { text: out, commands }
}


/// No line that is kept is a directive: the text that
/// `process_custom_commands` returns joins only the kept lines, so every
/// directive line is taken out of it, whatever later becomes of the command.
pub proof fn law_kept_lines_are_not_directives(s: Seq<char>, n: int)
    ensures
        forall|i: int| 0 <= i < kept_upto(s, n).len() ==> directive_line(#[trigger] kept_upto(s, n)[i]) is None,
    decreases n,
{
    if n > 0 {
        law_kept_lines_are_not_directives(s, n - 1);
        let prev = kept_upto(s, n - 1);
        if directive_line(line_at(s, n - 1)) is None {
            assert forall|i: int| 0 <= i < kept_upto(s, n).len() implies directive_line(#[trigger] kept_upto(s, n)[i]) is None by {
                if i < prev.len() {
                    assert(kept_upto(s, n)[i] == prev[i]);
                }
            }
        }
    }
}

} // verus!

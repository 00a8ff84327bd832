//! Link completion: one candidate per note whose title is known, offered only
//! while the cursor sits in a wiki-link.
use crate::text::{line_at, line_spans, str_eq};
use crate::wikilink::{in_link_span, is_inside_wiki_link};
use vstd::prelude::*;

verus! {

/// A note of the vault and its display title, when one could be determined.
pub struct NoteTitle {
    pub path: String,
    pub title: Option<String>,
}

/// One completion: shown as `label`, inserting `insert_text`, with the note's
/// path as detail.
pub struct CompletionCandidate {
    pub label: String,
    pub insert_text: String,
    pub detail: String,
}

pub struct CandidateView {
    pub label: Seq<char>,
    pub insert_text: Seq<char>,
    pub detail: Seq<char>,
}

impl CompletionCandidate {
    pub open spec fn view(&self) -> CandidateView {
        CandidateView {
            label: self.label@,
            insert_text: self.insert_text@,
            detail: self.detail@,
        }
    }
}

pub open spec fn candidates_view(v: Seq<CompletionCandidate>) -> Seq<CandidateView> {
    v.map_values(|c: CompletionCandidate| c.view())
}

/// The candidates for the first `n` notes: notes without a title are skipped.
pub open spec fn candidates_upto(notes: Seq<NoteTitle>, n: int) -> Seq<CandidateView>
    decreases n,
{
    if n <= 0 {
        seq![]
    } else {
        match notes[n - 1].title {
            Some(t) => candidates_upto(notes, n - 1).push(
                CandidateView {
                    label: t@,
                    insert_text: seq!['[', '['] + t@ + seq![']', ']'],
                    detail: notes[n - 1].path@,
                },
            ),
            None => candidates_upto(notes, n - 1),
        }
    }
}

/// One candidate per note with a title, in note order.
pub fn completion_candidates(notes: &Vec<NoteTitle>) -> (r: Vec<CompletionCandidate>)
    ensures
        candidates_view(r@) == candidates_upto(notes@, notes@.len() as int),
{
    let mut out: Vec<CompletionCandidate> = Vec::new();
    let mut k: usize = 0;
    while k < notes.len()
        invariant
            k <= notes@.len(),
            candidates_view(out@) == candidates_upto(notes@, k as int),
        decreases notes@.len() - k,
    {
        let note = &notes[k];
        match &note.title {
            Some(t) => {
                proof {
                    reveal_strlit("[[");
                    reveal_strlit("]]");
                }
                let mut insert_text = String::new();
                insert_text.append("[[");
                insert_text.append(t.as_str());
                insert_text.append("]]");
                let c = CompletionCandidate { label: t.clone(), insert_text, detail: note.path.clone() };
                let ghost prev = candidates_view(out@);
                out.push(c);
                assert(candidates_view(out@) =~= prev.push(c.view()));
                assert(c.view().insert_text =~= seq!['[', '['] + t@ + seq![']', ']']);
            },
            None => {},
        }
        k = k + 1;
    }
    out
}

/// The completions at `(line, character)`: nothing unless the cursor is inside
/// a wiki-link, else one candidate per note with a title.
pub fn provide_wiki_link_completions(
    document_text: &str,
    line: u32,
    character: u32,
    notes: &Vec<NoteTitle>,
) -> (r: Option<Vec<CompletionCandidate>>)
    ensures
        r is Some <==> (line < line_spans(document_text@).len() && in_link_span(
            line_at(document_text@, line as int),
            character as int,
        )),
        r matches Some(v) ==> candidates_view(v@) == candidates_upto(notes@, notes@.len() as int),
{
    if !is_inside_wiki_link(document_text, line, character) {
        return None;
    }
    Some(completion_candidates(notes))
}

/// A vault named in the configuration.
pub struct VaultEntry {
    pub name: String,
    pub vault_directory: String,
}

/// Why no vault root could be chosen.
#[derive(PartialEq, Eq, Structural, Clone, Copy, Debug)]
pub enum ConfigError {
    /// No vault carries the default vault's name.
    DefaultVaultNotFound,
}

/// The directory of the first vault named `default_vault`.
pub fn get_vault_directory(vaults: &Vec<VaultEntry>, default_vault: &str) -> (r: Result<String, ConfigError>)
    ensures
        match r {
            Ok(d) => exists|i: int|
                0 <= i < vaults@.len() && (#[trigger] vaults@[i]).name@ == default_vault@
                    && d@ == vaults@[i].vault_directory@ && forall|j: int|
                    0 <= j < i ==> (#[trigger] vaults@[j]).name@ != default_vault@,
            Err(e) => e == ConfigError::DefaultVaultNotFound && forall|i: int|
                0 <= i < vaults@.len() ==> (#[trigger] vaults@[i]).name@ != default_vault@,
        },
{
    let mut i: usize = 0;
    while i < vaults.len()
        invariant
            i <= vaults@.len(),
            forall|j: int| 0 <= j < i ==> (#[trigger] vaults@[j]).name@ != default_vault@,
        decreases vaults@.len() - i,
    {
        if str_eq(vaults[i].name.as_str(), default_vault) {
            return Ok(vaults[i].vault_directory.clone());
        }
        i = i + 1;
    }
    Err(ConfigError::DefaultVaultNotFound)
}

} // verus!

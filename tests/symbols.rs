use fuse_rust::Fuse;
use notemancy_lsp::headings::{collect_workspace_symbols, document_symbols, get_workspace_symbols, rank_indices, NoteText, WorkspaceSymbol};

#[test]
fn headings_become_flat_symbols() {
    let syms = document_symbols("# A\nnot a heading\n### B");
    let got: Vec<(String, usize, usize)> = syms.iter().map(|s| (s.name.clone(), s.line, s.end_character)).collect();
    assert_eq!(got, vec![("A".to_string(), 0, 3), ("B".to_string(), 2, 5)]);
}

#[test]
fn seven_hashes_is_not_a_heading() {
    assert!(document_symbols("####### C").is_empty());
    assert_eq!(document_symbols("###### C")[0].name, "C");
    assert!(document_symbols("#NoSpace").is_empty());
    assert!(document_symbols("#").is_empty());
}

#[test]
fn heading_name_is_trimmed_and_indent_allowed() {
    let syms = document_symbols("  ##   Spaced  Name  \n\n");
    assert_eq!(syms.len(), 1);
    assert_eq!(syms[0].name, "Spaced  Name");
    assert_eq!(syms[0].line, 0);
}

fn note(path: &str, content: &str) -> NoteText {
    NoteText { path: path.to_string(), content: content.to_string() }
}

#[test]
fn workspace_symbols_carry_their_note() {
    let syms = collect_workspace_symbols(&vec![note("a.md", "# One\ntext\n## Two"), note("b.md", "none"), note("c.md", "# Three")]);
    let got: Vec<(String, String, usize)> = syms.iter().map(|s| (s.name.clone(), s.note_path.clone(), s.line)).collect();
    assert_eq!(
        got,
        vec![
            ("One".to_string(), "a.md".to_string(), 0),
            ("Two".to_string(), "a.md".to_string(), 2),
            ("Three".to_string(), "c.md".to_string(), 0)
        ]
    );
}

#[test]
fn ranking_orders_by_score_then_position() {
    let r = rank_indices(&vec![Some(5), None, Some(1), Some(5), Some(0)]);
    assert_eq!(r, vec![4, 2, 0, 3]);
    assert!(rank_indices(&vec![None, None]).is_empty());
}

fn score_keys(query: &str, symbols: &[WorkspaceSymbol]) -> Vec<Option<u64>> {
    let fuse = Fuse {
        threshold: 0.3,
        location: 0,
        distance: 80,
        max_pattern_length: 32,
        is_case_sensitive: false,
        tokenize: false,
    };
    symbols
        .iter()
        .map(|s| fuse.search_text_in_string(query, &s.name).map(|r| r.score.to_bits()))
        .collect()
}

#[test]
fn workspace_symbol_query_ranks_and_filters() {
    let symbols = collect_workspace_symbols(&vec![note("n.md", "# Design Doc\n# Design\n# Random")]);
    let scores = score_keys("Design", &symbols);
    let ranked = get_workspace_symbols(&symbols, "Design", &scores);
    let names: Vec<String> = ranked.iter().map(|s| s.name.clone()).collect();
    assert!(!names.contains(&"Random".to_string()));
    assert_eq!(names.len(), 2);
    let design = scores[1].unwrap();
    let design_doc = scores[0].unwrap();
    assert!(f64::from_bits(design) <= f64::from_bits(design_doc));
    if design < design_doc {
        assert_eq!(names, vec!["Design", "Design Doc"]);
    } else {
        assert_eq!(names, vec!["Design Doc", "Design"]);
    }
}

#[test]
fn empty_query_returns_everything() {
    let symbols = collect_workspace_symbols(&vec![note("n.md", "# B\n# A")]);
    let all = get_workspace_symbols(&symbols, "", &vec![None, None]);
    let names: Vec<String> = all.iter().map(|s| s.name.clone()).collect();
    assert_eq!(names, vec!["B", "A"]);
}

use notemancy_lsp::wikilink::{goto_wikilink, hover_wikilink, is_inside_wiki_link, locate_wiki_link};

#[test]
fn cursor_anywhere_in_span_finds_link() {
    let line = "see [[Design-Doc|Design Document]] now";
    for c in 4..=34 {
        let o = locate_wiki_link(line, c).unwrap();
        assert_eq!(o.match_start, 4);
        assert_eq!(o.match_end, 34);
        assert_eq!(o.target_path, "Design-Doc");
        assert_eq!(o.title.as_deref(), Some("Design Document"));
    }
}

#[test]
fn cursor_outside_spans_finds_nothing() {
    let line = "see [[a]] and [[b|c]] end";
    for c in [0usize, 3, 10, 13, 22, 25, 100] {
        assert!(locate_wiki_link(line, c).is_none(), "cursor {}", c);
    }
    assert_eq!(locate_wiki_link(line, 16).unwrap().target_path, "b");
}

#[test]
fn target_and_title_are_trimmed() {
    let o = locate_wiki_link("[[  notes/x.md  |  The X  ]]", 3).unwrap();
    assert_eq!(o.target_path, "notes/x.md");
    assert_eq!(o.title.as_deref(), Some("The X"));
    let o = locate_wiki_link("[[ plain ]]", 0).unwrap();
    assert_eq!(o.target_path, "plain");
    assert!(o.title.is_none());
}

#[test]
fn blank_target_is_no_link() {
    assert!(locate_wiki_link("[[   ]]", 2).is_none());
    assert!(locate_wiki_link("[[]]", 2).is_none());
    assert!(locate_wiki_link("[[|t]]", 2).is_none());
}

#[test]
fn touching_links_prefer_the_left_one() {
    let line = "[[a]][[b]]";
    assert_eq!(locate_wiki_link(line, 5).unwrap().target_path, "a");
    assert_eq!(locate_wiki_link(line, 6).unwrap().target_path, "b");
}

#[test]
fn unterminated_link_is_not_located() {
    assert!(locate_wiki_link("see [[N", 6).is_none());
    assert!(locate_wiki_link("[[a|b] c", 3).is_none());
}

#[test]
fn goto_and_hover_use_the_cursor_line() {
    let doc = "first line\nlink to [[notes/b.md|B]] here\r\nlast";
    assert_eq!(goto_wikilink(doc, 1, 12).as_deref(), Some("notes/b.md"));
    assert!(goto_wikilink(doc, 0, 12).is_none());
    assert!(goto_wikilink(doc, 5, 0).is_none());
    let h = hover_wikilink(doc, 1, 8).unwrap();
    assert_eq!((h.match_start, h.match_end), (8, 24));
    assert_eq!(h.target_path, "notes/b.md");
}

#[test]
fn completion_gate_on_unterminated_link() {
    assert!(!is_inside_wiki_link("see [[N", 0, 0));
    assert!(!is_inside_wiki_link("see [[N", 0, 2));
    assert!(is_inside_wiki_link("see [[N", 0, 6));
    assert!(is_inside_wiki_link("see [[N", 0, 7));
    assert!(is_inside_wiki_link("see [[N", 0, 70));
}

#[test]
fn completion_gate_on_closed_link() {
    let line = "x [[ab]] y";
    assert!(is_inside_wiki_link(line, 0, 4));
    assert!(is_inside_wiki_link(line, 0, 6));
    assert!(!is_inside_wiki_link(line, 0, 7));
    assert!(!is_inside_wiki_link(line, 0, 9));
    assert!(!is_inside_wiki_link(line, 1, 4));
}

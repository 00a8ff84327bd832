use notemancy_lsp::formatting::{format_markdown, formatting_edit, strip_escaped_openers};
use notemancy_lsp::transform::{MarkdownEvent, WikiLinkTransformer};

#[test]
fn test_formatting_wikilink() {
    let input = "This is a wiki-link: [[Design-Doc|Design Document]]. And some more text.";
    let output = format_markdown(input).unwrap();
    assert!(
        output.contains("[[Design-Doc|Design Document]]"),
        "Output was: {}",
        output
    );
}

#[test]
fn formatting_twice_gives_no_edit() {
    let once = format_markdown("# Title\n\nSee [[notes/a.md|A note]] here.").unwrap();
    let twice = format_markdown(&once).unwrap();
    assert_eq!(once, twice);
    assert!(formatting_edit(&once, twice).is_none());
}

#[test]
fn formatting_edit_covers_whole_document() {
    let edit = formatting_edit("ab\ncdef", "x".to_string()).unwrap();
    assert_eq!(edit.end_line, 2);
    assert_eq!(edit.end_character, 4);
    assert_eq!(edit.new_text, "x");
    assert!(formatting_edit("same", "same".to_string()).is_none());
}

#[test]
fn formatting_edit_on_empty_document() {
    let edit = formatting_edit("", "x".to_string()).unwrap();
    assert_eq!(edit.end_line, 0);
    assert_eq!(edit.end_character, 0);
}

#[test]
fn escaped_openers_are_stripped() {
    assert_eq!(strip_escaped_openers(r"a \[[b]] c \[x"), "a [[b]] c \\[x");
    assert_eq!(strip_escaped_openers(r"\[[\[[x"), "[[[[x");
    assert_eq!(strip_escaped_openers(""), "");
}

fn text(s: &str) -> MarkdownEvent<u32> {
    MarkdownEvent::Text(s.to_string())
}

fn run_all(events: Vec<MarkdownEvent<u32>>) -> Vec<MarkdownEvent<u32>> {
    WikiLinkTransformer::new(events).transform_all()
}

fn describe(e: &MarkdownEvent<u32>) -> String {
    match e {
        MarkdownEvent::Text(s) => format!("text:{}", s),
        MarkdownEvent::LinkStart { wiki, dest, raw, .. } => format!("start:{}:{}:{}", wiki, dest, raw),
        MarkdownEvent::LinkEnd(raw) => format!("end:{}", raw),
        MarkdownEvent::Other(raw) => format!("other:{}", raw),
    }
}

#[test]
fn wiki_link_events_collapse_to_literal() {
    let out = run_all(vec![
        MarkdownEvent::Other(1),
        text("before "),
        MarkdownEvent::LinkStart { wiki: true, dest: "Design-Doc".to_string(), title: String::new(), raw: 2 },
        text("Design "),
        MarkdownEvent::Other(3),
        text("Document"),
        MarkdownEvent::LinkEnd(4),
        text(" after"),
    ]);
    let got: Vec<String> = out.iter().map(describe).collect();
    assert_eq!(
        got,
        vec!["other:1", "text:before ", "text:[[Design-Doc|Design Document]]", "text: after"]
    );
}

#[test]
fn wiki_link_without_title_has_no_pipe() {
    let out = run_all(vec![
        MarkdownEvent::LinkStart { wiki: true, dest: "target".to_string(), title: String::new(), raw: 0 },
        MarkdownEvent::LinkEnd(1),
    ]);
    let got: Vec<String> = out.iter().map(describe).collect();
    assert_eq!(got, vec!["text:[[target]]"]);
}

#[test]
fn other_links_pass_through() {
    let out = run_all(vec![
        MarkdownEvent::LinkStart { wiki: false, dest: "http://x".to_string(), title: String::new(), raw: 7 },
        text("x"),
        MarkdownEvent::LinkEnd(8),
    ]);
    let got: Vec<String> = out.iter().map(describe).collect();
    assert_eq!(got, vec!["start:false:http://x:7", "text:x", "end:8"]);
}

#[test]
fn unterminated_wiki_link_emits_nothing_more() {
    let mut t = WikiLinkTransformer::new(vec![
        text("a"),
        MarkdownEvent::LinkStart { wiki: true, dest: "t".to_string(), title: String::new(), raw: 0 },
        text("b"),
    ]);
    assert_eq!(describe(&t.next().unwrap()), "text:a");
    assert!(t.next().is_none());
    assert!(t.next().is_none());
}

#[test]
fn plain_wiki_link_gets_its_text_as_title() {
    let output = format_markdown("See [[Foo]] here.").unwrap();
    assert!(output.contains("[[Foo|Foo]]"), "Output was: {}", output);
    assert!(!output.contains("\\[["), "Output was: {}", output);
}

#[test]
fn ordinary_links_survive_formatting() {
    let output = format_markdown("A [site](http://example.com) and [[a|b]].").unwrap();
    assert!(output.contains("[site](http://example.com)"), "Output was: {}", output);
    assert!(output.contains("[[a|b]]"), "Output was: {}", output);
}

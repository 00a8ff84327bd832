use notemancy_lsp::completion::{completion_candidates, get_vault_directory, provide_wiki_link_completions, ConfigError, NoteTitle, VaultEntry};
use notemancy_lsp::directives::{process_custom_commands, DirectiveKind};
use notemancy_lsp::session::DocumentStore;

#[test]
fn directive_line_is_removed() {
    let scan = process_custom_commands("%%atw myworkspace\nBody text\nmore");
    assert_eq!(scan.text, "Body text\nmore");
    assert_eq!(scan.commands.len(), 1);
    assert_eq!(scan.commands[0].kind, DirectiveKind::AppendToWorkspace);
    assert_eq!(scan.commands[0].workspace, "myworkspace");
}

#[test]
fn all_three_directives_are_recognised() {
    let scan = process_custom_commands("  %%nw alpha  \na\n%%dfw beta\n%%xx gamma\n%%nw two words\n%%atw");
    assert_eq!(scan.text, "a\n%%xx gamma\n%%nw two words\n%%atw");
    let kinds: Vec<DirectiveKind> = scan.commands.iter().map(|d| d.kind).collect();
    assert_eq!(kinds, vec![DirectiveKind::NewWorkspace, DirectiveKind::RemoveFromWorkspace]);
    assert_eq!(scan.commands[0].workspace, "alpha");
    assert_eq!(scan.commands[1].workspace, "beta");
}

#[test]
fn text_without_directives_keeps_its_lines() {
    let scan = process_custom_commands("one\r\ntwo\n");
    assert_eq!(scan.text, "one\ntwo");
    assert!(scan.commands.is_empty());
    assert_eq!(process_custom_commands("").text, "");
}

#[test]
fn session_store_tracks_latest_text() {
    let mut store = DocumentStore::new();
    assert!(store.read("file:///a.md").is_none());
    store.open("file:///a.md", "one".to_string());
    store.open("file:///b.md", "bee".to_string());
    store.change("file:///a.md", "two".to_string());
    assert_eq!(store.read("file:///a.md").as_deref(), Some("two"));
    assert_eq!(store.read("file:///b.md").as_deref(), Some("bee"));
    store.change("file:///c.md", "new".to_string());
    assert_eq!(store.read("file:///c.md").as_deref(), Some("new"));
    store.close("file:///a.md");
    assert!(store.read("file:///a.md").is_none());
    assert_eq!(store.read("file:///b.md").as_deref(), Some("bee"));
}

fn titled(path: &str, title: Option<&str>) -> NoteTitle {
    NoteTitle { path: path.to_string(), title: title.map(|t| t.to_string()) }
}

#[test]
fn completions_skip_untitled_notes() {
    let notes = vec![titled("a.md", Some("Alpha")), titled("b.md", None), titled("c.md", Some("Gamma"))];
    let items = completion_candidates(&notes);
    assert_eq!(items.len(), 2);
    assert_eq!(items[0].label, "Alpha");
    assert_eq!(items[0].insert_text, "[[Alpha]]");
    assert_eq!(items[0].detail, "a.md");
    assert_eq!(items[1].insert_text, "[[Gamma]]");
}

#[test]
fn completions_only_inside_links() {
    let notes = vec![titled("a.md", Some("Alpha"))];
    assert!(provide_wiki_link_completions("see [[N", 0, 0, &notes).is_none());
    assert_eq!(provide_wiki_link_completions("see [[N", 0, 7, &notes).unwrap().len(), 1);
}

#[test]
fn default_vault_is_selected_by_name() {
    let vaults = vec![
        VaultEntry { name: "work".to_string(), vault_directory: "/w".to_string() },
        VaultEntry { name: "home".to_string(), vault_directory: "/h".to_string() },
        VaultEntry { name: "home".to_string(), vault_directory: "/h2".to_string() },
    ];
    assert_eq!(get_vault_directory(&vaults, "home"), Ok("/h".to_string()));
    assert_eq!(get_vault_directory(&vaults, "none"), Err(ConfigError::DefaultVaultNotFound));
}

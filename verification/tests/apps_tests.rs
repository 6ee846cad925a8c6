use waystart::DesktopRecord;
use waystart::EntryAction;
use waystart::Favorites;
use waystart::Frequencies;
use waystart::SearchEntries;

fn record(id: &str, name: &str, description: Option<&str>) -> DesktopRecord {
    DesktopRecord {
        id: id.to_string(),
        name: name.to_string(),
        description: description.map(|d| d.to_string()),
        icon: None,
        argv: vec![id.to_string()],
        working_dir: None,
        needs_terminal: false,
        no_display: false,
        hidden: false,
    }
}

fn source(records: Vec<DesktopRecord>) -> SearchEntries {
    SearchEntries::new(records, Frequencies::new(), Favorites::new())
}

#[test]
fn duplicate_ids_collapse_to_first_seen() {
    let apps = source(vec![
        record("org.example.App", "First Name", None),
        record("org.example.Other", "Other", None),
        record("org.example.App", "Second Name", None),
    ]);
    let list = apps.default_entries(0).unwrap();
    assert_eq!(list.len(), 2);
    assert_eq!(list[0].0.id, "org.example.App");
    assert_eq!(list[0].0.text, "First Name");
    assert_eq!(list[1].0.id, "org.example.Other");
}

#[test]
fn hidden_and_no_display_records_are_discarded() {
    let mut hidden = record("a", "A", None);
    hidden.hidden = true;
    let mut nodisplay = record("b", "B", None);
    nodisplay.no_display = true;
    let apps = source(vec![hidden, nodisplay, record("c", "C", None)]);
    let list = apps.default_entries(0).unwrap();
    assert_eq!(list.len(), 1);
    assert_eq!(list[0].0.id, "c");
}

#[test]
fn searchable_text_joins_name_and_description() {
    let apps = source(vec![
        record("a", "Files", Some("Browse your documents")),
        record("b", "Terminal", None),
    ]);
    let list = apps.default_entries(0).unwrap();
    assert_eq!(list[0].0.searchable, "Files Browse your documents");
    assert_eq!(list[1].0.searchable, "Terminal");
}

#[test]
fn default_scores_come_from_the_frequency_store() {
    let mut freqs = Frequencies::new();
    freqs.increment("b", 1000);
    freqs.increment("b", 1000);
    let apps = SearchEntries::new(
        vec![record("a", "A", None), record("b", "B", None)],
        freqs,
        Favorites::new(),
    );
    let list = apps.default_entries(1000).unwrap();
    assert_eq!(list[0].1, 0);
    assert_eq!(list[1].1, 8);
}

#[test]
fn filtering_matches_the_searchable_text() {
    let apps = source(vec![
        record("firefox", "Firefox", Some("Web Browser")),
        record("gimp", "GIMP", Some("Image Editor")),
    ]);
    let list = apps.filtered_entries("firef").unwrap();
    assert_eq!(list.len(), 1);
    assert_eq!(list[0].0.id, "firefox");
    assert!(list[0].1 > 0);
}

#[test]
fn favorites_are_set_insertions_keyed_by_id() {
    let mut apps = source(vec![record("a", "A", None), record("b", "B", None)]);
    assert!(!apps.is_favorite("a"));
    apps.add_favorite("a");
    apps.add_favorite("a");
    assert!(apps.is_favorite("a"));
    assert!(!apps.is_favorite("b"));
    let favs = apps.favorites();
    assert_eq!(favs.len(), 1);
    assert_eq!(favs[0].id, "a");
}

#[test]
fn favorited_ids_without_a_record_yield_no_entry() {
    let mut apps = source(vec![record("a", "A", None)]);
    apps.add_favorite("gone");
    let favs = apps.favorites();
    assert!(favs.is_empty());
}

#[test]
fn application_entries_can_be_favorited_and_carry_their_argv() {
    let apps = source(vec![record("a", "A", None)]);
    let list = apps.default_entries(0).unwrap();
    assert!(list[0].0.can_favorite());
    match &list[0].0.action {
        EntryAction::Launch { argv, needs_terminal, .. } => {
            assert_eq!(argv, &vec!["a".to_string()]);
            assert!(!needs_terminal);
        },
        _ => panic!("application entries launch"),
    }
}

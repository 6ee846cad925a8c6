use waystart::DesktopRecord;
use waystart::Favorites;
use waystart::Finders;
use waystart::Frequencies;
use waystart::MathFinder;
use waystart::SearchEntries;
use waystart::WifiFinder;
use waystart::WifiNetwork;

fn record(id: &str, name: &str) -> DesktopRecord {
    DesktopRecord {
        id: id.to_string(),
        name: name.to_string(),
        description: None,
        icon: None,
        argv: vec![id.to_string()],
        working_dir: None,
        needs_terminal: false,
        no_display: false,
        hidden: false,
    }
}

fn network(ssid: &str, strength: u8) -> WifiNetwork {
    WifiNetwork { ssid: ssid.to_string(), strength, secured: false, is_psk: false }
}

fn aggregator(records: Vec<DesktopRecord>, freqs: Frequencies, nets: Vec<WifiNetwork>) -> Finders {
    let desktop = SearchEntries::new(records, freqs, Favorites::new());
    let mut wifi = WifiFinder::new();
    wifi.set_networks(nets);
    Finders::new(desktop, MathFinder::new(), wifi)
}

#[test]
fn default_list_ranks_by_descending_score() {
    let mut freqs = Frequencies::new();
    freqs.increment("editor", 1000);
    freqs.increment("editor", 1000);
    freqs.increment("browser", 1000);
    let f = aggregator(
        vec![record("browser", "Browser"), record("editor", "Editor")],
        freqs,
        vec![network("HomeNet", 3)],
    );
    let list = f.default_entries(1000);
    assert_eq!(list.len(), 3);
    assert_eq!(list[0].entry.id, "editor");
    assert_eq!(list[0].score, 8);
    assert_eq!(list[1].entry.id, "browser");
    assert_eq!(list[1].score, 4);
    assert_eq!(list[2].entry.id, "HomeNet");
    assert_eq!(list[2].score, 3);
}

#[test]
fn ties_keep_discovery_order() {
    let f = aggregator(
        vec![record("a", "A"), record("b", "B"), record("c", "C")],
        Frequencies::new(),
        vec![],
    );
    let list = f.default_entries(0);
    assert_eq!(list.len(), 3);
    assert_eq!(list[0].entry.id, "a");
    assert_eq!(list[1].entry.id, "b");
    assert_eq!(list[2].entry.id, "c");
}

#[test]
fn two_computations_over_unchanged_data_rank_identically() {
    let mut freqs = Frequencies::new();
    freqs.increment("b", 500);
    let f = aggregator(
        vec![record("a", "A"), record("b", "B")],
        freqs,
        vec![network("Net", 2)],
    );
    let first = f.default_entries(600);
    let second = f.default_entries(600);
    assert_eq!(first.len(), second.len());
    for (x, y) in first.iter().zip(second.iter()) {
        assert_eq!(x.entry.id, y.entry.id);
        assert_eq!(x.score, y.score);
        assert_eq!(x.rank, y.rank);
    }
}

#[test]
fn blank_query_routes_to_defaults_with_every_contribution() {
    let f = aggregator(vec![], Frequencies::new(), vec![network("OnlyNet", 7)]);
    let list = f.entries_for("   ", 0);
    assert_eq!(list.len(), 1);
    assert_eq!(list[0].entry.id, "OnlyNet");
}

#[test]
fn math_result_sorts_first_in_search_results() {
    let f = aggregator(vec![record("calc", "Calculator")], Frequencies::new(), vec![]);
    let list = f.filtered_entries("2+2");
    assert!(!list.is_empty());
    assert_eq!(list[0].entry.text, "= 4");
    assert_eq!(list[0].score, u32::MAX);
}

#[test]
fn search_excludes_non_matching_candidates() {
    let f = aggregator(
        vec![record("firefox", "Firefox"), record("gimp", "GIMP")],
        Frequencies::new(),
        vec![network("HomeNet", 5)],
    );
    let list = f.filtered_entries("firefox");
    assert!(list.iter().any(|r| r.entry.id == "firefox"));
    assert!(list.iter().all(|r| r.entry.id != "gimp"));
}

#[test]
fn executing_twice_moves_an_entry_no_lower() {
    let mut freqs = Frequencies::new();
    freqs.increment("a", 1000);
    freqs.increment("b", 1000);
    let desktop = SearchEntries::new(
        vec![record("a", "A"), record("b", "B")],
        freqs,
        Favorites::new(),
    );
    let mut f = Finders::new(desktop, MathFinder::new(), WifiFinder::new());
    let before = f.default_entries(1000);
    let before_pos = before.iter().position(|r| r.entry.id == "b").unwrap();
    f.desktop_mut().increment_frequency("b", 1500);
    let after = f.default_entries(1600);
    let after_pos = after.iter().position(|r| r.entry.id == "b").unwrap();
    assert!(after_pos <= before_pos);
    assert_eq!(after_pos, 0);
}

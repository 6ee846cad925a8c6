use waystart::EntryAction;
use waystart::Icon;
use waystart::PowerOptions;
use waystart::PowerQuickAccess;
use waystart::WifiFinder;
use waystart::WifiNetwork;
use waystart::WifiQuickAccess;
use waystart::WifiSecurityChoice;
use waystart::connect_choice;

fn network(ssid: &str, strength: u8, secured: bool, is_psk: bool) -> WifiNetwork {
    WifiNetwork { ssid: ssid.to_string(), strength, secured, is_psk }
}

#[test]
fn open_networks_connect_directly() {
    assert_eq!(connect_choice(false, false), Some(WifiSecurityChoice::Open));
    assert_eq!(connect_choice(false, true), Some(WifiSecurityChoice::Open));
}

#[test]
fn psk_networks_need_a_key_and_others_are_skipped() {
    assert_eq!(connect_choice(true, true), Some(WifiSecurityChoice::WpaPsk));
    assert_eq!(connect_choice(true, false), None);
}

#[test]
fn network_entries_score_by_signal_strength() {
    let mut finder = WifiFinder::new();
    finder.set_networks(vec![network("Weak", 10, false, false), network("Strong", 90, true, true)]);
    let list = finder.default_entries().unwrap();
    assert_eq!(list.len(), 2);
    assert_eq!(list[0].0.text, "Weak");
    assert_eq!(list[0].1, 10);
    assert_eq!(list[1].1, 90);
    assert!(!list[0].0.can_favorite());
    match &list[1].0.action {
        EntryAction::ConnectWifi { ssid, secured, psk_supported } => {
            assert_eq!(ssid, "Strong");
            assert!(*secured);
            assert!(*psk_supported);
        },
        _ => panic!("network entries connect"),
    }
}

#[test]
fn network_search_matches_ssids() {
    let mut finder = WifiFinder::new();
    finder.set_networks(vec![network("HomeNet", 50, false, false), network("Cafe", 40, false, false)]);
    let list = finder.filtered_entries("home").unwrap();
    assert_eq!(list.len(), 1);
    assert_eq!(list[0].0.text, "HomeNet");
}

#[test]
fn an_empty_cache_lists_nothing() {
    let finder = WifiFinder::new();
    assert!(finder.default_entries().unwrap().is_empty());
}

#[test]
fn power_menu_holds_the_four_actions() {
    let menu = PowerOptions::new();
    let actions = menu.actions();
    assert_eq!(actions.len(), 4);
    assert_eq!(actions[0].label, "Lock");
    assert_eq!(actions[0].program, "loginctl");
    assert_eq!(actions[0].arg, "lock-session");
    assert_eq!(actions[1].label, "Sleep");
    assert_eq!(actions[1].arg, "suspend");
    assert_eq!(actions[2].label, "Shut down");
    assert_eq!(actions[2].arg, "poweroff");
    assert_eq!(actions[3].label, "Restart");
    assert_eq!(actions[3].program, "systemctl");
    assert_eq!(actions[3].arg, "reboot");
}

#[test]
fn quick_access_shows_the_same_menu() {
    let quick = PowerQuickAccess::new();
    assert_eq!(quick.menu().actions().len(), 4);
}

#[test]
fn wifi_toggle_label_follows_the_radio_state() {
    let quick = WifiQuickAccess::new();
    assert_eq!(quick.toggle_label(true), "Disable Wi-Fi");
    assert_eq!(quick.toggle_label(false), "Enable Wi-Fi");
}

#[test]
fn icons_resolve_to_their_assets() {
    assert_eq!(Icon::Lock.asset_path(), "lock.svg");
    assert_eq!(Icon::Power.asset_path(), "power.svg");
    assert_eq!(Icon::Restart.asset_path(), "restart.svg");
    assert_eq!(Icon::Search.asset_path(), "search.svg");
    assert_eq!(Icon::Sleep.asset_path(), "sleep.svg");
}

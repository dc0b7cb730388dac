use stock_ticker::controls::{toggle_action, tray_action, TrayAction, WindowAction};
use stock_ticker::watchlist::{clean_watchlist, default_watchlist, initial_watchlist, trim_text};

#[test]
fn default_watchlist_has_three_codes() {
    assert_eq!(default_watchlist(), vec!["sh000001", "sz399001", "sh600519"]);
}

#[test]
fn initial_watchlist_falls_back_to_default() {
    assert_eq!(initial_watchlist(None), default_watchlist());
    assert_eq!(initial_watchlist(Some(vec![])), default_watchlist());
    let stored = vec!["sz000002".to_string()];
    assert_eq!(initial_watchlist(Some(stored.clone())), stored);
}

#[test]
fn entered_codes_are_cleaned() {
    let entered = vec![
        " SH600519 ".to_string(),
        "".to_string(),
        " \u{3000}\t".to_string(),
        "Sz000002".to_string(),
    ];
    assert_eq!(clean_watchlist(entered), vec!["sh600519", "sz000002"]);
    assert!(clean_watchlist(vec![]).is_empty());
}

#[test]
fn trim_agrees_with_std() {
    for s in ["", "  ", " a b ", "\u{85}x\u{a0}", "\u{2028}\u{3000}y\u{200a}\r\n", "z\u{200b}"] {
        assert_eq!(trim_text(s), s.trim());
    }
}

#[test]
fn toggle_hides_a_visible_window() {
    assert_eq!(toggle_action(Some(true)), WindowAction::Hide);
    assert_eq!(toggle_action(None), WindowAction::Hide);
    assert_eq!(toggle_action(Some(false)), WindowAction::ShowAndFocus);
}

#[test]
fn tray_entries_map_to_actions() {
    assert_eq!(tray_action("toggle"), Some(TrayAction::ToggleWindow));
    assert_eq!(tray_action("refresh"), Some(TrayAction::Refresh));
    assert_eq!(tray_action("quit"), Some(TrayAction::Quit));
    assert_eq!(tray_action("Quit"), None);
    assert_eq!(tray_action(""), None);
}

#[test]
fn toggling_twice_restores_the_window() {
    let first = toggle_action(Some(true));
    let visible = first == WindowAction::ShowAndFocus;
    assert_eq!(toggle_action(Some(visible)), WindowAction::ShowAndFocus);
}

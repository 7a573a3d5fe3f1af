use desktopd::browser::{BrowserTab, BrowserTabRef};
use desktopd::message::{ConnectionType, DesktopdClient};
use desktopd::state::State;
use desktopd::sway::SwayWindow;

fn win(id: usize, name: &str, class: &str, focused: bool) -> SwayWindow {
    SwayWindow {
        id,
        app_id: String::new(),
        name: name.to_string(),
        class: class.to_string(),
        focused,
    }
}

fn tab(id: usize, window_id: usize, title: &str, url: &str) -> BrowserTab {
    BrowserTab { id, window_id, title: title.to_string(), url: url.to_string() }
}

fn window_ids(items: &[DesktopdClient]) -> Vec<usize> {
    items
        .iter()
        .filter_map(|c| match c {
            DesktopdClient::Window { data } => Some(data.id),
            DesktopdClient::Tab { .. } => None,
        })
        .collect()
}

fn tab_titles(items: &[DesktopdClient]) -> Vec<String> {
    items
        .iter()
        .filter_map(|c| match c {
            DesktopdClient::Tab { data } => Some(data.title.clone()),
            DesktopdClient::Window { .. } => None,
        })
        .collect()
}

#[test]
fn new_state_is_empty() {
    let state = State::new();
    assert!(state.clients().is_empty());
    assert!(state.get_focused().is_empty());
    assert!(state.get_browser_windows().is_empty());
}

#[test]
fn removed_window_id_is_never_retained() {
    let mut state = State::new();
    state.add_window(win(1, "one", "A", false));
    state.add_window(win(2, "two", "B", false));
    state.remove_window(&1);
    state.add_window(win(3, "three", "C", false));
    let ids = window_ids(&state.clients());
    assert!(!ids.contains(&1));
    assert_eq!(ids, vec![2, 3]);
}

#[test]
fn most_recently_added_window_is_present() {
    let mut state = State::new();
    state.add_window(win(1, "one", "A", false));
    state.remove_window(&1);
    state.add_window(win(1, "one again", "A", false));
    let ids = window_ids(&state.clients());
    assert_eq!(ids, vec![1]);
}

#[test]
fn add_window_replaces_same_id() {
    let mut state = State::new();
    state.add_window(win(7, "old title", "A", false));
    state.add_window(win(7, "new title", "A", false));
    let items = state.clients();
    assert_eq!(window_ids(&items), vec![7]);
    match &items[0] {
        DesktopdClient::Window { data } => assert_eq!(data.name, "new title"),
        _ => panic!("expected a window entry"),
    }
}

#[test]
fn mark_focused_twice_leaves_one_focused() {
    let mut state = State::new();
    state.add_window(win(1, "one", "A", false));
    state.add_window(win(2, "two", "B", false));
    state.mark_focused(win(1, "one", "A", false));
    state.mark_focused(win(2, "two", "B", false));
    let focused = state.get_focused();
    assert_eq!(focused.len(), 1);
    assert_eq!(focused[0].id, 2);
    assert!(focused[0].focused);
}

#[test]
fn remove_focused_returns_focused_windows() {
    let mut state = State::new();
    state.add_window(win(1, "one", "A", false));
    state.mark_focused(win(2, "two", "B", false));
    let removed = state.remove_focused();
    assert_eq!(removed.len(), 1);
    assert_eq!(removed[0].id, 2);
    assert_eq!(window_ids(&state.clients()), vec![1]);
    assert!(state.get_focused().is_empty());
}

#[test]
fn browser_windows_are_classified_by_class_or_app_id() {
    let mut state = State::new();
    state.add_window(win(1, "a page", "Firefox", false));
    state.add_window(win(2, "a shell", "Alacritty", false));
    let mut firefox_by_app_id = win(3, "another page", "", false);
    firefox_by_app_id.app_id = "firefox".to_string();
    state.add_window(firefox_by_app_id);
    let browsers = state.get_browser_windows();
    let ids: Vec<usize> = browsers.iter().map(|w| w.id).collect();
    assert_eq!(ids, vec![1, 3]);
}

#[test]
fn duplicate_tab_update_keeps_one_entry() {
    let mut state = State::new();
    state.add_tab(tab(5, 2, "News", "https://example.test/news"));
    state.add_tab(tab(5, 2, "News", "https://example.test/news"));
    let titles = tab_titles(&state.clients());
    assert_eq!(titles, vec!["News".to_string()]);
    let found = state.find_tab(&BrowserTabRef { tab_id: 5, window_id: 2 });
    assert!(found.is_some());
    assert_eq!(found.unwrap().title, "News");
}

#[test]
fn tab_identity_is_window_and_tab_id() {
    let mut state = State::new();
    state.add_tab(tab(5, 2, "first", "https://a.test/"));
    state.add_tab(tab(5, 3, "second", "https://b.test/"));
    assert_eq!(tab_titles(&state.clients()).len(), 2);
    state.remove_tab(BrowserTabRef { tab_id: 5, window_id: 2 });
    assert_eq!(tab_titles(&state.clients()), vec!["second".to_string()]);
    assert!(state.find_tab(&BrowserTabRef { tab_id: 5, window_id: 2 }).is_none());
}

#[test]
fn projection_excludes_tab_shown_by_window_title() {
    let mut state = State::new();
    state.add_window(win(1, "Example – Browser", "Firefox", false));
    state.add_tab(tab(10, 3, "Example", "https://example.test/"));
    state.add_tab(tab(11, 3, "Elsewhere", "https://elsewhere.test/"));
    let titles = tab_titles(&state.clients());
    assert_eq!(titles, vec!["Elsewhere".to_string()]);
}

#[test]
fn projection_lists_windows_before_tabs() {
    let mut state = State::new();
    state.add_tab(tab(10, 3, "Some tab", "https://example.test/"));
    state.add_window(win(1, "a window", "A", false));
    let items = state.clients();
    assert_eq!(items.len(), 2);
    assert!(matches!(items[0], DesktopdClient::Window { .. }));
    assert!(matches!(items[1], DesktopdClient::Tab { .. }));
}

#[test]
fn connection_type_has_id_and_is_browser() {
    let browser = ConnectionType::Browser { id: "abc".to_string() };
    let cli = ConnectionType::Cli;
    assert!(browser.is_browser());
    assert!(!cli.is_browser());
    assert!(browser.has_id("abc"));
    assert!(!browser.has_id("xyz"));
    assert!(!cli.has_id("abc"));
}

#[test]
fn connection_type_equality_only_matches_browser_ids() {
    let a = ConnectionType::Browser { id: "abc".to_string() };
    let b = ConnectionType::Browser { id: "abc".to_string() };
    let c = ConnectionType::Browser { id: "xyz".to_string() };
    assert!(a == b);
    assert!(a != c);
    // a CLI peer matches nothing, itself included: eviction on registration
    // only ever applies to Browser peers
    assert!(ConnectionType::Cli != ConnectionType::Cli);
}

#[test]
fn empty_tab_title_is_shadowed_by_any_window() {
    let mut state = State::new();
    state.add_window(win(1, "anything", "A", false));
    state.add_tab(tab(10, 3, "", "https://example.test/"));
    assert!(tab_titles(&state.clients()).is_empty());
    state.remove_window(&1);
    assert_eq!(tab_titles(&state.clients()), vec![String::new()]);
}

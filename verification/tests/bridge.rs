use desktopd::bridge::{
    bridge_step, resolve_activated, split_decision, ACTIVATION_RETRY_LIMIT, BridgeAction,
    SwayCommand,
};
use desktopd::browser::{BrowserResponse, BrowserTab, BrowserTabRef};
use desktopd::message::{CliRequest, DesktopdMessage};
use desktopd::state::State;
use desktopd::sway::{
    find_parent, NodeKind, NodeLayout, SwayNode, SwayWindow, WindowChange, WindowEvent,
};

fn leaf(id: usize, name: &str) -> SwayNode {
    SwayNode {
        id,
        name: Some(name.to_string()),
        app_id: Some("app".to_string()),
        class: Some("Class".to_string()),
        node_type: NodeKind::Con,
        layout: NodeLayout::SplitH,
        floating: false,
        fullscreen: false,
        focused: false,
        width: 100,
        height: 50,
        nodes: Vec::new(),
        floating_nodes: Vec::new(),
    }
}

fn container(id: usize, layout: NodeLayout, children: Vec<SwayNode>) -> SwayNode {
    SwayNode {
        id,
        name: None,
        app_id: None,
        class: None,
        node_type: NodeKind::Root,
        layout,
        floating: false,
        fullscreen: false,
        focused: false,
        width: 200,
        height: 200,
        nodes: children,
        floating_nodes: Vec::new(),
    }
}

fn firefox_window(id: usize, name: &str) -> SwayWindow {
    SwayWindow {
        id,
        app_id: "firefox".to_string(),
        name: name.to_string(),
        class: "Firefox".to_string(),
        focused: false,
    }
}

fn activated(tab_id: usize, window_id: usize) -> DesktopdMessage {
    DesktopdMessage::BrowserMessage {
        data: BrowserResponse::Activated(BrowserTabRef { tab_id, window_id }),
    }
}

#[test]
fn collect_windows_walks_normal_and_floating_children() {
    let mut root = container(1, NodeLayout::SplitH, vec![leaf(2, "left"), leaf(3, "right")]);
    root.floating_nodes.push(leaf(4, "floating"));
    let wins = SwayWindow::collect_windows(&root);
    let ids: Vec<usize> = wins.iter().map(|w| w.id).collect();
    assert_eq!(ids, vec![2, 3, 4]);
    assert_eq!(wins[0].name, "left");
    assert_eq!(wins[0].class, "Class");
    assert_eq!(wins[0].app_id, "app");
}

#[test]
fn collect_windows_skips_unnamed_containers() {
    let root = container(1, NodeLayout::SplitH, vec![leaf(2, "only")]);
    let wins = SwayWindow::collect_windows(&root);
    assert_eq!(wins.len(), 1);
    assert_eq!(wins[0].id, 2);
}

#[test]
fn find_parent_locates_the_direct_parent() {
    let inner = container(5, NodeLayout::Tabbed, vec![leaf(2, "deep")]);
    let root = container(1, NodeLayout::SplitH, vec![leaf(3, "top"), inner]);
    let needle = leaf(2, "deep");
    let parent = find_parent(&needle, &root).expect("the leaf has a parent");
    assert_eq!(parent.id, 5);
    let top = leaf(3, "top");
    assert_eq!(find_parent(&top, &root).unwrap().id, 1);
    let absent = leaf(9, "absent");
    assert!(find_parent(&absent, &root).is_none());
}

#[test]
fn split_decision_follows_the_longer_edge() {
    let mut tall = leaf(2, "tall");
    tall.width = 40;
    tall.height = 90;
    let mut tall_in_tree = leaf(2, "tall");
    tall_in_tree.width = 40;
    tall_in_tree.height = 90;
    let root = container(1, NodeLayout::SplitH, vec![tall_in_tree]);
    assert_eq!(split_decision(&root, &tall), Some(SwayCommand::SplitVertical));

    let mut wide = leaf(3, "wide");
    wide.width = 90;
    wide.height = 40;
    let mut wide_in_tree = leaf(3, "wide");
    wide_in_tree.width = 90;
    wide_in_tree.height = 40;
    let root = container(1, NodeLayout::SplitH, vec![wide_in_tree]);
    assert_eq!(split_decision(&root, &wide), Some(SwayCommand::SplitHorizontal));
}

#[test]
fn split_decision_declines_floating_fullscreen_stacked_tabbed() {
    let mut floating = leaf(2, "f");
    floating.floating = true;
    let mut floating_in_tree = leaf(2, "f");
    floating_in_tree.floating = true;
    let root = container(1, NodeLayout::SplitH, vec![floating_in_tree]);
    assert_eq!(split_decision(&root, &floating), None);

    let mut full = leaf(3, "g");
    full.fullscreen = true;
    let mut full_in_tree = leaf(3, "g");
    full_in_tree.fullscreen = true;
    let root = container(1, NodeLayout::SplitH, vec![full_in_tree]);
    assert_eq!(split_decision(&root, &full), None);

    let plain = leaf(4, "h");
    let stacked = container(1, NodeLayout::Stacked, vec![leaf(4, "h")]);
    assert_eq!(split_decision(&stacked, &plain), None);
    let tabbed = container(1, NodeLayout::Tabbed, vec![leaf(4, "h")]);
    assert_eq!(split_decision(&tabbed, &plain), None);
}

#[test]
fn activation_is_retried_until_the_window_appears_then_dispatched_once() {
    let mut state = State::new();
    state.add_tab(BrowserTab {
        id: 5,
        window_id: 2,
        title: "The News".to_string(),
        url: "https://news.test/".to_string(),
    });

    let msg = activated(5, 2);
    let mut attempts: u32 = 0;
    let mut deferred: u32 = 0;
    let mut dispatched: Vec<SwayCommand> = Vec::new();

    // no matching window yet: the activation keeps being deferred
    for _ in 0..3 {
        match bridge_step(&state, &msg, attempts) {
            BridgeAction::Defer { tab, attempts: next } => {
                assert_eq!(tab, BrowserTabRef { tab_id: 5, window_id: 2 });
                attempts = next;
                deferred += 1;
            }
            other => panic!("expected a deferral, got {:?}", other),
        }
    }
    assert_eq!(deferred, 3);

    // the manager's title catches up: exactly one focus command is issued
    state.add_window(firefox_window(7, "The News – Browser"));
    match bridge_step(&state, &msg, attempts) {
        BridgeAction::Dispatch { command } => dispatched.push(command),
        other => panic!("expected a dispatch, got {:?}", other),
    }
    assert_eq!(dispatched, vec![SwayCommand::Focus { con_id: 7 }]);
}

#[test]
fn activation_retries_stop_at_the_bound() {
    let mut state = State::new();
    state.add_tab(BrowserTab {
        id: 5,
        window_id: 2,
        title: "never shown".to_string(),
        url: "https://news.test/".to_string(),
    });
    let msg = activated(5, 2);
    let r = bridge_step(&state, &msg, ACTIVATION_RETRY_LIMIT - 1);
    assert_eq!(r, BridgeAction::Discard);
}

#[test]
fn activation_of_unknown_tab_is_deferred() {
    let state = State::new();
    let r = bridge_step(&state, &activated(5, 2), 0);
    assert_eq!(r, BridgeAction::Defer { tab: BrowserTabRef { tab_id: 5, window_id: 2 }, attempts: 1 });
}

#[test]
fn blank_tab_activation_matches_default_browser_title() {
    let mut state = State::new();
    state.add_tab(BrowserTab {
        id: 5,
        window_id: 2,
        title: "New Tab".to_string(),
        url: "about:blank".to_string(),
    });
    state.add_window(firefox_window(9, "Mozilla Firefox"));
    assert_eq!(resolve_activated(&state, &BrowserTabRef { tab_id: 5, window_id: 2 }), Some(9));
}

#[test]
fn activation_ignores_non_browser_windows() {
    let mut state = State::new();
    state.add_tab(BrowserTab {
        id: 5,
        window_id: 2,
        title: "The News".to_string(),
        url: "https://news.test/".to_string(),
    });
    state.add_window(SwayWindow {
        id: 3,
        app_id: String::new(),
        name: "The News – some editor".to_string(),
        class: "Editor".to_string(),
        focused: false,
    });
    assert_eq!(resolve_activated(&state, &BrowserTabRef { tab_id: 5, window_id: 2 }), None);
}

#[test]
fn focus_window_request_dispatches_a_focus_command() {
    let state = State::new();
    let msg = DesktopdMessage::CliRequest(CliRequest::FocusWindow { id: 11 });
    assert_eq!(
        bridge_step(&state, &msg, 0),
        BridgeAction::Dispatch { command: SwayCommand::Focus { con_id: 11 } }
    );
}

#[test]
fn unrelated_messages_are_ignored_by_the_bridge() {
    let state = State::new();
    let msg = DesktopdMessage::CliRequest(CliRequest::FocusTab(BrowserTabRef {
        tab_id: 1,
        window_id: 2,
    }));
    assert_eq!(bridge_step(&state, &msg, 0), BridgeAction::Ignore);
}

#[test]
fn close_event_removes_the_window() {
    let mut state = State::new();
    state.add_window(firefox_window(7, "gone"));
    let ev = WindowEvent { change: WindowChange::Close, container: leaf(7, "gone") };
    desktopd::bridge::handle_window_event(&mut state, &ev);
    assert!(state.clients().is_empty());
}

#[test]
fn focus_event_marks_the_window_focused() {
    let mut state = State::new();
    state.add_window(firefox_window(7, "old"));
    state.mark_focused(firefox_window(7, "old"));
    let ev = WindowEvent { change: WindowChange::Focus, container: leaf(8, "newly focused") };
    desktopd::bridge::handle_window_event(&mut state, &ev);
    let focused = state.get_focused();
    assert_eq!(focused.len(), 1);
    assert_eq!(focused[0].id, 8);
}

#[test]
fn title_event_upserts_the_window() {
    let mut state = State::new();
    state.add_window(firefox_window(8, "before"));
    let ev = WindowEvent { change: WindowChange::Title, container: leaf(8, "after") };
    desktopd::bridge::handle_window_event(&mut state, &ev);
    let items = state.clients();
    assert_eq!(items.len(), 1);
    match &items[0] {
        desktopd::message::DesktopdClient::Window { data } => assert_eq!(data.name, "after"),
        _ => panic!("expected a window entry"),
    }
}

use desktopd::browser::{BrowserResponse, BrowserTab, BrowserTabRef};
use desktopd::error::DesktopdError;
use desktopd::hub::{
    handle_browser_response, handle_cli_request, handle_desktopd_message, handle_init_message,
};
use desktopd::message::{BrowserRequest, CliRequest, ConnectionType, DesktopdMessage};
use desktopd::state::State;
use desktopd::sway::SwayWindow;
use futures::channel::mpsc::{unbounded, UnboundedReceiver};

fn tab(id: usize, window_id: usize, title: &str) -> BrowserTab {
    BrowserTab {
        id,
        window_id,
        title: title.to_string(),
        url: "https://example.test/".to_string(),
    }
}

fn drain(rx: &mut UnboundedReceiver<DesktopdMessage>) -> Vec<DesktopdMessage> {
    let mut out = Vec::new();
    while let Ok(Some(msg)) = rx.try_next() {
        out.push(msg);
    }
    out
}

#[test]
fn cli_connect_receives_exactly_one_client_list_first() {
    let mut state = State::new();
    state.add_window(SwayWindow {
        id: 4,
        app_id: String::new(),
        name: "a window".to_string(),
        class: "A".to_string(),
        focused: false,
    });
    let (tx, mut rx) = unbounded::<DesktopdMessage>();
    let r = handle_init_message(&mut state, 1, tx, DesktopdMessage::Connect(ConnectionType::Cli));
    assert!(r.is_ok());
    let got = drain(&mut rx);
    assert_eq!(got.len(), 1);
    match &got[0] {
        DesktopdMessage::ClientList { data } => assert_eq!(data.len(), 1),
        _ => panic!("the first message must be the client list"),
    }
}

#[test]
fn browser_connect_registers_without_messages() {
    let mut state = State::new();
    let (tx, mut rx) = unbounded::<DesktopdMessage>();
    let r = handle_init_message(
        &mut state,
        1,
        tx,
        DesktopdMessage::Connect(ConnectionType::Browser { id: "inst".to_string() }),
    );
    assert!(r.is_ok());
    assert!(drain(&mut rx).is_empty());
    assert_eq!(state.get_browser_connections().len(), 1);
}

#[test]
fn non_connect_first_message_is_a_protocol_violation() {
    let mut state = State::new();
    let (tx, _rx) = unbounded::<DesktopdMessage>();
    let r = handle_init_message(
        &mut state,
        1,
        tx,
        DesktopdMessage::CliRequest(CliRequest::FocusWindow { id: 3 }),
    );
    assert!(matches!(r, Err(DesktopdError::ConnectInitError)));
    assert!(state.get_browser_connections().is_empty());
    assert!(state.find_peer(1).is_none());
}

#[test]
fn focus_tab_reaches_every_browser_peer_and_no_cli_peer() {
    let mut state = State::new();
    let (sway_tx, mut sway_rx) = unbounded::<DesktopdMessage>();

    let (cli1_tx, mut cli1_rx) = unbounded::<DesktopdMessage>();
    let (cli2_tx, mut cli2_rx) = unbounded::<DesktopdMessage>();
    let (b1_tx, mut b1_rx) = unbounded::<DesktopdMessage>();
    let (b2_tx, mut b2_rx) = unbounded::<DesktopdMessage>();
    handle_init_message(&mut state, 1, cli1_tx, DesktopdMessage::Connect(ConnectionType::Cli))
        .unwrap();
    handle_init_message(&mut state, 2, cli2_tx, DesktopdMessage::Connect(ConnectionType::Cli))
        .unwrap();
    handle_init_message(
        &mut state,
        3,
        b1_tx,
        DesktopdMessage::Connect(ConnectionType::Browser { id: "one".to_string() }),
    )
    .unwrap();
    handle_init_message(
        &mut state,
        4,
        b2_tx,
        DesktopdMessage::Connect(ConnectionType::Browser { id: "two".to_string() }),
    )
    .unwrap();
    // both CLI peers got their snapshot on connect; drop those
    drain(&mut cli1_rx);
    drain(&mut cli2_rx);

    let req = CliRequest::FocusTab(BrowserTabRef { tab_id: 5, window_id: 2 });
    let routed = handle_cli_request(&mut state, &sway_tx, req);
    assert!(routed.removed.is_empty());

    for rx in [&mut b1_rx, &mut b2_rx] {
        let got = drain(rx);
        assert_eq!(got.len(), 1);
        assert!(matches!(
            got[0],
            DesktopdMessage::CliRequest(CliRequest::FocusTab(BrowserTabRef {
                tab_id: 5,
                window_id: 2,
            }))
        ));
    }
    assert!(drain(&mut cli1_rx).is_empty());
    assert!(drain(&mut cli2_rx).is_empty());
    assert!(drain(&mut sway_rx).is_empty());
}

#[test]
fn failed_browser_channel_is_dropped_without_aborting_broadcast() {
    let mut state = State::new();
    let (sway_tx, _sway_rx) = unbounded::<DesktopdMessage>();
    let (b1_tx, b1_rx) = unbounded::<DesktopdMessage>();
    let (b2_tx, mut b2_rx) = unbounded::<DesktopdMessage>();
    state.add_peer(ConnectionType::Browser { id: "one".to_string() }, 3, b1_tx);
    state.add_peer(ConnectionType::Browser { id: "two".to_string() }, 4, b2_tx);
    drop(b1_rx);

    let req = CliRequest::FocusTab(BrowserTabRef { tab_id: 5, window_id: 2 });
    let routed = handle_cli_request(&mut state, &sway_tx, req);
    assert_eq!(routed.removed, vec![3]);
    assert_eq!(drain(&mut b2_rx).len(), 1);

    let conns = state.get_browser_connections();
    assert_eq!(conns.len(), 1);
    assert_eq!(conns[0].0, 4);
}

#[test]
fn focus_window_is_forwarded_to_the_bridge_channel() {
    let mut state = State::new();
    let (sway_tx, mut sway_rx) = unbounded::<DesktopdMessage>();
    let routed = handle_cli_request(&mut state, &sway_tx, CliRequest::FocusWindow { id: 42 });
    assert!(routed.forwarded);
    assert!(routed.removed.is_empty());
    let got = drain(&mut sway_rx);
    assert_eq!(got.len(), 1);
    assert!(matches!(got[0], DesktopdMessage::CliRequest(CliRequest::FocusWindow { id: 42 })));
}

#[test]
fn browser_init_event_adds_all_tabs() {
    let mut state = State::new();
    let (sway_tx, _sway_rx) = unbounded::<DesktopdMessage>();
    let forwarded = handle_browser_response(
        &mut state,
        &sway_tx,
        BrowserResponse::Init { data: vec![tab(1, 2, "one"), tab(2, 2, "two")] },
    );
    assert!(forwarded);
    assert!(state.find_tab(&BrowserTabRef { tab_id: 1, window_id: 2 }).is_some());
    assert!(state.find_tab(&BrowserTabRef { tab_id: 2, window_id: 2 }).is_some());
}

#[test]
fn browser_updated_event_upserts_one_tab() {
    let mut state = State::new();
    let (sway_tx, _sway_rx) = unbounded::<DesktopdMessage>();
    handle_browser_response(&mut state, &sway_tx, BrowserResponse::Updated {
        data: tab(1, 2, "old"),
    });
    handle_browser_response(&mut state, &sway_tx, BrowserResponse::Updated {
        data: tab(1, 2, "new"),
    });
    let found = state.find_tab(&BrowserTabRef { tab_id: 1, window_id: 2 }).unwrap();
    assert_eq!(found.title, "new");
}

#[test]
fn browser_removed_event_deletes_the_tab() {
    let mut state = State::new();
    let (sway_tx, _sway_rx) = unbounded::<DesktopdMessage>();
    handle_browser_response(&mut state, &sway_tx, BrowserResponse::Updated {
        data: tab(1, 2, "gone"),
    });
    handle_browser_response(
        &mut state,
        &sway_tx,
        BrowserResponse::Removed(BrowserTabRef { tab_id: 1, window_id: 2 }),
    );
    assert!(state.find_tab(&BrowserTabRef { tab_id: 1, window_id: 2 }).is_none());
}

#[test]
fn browser_activated_event_is_forwarded_to_the_bridge() {
    let mut state = State::new();
    let (sway_tx, mut sway_rx) = unbounded::<DesktopdMessage>();
    let forwarded = handle_browser_response(
        &mut state,
        &sway_tx,
        BrowserResponse::Activated(BrowserTabRef { tab_id: 5, window_id: 2 }),
    );
    assert!(forwarded);
    let got = drain(&mut sway_rx);
    assert_eq!(got.len(), 1);
    assert!(matches!(
        got[0],
        DesktopdMessage::BrowserMessage {
            data: BrowserResponse::Activated(BrowserTabRef { tab_id: 5, window_id: 2 }),
        }
    ));
}

#[test]
fn other_browser_events_are_accepted_without_state_change() {
    let mut state = State::new();
    let (sway_tx, mut sway_rx) = unbounded::<DesktopdMessage>();
    let forwarded = handle_browser_response(&mut state, &sway_tx, BrowserResponse::Moved {
        tab_id: 1,
        window_id: 2,
        from_index: 0,
        to_index: 1,
    });
    assert!(forwarded);
    assert!(state.clients().is_empty());
    assert!(drain(&mut sway_rx).is_empty());
}

#[test]
fn browser_request_is_broadcast_to_browser_peers() {
    let mut state = State::new();
    let (sway_tx, _sway_rx) = unbounded::<DesktopdMessage>();
    let (b_tx, mut b_rx) = unbounded::<DesktopdMessage>();
    state.add_peer(ConnectionType::Browser { id: "one".to_string() }, 3, b_tx);
    let msg =
        DesktopdMessage::BrowserRequest(BrowserRequest::FocusTab(BrowserTabRef {
            tab_id: 5,
            window_id: 2,
        }));
    let routed = handle_desktopd_message(&mut state, &sway_tx, msg);
    assert!(routed.removed.is_empty());
    let got = drain(&mut b_rx);
    assert_eq!(got.len(), 1);
    assert!(matches!(got[0], DesktopdMessage::BrowserRequest(BrowserRequest::FocusTab(_))));
}

#[test]
fn unrelated_messages_are_ignored_by_the_dispatcher() {
    let mut state = State::new();
    let (sway_tx, mut sway_rx) = unbounded::<DesktopdMessage>();
    let routed = handle_desktopd_message(
        &mut state,
        &sway_tx,
        DesktopdMessage::Disconnect(ConnectionType::Cli),
    );
    assert!(routed.removed.is_empty());
    assert!(drain(&mut sway_rx).is_empty());
    assert!(state.clients().is_empty());
}

#[test]
fn cli_connect_with_closed_channel_is_a_channel_error_but_registers() {
    let mut state = State::new();
    let (tx, rx) = unbounded::<DesktopdMessage>();
    drop(rx);
    let r = handle_init_message(&mut state, 1, tx, DesktopdMessage::Connect(ConnectionType::Cli));
    assert!(matches!(r, Err(DesktopdError::ChannelError)));
    // the peer stays registered: the snapshot failed, not the handshake
    assert!(state.find_peer(1).is_some());
}

//! The window-manager bridge: replaying manager window events into the
//! registry, turning focus requests into manager commands, and resolving a
//! browser tab activation to the window whose title already shows the tab —
//! retrying, up to a bound, while the manager's title lags behind.
use vstd::prelude::*;

use crate::browser::{BrowserResponse, BrowserTab, BrowserTabRef};
use crate::message::{CliRequest, DesktopdMessage};
use crate::state::{
    spec_add_window, spec_browser_windows, spec_find_tab, spec_mark_focused, spec_remove_window,
    State,
};
use crate::sway::{
    spec_collect_windows, spec_find_parent, NodeLayout, SwayNode, SwayWindow, WindowChange,
    WindowEvent, WindowModel,
};
use crate::text::{str_contains, str_eq, str_has_substring};

verus! {

/// How often an unresolvable tab activation is retried before it is
/// dropped.
pub const ACTIVATION_RETRY_LIMIT: u32 = 1000;

/// A command for the window manager.
#[derive(Clone, Copy, PartialEq, Eq, Structural, Debug)]
pub enum SwayCommand {
    Focus { con_id: usize },
    SplitVertical,
    SplitHorizontal,
}

/// What the bridge decides to do with one command-channel message.
#[derive(Clone, Copy, PartialEq, Eq, Structural, Debug)]
pub enum BridgeAction {
    Dispatch { command: SwayCommand },
    Defer { tab: BrowserTabRef, attempts: u32 },
    Discard,
    Ignore,
}

/// The window's title shows the tab's title — or the tab is a blank page
/// and the window carries the browser's default title.
pub open spec fn spec_tab_matches_window(w: WindowModel, t: BrowserTab) -> bool {
    str_has_substring(w.name, t.title@) || (t.url@ == "about:blank"@ && w.name == "Mozilla Firefox"@)
}

/// The id of the first window of `wins` whose title shows the tab.
pub open spec fn spec_activation_target(wins: Seq<SwayWindow>, t: BrowserTab) -> Option<usize>
    decreases wins.len(),
{
    if wins.len() == 0 {
        None
    } else if spec_tab_matches_window(wins.first()@, t) {
        Some(wins.first().id)
    } else {
        spec_activation_target(wins.drop_first(), t)
    }
}

/// The window an activation of this tab should focus: the first
/// Browser-classified window whose title shows the tab's title, if the tab
/// is known at all.
pub open spec fn spec_resolve_activated(s: State, tab_ref: BrowserTabRef) -> Option<usize> {
    match spec_find_tab(s.tabs(), tab_ref.key()) {
        None => None,
        Some(t) => spec_activation_target(spec_browser_windows(s.windows()), t),
    }
}

/// Resolve a tab activation against the registry.
pub fn resolve_activated(state: &State, tab_ref: &BrowserTabRef) -> (r: Option<usize>)
    ensures
        r == spec_resolve_activated(*state, *tab_ref),
{
    let tab = match state.find_tab(tab_ref) {
        Some(t) => t.clone(),
        None => {
            return None;
        },
    };
    let wins = state.get_browser_windows();
    let ghost all = wins@;
    let mut i: usize = 0;
    proof {
        assert(all.skip(0) =~= all);
    }
    while i < wins.len()
        invariant
            0 <= i <= all.len(),
            all == wins@,
            spec_find_tab(state.tabs(), tab_ref.key()) == Some(tab),
            all == spec_browser_windows(state.windows()),
            spec_activation_target(all, tab) == spec_activation_target(all.skip(i as int), tab),
        decreases all.len() - i,
    {
        let ghost rest = all.skip(i as int);
        proof {
            assert(rest.first() == all[i as int]);
            assert(rest.drop_first() =~= all.skip(i as int + 1));
        }
        let w = &wins[i];
        if str_contains(w.name.as_str(), tab.title.as_str()) || (str_eq(
            tab.url.as_str(),
            "about:blank",
        ) && str_eq(w.name.as_str(), "Mozilla Firefox")) {
            return Some(w.id);
        }
        i = i + 1;
    }
    proof {
        assert(all.skip(all.len() as int) =~= Seq::<SwayWindow>::empty());
    }
    None
}

/// Decide what to do with one command-channel message. A window focus
/// request is dispatched as a focus command. A tab activation is dispatched
/// as a focus command on the window it resolves to; while it resolves to
/// nothing it is deferred for another try, until the retry bound is spent
/// and it is discarded. Anything else is ignored.
pub fn bridge_step(state: &State, msg: &DesktopdMessage, attempts: u32) -> (r: BridgeAction)
    ensures
        (match *msg {
            DesktopdMessage::CliRequest(CliRequest::FocusWindow { id }) => r
                == (BridgeAction::Dispatch { command: SwayCommand::Focus { con_id: id } }),
            DesktopdMessage::BrowserMessage {
                data: BrowserResponse::Activated(tab_ref),
            } => (match spec_resolve_activated(*state, tab_ref) {
                Some(id) => r == (BridgeAction::Dispatch {
                    command: SwayCommand::Focus { con_id: id },
                }),
                None => if attempts + 1 < ACTIVATION_RETRY_LIMIT {
                    r == (BridgeAction::Defer { tab: tab_ref, attempts: (attempts + 1) as u32 })
                } else {
                    r == BridgeAction::Discard
                },
            }),
            _ => r == BridgeAction::Ignore,
        }),
{
    match msg {
        DesktopdMessage::CliRequest(CliRequest::FocusWindow { id }) => BridgeAction::Dispatch {
            command: SwayCommand::Focus { con_id: *id },
        },
        DesktopdMessage::BrowserMessage { data: BrowserResponse::Activated(tab_ref) } => {
            match resolve_activated(state, tab_ref) {
                Some(id) => BridgeAction::Dispatch { command: SwayCommand::Focus { con_id: id } },
                None => {
                    if attempts < ACTIVATION_RETRY_LIMIT - 1 {
                        BridgeAction::Defer { tab: *tab_ref, attempts: attempts + 1 }
                    } else {
                        BridgeAction::Discard
                    }
                },
            }
        },
        _ => BridgeAction::Ignore,
    }
}

/// A freshly focused container should be split when it is a plain tiled
/// window: not floating, not fullscreen, and not inside a stacked or
/// tabbed parent.
pub open spec fn spec_should_split(con: SwayNode, parent: SwayNode) -> bool {
    !con.floating && !con.fullscreen && !(parent.layout is Stacked) && !(parent.layout is Tabbed)
}

/// The split command for a freshly focused container: split along the
/// container's longer edge, if its parent's layout calls for a split at
/// all. A container with no parent in the tree gets none.
pub open spec fn spec_split_command(tree: SwayNode, con: SwayNode) -> Option<SwayCommand> {
    match spec_find_parent(tree, con.id) {
        None => None,
        Some(parent) => if spec_should_split(con, parent) {
            if con.height > con.width {
                Some(SwayCommand::SplitVertical)
            } else {
                Some(SwayCommand::SplitHorizontal)
            }
        } else {
            None
        },
    }
}

/// Decide whether focusing `con` should also issue a layout split.
pub fn split_decision(tree: &SwayNode, con: &SwayNode) -> (r: Option<SwayCommand>)
    ensures
        r == spec_split_command(*tree, *con),
{
    let parent = match crate::sway::find_parent(con, tree) {
        Some(p) => p,
        None => {
            return None;
        },
    };
    let stacked_or_tabbed = match parent.layout {
        NodeLayout::Stacked => true,
        NodeLayout::Tabbed => true,
        _ => false,
    };
    if !con.floating && !con.fullscreen && !stacked_or_tabbed {
        if con.height > con.width {
            Some(SwayCommand::SplitVertical)
        } else {
            Some(SwayCommand::SplitHorizontal)
        }
    } else {
        None
    }
}

/// Upserting a run of windows, in order.
pub open spec fn spec_add_windows(s: Seq<SwayWindow>, ws: Seq<SwayWindow>) -> Seq<SwayWindow>
    decreases ws.len(),
{
    if ws.len() == 0 {
        s
    } else {
        spec_add_windows(spec_add_window(s, ws.first()), ws.drop_first())
    }
}

/// Marking a run of windows focused, in order; each marking clears every
/// earlier focus, so only the last window of the run ends up focused.
pub open spec fn spec_mark_all_focused(s: Seq<SwayWindow>, ws: Seq<SwayWindow>) -> Seq<SwayWindow>
    decreases ws.len(),
{
    if ws.len() == 0 {
        s
    } else {
        spec_mark_all_focused(spec_mark_focused(s, ws.first()), ws.drop_first())
    }
}

/// Apply one manager window event, given the windows collected from the
/// event's subtree: a close removes the container's window, a focus marks
/// the collected windows focused, and anything else upserts them.
pub fn apply_window_event(
    state: &mut State,
    change: WindowChange,
    container_id: usize,
    wins: Vec<SwayWindow>,
)
    requires
        old(state).wf(),
    ensures
        final(state).wf(),
        final(state).peers() == old(state).peers(),
        final(state).tabs() == old(state).tabs(),
        change is Close ==> final(state).windows() == spec_remove_window(
            old(state).windows(),
            container_id,
        ),
        change is Focus ==> final(state).windows() == spec_mark_all_focused(
            old(state).windows(),
            wins@,
        ),
        (!(change is Close) && !(change is Focus)) ==> final(state).windows() == spec_add_windows(
            old(state).windows(),
            wins@,
        ),
{
    let ghost all = wins@;
    match change {
        WindowChange::Close => {
            state.remove_window(&container_id);
        },
        WindowChange::Focus => {
            let mut i: usize = 0;
            proof {
                assert(all.skip(0) =~= all);
            }
            while i < wins.len()
                invariant
                    0 <= i <= all.len(),
                    all == wins@,
                    state.wf(),
                    state.peers() == old(state).peers(),
                    state.tabs() == old(state).tabs(),
                    spec_mark_all_focused(old(state).windows(), all) == spec_mark_all_focused(
                        state.windows(),
                        all.skip(i as int),
                    ),
                decreases all.len() - i,
            {
                let ghost rest = all.skip(i as int);
                proof {
                    assert(rest.first() == all[i as int]);
                    assert(rest.drop_first() =~= all.skip(i as int + 1));
                }
                let w = wins[i].clone();
                state.mark_focused(w);
                i = i + 1;
            }
            proof {
                assert(all.skip(all.len() as int) =~= Seq::<SwayWindow>::empty());
            }
        },
        _ => {
            let mut i: usize = 0;
            proof {
                assert(all.skip(0) =~= all);
            }
            while i < wins.len()
                invariant
                    0 <= i <= all.len(),
                    all == wins@,
                    state.wf(),
                    state.peers() == old(state).peers(),
                    state.tabs() == old(state).tabs(),
                    spec_add_windows(old(state).windows(), all) == spec_add_windows(
                        state.windows(),
                        all.skip(i as int),
                    ),
                decreases all.len() - i,
            {
                let ghost rest = all.skip(i as int);
                proof {
                    assert(rest.first() == all[i as int]);
                    assert(rest.drop_first() =~= all.skip(i as int + 1));
                }
                let w = wins[i].clone();
                state.add_window(w);
                i = i + 1;
            }
            proof {
                assert(all.skip(all.len() as int) =~= Seq::<SwayWindow>::empty());
            }
        },
    }
}

/// The window views of a run of windows.
pub open spec fn spec_window_views(ws: Seq<SwayWindow>) -> Seq<WindowModel> {
    ws.map_values(|w: SwayWindow| w@)
}

/// Replay one manager window event into the registry: collect the windows
/// of the event's subtree, then apply the event's change with them.
pub fn handle_window_event(state: &mut State, ev: &WindowEvent)
    requires
        old(state).wf(),
    ensures
        final(state).wf(),
        final(state).peers() == old(state).peers(),
        final(state).tabs() == old(state).tabs(),
        ev.change is Close ==> final(state).windows() == spec_remove_window(
            old(state).windows(),
            ev.container.id,
        ),
        !(ev.change is Close) ==> exists|ws: Seq<SwayWindow>|
            {
                &&& #[trigger] spec_window_views(ws) == spec_collect_windows(ev.container)
                &&& (ev.change is Focus ==> final(state).windows() == spec_mark_all_focused(
                    old(state).windows(),
                    ws,
                ))
                &&& (!(ev.change is Focus) ==> final(state).windows() == spec_add_windows(
                    old(state).windows(),
                    ws,
                ))
            },
{
    let wins = SwayWindow::collect_windows(&ev.container);
    let ghost ws = wins@;
    proof {
        assert(spec_window_views(ws) =~= wins.deep_view());
    }
    apply_window_event(state, ev.change, ev.container.id, wins);
}

} // verus!

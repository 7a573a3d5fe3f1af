//! The connection hub: classifying peers at their first message, mutating
//! the registry on browser events, and routing focus commands — window
//! focus to the bridge's command channel, tab focus to every Browser peer.
use vstd::prelude::*;

use crate::browser::{BrowserResponse, BrowserTab};
use crate::channel::{send_to, Tx};
use crate::error::DesktopdError;
use crate::message::{BrowserRequest, CliRequest, ConnectionType, DesktopdMessage};
use crate::state::{
    lemma_evict_peers_props, spec_add_peer, spec_add_tab, spec_browser_connections,
    spec_evict_peers, spec_evicts, spec_find_peer, spec_remove_peer, spec_remove_tab, wf_peers,
    Peer, State,
};

verus! {

/// Upserting a run of tabs, in order.
pub open spec fn spec_add_tabs(s: Seq<BrowserTab>, tabs: Seq<BrowserTab>) -> Seq<BrowserTab>
    decreases tabs.len(),
{
    if tabs.len() == 0 {
        s
    } else {
        spec_add_tabs(spec_add_tab(s, tabs.first()), tabs.drop_first())
    }
}

/// Removing a run of peers by address, in order.
pub open spec fn spec_remove_addrs(s: Seq<Peer>, addrs: Seq<u64>) -> Seq<Peer>
    decreases addrs.len(),
{
    if addrs.len() == 0 {
        s
    } else {
        spec_remove_addrs(spec_remove_peer(s, addrs.first()), addrs.drop_first())
    }
}

/// Removing one more address removes it from the accumulated result.
proof fn lemma_remove_addrs_push(s: Seq<Peer>, addrs: Seq<u64>, a: u64)
    ensures
        spec_remove_addrs(s, addrs.push(a)) == spec_remove_peer(spec_remove_addrs(s, addrs), a),
    decreases addrs.len(),
{
    if addrs.len() == 0 {
        assert(addrs.push(a).drop_first() =~= Seq::<u64>::empty());
        assert(spec_remove_addrs(spec_remove_peer(s, a), addrs.push(a).drop_first())
            == spec_remove_peer(s, a));
    } else {
        assert(addrs.push(a).first() == addrs.first());
        assert(addrs.push(a).drop_first() =~= addrs.drop_first().push(a));
        lemma_remove_addrs_push(spec_remove_peer(s, addrs.first()), addrs.drop_first(), a);
    }
}

/// A peer pushed onto a run of peers none of which hold its address is what
/// a lookup of that address finds.
proof fn lemma_find_peer_push(s: Seq<Peer>, p: Peer)
    requires
        forall|k: int| 0 <= k < s.len() ==> (#[trigger] s[k]).addr != p.addr,
    ensures
        spec_find_peer(s.push(p), p.addr) == Some(p),
    decreases s.len(),
{
    if s.len() == 0 {
        assert(s.push(p).first() == p);
    } else {
        assert(s.push(p).first() == s.first());
        assert(s.push(p).drop_first() =~= s.drop_first().push(p));
        lemma_find_peer_push(s.drop_first(), p);
    }
}

/// Under unique addresses, looking up a peer's own address finds it.
proof fn lemma_find_peer_at(s: Seq<Peer>, j: int)
    requires
        wf_peers(s),
        0 <= j < s.len(),
    ensures
        spec_find_peer(s, s[j].addr) == Some(s[j]),
    decreases j,
{
    if j == 0 {
        assert(s.first() == s[0]);
    } else {
        assert(s[0].addr != s[j].addr);
        assert(s.drop_first()[j - 1] == s[j]);
        lemma_find_peer_at(s.drop_first(), j - 1);
    }
}

/// A browser connection is the address and sender of some Browser peer.
proof fn lemma_browser_connection_mem(s: Seq<Peer>, k: int)
    requires
        0 <= k < spec_browser_connections(s).len(),
    ensures
        exists|j: int|
            #![trigger s[j]]
            0 <= j < s.len() && s[j].kind is Browser && spec_browser_connections(s)[k] == (
            s[j].addr,
            s[j].tx,
            ),
    decreases s.len(),
{
    if s.first().kind is Browser && k == 0 {
        assert(s[0].kind is Browser && spec_browser_connections(s)[0] == (s[0].addr, s[0].tx));
    } else {
        let k0: int = if s.first().kind is Browser {
            k - 1
        } else {
            k
        };
        lemma_browser_connection_mem(s.drop_first(), k0);
        let j0 = choose|j0: int|
            #![trigger s.drop_first()[j0]]
            0 <= j0 < s.drop_first().len() && s.drop_first()[j0].kind is Browser
                && spec_browser_connections(s.drop_first())[k0] == (
            s.drop_first()[j0].addr,
            s.drop_first()[j0].tx,
            );
        assert(s[j0 + 1] == s.drop_first()[j0]);
        assert(s[j0 + 1].kind is Browser && spec_browser_connections(s)[k] == (
            s[j0 + 1].addr,
            s[j0 + 1].tx,
        ));
    }
}

/// What handling a browser event leaves: only the tabs change, exactly as
/// the event says.
pub open spec fn spec_browser_response_post(pre: State, post: State, data: BrowserResponse) -> bool {
    &&& post.peers() == pre.peers()
    &&& post.windows() == pre.windows()
    &&& (match data {
        BrowserResponse::Init { data: tabs } => post.tabs() == spec_add_tabs(pre.tabs(), tabs@),
        BrowserResponse::Updated { data: tab } => post.tabs() == spec_add_tab(pre.tabs(), tab),
        BrowserResponse::Removed(r) => post.tabs() == spec_remove_tab(pre.tabs(), r.key()),
        _ => post.tabs() == pre.tabs(),
    })
}

/// What a broadcast to the Browser peers leaves: windows and tabs are
/// untouched, and exactly the peers whose channels failed — all of them
/// Browser peers — are dropped, their addresses returned.
pub open spec fn spec_broadcast_post(pre: State, post: State, removed: Seq<u64>) -> bool {
    &&& post.windows() == pre.windows()
    &&& post.tabs() == pre.tabs()
    &&& post.peers() == spec_remove_addrs(pre.peers(), removed)
    &&& forall|k: int|
        0 <= k < removed.len() ==> (spec_find_peer(pre.peers(), #[trigger] removed[k])
            matches Some(p) && p.kind is Browser)
}

/// What routing a CLI request leaves: a window focus changes nothing; a tab
/// focus is a broadcast to the Browser peers.
pub open spec fn spec_cli_request_post(
    pre: State,
    post: State,
    data: CliRequest,
    removed: Seq<u64>,
) -> bool {
    match data {
        CliRequest::FocusWindow { .. } => post == pre && removed == Seq::<u64>::empty(),
        CliRequest::FocusTab(..) => spec_broadcast_post(pre, post, removed),
    }
}

/// A tab focus command on its way to every Browser peer, kept in its
/// original framing.
enum FocusBroadcast {
    Cli(CliRequest),
    Browser(BrowserRequest),
}

/// Send a tab focus command to every Browser peer. A peer whose channel
/// fails is dropped from the registry and reported, without aborting the
/// broadcast to the others.
fn broadcast_focus(state: &mut State, req: FocusBroadcast) -> (failed: Vec<u64>)
    requires
        old(state).wf(),
    ensures
        final(state).wf(),
        spec_broadcast_post(*old(state), *final(state), failed@),
{
    let ghost orig = state.peers();
    let conns = state.get_browser_connections();
    let mut failed: Vec<u64> = Vec::new();
    let mut i: usize = 0;
    while i < conns.len()
        invariant
            0 <= i <= conns@.len(),
            state.wf(),
            *state == *old(state),
            orig == state.peers(),
            conns@ == spec_browser_connections(orig),
            forall|k: int|
                0 <= k < failed@.len() ==> (spec_find_peer(orig, #[trigger] failed@[k])
                    matches Some(p) && p.kind is Browser),
        decreases conns@.len() - i,
    {
        let target = &conns[i];
        let msg = match &req {
            FocusBroadcast::Cli(c) => DesktopdMessage::CliRequest(*c),
            FocusBroadcast::Browser(b) => DesktopdMessage::BrowserRequest(*b),
        };
        if !send_to(&target.1, msg) {
            proof {
                crate::state::lemma_wf_unique_addrs(*state);
                lemma_browser_connection_mem(orig, i as int);
                let j = choose|j: int|
                    #![trigger orig[j]]
                    0 <= j < orig.len() && orig[j].kind is Browser
                        && spec_browser_connections(orig)[i as int] == (
                    orig[j].addr,
                    orig[j].tx,
                    );
                lemma_find_peer_at(orig, j);
                assert(conns@[i as int] == spec_browser_connections(orig)[i as int]);
            }
            failed.push(target.0);
        }
        i = i + 1;
    }
    let mut k: usize = 0;
    proof {
        assert(failed@.take(0) =~= Seq::<u64>::empty());
    }
    while k < failed.len()
        invariant
            0 <= k <= failed@.len(),
            state.wf(),
            state.windows() == old(state).windows(),
            state.tabs() == old(state).tabs(),
            state.peers() == spec_remove_addrs(orig, failed@.take(k as int)),
            forall|m: int|
                0 <= m < failed@.len() ==> (spec_find_peer(orig, #[trigger] failed@[m])
                    matches Some(p) && p.kind is Browser),
        decreases failed@.len() - k,
    {
        let a = failed[k];
        state.remove_peer(a);
        proof {
            lemma_remove_addrs_push(orig, failed@.take(k as int), a);
            assert(failed@.take(k as int).push(a) =~= failed@.take(k as int + 1));
        }
        k = k + 1;
    }
    proof {
        assert(failed@.take(failed@.len() as int) =~= failed@);
    }
    failed
}

/// What the hub did with one routed message: the peers it dropped because
/// their channel failed, and whether a forward to the bridge was accepted.
pub struct Routed {
    pub removed: Vec<u64>,
    pub forwarded: bool,
}

/// Register a connecting peer. A Browser peer is registered outright; a CLI
/// peer is registered and then sent the directory snapshot, and the
/// handshake fails only if that snapshot cannot be queued.
pub fn handle_connect(state: &mut State, addr: u64, tx: Tx, kind: ConnectionType) -> (r: Result<
    (),
    DesktopdError,
>)
    requires
        old(state).wf(),
    ensures
        final(state).wf(),
        final(state).peers() == spec_add_peer(old(state).peers(), kind, addr, tx),
        final(state).windows() == old(state).windows(),
        final(state).tabs() == old(state).tabs(),
        kind is Browser ==> r == Ok::<(), DesktopdError>(()),
        kind is Cli ==> (r == Ok::<(), DesktopdError>(()) || r == Err::<(), DesktopdError>(
            DesktopdError::ChannelError,
        )),
{
    let is_cli = match &kind {
        ConnectionType::Browser { .. } => false,
        ConnectionType::Cli => true,
    };
    state.add_peer(kind, addr, tx);
    if !is_cli {
        return Ok(());
    }
    let items = state.clients();
    let snapshot = DesktopdMessage::ClientList { data: items };
    proof {
        lemma_evict_peers_props(old(state).peers(), kind, addr);
        assert forall|k: int|
            0 <= k < spec_add_peer(old(state).peers(), kind, addr, tx).len() - 1 implies (
        #[trigger] spec_add_peer(old(state).peers(), kind, addr, tx)[k]).addr != addr by {
            let body = spec_evict_peers(old(state).peers(), kind, addr);
            assert(spec_add_peer(old(state).peers(), kind, addr, tx)[k] == body[k]);
            assert(!spec_evicts(kind, addr, body[k]));
        }
        let body = spec_evict_peers(old(state).peers(), kind, addr);
        lemma_find_peer_push(body, Peer { addr, kind, tx });
    }
    match state.find_peer(addr) {
        Some(peer) => {
            if send_to(&peer, snapshot) {
                Ok(())
            } else {
                Err(DesktopdError::ChannelError)
            }
        },
        None => {
            // unreachable: the peer was registered just above, and the
            // lookup contract finds it
            Err(DesktopdError::ConnectInitError)
        },
    }
}

/// Classify a connection's first message. Anything but `Connect` is a
/// protocol violation: the registry is untouched and the handshake fails.
pub fn handle_init_message(state: &mut State, addr: u64, tx: Tx, msg: DesktopdMessage) -> (r:
    Result<(), DesktopdError>)
    requires
        old(state).wf(),
    ensures
        final(state).wf(),
        final(state).windows() == old(state).windows(),
        final(state).tabs() == old(state).tabs(),
        (match msg {
            DesktopdMessage::Connect(kind) => {
                &&& final(state).peers() == spec_add_peer(old(state).peers(), kind, addr, tx)
                &&& (kind is Browser ==> r == Ok::<(), DesktopdError>(()))
                &&& (kind is Cli ==> (r == Ok::<(), DesktopdError>(()) || r == Err::<
                    (),
                    DesktopdError,
                >(DesktopdError::ChannelError)))
            },
            _ => final(state).peers() == old(state).peers() && r == Err::<(), DesktopdError>(
                DesktopdError::ConnectInitError,
            ),
        }),
{
    match msg {
        DesktopdMessage::Connect(kind) => handle_connect(state, addr, tx, kind),
        _ => Err(DesktopdError::ConnectInitError),
    }
}

/// Apply one browser event to the registry: `Init` upserts every reported
/// tab, `Updated` upserts one, `Removed` deletes one, `Activated` is
/// forwarded to the bridge's command channel, and anything else is accepted
/// without a state change. Returns whether a forward was accepted; only an
/// `Activated` forward can fail.
pub fn handle_browser_response(state: &mut State, sway_tx: &Tx, data: BrowserResponse) -> (
    forwarded: bool)
    requires
        old(state).wf(),
    ensures
        final(state).wf(),
        spec_browser_response_post(*old(state), *final(state), data),
        !(data is Activated) ==> forwarded,
{
    match data {
        BrowserResponse::Init { data: tabs } => {
            let ghost orig = state.tabs();
            let ghost all = tabs@;
            let mut i: usize = 0;
            proof {
                assert(all.skip(0) =~= all);
            }
            while i < tabs.len()
                invariant
                    0 <= i <= all.len(),
                    all == tabs@,
                    state.wf(),
                    spec_add_tabs(orig, all) == spec_add_tabs(state.tabs(), all.skip(i as int)),
                    state.peers() == old(state).peers(),
                    state.windows() == old(state).windows(),
                decreases all.len() - i,
            {
                let ghost rest = all.skip(i as int);
                proof {
                    assert(rest.first() == all[i as int]);
                    assert(rest.drop_first() =~= all.skip(i as int + 1));
                }
                let tab = tabs[i].clone();
                state.add_tab(tab);
                i = i + 1;
            }
            proof {
                assert(all.skip(all.len() as int) =~= Seq::<BrowserTab>::empty());
            }
            true
        },
        BrowserResponse::Updated { data: tab } => {
            state.add_tab(tab);
            true
        },
        BrowserResponse::Removed(tab) => {
            state.remove_tab(tab);
            true
        },
        BrowserResponse::Activated(tab_ref) => {
            send_to(
                sway_tx,
                DesktopdMessage::BrowserMessage { data: BrowserResponse::Activated(tab_ref) },
            )
        },
        _ => true,
    }
}

/// Route one CLI request: a window focus goes to the bridge's command
/// channel; a tab focus is broadcast to every Browser peer, and each peer
/// whose channel fails is dropped from the registry, without aborting the
/// broadcast. Returns the dropped addresses and whether a bridge forward
/// was accepted.
pub fn handle_cli_request(state: &mut State, sway_tx: &Tx, data: CliRequest) -> (r: Routed)
    requires
        old(state).wf(),
    ensures
        final(state).wf(),
        spec_cli_request_post(*old(state), *final(state), data, r.removed@),
        !(data is FocusWindow) ==> r.forwarded,
{
    match data {
        CliRequest::FocusWindow { .. } => {
            let forwarded = send_to(sway_tx, DesktopdMessage::CliRequest(data));
            Routed { removed: Vec::new(), forwarded }
        },
        CliRequest::FocusTab(..) => {
            let failed = broadcast_focus(state, FocusBroadcast::Cli(data));
            Routed { removed: failed, forwarded: true }
        },
    }
}

/// Dispatch one message from an Active peer: CLI requests are routed,
/// browser events are applied, anything else is accepted without effect.
pub fn handle_desktopd_message(state: &mut State, sway_tx: &Tx, msg: DesktopdMessage) -> (r: Routed)
    requires
        old(state).wf(),
    ensures
        final(state).wf(),
        (match msg {
            DesktopdMessage::CliRequest(data) => spec_cli_request_post(
                *old(state),
                *final(state),
                data,
                r.removed@,
            ),
            DesktopdMessage::BrowserRequest(..) => spec_broadcast_post(
                *old(state),
                *final(state),
                r.removed@,
            ),
            DesktopdMessage::BrowserMessage { data } => spec_browser_response_post(
                *old(state),
                *final(state),
                data,
            ) && r.removed@ == Seq::<u64>::empty(),
            _ => *final(state) == *old(state) && r.removed@ == Seq::<u64>::empty(),
        }),
{
    match msg {
        DesktopdMessage::CliRequest(data) => handle_cli_request(state, sway_tx, data),
        DesktopdMessage::BrowserRequest(req) => {
            let failed = broadcast_focus(state, FocusBroadcast::Browser(req));
            Routed { removed: failed, forwarded: true }
        },
        DesktopdMessage::BrowserMessage { data } => {
            let forwarded = handle_browser_response(state, sway_tx, data);
            Routed { removed: Vec::new(), forwarded }
        },
        _ => Routed { removed: Vec::new(), forwarded: true },
    }
}

} // verus!

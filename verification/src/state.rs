//! The Directory: the authoritative in-memory registry of peers, windows and
//! browser tabs. Every mutation goes through a method of `State`, and each
//! method's contract states the new registry contents as a function of the
//! old ones, over the spec functions defined here.
use vstd::prelude::*;

use crate::browser::{BrowserTab, BrowserTabRef};
use crate::channel::{clone_tx, Tx};
use crate::message::{spec_kind_eq, ConnectionType, DesktopdClient};
use crate::sway::SwayWindow;
use crate::text::{str_contains, str_has_substring};

verus! {

/// A window id assigned by the window manager.
pub type WindowId = usize;

/// A tab id assigned by the browser.
pub type TabId = usize;

/// A registered peer: its transport address token, its classification, and
/// the sending half of its outbound channel.
pub struct Peer {
    pub addr: u64,
    pub kind: ConnectionType,
    pub tx: Tx,
}

/// The registry. Addresses, window ids and tab keys are each unique within
/// their namespace; `wf` states that and every method preserves it.
pub struct State {
    peers: Vec<Peer>,
    windows: Vec<SwayWindow>,
    tabs: Vec<BrowserTab>,
}

// ---------------------------------------------------------------------------
// The windows model: sequences of windows, keyed by window id.
// ---------------------------------------------------------------------------
/// No two windows share an id.
pub open spec fn wf_windows(s: Seq<SwayWindow>) -> bool {
    forall|i: int, j: int| 0 <= i < j < s.len() ==> s[i].id != s[j].id
}

/// `s` without every window of the given id.
pub open spec fn spec_remove_window(s: Seq<SwayWindow>, id: usize) -> Seq<SwayWindow>
    decreases s.len(),
{
    if s.len() == 0 {
        Seq::empty()
    } else if s.first().id == id {
        spec_remove_window(s.drop_first(), id)
    } else {
        seq![s.first()] + spec_remove_window(s.drop_first(), id)
    }
}

/// Upserting a window: drop any window with its id, then append it.
pub open spec fn spec_add_window(s: Seq<SwayWindow>, win: SwayWindow) -> Seq<SwayWindow> {
    spec_remove_window(s, win.id).push(win)
}

/// The windows of `s` that are focused, in order.
pub open spec fn spec_focused(s: Seq<SwayWindow>) -> Seq<SwayWindow>
    decreases s.len(),
{
    if s.len() == 0 {
        Seq::empty()
    } else if s.first().focused {
        seq![s.first()] + spec_focused(s.drop_first())
    } else {
        spec_focused(s.drop_first())
    }
}

/// The windows of `s` that are not focused, in order.
pub open spec fn spec_unfocused(s: Seq<SwayWindow>) -> Seq<SwayWindow>
    decreases s.len(),
{
    if s.len() == 0 {
        Seq::empty()
    } else if s.first().focused {
        spec_unfocused(s.drop_first())
    } else {
        seq![s.first()] + spec_unfocused(s.drop_first())
    }
}

/// Every window of `s`, with its focused flag cleared.
pub open spec fn spec_unfocus_all(s: Seq<SwayWindow>) -> Seq<SwayWindow>
    decreases s.len(),
{
    if s.len() == 0 {
        Seq::empty()
    } else {
        seq![SwayWindow { focused: false, ..s.first() }] + spec_unfocus_all(s.drop_first())
    }
}

/// Marking a window focused: clear every focused flag, then upsert the
/// window with its flag set.
pub open spec fn spec_mark_focused(s: Seq<SwayWindow>, win: SwayWindow) -> Seq<SwayWindow> {
    spec_add_window(spec_unfocus_all(s), SwayWindow { focused: true, ..win })
}

/// The Browser-classified windows of `s`, in order.
pub open spec fn spec_browser_windows(s: Seq<SwayWindow>) -> Seq<SwayWindow>
    decreases s.len(),
{
    if s.len() == 0 {
        Seq::empty()
    } else if s.first().spec_is_browser() {
        seq![s.first()] + spec_browser_windows(s.drop_first())
    } else {
        spec_browser_windows(s.drop_first())
    }
}

/// What `spec_remove_window` leaves: only windows of other ids, all drawn
/// from `s`, and id-uniqueness survives.
pub proof fn lemma_remove_window_props(s: Seq<SwayWindow>, id: usize)
    ensures
        forall|k: int|
            0 <= k < spec_remove_window(s, id).len() ==> (#[trigger] spec_remove_window(s, id)[k]).id
                != id,
        forall|k: int|
            0 <= k < spec_remove_window(s, id).len() ==> exists|j: int|
                0 <= j < s.len() && #[trigger] spec_remove_window(s, id)[k] == s[j],
        wf_windows(s) ==> wf_windows(spec_remove_window(s, id)),
    decreases s.len(),
{
    if s.len() > 0 {
        lemma_remove_window_props(s.drop_first(), id);
        let rec = spec_remove_window(s.drop_first(), id);
        assert forall|k: int| #![trigger rec[k]] 0 <= k < rec.len() implies exists|j: int|
            0 <= j < s.len() && rec[k] == #[trigger] s[j] by {
            let j0 = choose|j0: int| 0 <= j0 < s.drop_first().len() && rec[k] == s.drop_first()[j0];
            assert(rec[k] == s[j0 + 1]);
        }
        if s.first().id != id {
            let res = seq![s.first()] + rec;
            assert(res[0] == s[0]);
            assert forall|k: int| #![trigger res[k]] 0 <= k < res.len() implies exists|j: int|
                0 <= j < s.len() && res[k] == #[trigger] s[j] by {
                if k == 0 {
                    assert(res[0] == s[0]);
                } else {
                    assert(res[k] == rec[k - 1]);
                }
            }
            if wf_windows(s) {
                assert forall|i: int, j: int| 0 <= i < j < res.len() implies res[i].id
                    != res[j].id by {
                    if i == 0 {
                        let j0 = choose|j0: int|
                            0 <= j0 < s.drop_first().len() && rec[j - 1] == s.drop_first()[j0];
                        assert(res[j] == s[j0 + 1]);
                        assert(s[0].id != s[j0 + 1].id);
                    }
                }
            }
        }
    }
}

/// Clearing focus keeps every window in place, with only the flag changed.
pub proof fn lemma_unfocus_all_props(s: Seq<SwayWindow>)
    ensures
        spec_unfocus_all(s).len() == s.len(),
        forall|k: int|
            0 <= k < s.len() ==> #[trigger] spec_unfocus_all(s)[k] == (SwayWindow {
                focused: false,
                ..s[k]
            }),
    decreases s.len(),
{
    if s.len() > 0 {
        lemma_unfocus_all_props(s.drop_first());
        assert forall|k: int| 0 <= k < s.len() implies #[trigger] spec_unfocus_all(s)[k]
            == (SwayWindow { focused: false, ..s[k] }) by {
            if k > 0 {
                assert(spec_unfocus_all(s)[k] == spec_unfocus_all(s.drop_first())[k - 1]);
                assert(s.drop_first()[k - 1] == s[k]);
            }
        }
    }
}

/// A well-formed registry has unique peer addresses.
pub proof fn lemma_wf_unique_addrs(s: State)
    requires
        s.wf(),
    ensures
        wf_peers(s.peers()),
{
}

impl State {
    /// The registered peers, in registration order.
    pub closed spec fn peers(self) -> Seq<Peer> {
        self.peers@
    }

    /// The tracked windows.
    pub closed spec fn windows(self) -> Seq<SwayWindow> {
        self.windows@
    }

    /// The tracked tabs.
    pub closed spec fn tabs(self) -> Seq<BrowserTab> {
        self.tabs@
    }

    /// Ids are unique within each namespace.
    pub closed spec fn wf(self) -> bool {
        &&& wf_peers(self.peers@)
        &&& wf_windows(self.windows@)
        &&& wf_tabs(self.tabs@)
    }

    /// An empty registry.
    pub fn new() -> (s: State)
        ensures
            s.wf(),
            s.peers() == Seq::<Peer>::empty(),
            s.windows() == Seq::<SwayWindow>::empty(),
            s.tabs() == Seq::<BrowserTab>::empty(),
    {
        State { peers: Vec::new(), windows: Vec::new(), tabs: Vec::new() }
    }

    /// Insert or replace the window with this id.
    pub fn add_window(&mut self, win: SwayWindow)
        requires
            old(self).wf(),
        ensures
            final(self).wf(),
            final(self).windows() == spec_add_window(old(self).windows(), win),
            final(self).peers() == old(self).peers(),
            final(self).tabs() == old(self).tabs(),
    {
        let id = win.id;
        self.remove_window(&id);
        proof {
            lemma_remove_window_props(old(self).windows@, id);
        }
        self.windows.push(win);
    }

    /// Drop the window with this id, if any.
    pub fn remove_window(&mut self, id: &WindowId)
        requires
            old(self).wf(),
        ensures
            final(self).wf(),
            final(self).windows() == spec_remove_window(old(self).windows(), *id),
            final(self).peers() == old(self).peers(),
            final(self).tabs() == old(self).tabs(),
    {
        let ghost orig = self.windows@;
        let ghost peers0 = self.peers@;
        let ghost tabs0 = self.tabs@;
        let mut kept: Vec<SwayWindow> = Vec::new();
        proof {
            assert(kept@ + spec_remove_window(orig, *id) =~= spec_remove_window(orig, *id));
        }
        while self.windows.len() > 0
            invariant
                spec_remove_window(orig, *id) == kept@ + spec_remove_window(self.windows@, *id),
                self.peers@ == peers0,
                self.tabs@ == tabs0,
            decreases self.windows@.len(),
        {
            let ghost before = self.windows@;
            let w = self.windows.remove(0);
            proof {
                assert(w == before.first());
                assert(self.windows@ =~= before.drop_first());
                if w.id != *id {
                    assert(kept@.push(w) + spec_remove_window(self.windows@, *id) =~= kept@
                        + spec_remove_window(before, *id));
                }
            }
            if w.id != *id {
                kept.push(w);
            }
        }
        proof {
            assert(kept@ + spec_remove_window(self.windows@, *id) =~= kept@);
        }
        self.windows = kept;
        proof {
            lemma_remove_window_props(orig, *id);
        }
    }

    /// Mark this window as the focused one: clear every focused flag, then
    /// insert the window with its flag set.
    pub fn mark_focused(&mut self, win: SwayWindow)
        requires
            old(self).wf(),
        ensures
            final(self).wf(),
            final(self).windows() == spec_mark_focused(old(self).windows(), win),
            final(self).peers() == old(self).peers(),
            final(self).tabs() == old(self).tabs(),
    {
        let ghost orig = self.windows@;
        let ghost peers0 = self.peers@;
        let ghost tabs0 = self.tabs@;
        let mut kept: Vec<SwayWindow> = Vec::new();
        proof {
            assert(kept@ + spec_unfocus_all(orig) =~= spec_unfocus_all(orig));
        }
        while self.windows.len() > 0
            invariant
                spec_unfocus_all(orig) == kept@ + spec_unfocus_all(self.windows@),
                self.peers@ == peers0,
                self.tabs@ == tabs0,
            decreases self.windows@.len(),
        {
            let ghost before = self.windows@;
            let w = self.windows.remove(0);
            proof {
                assert(w == before.first());
                assert(self.windows@ =~= before.drop_first());
                assert(kept@.push(SwayWindow { focused: false, ..w }) + spec_unfocus_all(
                    self.windows@,
                ) =~= kept@ + spec_unfocus_all(before));
            }
            let cleared = SwayWindow {
                id: w.id,
                app_id: w.app_id,
                name: w.name,
                class: w.class,
                focused: false,
            };
            kept.push(cleared);
        }
        proof {
            assert(kept@ + spec_unfocus_all(self.windows@) =~= kept@);
        }
        self.windows = kept;
        proof {
            lemma_unfocus_all_props(orig);
        }
        let focused = SwayWindow {
            id: win.id,
            app_id: win.app_id,
            name: win.name,
            class: win.class,
            focused: true,
        };
        self.add_window(focused);
    }

    /// A point-in-time copy of the focused windows.
    pub fn get_focused(&self) -> (r: Vec<SwayWindow>)
        ensures
            r@ == spec_focused(self.windows()),
    {
        let ghost orig = self.windows@;
        let mut r: Vec<SwayWindow> = Vec::new();
        let mut i: usize = 0;
        proof {
            assert(orig.skip(0) =~= orig);
            assert(r@ + spec_focused(orig) =~= spec_focused(orig));
        }
        while i < self.windows.len()
            invariant
                0 <= i <= self.windows@.len(),
                orig == self.windows@,
                spec_focused(orig) == r@ + spec_focused(orig.skip(i as int)),
            decreases self.windows@.len() - i,
        {
            let ghost rest = orig.skip(i as int);
            proof {
                assert(rest.first() == orig[i as int]);
                assert(rest.drop_first() =~= orig.skip(i as int + 1));
            }
            let w = &self.windows[i];
            if w.focused {
                let c = w.clone();
                proof {
                    assert(r@.push(c) + spec_focused(orig.skip(i as int + 1)) =~= r@
                        + spec_focused(rest));
                }
                r.push(c);
            }
            i = i + 1;
        }
        proof {
            assert(orig.skip(orig.len() as int) =~= Seq::<SwayWindow>::empty());
            assert(r@ + spec_focused(orig.skip(orig.len() as int)) =~= r@);
        }
        r
    }

    /// A point-in-time copy of the Browser-classified windows.
    pub fn get_browser_windows(&self) -> (r: Vec<SwayWindow>)
        ensures
            r@ == spec_browser_windows(self.windows()),
    {
        let ghost orig = self.windows@;
        let mut r: Vec<SwayWindow> = Vec::new();
        let mut i: usize = 0;
        proof {
            assert(orig.skip(0) =~= orig);
            assert(r@ + spec_browser_windows(orig) =~= spec_browser_windows(orig));
        }
        while i < self.windows.len()
            invariant
                0 <= i <= self.windows@.len(),
                orig == self.windows@,
                spec_browser_windows(orig) == r@ + spec_browser_windows(orig.skip(i as int)),
            decreases self.windows@.len() - i,
        {
            let ghost rest = orig.skip(i as int);
            proof {
                assert(rest.first() == orig[i as int]);
                assert(rest.drop_first() =~= orig.skip(i as int + 1));
            }
            let w = &self.windows[i];
            if w.is_browser() {
                let c = w.clone();
                proof {
                    assert(r@.push(c) + spec_browser_windows(orig.skip(i as int + 1)) =~= r@
                        + spec_browser_windows(rest));
                }
                r.push(c);
            }
            i = i + 1;
        }
        proof {
            assert(orig.skip(orig.len() as int) =~= Seq::<SwayWindow>::empty());
            assert(r@ + spec_browser_windows(orig.skip(orig.len() as int)) =~= r@);
        }
        r
    }

    /// Remove every focused window, returning them.
    pub fn remove_focused(&mut self) -> (r: Vec<SwayWindow>)
        requires
            old(self).wf(),
        ensures
            final(self).wf(),
            final(self).windows() == spec_unfocused(old(self).windows()),
            r@ == spec_focused(old(self).windows()),
            final(self).peers() == old(self).peers(),
            final(self).tabs() == old(self).tabs(),
    {
        let ghost orig = self.windows@;
        let ghost peers0 = self.peers@;
        let ghost tabs0 = self.tabs@;
        let mut kept: Vec<SwayWindow> = Vec::new();
        let mut out: Vec<SwayWindow> = Vec::new();
        proof {
            assert(kept@ + spec_unfocused(orig) =~= spec_unfocused(orig));
            assert(out@ + spec_focused(orig) =~= spec_focused(orig));
        }
        while self.windows.len() > 0
            invariant
                spec_unfocused(orig) == kept@ + spec_unfocused(self.windows@),
                spec_focused(orig) == out@ + spec_focused(self.windows@),
                self.peers@ == peers0,
                self.tabs@ == tabs0,
            decreases self.windows@.len(),
        {
            let ghost before = self.windows@;
            let w = self.windows.remove(0);
            proof {
                assert(w == before.first());
                assert(self.windows@ =~= before.drop_first());
                if w.focused {
                    assert(out@.push(w) + spec_focused(self.windows@) =~= out@
                        + spec_focused(before));
                } else {
                    assert(kept@.push(w) + spec_unfocused(self.windows@) =~= kept@
                        + spec_unfocused(before));
                }
            }
            if w.focused {
                out.push(w);
            } else {
                kept.push(w);
            }
        }
        proof {
            assert(kept@ + spec_unfocused(self.windows@) =~= kept@);
            assert(out@ + spec_focused(self.windows@) =~= out@);
        }
        self.windows = kept;
        proof {
            lemma_unfocused_wf(orig);
        }
        out
    }
}

// ---------------------------------------------------------------------------
// The peers model: sequences of peers, keyed by address.
// ---------------------------------------------------------------------------
/// Registering `kind` at `addr` evicts this peer: either it sits on the same
/// address, or both are Browser peers with the same instance id.
pub open spec fn spec_evicts(kind: ConnectionType, addr: u64, p: Peer) -> bool {
    p.addr == addr || spec_kind_eq(kind, p.kind)
}

/// `s` without every peer that registering `kind` at `addr` evicts.
pub open spec fn spec_evict_peers(s: Seq<Peer>, kind: ConnectionType, addr: u64) -> Seq<Peer>
    decreases s.len(),
{
    if s.len() == 0 {
        Seq::empty()
    } else if spec_evicts(kind, addr, s.first()) {
        spec_evict_peers(s.drop_first(), kind, addr)
    } else {
        seq![s.first()] + spec_evict_peers(s.drop_first(), kind, addr)
    }
}

/// Registering a peer: evict whoever it displaces, then append it.
pub open spec fn spec_add_peer(s: Seq<Peer>, kind: ConnectionType, addr: u64, tx: Tx) -> Seq<Peer> {
    spec_evict_peers(s, kind, addr).push(Peer { addr, kind, tx })
}

/// `s` without the peer at `addr`.
pub open spec fn spec_remove_peer(s: Seq<Peer>, addr: u64) -> Seq<Peer>
    decreases s.len(),
{
    if s.len() == 0 {
        Seq::empty()
    } else if s.first().addr == addr {
        spec_remove_peer(s.drop_first(), addr)
    } else {
        seq![s.first()] + spec_remove_peer(s.drop_first(), addr)
    }
}

/// The peer registered at `addr`, if any.
pub open spec fn spec_find_peer(s: Seq<Peer>, addr: u64) -> Option<Peer>
    decreases s.len(),
{
    if s.len() == 0 {
        None
    } else if s.first().addr == addr {
        Some(s.first())
    } else {
        spec_find_peer(s.drop_first(), addr)
    }
}

/// The addresses and senders of the Browser peers of `s`, in order.
pub open spec fn spec_browser_connections(s: Seq<Peer>) -> Seq<(u64, Tx)>
    decreases s.len(),
{
    if s.len() == 0 {
        Seq::empty()
    } else if s.first().kind is Browser {
        seq![(s.first().addr, s.first().tx)] + spec_browser_connections(s.drop_first())
    } else {
        spec_browser_connections(s.drop_first())
    }
}

/// What eviction leaves: no evicted peer, all drawn from `s`, and
/// address-uniqueness survives.
pub proof fn lemma_evict_peers_props(s: Seq<Peer>, kind: ConnectionType, addr: u64)
    ensures
        forall|k: int|
            0 <= k < spec_evict_peers(s, kind, addr).len() ==> !spec_evicts(
                kind,
                addr,
                #[trigger] spec_evict_peers(s, kind, addr)[k],
            ),
        forall|k: int|
            0 <= k < spec_evict_peers(s, kind, addr).len() ==> exists|j: int|
                0 <= j < s.len() && #[trigger] spec_evict_peers(s, kind, addr)[k] == s[j],
        wf_peers(s) ==> wf_peers(spec_evict_peers(s, kind, addr)),
    decreases s.len(),
{
    if s.len() > 0 {
        lemma_evict_peers_props(s.drop_first(), kind, addr);
        let rec = spec_evict_peers(s.drop_first(), kind, addr);
        assert forall|k: int| #![trigger rec[k]] 0 <= k < rec.len() implies exists|j: int|
            0 <= j < s.len() && rec[k] == #[trigger] s[j] by {
            let j0 = choose|j0: int| 0 <= j0 < s.drop_first().len() && rec[k] == s.drop_first()[j0];
            assert(rec[k] == s[j0 + 1]);
        }
        if !spec_evicts(kind, addr, s.first()) {
            let res = seq![s.first()] + rec;
            assert(res[0] == s[0]);
            if wf_peers(s) {
                assert forall|i: int, j: int| 0 <= i < j < res.len() implies res[i].addr
                    != res[j].addr by {
                    if i == 0 {
                        let j0 = choose|j0: int|
                            0 <= j0 < s.drop_first().len() && rec[j - 1] == s.drop_first()[j0];
                        assert(res[j] == s[j0 + 1]);
                        assert(s[0].addr != s[j0 + 1].addr);
                    }
                }
            }
        }
    }
}

/// What removal leaves: no peer at `addr`, all drawn from `s`, and
/// address-uniqueness survives.
pub proof fn lemma_remove_peer_props(s: Seq<Peer>, addr: u64)
    ensures
        forall|k: int|
            0 <= k < spec_remove_peer(s, addr).len() ==> (#[trigger] spec_remove_peer(s, addr)[k]).addr
                != addr,
        forall|k: int|
            0 <= k < spec_remove_peer(s, addr).len() ==> exists|j: int|
                0 <= j < s.len() && #[trigger] spec_remove_peer(s, addr)[k] == s[j],
        wf_peers(s) ==> wf_peers(spec_remove_peer(s, addr)),
    decreases s.len(),
{
    if s.len() > 0 {
        lemma_remove_peer_props(s.drop_first(), addr);
        let rec = spec_remove_peer(s.drop_first(), addr);
        assert forall|k: int| #![trigger rec[k]] 0 <= k < rec.len() implies exists|j: int|
            0 <= j < s.len() && rec[k] == #[trigger] s[j] by {
            let j0 = choose|j0: int| 0 <= j0 < s.drop_first().len() && rec[k] == s.drop_first()[j0];
            assert(rec[k] == s[j0 + 1]);
        }
        if s.first().addr != addr {
            let res = seq![s.first()] + rec;
            assert(res[0] == s[0]);
            if wf_peers(s) {
                assert forall|i: int, j: int| 0 <= i < j < res.len() implies res[i].addr
                    != res[j].addr by {
                    if i == 0 {
                        let j0 = choose|j0: int|
                            0 <= j0 < s.drop_first().len() && rec[j - 1] == s.drop_first()[j0];
                        assert(res[j] == s[j0 + 1]);
                        assert(s[0].addr != s[j0 + 1].addr);
                    }
                }
            }
        }
    }
}

/// No two peers share an address.
pub open spec fn wf_peers(s: Seq<Peer>) -> bool {
    forall|i: int, j: int| 0 <= i < j < s.len() ==> s[i].addr != s[j].addr
}

/// The unfocused windows are drawn from `s`, so id-uniqueness survives.
proof fn lemma_unfocused_wf(s: Seq<SwayWindow>)
    ensures
        forall|k: int|
            0 <= k < spec_unfocused(s).len() ==> exists|j: int|
                0 <= j < s.len() && #[trigger] spec_unfocused(s)[k] == s[j],
        wf_windows(s) ==> wf_windows(spec_unfocused(s)),
    decreases s.len(),
{
    if s.len() > 0 {
        lemma_unfocused_wf(s.drop_first());
        let rec = spec_unfocused(s.drop_first());
        assert forall|k: int| #![trigger rec[k]] 0 <= k < rec.len() implies exists|j: int|
            0 <= j < s.len() && rec[k] == #[trigger] s[j] by {
            let j0 = choose|j0: int| 0 <= j0 < s.drop_first().len() && rec[k] == s.drop_first()[j0];
            assert(rec[k] == s[j0 + 1]);
        }
        if !s.first().focused {
            let res = seq![s.first()] + rec;
            assert(res[0] == s[0]);
            if wf_windows(s) {
                assert forall|i: int, j: int| 0 <= i < j < res.len() implies res[i].id
                    != res[j].id by {
                    if i == 0 {
                        let j0 = choose|j0: int|
                            0 <= j0 < s.drop_first().len() && rec[j - 1] == s.drop_first()[j0];
                        assert(res[j] == s[j0 + 1]);
                        assert(s[0].id != s[j0 + 1].id);
                    }
                }
            }
        }
    }
}


// ---------------------------------------------------------------------------
// The tabs model: sequences of tabs, keyed by (windowId, tabId).
// ---------------------------------------------------------------------------
/// No two tabs share a key.
pub open spec fn wf_tabs(s: Seq<BrowserTab>) -> bool {
    forall|i: int, j: int| 0 <= i < j < s.len() ==> s[i].key() != s[j].key()
}

/// `s` without every tab of the given key.
pub open spec fn spec_remove_tab(s: Seq<BrowserTab>, key: (usize, usize)) -> Seq<BrowserTab>
    decreases s.len(),
{
    if s.len() == 0 {
        Seq::empty()
    } else if s.first().key() == key {
        spec_remove_tab(s.drop_first(), key)
    } else {
        seq![s.first()] + spec_remove_tab(s.drop_first(), key)
    }
}

/// Upserting a tab: drop any tab with its key, then append it.
pub open spec fn spec_add_tab(s: Seq<BrowserTab>, tab: BrowserTab) -> Seq<BrowserTab> {
    spec_remove_tab(s, tab.key()).push(tab)
}

/// The tab with the given key, if any.
pub open spec fn spec_find_tab(s: Seq<BrowserTab>, key: (usize, usize)) -> Option<BrowserTab>
    decreases s.len(),
{
    if s.len() == 0 {
        None
    } else if s.first().key() == key {
        Some(s.first())
    } else {
        spec_find_tab(s.drop_first(), key)
    }
}

/// What `spec_remove_tab` leaves: only tabs of other keys, all drawn from
/// `s`, and key-uniqueness survives.
pub proof fn lemma_remove_tab_props(s: Seq<BrowserTab>, key: (usize, usize))
    ensures
        forall|k: int|
            0 <= k < spec_remove_tab(s, key).len() ==> (#[trigger] spec_remove_tab(s, key)[k]).key()
                != key,
        forall|k: int|
            0 <= k < spec_remove_tab(s, key).len() ==> exists|j: int|
                0 <= j < s.len() && #[trigger] spec_remove_tab(s, key)[k] == s[j],
        wf_tabs(s) ==> wf_tabs(spec_remove_tab(s, key)),
    decreases s.len(),
{
    if s.len() > 0 {
        lemma_remove_tab_props(s.drop_first(), key);
        let rec = spec_remove_tab(s.drop_first(), key);
        assert forall|k: int| #![trigger rec[k]] 0 <= k < rec.len() implies exists|j: int|
            0 <= j < s.len() && rec[k] == #[trigger] s[j] by {
            let j0 = choose|j0: int| 0 <= j0 < s.drop_first().len() && rec[k] == s.drop_first()[j0];
            assert(rec[k] == s[j0 + 1]);
        }
        if s.first().key() != key {
            let res = seq![s.first()] + rec;
            assert(res[0] == s[0]);
            if wf_tabs(s) {
                assert forall|i: int, j: int| 0 <= i < j < res.len() implies res[i].key()
                    != res[j].key() by {
                    if i == 0 {
                        let j0 = choose|j0: int|
                            0 <= j0 < s.drop_first().len() && rec[j - 1] == s.drop_first()[j0];
                        assert(res[j] == s[j0 + 1]);
                        assert(s[0].key() != s[j0 + 1].key());
                    }
                }
            }
        }
    }
}

// ---------------------------------------------------------------------------
// The projection model: the directory snapshot shown to CLI peers.
// ---------------------------------------------------------------------------
/// Some tracked window's title already shows this tab's title.
pub open spec fn spec_tab_shadowed(t: BrowserTab, wins: Seq<SwayWindow>) -> bool {
    exists|i: int|
        #![trigger wins[i]]
        0 <= i < wins.len() && str_has_substring(wins[i].name@, t.title@)
}

/// Every window, as a snapshot entry, in order.
pub open spec fn spec_window_items(wins: Seq<SwayWindow>) -> Seq<DesktopdClient>
    decreases wins.len(),
{
    if wins.len() == 0 {
        Seq::empty()
    } else {
        seq![DesktopdClient::Window { data: wins.first() }] + spec_window_items(wins.drop_first())
    }
}

/// The tabs whose titles no window title shows, as snapshot entries, in
/// order.
pub open spec fn spec_visible_tab_items(
    tabs: Seq<BrowserTab>,
    wins: Seq<SwayWindow>,
) -> Seq<DesktopdClient>
    decreases tabs.len(),
{
    if tabs.len() == 0 {
        Seq::empty()
    } else if spec_tab_shadowed(tabs.first(), wins) {
        spec_visible_tab_items(tabs.drop_first(), wins)
    } else {
        seq![DesktopdClient::Tab { data: tabs.first() }] + spec_visible_tab_items(
            tabs.drop_first(),
            wins,
        )
    }
}

/// The snapshot: all windows first, then the tabs that no window title
/// already shows.
pub open spec fn spec_clients(wins: Seq<SwayWindow>, tabs: Seq<BrowserTab>) -> Seq<DesktopdClient> {
    spec_window_items(wins) + spec_visible_tab_items(tabs, wins)
}

impl State {
    /// Register a peer. A Browser peer evicts any previous Browser peer
    /// with the same instance id; any peer replaces a previous peer at the
    /// same address.
    pub fn add_peer(&mut self, kind: ConnectionType, addr: u64, tx: Tx)
        requires
            old(self).wf(),
        ensures
            final(self).wf(),
            final(self).peers() == spec_add_peer(old(self).peers(), kind, addr, tx),
            final(self).windows() == old(self).windows(),
            final(self).tabs() == old(self).tabs(),
    {
        let ghost orig = self.peers@;
        let ghost windows0 = self.windows@;
        let ghost tabs0 = self.tabs@;
        let mut kept: Vec<Peer> = Vec::new();
        proof {
            assert(kept@ + spec_evict_peers(orig, kind, addr) =~= spec_evict_peers(
                orig,
                kind,
                addr,
            ));
        }
        while self.peers.len() > 0
            invariant
                spec_evict_peers(orig, kind, addr) == kept@ + spec_evict_peers(
                    self.peers@,
                    kind,
                    addr,
                ),
                self.windows@ == windows0,
                self.tabs@ == tabs0,
            decreases self.peers@.len(),
        {
            let ghost before = self.peers@;
            let p = self.peers.remove(0);
            proof {
                assert(p == before.first());
                assert(self.peers@ =~= before.drop_first());
                if !spec_evicts(kind, addr, p) {
                    assert(kept@.push(p) + spec_evict_peers(self.peers@, kind, addr) =~= kept@
                        + spec_evict_peers(before, kind, addr));
                }
            }
            if p.addr == addr || kind == p.kind {
                // evicted: dropped on the floor
            } else {
                kept.push(p);
            }
        }
        proof {
            assert(kept@ + spec_evict_peers(self.peers@, kind, addr) =~= kept@);
            lemma_evict_peers_props(orig, kind, addr);
        }
        self.peers = kept;
        self.peers.push(Peer { addr, kind, tx });
    }

    /// Drop the peer at `addr`, returning its classification and sender.
    pub fn remove_peer(&mut self, addr: u64) -> (r: Option<(ConnectionType, Tx)>)
        requires
            old(self).wf(),
        ensures
            final(self).wf(),
            final(self).peers() == spec_remove_peer(old(self).peers(), addr),
            final(self).windows() == old(self).windows(),
            final(self).tabs() == old(self).tabs(),
            (match r {
                Some(p) => spec_find_peer(old(self).peers(), addr) == Some(
                    Peer { addr, kind: p.0, tx: p.1 },
                ),
                None => spec_find_peer(old(self).peers(), addr) is None,
            }),
    {
        let ghost orig = self.peers@;
        let ghost windows0 = self.windows@;
        let ghost tabs0 = self.tabs@;
        let mut kept: Vec<Peer> = Vec::new();
        let mut found: Option<(ConnectionType, Tx)> = None;
        proof {
            assert(kept@ + spec_remove_peer(orig, addr) =~= spec_remove_peer(orig, addr));
        }
        while self.peers.len() > 0
            invariant
                spec_remove_peer(orig, addr) == kept@ + spec_remove_peer(self.peers@, addr),
                (match found {
                    Some(p) => spec_find_peer(orig, addr) == Some(
                        Peer { addr, kind: p.0, tx: p.1 },
                    ),
                    None => spec_find_peer(orig, addr) == spec_find_peer(self.peers@, addr),
                }),
                self.windows@ == windows0,
                self.tabs@ == tabs0,
            decreases self.peers@.len(),
        {
            let ghost before = self.peers@;
            let p = self.peers.remove(0);
            proof {
                assert(p == before.first());
                assert(self.peers@ =~= before.drop_first());
                if p.addr != addr {
                    assert(kept@.push(p) + spec_remove_peer(self.peers@, addr) =~= kept@
                        + spec_remove_peer(before, addr));
                }
            }
            if p.addr == addr {
                if found.is_none() {
                    found = Some((p.kind, p.tx));
                }
            } else {
                kept.push(p);
            }
        }
        proof {
            assert(kept@ + spec_remove_peer(self.peers@, addr) =~= kept@);
            lemma_remove_peer_props(orig, addr);
        }
        self.peers = kept;
        found
    }

    /// The sender of the peer at `addr`, if any.
    pub fn find_peer(&self, addr: u64) -> (r: Option<Tx>)
        ensures
            (match r {
                Some(t) => spec_find_peer(self.peers(), addr) matches Some(p) && p.tx == t,
                None => spec_find_peer(self.peers(), addr) is None,
            }),
    {
        let ghost orig = self.peers@;
        let mut i: usize = 0;
        proof {
            assert(orig.skip(0) =~= orig);
        }
        while i < self.peers.len()
            invariant
                0 <= i <= self.peers@.len(),
                orig == self.peers@,
                spec_find_peer(orig, addr) == spec_find_peer(orig.skip(i as int), addr),
            decreases self.peers@.len() - i,
        {
            let ghost rest = orig.skip(i as int);
            proof {
                assert(rest.first() == orig[i as int]);
                assert(rest.drop_first() =~= orig.skip(i as int + 1));
            }
            let p = &self.peers[i];
            if p.addr == addr {
                return Some(clone_tx(&p.tx));
            }
            i = i + 1;
        }
        proof {
            assert(orig.skip(orig.len() as int) =~= Seq::<Peer>::empty());
        }
        None
    }

    /// A point-in-time copy of the Browser peers' addresses and senders.
    pub fn get_browser_connections(&self) -> (r: Vec<(u64, Tx)>)
        ensures
            r@ == spec_browser_connections(self.peers()),
    {
        let ghost orig = self.peers@;
        let mut r: Vec<(u64, Tx)> = Vec::new();
        let mut i: usize = 0;
        proof {
            assert(orig.skip(0) =~= orig);
            assert(r@ + spec_browser_connections(orig) =~= spec_browser_connections(orig));
        }
        while i < self.peers.len()
            invariant
                0 <= i <= self.peers@.len(),
                orig == self.peers@,
                spec_browser_connections(orig) == r@ + spec_browser_connections(
                    orig.skip(i as int),
                ),
            decreases self.peers@.len() - i,
        {
            let ghost rest = orig.skip(i as int);
            proof {
                assert(rest.first() == orig[i as int]);
                assert(rest.drop_first() =~= orig.skip(i as int + 1));
            }
            let p = &self.peers[i];
            if p.kind.is_browser() {
                let pair = (p.addr, clone_tx(&p.tx));
                proof {
                    assert(r@.push(pair) + spec_browser_connections(orig.skip(i as int + 1)) =~= r@
                        + spec_browser_connections(rest));
                }
                r.push(pair);
            }
            i = i + 1;
        }
        proof {
            assert(orig.skip(orig.len() as int) =~= Seq::<Peer>::empty());
            assert(r@ + spec_browser_connections(orig.skip(orig.len() as int)) =~= r@);
        }
        r
    }

    /// Insert or replace the tab with this tab's key.
    pub fn add_tab(&mut self, tab: BrowserTab)
        requires
            old(self).wf(),
        ensures
            final(self).wf(),
            final(self).tabs() == spec_add_tab(old(self).tabs(), tab),
            final(self).peers() == old(self).peers(),
            final(self).windows() == old(self).windows(),
    {
        let key_window = tab.window_id;
        let key_tab = tab.id;
        self.remove_tab(BrowserTabRef { tab_id: key_tab, window_id: key_window });
        proof {
            lemma_remove_tab_props(old(self).tabs@, (key_window, key_tab));
        }
        self.tabs.push(tab);
    }

    /// Drop the tab with this reference's key, if any.
    pub fn remove_tab(&mut self, tab: BrowserTabRef)
        requires
            old(self).wf(),
        ensures
            final(self).wf(),
            final(self).tabs() == spec_remove_tab(old(self).tabs(), tab.key()),
            final(self).peers() == old(self).peers(),
            final(self).windows() == old(self).windows(),
    {
        let ghost orig = self.tabs@;
        let ghost peers0 = self.peers@;
        let ghost windows0 = self.windows@;
        let ghost key = tab.key();
        let mut kept: Vec<BrowserTab> = Vec::new();
        proof {
            assert(kept@ + spec_remove_tab(orig, key) =~= spec_remove_tab(orig, key));
        }
        while self.tabs.len() > 0
            invariant
                spec_remove_tab(orig, key) == kept@ + spec_remove_tab(self.tabs@, key),
                key == tab.key(),
                self.peers@ == peers0,
                self.windows@ == windows0,
            decreases self.tabs@.len(),
        {
            let ghost before = self.tabs@;
            let t = self.tabs.remove(0);
            proof {
                assert(t == before.first());
                assert(self.tabs@ =~= before.drop_first());
                if t.key() != key {
                    assert(kept@.push(t) + spec_remove_tab(self.tabs@, key) =~= kept@
                        + spec_remove_tab(before, key));
                }
            }
            if t.window_id == tab.window_id && t.id == tab.tab_id {
                // the removed tab: dropped
            } else {
                kept.push(t);
            }
        }
        proof {
            assert(kept@ + spec_remove_tab(self.tabs@, key) =~= kept@);
            lemma_remove_tab_props(orig, key);
        }
        self.tabs = kept;
    }

    /// The tab with this reference's key, if any.
    pub fn find_tab(&self, tab: &BrowserTabRef) -> (r: Option<&BrowserTab>)
        ensures
            (match r {
                Some(t) => spec_find_tab(self.tabs(), tab.key()) == Some(*t),
                None => spec_find_tab(self.tabs(), tab.key()) is None,
            }),
    {
        let ghost orig = self.tabs@;
        let ghost key = tab.key();
        let mut i: usize = 0;
        proof {
            assert(orig.skip(0) =~= orig);
        }
        while i < self.tabs.len()
            invariant
                0 <= i <= self.tabs@.len(),
                orig == self.tabs@,
                key == tab.key(),
                spec_find_tab(orig, key) == spec_find_tab(orig.skip(i as int), key),
            decreases self.tabs@.len() - i,
        {
            let ghost rest = orig.skip(i as int);
            proof {
                assert(rest.first() == orig[i as int]);
                assert(rest.drop_first() =~= orig.skip(i as int + 1));
            }
            let t = &self.tabs[i];
            if t.window_id == tab.window_id && t.id == tab.tab_id {
                return Some(t);
            }
            i = i + 1;
        }
        proof {
            assert(orig.skip(orig.len() as int) =~= Seq::<BrowserTab>::empty());
        }
        None
    }

    /// The directory snapshot shown to CLI peers: every window, then every
    /// tab whose title no window title already shows.
    pub fn clients(&self) -> (r: Vec<DesktopdClient>)
        ensures
            r@ == spec_clients(self.windows(), self.tabs()),
    {
        let ghost wins = self.windows@;
        let ghost tabs = self.tabs@;
        let mut r: Vec<DesktopdClient> = Vec::new();
        let mut i: usize = 0;
        proof {
            assert(wins.skip(0) =~= wins);
            assert(r@ + spec_window_items(wins) =~= spec_window_items(wins));
        }
        while i < self.windows.len()
            invariant
                0 <= i <= self.windows@.len(),
                wins == self.windows@,
                tabs == self.tabs@,
                spec_window_items(wins) == r@ + spec_window_items(wins.skip(i as int)),
            decreases self.windows@.len() - i,
        {
            let ghost rest = wins.skip(i as int);
            proof {
                assert(rest.first() == wins[i as int]);
                assert(rest.drop_first() =~= wins.skip(i as int + 1));
            }
            let item = DesktopdClient::Window { data: self.windows[i].clone() };
            proof {
                assert(r@.push(item) + spec_window_items(wins.skip(i as int + 1)) =~= r@
                    + spec_window_items(rest));
            }
            r.push(item);
            i = i + 1;
        }
        proof {
            assert(wins.skip(wins.len() as int) =~= Seq::<SwayWindow>::empty());
            assert(r@ + spec_window_items(wins.skip(wins.len() as int)) =~= r@);
        }
        let mut i: usize = 0;
        proof {
            assert(tabs.skip(0) =~= tabs);
            assert(spec_clients(wins, tabs) == r@ + spec_visible_tab_items(tabs, wins));
        }
        while i < self.tabs.len()
            invariant
                0 <= i <= self.tabs@.len(),
                wins == self.windows@,
                tabs == self.tabs@,
                spec_clients(wins, tabs) == r@ + spec_visible_tab_items(tabs.skip(i as int), wins),
            decreases self.tabs@.len() - i,
        {
            let ghost rest = tabs.skip(i as int);
            proof {
                assert(rest.first() == tabs[i as int]);
                assert(rest.drop_first() =~= tabs.skip(i as int + 1));
            }
            let t = &self.tabs[i];
            let mut shadowed = false;
            let mut j: usize = 0;
            while j < self.windows.len()
                invariant
                    0 <= j <= self.windows@.len(),
                    wins == self.windows@,
                    tabs == self.tabs@,
                    0 <= i < self.tabs@.len(),
                    t == &tabs[i as int],
                    shadowed == (exists|k: int|
                        #![trigger wins[k]]
                        0 <= k < j && str_has_substring(wins[k].name@, tabs[i as int].title@)),
                decreases self.windows@.len() - j,
            {
                if str_contains(self.windows[j].name.as_str(), t.title.as_str()) {
                    proof {
                        assert(str_has_substring(wins[j as int].name@, tabs[i as int].title@));
                    }
                    shadowed = true;
                }
                j = j + 1;
            }
            if !shadowed {
                let item = DesktopdClient::Tab { data: t.clone() };
                proof {
                    assert(!spec_tab_shadowed(rest.first(), wins));
                    assert(r@.push(item) + spec_visible_tab_items(tabs.skip(i as int + 1), wins)
                        =~= r@ + spec_visible_tab_items(rest, wins));
                }
                r.push(item);
            } else {
                proof {
                    assert(spec_tab_shadowed(rest.first(), wins));
                }
            }
            i = i + 1;
        }
        proof {
            assert(tabs.skip(tabs.len() as int) =~= Seq::<BrowserTab>::empty());
            assert(r@ + spec_visible_tab_items(tabs.skip(tabs.len() as int), wins) =~= r@);
        }
        r
    }
}


} // verus!

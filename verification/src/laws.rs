//! The registry's laws: what any sequence of directory operations leaves
//! behind. Each law is stated over the same spec functions the `State`
//! methods' contracts use, so it applies to any run of the executable
//! registry.
use vstd::prelude::*;

use crate::browser::BrowserTab;
use crate::channel::Tx;
use crate::message::{spec_kind_eq, ConnectionType};
use crate::state::{
    spec_add_peer, spec_add_tab, spec_add_window, spec_evict_peers, spec_evicts, spec_focused,
    spec_mark_focused, spec_remove_tab, spec_remove_window, spec_unfocus_all,
    lemma_evict_peers_props, lemma_remove_tab_props, lemma_remove_window_props,
    lemma_unfocus_all_props, Peer,
};
use crate::sway::SwayWindow;

verus! {

/// One window operation on the directory.
pub enum WindowOp {
    Add(SwayWindow),
    Remove(usize),
}

/// What one window operation does to the tracked windows.
pub open spec fn spec_window_op(s: Seq<SwayWindow>, op: WindowOp) -> Seq<SwayWindow> {
    match op {
        WindowOp::Add(w) => spec_add_window(s, w),
        WindowOp::Remove(id) => spec_remove_window(s, id),
    }
}

/// What a sequence of window operations, applied in order, does.
pub open spec fn spec_window_ops(s: Seq<SwayWindow>, ops: Seq<WindowOp>) -> Seq<SwayWindow>
    decreases ops.len(),
{
    if ops.len() == 0 {
        s
    } else {
        spec_window_ops(spec_window_op(s, ops.first()), ops.drop_first())
    }
}

/// `op` mentions window id `id` as an addition.
pub open spec fn spec_adds_id(op: WindowOp, id: usize) -> bool {
    op matches WindowOp::Add(w) && w.id == id
}

/// Applying operations one after another is applying their concatenation.
proof fn lemma_window_ops_concat(s: Seq<SwayWindow>, a: Seq<WindowOp>, b: Seq<WindowOp>)
    ensures
        spec_window_ops(s, a + b) == spec_window_ops(spec_window_ops(s, a), b),
    decreases a.len(),
{
    if a.len() == 0 {
        assert(a + b =~= b);
    } else {
        assert((a + b).drop_first() =~= a.drop_first() + b);
        lemma_window_ops_concat(spec_window_op(s, a.first()), a.drop_first(), b);
    }
}

/// A directory holding no window of id `id` still holds none after any
/// operations that do not add `id`.
proof fn lemma_no_id_preserved(s: Seq<SwayWindow>, ops: Seq<WindowOp>, id: usize)
    requires
        forall|k: int| 0 <= k < s.len() ==> (#[trigger] s[k]).id != id,
        forall|k: int| 0 <= k < ops.len() ==> !spec_adds_id(#[trigger] ops[k], id),
    ensures
        forall|k: int|
            0 <= k < spec_window_ops(s, ops).len() ==> (#[trigger] spec_window_ops(s, ops)[k]).id
                != id,
    decreases ops.len(),
{
    if ops.len() > 0 {
        let s1 = spec_window_op(s, ops.first());
        assert forall|k: int| 0 <= k < s1.len() implies (#[trigger] s1[k]).id != id by {
            match ops.first() {
                WindowOp::Add(w) => {
                    lemma_remove_window_props(s, w.id);
                    let body = spec_remove_window(s, w.id);
                    if k < body.len() {
                        let j = choose|j: int| 0 <= j < s.len() && body[k] == s[j];
                        assert(s1[k] == s[j]);
                    } else {
                        assert(s1[k] == w);
                    }
                },
                WindowOp::Remove(rid) => {
                    lemma_remove_window_props(s, rid);
                    let j = choose|j: int| 0 <= j < s.len() && spec_remove_window(s, rid)[k] == s[j];
                    assert(s1[k] == s[j]);
                },
            }
        }
        assert(forall|k: int|
            0 <= k < ops.drop_first().len() ==> !spec_adds_id(#[trigger] ops.drop_first()[k], id));
        lemma_no_id_preserved(s1, ops.drop_first(), id);
        assert(spec_window_ops(s, ops) == spec_window_ops(s1, ops.drop_first()));
    }
}

/// Once an operation removes window id `id`, and no later operation adds it
/// again, the directory never again holds a window of that id.
pub proof fn law_removed_window_never_retained(
    s: Seq<SwayWindow>,
    ops: Seq<WindowOp>,
    k: int,
    id: usize,
)
    requires
        0 <= k < ops.len(),
        ops[k] == WindowOp::Remove(id),
        forall|l: int| k < l < ops.len() ==> !spec_adds_id(#[trigger] ops[l], id),
    ensures
        forall|m: int|
            0 <= m < spec_window_ops(s, ops).len() ==> (#[trigger] spec_window_ops(s, ops)[m]).id
                != id,
{
    let a = ops.take(k + 1);
    let b = ops.skip(k + 1);
    assert(ops =~= a + b);
    lemma_window_ops_concat(s, a, b);
    let mid = spec_window_ops(s, a);
    let a0 = ops.take(k);
    assert(a =~= a0 + seq![ops[k]]);
    lemma_window_ops_concat(s, a0, seq![ops[k]]);
    let before = spec_window_ops(s, a0);
    let one = seq![ops[k]];
    assert(one.drop_first() =~= Seq::<WindowOp>::empty());
    assert(spec_window_ops(before, one) == spec_window_ops(
        spec_window_op(before, ops[k]),
        one.drop_first(),
    ));
    assert(spec_window_ops(spec_window_op(before, ops[k]), one.drop_first())
        == spec_window_op(before, ops[k]));
    lemma_remove_window_props(before, id);
    assert(forall|m: int| 0 <= m < mid.len() ==> (#[trigger] mid[m]).id != id);
    assert(forall|m: int| 0 <= m < b.len() ==> !spec_adds_id(#[trigger] b[m], id));
    lemma_no_id_preserved(mid, b, id);
}

/// After any run of operations whose last step adds window `w`, the
/// directory holds `w`: the most recently added window is never omitted.
pub proof fn law_last_added_window_present(s: Seq<SwayWindow>, ops: Seq<WindowOp>, w: SwayWindow)
    ensures
        spec_window_ops(s, ops.push(WindowOp::Add(w))).len() > 0,
        spec_window_ops(s, ops.push(WindowOp::Add(w))).last() == w,
{
    assert(ops.push(WindowOp::Add(w)) =~= ops + seq![WindowOp::Add(w)]);
    lemma_window_ops_concat(s, ops, seq![WindowOp::Add(w)]);
    let mid = spec_window_ops(s, ops);
    let one = seq![WindowOp::Add(w)];
    assert(one.drop_first() =~= Seq::<WindowOp>::empty());
    assert(spec_window_ops(mid, one) == spec_window_ops(spec_add_window(mid, w), one.drop_first()));
    assert(spec_window_ops(spec_add_window(mid, w), one.drop_first()) == spec_add_window(mid, w));
}

/// The focused windows of `s.push(w)`: those of `s`, then `w` if it is
/// focused.
proof fn lemma_focused_push(s: Seq<SwayWindow>, w: SwayWindow)
    ensures
        w.focused ==> spec_focused(s.push(w)) == spec_focused(s).push(w),
        !w.focused ==> spec_focused(s.push(w)) == spec_focused(s),
    decreases s.len(),
{
    if s.len() == 0 {
        assert(s.push(w).drop_first() =~= Seq::<SwayWindow>::empty());
        assert(spec_focused(s.push(w).drop_first()) == Seq::<SwayWindow>::empty());
        assert(spec_focused(s) == Seq::<SwayWindow>::empty());
        if w.focused {
            assert(spec_focused(s.push(w)) =~= spec_focused(s).push(w));
        }
    } else {
        assert(s.push(w).first() == s.first());
        assert(s.push(w).drop_first() =~= s.drop_first().push(w));
        lemma_focused_push(s.drop_first(), w);
        assert(spec_focused(s.push(w)) == (if s.first().focused {
            seq![s.first()] + spec_focused(s.drop_first().push(w))
        } else {
            spec_focused(s.drop_first().push(w))
        }));
        if w.focused {
            assert((seq![s.first()] + spec_focused(s.drop_first())).push(w) =~= seq![s.first()]
                + spec_focused(s.drop_first()).push(w));
        }
    }
}

/// A sequence of unfocused windows has no focused ones.
proof fn lemma_focused_empty(s: Seq<SwayWindow>)
    requires
        forall|k: int| 0 <= k < s.len() ==> !(#[trigger] s[k]).focused,
    ensures
        spec_focused(s) == Seq::<SwayWindow>::empty(),
    decreases s.len(),
{
    if s.len() > 0 {
        assert(!s[0].focused);
        lemma_focused_empty(s.drop_first());
    }
}

/// Marking `w` focused and then `w2`, for two distinct windows, leaves
/// exactly one focused window: `w2`.
pub proof fn law_mark_focused_twice(s: Seq<SwayWindow>, w: SwayWindow, w2: SwayWindow)
    requires
        w.id != w2.id,
    ensures
        spec_focused(spec_mark_focused(spec_mark_focused(s, w), w2)) == seq![
            SwayWindow { focused: true, ..w2 },
        ],
{
    let s1 = spec_mark_focused(s, w);
    let cleared = spec_unfocus_all(s1);
    let body = spec_remove_window(cleared, w2.id);
    let w2f = SwayWindow { focused: true, ..w2 };
    lemma_unfocus_all_props(s1);
    lemma_remove_window_props(cleared, w2.id);
    assert forall|k: int| 0 <= k < body.len() implies !(#[trigger] body[k]).focused by {
        let j = choose|j: int| 0 <= j < cleared.len() && body[k] == cleared[j];
        assert(cleared[j] == (SwayWindow { focused: false, ..s1[j] }));
    }
    lemma_focused_empty(body);
    lemma_focused_push(body, w2f);
    assert(spec_focused(body).push(w2f) =~= seq![w2f]);
}

/// The Browser peers of `s` bound to instance id `id`, in order.
pub open spec fn spec_browser_peers_with_id(s: Seq<Peer>, id: Seq<char>) -> Seq<Peer>
    decreases s.len(),
{
    if s.len() == 0 {
        Seq::empty()
    } else if s.first().kind matches ConnectionType::Browser { id: x } && x@ == id {
        seq![s.first()] + spec_browser_peers_with_id(s.drop_first(), id)
    } else {
        spec_browser_peers_with_id(s.drop_first(), id)
    }
}

/// Pushing a peer extends the per-id view only if the peer carries that id.
proof fn lemma_peers_with_id_push(s: Seq<Peer>, id: Seq<char>, p: Peer)
    ensures
        (p.kind matches ConnectionType::Browser { id: x } && x@ == id) ==> spec_browser_peers_with_id(
            s.push(p),
            id,
        ) == spec_browser_peers_with_id(s, id).push(p),
        !(p.kind matches ConnectionType::Browser { id: x } && x@ == id)
            ==> spec_browser_peers_with_id(s.push(p), id) == spec_browser_peers_with_id(s, id),
    decreases s.len(),
{
    if s.len() == 0 {
        assert(s.push(p).drop_first() =~= Seq::<Peer>::empty());
        assert(spec_browser_peers_with_id(s.push(p).drop_first(), id) == Seq::<Peer>::empty());
        assert(spec_browser_peers_with_id(s, id) == Seq::<Peer>::empty());
        if p.kind matches ConnectionType::Browser { id: x } && x@ == id {
            assert(spec_browser_peers_with_id(s.push(p), id) =~= spec_browser_peers_with_id(
                s,
                id,
            ).push(p));
        }
    } else {
        assert(s.push(p).first() == s.first());
        assert(s.push(p).drop_first() =~= s.drop_first().push(p));
        lemma_peers_with_id_push(s.drop_first(), id, p);
        assert(spec_browser_peers_with_id(s.push(p), id) == (if s.first().kind
            matches ConnectionType::Browser { id: x } && x@ == id {
            seq![s.first()] + spec_browser_peers_with_id(s.drop_first().push(p), id)
        } else {
            spec_browser_peers_with_id(s.drop_first().push(p), id)
        }));
        if p.kind matches ConnectionType::Browser { id: x } && x@ == id {
            assert((seq![s.first()] + spec_browser_peers_with_id(s.drop_first(), id)).push(p)
                =~= seq![s.first()] + spec_browser_peers_with_id(s.drop_first(), id).push(p));
        }
    }
}

/// A sequence with no Browser peer of id `id` has an empty per-id view.
proof fn lemma_peers_with_id_empty(s: Seq<Peer>, id: Seq<char>)
    requires
        forall|k: int|
            0 <= k < s.len() ==> !((#[trigger] s[k]).kind matches ConnectionType::Browser { id: x }
                && x@ == id),
    ensures
        spec_browser_peers_with_id(s, id) == Seq::<Peer>::empty(),
    decreases s.len(),
{
    if s.len() > 0 {
        assert(!(s[0].kind matches ConnectionType::Browser { id: x } && x@ == id));
        lemma_peers_with_id_empty(s.drop_first(), id);
    }
}

/// Registering a Browser peer with instance id `id` twice leaves exactly
/// one peer bound to that id: the one from the second registration, with
/// the newest sender.
pub proof fn law_register_browser_twice(
    s: Seq<Peer>,
    id: Seq<char>,
    k1: ConnectionType,
    a1: u64,
    tx1: Tx,
    k2: ConnectionType,
    a2: u64,
    tx2: Tx,
)
    requires
        k1 matches ConnectionType::Browser { id: x } && x@ == id,
        k2 matches ConnectionType::Browser { id: x } && x@ == id,
    ensures
        spec_browser_peers_with_id(spec_add_peer(spec_add_peer(s, k1, a1, tx1), k2, a2, tx2), id)
            == seq![Peer { addr: a2, kind: k2, tx: tx2 }],
{
    let s1 = spec_add_peer(s, k1, a1, tx1);
    let body = spec_evict_peers(s1, k2, a2);
    let p2 = Peer { addr: a2, kind: k2, tx: tx2 };
    lemma_evict_peers_props(s1, k2, a2);
    assert forall|k: int| 0 <= k < body.len() implies !((#[trigger] body[k]).kind
        matches ConnectionType::Browser { id: x } && x@ == id) by {
        assert(!spec_evicts(k2, a2, body[k]));
        assert(!spec_kind_eq(k2, body[k].kind));
    }
    lemma_peers_with_id_empty(body, id);
    lemma_peers_with_id_push(body, id, p2);
    assert(spec_browser_peers_with_id(body, id).push(p2) =~= seq![p2]);
}

/// The tabs of `s` with the given key, in order.
pub open spec fn spec_tabs_with_key(s: Seq<BrowserTab>, key: (usize, usize)) -> Seq<BrowserTab>
    decreases s.len(),
{
    if s.len() == 0 {
        Seq::empty()
    } else if s.first().key() == key {
        seq![s.first()] + spec_tabs_with_key(s.drop_first(), key)
    } else {
        spec_tabs_with_key(s.drop_first(), key)
    }
}

/// Pushing a tab extends the per-key view only if the tab carries that key.
proof fn lemma_tabs_with_key_push(s: Seq<BrowserTab>, key: (usize, usize), t: BrowserTab)
    ensures
        t.key() == key ==> spec_tabs_with_key(s.push(t), key) == spec_tabs_with_key(s, key).push(t),
        t.key() != key ==> spec_tabs_with_key(s.push(t), key) == spec_tabs_with_key(s, key),
    decreases s.len(),
{
    if s.len() == 0 {
        assert(s.push(t).drop_first() =~= Seq::<BrowserTab>::empty());
        assert(spec_tabs_with_key(s.push(t).drop_first(), key) == Seq::<BrowserTab>::empty());
        assert(spec_tabs_with_key(s, key) == Seq::<BrowserTab>::empty());
        if t.key() == key {
            assert(spec_tabs_with_key(s.push(t), key) =~= spec_tabs_with_key(s, key).push(t));
        }
    } else {
        assert(s.push(t).first() == s.first());
        assert(s.push(t).drop_first() =~= s.drop_first().push(t));
        lemma_tabs_with_key_push(s.drop_first(), key, t);
        assert(spec_tabs_with_key(s.push(t), key) == (if s.first().key() == key {
            seq![s.first()] + spec_tabs_with_key(s.drop_first().push(t), key)
        } else {
            spec_tabs_with_key(s.drop_first().push(t), key)
        }));
        if t.key() == key {
            assert((seq![s.first()] + spec_tabs_with_key(s.drop_first(), key)).push(t)
                =~= seq![s.first()] + spec_tabs_with_key(s.drop_first(), key).push(t));
        }
    }
}

/// A sequence with no tab of key `key` has an empty per-key view.
proof fn lemma_tabs_with_key_empty(s: Seq<BrowserTab>, key: (usize, usize))
    requires
        forall|k: int| 0 <= k < s.len() ==> (#[trigger] s[k]).key() != key,
    ensures
        spec_tabs_with_key(s, key) == Seq::<BrowserTab>::empty(),
    decreases s.len(),
{
    if s.len() > 0 {
        assert(s[0].key() != key);
        lemma_tabs_with_key_empty(s.drop_first(), key);
    }
}

/// Upserting the same tab twice leaves exactly one entry for its
/// (windowId, tabId) key: duplicate update events are idempotent.
pub proof fn law_duplicate_tab_update(s: Seq<BrowserTab>, t: BrowserTab)
    ensures
        spec_tabs_with_key(spec_add_tab(spec_add_tab(s, t), t), t.key()) == seq![t],
{
    let s1 = spec_add_tab(s, t);
    let body = spec_remove_tab(s1, t.key());
    lemma_remove_tab_props(s1, t.key());
    lemma_tabs_with_key_empty(body, t.key());
    lemma_tabs_with_key_push(body, t.key(), t);
    assert(spec_tabs_with_key(body, t.key()).push(t) =~= seq![t]);
}

} // verus!

//! The window-manager side of the data model: windows, tree nodes, window
//! events, and the pure tree walks the bridge performs on them.
use vstd::prelude::*;

use crate::text::str_eq;

verus! {

/// A window tracked through the window manager.
#[derive(Debug)]
pub struct SwayWindow {
    pub id: usize,
    pub app_id: String,
    pub name: String,
    pub class: String,
    pub focused: bool,
}

impl SwayWindow {
    /// A window is Browser-classified when its window class or its
    /// application id names the browser.
    pub open spec fn spec_is_browser(self) -> bool {
        self.class@ == "Firefox"@ || self.app_id@ == "firefox"@
    }

    pub fn is_browser(&self) -> (r: bool)
        ensures
            r == self.spec_is_browser(),
    {
        str_eq(self.class.as_str(), "Firefox") || str_eq(self.app_id.as_str(), "firefox")
    }
}

impl Clone for SwayWindow {
    fn clone(&self) -> (res: Self)
        ensures
            res == *self,
    {
        SwayWindow {
            id: self.id,
            app_id: self.app_id.clone(),
            name: self.name.clone(),
            class: self.class.clone(),
            focused: self.focused,
        }
    }
}

/// The kind of a node in the window manager's container tree.
#[derive(Clone, Copy, PartialEq, Eq, Structural, Debug)]
pub enum NodeKind {
    Root,
    Output,
    Con,
    FloatingCon,
    Workspace,
    Dockarea,
}

/// The layout of a container's children.
#[derive(Clone, Copy, PartialEq, Eq, Structural, Debug)]
pub enum NodeLayout {
    SplitH,
    SplitV,
    Stacked,
    Tabbed,
    Dockarea,
    Output,
    Other,
}

/// A node of the window manager's container tree, with the fields the
/// bridge's decisions read. `floating` and `fullscreen` summarize the
/// manager's richer per-node state as the two booleans the logic needs.
#[derive(Debug)]
pub struct SwayNode {
    pub id: usize,
    pub name: Option<String>,
    pub app_id: Option<String>,
    pub class: Option<String>,
    pub node_type: NodeKind,
    pub layout: NodeLayout,
    pub floating: bool,
    pub fullscreen: bool,
    pub focused: bool,
    pub width: usize,
    pub height: usize,
    pub nodes: Vec<SwayNode>,
    pub floating_nodes: Vec<SwayNode>,
}

/// The change a window event reports.
#[derive(Clone, Copy, PartialEq, Eq, Structural, Debug)]
pub enum WindowChange {
    New,
    Close,
    Focus,
    Title,
    FullscreenMode,
    Move,
    Floating,
    Urgent,
    Mark,
}

/// A window event: the kind of change and a snapshot of the affected subtree.
#[derive(Debug)]
pub struct WindowEvent {
    pub change: WindowChange,
    pub container: SwayNode,
}


/// The mathematical model of a window: its id, flags, and the character
/// sequences of its text fields.
pub struct WindowModel {
    pub id: usize,
    pub app_id: Seq<char>,
    pub name: Seq<char>,
    pub class: Seq<char>,
    pub focused: bool,
}

impl View for SwayWindow {
    type V = WindowModel;

    open spec fn view(&self) -> WindowModel {
        WindowModel {
            id: self.id,
            app_id: self.app_id@,
            name: self.name@,
            class: self.class@,
            focused: self.focused,
        }
    }
}

impl DeepView for SwayWindow {
    type V = WindowModel;

    open spec fn deep_view(&self) -> WindowModel {
        self.view()
    }
}

/// The text of an optional field; absent means empty.
pub open spec fn spec_opt_text(o: Option<String>) -> Seq<char> {
    match o {
        Some(s) => s@,
        None => Seq::<char>::empty(),
    }
}

/// A node stands for a window exactly when it is a named leaf container.
pub open spec fn spec_is_window_node(n: SwayNode) -> bool {
    n.node_type is Con && n.name is Some
}

/// The window a window-node stands for.
pub open spec fn spec_node_window(n: SwayNode) -> WindowModel {
    WindowModel {
        id: n.id,
        app_id: spec_opt_text(n.app_id),
        name: spec_opt_text(n.name),
        class: spec_opt_text(n.class),
        focused: n.focused,
    }
}

/// Every window in the subtree rooted at `node`: the node's own window if
/// it is one, then those of its normal children, then those of its
/// floating children.
pub open spec fn spec_collect_windows(node: SwayNode) -> Seq<WindowModel>
    decreases node, 1int,
{
    (if spec_is_window_node(node) {
        seq![spec_node_window(node)]
    } else {
        Seq::<WindowModel>::empty()
    }) + spec_collect_list(node.nodes@) + spec_collect_list(node.floating_nodes@)
}

/// The windows of a run of subtrees, in order.
pub open spec fn spec_collect_list(nodes: Seq<SwayNode>) -> Seq<WindowModel>
    decreases nodes, 0int,
{
    if nodes.len() == 0 {
        Seq::<WindowModel>::empty()
    } else {
        spec_collect_windows(nodes.first()) + spec_collect_list(nodes.drop_first())
    }
}

/// `id` is the id of a direct child of `n`, normal or floating.
pub open spec fn spec_has_child(n: SwayNode, id: usize) -> bool {
    (exists|i: int|
        #![trigger n.nodes@[i]]
        0 <= i < n.nodes@.len() && n.nodes@[i].id == id) || (exists|i: int|
        #![trigger n.floating_nodes@[i]]
        0 <= i < n.floating_nodes@.len() && n.floating_nodes@[i].id == id)
}

/// The first node of the subtree rooted at `tree`, in depth-first order,
/// with a direct child of id `id`.
pub open spec fn spec_find_parent(tree: SwayNode, id: usize) -> Option<SwayNode>
    decreases tree, 1int,
{
    if spec_has_child(tree, id) {
        Some(tree)
    } else {
        match spec_find_parent_list(tree.nodes@, id) {
            Some(p) => Some(p),
            None => spec_find_parent_list(tree.floating_nodes@, id),
        }
    }
}

/// The first parent found among a run of subtrees, in order.
pub open spec fn spec_find_parent_list(nodes: Seq<SwayNode>, id: usize) -> Option<SwayNode>
    decreases nodes, 0int,
{
    if nodes.len() == 0 {
        None
    } else {
        match spec_find_parent(nodes.first(), id) {
            Some(p) => Some(p),
            None => spec_find_parent_list(nodes.drop_first(), id),
        }
    }
}


impl SwayWindow {
    /// Walk the subtree rooted at `node` and collect every window in it:
    /// the node's own, then its normal children's, then its floating
    /// children's, depth first.
    pub fn collect_windows(node: &SwayNode) -> (r: Vec<SwayWindow>)
        ensures
            r.deep_view() == spec_collect_windows(*node),
        decreases *node,
    {
        let mut r: Vec<SwayWindow> = Vec::new();
        let is_leaf = match node.node_type {
            NodeKind::Con => true,
            _ => false,
        };
        if is_leaf && node.name.is_some() {
            let name = match &node.name {
                Some(t) => t.clone(),
                None => String::new(),
            };
            let app_id = match &node.app_id {
                Some(t) => t.clone(),
                None => String::new(),
            };
            let class = match &node.class {
                Some(t) => t.clone(),
                None => String::new(),
            };
            let win = SwayWindow { id: node.id, app_id, name, class, focused: node.focused };
            r.push(win);
        }
        proof {
            assert(r.deep_view() =~= (if spec_is_window_node(*node) {
                seq![spec_node_window(*node)]
            } else {
                Seq::<WindowModel>::empty()
            }));
            assert(node.nodes@.skip(0) =~= node.nodes@);
            assert(r.deep_view() + spec_collect_list(node.nodes@)
                =~= r.deep_view() + spec_collect_list(node.nodes@.skip(0)));
        }
        let ghost own = r.deep_view();
        let mut i: usize = 0;
        while i < node.nodes.len()
            invariant
                0 <= i <= node.nodes@.len(),
                own + spec_collect_list(node.nodes@) == r.deep_view() + spec_collect_list(
                    node.nodes@.skip(i as int),
                ),
            decreases node.nodes@.len() - i,
        {
            let ghost rest = node.nodes@.skip(i as int);
            proof {
                assert(rest.first() == node.nodes@[i as int]);
                assert(rest.drop_first() =~= node.nodes@.skip(i as int + 1));
                assert(decreases_to!(*node => node.nodes));
                assert(decreases_to!(node.nodes => node.nodes@));
                assert(decreases_to!(node.nodes@ => node.nodes@[i as int]));
            }
            let ghost r0 = r.deep_view();
            let mut child = Self::collect_windows(&node.nodes[i]);
            proof {
                assert(r0 + child.deep_view() =~= r.deep_view() + child.deep_view());
            }
            let ghost c0 = child.deep_view();
            r.append(&mut child);
            proof {
                assert(r.deep_view() =~= r0 + c0);
                assert(r0 + (spec_collect_windows(rest.first()) + spec_collect_list(
                    rest.drop_first(),
                )) =~= (r0 + c0) + spec_collect_list(node.nodes@.skip(i as int + 1)));
            }
            i = i + 1;
        }
        proof {
            assert(node.nodes@.skip(node.nodes@.len() as int) =~= Seq::<SwayNode>::empty());
            assert(r.deep_view() + spec_collect_list(node.nodes@.skip(node.nodes@.len() as int))
                =~= r.deep_view());
            assert(node.floating_nodes@.skip(0) =~= node.floating_nodes@);
        }
        let ghost mid = r.deep_view();
        let mut i: usize = 0;
        while i < node.floating_nodes.len()
            invariant
                0 <= i <= node.floating_nodes@.len(),
                mid + spec_collect_list(node.floating_nodes@) == r.deep_view()
                    + spec_collect_list(node.floating_nodes@.skip(i as int)),
            decreases node.floating_nodes@.len() - i,
        {
            let ghost rest = node.floating_nodes@.skip(i as int);
            proof {
                assert(rest.first() == node.floating_nodes@[i as int]);
                assert(rest.drop_first() =~= node.floating_nodes@.skip(i as int + 1));
                assert(decreases_to!(*node => node.floating_nodes));
                assert(decreases_to!(node.floating_nodes => node.floating_nodes@));
                assert(decreases_to!(node.floating_nodes@ => node.floating_nodes@[i as int]));
            }
            let ghost r0 = r.deep_view();
            let mut child = Self::collect_windows(&node.floating_nodes[i]);
            let ghost c0 = child.deep_view();
            r.append(&mut child);
            proof {
                assert(r.deep_view() =~= r0 + c0);
                assert(r0 + (spec_collect_windows(rest.first()) + spec_collect_list(
                    rest.drop_first(),
                )) =~= (r0 + c0) + spec_collect_list(node.floating_nodes@.skip(i as int + 1)));
            }
            i = i + 1;
        }
        proof {
            assert(node.floating_nodes@.skip(node.floating_nodes@.len() as int)
                =~= Seq::<SwayNode>::empty());
            assert(r.deep_view() + spec_collect_list(
                node.floating_nodes@.skip(node.floating_nodes@.len() as int),
            ) =~= r.deep_view());
        }
        r
    }
}

/// Find the parent of the node with `node`'s id: the first node of the
/// tree, depth first, that has a direct child with that id.
pub fn find_parent<'a>(node: &SwayNode, tree: &'a SwayNode) -> (r: Option<&'a SwayNode>)
    ensures
        (match r {
            Some(p) => spec_find_parent(*tree, node.id) == Some(*p),
            None => spec_find_parent(*tree, node.id) is None,
        }),
    decreases *tree,
{
    let mut it_matches = false;
    let mut i: usize = 0;
    while i < tree.nodes.len()
        invariant
            0 <= i <= tree.nodes@.len(),
            it_matches == (exists|k: int|
                #![trigger tree.nodes@[k]]
                0 <= k < i && tree.nodes@[k].id == node.id),
        decreases tree.nodes@.len() - i,
    {
        if tree.nodes[i].id == node.id {
            it_matches = true;
        }
        i = i + 1;
    }
    let mut i: usize = 0;
    while i < tree.floating_nodes.len()
        invariant
            0 <= i <= tree.floating_nodes@.len(),
            it_matches == ((exists|k: int|
                #![trigger tree.nodes@[k]]
                0 <= k < tree.nodes@.len() && tree.nodes@[k].id == node.id) || (exists|k: int|
                #![trigger tree.floating_nodes@[k]]
                0 <= k < i && tree.floating_nodes@[k].id == node.id)),
        decreases tree.floating_nodes@.len() - i,
    {
        if tree.floating_nodes[i].id == node.id {
            it_matches = true;
        }
        i = i + 1;
    }
    if it_matches {
        return Some(tree);
    }
    proof {
        assert(tree.nodes@.skip(0) =~= tree.nodes@);
    }
    let mut i: usize = 0;
    while i < tree.nodes.len()
        invariant
            0 <= i <= tree.nodes@.len(),
            !spec_has_child(*tree, node.id),
            spec_find_parent_list(tree.nodes@, node.id) == spec_find_parent_list(
                tree.nodes@.skip(i as int),
                node.id,
            ),
        decreases tree.nodes@.len() - i,
    {
        let ghost rest = tree.nodes@.skip(i as int);
        proof {
            assert(rest.first() == tree.nodes@[i as int]);
            assert(rest.drop_first() =~= tree.nodes@.skip(i as int + 1));
            assert(decreases_to!(*tree => tree.nodes));
            assert(decreases_to!(tree.nodes => tree.nodes@));
            assert(decreases_to!(tree.nodes@ => tree.nodes@[i as int]));
        }
        match find_parent(node, &tree.nodes[i]) {
            Some(p) => {
                return Some(p);
            },
            None => {},
        }
        i = i + 1;
    }
    proof {
        assert(tree.nodes@.skip(tree.nodes@.len() as int) =~= Seq::<SwayNode>::empty());
        assert(tree.floating_nodes@.skip(0) =~= tree.floating_nodes@);
    }
    let mut i: usize = 0;
    while i < tree.floating_nodes.len()
        invariant
            0 <= i <= tree.floating_nodes@.len(),
            !spec_has_child(*tree, node.id),
            spec_find_parent_list(tree.nodes@, node.id) is None,
            spec_find_parent_list(tree.floating_nodes@, node.id) == spec_find_parent_list(
                tree.floating_nodes@.skip(i as int),
                node.id,
            ),
        decreases tree.floating_nodes@.len() - i,
    {
        let ghost rest = tree.floating_nodes@.skip(i as int);
        proof {
            assert(rest.first() == tree.floating_nodes@[i as int]);
            assert(rest.drop_first() =~= tree.floating_nodes@.skip(i as int + 1));
            assert(decreases_to!(*tree => tree.floating_nodes));
            assert(decreases_to!(tree.floating_nodes => tree.floating_nodes@));
            assert(decreases_to!(tree.floating_nodes@ => tree.floating_nodes@[i as int]));
        }
        match find_parent(node, &tree.floating_nodes[i]) {
            Some(p) => {
                return Some(p);
            },
            None => {},
        }
        i = i + 1;
    }
    proof {
        assert(tree.floating_nodes@.skip(tree.floating_nodes@.len() as int)
            =~= Seq::<SwayNode>::empty());
    }
    None
}

} // verus!

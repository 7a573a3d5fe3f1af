//! Browser-side data: tabs, tab references, and the events a browser
//! extension reports about them.
use vstd::prelude::*;

verus! {

/// A browser tab. Its identity key is the pair `(window_id, id)`: tab ids are
/// only unique within their owning browser window.
#[derive(Debug)]
pub struct BrowserTab {
    pub id: usize,
    pub window_id: usize,
    pub title: String,
    pub url: String,
}

impl BrowserTab {
    /// The identity key of this tab.
    pub open spec fn key(self) -> (usize, usize) {
        (self.window_id, self.id)
    }
}

impl Clone for BrowserTab {
    fn clone(&self) -> (res: Self)
        ensures
            res == *self,
    {
        BrowserTab {
            id: self.id,
            window_id: self.window_id,
            title: self.title.clone(),
            url: self.url.clone(),
        }
    }
}

/// A reference to a tab: the identity key without the payload.
#[derive(Clone, Copy, PartialEq, Eq, Structural, Debug)]
pub struct BrowserTabRef {
    pub tab_id: usize,
    pub window_id: usize,
}

impl BrowserTabRef {
    /// The identity key of the referenced tab.
    pub open spec fn key(self) -> (usize, usize) {
        (self.window_id, self.tab_id)
    }
}

/// An event reported by the browser extension. Only `Init`, `Created`,
/// `Updated`, `Removed` and `Activated` carry state the hub acts on; the
/// remaining variants are accepted and ignored.
#[derive(Debug)]
pub enum BrowserResponse {
    Init { data: Vec<BrowserTab> },
    Created { data: BrowserTab },
    Activated(BrowserTabRef),
    Attached { tab_id: usize, new_window_id: usize, new_position: usize },
    Detached { tab_id: usize, old_window_id: usize, old_position: usize },
    Highlighted { tab_ids: Vec<usize>, window_id: usize },
    Moved { tab_id: usize, window_id: usize, from_index: usize, to_index: usize },
    Replaced { added_tab_id: usize, removed_tab_id: usize },
    Updated { data: BrowserTab },
    Removed(BrowserTabRef),
}

} // verus!

//! The message protocol shared by every peer: connection classification,
//! focus requests, and the directory snapshot sent to CLI peers.
use vstd::prelude::*;

use crate::browser::{BrowserResponse, BrowserTab, BrowserTabRef};
use crate::sway::SwayWindow;
use crate::text::str_eq;

verus! {

/// How a peer classified itself at registration. At most one Browser peer
/// may be bound to a given instance id; any number of CLI peers may coexist.
#[derive(Debug)]
pub enum ConnectionType {
    Browser { id: String },
    Cli,
}

/// Two connection types match exactly when both are Browser peers with the
/// same instance id; a CLI peer matches nothing, so peer eviction on
/// registration only ever applies to Browser peers.
pub open spec fn spec_kind_eq(a: ConnectionType, b: ConnectionType) -> bool {
    match (a, b) {
        (ConnectionType::Browser { id: x }, ConnectionType::Browser { id: y }) => x@ == y@,
        _ => false,
    }
}

/// `==` on connection types is the matching relation above.
impl PartialEq for ConnectionType {
    fn eq(&self, other: &Self) -> (r: bool) {
        match self {
            ConnectionType::Browser { id: me } => match other {
                ConnectionType::Browser { id: you } => str_eq(me.as_str(), you.as_str()),
                _ => false,
            },
            _ => false,
        }
    }
}

impl vstd::std_specs::cmp::PartialEqSpecImpl for ConnectionType {
    open spec fn obeys_eq_spec() -> bool {
        true
    }

    open spec fn eq_spec(&self, other: &ConnectionType) -> bool {
        spec_kind_eq(*self, *other)
    }
}

impl Clone for ConnectionType {
    fn clone(&self) -> (res: Self)
        ensures
            res == *self,
    {
        match self {
            ConnectionType::Browser { id } => ConnectionType::Browser { id: id.clone() },
            ConnectionType::Cli => ConnectionType::Cli,
        }
    }
}

impl ConnectionType {
    /// This connection is a Browser peer bound to the given instance id.
    pub fn has_id(&self, other: &str) -> (r: bool)
        ensures
            r == (self matches ConnectionType::Browser { id } && id@ == other@),
    {
        match self {
            ConnectionType::Browser { id } => str_eq(other, id.as_str()),
            _ => false,
        }
    }

    /// This connection is a Browser peer.
    pub fn is_browser(&self) -> (r: bool)
        ensures
            r == (self is Browser),
    {
        match self {
            ConnectionType::Browser { .. } => true,
            _ => false,
        }
    }
}

/// A command the hub pushes to Browser peers.
#[derive(Clone, Copy, PartialEq, Eq, Structural, Debug)]
pub enum BrowserRequest {
    FocusTab(BrowserTabRef),
}

/// A command a CLI peer sends to the hub.
#[derive(Clone, Copy, PartialEq, Eq, Structural, Debug)]
pub enum CliRequest {
    FocusTab(BrowserTabRef),
    FocusWindow { id: usize },
}

/// One entry of the directory snapshot shown to CLI peers.
#[derive(Debug)]
pub enum DesktopdClient {
    Window { data: SwayWindow },
    Tab { data: BrowserTab },
}

/// The top-level message exchanged with peers.
#[derive(Debug)]
pub enum DesktopdMessage {
    Connect(ConnectionType),
    Disconnect(ConnectionType),
    BrowserMessage { data: BrowserResponse },
    BrowserRequest(BrowserRequest),
    CliRequest(CliRequest),
    ClientList { data: Vec<DesktopdClient> },
}

} // verus!

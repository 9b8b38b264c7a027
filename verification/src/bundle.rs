//! What is needed to set up sending and receiving of network messages.

use crate::address::PeerAddr;
use vstd::prelude::*;

verus! {

/// The settings from which the network system is started: where to bind,
/// which filters to apply to received events, and which peer to connect to.
pub struct NetworkBundle<'a, F> {
    /// The local ip to bind to.
    ip: &'a str,
    /// The local port to bind to.
    port: Option<u16>,
    /// The filters applied on received network events.
    filters: Vec<F>,
    /// The peer to connect to when the system starts.
    connect_to: Option<PeerAddr>,
}

impl<'a, F> NetworkBundle<'a, F> {
    /// The local ip to bind to.
    pub closed spec fn ip(&self) -> Seq<char> {
        self.ip@
    }

    /// The local port to bind to, where one was chosen.
    pub closed spec fn port(&self) -> Option<u16> {
        self.port
    }

    /// The filters applied on received network events.
    pub closed spec fn filters(&self) -> Seq<F> {
        self.filters@
    }

    /// The peer to connect to when the system starts.
    pub closed spec fn connect_to(&self) -> Option<PeerAddr> {
        self.connect_to
    }

    /// Creates a new NetworkBundle in client mode.
    pub fn new_client(ip: &'a str, port: Option<u16>, filters: Vec<F>) -> (bundle: Self)
        ensures
            bundle.ip() == ip@,
            bundle.port() == port,
            bundle.filters() == filters@,
            bundle.connect_to() is None,
    {
        NetworkBundle { ip, port, filters, connect_to: None }
    }

    /// Creates a new NetworkBundle in server mode.
    pub fn new_server(ip: &'a str, port: Option<u16>, filters: Vec<F>) -> (bundle: Self)
        ensures
            bundle.ip() == ip@,
            bundle.port() == port,
            bundle.filters() == filters@,
            bundle.connect_to() is None,
    {
        NetworkBundle { ip, port, filters, connect_to: None }
    }

    /// Automatically connects to the specified peer.
    pub fn with_connect(self, socket: PeerAddr) -> (bundle: Self)
        ensures
            bundle.ip() == self.ip(),
            bundle.port() == self.port(),
            bundle.filters() == self.filters(),
            bundle.connect_to() == Some(socket),
    {
        let mut bundle = self;
        bundle.connect_to = Some(socket);
        bundle
    }

    /// The port to bind to: the one chosen, or 0, which leaves the choice to
    /// the operating system.
    pub fn bind_port(&self) -> (port: u16)
        ensures
            port == match self.port() {
                Some(p) => p,
                None => 0,
            },
    {
        match self.port {
            Some(p) => p,
            None => 0,
        }
    }

    /// The local ip to bind to.
    pub fn bind_ip(&self) -> (ip: &'a str)
        ensures
            ip@ == self.ip(),
    {
        self.ip
    }

    /// The peer to connect to when the system starts, if any.
    pub fn peer(&self) -> (peer: Option<PeerAddr>)
        ensures
            peer == self.connect_to(),
    {
        self.connect_to
    }

    /// Hands over the filters.
    pub fn into_filters(self) -> (filters: Vec<F>)
        ensures
            filters@ == self.filters(),
    {
        self.filters
    }
}

} // verus!

//! The canonical model: processes, socket addresses, protocols and listeners.

use vstd::prelude::*;
use vstd::std_specs::cmp::PartialEqSpecImpl;

verus! {

/// Transport protocol of a listening socket.
#[derive(Clone, Copy, Debug, PartialEq, Eq, Hash, Structural)]
pub enum Protocol {
    TCP,
    UDP,
}

/// An IPv4 or IPv6 address, held as the integer whose big-endian bytes are
/// the address's octets in the order in which they are written.
#[derive(Clone, Copy, Debug, PartialEq, Eq, Hash, Structural)]
pub enum IpAddress {
    V4(u32),
    V6(u128),
}

/// A local endpoint: address and port, the port in host order.
#[derive(Clone, Copy, Debug, PartialEq, Eq, Hash, Structural)]
pub struct SocketAddress {
    pub ip: IpAddress,
    pub port: u16,
}

/// A process, characterized by its PID and name.
#[derive(Debug, Eq, Hash)]
pub struct Process {
    /// Process ID.
    pub pid: u32,
    /// Process name.
    pub name: String,
}

/// What a `Process` is in contracts.
pub struct ProcessView {
    pub pid: u32,
    pub name: Seq<char>,
}

impl View for Process {
    type V = ProcessView;

    open spec fn view(&self) -> ProcessView {
        ProcessView { pid: self.pid, name: self.name@ }
    }
}

impl PartialEq for Process {
    fn eq(&self, other: &Self) -> (r: bool) {
        self.pid == other.pid && self.name == other.name
    }
}

impl PartialEqSpecImpl for Process {
    open spec fn obeys_eq_spec() -> bool {
        true
    }

    open spec fn eq_spec(&self, other: &Self) -> bool {
        self@ == other@
    }
}

impl Clone for Process {
    fn clone(&self) -> (r: Self)
        ensures
            r@ == self@,
    {
        Process { pid: self.pid, name: self.name.clone() }
    }
}

impl Process {
    /// A process with the given PID and name.
    pub fn new(pid: u32, name: String) -> (r: Self)
        ensures
            r.pid == pid,
            r.name == name,
    {
        Self { pid, name }
    }
}

/// A process listening on a socket.
#[derive(Debug, Eq, Hash)]
pub struct Listener {
    /// The listening process.
    pub process: Process,
    /// The socket used by the listener.
    pub socket: SocketAddress,
    /// The protocol of the socket.
    pub protocol: Protocol,
}

/// What a `Listener` is in contracts: the tuple that identifies it.
pub struct ListenerView {
    pub process: ProcessView,
    pub socket: SocketAddress,
    pub protocol: Protocol,
}

impl View for Listener {
    type V = ListenerView;

    open spec fn view(&self) -> ListenerView {
        ListenerView { process: self.process@, socket: self.socket, protocol: self.protocol }
    }
}

impl PartialEq for Listener {
    fn eq(&self, other: &Self) -> (r: bool) {
        self.process == other.process && self.socket == other.socket && self.protocol
            == other.protocol
    }
}

impl PartialEqSpecImpl for Listener {
    open spec fn obeys_eq_spec() -> bool {
        true
    }

    open spec fn eq_spec(&self, other: &Self) -> bool {
        self@ == other@
    }
}

impl Clone for Listener {
    fn clone(&self) -> (r: Self)
        ensures
            r@ == self@,
    {
        Listener { process: self.process.clone(), socket: self.socket, protocol: self.protocol }
    }
}

impl Listener {
    /// The listener of the process `(pid, name)` on `socket`.
    pub fn new(pid: u32, name: String, socket: SocketAddress, protocol: Protocol) -> (r: Self)
        ensures
            r.process.pid == pid,
            r.process.name == name,
            r.socket == socket,
            r.protocol == protocol,
    {
        let process = Process::new(pid, name);
        Self { process, socket, protocol }
    }
}

} // verus!

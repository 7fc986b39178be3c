//! The backend for systems that are asked process by process: first the list
//! of the live processes, then for each process its open descriptors, and for
//! each descriptor that is a socket a record of socket information.
//!
//! A failure that concerns one descriptor or one process is no error of the
//! enumeration: what cannot be read is left out.

use vstd::prelude::*;
use crate::backend::Backend;
use crate::bytes::{be_u128, be_u16, be_u32, spec_be_u128, spec_be_u16, spec_be_u32};
use crate::error::BackendError;
use crate::process_list::{decode_name, spec_decode_name};
use crate::model::{
    IpAddress, Listener, ListenerView, Process, ProcessView, Protocol, SocketAddress,
};
use crate::unique::spec_views;

verus! {

/// The descriptor type of a socket.
pub const FD_TYPE_SOCKET: u32 = 2;

/// The kind of socket information that describes a TCP socket.
pub const SOCKET_KIND_TCP: i32 = 2;

/// The TCP state of a socket that listens.
pub const SOCKET_STATE_LISTEN: i32 = 1;

/// The address family of IPv4.
pub const FAMILY_INET: i32 = 2;

/// The address family of IPv6.
pub const FAMILY_INET6: i32 = 30;

/// Why a descriptor gives no socket. None of these ends an enumeration.
#[derive(Clone, Copy, Debug, PartialEq, Eq, Hash, Structural)]
pub enum FdError {
    /// The query for the socket information answered with a negative code.
    FdInfoFailed,
    /// The query filled another number of bytes than the record has.
    DecodeFailed,
    /// The socket is no TCP socket, or it does not listen.
    NotListening,
    /// The socket's address family is neither IPv4 nor IPv6.
    UnsupportedFamily,
}

/// An open descriptor of a process, as the descriptor list gives it.
#[derive(Clone, Copy, Debug, PartialEq, Eq, Structural)]
pub struct FdEntry {
    pub fd: i32,
    pub fd_type: u32,
}

/// The fields of a socket information record that an enumeration reads. The
/// port and the addresses are the bytes of their fields as they lie in the
/// record, which is in network order.
#[derive(Clone, Copy, Debug)]
pub struct SocketFdInfo {
    pub kind: i32,
    pub family: i32,
    pub tcp_state: i32,
    pub local_port: [u8; 4],
    pub local_addr4: [u8; 4],
    pub local_addr6: [u8; 16],
}

/// The answer to the query for the socket information of one descriptor: the
/// code that the query returned, which is the number of bytes that it filled
/// or negative, the size of the record that was asked for, and the record.
#[derive(Clone, Copy, Debug)]
pub struct FdQuery {
    pub return_code: i32,
    pub expected_size: i32,
    pub info: SocketFdInfo,
}

/// What was read about one process: its id as the process list gives it, the
/// code that the query for its name returned, which is the length of the name
/// or not positive, the name field, which ends at its first NUL byte, and the
/// answers for its socket descriptors, or the reason why its descriptors
/// could not be listed.
pub struct ProcessSockets {
    pub pid: i32,
    pub name_code: i32,
    pub name: Vec<u8>,
    pub sockets: Result<Vec<FdQuery>, FdError>,
}

/// What was read from the system for one enumeration: the processes with
/// their sockets, or the error where the process list could not be had.
pub struct FdScanSnapshot {
    pub processes: Result<Vec<ProcessSockets>, BackendError>,
}

/// A local TCP socket that listens.
#[derive(Clone, Copy, Debug, PartialEq, Eq, Structural)]
pub struct LocalSocket(pub SocketAddress);

/// The descriptors of `listed` that are sockets, in order.
pub open spec fn spec_socket_fds(listed: Seq<FdEntry>) -> Seq<i32>
    decreases listed.len(),
{
    if listed.len() == 0 {
        Seq::empty()
    } else {
        let before = spec_socket_fds(listed.drop_last());
        if listed.last().fd_type == FD_TYPE_SOCKET {
            before.push(listed.last().fd)
        } else {
            before
        }
    }
}

/// The local address of a socket information record, by its family.
pub open spec fn spec_local_addr(info: SocketFdInfo) -> Result<IpAddress, FdError> {
    if info.family == FAMILY_INET {
        Ok(IpAddress::V4(spec_be_u32(info.local_addr4@, 0) as u32))
    } else if info.family == FAMILY_INET6 {
        Ok(IpAddress::V6(spec_be_u128(info.local_addr6@, 0) as u128))
    } else {
        Err(FdError::UnsupportedFamily)
    }
}

/// The socket that an answer stands for, or why it stands for none.
pub open spec fn spec_local_socket(query: FdQuery) -> Result<LocalSocket, FdError> {
    if query.return_code < 0 {
        Err(FdError::FdInfoFailed)
    } else if query.return_code != query.expected_size {
        Err(FdError::DecodeFailed)
    } else if query.info.kind != SOCKET_KIND_TCP || query.info.tcp_state != SOCKET_STATE_LISTEN {
        Err(FdError::NotListening)
    } else {
        match spec_local_addr(query.info) {
            Ok(ip) => Ok(
                LocalSocket(
                    SocketAddress { ip, port: spec_be_u16(query.info.local_port@, 0) as u16 },
                ),
            ),
            Err(e) => Err(e),
        }
    }
}

/// The descriptors of `listed` that are sockets, in order.
pub fn socket_fds(listed: &Vec<FdEntry>) -> (r: Vec<i32>)
    ensures
        r@ == spec_socket_fds(listed@),
{
    let mut out: Vec<i32> = Vec::new();
    let mut i: usize = 0;
    assert(listed@.take(0) =~= Seq::empty());
    while i < listed.len()
        invariant
            i <= listed.len(),
            out@ == spec_socket_fds(listed@.take(i as int)),
        decreases listed.len() - i,
    {
        proof {
            let next = listed@.take(i + 1);
            assert(next.drop_last() =~= listed@.take(i as int));
            assert(next.last() == listed@[i as int]);
        }
        if listed[i].fd_type == FD_TYPE_SOCKET {
            out.push(listed[i].fd);
        }
        i = i + 1;
    }
    assert(listed@.take(listed@.len() as int) =~= listed@);
    out
}

impl LocalSocket {
    /// The socket with this address and port.
    pub fn new(addr: IpAddress, port: u16) -> (r: Self)
        ensures
            r == LocalSocket(SocketAddress { ip: addr, port }),
    {
        LocalSocket(SocketAddress { ip: addr, port })
    }

    /// The address and port of the socket.
    pub fn socket_addr(&self) -> (r: SocketAddress)
        ensures
            r == self.0,
    {
        self.0
    }

    /// Decodes the answer to the query for one descriptor.
    ///
    /// Only a TCP socket that listens gives a socket. The address is read by
    /// the family of the socket. Each error says why there is none.
    pub fn from_query(query: &FdQuery) -> (r: Result<LocalSocket, FdError>)
        ensures
            r == spec_local_socket(*query),
    {
        if query.return_code < 0 {
            return Err(FdError::FdInfoFailed);
        }
        if query.return_code != query.expected_size {
            return Err(FdError::DecodeFailed);
        }
        if query.info.kind != SOCKET_KIND_TCP || query.info.tcp_state != SOCKET_STATE_LISTEN {
            return Err(FdError::NotListening);
        }
        let addr = if query.info.family == FAMILY_INET {
            IpAddress::V4(be_u32(query.info.local_addr4.as_slice(), 0))
        } else if query.info.family == FAMILY_INET6 {
            IpAddress::V6(be_u128(query.info.local_addr6.as_slice(), 0))
        } else {
            return Err(FdError::UnsupportedFamily);
        };
        let port = be_u16(query.info.local_port.as_slice(), 0);
        Ok(LocalSocket::new(addr, port))
    }
}

/// The listener of a process on one of its sockets: always a TCP listener.
pub open spec fn spec_listener(process: ProcessView, socket: LocalSocket) -> ListenerView {
    ListenerView { process, socket: socket.0, protocol: Protocol::TCP }
}

/// The listeners that the answers for a process give, in order: one for each
/// answer that stands for a socket.
pub open spec fn spec_socket_listeners(process: ProcessView, sockets: Seq<FdQuery>) -> Seq<
    ListenerView,
>
    decreases sockets.len(),
{
    if sockets.len() == 0 {
        Seq::empty()
    } else {
        let before = spec_socket_listeners(process, sockets.drop_last());
        match spec_local_socket(sockets.last()) {
            Ok(socket) => before.push(spec_listener(process, socket)),
            Err(_) => before,
        }
    }
}

/// Who a process is: its id and its name. `None` where the id is negative, the
/// query for the name failed, or the name field cannot be read as text: such
/// a process has exited or is out of reach, and is passed over.
pub open spec fn spec_identity(entry: ProcessSockets) -> Option<ProcessView> {
    if entry.pid < 0 || entry.name_code <= 0 {
        None
    } else {
        match spec_decode_name(entry.name@) {
            Some(name) => Some(ProcessView { pid: entry.pid as u32, name }),
            None => None,
        }
    }
}

/// The listeners of one process: none where it has no identity or its
/// descriptors could not be listed.
pub open spec fn spec_process_listeners(entry: ProcessSockets) -> Seq<ListenerView> {
    match (spec_identity(entry), entry.sockets) {
        (Some(process), Ok(sockets)) => spec_socket_listeners(process, sockets@),
        _ => Seq::empty(),
    }
}

/// The listeners of the processes, one process after the other.
pub open spec fn spec_scan(processes: Seq<ProcessSockets>) -> Seq<ListenerView>
    decreases processes.len(),
{
    if processes.len() == 0 {
        Seq::empty()
    } else {
        spec_scan(processes.drop_last()) + spec_process_listeners(processes.last())
    }
}

/// Who a process is, where that could be read.
pub fn identity(entry: &ProcessSockets) -> (r: Option<Process>)
    ensures
        match spec_identity(*entry) {
            Some(process) => r matches Some(p) && p@ == process,
            None => r is None,
        },
{
    if entry.pid < 0 || entry.name_code <= 0 {
        return None;
    }
    match decode_name(entry.name.as_slice()) {
        Some(name) => Some(Process::new(entry.pid as u32, name)),
        None => None,
    }
}

/// Adds the listeners of one process to `out`.
pub fn process_listeners(entry: &ProcessSockets, out: &mut Vec<Listener>)
    ensures
        spec_views(final(out)@) == spec_views(old(out)@) + spec_process_listeners(*entry),
{
    let ghost start = spec_views(out@);
    assert(start + Seq::<ListenerView>::empty() =~= start);
    let process = match identity(entry) {
        Some(process) => process,
        None => {
            return ;
        },
    };
    match &entry.sockets {
        Ok(sockets) => {
            let mut i: usize = 0;
            assert(sockets@.take(0) =~= Seq::empty());
            while i < sockets.len()
                invariant
                    i <= sockets.len(),
                    spec_views(out@) == start + spec_socket_listeners(
                        process@,
                        sockets@.take(i as int),
                    ),
                decreases sockets.len() - i,
            {
                proof {
                    let next = sockets@.take(i + 1);
                    assert(next.drop_last() =~= sockets@.take(i as int));
                    assert(next.last() == sockets@[i as int]);
                }
                let ghost before = spec_views(out@);
                match LocalSocket::from_query(&sockets[i]) {
                    Ok(socket) => {
                        let listener = Listener::new(
                            process.pid,
                            process.name.clone(),
                            socket.socket_addr(),
                            Protocol::TCP,
                        );
                        out.push(listener);
                        assert(spec_views(out@) =~= before.push(spec_listener(process@, socket)));
                        assert(spec_views(out@) =~= start + spec_socket_listeners(
                            process@,
                            sockets@.take(i + 1),
                        ));
                    },
                    Err(_) => {},
                }
                i = i + 1;
            }
            assert(sockets@.take(sockets@.len() as int) =~= sockets@);
        },
        Err(_) => {},
    }
}

/// The listeners of all the processes of a scan.
pub fn scan(processes: &Vec<ProcessSockets>) -> (r: Vec<Listener>)
    ensures
        spec_views(r@) == spec_scan(processes@),
{
    let mut out: Vec<Listener> = Vec::new();
    let mut i: usize = 0;
    assert(processes@.take(0) =~= Seq::empty());
    assert(spec_views(out@) =~= Seq::empty());
    while i < processes.len()
        invariant
            i <= processes.len(),
            spec_views(out@) == spec_scan(processes@.take(i as int)),
        decreases processes.len() - i,
    {
        proof {
            let next = processes@.take(i + 1);
            assert(next.drop_last() =~= processes@.take(i as int));
            assert(next.last() == processes@[i as int]);
        }
        process_listeners(&processes[i], &mut out);
        i = i + 1;
    }
    assert(processes@.take(processes@.len() as int) =~= processes@);
    out
}

impl Backend for FdScanSnapshot {
    /// The listeners of the processes of the scan. Only a process list that
    /// could not be had fails the enumeration.
    open spec fn spec_enumerate(&self) -> Result<Seq<ListenerView>, BackendError> {
        match self.processes {
            Ok(processes) => Ok(spec_scan(processes@)),
            Err(e) => Err(e),
        }
    }

    fn enumerate(&self) -> (r: Result<Vec<Listener>, BackendError>) {
        match &self.processes {
            Ok(processes) => Ok(scan(processes)),
            Err(e) => Err(*e),
        }
    }
}

/// Whether the listener `l` stands for answer `j` of process `i` of a scan:
/// the process has an identity, the answer is that of a TCP socket that
/// listens, and the listener has the identity of the process and the address
/// and port of the socket.
pub open spec fn spec_stands_for(
    processes: Seq<ProcessSockets>,
    i: int,
    j: int,
    l: ListenerView,
) -> bool {
    &&& 0 <= i < processes.len()
    &&& spec_identity(processes[i]) is Some
    &&& processes[i].sockets is Ok
    &&& 0 <= j < processes[i].sockets->Ok_0@.len()
    &&& spec_local_socket(processes[i].sockets->Ok_0@[j]) is Ok
    &&& l == spec_listener(
        spec_identity(processes[i])->Some_0,
        spec_local_socket(processes[i].sockets->Ok_0@[j])->Ok_0,
    )
}

/// The listeners of one process are those of its answers that stand for a
/// socket.
pub proof fn lemma_socket_listeners(process: ProcessView, sockets: Seq<FdQuery>, l: ListenerView)
    ensures
        spec_socket_listeners(process, sockets).contains(l) <==> exists|j: int|
            0 <= j < sockets.len() && spec_local_socket(#[trigger] sockets[j]) is Ok && l
                == spec_listener(process, spec_local_socket(sockets[j])->Ok_0),
    decreases sockets.len(),
{
    let listeners = spec_socket_listeners(process, sockets);
    if sockets.len() > 0 {
        let front = sockets.drop_last();
        let before = spec_socket_listeners(process, front);
        let last = spec_local_socket(sockets.last());
        lemma_socket_listeners(process, front, l);
        assert(sockets[sockets.len() - 1] == sockets.last());
        if listeners.contains(l) {
            let k = choose|k: int| 0 <= k < listeners.len() && listeners[k] == l;
            if last is Ok && k == before.len() {
                assert(spec_local_socket(sockets[sockets.len() - 1]) is Ok);
            } else {
                assert(before[k] == l);
                assert(before.contains(l));
                let j = choose|j: int|
                    0 <= j < front.len() && spec_local_socket(#[trigger] front[j]) is Ok && l
                        == spec_listener(process, spec_local_socket(front[j])->Ok_0);
                assert(sockets[j] == front[j]);
            }
        }
        if exists|j: int|
            0 <= j < sockets.len() && spec_local_socket(#[trigger] sockets[j]) is Ok && l
                == spec_listener(process, spec_local_socket(sockets[j])->Ok_0) {
            let j = choose|j: int|
                0 <= j < sockets.len() && spec_local_socket(#[trigger] sockets[j]) is Ok && l
                    == spec_listener(process, spec_local_socket(sockets[j])->Ok_0);
            if j < sockets.len() - 1 {
                assert(front[j] == sockets[j]);
                assert(before.contains(l));
                let k = choose|k: int| 0 <= k < before.len() && before[k] == l;
                assert(listeners[k] == l);
            } else {
                assert(listeners[before.len() as int] == l);
            }
        }
    } else {
        assert(listeners =~= Seq::empty());
    }
}

/// What a scan returns, listener by listener: a listener is in the result
/// exactly where it stands for an answer of one of the processes. So every
/// listener of the result is a TCP listener whose socket was in the listening
/// state, under the identity that the process list gave.
pub proof fn lemma_scanned_are_listening(processes: Seq<ProcessSockets>, l: ListenerView)
    ensures
        spec_scan(processes).contains(l) <==> exists|i: int, j: int|
            spec_stands_for(processes, i, j, l),
    decreases processes.len(),
{
    let listeners = spec_scan(processes);
    if processes.len() > 0 {
        let front = processes.drop_last();
        let before = spec_scan(front);
        let own = spec_process_listeners(processes.last());
        lemma_scanned_are_listening(front, l);
        let n = processes.len() - 1;
        assert(processes[n] == processes.last());
        if processes.last().sockets is Ok && spec_identity(processes.last()) is Some {
            lemma_socket_listeners(
                spec_identity(processes.last())->Some_0,
                processes.last().sockets->Ok_0@,
                l,
            );
        }
        if listeners.contains(l) {
            let k = choose|k: int| 0 <= k < listeners.len() && listeners[k] == l;
            if k < before.len() {
                assert(before[k] == l);
                assert(before.contains(l));
                let (i, j) = choose|i: int, j: int| spec_stands_for(front, i, j, l);
                assert(processes[i] == front[i]);
                assert(spec_stands_for(processes, i, j, l));
            } else {
                assert(own[k - before.len()] == l);
                assert(own.contains(l));
                let sockets = processes.last().sockets->Ok_0@;
                let j = choose|j: int|
                    0 <= j < sockets.len() && spec_local_socket(#[trigger] sockets[j]) is Ok && l
                        == spec_listener(
                        spec_identity(processes.last())->Some_0,
                        spec_local_socket(sockets[j])->Ok_0,
                    );
                assert(spec_stands_for(processes, n, j, l));
            }
        }
        if exists|i: int, j: int| spec_stands_for(processes, i, j, l) {
            let (i, j) = choose|i: int, j: int| spec_stands_for(processes, i, j, l);
            if i < n {
                assert(front[i] == processes[i]);
                assert(spec_stands_for(front, i, j, l));
                assert(before.contains(l));
                let k = choose|k: int| 0 <= k < before.len() && before[k] == l;
                assert(listeners[k] == l);
            } else {
                let sockets = processes.last().sockets->Ok_0@;
                assert(spec_local_socket(sockets[j]) is Ok);
                assert(own.contains(l));
                let k = choose|k: int| 0 <= k < own.len() && own[k] == l;
                assert(listeners[before.len() + k] == l);
            }
        }
    } else {
        assert(listeners =~= Seq::empty());
    }
}

/// A process that has exited since the process list was read, so that its
/// name or its descriptors could not be had, changes nothing: the result is
/// the one that the other processes give, and the scan succeeds.
pub proof fn lemma_exited_process_dropped(processes: Seq<ProcessSockets>, index: int)
    requires
        0 <= index < processes.len(),
        processes[index].sockets is Err || spec_identity(processes[index]) is None,
    ensures
        spec_scan(processes) == spec_scan(processes.remove(index)),
    decreases processes.len(),
{
    let front = processes.drop_last();
    if index == processes.len() - 1 {
        assert(processes.remove(index) =~= front);
        assert(spec_scan(front) + Seq::<ListenerView>::empty() =~= spec_scan(front));
    } else {
        lemma_exited_process_dropped(front, index);
        let rest = processes.remove(index);
        assert(rest.drop_last() =~= front.remove(index));
        assert(rest.last() == processes.last());
    }
}

/// Every listener of a scan is a TCP listener, and has a port above zero as
/// long as no answer that stands for a socket holds the port zero: the port
/// of a listener is the port of its socket. Answers that stand for no socket
/// may hold anything.
pub proof fn lemma_scanned_ports_positive(processes: Seq<ProcessSockets>, l: ListenerView)
    requires
        spec_scan(processes).contains(l),
        forall|i: int, j: int|
            0 <= i < processes.len() && processes[i].sockets is Ok && 0 <= j
                < processes[i].sockets->Ok_0@.len() && spec_local_socket(
                #[trigger] processes[i].sockets->Ok_0@[j],
            ) is Ok ==> spec_local_socket(processes[i].sockets->Ok_0@[j])->Ok_0.0.port != 0,
    ensures
        l.socket.port > 0,
        l.protocol == Protocol::TCP,
{
    lemma_scanned_are_listening(processes, l);
    let (i, j) = choose|i: int, j: int| spec_stands_for(processes, i, j, l);
    let query = processes[i].sockets->Ok_0@[j];
    assert(spec_local_socket(query)->Ok_0.0.port != 0);
}

} // verus!

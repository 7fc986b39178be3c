//! Snapshot of the listening TCP and UDP sockets of a machine, each with the
//! process that owns it.
//!
//! The crate holds the decoding and reconciliation logic: what the operating
//! system hands out as raw tables and records goes in as plain values, and the
//! set of listeners comes out. A set of ports is a `HashSet`. A set of listeners
//! or of processes is a `Vec` that holds nothing twice: these hold a `String`,
//! and nothing is known of how a hash set treats such keys.

use std::collections::HashSet;
use vstd::prelude::*;

pub mod backend;
pub mod bytes;
pub mod error;
pub mod fd_scan;
pub mod model;
pub mod negotiation;
pub mod process_list;
pub mod table;
pub mod table_backend;
pub mod unique;

pub use crate::backend::Backend;
pub use crate::error::BackendError;
pub use crate::model::{IpAddress, Listener, ListenerView, Process, ProcessView, Protocol, SocketAddress};
use crate::unique::{dedup, push_unique, spec_dedup, spec_views, lemma_dedup_contains, lemma_dedup_no_duplicates};

verus! {

broadcast use vstd::std_specs::hash::group_hash_axioms;

/// The keys of the listeners that `keep` accepts, each key once, in the order
/// in which the listeners first give them.
pub open spec fn spec_select<K>(
    listeners: Seq<ListenerView>,
    keep: spec_fn(ListenerView) -> bool,
    key: spec_fn(ListenerView) -> K,
) -> Seq<K>
    decreases listeners.len(),
{
    if listeners.len() == 0 {
        Seq::empty()
    } else {
        let before = spec_select(listeners.drop_last(), keep, key);
        let l = listeners.last();
        if keep(l) && !before.contains(key(l)) {
            before.push(key(l))
        } else {
            before
        }
    }
}

/// All the listeners of a reading, each once.
pub open spec fn spec_get_all<B: Backend>(backend: &B) -> Result<Seq<ListenerView>, BackendError> {
    match backend.spec_enumerate() {
        Ok(listeners) => Ok(spec_dedup(listeners)),
        Err(e) => Err(e),
    }
}

/// The processes that listen on `port`.
pub open spec fn spec_processes_by_port(listeners: Seq<ListenerView>, port: u16) -> Seq<
    ProcessView,
> {
    spec_select(
        listeners,
        |l: ListenerView| l.socket.port == port,
        |l: ListenerView| l.process,
    )
}

/// The ports of the listeners that `keep` accepts.
pub open spec fn spec_ports_where(
    listeners: Seq<ListenerView>,
    keep: spec_fn(ListenerView) -> bool,
) -> Set<u16> {
    Set::new(
        |port: u16|
            exists|l: ListenerView| listeners.contains(l) && keep(l) && l.socket.port == port,
    )
}

/// The ports that the process `pid` listens on.
pub open spec fn spec_ports_by_pid(listeners: Seq<ListenerView>, pid: u32) -> Set<u16> {
    spec_ports_where(listeners, |l: ListenerView| l.process.pid == pid)
}

/// The ports that the processes named `name` listen on.
pub open spec fn spec_ports_by_process_name(listeners: Seq<ListenerView>, name: Seq<char>) -> Set<
    u16,
> {
    spec_ports_where(listeners, |l: ListenerView| l.process.name == name)
}

/// Returns all the listeners.
///
/// The backend is asked once. The result holds no listener twice: two
/// listeners differ in the process id, the process name, the address, the port
/// or the protocol.
///
/// # Errors
///
/// The error of the backend, where it fails to retrieve the listeners.
pub fn get_all<B: Backend>(backend: &B) -> (r: Result<Vec<Listener>, BackendError>)
    ensures
        match spec_get_all(backend) {
            Ok(listeners) => r matches Ok(v) && spec_views(v@) == listeners,
            Err(e) => r == Err::<Vec<Listener>, BackendError>(e),
        },
        r matches Ok(v) ==> spec_views(v@).no_duplicates(),
{
    match backend.enumerate() {
        Ok(listeners) => Ok(dedup(&listeners)),
        Err(e) => Err(e),
    }
}

/// The processes among `listeners` that listen on `port`, each once.
pub fn processes_by_port(listeners: &Vec<Listener>, port: u16) -> (r: Vec<Process>)
    ensures
        spec_views(r@) == spec_processes_by_port(spec_views(listeners@), port),
        spec_views(r@).no_duplicates(),
{
    let mut out: Vec<Process> = Vec::new();
    let mut i: usize = 0;
    assert(spec_views(listeners@).take(0) =~= Seq::empty());
    assert(spec_views(out@) =~= Seq::empty());
    while i < listeners.len()
        invariant
            i <= listeners.len(),
            spec_views(out@) == spec_processes_by_port(
                spec_views(listeners@).take(i as int),
                port,
            ),
        decreases listeners.len() - i,
    {
        proof {
            let next = spec_views(listeners@).take(i + 1);
            assert(next.drop_last() =~= spec_views(listeners@).take(i as int));
            assert(next.last() == listeners@[i as int]@);
        }
        if listeners[i].socket.port == port {
            push_unique(&mut out, listeners[i].process.clone());
        }
        i = i + 1;
    }
    proof {
        assert(spec_views(listeners@).take(listeners@.len() as int) =~= spec_views(listeners@));
        lemma_select_no_duplicates(
            spec_views(listeners@),
            |l: ListenerView| l.socket.port == port,
            |l: ListenerView| l.process,
        );
    }
    out
}

/// No key occurs twice in a selection.
pub proof fn lemma_select_no_duplicates<K>(
    listeners: Seq<ListenerView>,
    keep: spec_fn(ListenerView) -> bool,
    key: spec_fn(ListenerView) -> K,
)
    ensures
        spec_select(listeners, keep, key).no_duplicates(),
    decreases listeners.len(),
{
    if listeners.len() > 0 {
        lemma_select_no_duplicates(listeners.drop_last(), keep, key);
    }
}

/// One more listener adds its port to the ports where `keep` accepts it, and
/// changes nothing where it does not.
pub proof fn lemma_ports_where_push(
    before: Seq<ListenerView>,
    l: ListenerView,
    keep: spec_fn(ListenerView) -> bool,
)
    ensures
        spec_ports_where(before.push(l), keep) == (if keep(l) {
            spec_ports_where(before, keep).insert(l.socket.port)
        } else {
            spec_ports_where(before, keep)
        }),
{
    let next = before.push(l);
    assert(next[before.len() as int] == l);
    assert forall|x: ListenerView| before.contains(x) implies next.contains(x) by {
        let k = choose|k: int| 0 <= k < before.len() && before[k] == x;
        assert(next[k] == x);
    }
    let wanted = if keep(l) {
        spec_ports_where(before, keep).insert(l.socket.port)
    } else {
        spec_ports_where(before, keep)
    };
    assert forall|x: ListenerView| next.contains(x) implies before.contains(x) || x == l by {
        let k = choose|k: int| 0 <= k < next.len() && next[k] == x;
        if k < before.len() {
            assert(before[k] == x);
        }
    }
    assert forall|port: u16| spec_ports_where(next, keep).contains(port) <==> wanted.contains(
        port,
    ) by {
        if spec_ports_where(next, keep).contains(port) {
            let x = choose|x: ListenerView| next.contains(x) && keep(x) && x.socket.port == port;
            if x != l {
                assert(before.contains(x) && keep(x) && x.socket.port == port);
            }
        }
        if spec_ports_where(before, keep).contains(port) {
            let x = choose|x: ListenerView|
                before.contains(x) && keep(x) && x.socket.port == port;
            assert(next.contains(x) && keep(x) && x.socket.port == port);
        }
        if keep(l) && port == l.socket.port {
            assert(next.contains(l) && keep(l) && l.socket.port == port);
        }
    }
    assert(spec_ports_where(next, keep) =~= wanted);
}

/// The ports among `listeners` that the process `pid` listens on.
pub fn ports_by_pid(listeners: &Vec<Listener>, pid: u32) -> (r: HashSet<u16>)
    ensures
        r@ == spec_ports_by_pid(spec_views(listeners@), pid),
{
    let mut out: HashSet<u16> = HashSet::new();
    let mut i: usize = 0;
    assert(out@ =~= spec_ports_by_pid(spec_views(listeners@).take(0), pid));
    while i < listeners.len()
        invariant
            i <= listeners.len(),
            out@ == spec_ports_by_pid(spec_views(listeners@).take(i as int), pid),
        decreases listeners.len() - i,
    {
        proof {
            let before = spec_views(listeners@).take(i as int);
            assert(spec_views(listeners@).take(i + 1) =~= before.push(listeners@[i as int]@));
            lemma_ports_where_push(
                before,
                listeners@[i as int]@,
                |l: ListenerView| l.process.pid == pid,
            );
        }
        if listeners[i].process.pid == pid {
            out.insert(listeners[i].socket.port);
        }
        i = i + 1;
    }
    assert(spec_views(listeners@).take(listeners@.len() as int) =~= spec_views(listeners@));
    out
}

/// The ports among `listeners` that the processes named `name` listen on.
pub fn ports_by_process_name(listeners: &Vec<Listener>, name: &str) -> (r: HashSet<u16>)
    ensures
        r@ == spec_ports_by_process_name(spec_views(listeners@), name@),
{
    let wanted = name.to_string();
    let mut out: HashSet<u16> = HashSet::new();
    let mut i: usize = 0;
    assert(out@ =~= spec_ports_by_process_name(spec_views(listeners@).take(0), name@));
    while i < listeners.len()
        invariant
            i <= listeners.len(),
            wanted@ == name@,
            out@ == spec_ports_by_process_name(spec_views(listeners@).take(i as int), name@),
        decreases listeners.len() - i,
    {
        proof {
            let before = spec_views(listeners@).take(i as int);
            assert(spec_views(listeners@).take(i + 1) =~= before.push(listeners@[i as int]@));
            lemma_ports_where_push(
                before,
                listeners@[i as int]@,
                |l: ListenerView| l.process.name == name@,
            );
        }
        if listeners[i].process.name == wanted {
            out.insert(listeners[i].socket.port);
        }
        i = i + 1;
    }
    assert(spec_views(listeners@).take(listeners@.len() as int) =~= spec_views(listeners@));
    out
}

/// Returns the processes listening on a given port.
///
/// # Errors
///
/// The error of the backend, where it fails to retrieve the listeners.
pub fn get_processes_by_port<B: Backend>(backend: &B, port: u16) -> (r: Result<
    Vec<Process>,
    BackendError,
>)
    ensures
        match spec_get_all(backend) {
            Ok(listeners) => r matches Ok(v) && spec_views(v@) == spec_processes_by_port(
                listeners,
                port,
            ),
            Err(e) => r == Err::<Vec<Process>, BackendError>(e),
        },
        r matches Ok(v) ==> spec_views(v@).no_duplicates(),
{
    match get_all(backend) {
        Ok(listeners) => Ok(processes_by_port(&listeners, port)),
        Err(e) => Err(e),
    }
}

/// Returns the ports listened to by a process given its PID.
///
/// A process that owns no socket gives the empty set, not an error.
///
/// # Errors
///
/// The error of the backend, where it fails to retrieve the listeners.
pub fn get_ports_by_pid<B: Backend>(backend: &B, pid: u32) -> (r: Result<
    HashSet<u16>,
    BackendError,
>)
    ensures
        match spec_get_all(backend) {
            Ok(listeners) => r matches Ok(v) && v@ == spec_ports_by_pid(listeners, pid),
            Err(e) => r matches Err(x) && x == e,
        },
{
    match get_all(backend) {
        Ok(listeners) => Ok(ports_by_pid(&listeners, pid)),
        Err(e) => Err(e),
    }
}

/// Returns the ports listened to by a process given its name.
///
/// # Errors
///
/// The error of the backend, where it fails to retrieve the listeners.
pub fn get_ports_by_process_name<B: Backend>(backend: &B, name: &str) -> (r: Result<
    HashSet<u16>,
    BackendError,
>)
    ensures
        match spec_get_all(backend) {
            Ok(listeners) => r matches Ok(v) && v@ == spec_ports_by_process_name(listeners, name@),
            Err(e) => r matches Err(x) && x == e,
        },
{
    match get_all(backend) {
        Ok(listeners) => Ok(ports_by_process_name(&listeners, name)),
        Err(e) => Err(e),
    }
}

/// A selection holds a key exactly where a listener that `keep` accepts has
/// that key.
pub proof fn lemma_select_contains<K>(
    listeners: Seq<ListenerView>,
    keep: spec_fn(ListenerView) -> bool,
    key: spec_fn(ListenerView) -> K,
    k: K,
)
    ensures
        spec_select(listeners, keep, key).contains(k) <==> exists|l: ListenerView|
            listeners.contains(l) && keep(l) && key(l) == k,
    decreases listeners.len(),
{
    let selected = spec_select(listeners, keep, key);
    if listeners.len() > 0 {
        let front = listeners.drop_last();
        let before = spec_select(front, keep, key);
        let last = listeners.last();
        lemma_select_contains(front, keep, key, k);
        assert(listeners[listeners.len() - 1] == last);
        assert(listeners.contains(last));
        let grows = keep(last) && !before.contains(key(last));
        assert(selected == if grows { before.push(key(last)) } else { before });
        if selected.contains(k) {
            let j = choose|j: int| 0 <= j < selected.len() && selected[j] == k;
            if grows && j == before.len() {
                assert(listeners.contains(last) && keep(last) && key(last) == k);
            } else {
                assert(before[j] == k);
                assert(before.contains(k));
                let l = choose|l: ListenerView| front.contains(l) && keep(l) && key(l) == k;
                let i = choose|i: int| 0 <= i < front.len() && front[i] == l;
                assert(listeners[i] == l);
                assert(listeners.contains(l) && keep(l) && key(l) == k);
            }
        }
        if exists|l: ListenerView| listeners.contains(l) && keep(l) && key(l) == k {
            let l = choose|l: ListenerView| listeners.contains(l) && keep(l) && key(l) == k;
            let i = choose|i: int| 0 <= i < listeners.len() && listeners[i] == l;
            if i < listeners.len() - 1 {
                assert(front[i] == l);
                assert(front.contains(l) && keep(l) && key(l) == k);
            } else {
                assert(l == last);
            }
            if before.contains(k) {
                let j = choose|j: int| 0 <= j < before.len() && before[j] == k;
                assert(selected[j] == k);
            } else {
                assert(l == last);
                assert(grows);
                assert(selected[before.len() as int] == k);
            }
        }
    } else {
        assert(selected =~= Seq::empty());
    }
}

/// No two listeners of a result are the same in process id, process name,
/// address, port and protocol.
pub proof fn lemma_get_all_unique<B: Backend>(backend: &B)
    requires
        spec_get_all(backend) is Ok,
    ensures
        spec_get_all(backend)->Ok_0.no_duplicates(),
        forall|l: ListenerView| #[trigger]
            spec_get_all(backend)->Ok_0.contains(l) <==> backend.spec_enumerate()->Ok_0.contains(
                l,
            ),
{
    let listeners = backend.spec_enumerate()->Ok_0;
    lemma_dedup_no_duplicates(listeners);
    assert forall|l: ListenerView| #[trigger]
        spec_dedup(listeners).contains(l) <==> listeners.contains(l) by {
        lemma_dedup_contains(listeners, l);
    }
}

/// Two readings that hold the same listeners give the same result: the
/// result depends on nothing else.
pub proof fn lemma_get_all_stable<A: Backend, B: Backend>(first: &A, second: &B)
    requires
        first.spec_enumerate() == second.spec_enumerate(),
    ensures
        spec_get_all(first) == spec_get_all(second),
{
}

/// The processes by port are the processes of the listeners of `get_all`
/// whose socket has that port: `{ l.process | l in get_all(), l.socket.port
/// == port }`.
pub proof fn lemma_processes_by_port<B: Backend>(backend: &B, port: u16)
    requires
        spec_get_all(backend) is Ok,
    ensures
        spec_processes_by_port(spec_get_all(backend)->Ok_0, port).to_set() == Set::new(
            |p: ProcessView|
                exists|l: ListenerView|
                    spec_get_all(backend)->Ok_0.contains(l) && l.socket.port == port && l.process
                        == p,
        ),
{
    let all = spec_get_all(backend)->Ok_0;
    let keep = |l: ListenerView| l.socket.port == port;
    let key = |l: ListenerView| l.process;
    let law = Set::new(
        |p: ProcessView|
            exists|l: ListenerView| all.contains(l) && l.socket.port == port && l.process == p,
    );
    assert forall|p: ProcessView| spec_processes_by_port(all, port).to_set().contains(p)
        == law.contains(p) by {
        lemma_select_contains(all, keep, key, p);
        if law.contains(p) {
            let l = choose|l: ListenerView|
                all.contains(l) && l.socket.port == port && l.process == p;
            assert(all.contains(l) && keep(l) && key(l) == p);
        }
    }
    assert(spec_processes_by_port(all, port).to_set() =~= law);
}

/// The ports by PID are the ports of the listeners of `get_all` whose
/// process has that id: `{ l.socket.port | l in get_all(), l.process.pid ==
/// pid }`.
pub proof fn lemma_ports_by_pid<B: Backend>(backend: &B, pid: u32)
    requires
        spec_get_all(backend) is Ok,
    ensures
        spec_ports_by_pid(spec_get_all(backend)->Ok_0, pid) == Set::new(
            |port: u16|
                exists|l: ListenerView|
                    spec_get_all(backend)->Ok_0.contains(l) && l.process.pid == pid
                        && l.socket.port == port,
        ),
{
    let all = spec_get_all(backend)->Ok_0;
    let law = Set::new(
        |port: u16|
            exists|l: ListenerView|
                all.contains(l) && l.process.pid == pid && l.socket.port == port,
    );
    assert forall|port: u16| spec_ports_by_pid(all, pid).contains(port) == law.contains(
        port,
    ) by {
        if spec_ports_by_pid(all, pid).contains(port) {
            let l = choose|l: ListenerView|
                all.contains(l) && (|l: ListenerView| l.process.pid == pid)(l) && l.socket.port
                    == port;
            assert(all.contains(l) && l.process.pid == pid && l.socket.port == port);
        }
        if law.contains(port) {
            let l = choose|l: ListenerView|
                all.contains(l) && l.process.pid == pid && l.socket.port == port;
            assert(all.contains(l) && (|l: ListenerView| l.process.pid == pid)(l) && l.socket.port
                == port);
        }
    }
    assert(spec_ports_by_pid(all, pid) =~= law);
}

/// The ports by process name are the ports of the listeners of `get_all`
/// whose process has that name: `{ l.socket.port | l in get_all(),
/// l.process.name == name }`.
pub proof fn lemma_ports_by_process_name<B: Backend>(backend: &B, name: Seq<char>)
    requires
        spec_get_all(backend) is Ok,
    ensures
        spec_ports_by_process_name(spec_get_all(backend)->Ok_0, name) == Set::new(
            |port: u16|
                exists|l: ListenerView|
                    spec_get_all(backend)->Ok_0.contains(l) && l.process.name == name
                        && l.socket.port == port,
        ),
{
    let all = spec_get_all(backend)->Ok_0;
    let law = Set::new(
        |port: u16|
            exists|l: ListenerView|
                all.contains(l) && l.process.name == name && l.socket.port == port,
    );
    assert forall|port: u16| spec_ports_by_process_name(all, name).contains(port)
        == law.contains(port) by {
        if spec_ports_by_process_name(all, name).contains(port) {
            let l = choose|l: ListenerView|
                all.contains(l) && (|l: ListenerView| l.process.name == name)(l) && l.socket.port
                    == port;
            assert(all.contains(l) && l.process.name == name && l.socket.port == port);
        }
        if law.contains(port) {
            let l = choose|l: ListenerView|
                all.contains(l) && l.process.name == name && l.socket.port == port;
            assert(all.contains(l) && (|l: ListenerView| l.process.name == name)(l)
                && l.socket.port == port);
        }
    }
    assert(spec_ports_by_process_name(all, name) =~= law);
}

} // verus!

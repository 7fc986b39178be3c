//! The backend for systems that hand out their sockets as tables: one table
//! for each address family and protocol, and a snapshot of the process list to
//! find the names of the owning processes.

use vstd::prelude::*;
use crate::backend::Backend;
use crate::error::BackendError;
use crate::model::{Listener, ListenerView, ProcessView, SocketAddress};
use crate::process_list::{
    lemma_pname_absent, pname, spec_pname, ProcessEntry, ProcessSnapshot,
};
use crate::table::{
    lemma_entries_are_rows, spec_decode_row, spec_row, spec_row_addr,
    spec_row_listens, spec_row_pid, spec_row_port, spec_row_port_fits, spec_rows_count,
    spec_table_entries, table_entries, TableKind, TcpListener,
};
use crate::unique::spec_views;
use crate::{lemma_get_all_unique, spec_get_all};

verus! {

/// What was read from the system for one enumeration: the four socket tables
/// as the buffer negotiation left them, and the process snapshot. Each part
/// holds the error instead where it could not be read.
pub struct TableSnapshot {
    pub tcp4: Result<Vec<u8>, BackendError>,
    pub tcp6: Result<Vec<u8>, BackendError>,
    pub udp4: Result<Vec<u8>, BackendError>,
    pub udp6: Result<Vec<u8>, BackendError>,
    pub processes: Result<ProcessSnapshot, BackendError>,
}

/// The listener that an endpoint becomes once its process is found in the
/// snapshot. `Ok(None)` where the process is not there: it has exited, and the
/// endpoint is left out without an error.
pub open spec fn spec_to_listener(entry: TcpListener, processes: Seq<ProcessEntry>) -> Result<
    Option<ListenerView>,
    BackendError,
> {
    match spec_pname(processes, entry.pid) {
        Ok(Some(name)) => Ok(
            Some(
                ListenerView {
                    process: ProcessView { pid: entry.pid, name },
                    socket: SocketAddress { ip: entry.local_addr, port: entry.local_port },
                    protocol: entry.protocol,
                },
            ),
        ),
        Ok(None) => Ok(None),
        Err(e) => Err(e),
    }
}

/// The listeners of the endpoints whose process is found, in the order of the
/// endpoints; the first error where a name cannot be read.
pub open spec fn spec_resolve(entries: Seq<TcpListener>, processes: Seq<ProcessEntry>) -> Result<
    Seq<ListenerView>,
    BackendError,
>
    decreases entries.len(),
{
    if entries.len() == 0 {
        Ok(Seq::empty())
    } else {
        match spec_resolve(entries.drop_last(), processes) {
            Err(e) => Err(e),
            Ok(before) => match spec_to_listener(entries.last(), processes) {
                Err(e) => Err(e),
                Ok(Some(listener)) => Ok(before.push(listener)),
                Ok(None) => Ok(before),
            },
        }
    }
}

/// The endpoints of one table of a snapshot.
pub open spec fn spec_fetched(kind: TableKind, table: Result<Vec<u8>, BackendError>) -> Result<
    Seq<TcpListener>,
    BackendError,
> {
    match table {
        Ok(bytes) => spec_table_entries(kind, bytes@),
        Err(e) => Err(e),
    }
}

impl TcpListener {
    /// Looks the owning process up in the snapshot and builds the listener.
    pub fn to_listener(&self, processes: &Vec<ProcessEntry>) -> (r: Result<
        Option<Listener>,
        BackendError,
    >)
        ensures
            match spec_to_listener(*self, processes@) {
                Ok(Some(listener)) => r matches Ok(Some(l)) && l@ == listener,
                Ok(None) => r matches Ok(None),
                Err(e) => r matches Err(x) && x == e,
            },
    {
        let socket = SocketAddress { ip: self.local_addr, port: self.local_port };
        match pname(self.pid, processes) {
            Ok(Some(name)) => Ok(Some(Listener::new(self.pid, name, socket, self.protocol))),
            Ok(None) => Ok(None),
            Err(e) => Err(e),
        }
    }
}

/// Decodes one table of a snapshot.
pub fn fetched(kind: TableKind, table: &Result<Vec<u8>, BackendError>) -> (r: Result<
    Vec<TcpListener>,
    BackendError,
>)
    ensures
        match spec_fetched(kind, *table) {
            Ok(entries) => r matches Ok(v) && v@ == entries,
            Err(e) => r == Err::<Vec<TcpListener>, BackendError>(e),
        },
{
    match table {
        Ok(bytes) => table_entries(kind, bytes.as_slice()),
        Err(e) => Err(*e),
    }
}

/// Finds the processes of the endpoints and builds the listeners. Endpoints
/// whose process is not in the snapshot are left out.
pub fn resolve(entries: &Vec<TcpListener>, processes: &Vec<ProcessEntry>) -> (r: Result<
    Vec<Listener>,
    BackendError,
>)
    ensures
        match spec_resolve(entries@, processes@) {
            Ok(listeners) => r matches Ok(v) && spec_views(v@) == listeners,
            Err(e) => r == Err::<Vec<Listener>, BackendError>(e),
        },
{
    let mut out: Vec<Listener> = Vec::new();
    let mut i: usize = 0;
    assert(entries@.take(0) =~= Seq::empty());
    assert(spec_views(out@) =~= Seq::empty());
    while i < entries.len()
        invariant
            i <= entries.len(),
            spec_resolve(entries@.take(i as int), processes@) == Ok::<
                Seq<ListenerView>,
                BackendError,
            >(spec_views(out@)),
        decreases entries.len() - i,
    {
        proof {
            let next = entries@.take(i + 1);
            assert(next.drop_last() =~= entries@.take(i as int));
            assert(next.last() == entries@[i as int]);
        }
        let ghost before = spec_views(out@);
        match entries[i].to_listener(processes) {
            Ok(Some(listener)) => {
                out.push(listener);
                assert(spec_views(out@) =~= before.push(listener@));
            },
            Ok(None) => {},
            Err(e) => {
                proof {
                    lemma_resolve_error_stays(entries@, processes@, i + 1);
                }
                return Err(e);
            },
        }
        i = i + 1;
    }
    assert(entries@.take(entries@.len() as int) =~= entries@);
    Ok(out)
}

/// An error among the first `n` endpoints is the error of the whole.
pub proof fn lemma_resolve_error_stays(
    entries: Seq<TcpListener>,
    processes: Seq<ProcessEntry>,
    n: int,
)
    requires
        0 <= n <= entries.len(),
        spec_resolve(entries.take(n), processes) is Err,
    ensures
        spec_resolve(entries, processes) == spec_resolve(entries.take(n), processes),
    decreases entries.len() - n,
{
    if n < entries.len() {
        let front = entries.drop_last();
        assert(front.take(n) =~= entries.take(n));
        lemma_resolve_error_stays(front, processes, n);
    } else {
        assert(entries.take(n) =~= entries);
    }
}

impl TableSnapshot {
    /// The endpoints of the four tables, one table after the other: TCP over
    /// IPv4, TCP over IPv6, UDP over IPv4, UDP over IPv6. The error of the
    /// first table that could not be read or decoded.
    pub open spec fn spec_entries(&self) -> Result<Seq<TcpListener>, BackendError> {
        match spec_fetched(TableKind::Tcp4, self.tcp4) {
            Err(e) => Err(e),
            Ok(a) => match spec_fetched(TableKind::Tcp6, self.tcp6) {
                Err(e) => Err(e),
                Ok(b) => match spec_fetched(TableKind::Udp4, self.udp4) {
                    Err(e) => Err(e),
                    Ok(c) => match spec_fetched(TableKind::Udp6, self.udp6) {
                        Err(e) => Err(e),
                        Ok(d) => Ok(a + b + c + d),
                    },
                },
            },
        }
    }

    /// Decodes the four tables and puts their endpoints together.
    pub fn entries(&self) -> (r: Result<Vec<TcpListener>, BackendError>)
        ensures
            match self.spec_entries() {
                Ok(entries) => r matches Ok(v) && v@ == entries,
                Err(e) => r == Err::<Vec<TcpListener>, BackendError>(e),
            },
    {
        let mut all = match fetched(TableKind::Tcp4, &self.tcp4) {
            Ok(entries) => entries,
            Err(e) => {
                return Err(e);
            },
        };
        let mut tcp6 = match fetched(TableKind::Tcp6, &self.tcp6) {
            Ok(entries) => entries,
            Err(e) => {
                return Err(e);
            },
        };
        let mut udp4 = match fetched(TableKind::Udp4, &self.udp4) {
            Ok(entries) => entries,
            Err(e) => {
                return Err(e);
            },
        };
        let mut udp6 = match fetched(TableKind::Udp6, &self.udp6) {
            Ok(entries) => entries,
            Err(e) => {
                return Err(e);
            },
        };
        all.append(&mut tcp6);
        all.append(&mut udp4);
        all.append(&mut udp6);
        Ok(all)
    }
}

impl Backend for TableSnapshot {
    /// The listeners of the endpoints of the four tables. A table that could
    /// not be read or decoded, a process snapshot that could not be taken and
    /// a name that cannot be read each fail the whole enumeration.
    open spec fn spec_enumerate(&self) -> Result<Seq<ListenerView>, BackendError> {
        match self.spec_entries() {
            Err(e) => Err(e),
            Ok(entries) => match self.processes {
                Err(e) => Err(e),
                Ok(processes) => spec_resolve(entries, processes.spec_records()),
            },
        }
    }

    fn enumerate(&self) -> (r: Result<Vec<Listener>, BackendError>) {
        let entries = match self.entries() {
            Ok(entries) => entries,
            Err(e) => {
                return Err(e);
            },
        };
        match &self.processes {
            Ok(processes) => {
                if processes.released {
                    resolve(&entries, &processes.entries)
                } else {
                    let none: Vec<ProcessEntry> = Vec::new();
                    resolve(&entries, &none)
                }
            },
            Err(e) => Err(*e),
        }
    }
}

impl TableSnapshot {
    /// The table of the given kind.
    pub open spec fn spec_table(&self, kind: TableKind) -> Result<Vec<u8>, BackendError> {
        match kind {
            TableKind::Tcp4 => self.tcp4,
            TableKind::Tcp6 => self.tcp6,
            TableKind::Udp4 => self.udp4,
            TableKind::Udp6 => self.udp6,
        }
    }
}

/// Whether the listener `l` stands for row `index` of the table `kind` of a
/// snapshot: the row is one of the table and listens (for TCP, its state is
/// `LISTEN`; a UDP row has no state), the listener has the row's address,
/// port and process id and the table's protocol, and its name is the one that
/// the process snapshot gives for that id.
pub open spec fn spec_stands_for(
    snapshot: &TableSnapshot,
    kind: TableKind,
    index: int,
    l: ListenerView,
) -> bool {
    &&& snapshot.spec_table(kind) is Ok
    &&& snapshot.processes is Ok
    &&& {
        let table = snapshot.spec_table(kind)->Ok_0@;
        let row = spec_row(kind, table, index);
        &&& 0 <= index < spec_rows_count(table)
        &&& spec_row_listens(kind, row)
        &&& spec_row_port_fits(kind, row)
        &&& l.socket.ip == spec_row_addr(kind, row)
        &&& l.socket.port == spec_row_port(kind, row)
        &&& l.protocol == kind.spec_protocol()
        &&& l.process.pid == spec_row_pid(kind, row)
        &&& spec_pname(snapshot.processes->Ok_0.spec_records(), l.process.pid) == Ok::<
            Option<Seq<char>>,
            BackendError,
        >(Some(l.process.name))
    }
}

/// The listeners that come out are those of the endpoints whose process was
/// found: nothing else comes out, and no such endpoint is lost.
pub proof fn lemma_resolved_are_entries(
    entries: Seq<TcpListener>,
    processes: Seq<ProcessEntry>,
    l: ListenerView,
)
    requires
        spec_resolve(entries, processes) is Ok,
    ensures
        spec_resolve(entries, processes)->Ok_0.contains(l) <==> exists|i: int|
            0 <= i < entries.len() && spec_to_listener(#[trigger] entries[i], processes) == Ok::<
                Option<ListenerView>,
                BackendError,
            >(Some(l)),
    decreases entries.len(),
{
    let listeners = spec_resolve(entries, processes)->Ok_0;
    if entries.len() > 0 {
        let front = entries.drop_last();
        let before = spec_resolve(front, processes)->Ok_0;
        let last = spec_to_listener(entries.last(), processes);
        lemma_resolved_are_entries(front, processes, l);
        assert(entries[entries.len() - 1] == entries.last());
        if listeners.contains(l) {
            let j = choose|j: int| 0 <= j < listeners.len() && listeners[j] == l;
            if last matches Ok(Some(_)) && j == before.len() {
                assert(spec_to_listener(entries[entries.len() - 1], processes) == Ok::<
                    Option<ListenerView>,
                    BackendError,
                >(Some(l)));
            } else {
                assert(before[j] == l);
                assert(before.contains(l));
                let i = choose|i: int|
                    0 <= i < front.len() && spec_to_listener(#[trigger] front[i], processes)
                        == Ok::<Option<ListenerView>, BackendError>(Some(l));
                assert(entries[i] == front[i]);
            }
        }
        if exists|i: int|
            0 <= i < entries.len() && spec_to_listener(#[trigger] entries[i], processes) == Ok::<
                Option<ListenerView>,
                BackendError,
            >(Some(l)) {
            let i = choose|i: int|
                0 <= i < entries.len() && spec_to_listener(#[trigger] entries[i], processes)
                    == Ok::<Option<ListenerView>, BackendError>(Some(l));
            if i < entries.len() - 1 {
                assert(front[i] == entries[i]);
                assert(before.contains(l));
                let j = choose|j: int| 0 <= j < before.len() && before[j] == l;
                assert(listeners[j] == l);
            } else {
                assert(listeners[before.len() as int] == l);
            }
        }
    } else {
        assert(listeners =~= Seq::empty());
    }
}

/// An endpoint is among those of a table of a snapshot exactly where a row
/// that the header announces decodes to it.
pub proof fn lemma_fetched_are_rows(
    kind: TableKind,
    table: Result<Vec<u8>, BackendError>,
    entry: TcpListener,
)
    requires
        spec_fetched(kind, table) is Ok,
    ensures
        table is Ok,
        spec_fetched(kind, table)->Ok_0.contains(entry) <==> exists|i: int|
            0 <= i < spec_rows_count(table->Ok_0@) && spec_decode_row(
                kind,
                #[trigger] spec_row(kind, table->Ok_0@, i),
            ) == Some(entry),
{
    let bytes = table->Ok_0@;
    lemma_entries_are_rows(kind, bytes, spec_rows_count(bytes) as nat, entry);
}

/// Whether row `index` of the table `kind` of a snapshot decodes to `entry`.
pub open spec fn spec_entry_of(
    snapshot: &TableSnapshot,
    kind: TableKind,
    index: int,
    entry: TcpListener,
) -> bool {
    &&& snapshot.spec_table(kind) is Ok
    &&& 0 <= index < spec_rows_count(snapshot.spec_table(kind)->Ok_0@)
    &&& spec_decode_row(kind, spec_row(kind, snapshot.spec_table(kind)->Ok_0@, index)) == Some(
        entry,
    )
}

/// An item is in four sequences put together exactly where it is in one of
/// them.
proof fn lemma_concat_contains<A>(a: Seq<A>, b: Seq<A>, c: Seq<A>, d: Seq<A>, x: A)
    ensures
        (a + b + c + d).contains(x) <==> a.contains(x) || b.contains(x) || c.contains(x)
            || d.contains(x),
{
    let all = a + b + c + d;
    if all.contains(x) {
        let i = choose|i: int| 0 <= i < all.len() && all[i] == x;
        if i < a.len() {
            assert(a[i] == x);
        } else if i < a.len() + b.len() {
            assert(b[i - a.len()] == x);
        } else if i < a.len() + b.len() + c.len() {
            assert(c[i - a.len() - b.len()] == x);
        } else {
            assert(d[i - a.len() - b.len() - c.len()] == x);
        }
    }
    if a.contains(x) {
        let j = choose|j: int| 0 <= j < a.len() && a[j] == x;
        assert(all[j] == x);
    }
    if b.contains(x) {
        let j = choose|j: int| 0 <= j < b.len() && b[j] == x;
        assert(all[a.len() + j] == x);
    }
    if c.contains(x) {
        let j = choose|j: int| 0 <= j < c.len() && c[j] == x;
        assert(all[a.len() + b.len() + j] == x);
    }
    if d.contains(x) {
        let j = choose|j: int| 0 <= j < d.len() && d[j] == x;
        assert(all[a.len() + b.len() + c.len() + j] == x);
    }
}

/// The endpoints of a snapshot are those of the rows of its four tables.
pub proof fn lemma_entries_of_snapshot(snapshot: &TableSnapshot, entry: TcpListener)
    requires
        snapshot.spec_entries() is Ok,
    ensures
        snapshot.spec_entries()->Ok_0.contains(entry) <==> exists|kind: TableKind, index: int|
            spec_entry_of(snapshot, kind, index, entry),
{
    let a = spec_fetched(TableKind::Tcp4, snapshot.tcp4)->Ok_0;
    let b = spec_fetched(TableKind::Tcp6, snapshot.tcp6)->Ok_0;
    let c = spec_fetched(TableKind::Udp4, snapshot.udp4)->Ok_0;
    let d = spec_fetched(TableKind::Udp6, snapshot.udp6)->Ok_0;
    assert(snapshot.spec_entries() == Ok::<Seq<TcpListener>, BackendError>(a + b + c + d));
    lemma_concat_contains(a, b, c, d, entry);
    lemma_fetched_are_rows(TableKind::Tcp4, snapshot.tcp4, entry);
    lemma_fetched_are_rows(TableKind::Tcp6, snapshot.tcp6, entry);
    lemma_fetched_are_rows(TableKind::Udp4, snapshot.udp4, entry);
    lemma_fetched_are_rows(TableKind::Udp6, snapshot.udp6, entry);
    if snapshot.spec_entries()->Ok_0.contains(entry) {
        let kind = if a.contains(entry) {
            TableKind::Tcp4
        } else if b.contains(entry) {
            TableKind::Tcp6
        } else if c.contains(entry) {
            TableKind::Udp4
        } else {
            TableKind::Udp6
        };
        let table = snapshot.spec_table(kind)->Ok_0@;
        let index = choose|index: int|
            0 <= index < spec_rows_count(table) && spec_decode_row(
                kind,
                #[trigger] spec_row(kind, table, index),
            ) == Some(entry);
        assert(spec_entry_of(snapshot, kind, index, entry));
    }
    if exists|kind: TableKind, index: int| spec_entry_of(snapshot, kind, index, entry) {
        let (kind, index) = choose|kind: TableKind, index: int|
            spec_entry_of(snapshot, kind, index, entry);
        let table = snapshot.spec_table(kind)->Ok_0@;
        assert(spec_decode_row(kind, spec_row(kind, table, index)) == Some(entry));
    }
}

/// A listener stands for a row exactly where the row decodes to an endpoint
/// that becomes this listener.
pub proof fn lemma_stands_for(
    snapshot: &TableSnapshot,
    kind: TableKind,
    index: int,
    l: ListenerView,
)
    requires
        snapshot.processes is Ok,
    ensures
        spec_stands_for(snapshot, kind, index, l) <==> exists|entry: TcpListener|
            spec_entry_of(snapshot, kind, index, entry) && #[trigger] spec_to_listener(
                entry,
                snapshot.processes->Ok_0.spec_records(),
            ) == Ok::<Option<ListenerView>, BackendError>(Some(l)),
{
    let processes = snapshot.processes->Ok_0.spec_records();
    if spec_stands_for(snapshot, kind, index, l) {
        let table = snapshot.spec_table(kind)->Ok_0@;
        let entry = spec_decode_row(kind, spec_row(kind, table, index))->Some_0;
        assert(spec_entry_of(snapshot, kind, index, entry));
        assert(spec_to_listener(entry, processes) == Ok::<Option<ListenerView>, BackendError>(
            Some(l),
        ));
    }
}

/// What an enumeration returns, listener by listener: a listener is in the
/// result exactly where it stands for a row of one of the four tables. So
/// every TCP listener of the result was in the `LISTEN` state, every UDP row
/// gives a listener, and a listener's port is the port of its row.
pub proof fn lemma_listeners_are_rows(snapshot: &TableSnapshot, l: ListenerView)
    requires
        snapshot.spec_enumerate() is Ok,
    ensures
        snapshot.spec_enumerate()->Ok_0.contains(l) <==> exists|kind: TableKind, index: int|
            spec_stands_for(snapshot, kind, index, l),
{
    let processes = snapshot.processes->Ok_0.spec_records();
    let entries = snapshot.spec_entries()->Ok_0;
    let listeners = snapshot.spec_enumerate()->Ok_0;
    lemma_resolved_are_entries(entries, processes, l);
    if listeners.contains(l) {
        let i = choose|i: int|
            0 <= i < entries.len() && spec_to_listener(#[trigger] entries[i], processes) == Ok::<
                Option<ListenerView>,
                BackendError,
            >(Some(l));
        let entry = entries[i];
        assert(entries.contains(entry));
        lemma_entries_of_snapshot(snapshot, entry);
        let (kind, index) = choose|kind: TableKind, index: int|
            spec_entry_of(snapshot, kind, index, entry);
        lemma_stands_for(snapshot, kind, index, l);
    }
    if exists|kind: TableKind, index: int| spec_stands_for(snapshot, kind, index, l) {
        let (kind, index) = choose|kind: TableKind, index: int|
            spec_stands_for(snapshot, kind, index, l);
        lemma_stands_for(snapshot, kind, index, l);
        let entry = choose|entry: TcpListener|
            spec_entry_of(snapshot, kind, index, entry) && #[trigger] spec_to_listener(
                entry,
                processes,
            ) == Ok::<Option<ListenerView>, BackendError>(Some(l));
        lemma_entries_of_snapshot(snapshot, entry);
        assert(entries.contains(entry));
        let i = choose|i: int| 0 <= i < entries.len() && entries[i] == entry;
        assert(spec_to_listener(entries[i], processes) == Ok::<
            Option<ListenerView>,
            BackendError,
        >(Some(l)));
    }
}

/// Every listener has a port above zero, as long as no row that gives an
/// endpoint holds the port zero: the port of a listener is the port of its
/// row. Rows that are left out may hold any port.
pub proof fn lemma_listener_ports_positive(snapshot: &TableSnapshot, l: ListenerView)
    requires
        snapshot.spec_enumerate() is Ok,
        snapshot.spec_enumerate()->Ok_0.contains(l),
        forall|kind: TableKind, index: int, entry: TcpListener| #[trigger]
            spec_entry_of(snapshot, kind, index, entry) ==> entry.local_port != 0,
    ensures
        l.socket.port > 0,
{
    lemma_listeners_are_rows(snapshot, l);
    let (kind, index) = choose|kind: TableKind, index: int|
        spec_stands_for(snapshot, kind, index, l);
    lemma_stands_for(snapshot, kind, index, l);
    let entry = choose|entry: TcpListener|
        spec_entry_of(snapshot, kind, index, entry) && #[trigger] spec_to_listener(
            entry,
            snapshot.processes->Ok_0.spec_records(),
        ) == Ok::<Option<ListenerView>, BackendError>(Some(l));
    assert(entry.local_port != 0);
}

/// An endpoint whose process is not in the snapshot changes nothing: the
/// result is the one that the other endpoints give, and where they give no
/// error there is none. A process that exits between the reading of the
/// tables and the process snapshot is left out, and the call still succeeds.
pub proof fn lemma_vanished_process_dropped(
    entries: Seq<TcpListener>,
    processes: Seq<ProcessEntry>,
    index: int,
)
    requires
        0 <= index < entries.len(),
        forall|j: int| 0 <= j < processes.len() ==> (#[trigger] processes[j]).pid != entries[index].pid,
    ensures
        spec_resolve(entries, processes) == spec_resolve(entries.remove(index), processes),
    decreases entries.len(),
{
    let front = entries.drop_last();
    if index == entries.len() - 1 {
        lemma_pname_absent(processes, entries[index].pid);
        assert(entries.remove(index) =~= front);
    } else {
        lemma_vanished_process_dropped(front, processes, index);
        let rest = entries.remove(index);
        assert(rest.drop_last() =~= front.remove(index));
        assert(rest.last() == entries.last());
    }
}

/// The process of every listener of the result was in the process snapshot:
/// no listener comes out with a name that was not read there.
pub proof fn lemma_listener_process_in_snapshot(snapshot: &TableSnapshot, l: ListenerView)
    requires
        snapshot.spec_enumerate() is Ok,
        snapshot.spec_enumerate()->Ok_0.contains(l),
    ensures
        snapshot.processes is Ok,
        exists|j: int|
            0 <= j < snapshot.processes->Ok_0.spec_records().len() && (#[trigger] snapshot.processes->Ok_0.spec_records()[j]).pid
                == l.process.pid,
{
    lemma_listeners_are_rows(snapshot, l);
    let (kind, index) = choose|kind: TableKind, index: int|
        spec_stands_for(snapshot, kind, index, l);
    lemma_pname_absent(snapshot.processes->Ok_0.spec_records(), l.process.pid);
}

/// Whether two process snapshots hold the same records: the same ids and the
/// same bytes in the name fields, in the same order.
pub open spec fn spec_same_processes(a: Seq<ProcessEntry>, b: Seq<ProcessEntry>) -> bool {
    &&& a.len() == b.len()
    &&& forall|i: int|
        0 <= i < a.len() ==> (#[trigger] a[i]).pid == b[i].pid && a[i].exe_file@ == b[i].exe_file@
}

/// Whether two tables were read alike: the same bytes, or the same error.
pub open spec fn spec_same_table(
    a: Result<Vec<u8>, BackendError>,
    b: Result<Vec<u8>, BackendError>,
) -> bool {
    match (a, b) {
        (Ok(x), Ok(y)) => x@ == y@,
        (Err(e), Err(f)) => e == f,
        _ => false,
    }
}

impl TableSnapshot {
    /// Whether two snapshots hold the same reading of the system: nothing
    /// has changed in the sockets or in the processes between the two.
    pub open spec fn spec_same_reading(&self, other: &TableSnapshot) -> bool {
        &&& spec_same_table(self.tcp4, other.tcp4)
        &&& spec_same_table(self.tcp6, other.tcp6)
        &&& spec_same_table(self.udp4, other.udp4)
        &&& spec_same_table(self.udp6, other.udp6)
        &&& match (self.processes, other.processes) {
            (Ok(x), Ok(y)) => spec_same_processes(x.spec_records(), y.spec_records()),
            (Err(e), Err(f)) => e == f,
            _ => false,
        }
    }
}

/// Two snapshots with the same records give every process the same name.
pub proof fn lemma_same_processes_same_name(a: Seq<ProcessEntry>, b: Seq<ProcessEntry>, pid: u32)
    requires
        spec_same_processes(a, b),
    ensures
        spec_pname(a, pid) == spec_pname(b, pid),
    decreases a.len(),
{
    if a.len() > 0 {
        assert(a[0].pid == b[0].pid && a[0].exe_file@ == b[0].exe_file@);
        let x = a.drop_first();
        let y = b.drop_first();
        assert forall|i: int| 0 <= i < x.len() implies (#[trigger] x[i]).pid == y[i].pid
            && x[i].exe_file@ == y[i].exe_file@ by {
            assert(x[i] == a[i + 1]);
            assert(y[i] == b[i + 1]);
        }
        lemma_same_processes_same_name(x, y, pid);
    }
}

/// Two snapshots with the same records turn the same endpoints into the same
/// listeners.
pub proof fn lemma_same_processes_same_listeners(
    entries: Seq<TcpListener>,
    a: Seq<ProcessEntry>,
    b: Seq<ProcessEntry>,
)
    requires
        spec_same_processes(a, b),
    ensures
        spec_resolve(entries, a) == spec_resolve(entries, b),
    decreases entries.len(),
{
    if entries.len() > 0 {
        lemma_same_processes_same_listeners(entries.drop_last(), a, b);
        lemma_same_processes_same_name(a, b, entries.last().pid);
    }
}

/// An enumeration depends on nothing but what was read: two snapshots of a
/// system in which no socket and no process has changed give the same
/// listeners in the same order, or the same error.
pub proof fn lemma_same_reading_same_listeners(first: &TableSnapshot, second: &TableSnapshot)
    requires
        first.spec_same_reading(second),
    ensures
        first.spec_enumerate() == second.spec_enumerate(),
{
    assert(first.spec_entries() == second.spec_entries());
    if first.spec_entries() is Ok && first.processes is Ok {
        lemma_same_processes_same_listeners(
            first.spec_entries()->Ok_0,
            first.processes->Ok_0.spec_records(),
            second.processes->Ok_0.spec_records(),
        );
    }
}

/// Whether two listeners are the same process on the same port with the same
/// protocol.
pub open spec fn spec_same_socket(a: ListenerView, b: ListenerView) -> bool {
    a.process.pid == b.process.pid && a.socket.port == b.socket.port && a.protocol == b.protocol
}

/// A socket that listens is found, and found once. Where a row of a table
/// stands for the listener `l`, and no row stands for another listener of
/// that process on that port with that protocol, the result of `get_all`
/// holds `l` at exactly one place, and no other listener of that process on
/// that port with that protocol.
pub proof fn lemma_bound_socket_found_once(
    snapshot: &TableSnapshot,
    kind: TableKind,
    index: int,
    l: ListenerView,
)
    requires
        spec_get_all(snapshot) is Ok,
        spec_stands_for(snapshot, kind, index, l),
        forall|other_kind: TableKind, other_index: int, other: ListenerView|
            #[trigger] spec_stands_for(snapshot, other_kind, other_index, other)
                && spec_same_socket(other, l) ==> other == l,
    ensures
        spec_get_all(snapshot)->Ok_0.contains(l),
        forall|i: int, j: int|
            0 <= i < spec_get_all(snapshot)->Ok_0.len() && 0 <= j < spec_get_all(
                snapshot,
            )->Ok_0.len() && spec_same_socket(#[trigger] spec_get_all(snapshot)->Ok_0[i], l)
                && spec_same_socket(#[trigger] spec_get_all(snapshot)->Ok_0[j], l) ==> i == j
                && spec_get_all(snapshot)->Ok_0[i] == l,
{
    let all = spec_get_all(snapshot)->Ok_0;
    lemma_get_all_unique(snapshot);
    lemma_listeners_are_rows(snapshot, l);
    assert(snapshot.spec_enumerate()->Ok_0.contains(l));
    assert(all.contains(l));
    assert forall|i: int| 0 <= i < all.len() && spec_same_socket(#[trigger] all[i], l) implies all[i]
        == l by {
        let found = all[i];
        assert(all.contains(found));
        assert(snapshot.spec_enumerate()->Ok_0.contains(found));
        lemma_listeners_are_rows(snapshot, found);
        let (other_kind, other_index) = choose|other_kind: TableKind, other_index: int|
            spec_stands_for(snapshot, other_kind, other_index, found);
        assert(spec_stands_for(snapshot, other_kind, other_index, found));
    }
}

} // verus!

//! Decoding of the system's socket tables.
//!
//! A table is a byte buffer: a header that holds the number of rows as a
//! 32-bit integer in the machine's (little-endian) order, and right after it
//! the rows, one after the other, each of the fixed size of its kind. Addresses
//! and ports lie in the rows in network order.
//!
//! Nothing is read from a buffer before its length has been checked.

use vstd::prelude::*;
use vstd::slice::slice_subrange;
use crate::bytes::{be_u128, be_u16, be_u32, le_u32, spec_be_u128, spec_be_u16, spec_be_u32, spec_le_u32};
use crate::error::BackendError;
use crate::model::{IpAddress, Protocol};

verus! {

/// The connection state of a TCP row that is listening.
pub const LISTEN: u32 = 2;

/// The size of a table's header, in bytes.
pub const HEADER_SIZE: usize = 4;

/// The four kinds of socket table: address family by protocol.
#[derive(Clone, Copy, Debug, PartialEq, Eq, Structural)]
pub enum TableKind {
    Tcp4,
    Tcp6,
    Udp4,
    Udp6,
}

/// A listening endpoint as a socket table gives it: the local address and
/// port, and the id of the owning process, whose name is not yet known.
#[derive(Clone, Copy, Debug, PartialEq, Eq, Structural)]
pub struct TcpListener {
    pub local_addr: IpAddress,
    pub local_port: u16,
    pub pid: u32,
    pub protocol: Protocol,
}

impl TcpListener {
    /// The endpoint with these fields.
    pub fn new(local_addr: IpAddress, local_port: u16, pid: u32, protocol: Protocol) -> (r: Self)
        ensures
            r == (TcpListener { local_addr, local_port, pid, protocol }),
    {
        Self { local_addr, local_port, pid, protocol }
    }
}

impl TableKind {
    /// The size of one row, in bytes.
    pub open spec fn spec_row_size(self) -> int {
        match self {
            TableKind::Tcp4 => 24,
            TableKind::Tcp6 => 56,
            TableKind::Udp4 => 12,
            TableKind::Udp6 => 28,
        }
    }

    /// Where in a row the local address starts.
    pub open spec fn spec_addr_offset(self) -> int {
        match self {
            TableKind::Tcp4 => 4,
            _ => 0,
        }
    }

    /// Where in a row the local port starts: a field of four bytes.
    pub open spec fn spec_port_offset(self) -> int {
        match self {
            TableKind::Tcp4 => 8,
            TableKind::Tcp6 => 20,
            TableKind::Udp4 => 4,
            TableKind::Udp6 => 20,
        }
    }

    /// Where in a row the id of the owning process starts.
    pub open spec fn spec_pid_offset(self) -> int {
        match self {
            TableKind::Tcp4 => 20,
            TableKind::Tcp6 => 52,
            TableKind::Udp4 => 8,
            TableKind::Udp6 => 24,
        }
    }

    /// Where in a row the connection state starts; UDP rows have none.
    pub open spec fn spec_state_offset(self) -> Option<int> {
        match self {
            TableKind::Tcp4 => Some(0),
            TableKind::Tcp6 => Some(48),
            _ => None,
        }
    }

    /// The protocol of the rows.
    pub open spec fn spec_protocol(self) -> Protocol {
        match self {
            TableKind::Tcp4 | TableKind::Tcp6 => Protocol::TCP,
            _ => Protocol::UDP,
        }
    }

    /// Whether the rows hold IPv6 addresses.
    pub open spec fn spec_is_v6(self) -> bool {
        self == TableKind::Tcp6 || self == TableKind::Udp6
    }

    /// The size of one row, in bytes.
    pub fn row_size(self) -> (r: usize)
        ensures
            r == self.spec_row_size(),
    {
        match self {
            TableKind::Tcp4 => 24,
            TableKind::Tcp6 => 56,
            TableKind::Udp4 => 12,
            TableKind::Udp6 => 28,
        }
    }

    /// Where in a row the local address starts.
    pub fn addr_offset(self) -> (r: usize)
        ensures
            r == self.spec_addr_offset(),
    {
        match self {
            TableKind::Tcp4 => 4,
            _ => 0,
        }
    }

    /// Where in a row the local port starts.
    pub fn port_offset(self) -> (r: usize)
        ensures
            r == self.spec_port_offset(),
    {
        match self {
            TableKind::Tcp4 => 8,
            TableKind::Tcp6 => 20,
            TableKind::Udp4 => 4,
            TableKind::Udp6 => 20,
        }
    }

    /// Where in a row the id of the owning process starts.
    pub fn pid_offset(self) -> (r: usize)
        ensures
            r == self.spec_pid_offset(),
    {
        match self {
            TableKind::Tcp4 => 20,
            TableKind::Tcp6 => 52,
            TableKind::Udp4 => 8,
            TableKind::Udp6 => 24,
        }
    }

    /// Where in a row the connection state starts; UDP rows have none.
    pub fn state_offset(self) -> (r: Option<usize>)
        ensures
            r.is_some() == self.spec_state_offset().is_some(),
            r matches Some(at) ==> self.spec_state_offset() == Some(at as int),
    {
        match self {
            TableKind::Tcp4 => Some(0),
            TableKind::Tcp6 => Some(48),
            _ => None,
        }
    }

    /// The protocol of the rows.
    pub fn protocol(self) -> (r: Protocol)
        ensures
            r == self.spec_protocol(),
    {
        match self {
            TableKind::Tcp4 | TableKind::Tcp6 => Protocol::TCP,
            _ => Protocol::UDP,
        }
    }

    /// Whether the rows hold IPv6 addresses.
    pub fn is_v6(self) -> (r: bool)
        ensures
            r == self.spec_is_v6(),
    {
        match self {
            TableKind::Tcp6 | TableKind::Udp6 => true,
            _ => false,
        }
    }
}

/// Whether a row of this kind counts as listening: a TCP row whose state is
/// `LISTEN`, or any UDP row, which has no state.
pub open spec fn spec_row_listens(kind: TableKind, row: Seq<u8>) -> bool {
    match kind.spec_state_offset() {
        Some(at) => spec_le_u32(row, at) == LISTEN,
        None => true,
    }
}

/// Whether the port field of a row holds a 16-bit port: its two upper bytes
/// are zero.
pub open spec fn spec_row_port_fits(kind: TableKind, row: Seq<u8>) -> bool {
    row[kind.spec_port_offset() + 2] == 0 && row[kind.spec_port_offset() + 3] == 0
}

/// The local address of a row.
pub open spec fn spec_row_addr(kind: TableKind, row: Seq<u8>) -> IpAddress {
    if kind.spec_is_v6() {
        IpAddress::V6(spec_be_u128(row, kind.spec_addr_offset()) as u128)
    } else {
        IpAddress::V4(spec_be_u32(row, kind.spec_addr_offset()) as u32)
    }
}

/// The local port of a row, in host order.
pub open spec fn spec_row_port(kind: TableKind, row: Seq<u8>) -> u16 {
    spec_be_u16(row, kind.spec_port_offset()) as u16
}

/// The id of the process that owns a row's socket.
pub open spec fn spec_row_pid(kind: TableKind, row: Seq<u8>) -> u32 {
    spec_le_u32(row, kind.spec_pid_offset()) as u32
}

/// The endpoint that a row of `kind.spec_row_size()` bytes stands for, or
/// `None` for a row that is left out: a TCP row that is not listening, or a
/// row whose port field does not hold a 16-bit port.
pub open spec fn spec_decode_row(kind: TableKind, row: Seq<u8>) -> Option<TcpListener> {
    if spec_row_listens(kind, row) && spec_row_port_fits(kind, row) {
        Some(
            TcpListener {
                local_addr: spec_row_addr(kind, row),
                local_port: spec_row_port(kind, row),
                pid: spec_row_pid(kind, row),
                protocol: kind.spec_protocol(),
            },
        )
    } else {
        None
    }
}

/// The number of rows that a table's header announces.
pub open spec fn spec_rows_count(table: Seq<u8>) -> int {
    spec_le_u32(table, 0)
}

/// Whether a buffer is long enough for its header and for the rows that the
/// header announces.
pub open spec fn spec_well_sized(kind: TableKind, table: Seq<u8>) -> bool {
    HEADER_SIZE <= table.len() && HEADER_SIZE + spec_rows_count(table) * kind.spec_row_size()
        <= table.len()
}

/// The bytes of row `index` of a table.
pub open spec fn spec_row(kind: TableKind, table: Seq<u8>, index: int) -> Seq<u8> {
    table.subrange(
        HEADER_SIZE + index * kind.spec_row_size(),
        HEADER_SIZE + (index + 1) * kind.spec_row_size(),
    )
}

/// The endpoints of the first `n` rows of a table, in the order of the rows.
pub open spec fn spec_entries_upto(kind: TableKind, table: Seq<u8>, n: nat) -> Seq<TcpListener>
    decreases n,
{
    if n == 0 {
        Seq::empty()
    } else {
        let before = spec_entries_upto(kind, table, (n - 1) as nat);
        match spec_decode_row(kind, spec_row(kind, table, n - 1)) {
            Some(entry) => before.push(entry),
            None => before,
        }
    }
}

/// The endpoints of a table, or `DecodeFailed` for a buffer that is shorter
/// than its header says.
pub open spec fn spec_table_entries(kind: TableKind, table: Seq<u8>) -> Result<
    Seq<TcpListener>,
    BackendError,
> {
    if spec_well_sized(kind, table) {
        Ok(spec_entries_upto(kind, table, spec_rows_count(table) as nat))
    } else {
        Err(BackendError::DecodeFailed)
    }
}

/// Decodes one row.
///
/// A buffer that has not the size of a row of this kind is refused with
/// `DecodeFailed`. A row that is left out gives `Ok(None)`.
pub fn decode_row(kind: TableKind, row: &[u8]) -> (r: Result<Option<TcpListener>, BackendError>)
    ensures
        r == (if row@.len() == kind.spec_row_size() {
            Ok(spec_decode_row(kind, row@))
        } else {
            Err(BackendError::DecodeFailed)
        }),
{
    if row.len() != kind.row_size() {
        return Err(BackendError::DecodeFailed);
    }
    match kind.state_offset() {
        Some(at) => {
            if le_u32(row, at) != LISTEN {
                return Ok(None);
            }
        },
        None => {},
    }
    let port_at = kind.port_offset();
    if row[port_at + 2] != 0 || row[port_at + 3] != 0 {
        return Ok(None);
    }
    let local_port = be_u16(row, port_at);
    let local_addr = if kind.is_v6() {
        IpAddress::V6(be_u128(row, kind.addr_offset()))
    } else {
        IpAddress::V4(be_u32(row, kind.addr_offset()))
    };
    let pid = le_u32(row, kind.pid_offset());
    Ok(Some(TcpListener::new(local_addr, local_port, pid, kind.protocol())))
}

/// Reads the number of rows from a table's header.
pub fn get_rows_count(table: &[u8]) -> (r: Result<usize, BackendError>)
    ensures
        r == (if HEADER_SIZE <= table@.len() {
            Ok(spec_rows_count(table@) as usize)
        } else {
            Err(BackendError::DecodeFailed)
        }),
        r matches Ok(n) ==> n == spec_rows_count(table@),
{
    if table.len() < HEADER_SIZE {
        return Err(BackendError::DecodeFailed);
    }
    Ok(le_u32(table, 0) as usize)
}

/// Whether row `index` is one of the rows that the header announces and
/// lies within the buffer.
pub open spec fn spec_row_in_table(kind: TableKind, table: Seq<u8>, index: int) -> bool {
    &&& HEADER_SIZE <= table.len()
    &&& 0 <= index < spec_rows_count(table)
    &&& HEADER_SIZE + (index + 1) * kind.spec_row_size() <= table.len()
}

/// Decodes row `index` of a table.
///
/// `DecodeFailed` where the table has no such row, or the buffer ends before
/// the end of the row. A row that is left out gives `Ok(None)`.
pub fn get_tcp_listener(kind: TableKind, table: &[u8], index: usize) -> (r: Result<
    Option<TcpListener>,
    BackendError,
>)
    ensures
        r == (if spec_row_in_table(kind, table@, index as int) {
            Ok(spec_decode_row(kind, spec_row(kind, table@, index as int)))
        } else {
            Err(BackendError::DecodeFailed)
        }),
{
    let count = match get_rows_count(table) {
        Ok(count) => count,
        Err(e) => {
            return Err(e);
        },
    };
    if index >= count {
        return Err(BackendError::DecodeFailed);
    }
    let size = kind.row_size();
    assert(index * size + size == (index + 1) * size) by (nonlinear_arith);
    assert(0 <= index * size <= 0xffff_ffff * 56) by (nonlinear_arith)
        requires
            0 <= index < 0xffff_ffff,
            0 <= size <= 56,
    ;
    let start: u64 = HEADER_SIZE as u64 + (index as u64) * (size as u64);
    let end: u64 = start + size as u64;
    if end > table.len() as u64 {
        return Err(BackendError::DecodeFailed);
    }
    let row = slice_subrange(table, start as usize, end as usize);
    assert(row@ =~= spec_row(kind, table@, index as int));
    decode_row(kind, row)
}

/// Decodes a whole table: the endpoints of its rows, in the order of the
/// rows, without the rows that are left out.
///
/// `DecodeFailed` where the buffer is shorter than its header, or than the
/// rows that the header announces.
pub fn table_entries(kind: TableKind, table: &[u8]) -> (r: Result<Vec<TcpListener>, BackendError>)
    ensures
        match spec_table_entries(kind, table@) {
            Ok(entries) => r matches Ok(v) && v@ == entries,
            Err(e) => r == Err::<Vec<TcpListener>, BackendError>(e),
        },
{
    let count = match get_rows_count(table) {
        Ok(count) => count,
        Err(e) => {
            return Err(e);
        },
    };
    let size = kind.row_size();
    assert(0 <= count * size <= 0xffff_ffff * 56) by (nonlinear_arith)
        requires
            0 <= count <= 0xffff_ffff,
            0 <= size <= 56,
    ;
    if HEADER_SIZE as u64 + (count as u64) * (size as u64) > table.len() as u64 {
        return Err(BackendError::DecodeFailed);
    }
    let mut entries: Vec<TcpListener> = Vec::new();
    let mut i: usize = 0;
    while i < count
        invariant
            i <= count,
            count == spec_rows_count(table@),
            size == kind.spec_row_size(),
            spec_well_sized(kind, table@),
            entries@ == spec_entries_upto(kind, table@, i as nat),
        decreases count - i,
    {
        assert((i + 1) * size <= count * size) by (nonlinear_arith)
            requires
                i + 1 <= count,
                0 <= size,
        ;
        match get_tcp_listener(kind, table, i) {
            Ok(Some(entry)) => {
                entries.push(entry);
            },
            Ok(None) => {},
            Err(e) => {
                return Err(e);
            },
        }
        i = i + 1;
    }
    Ok(entries)
}

/// The endpoints of a table are those of its rows: an endpoint is among the
/// first `n` rows' endpoints exactly where one of these rows decodes to it.
/// So every endpoint of a TCP table stands for a row in the `LISTEN` state,
/// and no such row is lost.
pub proof fn lemma_entries_are_rows(kind: TableKind, table: Seq<u8>, n: nat, entry: TcpListener)
    ensures
        spec_entries_upto(kind, table, n).contains(entry) <==> exists|i: int|
            0 <= i < n && spec_decode_row(kind, #[trigger] spec_row(kind, table, i)) == Some(
                entry,
            ),
    decreases n,
{
    let entries = spec_entries_upto(kind, table, n);
    if n > 0 {
        let before = spec_entries_upto(kind, table, (n - 1) as nat);
        let last = spec_decode_row(kind, spec_row(kind, table, n - 1));
        lemma_entries_are_rows(kind, table, (n - 1) as nat, entry);
        if entries.contains(entry) {
            let j = choose|j: int| 0 <= j < entries.len() && entries[j] == entry;
            if last is Some && j == before.len() {
                assert(spec_decode_row(kind, spec_row(kind, table, n - 1)) == Some(entry));
            } else {
                assert(before[j] == entry);
                assert(before.contains(entry));
            }
        }
        if exists|i: int|
            0 <= i < n && spec_decode_row(kind, #[trigger] spec_row(kind, table, i)) == Some(
                entry,
            ) {
            let i = choose|i: int|
                0 <= i < n && spec_decode_row(kind, #[trigger] spec_row(kind, table, i)) == Some(
                    entry,
                );
            if i < n - 1 {
                assert(before.contains(entry));
                let j = choose|j: int| 0 <= j < before.len() && before[j] == entry;
                assert(entries[j] == entry);
            } else {
                assert(entries[before.len() as int] == entry);
            }
        }
    } else {
        assert(entries =~= Seq::empty());
    }
}

} // verus!

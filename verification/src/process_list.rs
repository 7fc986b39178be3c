//! Process names from a snapshot of the system's process list.
//!
//! A snapshot is the list of records that walking the system's process list
//! gave, in that order, with the outcome of releasing its handle. Each record
//! holds a process id and the name of the executable as a fixed field that
//! ends at its first NUL byte.

use vstd::prelude::*;
use vstd::slice::{slice_subrange, slice_to_vec};
use vstd::utf8::{decode_utf8, valid_utf8};
use crate::error::BackendError;

verus! {

/// One record of a process snapshot: the process id and the raw bytes of the
/// name field.
#[derive(Debug)]
pub struct ProcessEntry {
    pub pid: u32,
    pub exe_file: Vec<u8>,
}

/// A snapshot of the process list: the records that walking it gave, in that
/// order, and whether its handle was released afterwards.
#[derive(Debug)]
pub struct ProcessSnapshot {
    pub entries: Vec<ProcessEntry>,
    pub released: bool,
}

impl ProcessSnapshot {
    /// The records in which names are looked up: those of the snapshot, and
    /// none where its handle could not be released. Then no name counts as
    /// found, and the sockets of every process are left out.
    pub open spec fn spec_records(&self) -> Seq<ProcessEntry> {
        if self.released {
            self.entries@
        } else {
            Seq::empty()
        }
    }
}

/// The number of bytes of `field` that stand before its first NUL byte; the
/// length of the field where it holds none.
pub open spec fn spec_name_len(field: Seq<u8>) -> nat
    decreases field.len(),
{
    if field.len() == 0 || field[0] == 0 {
        0
    } else {
        1 + spec_name_len(field.drop_first())
    }
}

/// The text of a name field: the bytes before the first NUL, read as UTF-8.
/// `None` where the field has no NUL or those bytes are no valid UTF-8.
pub open spec fn spec_decode_name(field: Seq<u8>) -> Option<Seq<char>> {
    let n = spec_name_len(field) as int;
    if n < field.len() && valid_utf8(field.take(n)) {
        Some(decode_utf8(field.take(n)))
    } else {
        None
    }
}

/// The name of the first record of `entries` whose process id is `pid`:
/// `Ok(None)` where no record has that id, `DecodeFailed` where the name
/// field of that record cannot be read.
pub open spec fn spec_pname(entries: Seq<ProcessEntry>, pid: u32) -> Result<
    Option<Seq<char>>,
    BackendError,
>
    decreases entries.len(),
{
    if entries.len() == 0 {
        Ok(None)
    } else if entries[0].pid == pid {
        match spec_decode_name(entries[0].exe_file@) {
            Some(name) => Ok(Some(name)),
            None => Err(BackendError::DecodeFailed),
        }
    } else {
        spec_pname(entries.drop_first(), pid)
    }
}

/// `spec_name_len` is the place of the first NUL byte.
pub proof fn lemma_name_len(field: Seq<u8>, n: int)
    requires
        0 <= n <= field.len(),
        forall|j: int| 0 <= j < n ==> field[j] != 0,
        n < field.len() ==> field[n] == 0,
    ensures
        spec_name_len(field) == n,
    decreases n,
{
    if n > 0 {
        let rest = field.drop_first();
        assert forall|j: int| 0 <= j < n - 1 implies rest[j] != 0 by {
            assert(rest[j] == field[j + 1]);
        }
        lemma_name_len(rest, n - 1);
    }
}

/// A process is not found exactly where no record of the snapshot has its
/// id.
pub proof fn lemma_pname_absent(entries: Seq<ProcessEntry>, pid: u32)
    ensures
        spec_pname(entries, pid) == Ok::<Option<Seq<char>>, BackendError>(None) <==> forall|
            i: int,
        |
            0 <= i < entries.len() ==> (#[trigger] entries[i]).pid != pid,
    decreases entries.len(),
{
    if entries.len() > 0 {
        let rest = entries.drop_first();
        lemma_pname_absent(rest, pid);
        if entries[0].pid != pid {
            if forall|i: int| 0 <= i < rest.len() ==> (#[trigger] rest[i]).pid != pid {
                assert forall|i: int| 0 <= i < entries.len() implies (#[trigger] entries[i]).pid
                    != pid by {
                    if i > 0 {
                        assert(rest[i - 1] == entries[i]);
                    }
                }
            }
            if forall|i: int| 0 <= i < entries.len() ==> (#[trigger] entries[i]).pid != pid {
                assert forall|i: int| 0 <= i < rest.len() implies (#[trigger] rest[i]).pid
                    != pid by {
                    assert(rest[i] == entries[i + 1]);
                }
            }
        }
    }
}

/// `String::from_utf8` of std, its error dropped: `Some` exactly where the
/// bytes are valid UTF-8, and then the text that they encode.
#[verifier::external_body]
fn string_from_utf8(bytes: Vec<u8>) -> (r: Option<String>)
    ensures
        r.is_some() == valid_utf8(bytes@),
        r matches Some(s) ==> s@ == decode_utf8(bytes@),
{
    String::from_utf8(bytes).ok()
}

/// Reads a NUL-terminated name field as text.
pub fn decode_name(field: &[u8]) -> (r: Option<String>)
    ensures
        r.is_some() == spec_decode_name(field@).is_some(),
        r matches Some(s) ==> Some(s@) == spec_decode_name(field@),
{
    let mut n: usize = 0;
    while n < field.len() && field[n] != 0
        invariant
            n <= field.len(),
            forall|j: int| 0 <= j < n ==> field@[j] != 0,
        decreases field.len() - n,
    {
        n = n + 1;
    }
    proof {
        lemma_name_len(field@, n as int);
    }
    if n == field.len() {
        return None;
    }
    let bytes = slice_to_vec(slice_subrange(field, 0, n));
    assert(bytes@ =~= field@.take(n as int));
    string_from_utf8(bytes)
}

/// Looks for the process `pid` in a snapshot and returns its name.
///
/// The records are scanned in order and the first one with that id decides.
/// A process that is not in the snapshot gives `Ok(None)`: it has exited, and
/// whoever asked leaves its sockets out.
pub fn pname(pid: u32, entries: &Vec<ProcessEntry>) -> (r: Result<Option<String>, BackendError>)
    ensures
        match spec_pname(entries@, pid) {
            Ok(Some(name)) => r matches Ok(Some(s)) && s@ == name,
            Ok(None) => r == Ok::<Option<String>, BackendError>(None),
            Err(e) => r == Err::<Option<String>, BackendError>(e),
        },
{
    let mut i: usize = 0;
    assert(entries@.skip(0) =~= entries@);
    while i < entries.len()
        invariant
            i <= entries.len(),
            spec_pname(entries@, pid) == spec_pname(entries@.skip(i as int), pid),
        decreases entries.len() - i,
    {
        proof {
            let rest = entries@.skip(i as int);
            assert(rest[0] == entries@[i as int]);
            assert(rest.drop_first() =~= entries@.skip(i + 1));
        }
        if entries[i].pid == pid {
            return match decode_name(entries[i].exe_file.as_slice()) {
                Some(name) => Ok(Some(name)),
                None => Err(BackendError::DecodeFailed),
            };
        }
        i = i + 1;
    }
    Ok(None)
}

} // verus!

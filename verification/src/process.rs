//! Typed process entries and name-based process resolution.
//!
//! Process enumeration reports one raw fixed-size record per running
//! process. The library types each record: the process identifier and
//! the raw wide-character name buffer are kept as plain values, and the
//! executable name is decoded from the buffer's prefix up to the first
//! null unit. Resolution by name finds the first entry whose decoded
//! name equals the wanted one, case-sensitively.

use vstd::prelude::*;
use vstd::string::StrSliceExecFns;

use crate::decode::copy_units;
use crate::decode::is_wide_text;
use crate::decode::null_prefix;
use crate::decode::u16_to_string;
use crate::decode::wide_chars;
use crate::errors::ToolkitError;

verus! {

/// The fields of one raw process-snapshot record that the toolkit
/// reads: the OS-assigned process identifier and the fixed-width,
/// null-terminated wide-character executable name buffer.
pub struct RawProcessEntry {
    /// The OS-assigned process identifier; it may be reused after the
    /// process exits.
    pub process_id: u32,
    /// The fixed-width wide-character executable name buffer.
    pub name_units: Vec<u16>,
}

/// One running process at snapshot time: the raw record's fields and
/// the decoded executable file name.
pub struct ProcessEntryWrapper {
    /// The OS-assigned process identifier.
    pub process_id: u32,
    /// The raw fixed-width wide-character name buffer, as reported.
    pub raw_name: Vec<u16>,
    /// The decoded executable file name.
    pub executable_name: String,
}

impl ProcessEntryWrapper {
    /// The decoded name is the decoding of the raw buffer's prefix up
    /// to (and excluding) its first null unit.
    pub open spec fn wf(&self) -> bool {
        &&& is_wide_text(null_prefix(self.raw_name@))
        &&& self.executable_name@ == wide_chars(null_prefix(self.raw_name@))
    }

    /// Types one raw record, decoding its name buffer; an undecodable
    /// buffer is a `DecodeError`.
    pub fn new(process_id: u32, raw_name: Vec<u16>) -> (r: Result<
        ProcessEntryWrapper,
        ToolkitError,
    >)
        ensures
            r is Ok <==> is_wide_text(null_prefix(raw_name@)),
            r matches Ok(e) ==> e.wf() && e.process_id == process_id && e.raw_name@ == raw_name@,
            r matches Err(e) ==> e == ToolkitError::DecodeError,
    {
        match u16_to_string(raw_name.as_slice()) {
            Ok(executable_name) => Ok(
                ProcessEntryWrapper { process_id, raw_name, executable_name },
            ),
            Err(e) => Err(e),
        }
    }
}

/// The decoding step of process enumeration: types the raw records of
/// one snapshot in order; the first undecodable name buffer fails the
/// whole enumeration with `DecodeError`.
pub fn list_processes_from_records(records: &Vec<RawProcessEntry>) -> (r: Result<
    Vec<ProcessEntryWrapper>,
    ToolkitError,
>)
    ensures
        r is Ok <==> (forall|k: int|
            0 <= k < records@.len() ==> is_wide_text(
                null_prefix((#[trigger] records@[k]).name_units@),
            )),
        r matches Ok(es) ==> es@.len() == records@.len() && (forall|k: int|
            0 <= k < records@.len() ==> {
                &&& (#[trigger] es@[k]).wf()
                &&& es@[k].process_id == records@[k].process_id
                &&& es@[k].raw_name@ == records@[k].name_units@
            }),
        r matches Err(e) ==> e == ToolkitError::DecodeError,
{
    let n = records.len();
    let mut out: Vec<ProcessEntryWrapper> = Vec::new();
    let mut i: usize = 0;
    while i < n
        invariant
            0 <= i <= n == records@.len(),
            out@.len() == i,
            forall|k: int|
                0 <= k < i ==> is_wide_text(null_prefix((#[trigger] records@[k]).name_units@)),
            forall|k: int|
                0 <= k < i ==> {
                    &&& (#[trigger] out@[k]).wf()
                    &&& out@[k].process_id == records@[k].process_id
                    &&& out@[k].raw_name@ == records@[k].name_units@
                },
        decreases n - i,
    {
        let units = copy_units(records[i].name_units.as_slice());
        match ProcessEntryWrapper::new(records[i].process_id, units) {
            Ok(entry) => {
                out.push(entry);
            },
            Err(e) => {
                return Err(e);
            },
        }
        i = i + 1;
    }
    Ok(out)
}

/// Whether two strings hold the same characters.
pub fn str_eq(a: &str, b: &str) -> (r: bool)
    ensures
        r == (a@ == b@),
{
    let an = a.unicode_len();
    let bn = b.unicode_len();
    if an != bn {
        return false;
    }
    let mut i: usize = 0;
    while i < an
        invariant
            0 <= i <= an,
            an == a@.len(),
            an == b@.len(),
            forall|j: int| 0 <= j < i ==> a@[j] == b@[j],
        decreases an - i,
    {
        if a.get_char(i) != b.get_char(i) {
            return false;
        }
        i = i + 1;
    }
    proof {
        assert(a@ =~= b@);
    }
    true
}

/// Resolves a process identifier by executable name: the identifier of
/// the first entry whose decoded name exactly equals `name`
/// (case-sensitive, first match wins), or nothing when no entry's name
/// matches.
pub fn resolve_process_id(entries: &Vec<ProcessEntryWrapper>, name: &str) -> (r: Option<u32>)
    ensures
        r is None <==> (forall|k: int|
            0 <= k < entries@.len() ==> (#[trigger] entries@[k]).executable_name@ != name@),
        r matches Some(pid) ==> exists|k: int|
            0 <= k < entries@.len() && ((#[trigger] entries@[k]).executable_name@ == name@ && pid
                == entries@[k].process_id && (forall|j: int|
                0 <= j < k ==> (#[trigger] entries@[j]).executable_name@ != name@)),
{
    let n = entries.len();
    let mut i: usize = 0;
    while i < n
        invariant
            0 <= i <= n == entries@.len(),
            forall|j: int| 0 <= j < i ==> (#[trigger] entries@[j]).executable_name@ != name@,
        decreases n - i,
    {
        if str_eq(entries[i].executable_name.as_str(), name) {
            return Some(entries[i].process_id);
        }
        i = i + 1;
    }
    None
}

} // verus!

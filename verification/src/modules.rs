//! Typed module entries of one target process.
//!
//! Module enumeration reports one raw fixed-size record per module
//! loaded in a target process. The library types each record: the
//! owning process identifier, the module's base address and the raw
//! wide-character name buffer are kept as plain values, and the module
//! file name is decoded from the buffer's prefix up to the first null
//! unit — the same decoding rule as for process entries.

use vstd::prelude::*;

use crate::decode::copy_units;
use crate::decode::is_wide_text;
use crate::decode::null_prefix;
use crate::decode::u16_to_string;
use crate::decode::wide_chars;
use crate::errors::ToolkitError;

verus! {

/// The fields of one raw module-snapshot record that the toolkit
/// reads.
pub struct RawModuleEntry {
    /// The identifier of the process the module is loaded in.
    pub process_id: u32,
    /// The base address of the module's mapped region, valid only
    /// within the address space of that process.
    pub base_address: usize,
    /// The fixed-width wide-character module name buffer.
    pub name_units: Vec<u16>,
}

/// One module loaded inside a specific process at snapshot time.
pub struct ModuleEntryWrapper {
    /// The identifier of the owning process.
    pub process_id: u32,
    /// The base address of the module's mapped region; the
    /// conventional starting point of a memory-region walk.
    pub base_address: usize,
    /// The raw fixed-width wide-character name buffer, as reported.
    pub raw_name: Vec<u16>,
    /// The decoded module file name.
    pub module_name: String,
}

impl ModuleEntryWrapper {
    /// The decoded name is the decoding of the raw buffer's prefix up
    /// to (and excluding) its first null unit.
    pub open spec fn wf(&self) -> bool {
        &&& is_wide_text(null_prefix(self.raw_name@))
        &&& self.module_name@ == wide_chars(null_prefix(self.raw_name@))
    }

    /// Types one raw record, decoding its name buffer; an undecodable
    /// buffer is a `DecodeError`.
    pub fn new(process_id: u32, base_address: usize, raw_name: Vec<u16>) -> (r: Result<
        ModuleEntryWrapper,
        ToolkitError,
    >)
        ensures
            r is Ok <==> is_wide_text(null_prefix(raw_name@)),
            r matches Ok(e) ==> e.wf() && e.process_id == process_id && e.base_address
                == base_address && e.raw_name@ == raw_name@,
            r matches Err(e) ==> e == ToolkitError::DecodeError,
    {
        match u16_to_string(raw_name.as_slice()) {
            Ok(module_name) => Ok(
                ModuleEntryWrapper { process_id, base_address, raw_name, module_name },
            ),
            Err(e) => Err(e),
        }
    }
}

/// The decoding step of module enumeration: types the raw records of
/// one snapshot in order; the first undecodable name buffer fails the
/// whole enumeration with `DecodeError`.
pub fn process_modules_from_records(records: &Vec<RawModuleEntry>) -> (r: Result<
    Vec<ModuleEntryWrapper>,
    ToolkitError,
>)
    ensures
        r is Ok <==> (forall|k: int|
            0 <= k < records@.len() ==> is_wide_text(
                null_prefix((#[trigger] records@[k]).name_units@),
            )),
        r matches Ok(es) ==> es@.len() == records@.len() && (forall|k: int|
            0 <= k < records@.len() ==> {
                &&& (#[trigger] es@[k]).wf()
                &&& es@[k].process_id == records@[k].process_id
                &&& es@[k].base_address == records@[k].base_address
                &&& es@[k].raw_name@ == records@[k].name_units@
            }),
        r matches Err(e) ==> e == ToolkitError::DecodeError,
{
    let n = records.len();
    let mut out: Vec<ModuleEntryWrapper> = Vec::new();
    let mut i: usize = 0;
    while i < n
        invariant
            0 <= i <= n == records@.len(),
            out@.len() == i,
            forall|k: int|
                0 <= k < i ==> is_wide_text(null_prefix((#[trigger] records@[k]).name_units@)),
            forall|k: int|
                0 <= k < i ==> {
                    &&& (#[trigger] out@[k]).wf()
                    &&& out@[k].process_id == records@[k].process_id
                    &&& out@[k].base_address == records@[k].base_address
                    &&& out@[k].raw_name@ == records@[k].name_units@
                },
        decreases n - i,
    {
        let units = copy_units(records[i].name_units.as_slice());
        match ModuleEntryWrapper::new(records[i].process_id, records[i].base_address, units) {
            Ok(entry) => {
                out.push(entry);
            },
            Err(e) => {
                return Err(e);
            },
        }
        i = i + 1;
    }
    Ok(out)
}

} // verus!

//! Process- and memory-introspection toolkit.
//!
//! The library models the data that the host operating system's process,
//! module and virtual-memory query primitives report, and verifies the
//! logic built on top of them: decoding fixed-width wide-character name
//! buffers, building typed process and module entries, resolving a process
//! identifier by executable name, the exclusive-ownership lifecycle of a
//! process handle, and the walk over contiguous committed readable memory
//! regions. The raw operating-system calls themselves live outside the
//! library, in the thin consumer that feeds their results in as plain
//! values.

pub mod decode;
pub mod errors;
pub mod handle;
pub mod modules;
pub mod process;
pub mod region;

//! Bring-up layer of a bare-metal RISC-V kernel: a physical page allocator
//! and the driver of its memory-mapped console.
//!
//! Nothing in this crate touches hardware. The allocator works on a slice of
//! page descriptors that its caller places at the start of the heap, and the
//! console driver computes the register accesses that its caller performs.

use vstd::prelude::*;

pub mod page;
pub mod requests;
pub mod table;
pub mod uart;

verus! {

/// Address of the test device through which the emulator is told to stop.
pub const QEMU_EXIT_ADDRESS: u64 = 0x10_0000;

/// How a run under the emulator ended.
#[derive(Clone, Copy, Debug, PartialEq, Eq, Structural)]
pub enum ExitStatus {
    Success,
    Failure,
}

/// A request to the emulator to stop: the address of its test device and
/// the status to report. The caller carries it out and does not return.
#[derive(Clone, Copy, Debug, PartialEq, Eq, Structural)]
pub struct ExitRequest {
    pub address: u64,
    pub status: ExitStatus,
}

/// The request that stops the emulator and reports a failure.
pub fn qemu_exit_fail() -> (request: ExitRequest)
    ensures
        request == (ExitRequest { address: QEMU_EXIT_ADDRESS, status: ExitStatus::Failure }),
{
    ExitRequest { address: QEMU_EXIT_ADDRESS, status: ExitStatus::Failure }
}

/// The request that stops the emulator and reports success.
pub fn qemu_exit_success() -> (request: ExitRequest)
    ensures
        request == (ExitRequest { address: QEMU_EXIT_ADDRESS, status: ExitStatus::Success }),
{
    ExitRequest { address: QEMU_EXIT_ADDRESS, status: ExitStatus::Success }
}

} // verus!

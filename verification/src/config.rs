//! Compile-time configuration of the kernel.

use vstd::prelude::*;

verus! {

/// Kernel configuration common to all architectures.
pub trait KernelConfigInterface {
    /// Rate of the scheduler's monotonic tick.
    const SCHEDULER_TICK_HZ: u32 = 100;

    /// The number of bytes allocated for each kernel stack.
    const KERNEL_STACK_SIZE_BYTES: usize = 2048;
}

/// Configuration specific to Cortex-M.
pub trait CortexMKernelConfigInterface {
    /// Rate of the Cortex-M systick system timer.
    const SYS_TICK_HZ: u32;
}

/// Configuration specific to RISC-V.
pub trait RiscVKernelConfigInterface {
    /// Number of PMP entries: 0, 16 or 64.
    const PMP_ENTRIES: usize;

    /// Number of pmpcfgN registers: a quarter of the entries on rv32, an
    /// eighth of them on rv64.
    const PMP_CFG_REGISTERS: usize;
}

} // verus!

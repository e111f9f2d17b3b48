//! Abstract capability interfaces for the machine underneath: the MCU
//! itself, its interrupt controller, and the system tick timer.
//!
//! These are collaborator interfaces only: the allocator components consume
//! regions produced by an `MCU` implementation but never call back into it.
//! Implementations live with the board- or chip-specific glue, outside this
//! core.

use vstd::prelude::*;
use crate::memory::IOVec;

verus! {

/// Generic handling and initialization of an MCU.
pub trait MCU {
    /// The interrupt-controller implementation this MCU exposes.
    type Nvic: NVIC;

    /// The MCU's nested vector interrupt controller.
    fn get_nvic(&self) -> &Self::Nvic;

    /// The region of memory dedicated to the stack.
    fn stack_memory(&self) -> IOVec;

    /// The region of memory dedicated to the heap.
    fn heap_memory(&self) -> IOVec;
}

/// Standard interface to a nested vector interrupt controller.
pub trait NVIC {
    /// Enables the given IRQ.
    fn enable_irq(&self, irq: u8);

    /// Disables the given IRQ.
    fn disable_irq(&self, irq: u8);

    /// Whether the given IRQ is enabled.
    fn is_enabled(&self, irq: u8) -> bool;

    /// Marks the given IRQ pending, to run when priorities allow.
    fn set_pending(&self, irq: u8);

    /// Removes the given IRQ from the pending set.
    fn clear_pending(&self, irq: u8);

    /// Whether the given IRQ is pending.
    fn is_pending(&self, irq: u8) -> bool;

    /// Whether the given IRQ is being serviced right now.
    fn is_active(&self, irq: u8) -> bool;

    /// Sets the priority of the given IRQ; the implementation does whatever
    /// shifting and masking the priority-bit width requires.
    fn set_priority(&self, irq: u8, prio: u8);

    /// The priority of the given IRQ, in the range the priority-bit width
    /// allows.
    fn get_priority(&self, irq: u8) -> u8;
}

/// Generic handling and initialization of a system tick timer.
pub trait SysTick {
    /// Starts the tick counter.
    fn enable(&self);

    /// Stops the tick counter, resetting nothing beyond what the hardware
    /// demands.
    fn disable(&self);

    /// Whether the counter has reached zero since the status was last read;
    /// used when interrupts are disabled.
    fn has_reset(&self) -> bool;

    /// Enables the timer's interrupt, typically the exception taken when the
    /// counter reaches zero.
    fn enable_interrupt(&self);

    /// Disables the timer's interrupt, with no other side effects beyond
    /// what the hardware demands.
    fn disable_interrupt(&self);

    /// Sets the value the counter reloads from.
    fn set_tick_reload_value(&self, val: usize);

    /// The current countdown value, or the all-ones value when it cannot be
    /// read.
    fn current_tick(&self) -> usize;

    /// Whether the calibration value is present and reliable.
    fn has_calibration_value(&self) -> bool;

    /// The ten-millisecond calibration value, valid or not; checking it is
    /// the caller's job.
    fn calibration_value(&self) -> usize;
}

} // verus!

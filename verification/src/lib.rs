//! The core of a hypervisor: guest memory, second-level page tables, CPUID
//! policy, boot protocols and the decisions of the run loop.
//!
//! Everything in this crate computes on plain values. The executable that
//! opens `/dev/kvm`, spawns threads and wires devices together lives in
//! `app/` and calls the functions here.
pub mod acpi;
pub mod affinity;
pub mod bits;
pub mod bytes;
pub mod bzimage;
pub mod cpuid;
pub mod device_bus;
pub mod ept;
pub mod error;
pub mod exit_handler;
pub mod guest_ram;
pub mod kvm_backend;
pub mod kvm_cpuid;
pub mod memory;
pub mod msr;
pub mod orchestrator;
pub mod run_loop;
pub mod standard_pc;
pub mod text;
pub mod vcpu_regs;

pub use error::{Error, Result};

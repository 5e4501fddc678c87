//! Verified core of a microVM monitor: dirty-memory tracking, checkpoint deltas, vCPU
//! coordination and the request routes that lead to them.
//!
//! The library decides and computes; it does no I/O. What has to be read, sent or mapped is done
//! around it: a [`scan::DirtyScan`], a [`scan::KvmScan`], a [`vcpu::VcpuRound`], a
//! [`vcpu::VcpuStartup`] or a [`vmm::StateSave`] says which step comes next and takes its outcome
//! in, and the methods of [`Vmm`] end such a run and change the monitor's state.

pub mod bitmap;
pub mod checkpoint;
pub mod delta;
pub mod devices;
pub mod error;
pub mod laws;
pub mod memory;
pub mod outside;
pub mod pack;
pub mod request;
pub mod scan;
pub mod vcpu;
pub mod vmm;

pub use crate::error::{DumpCpuConfigError, EmulateSerialInitError, StartVcpusError, VmmError};
pub use crate::request::HTTP_MAX_PAYLOAD_SIZE;
pub use crate::scan::DirtyBitmap;
pub use crate::vcpu::{FcExitCode, VcpuEvent, VcpuHandle, VcpuResponse, RECV_TIMEOUT_SEC};
pub use crate::vmm::Vmm;

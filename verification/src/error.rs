//! The errors that the monitor reports, and their texts.

use vstd::prelude::*;
use vstd::string::*;

verus! {

/// An error of the virtual machine object, as its text.
#[derive(Debug, PartialEq, Eq)]
pub struct VmError(pub String);

/// A device that could not be found or reached, as the error's text.
#[derive(Debug, PartialEq, Eq)]
pub struct FindDeviceError(pub String);

/// An error of a block device, as its text.
#[derive(Debug, PartialEq, Eq)]
pub struct BlockError(pub String);

/// An error of the balloon device, as its text.
#[derive(Debug, PartialEq, Eq)]
pub struct BalloonError(pub String);

/// An error of the memory hotplug device, as its text.
#[derive(Debug, PartialEq, Eq)]
pub struct VirtioMemError(pub String);

/// A failed read of the page map, as the error's text.
#[derive(Debug, PartialEq, Eq)]
pub struct PagemapError(pub String);

/// An error of the keyboard controller, as its text.
#[derive(Debug, PartialEq, Eq)]
pub struct I8042DeviceError(pub String);

/// An error inside a vCPU thread, as its text.
#[derive(Debug, PartialEq, Eq)]
pub struct VcpuError(pub String);

/// An event that could not be sent to a vCPU thread, as the error's text.
#[derive(Debug, PartialEq, Eq)]
pub struct VcpuSendEventError(pub String);

/// A vCPU thread that could not be started, as the error's text.
#[derive(Debug, PartialEq, Eq)]
pub struct StartThreadedError(pub String);

/// A failed change of the terminal's mode, as the error's text.
#[derive(Debug, PartialEq, Eq)]
pub struct TerminalError(pub String);

/// Puts `prefix` in front of an error's own text.
pub(crate) fn prefixed(prefix: &str, detail: &String) -> (text: String)
    ensures
        text@ == prefix@ + detail@,
{
    let mut text: String = prefix.to_owned();
    text.append(detail.as_str());
    text
}

/// Why the vCPUs could not be started.
#[derive(Debug, PartialEq, Eq)]
pub enum StartVcpusError {
    /// VMM observer init error.
    VmmObserverInit(TerminalError),
    /// Vcpu handle error.
    VcpuHandle(StartThreadedError),
}

impl StartVcpusError {
    /// The text that the error is reported with.
    pub open spec fn text(self) -> Seq<char> {
        match self {
            StartVcpusError::VmmObserverInit(e) => "VMM observer init error: "@ + e.0@,
            StartVcpusError::VcpuHandle(e) => "Vcpu handle error: "@ + e.0@,
        }
    }

    /// Renders the error.
    pub fn message(&self) -> (message: String)
        ensures
            message@ == self.text(),
    {
        match self {
            StartVcpusError::VmmObserverInit(e) => prefixed("VMM observer init error: ", &e.0),
            StartVcpusError::VcpuHandle(e) => prefixed("Vcpu handle error: ", &e.0),
        }
    }
}

/// Why the CPU configuration could not be dumped.
#[derive(Debug, PartialEq, Eq)]
pub enum DumpCpuConfigError {
    /// Failed to send event to vcpu thread.
    SendEvent(VcpuSendEventError),
    /// Got unexpected response from vcpu thread.
    UnexpectedResponse,
    /// Failed to dump CPU config.
    DumpCpuConfig(VcpuError),
    /// Operation not allowed.
    NotAllowed(String),
}

impl DumpCpuConfigError {
    /// The text that the error is reported with.
    pub open spec fn text(self) -> Seq<char> {
        match self {
            DumpCpuConfigError::SendEvent(e) => "Failed to send event to vcpu thread: "@ + e.0@,
            DumpCpuConfigError::UnexpectedResponse => "Got unexpected response from vcpu thread."@,
            DumpCpuConfigError::DumpCpuConfig(e) => "Failed to dump CPU config: "@ + e.0@,
            DumpCpuConfigError::NotAllowed(e) => "Operation not allowed: "@ + e@,
        }
    }

    /// Renders the error.
    pub fn message(&self) -> (message: String)
        ensures
            message@ == self.text(),
    {
        match self {
            DumpCpuConfigError::SendEvent(e) => prefixed(
                "Failed to send event to vcpu thread: ",
                &e.0,
            ),
            DumpCpuConfigError::UnexpectedResponse => {
                "Got unexpected response from vcpu thread.".to_owned()
            },
            DumpCpuConfigError::DumpCpuConfig(e) => prefixed("Failed to dump CPU config: ", &e.0),
            DumpCpuConfigError::NotAllowed(e) => prefixed("Operation not allowed: ", e),
        }
    }
}

/// Why the state of the microVM could not be saved.
#[derive(Debug, PartialEq, Eq)]
pub enum MicrovmStateError {
    /// A vCPU refused to save its state.
    NotAllowed(String),
    /// A vCPU failed to save its state.
    SaveVcpuState(VcpuError),
    /// The virtual machine failed to save its state.
    SaveVmState(VmError),
    /// A vCPU could not be told to save its state.
    SignalVcpu(VcpuSendEventError),
    /// A vCPU answered with something else, or not at all.
    UnexpectedVcpuResponse,
}

/// A failed set-up of the emulated serial port, as the error's text.
#[derive(Debug, PartialEq, Eq)]
pub struct EmulateSerialInitError(pub String);

impl EmulateSerialInitError {
    /// The text that the error is reported with.
    pub open spec fn text(self) -> Seq<char> {
        "Emulate serial init error: "@ + self.0@
    }

    /// Renders the error.
    pub fn message(&self) -> (message: String)
        ensures
            message@ == self.text(),
    {
        prefixed("Emulate serial init error: ", &self.0)
    }
}

/// Errors of the monitor's own logic. They do not come from direct user input, but can result from
/// a badly configured host.
#[derive(Debug, PartialEq, Eq)]
pub enum VmmError {
    /// Invalid command line error.
    Cmdline,
    /// Device manager error.
    DeviceManager(String),
    /// MMIO Device manager error.
    MmioDeviceManager(String),
    /// Error getting the KVM dirty bitmap.
    DirtyBitmap(String),
    /// I8042 error.
    I8042Error(I8042DeviceError),
    /// Cannot add devices to the legacy I/O Bus.
    LegacyIOBus(String),
    /// Metrics error.
    Metrics(String),
    /// Cannot add a device to the MMIO Bus.
    RegisterMMIODevice(String),
    /// Cannot install seccomp filters.
    SeccompFilters(String),
    /// Error writing to the serial console.
    Serial(String),
    /// Error creating timer fd.
    TimerFd(String),
    /// Error creating the vcpu.
    VcpuCreate(VcpuError),
    /// Cannot send event to vCPU.
    VcpuEvent(VcpuError),
    /// Cannot create a vCPU handle.
    VcpuHandle(VcpuError),
    /// Failed to start vCPUs.
    VcpuStart(StartVcpusError),
    /// Failed to pause the vCPUs.
    VcpuPause,
    /// Failed to exit the vCPUs.
    VcpuExit,
    /// Failed to resume the vCPUs.
    VcpuResume,
    /// Failed to message the vCPUs.
    VcpuMessage,
    /// Cannot spawn Vcpu thread.
    VcpuSpawn(String),
    /// Vm error.
    Vm(VmError),
    /// Kvm error.
    Kvm(String),
    /// Failed perform action on device.
    FindDeviceError(FindDeviceError),
    /// Block.
    Block(BlockError),
    /// Balloon.
    Balloon(BalloonError),
    /// Pagemap error.
    Pagemap(PagemapError),
    /// Failed to create memory hotplug device.
    VirtioMem(VirtioMemError),
    /// Internal error.
    InternalError(String),
}

impl VmmError {
    /// The text that the error is reported with.
    pub open spec fn text(self) -> Seq<char> {
        match self {
            VmmError::Cmdline => "Invalid command line error."@,
            VmmError::DeviceManager(e) => "Device manager error: "@ + e@,
            VmmError::MmioDeviceManager(e) => "MMIO Device manager error: "@ + e@,
            VmmError::DirtyBitmap(e) => "Error getting the KVM dirty bitmap. "@ + e@,
            VmmError::I8042Error(e) => "I8042 error: "@ + e.0@,
            VmmError::LegacyIOBus(e) => "Cannot add devices to the legacy I/O Bus. "@ + e@,
            VmmError::Metrics(e) => "Metrics error: "@ + e@,
            VmmError::RegisterMMIODevice(e) => "Cannot add a device to the MMIO Bus. "@ + e@,
            VmmError::SeccompFilters(e) => "Cannot install seccomp filters: "@ + e@,
            VmmError::Serial(e) => "Error writing to the serial console: "@ + e@,
            VmmError::TimerFd(e) => "Error creating timer fd: "@ + e@,
            VmmError::VcpuCreate(e) => "Error creating the vcpu: "@ + e.0@,
            VmmError::VcpuEvent(e) => "Cannot send event to vCPU. "@ + e.0@,
            VmmError::VcpuHandle(e) => "Cannot create a vCPU handle. "@ + e.0@,
            VmmError::VcpuStart(_) => "Failed to start vCPUs"@,
            VmmError::VcpuPause => "Failed to pause the vCPUs."@,
            VmmError::VcpuExit => "Failed to exit the vCPUs."@,
            VmmError::VcpuResume => "Failed to resume the vCPUs."@,
            VmmError::VcpuMessage => "Failed to message the vCPUs."@,
            VmmError::VcpuSpawn(e) => "Cannot spawn Vcpu thread: "@ + e@,
            VmmError::Vm(e) => "Vm error: "@ + e.0@,
            VmmError::Kvm(e) => "Kvm error: "@ + e@,
            VmmError::FindDeviceError(e) => "Failed perform action on device: "@ + e.0@,
            VmmError::Block(e) => "Block: "@ + e.0@,
            VmmError::Balloon(e) => "Balloon: "@ + e.0@,
            VmmError::Pagemap(e) => "Pagemap error: "@ + e.0@,
            VmmError::VirtioMem(e) => "Failed to create memory hotplug device: "@ + e.0@,
            VmmError::InternalError(e) => "Internal error: "@ + e@,
        }
    }

    /// Renders the error.
    pub fn message(&self) -> (message: String)
        ensures
            message@ == self.text(),
    {
        match self {
            VmmError::Cmdline => "Invalid command line error.".to_owned(),
            VmmError::DeviceManager(e) => prefixed("Device manager error: ", e),
            VmmError::MmioDeviceManager(e) => prefixed("MMIO Device manager error: ", e),
            VmmError::DirtyBitmap(e) => prefixed("Error getting the KVM dirty bitmap. ", e),
            VmmError::I8042Error(e) => prefixed("I8042 error: ", &e.0),
            VmmError::LegacyIOBus(e) => prefixed("Cannot add devices to the legacy I/O Bus. ", e),
            VmmError::Metrics(e) => prefixed("Metrics error: ", e),
            VmmError::RegisterMMIODevice(e) => prefixed("Cannot add a device to the MMIO Bus. ", e),
            VmmError::SeccompFilters(e) => prefixed("Cannot install seccomp filters: ", e),
            VmmError::Serial(e) => prefixed("Error writing to the serial console: ", e),
            VmmError::TimerFd(e) => prefixed("Error creating timer fd: ", e),
            VmmError::VcpuCreate(e) => prefixed("Error creating the vcpu: ", &e.0),
            VmmError::VcpuEvent(e) => prefixed("Cannot send event to vCPU. ", &e.0),
            VmmError::VcpuHandle(e) => prefixed("Cannot create a vCPU handle. ", &e.0),
            VmmError::VcpuStart(_) => "Failed to start vCPUs".to_owned(),
            VmmError::VcpuPause => "Failed to pause the vCPUs.".to_owned(),
            VmmError::VcpuExit => "Failed to exit the vCPUs.".to_owned(),
            VmmError::VcpuResume => "Failed to resume the vCPUs.".to_owned(),
            VmmError::VcpuMessage => "Failed to message the vCPUs.".to_owned(),
            VmmError::VcpuSpawn(e) => prefixed("Cannot spawn Vcpu thread: ", e),
            VmmError::Vm(e) => prefixed("Vm error: ", &e.0),
            VmmError::Kvm(e) => prefixed("Kvm error: ", e),
            VmmError::FindDeviceError(e) => prefixed("Failed perform action on device: ", &e.0),
            VmmError::Block(e) => prefixed("Block: ", &e.0),
            VmmError::Balloon(e) => prefixed("Balloon: ", &e.0),
            VmmError::Pagemap(e) => prefixed("Pagemap error: ", &e.0),
            VmmError::VirtioMem(e) => prefixed("Failed to create memory hotplug device: ", &e.0),
            VmmError::InternalError(e) => prefixed("Internal error: ", e),
        }
    }
}

} // verus!

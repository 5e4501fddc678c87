use vmm::error::{
    BalloonError, BlockError, DumpCpuConfigError, EmulateSerialInitError, FindDeviceError,
    I8042DeviceError, PagemapError, StartThreadedError, StartVcpusError, TerminalError, VcpuError,
    VcpuSendEventError, VirtioMemError, VmError, VmmError,
};

fn s() -> String {
    "why".to_string()
}

#[test]
fn monitor_errors_have_their_texts() {
    let texts = [
        (VmmError::Cmdline, "Invalid command line error."),
        (VmmError::DeviceManager(s()), "Device manager error: why"),
        (VmmError::MmioDeviceManager(s()), "MMIO Device manager error: why"),
        (VmmError::DirtyBitmap(s()), "Error getting the KVM dirty bitmap. why"),
        (VmmError::I8042Error(I8042DeviceError(s())), "I8042 error: why"),
        (VmmError::LegacyIOBus(s()), "Cannot add devices to the legacy I/O Bus. why"),
        (VmmError::Metrics(s()), "Metrics error: why"),
        (VmmError::RegisterMMIODevice(s()), "Cannot add a device to the MMIO Bus. why"),
        (VmmError::SeccompFilters(s()), "Cannot install seccomp filters: why"),
        (VmmError::Serial(s()), "Error writing to the serial console: why"),
        (VmmError::TimerFd(s()), "Error creating timer fd: why"),
        (VmmError::VcpuCreate(VcpuError(s())), "Error creating the vcpu: why"),
        (VmmError::VcpuEvent(VcpuError(s())), "Cannot send event to vCPU. why"),
        (VmmError::VcpuHandle(VcpuError(s())), "Cannot create a vCPU handle. why"),
        (
            VmmError::VcpuStart(StartVcpusError::VmmObserverInit(TerminalError(s()))),
            "Failed to start vCPUs",
        ),
        (VmmError::VcpuPause, "Failed to pause the vCPUs."),
        (VmmError::VcpuExit, "Failed to exit the vCPUs."),
        (VmmError::VcpuResume, "Failed to resume the vCPUs."),
        (VmmError::VcpuMessage, "Failed to message the vCPUs."),
        (VmmError::VcpuSpawn(s()), "Cannot spawn Vcpu thread: why"),
        (VmmError::Vm(VmError(s())), "Vm error: why"),
        (VmmError::Kvm(s()), "Kvm error: why"),
        (
            VmmError::FindDeviceError(FindDeviceError(s())),
            "Failed perform action on device: why",
        ),
        (VmmError::Block(BlockError(s())), "Block: why"),
        (VmmError::Balloon(BalloonError(s())), "Balloon: why"),
        (VmmError::Pagemap(PagemapError(s())), "Pagemap error: why"),
        (
            VmmError::VirtioMem(VirtioMemError(s())),
            "Failed to create memory hotplug device: why",
        ),
        (VmmError::InternalError(s()), "Internal error: why"),
    ];
    for (error, text) in texts {
        assert_eq!(error.message(), text);
    }
}

#[test]
fn start_errors_have_their_texts() {
    assert_eq!(
        StartVcpusError::VmmObserverInit(TerminalError(s())).message(),
        "VMM observer init error: why"
    );
    assert_eq!(
        StartVcpusError::VcpuHandle(StartThreadedError(s())).message(),
        "Vcpu handle error: why"
    );
}

#[test]
fn dump_errors_have_their_texts() {
    assert_eq!(
        DumpCpuConfigError::SendEvent(VcpuSendEventError(s())).message(),
        "Failed to send event to vcpu thread: why"
    );
    assert_eq!(
        DumpCpuConfigError::UnexpectedResponse.message(),
        "Got unexpected response from vcpu thread."
    );
    assert_eq!(
        DumpCpuConfigError::DumpCpuConfig(VcpuError(s())).message(),
        "Failed to dump CPU config: why"
    );
    assert_eq!(
        DumpCpuConfigError::NotAllowed(s()).message(),
        "Operation not allowed: why"
    );
}

#[test]
fn serial_error_has_its_text() {
    assert_eq!(EmulateSerialInitError(s()).message(), "Emulate serial init error: why");
}

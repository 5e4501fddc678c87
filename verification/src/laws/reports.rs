//! Requests and errors: where a path leads, and what a failure is reported as.

use crate::checkpoint::{compression_text, is_internal, GoldenError, NO_GOLDEN, NO_HASHES};
use crate::devices::{found, on_balloon, on_block, on_memory};
use crate::error::{
    BalloonError, BlockError, DumpCpuConfigError, EmulateSerialInitError, FindDeviceError,
    I8042DeviceError, PagemapError, StartThreadedError, StartVcpusError, TerminalError, VcpuError,
    VcpuSendEventError, VirtioMemError, VmError, VmmError,
};
use crate::outside::Lz4Failure;
use crate::request::{memory_route, tokens_asked_for, VmmAction};
use vstd::prelude::*;

verus! {

/// Where requests below `/memory` lead, by their path. The paths that lead somewhere are told by
/// their first token, or by their first two.
pub proof fn paths_that_lead_somewhere(tokens: Seq<String>)
    ensures
        memory_route(tokens) == Ok::<VmmAction, Seq<char>>(VmmAction::GetMemory) <==> tokens.len()
            == 0,
        memory_route(tokens) == Ok::<VmmAction, Seq<char>>(VmmAction::GetMemoryMappings)
            <==> tokens.len() > 0 && tokens[0]@ == "mappings"@,
        memory_route(tokens) == Ok::<VmmAction, Seq<char>>(VmmAction::GetMemoryDirty)
            <==> tokens.len() == 1 && tokens[0]@ == "dirty"@,
        memory_route(tokens) == Ok::<VmmAction, Seq<char>>(VmmAction::ResetMemoryDirty)
            <==> tokens.len() > 1 && tokens[0]@ == "dirty"@ && tokens[1]@ == "reset"@,
        memory_route(tokens) == Ok::<VmmAction, Seq<char>>(VmmAction::GetKvmDirty)
            <==> tokens.len() > 0 && tokens[0]@ == "kvm-dirty"@,
        memory_route(tokens) == Ok::<VmmAction, Seq<char>>(VmmAction::GetKvmDirtyWrites)
            <==> tokens.len() > 0 && tokens[0]@ == "kvm-dirty-writes"@,
        memory_route(tokens) == Ok::<VmmAction, Seq<char>>(VmmAction::GetDirtyDelta)
            <==> tokens.len() > 0 && tokens[0]@ == "dirty-delta"@,
        memory_route(tokens) == Ok::<VmmAction, Seq<char>>(
            VmmAction::GetDirtyDeltaPacked { keyframe: false },
        ) <==> tokens.len() == 1 && tokens[0]@ == "dirty-delta-packed"@,
        memory_route(tokens) == Ok::<VmmAction, Seq<char>>(
            VmmAction::GetDirtyDeltaPacked { keyframe: true },
        ) <==> tokens.len() > 1 && tokens[0]@ == "dirty-delta-packed"@ && tokens[1]@ == "keyframe"@,
{
    lemma_tokens_differ();
}

proof fn lemma_tokens_differ()
    ensures
        "mappings"@ != "dirty"@,
        "mappings"@ != "kvm-dirty"@,
        "mappings"@ != "kvm-dirty-writes"@,
        "mappings"@ != "dirty-delta"@,
        "mappings"@ != "dirty-delta-packed"@,
        "dirty"@ != "kvm-dirty"@,
        "dirty"@ != "kvm-dirty-writes"@,
        "dirty"@ != "dirty-delta"@,
        "dirty"@ != "dirty-delta-packed"@,
        "kvm-dirty"@ != "kvm-dirty-writes"@,
        "kvm-dirty"@ != "dirty-delta"@,
        "kvm-dirty"@ != "dirty-delta-packed"@,
        "kvm-dirty-writes"@ != "dirty-delta"@,
        "kvm-dirty-writes"@ != "dirty-delta-packed"@,
        "dirty-delta"@ != "dirty-delta-packed"@,
{
    reveal_strlit("mappings");
    reveal_strlit("dirty");
    reveal_strlit("kvm-dirty");
    reveal_strlit("kvm-dirty-writes");
    reveal_strlit("dirty-delta");
    reveal_strlit("dirty-delta-packed");
    assert("mappings"@.len() == 8);
    assert("dirty"@.len() == 5);
    assert("kvm-dirty"@.len() == 9);
    assert("kvm-dirty-writes"@.len() == 16);
    assert("dirty-delta"@.len() == 11);
    assert("dirty-delta-packed"@.len() == 18);
}

/// A path that leads nowhere is complained about in full up to the token that was not known; below
/// `dirty` that token is left out.
pub proof fn paths_that_lead_nowhere(tokens: Seq<String>)
    requires
        memory_route(tokens) is Err,
    ensures
        tokens.len() > 0,
        tokens[0]@ == "dirty"@ ==> memory_route(tokens)->Err_0 == "/memory/dirty/..."@,
        tokens[0]@ == "dirty-delta-packed"@ ==> memory_route(tokens)->Err_0
            == "/memory/dirty-delta-packed/"@ + tokens[1]@,
        tokens[0]@ != "dirty"@ && tokens[0]@ != "dirty-delta-packed"@ ==> memory_route(
            tokens,
        )->Err_0 == "/memory/"@ + tokens[0]@,
{
    lemma_tokens_differ();
}

/// A second token is asked for below `dirty` and `dirty-delta-packed`, and nowhere else.
pub proof fn second_tokens(first: Option<Seq<char>>)
    ensures
        tokens_asked_for(first) == 2 <==> (first matches Some(token) && (token == "dirty"@ || token
            == "dirty-delta-packed"@)),
        tokens_asked_for(first) == 1 || tokens_asked_for(first) == 2,
{
}

/// An outcome on a device is handed on as it is where it is a success; otherwise the error that was
/// met is reported, under the name of what met it.
pub proof fn device_outcomes_are_handed_on<T>(
    value: T,
    lost: FindDeviceError,
    block: BlockError,
    balloon: BalloonError,
    memory: VirtioMemError,
)
    ensures
        found(Ok::<T, FindDeviceError>(value)) == Ok::<T, VmmError>(value),
        found(Err::<T, FindDeviceError>(lost)) == Err::<T, VmmError>(
            VmmError::FindDeviceError(lost),
        ),
        on_block(Ok::<Result<T, BlockError>, FindDeviceError>(Ok(value))) == Ok::<T, VmmError>(
            value,
        ),
        on_block(Ok::<Result<T, BlockError>, FindDeviceError>(Err(block))) == Err::<T, VmmError>(
            VmmError::Block(block),
        ),
        on_block(Err::<Result<T, BlockError>, FindDeviceError>(lost)) == Err::<T, VmmError>(
            VmmError::FindDeviceError(lost),
        ),
        on_balloon(Ok::<Result<T, BalloonError>, FindDeviceError>(Ok(value))) == Ok::<T, VmmError>(
            value,
        ),
        on_balloon(Ok::<Result<T, BalloonError>, FindDeviceError>(Err(balloon))) == Err::<
            T,
            VmmError,
        >(VmmError::Balloon(balloon)),
        on_balloon(Err::<Result<T, BalloonError>, FindDeviceError>(lost)) == Err::<T, VmmError>(
            VmmError::FindDeviceError(lost),
        ),
        on_memory(Ok::<Result<T, VirtioMemError>, FindDeviceError>(Ok(value))) == Ok::<
            T,
            VmmError,
        >(value),
        on_memory(Ok::<Result<T, VirtioMemError>, FindDeviceError>(Err(memory))) == Err::<
            T,
            VmmError,
        >(VmmError::VirtioMem(memory)),
        on_memory(Err::<Result<T, VirtioMemError>, FindDeviceError>(lost)) == Err::<T, VmmError>(
            VmmError::FindDeviceError(lost),
        ),
{
}

/// The text of an error of the monitor tells what failed, and ends with the whole text of the cause
/// where there is one.
pub proof fn monitor_errors_tell_their_cause(cause: String)
    ensures
        VmmError::DeviceManager(cause).text() == "Device manager error: "@ + cause@,
        VmmError::MmioDeviceManager(cause).text() == "MMIO Device manager error: "@ + cause@,
        VmmError::DirtyBitmap(cause).text() == "Error getting the KVM dirty bitmap. "@ + cause@,
        VmmError::I8042Error(I8042DeviceError(cause)).text() == "I8042 error: "@ + cause@,
        VmmError::LegacyIOBus(cause).text() == "Cannot add devices to the legacy I/O Bus. "@
            + cause@,
        VmmError::Metrics(cause).text() == "Metrics error: "@ + cause@,
        VmmError::RegisterMMIODevice(cause).text() == "Cannot add a device to the MMIO Bus. "@
            + cause@,
        VmmError::SeccompFilters(cause).text() == "Cannot install seccomp filters: "@ + cause@,
        VmmError::Serial(cause).text() == "Error writing to the serial console: "@ + cause@,
        VmmError::TimerFd(cause).text() == "Error creating timer fd: "@ + cause@,
        VmmError::VcpuCreate(VcpuError(cause)).text() == "Error creating the vcpu: "@ + cause@,
        VmmError::VcpuEvent(VcpuError(cause)).text() == "Cannot send event to vCPU. "@ + cause@,
        VmmError::VcpuHandle(VcpuError(cause)).text() == "Cannot create a vCPU handle. "@ + cause@,
        VmmError::VcpuSpawn(cause).text() == "Cannot spawn Vcpu thread: "@ + cause@,
        VmmError::Vm(VmError(cause)).text() == "Vm error: "@ + cause@,
        VmmError::Kvm(cause).text() == "Kvm error: "@ + cause@,
        VmmError::FindDeviceError(FindDeviceError(cause)).text()
            == "Failed perform action on device: "@ + cause@,
        VmmError::Block(BlockError(cause)).text() == "Block: "@ + cause@,
        VmmError::Balloon(BalloonError(cause)).text() == "Balloon: "@ + cause@,
        VmmError::Pagemap(PagemapError(cause)).text() == "Pagemap error: "@ + cause@,
        VmmError::VirtioMem(VirtioMemError(cause)).text()
            == "Failed to create memory hotplug device: "@ + cause@,
        VmmError::InternalError(cause).text() == "Internal error: "@ + cause@,
{
}

/// The texts of the errors of the monitor that have no cause to tell.
pub proof fn monitor_errors_without_a_cause(start: StartVcpusError)
    ensures
        VmmError::Cmdline.text() == "Invalid command line error."@,
        VmmError::VcpuStart(start).text() == "Failed to start vCPUs"@,
        VmmError::VcpuPause.text() == "Failed to pause the vCPUs."@,
        VmmError::VcpuExit.text() == "Failed to exit the vCPUs."@,
        VmmError::VcpuResume.text() == "Failed to resume the vCPUs."@,
        VmmError::VcpuMessage.text() == "Failed to message the vCPUs."@,
{
}

/// The texts of the other errors end with the whole text of their cause, too.
pub proof fn other_errors_tell_their_cause(cause: String)
    ensures
        StartVcpusError::VmmObserverInit(TerminalError(cause)).text()
            == "VMM observer init error: "@ + cause@,
        StartVcpusError::VcpuHandle(StartThreadedError(cause)).text() == "Vcpu handle error: "@
            + cause@,
        DumpCpuConfigError::SendEvent(VcpuSendEventError(cause)).text()
            == "Failed to send event to vcpu thread: "@ + cause@,
        DumpCpuConfigError::UnexpectedResponse.text()
            == "Got unexpected response from vcpu thread."@,
        DumpCpuConfigError::DumpCpuConfig(VcpuError(cause)).text() == "Failed to dump CPU config: "@
            + cause@,
        DumpCpuConfigError::NotAllowed(cause).text() == "Operation not allowed: "@ + cause@,
        EmulateSerialInitError(cause).text() == "Emulate serial init error: "@ + cause@,
        GoldenError::Open(cause).text() == "open golden: "@ + cause@,
        GoldenError::Stat(cause).text() == "stat golden: "@ + cause@,
        GoldenError::Mmap.text() == "mmap golden failed"@,
        compression_text(Lz4Failure::Write(cause)) == "lz4 compress write: "@ + cause@,
        compression_text(Lz4Failure::Finish(cause)) == "lz4 compress finish: "@ + cause@,
{
}

/// An internal error carries exactly the text that it is said to carry.
pub proof fn internal_errors_carry_their_text(error: VmmError, text: Seq<char>)
    ensures
        is_internal(error, text) <==> (error matches VmmError::InternalError(message) && message@
            == text),
        NO_HASHES@ == "delta_hashes not initialized — call init_delta_hashes first"@,
        NO_GOLDEN@ == "golden_base not available for XOR"@,
{
}

} // verus!

//! The monitor's state, and its life from start to shutdown.

use crate::error::{
    DumpCpuConfigError, MicrovmStateError, StartVcpusError, VmError, VmmError,
};
use crate::vcpu::{
    construct_kvm_mpidrs, exit_code, exit_code_of, kvm_mpidr, CpuConfiguration, FcExitCode,
    RoundKind, VcpuHandle, VcpuResponse, VcpuRound, VcpuStartup, VcpuState,
};
use std::collections::HashMap;
use vstd::prelude::*;

verus! {

broadcast use vstd::std_specs::hash::group_hash_axioms;

/// How the guest stands.
#[derive(Debug, Clone, Copy, PartialEq, Eq)]
pub enum VmState {
    /// The guest was not started yet.
    NotStarted,
    /// The guest runs.
    Running,
    /// The guest is paused.
    Paused,
}

/// What is known of this microVM.
#[derive(Debug, PartialEq, Eq)]
pub struct InstanceInfo {
    /// Name of the microVM.
    pub id: String,
    /// How the guest stands.
    pub state: VmState,
    /// Version of the monitor.
    pub vmm_version: String,
    /// Name of the application.
    pub app_name: String,
}

/// Readiness for reading, as the event loop reports it.
pub const EVENT_SET_IN: u32 = 1;

/// Blocks that are kept from one checkpoint to the next, at most.
pub const MAX_PREV_BLOCKS: usize = 4096;

/// The monitor of one microVM.
#[derive(Debug)]
pub struct Vmm<'a> {
    /// What is known of the microVM.
    pub instance_info: InstanceInfo,
    /// The code to exit with, once the monitor has been stopped.
    pub shutdown_exit_code: Option<FcExitCode>,
    /// The vCPU threads.
    pub vcpus_handles: Vec<VcpuHandle>,
    /// Descriptor of the event by which vCPUs and devices ask for teardown.
    pub vcpus_exit_evt: i32,
    /// Size of the pages that back guest memory.
    pub page_size: usize,
    /// Size of the host's pages, which is the size of a block.
    pub host_page_size: usize,
    /// The hash of each block, as the last checkpoint left it.
    pub delta_hashes: Vec<u64>,
    /// The golden image, kept mapped for exclusive-or.
    pub golden_base: Option<&'a [u8]>,
    /// The blocks that the last checkpoint found changed, by their place among the blocks of all
    /// slots.
    pub prev_checkpoint_blocks: HashMap<u32, Vec<u8>>,
}

/// What is left to release when the monitor goes away.
#[derive(Debug)]
pub struct Teardown<'a> {
    /// The vCPU threads to finish and join.
    pub handles: Vec<VcpuHandle>,
    /// The golden image to unmap.
    pub golden: Option<&'a [u8]>,
}

/// The saved state of a microVM.
#[derive(Debug)]
pub struct MicrovmState<I, K, V, D> {
    /// What the microVM was configured with.
    pub vm_info: I,
    /// State of the hypervisor.
    pub kvm_state: K,
    /// State of the virtual machine.
    pub vm_state: V,
    /// States of the vCPUs.
    pub vcpu_states: Vec<VcpuState>,
    /// States of the devices.
    pub device_states: D,
}

/// What saving a microVM needs next.
#[derive(Debug, Clone, Copy, PartialEq, Eq)]
pub enum SaveStep {
    /// Save the state of the hypervisor.
    SaveKvm,
    /// Save the state of the virtual machine.
    SaveVm,
    /// Save the states of the devices.
    SaveDevices,
    /// Nothing more.
    Over,
}

/// The save of a microVM: the vCPUs first, then the hypervisor, the virtual machine and the
/// devices. Whatever fails ends it, and nothing behind the failure is saved.
#[derive(Debug)]
pub struct StateSave<K, V, D> {
    /// What the round over the vCPUs came to.
    pub vcpu_states: Result<Vec<VcpuState>, MicrovmStateError>,
    /// State of the hypervisor, once saved.
    pub kvm_state: Option<K>,
    /// What saving the virtual machine came to.
    pub vm_state: Option<Result<V, VmError>>,
    /// States of the devices, once saved.
    pub device_states: Option<D>,
}

impl<K, V, D> StateSave<K, V, D> {
    /// What the save needs next.
    pub open spec fn next(self) -> SaveStep {
        if self.vcpu_states is Err {
            SaveStep::Over
        } else if self.kvm_state is None {
            SaveStep::SaveKvm
        } else {
            match self.vm_state {
                None => SaveStep::SaveVm,
                Some(Err(_)) => SaveStep::Over,
                Some(Ok(_)) => if self.device_states is None {
                    SaveStep::SaveDevices
                } else {
                    SaveStep::Over
                },
            }
        }
    }

    /// The record is one that a save can leave: no part is there before the parts it comes after,
    /// and none behind a failure.
    pub open spec fn wf(self) -> bool {
        &&& self.kvm_state is Some ==> self.vcpu_states is Ok
        &&& self.vm_state is Some ==> self.kvm_state is Some
        &&& self.device_states is Some ==> (self.vm_state matches Some(Ok(_)))
    }

    /// Begins a save with what the round over the vCPUs came to.
    pub fn new(vcpu_states: Result<Vec<VcpuState>, MicrovmStateError>) -> (saving: StateSave<
        K,
        V,
        D,
    >)
        ensures
            saving.wf(),
            saving == (StateSave {
                vcpu_states,
                kvm_state: None::<K>,
                vm_state: None::<Result<V, VmError>>,
                device_states: None::<D>,
            }),
    {
        StateSave { vcpu_states, kvm_state: None, vm_state: None, device_states: None }
    }

    /// What the save needs next.
    pub fn step(&self) -> (step: SaveStep)
        ensures
            step == self.next(),
    {
        if self.vcpu_states.is_err() {
            return SaveStep::Over;
        }
        if self.kvm_state.is_none() {
            return SaveStep::SaveKvm;
        }
        match &self.vm_state {
            None => SaveStep::SaveVm,
            Some(Err(_)) => SaveStep::Over,
            Some(Ok(_)) => if self.device_states.is_none() {
                SaveStep::SaveDevices
            } else {
                SaveStep::Over
            },
        }
    }

    /// The `MPIDR_EL1` registers of the vCPUs in the form that the kernel takes, which saving the
    /// virtual machine needs on machines that have them.
    pub fn kvm_mpidrs(&self) -> (mpidrs: Vec<u64>)
        requires
            self.next() is SaveVm,
        ensures
            mpidrs@.len() == self.vcpu_states->Ok_0@.len(),
            forall|i: int|
                0 <= i < mpidrs@.len() ==> #[trigger] mpidrs@[i] == kvm_mpidr(
                    self.vcpu_states->Ok_0@[i].mpidr,
                ),
    {
        match &self.vcpu_states {
            Ok(states) => construct_kvm_mpidrs(states),
            Err(_) => Vec::new(),
        }
    }

    /// Records the state of the hypervisor.
    pub fn record_kvm(&mut self, state: K)
        requires
            old(self).wf(),
            old(self).next() is SaveKvm,
        ensures
            final(self).wf(),
            *final(self) == (StateSave { kvm_state: Some(state), ..*old(self) }),
    {
        self.kvm_state = Some(state);
    }

    /// Records what saving the virtual machine came to.
    pub fn record_vm(&mut self, outcome: Result<V, VmError>)
        requires
            old(self).wf(),
            old(self).next() is SaveVm,
        ensures
            final(self).wf(),
            *final(self) == (StateSave { vm_state: Some(outcome), ..*old(self) }),
    {
        self.vm_state = Some(outcome);
    }

    /// Records the states of the devices.
    pub fn record_devices(&mut self, states: D)
        requires
            old(self).wf(),
            old(self).next() is SaveDevices,
        ensures
            final(self).wf(),
            *final(self) == (StateSave { device_states: Some(states), ..*old(self) }),
    {
        self.device_states = Some(states);
    }
}

impl<'a> Vmm<'a> {
    /// The monitor's tables belong together: blocks are not empty and a multiple of eight bytes
    /// long, the stored hashes cover the golden image, and the kept blocks are whole and within
    /// their cap.
    pub open spec fn wf(self) -> bool {
        &&& self.host_page_size > 0
        &&& self.host_page_size % 8 == 0
        &&& self.golden_base matches Some(golden) ==> self.delta_hashes@.len() == golden@.len()
            / self.host_page_size as nat
        &&& self.prev_checkpoint_blocks@.dom().finite()
        &&& self.prev_checkpoint_blocks@.len() <= MAX_PREV_BLOCKS
        &&& forall|k: u32| #[trigger]
            self.prev_checkpoint_blocks@.contains_key(k)
                ==> self.prev_checkpoint_blocks@[k]@.len() == self.host_page_size
    }

    /// A monitor without vCPU threads and without a golden image.
    pub fn new(
        instance_info: InstanceInfo,
        vcpus_exit_evt: i32,
        page_size: usize,
        host_page_size: usize,
    ) -> (vmm: Vmm<'a>)
        requires
            host_page_size > 0,
            host_page_size % 8 == 0,
        ensures
            vmm.wf(),
            vmm.instance_info == instance_info,
            vmm.shutdown_exit_code is None,
            vmm.vcpus_handles@.len() == 0,
            vmm.vcpus_exit_evt == vcpus_exit_evt,
            vmm.page_size == page_size,
            vmm.host_page_size == host_page_size,
            vmm.delta_hashes@.len() == 0,
            vmm.golden_base is None,
            vmm.prev_checkpoint_blocks@ == Map::<u32, Vec<u8>>::empty(),
    {
        Vmm {
            instance_info,
            shutdown_exit_code: None,
            vcpus_handles: Vec::new(),
            vcpus_exit_evt,
            page_size,
            host_page_size,
            delta_hashes: Vec::new(),
            golden_base: None,
            prev_checkpoint_blocks: HashMap::new(),
        }
    }

    /// The monitor's version.
    pub fn version(&self) -> (version: String)
        ensures
            version == self.instance_info.vmm_version,
    {
        self.instance_info.vmm_version.clone()
    }

    /// What is known of the microVM.
    pub fn instance_info(&self) -> (info: InstanceInfo)
        ensures
            info == self.instance_info,
    {
        InstanceInfo {
            id: self.instance_info.id.clone(),
            state: self.instance_info.state,
            vmm_version: self.instance_info.vmm_version.clone(),
            app_name: self.instance_info.app_name.clone(),
        }
    }

    /// The code to exit with, if the monitor has been stopped.
    pub fn shutdown_exit_code(&self) -> (code: Option<FcExitCode>)
        ensures
            code == self.shutdown_exit_code,
    {
        self.shutdown_exit_code
    }

    /// Takes over the vCPU threads that a start brought up. Once all of them are up the guest is
    /// paused; where the start was cut short the guest's state stays, and so do the threads that
    /// were up by then.
    pub fn start_vcpus(&mut self, startup: VcpuStartup) -> (res: Result<(), StartVcpusError>)
        requires
            startup.wf(),
            startup.next() is Over,
        ensures
            res == match startup.error() {
                Some(e) => Err::<(), StartVcpusError>(e),
                None => Ok(()),
            },
            final(self).vcpus_handles@ == old(self).vcpus_handles@ + startup.handles(),
            final(self).instance_info == (InstanceInfo {
                state: if res is Ok {
                    VmState::Paused
                } else {
                    old(self).instance_info.state
                },
                ..old(self).instance_info
            }),
            *final(self) == (Vmm {
                vcpus_handles: final(self).vcpus_handles,
                instance_info: final(self).instance_info,
                ..*old(self)
            }),
    {
        match startup.take_handles(&mut self.vcpus_handles) {
            Some(e) => Err(e),
            None => {
                self.instance_info.state = VmState::Paused;
                Ok(())
            },
        }
    }

    /// Begins a round of messages to all vCPUs.
    pub fn begin_round(&self, kind: RoundKind) -> (round: VcpuRound)
        ensures
            round.wf(),
            round.kind == kind,
            round.vcpus == self.vcpus_handles@.len(),
            round.sends@.len() == 0,
            round.replies@.len() == 0,
    {
        VcpuRound::new(kind, self.vcpus_handles.len())
    }

    /// Ends a resume: the guest runs if every vCPU confirmed, and stays as it was otherwise.
    pub fn resume_vm(&mut self, round: &VcpuRound) -> (res: Result<(), VmmError>)
        requires
            round.wf(),
            round.next() is Over,
            round.kind is Resume,
            round.vcpus == old(self).vcpus_handles@.len(),
        ensures
            res == if round.complete() {
                Ok::<(), VmmError>(())
            } else {
                Err(VmmError::VcpuMessage)
            },
            *final(self) == (Vmm {
                instance_info: InstanceInfo {
                    state: if round.complete() {
                        VmState::Running
                    } else {
                        old(self).instance_info.state
                    },
                    ..old(self).instance_info
                },
                ..*old(self)
            }),
    {
        if !round.is_complete() {
            return Err(VmmError::VcpuMessage);
        }
        self.instance_info.state = VmState::Running;
        Ok(())
    }

    /// Ends a pause: the guest is paused if every vCPU confirmed, and stays as it was otherwise.
    pub fn pause_vm(&mut self, round: &VcpuRound) -> (res: Result<(), VmmError>)
        requires
            round.wf(),
            round.next() is Over,
            round.kind is Pause,
            round.vcpus == old(self).vcpus_handles@.len(),
        ensures
            res == if round.complete() {
                Ok::<(), VmmError>(())
            } else {
                Err(VmmError::VcpuMessage)
            },
            *final(self) == (Vmm {
                instance_info: InstanceInfo {
                    state: if round.complete() {
                        VmState::Paused
                    } else {
                        old(self).instance_info.state
                    },
                    ..old(self).instance_info
                },
                ..*old(self)
            }),
    {
        if !round.is_complete() {
            return Err(VmmError::VcpuMessage);
        }
        self.instance_info.state = VmState::Paused;
        Ok(())
    }

    /// Ends a round that saves the vCPUs' states.
    pub fn save_vcpu_states(&self, round: VcpuRound) -> (res: Result<
        Vec<VcpuState>,
        MicrovmStateError,
    >)
        requires
            round.wf(),
            round.next() is Over,
            round.kind is SaveState,
            round.vcpus == self.vcpus_handles@.len(),
        ensures
            match res {
                Ok(states) => round.states() == Ok::<Seq<VcpuState>, MicrovmStateError>(states@),
                Err(e) => round.states() == Err::<Seq<VcpuState>, MicrovmStateError>(e),
            },
    {
        round.into_states()
    }

    /// Ends a save: puts the parts of a microVM's state together, or reports the failure that ended
    /// the save.
    pub fn save_state<I: Clone, K, V, D>(
        &self,
        vm_info: &I,
        saving: StateSave<K, V, D>,
    ) -> (res: Result<MicrovmState<I, K, V, D>, MicrovmStateError>)
        requires
            saving.wf(),
            saving.next() is Over,
        ensures
            match (saving.vcpu_states, saving.vm_state) {
                (Err(e), _) => res == Err::<MicrovmState<I, K, V, D>, MicrovmStateError>(e),
                (Ok(_), Some(Err(e))) => res == Err::<MicrovmState<I, K, V, D>, MicrovmStateError>(
                    MicrovmStateError::SaveVmState(e),
                ),
                (Ok(vcpus), vm) => res matches Ok(state) && cloned(*vm_info, state.vm_info)
                    && saving.kvm_state == Some(state.kvm_state) && vm == Some(
                    Ok::<V, VmError>(state.vm_state),
                ) && state.vcpu_states == vcpus && saving.device_states == Some(
                    state.device_states,
                ),
            },
    {
        let StateSave { vcpu_states, kvm_state, vm_state, device_states } = saving;
        let vcpu_states = match vcpu_states {
            Err(e) => return Err(e),
            Ok(vcpu_states) => vcpu_states,
        };
        let vm_state = match vm_state.unwrap() {
            Err(e) => return Err(MicrovmStateError::SaveVmState(e)),
            Ok(vm_state) => vm_state,
        };
        Ok(
            MicrovmState {
                vm_info: vm_info.clone(),
                kvm_state: kvm_state.unwrap(),
                vm_state,
                vcpu_states,
                device_states: device_states.unwrap(),
            },
        )
    }

    /// Ends a round that dumps the vCPUs' CPU configurations.
    pub fn dump_cpu_config(&self, round: VcpuRound) -> (res: Result<
        Vec<CpuConfiguration>,
        DumpCpuConfigError,
    >)
        requires
            round.wf(),
            round.next() is Over,
            round.kind is DumpCpuConfig,
            round.vcpus == self.vcpus_handles@.len(),
        ensures
            match res {
                Ok(configs) => round.configs() == Ok::<Seq<CpuConfiguration>, DumpCpuConfigError>(
                    configs@,
                ),
                Err(e) => round.configs() == Err::<Seq<CpuConfiguration>, DumpCpuConfigError>(e),
            },
    {
        round.into_configs()
    }

    /// Whether the monitor, stopped with `exit_code`, becomes `after`: it has no vCPU threads left,
    /// carries the code, and is otherwise as it was.
    pub open spec fn stops_as(self, after: Vmm<'a>, exit_code: FcExitCode) -> bool {
        &&& after.vcpus_handles@.len() == 0
        &&& after == (Vmm {
            vcpus_handles: after.vcpus_handles,
            shutdown_exit_code: Some(exit_code),
            ..self
        })
    }

    /// Whether the monitor, torn down, becomes `after` and leaves `left` to release.
    pub open spec fn tears_down_to(self, after: Vmm<'a>, left: Teardown<'a>) -> bool {
        &&& left.handles@ == self.vcpus_handles@
        &&& left.golden == self.golden_base
        &&& (Vmm { golden_base: None, ..self }).stops_as(
            after,
            match self.shutdown_exit_code {
                Some(code) => code,
                None => FcExitCode::Success,
            },
        )
    }

    /// Stops the monitor with `exit_code`. The vCPU threads leave it: they come back in order, each
    /// to be told to finish and to be joined.
    pub fn stop(&mut self, exit_code: FcExitCode) -> (handles: Vec<VcpuHandle>)
        ensures
            handles@ == old(self).vcpus_handles@,
            old(self).stops_as(*final(self), exit_code),
    {
        let mut handles: Vec<VcpuHandle> = Vec::new();
        std::mem::swap(&mut handles, &mut self.vcpus_handles);
        self.shutdown_exit_code = Some(exit_code);
        handles
    }

    /// Whether an event is the one by which teardown is asked for.
    pub open spec fn asks_for_teardown(self, source: i32, event_set: u32) -> bool {
        source == self.vcpus_exit_evt && event_set == EVENT_SET_IN
    }

    /// Whether an event is the one by which teardown is asked for. Only then are the vCPUs'
    /// responses to be drained.
    pub fn is_exit_event(&self, source: i32, event_set: u32) -> (asked: bool)
        ensures
            asked == self.asks_for_teardown(source, event_set),
    {
        source == self.vcpus_exit_evt && event_set == EVENT_SET_IN
    }

    /// Handles an event. Where it asks for teardown the monitor stops with the code that the
    /// drained responses of its vCPUs give, and the threads come back as from `stop`. Any other
    /// event is spurious and changes nothing.
    pub fn process(
        &mut self,
        source: i32,
        event_set: u32,
        responses: &Vec<Vec<VcpuResponse>>,
    ) -> (stopped: Option<Vec<VcpuHandle>>)
        ensures
            if old(self).asks_for_teardown(source, event_set) {
                &&& stopped matches Some(handles)
                &&& handles@ == old(self).vcpus_handles@
                &&& old(self).stops_as(*final(self), exit_code_of(responses@))
            } else {
                stopped is None && *final(self) == *old(self)
            },
    {
        if self.is_exit_event(source, event_set) {
            let code = exit_code(responses);
            Some(self.stop(code))
        } else {
            None
        }
    }

    /// Readies the monitor for going away: it is stopped, with the code it was stopped with before
    /// or else with success, and gives up its golden image.
    pub fn teardown(&mut self) -> (left: Teardown<'a>)
        ensures
            old(self).tears_down_to(*final(self), left),
    {
        let code = self.shutdown_exit_code.unwrap_or(FcExitCode::Success);
        let handles = self.stop(code);
        let golden = self.golden_base.take();
        Teardown { handles, golden }
    }
}

/// Tearing down a monitor that was stopped has no thread left to finish and keeps the exit code
/// that it was stopped with; only the golden image is left to release.
pub proof fn teardown_after_stop_keeps_the_code<'a>(
    running: Vmm<'a>,
    stopped: Vmm<'a>,
    exit_code: FcExitCode,
    gone: Vmm<'a>,
    left: Teardown<'a>,
)
    requires
        running.stops_as(stopped, exit_code),
        stopped.tears_down_to(gone, left),
    ensures
        left.handles@.len() == 0,
        left.golden == running.golden_base,
        gone.shutdown_exit_code == Some(exit_code),
{
}

/// A monitor that goes away without having been stopped exits with success.
pub proof fn teardown_alone_is_a_success<'a>(running: Vmm<'a>, gone: Vmm<'a>, left: Teardown<'a>)
    requires
        running.shutdown_exit_code is None,
        running.tears_down_to(gone, left),
    ensures
        left.handles@ == running.vcpus_handles@,
        gone.shutdown_exit_code == Some(FcExitCode::Success),
{
}

/// Stopping and tearing down keep the monitor's tables in order.
pub proof fn stopping_keeps_the_tables<'a>(running: Vmm<'a>, after: Vmm<'a>, exit_code: FcExitCode)
    requires
        running.wf(),
        running.stops_as(after, exit_code),
    ensures
        after.wf(),
{
}

/// Nothing is saved behind a failure: a save whose vCPUs failed has asked for nothing else, and one
/// whose virtual machine failed has not asked for the devices.
pub proof fn failed_save_stops<K, V, D>(saving: StateSave<K, V, D>)
    requires
        saving.wf(),
    ensures
        saving.vcpu_states is Err ==> saving.next() is Over && saving.kvm_state is None
            && saving.vm_state is None && saving.device_states is None,
        (saving.vm_state matches Some(Err(_))) ==> saving.next() is Over
            && saving.device_states is None,
{
}

} // verus!

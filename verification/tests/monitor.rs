use vmm::error::{MicrovmStateError, StartVcpusError, TerminalError, VmError, VmmError};
use vmm::vcpu::{
    FcExitCode, RecvTimeoutError, RoundKind, VcpuHandle, VcpuResponse, VcpuStartup, VcpuState,
};
use vmm::vmm::{InstanceInfo, SaveStep, StateSave, Vmm, VmState, EVENT_SET_IN};

fn info(state: VmState) -> InstanceInfo {
    InstanceInfo {
        id: "vm".to_string(),
        state,
        vmm_version: "1.2.3".to_string(),
        app_name: "app".to_string(),
    }
}

fn monitor<'a>(vcpus: u64) -> Vmm<'a> {
    let mut vmm = Vmm::new(info(VmState::NotStarted), 5, 32, 8);
    vmm.vcpus_handles = (0..vcpus).map(|id| VcpuHandle { id }).collect();
    vmm
}

#[test]
fn monitor_tells_what_it_is() {
    let vmm = monitor(0);
    assert_eq!(vmm.version(), "1.2.3");
    assert_eq!(vmm.instance_info(), info(VmState::NotStarted));
    assert_eq!(vmm.shutdown_exit_code(), None);
}

#[test]
fn started_vcpus_are_paused() {
    let mut vmm = monitor(0);
    let mut startup = VcpuStartup::new(1);
    startup.record_raw_mode(Ok(()));
    startup.record_non_block(Ok(()));
    startup.record_thread(Ok(VcpuHandle { id: 3 }));
    assert_eq!(vmm.start_vcpus(startup), Ok(()));
    assert_eq!(vmm.instance_info.state, VmState::Paused);
    assert_eq!(vmm.vcpus_handles, vec![VcpuHandle { id: 3 }]);
}

#[test]
fn failed_start_leaves_the_state() {
    let mut vmm = monitor(0);
    let mut startup = VcpuStartup::new(1);
    startup.record_raw_mode(Err(TerminalError("tty".to_string())));
    assert_eq!(
        vmm.start_vcpus(startup),
        Err(StartVcpusError::VmmObserverInit(TerminalError("tty".to_string())))
    );
    assert_eq!(vmm.instance_info.state, VmState::NotStarted);
}

#[test]
fn resume_and_pause_follow_the_answers() {
    let mut vmm = monitor(1);
    let mut round = vmm.begin_round(RoundKind::Resume);
    round.record_send(Ok(()));
    round.record_reply(Ok(VcpuResponse::Resumed));
    assert_eq!(vmm.resume_vm(&round), Ok(()));
    assert_eq!(vmm.instance_info.state, VmState::Running);

    let mut round = vmm.begin_round(RoundKind::Pause);
    round.record_send(Ok(()));
    round.record_reply(Err(RecvTimeoutError::Timeout));
    assert_eq!(vmm.pause_vm(&round), Err(VmmError::VcpuMessage));
    assert_eq!(vmm.instance_info.state, VmState::Running);

    let mut round = vmm.begin_round(RoundKind::Pause);
    round.record_send(Ok(()));
    round.record_reply(Ok(VcpuResponse::Paused));
    assert_eq!(vmm.pause_vm(&round), Ok(()));
    assert_eq!(vmm.instance_info.state, VmState::Paused);

    let mut round = vmm.begin_round(RoundKind::Resume);
    round.record_send(Ok(()));
    round.record_reply(Ok(VcpuResponse::Paused));
    assert_eq!(vmm.resume_vm(&round), Err(VmmError::VcpuMessage));
    assert_eq!(vmm.instance_info.state, VmState::Paused);
}

#[test]
fn saved_state_is_made_of_its_parts() {
    let vmm = monitor(1);
    let mut round = vmm.begin_round(RoundKind::SaveState);
    round.record_send(Ok(()));
    let state = VcpuState { mpidr: 1, registers: vec![2] };
    round.record_reply(Ok(VcpuResponse::SavedState(Box::new(state))));
    let vcpus = vmm.save_vcpu_states(round);
    let mut saving = StateSave::new(vcpus);
    assert_eq!(saving.step(), SaveStep::SaveKvm);
    saving.record_kvm("kvm");
    assert_eq!(saving.step(), SaveStep::SaveVm);
    assert_eq!(saving.kvm_mpidrs(), vec![0x1_0000_0000]);
    saving.record_vm(Ok("vm"));
    assert_eq!(saving.step(), SaveStep::SaveDevices);
    saving.record_devices("devices");
    assert_eq!(saving.step(), SaveStep::Over);
    let saved = vmm.save_state(&7u8, saving).unwrap();
    assert_eq!(saved.vm_info, 7);
    assert_eq!(saved.kvm_state, "kvm");
    assert_eq!(saved.vm_state, "vm");
    assert_eq!(saved.vcpu_states, vec![VcpuState { mpidr: 1, registers: vec![2] }]);
    assert_eq!(saved.device_states, "devices");
}

#[test]
fn save_ends_with_the_vcpus_failure() {
    let saving: StateSave<(), (), ()> =
        StateSave::new(Err(MicrovmStateError::UnexpectedVcpuResponse));
    assert_eq!(saving.step(), SaveStep::Over);
    assert_eq!(
        monitor(1).save_state(&(), saving).unwrap_err(),
        MicrovmStateError::UnexpectedVcpuResponse
    );
}

#[test]
fn save_ends_with_the_machines_failure() {
    let mut saving: StateSave<(), (), ()> = StateSave::new(Ok(vec![]));
    saving.record_kvm(());
    saving.record_vm(Err(VmError("irq".to_string())));
    assert_eq!(saving.step(), SaveStep::Over);
    assert_eq!(
        monitor(1).save_state(&(), saving).unwrap_err(),
        MicrovmStateError::SaveVmState(VmError("irq".to_string()))
    );
}

#[test]
fn dumped_configurations_come_from_the_round() {
    let vmm = monitor(0);
    let round = vmm.begin_round(RoundKind::DumpCpuConfig);
    assert_eq!(vmm.dump_cpu_config(round), Ok(vec![]));
}

#[test]
fn stop_hands_the_threads_out() {
    let mut vmm = monitor(2);
    assert_eq!(vmm.stop(FcExitCode::SIGBUS), vec![VcpuHandle { id: 0 }, VcpuHandle { id: 1 }]);
    assert!(vmm.vcpus_handles.is_empty());
    assert_eq!(vmm.shutdown_exit_code(), Some(FcExitCode::SIGBUS));
}

#[test]
fn exit_event_stops_with_the_vcpus_code() {
    let mut vmm = monitor(1);
    let responses = vec![vec![VcpuResponse::Exited(FcExitCode::GenericError)]];
    assert!(vmm.is_exit_event(5, EVENT_SET_IN));
    assert_eq!(vmm.process(5, EVENT_SET_IN, &responses), Some(vec![VcpuHandle { id: 0 }]));
    assert_eq!(vmm.shutdown_exit_code(), Some(FcExitCode::GenericError));
}

#[test]
fn other_events_are_spurious() {
    let mut vmm = monitor(1);
    assert!(!vmm.is_exit_event(6, EVENT_SET_IN));
    assert_eq!(vmm.process(6, EVENT_SET_IN, &vec![]), None);
    assert_eq!(vmm.process(5, EVENT_SET_IN | 4, &vec![]), None);
    assert_eq!(vmm.shutdown_exit_code(), None);
    assert_eq!(vmm.vcpus_handles.len(), 1);
}

#[test]
fn teardown_after_a_stop_keeps_the_code() {
    let golden = vec![0u8; 8];
    let mut vmm = monitor(1);
    vmm.init_delta_hashes(Ok(&golden)).unwrap();
    vmm.stop(FcExitCode::BadSyscall);
    let left = vmm.teardown();
    assert!(left.handles.is_empty());
    assert_eq!(left.golden, Some(golden.as_slice()));
    assert_eq!(vmm.golden_base, None);
    assert_eq!(vmm.shutdown_exit_code(), Some(FcExitCode::BadSyscall));
}

#[test]
fn teardown_alone_is_a_success() {
    let mut vmm = monitor(1);
    let left = vmm.teardown();
    assert_eq!(left.handles, vec![VcpuHandle { id: 0 }]);
    assert_eq!(left.golden, None);
    assert_eq!(vmm.shutdown_exit_code(), Some(FcExitCode::Success));
}

#[test]
fn readiness_is_what_the_event_loop_reports() {
    assert_eq!(EVENT_SET_IN, vmm_sys_util::epoll::EventSet::IN.bits());
}

use vmm::error::{
    DumpCpuConfigError, MicrovmStateError, StartThreadedError, StartVcpusError, TerminalError,
    VcpuError, VcpuSendEventError,
};
use vmm::vcpu::{
    construct_kvm_mpidrs, exit_code, is_failing_exit, CpuConfiguration, FcExitCode,
    RecvTimeoutError, RoundKind, RoundStep, StartStep, VcpuEvent, VcpuHandle, VcpuResponse,
    VcpuRound, VcpuStartup, VcpuState, RECV_TIMEOUT_SEC,
};

fn state(mpidr: u64) -> VcpuState {
    VcpuState { mpidr, registers: vec![mpidr as u8] }
}

fn saved(mpidr: u64) -> Result<VcpuResponse, RecvTimeoutError> {
    Ok(VcpuResponse::SavedState(Box::new(state(mpidr))))
}

fn dumped(byte: u8) -> Result<VcpuResponse, RecvTimeoutError> {
    Ok(VcpuResponse::DumpedCpuConfig(Box::new(CpuConfiguration(vec![byte]))))
}

// Runs a round in which every send succeeds, until it is over.
fn round_of(
    kind: RoundKind,
    vcpus: usize,
    replies: Vec<Result<VcpuResponse, RecvTimeoutError>>,
) -> VcpuRound {
    let mut round = VcpuRound::new(kind, vcpus);
    for i in 0..vcpus {
        assert_eq!(round.step(), RoundStep::Send { vcpu: i });
        round.record_send(Ok(()));
    }
    for (i, reply) in replies.into_iter().enumerate() {
        assert_eq!(round.step(), RoundStep::Receive { vcpu: i });
        round.record_reply(reply);
    }
    assert_eq!(round.step(), RoundStep::Over);
    round
}

#[test]
fn exit_codes_have_their_numbers() {
    let numbers = [
        (FcExitCode::Success, 0),
        (FcExitCode::GenericError, 1),
        (FcExitCode::UnexpectedError, 2),
        (FcExitCode::BadSyscall, 148),
        (FcExitCode::SIGBUS, 149),
        (FcExitCode::SIGSEGV, 150),
        (FcExitCode::SIGXFSZ, 151),
        (FcExitCode::BadConfiguration, 152),
        (FcExitCode::ArgParsing, 153),
        (FcExitCode::SIGXCPU, 154),
        (FcExitCode::SIGPIPE, 155),
        (FcExitCode::SIGHUP, 156),
        (FcExitCode::SIGILL, 157),
    ];
    for (i, (code, number)) in numbers.iter().enumerate() {
        assert_eq!(code.code(), *number);
        for (other, _) in &numbers[..i] {
            assert_ne!(other.code(), *number);
        }
    }
}

#[test]
fn vcpus_have_half_a_minute_to_answer() {
    assert_eq!(RECV_TIMEOUT_SEC, 30);
}

#[test]
fn rounds_send_their_event() {
    assert_eq!(RoundKind::Resume.event(), VcpuEvent::Resume);
    assert_eq!(RoundKind::Pause.event(), VcpuEvent::Pause);
    assert_eq!(RoundKind::SaveState.event(), VcpuEvent::SaveState);
    assert_eq!(RoundKind::DumpCpuConfig.event(), VcpuEvent::DumpCpuConfig);
}

#[test]
fn round_without_vcpus_is_complete() {
    let round = VcpuRound::new(RoundKind::Pause, 0);
    assert_eq!(round.step(), RoundStep::Over);
    assert!(round.is_complete());
}

#[test]
fn failed_send_ends_a_round() {
    let mut round = VcpuRound::new(RoundKind::Resume, 3);
    round.record_send(Ok(()));
    round.record_send(Err(VcpuSendEventError("kick".to_string())));
    assert_eq!(round.step(), RoundStep::Over);
    assert!(!round.is_complete());
}

#[test]
fn pause_ends_with_the_first_other_answer() {
    let round =
        round_of(RoundKind::Pause, 3, vec![Ok(VcpuResponse::Paused), Ok(VcpuResponse::Resumed)]);
    assert!(!round.is_complete());
    let round = round_of(RoundKind::Pause, 2, vec![Err(RecvTimeoutError::Timeout)]);
    assert!(!round.is_complete());
    let round =
        round_of(RoundKind::Pause, 2, vec![Ok(VcpuResponse::Paused), Ok(VcpuResponse::Paused)]);
    assert!(round.is_complete());
}

#[test]
fn states_come_in_order_of_the_vcpus() {
    let round = round_of(RoundKind::SaveState, 2, vec![saved(4), saved(5)]);
    assert_eq!(round.into_states(), Ok(vec![state(4), state(5)]));
}

#[test]
fn states_report_a_failed_send() {
    let mut round = VcpuRound::new(RoundKind::SaveState, 1);
    round.record_send(Err(VcpuSendEventError("kick".to_string())));
    assert_eq!(
        round.into_states(),
        Err(MicrovmStateError::SignalVcpu(VcpuSendEventError("kick".to_string())))
    );
}

#[test]
fn missing_answer_goes_before_an_error_in_an_answer() {
    let failed = || Ok(VcpuResponse::Error(VcpuError("kvm".to_string())));
    let round =
        round_of(RoundKind::SaveState, 2, vec![failed(), Err(RecvTimeoutError::Disconnected)]);
    assert_eq!(round.into_states(), Err(MicrovmStateError::UnexpectedVcpuResponse));
    let round =
        round_of(RoundKind::DumpCpuConfig, 2, vec![failed(), Err(RecvTimeoutError::Timeout)]);
    assert_eq!(round.into_configs(), Err(DumpCpuConfigError::UnexpectedResponse));
}

#[test]
fn first_answer_without_a_state_is_reported() {
    let failed = Ok(VcpuResponse::Error(VcpuError("kvm".to_string())));
    let refused = Ok(VcpuResponse::NotAllowed("running".to_string()));
    let round = round_of(RoundKind::SaveState, 3, vec![saved(1), failed, refused]);
    assert_eq!(
        round.into_states(),
        Err(MicrovmStateError::SaveVcpuState(VcpuError("kvm".to_string())))
    );
    let refused = Ok(VcpuResponse::NotAllowed("running".to_string()));
    let round = round_of(RoundKind::SaveState, 1, vec![refused]);
    assert_eq!(
        round.into_states(),
        Err(MicrovmStateError::NotAllowed("running".to_string()))
    );
    let round = round_of(RoundKind::SaveState, 1, vec![Ok(VcpuResponse::Paused)]);
    assert_eq!(round.into_states(), Err(MicrovmStateError::UnexpectedVcpuResponse));
}

#[test]
fn configurations_come_in_order_of_the_vcpus() {
    let round = round_of(RoundKind::DumpCpuConfig, 2, vec![dumped(1), dumped(2)]);
    assert_eq!(
        round.into_configs(),
        Ok(vec![CpuConfiguration(vec![1]), CpuConfiguration(vec![2])])
    );
}

#[test]
fn configurations_report_each_kind_of_failure() {
    let mut round = VcpuRound::new(RoundKind::DumpCpuConfig, 1);
    round.record_send(Err(VcpuSendEventError("kick".to_string())));
    assert_eq!(
        round.into_configs(),
        Err(DumpCpuConfigError::SendEvent(VcpuSendEventError("kick".to_string())))
    );
    let failed = Ok(VcpuResponse::Error(VcpuError("kvm".to_string())));
    let round = round_of(RoundKind::DumpCpuConfig, 1, vec![failed]);
    assert_eq!(
        round.into_configs(),
        Err(DumpCpuConfigError::DumpCpuConfig(VcpuError("kvm".to_string())))
    );
    let refused = Ok(VcpuResponse::NotAllowed("running".to_string()));
    let round = round_of(RoundKind::DumpCpuConfig, 1, vec![refused]);
    assert_eq!(
        round.into_configs(),
        Err(DumpCpuConfigError::NotAllowed("running".to_string()))
    );
    let round = round_of(RoundKind::DumpCpuConfig, 1, vec![saved(1)]);
    assert_eq!(round.into_configs(), Err(DumpCpuConfigError::UnexpectedResponse));
}

#[test]
fn startup_sets_the_terminal_and_then_starts_threads() {
    let mut startup = VcpuStartup::new(2);
    assert_eq!(startup.barrier_parties(), 3);
    assert_eq!(startup.step(), StartStep::SetRawMode);
    startup.record_raw_mode(Ok(()));
    assert_eq!(startup.step(), StartStep::SetNonBlock);
    startup.record_non_block(Ok(()));
    assert_eq!(startup.step(), StartStep::StartVcpu { vcpu: 0 });
    startup.record_thread(Ok(VcpuHandle { id: 10 }));
    assert_eq!(startup.step(), StartStep::StartVcpu { vcpu: 1 });
    startup.record_thread(Ok(VcpuHandle { id: 11 }));
    assert_eq!(startup.step(), StartStep::Over);
    let mut handles = vec![];
    assert_eq!(startup.take_handles(&mut handles), None);
    assert_eq!(handles, vec![VcpuHandle { id: 10 }, VcpuHandle { id: 11 }]);
}

#[test]
fn startup_stops_where_the_terminal_fails() {
    let error = || TerminalError("tty".to_string());
    let mut startup = VcpuStartup::new(2);
    startup.record_raw_mode(Err(error()));
    assert_eq!(startup.step(), StartStep::Over);
    let mut handles = vec![];
    assert_eq!(
        startup.take_handles(&mut handles),
        Some(StartVcpusError::VmmObserverInit(error()))
    );
    let mut startup = VcpuStartup::new(2);
    startup.record_raw_mode(Ok(()));
    startup.record_non_block(Err(error()));
    assert_eq!(startup.step(), StartStep::Over);
    assert_eq!(
        startup.take_handles(&mut handles),
        Some(StartVcpusError::VmmObserverInit(error()))
    );
    assert!(handles.is_empty());
}

#[test]
fn startup_keeps_the_threads_before_one_that_fails() {
    let mut startup = VcpuStartup::new(3);
    startup.record_raw_mode(Ok(()));
    startup.record_non_block(Ok(()));
    startup.record_thread(Ok(VcpuHandle { id: 10 }));
    startup.record_thread(Err(StartThreadedError("spawn".to_string())));
    assert_eq!(startup.step(), StartStep::Over);
    let mut handles = vec![];
    assert_eq!(
        startup.take_handles(&mut handles),
        Some(StartVcpusError::VcpuHandle(StartThreadedError("spawn".to_string())))
    );
    assert_eq!(handles, vec![VcpuHandle { id: 10 }]);
}

#[test]
fn error_exits_go_before_successes() {
    let ok = || VcpuResponse::Exited(FcExitCode::Success);
    assert_eq!(exit_code(&vec![]), FcExitCode::Success);
    assert_eq!(exit_code(&vec![vec![ok()], vec![VcpuResponse::Paused]]), FcExitCode::Success);
    assert_eq!(
        exit_code(&vec![
            vec![VcpuResponse::Resumed, ok()],
            vec![ok(), VcpuResponse::Exited(FcExitCode::GenericError)],
            vec![VcpuResponse::Exited(FcExitCode::BadSyscall)],
        ]),
        FcExitCode::GenericError
    );
}

#[test]
fn affinity_levels_move_to_the_high_half() {
    let states = vec![state(0xab_80_03_02_01), state(0), state(0xffff_ffff_ffff_ffff)];
    assert_eq!(
        construct_kvm_mpidrs(&states),
        vec![0xab03_0201_0000_0000, 0, 0xffff_ffff_0000_0000]
    );
}

#[test]
fn only_exits_without_success_are_failing() {
    assert!(is_failing_exit(&VcpuResponse::Exited(FcExitCode::SIGILL)));
    assert!(!is_failing_exit(&VcpuResponse::Exited(FcExitCode::Success)));
    assert!(!is_failing_exit(&VcpuResponse::Error(VcpuError("kvm".to_string()))));
}

//! vCPUs and the monitor's life: what is asked of whom, what an answer leads to, and what a stop
//! leaves.

use crate::error::{
    DumpCpuConfigError, MicrovmStateError, StartThreadedError, StartVcpusError, TerminalError,
};
use crate::vcpu::{
    dumped_config, dumped_configs, exit_code_of, failing_exit, first_failing_exit, kvm_mpidr,
    reports_failure, saved_state, saved_states, CpuConfiguration, FcExitCode, RecvTimeoutError,
    RoundKind, RoundStep, StartStep, VcpuHandle, VcpuResponse, VcpuRound, VcpuStartup, VcpuState,
};
use crate::vmm::{StateSave, Teardown, Vmm};
use vstd::prelude::*;

verus! {

/// The numbers that the process exits with.
pub proof fn exit_numbers(code: FcExitCode)
    ensures
        code.number() == 0 <==> code == FcExitCode::Success,
        code.number() == 1 <==> code == FcExitCode::GenericError,
        code.number() == 2 <==> code == FcExitCode::UnexpectedError,
        code.number() == 148 <==> code == FcExitCode::BadSyscall,
        code.number() == 149 <==> code == FcExitCode::SIGBUS,
        code.number() == 150 <==> code == FcExitCode::SIGSEGV,
        code.number() == 151 <==> code == FcExitCode::SIGXFSZ,
        code.number() == 152 <==> code == FcExitCode::BadConfiguration,
        code.number() == 153 <==> code == FcExitCode::ArgParsing,
        code.number() == 154 <==> code == FcExitCode::SIGXCPU,
        code.number() == 155 <==> code == FcExitCode::SIGPIPE,
        code.number() == 156 <==> code == FcExitCode::SIGHUP,
        code.number() == 157 <==> code == FcExitCode::SIGILL,
{
}

/// A round tells the vCPUs what it is for.
pub proof fn rounds_send_their_own_event(kind: RoundKind)
    ensures
        kind is Resume <==> kind.spec_event() is Resume,
        kind is Pause <==> kind.spec_event() is Pause,
        kind is SaveState <==> kind.spec_event() is SaveState,
        kind is DumpCpuConfig <==> kind.spec_event() is DumpCpuConfig,
        !(kind.spec_event() is Finish),
{
}

/// A round is driven in one way only. While no send failed the vCPUs are told one after the other,
/// each once; after the last of them their answers are taken one after the other. A failed send, an
/// answer that does not confirm a resume or a pause, or a missing answer ends the round.
pub proof fn round_asks_each_vcpu_in_turn(round: VcpuRound, v: usize)
    requires
        round.wf(),
    ensures
        round.next() == (RoundStep::Send { vcpu: v }) <==> {
            &&& v == round.sends@.len() && v < round.vcpus
            &&& round.sends@.len() > 0 ==> round.sends@[round.sends@.len() - 1] is Ok
        },
        round.next() == (RoundStep::Receive { vcpu: v }) <==> {
            &&& round.sends@.len() == round.vcpus
            &&& round.sends@.len() > 0 ==> round.sends@[round.sends@.len() - 1] is Ok
            &&& v == round.replies@.len() && v < round.vcpus
            &&& round.replies@.len() > 0 ==> match round.kind {
                RoundKind::Resume => round.replies@[round.replies@.len() - 1] == Ok::<
                    VcpuResponse,
                    RecvTimeoutError,
                >(VcpuResponse::Resumed),
                RoundKind::Pause => round.replies@[round.replies@.len() - 1] == Ok::<
                    VcpuResponse,
                    RecvTimeoutError,
                >(VcpuResponse::Paused),
                _ => round.replies@[round.replies@.len() - 1] is Ok,
            }
        },
{
}

/// A round is complete exactly where every vCPU was told and confirmed: resumed after a resume,
/// paused after a pause, and with any answer at all where states or configurations are asked for.
pub proof fn complete_means_every_vcpu_confirmed(round: VcpuRound)
    requires
        round.sends@.len() <= round.vcpus,
        round.replies@.len() <= round.vcpus,
    ensures
        round.complete() <==> {
            &&& round.sends@.len() == round.vcpus
            &&& round.replies@.len() == round.vcpus
            &&& forall|i: int| 0 <= i < round.sends@.len() ==> #[trigger] round.sends@[i] is Ok
            &&& forall|i: int|
                0 <= i < round.replies@.len() ==> match round.kind {
                    RoundKind::Resume => #[trigger] round.replies@[i] == Ok::<
                        VcpuResponse,
                        RecvTimeoutError,
                    >(VcpuResponse::Resumed),
                    RoundKind::Pause => round.replies@[i] == Ok::<VcpuResponse, RecvTimeoutError>(
                        VcpuResponse::Paused,
                    ),
                    _ => round.replies@[i] is Ok,
                }
        },
{
    if round.complete() {
        assert forall|i: int| 0 <= i < round.replies@.len() implies match round.kind {
            RoundKind::Resume => #[trigger] round.replies@[i] == Ok::<
                VcpuResponse,
                RecvTimeoutError,
            >(VcpuResponse::Resumed),
            RoundKind::Pause => round.replies@[i] == Ok::<VcpuResponse, RecvTimeoutError>(
                VcpuResponse::Paused,
            ),
            _ => round.replies@[i] is Ok,
        } by {
            assert(!round.kind.ended_by(round.replies@[i]));
        }
    } else {
        assert(round.sends@.len() == round.vcpus && round.replies@.len() == round.vcpus ==> (exists|
            i: int,
        |
            0 <= i < round.vcpus && !(#[trigger] round.sends@[i] is Ok)) || (exists|i: int|
            0 <= i < round.vcpus && round.kind.ended_by(#[trigger] round.replies@[i])));
    }
}

/// A round that saved states comes to the states that the vCPUs answered with, in their order,
/// where all of them did.
pub proof fn states_are_those_answered(round: VcpuRound, states: Seq<VcpuState>)
    requires
        round.wf(),
        round.kind is SaveState,
        round.next() is Over,
        round.sends@.len() == round.vcpus,
        forall|i: int| 0 <= i < round.sends@.len() ==> #[trigger] round.sends@[i] is Ok,
        round.replies@.len() == states.len(),
        forall|i: int|
            0 <= i < states.len() ==> #[trigger] round.replies@[i] == Ok::<
                VcpuResponse,
                RecvTimeoutError,
            >(VcpuResponse::SavedState(Box::new(states[i]))),
    ensures
        round.states() == Ok::<Seq<VcpuState>, MicrovmStateError>(states),
{
    if round.sends@.len() > 0 {
        assert(round.sends@[round.sends@.len() - 1] is Ok);
    }
    if states.len() > 0 {
        assert(round.replies@[states.len() - 1] is Ok);
    }
    lemma_states_answered(round.replies@, states, states.len() as int);
    assert(states.take(states.len() as int) =~= states);
}

proof fn lemma_states_answered(
    replies: Seq<Result<VcpuResponse, RecvTimeoutError>>,
    states: Seq<VcpuState>,
    n: int,
)
    requires
        0 <= n <= states.len() <= replies.len(),
        forall|i: int|
            0 <= i < n ==> #[trigger] replies[i] == Ok::<VcpuResponse, RecvTimeoutError>(
                VcpuResponse::SavedState(Box::new(states[i])),
            ),
    ensures
        saved_states(replies, n) == Ok::<Seq<VcpuState>, MicrovmStateError>(states.take(n)),
    decreases n,
{
    if n > 0 {
        lemma_states_answered(replies, states, n - 1);
        assert(replies[n - 1] is Ok);
        assert(states.take(n) =~= states.take(n - 1).push(states[n - 1]));
    } else {
        assert(states.take(0) =~= Seq::<VcpuState>::empty());
    }
}

/// The first answer that is no state decides how a save of vCPU states fails, once every vCPU was
/// told and answered.
pub proof fn first_other_answer_fails_the_states(round: VcpuRound, i: int, error: MicrovmStateError)
    requires
        round.wf(),
        round.kind is SaveState,
        round.next() is Over,
        forall|j: int| 0 <= j < round.sends@.len() ==> #[trigger] round.sends@[j] is Ok,
        forall|j: int| 0 <= j < round.replies@.len() ==> #[trigger] round.replies@[j] is Ok,
        0 <= i < round.replies@.len(),
        forall|j: int| 0 <= j < i ==> (#[trigger] round.replies@[j])->Ok_0 is SavedState,
        match round.replies@[i]->Ok_0 {
            VcpuResponse::SavedState(_) => false,
            VcpuResponse::Error(e) => error == MicrovmStateError::SaveVcpuState(e),
            VcpuResponse::NotAllowed(reason) => error == MicrovmStateError::NotAllowed(reason),
            _ => error == MicrovmStateError::UnexpectedVcpuResponse,
        },
    ensures
        round.states() == Err::<Seq<VcpuState>, MicrovmStateError>(error),
{
    let n = round.replies@.len() as int;
    if round.sends@.len() > 0 {
        assert(round.sends@[round.sends@.len() - 1] is Ok);
    }
    assert(round.replies@[n - 1] is Ok);
    lemma_states_failed(round.replies@, i, n, error);
}

proof fn lemma_states_failed(
    replies: Seq<Result<VcpuResponse, RecvTimeoutError>>,
    i: int,
    n: int,
    error: MicrovmStateError,
)
    requires
        0 <= i < n <= replies.len(),
        forall|j: int| 0 <= j < n ==> #[trigger] replies[j] is Ok,
        forall|j: int| 0 <= j < i ==> (#[trigger] replies[j])->Ok_0 is SavedState,
        saved_state(replies[i]) == Err::<VcpuState, MicrovmStateError>(error),
    ensures
        saved_states(replies, n) == Err::<Seq<VcpuState>, MicrovmStateError>(error),
    decreases n,
{
    if i < n - 1 {
        lemma_states_failed(replies, i, n - 1, error);
    } else {
        lemma_states_fine(replies, i);
    }
}

proof fn lemma_states_fine(replies: Seq<Result<VcpuResponse, RecvTimeoutError>>, n: int)
    requires
        0 <= n <= replies.len(),
        forall|j: int| 0 <= j < replies.len() && j < n ==> #[trigger] replies[j] is Ok,
        forall|j: int| 0 <= j < n ==> (#[trigger] replies[j])->Ok_0 is SavedState,
    ensures
        saved_states(replies, n) is Ok,
    decreases n,
{
    if n > 0 {
        lemma_states_fine(replies, n - 1);
        assert(replies[n - 1] is Ok);
    }
}

/// A send that failed is what a save of vCPU states or a dump of configurations fails with; a
/// missing answer counts as an unexpected one, whatever the others were.
pub proof fn missing_sends_and_answers_fail_a_round(round: VcpuRound)
    requires
        round.sends@.len() > 0,
    ensures
        round.sends@[round.sends@.len() - 1] matches Err(e) ==> round.states() == Err::<
            Seq<VcpuState>,
            MicrovmStateError,
        >(MicrovmStateError::SignalVcpu(e)) && round.configs() == Err::<
            Seq<CpuConfiguration>,
            DumpCpuConfigError,
        >(DumpCpuConfigError::SendEvent(e)),
        round.sends@[round.sends@.len() - 1] is Ok && round.replies@.len() > 0
            && round.replies@[round.replies@.len() - 1] is Err && round.kind is SaveState
            ==> round.states() == Err::<Seq<VcpuState>, MicrovmStateError>(
            MicrovmStateError::UnexpectedVcpuResponse,
        ),
        round.sends@[round.sends@.len() - 1] is Ok && round.replies@.len() > 0
            && round.replies@[round.replies@.len() - 1] is Err && round.kind is DumpCpuConfig
            ==> round.configs() == Err::<Seq<CpuConfiguration>, DumpCpuConfigError>(
            DumpCpuConfigError::UnexpectedResponse,
        ),
{
}

/// A round that dumped configurations comes to those that the vCPUs answered with, in their order,
/// where all of them did.
pub proof fn configs_are_those_answered(round: VcpuRound, configs: Seq<CpuConfiguration>)
    requires
        round.wf(),
        round.kind is DumpCpuConfig,
        round.next() is Over,
        round.sends@.len() == round.vcpus,
        forall|i: int| 0 <= i < round.sends@.len() ==> #[trigger] round.sends@[i] is Ok,
        round.replies@.len() == configs.len(),
        forall|i: int|
            0 <= i < configs.len() ==> #[trigger] round.replies@[i] == Ok::<
                VcpuResponse,
                RecvTimeoutError,
            >(VcpuResponse::DumpedCpuConfig(Box::new(configs[i]))),
    ensures
        round.configs() == Ok::<Seq<CpuConfiguration>, DumpCpuConfigError>(configs),
{
    if round.sends@.len() > 0 {
        assert(round.sends@[round.sends@.len() - 1] is Ok);
    }
    if configs.len() > 0 {
        assert(round.replies@[configs.len() - 1] is Ok);
    }
    lemma_configs_answered(round.replies@, configs, configs.len() as int);
    assert(configs.take(configs.len() as int) =~= configs);
}

proof fn lemma_configs_answered(
    replies: Seq<Result<VcpuResponse, RecvTimeoutError>>,
    configs: Seq<CpuConfiguration>,
    n: int,
)
    requires
        0 <= n <= configs.len() <= replies.len(),
        forall|i: int|
            0 <= i < n ==> #[trigger] replies[i] == Ok::<VcpuResponse, RecvTimeoutError>(
                VcpuResponse::DumpedCpuConfig(Box::new(configs[i])),
            ),
    ensures
        dumped_configs(replies, n) == Ok::<Seq<CpuConfiguration>, DumpCpuConfigError>(
            configs.take(n),
        ),
    decreases n,
{
    if n > 0 {
        lemma_configs_answered(replies, configs, n - 1);
        assert(replies[n - 1] is Ok);
        assert(configs.take(n) =~= configs.take(n - 1).push(configs[n - 1]));
    } else {
        assert(configs.take(0) =~= Seq::<CpuConfiguration>::empty());
    }
}

/// The first answer that is no configuration decides how a dump fails, once every vCPU was told and
/// answered.
pub proof fn first_other_answer_fails_the_configs(
    round: VcpuRound,
    i: int,
    error: DumpCpuConfigError,
)
    requires
        round.wf(),
        round.kind is DumpCpuConfig,
        round.next() is Over,
        forall|j: int| 0 <= j < round.sends@.len() ==> #[trigger] round.sends@[j] is Ok,
        forall|j: int| 0 <= j < round.replies@.len() ==> #[trigger] round.replies@[j] is Ok,
        0 <= i < round.replies@.len(),
        forall|j: int| 0 <= j < i ==> (#[trigger] round.replies@[j])->Ok_0 is DumpedCpuConfig,
        match round.replies@[i]->Ok_0 {
            VcpuResponse::DumpedCpuConfig(_) => false,
            VcpuResponse::Error(e) => error == DumpCpuConfigError::DumpCpuConfig(e),
            VcpuResponse::NotAllowed(reason) => error == DumpCpuConfigError::NotAllowed(reason),
            _ => error == DumpCpuConfigError::UnexpectedResponse,
        },
    ensures
        round.configs() == Err::<Seq<CpuConfiguration>, DumpCpuConfigError>(error),
{
    let n = round.replies@.len() as int;
    if round.sends@.len() > 0 {
        assert(round.sends@[round.sends@.len() - 1] is Ok);
    }
    assert(round.replies@[n - 1] is Ok);
    lemma_configs_failed(round.replies@, i, n, error);
}

proof fn lemma_configs_failed(
    replies: Seq<Result<VcpuResponse, RecvTimeoutError>>,
    i: int,
    n: int,
    error: DumpCpuConfigError,
)
    requires
        0 <= i < n <= replies.len(),
        forall|j: int| 0 <= j < n ==> #[trigger] replies[j] is Ok,
        forall|j: int| 0 <= j < i ==> (#[trigger] replies[j])->Ok_0 is DumpedCpuConfig,
        dumped_config(replies[i]) == Err::<CpuConfiguration, DumpCpuConfigError>(error),
    ensures
        dumped_configs(replies, n) == Err::<Seq<CpuConfiguration>, DumpCpuConfigError>(error),
    decreases n,
{
    if i < n - 1 {
        lemma_configs_failed(replies, i, n - 1, error);
    } else {
        lemma_configs_fine(replies, i);
    }
}

proof fn lemma_configs_fine(replies: Seq<Result<VcpuResponse, RecvTimeoutError>>, n: int)
    requires
        0 <= n <= replies.len(),
        forall|j: int| 0 <= j < replies.len() && j < n ==> #[trigger] replies[j] is Ok,
        forall|j: int| 0 <= j < n ==> (#[trigger] replies[j])->Ok_0 is DumpedCpuConfig,
    ensures
        dumped_configs(replies, n) is Ok,
    decreases n,
{
    if n > 0 {
        lemma_configs_fine(replies, n - 1);
        assert(replies[n - 1] is Ok);
    }
}

/// A start is driven in one way only: raw mode, then non-blocking reads, then the vCPUs' threads
/// one after the other, each once, until all are up or a step has failed.
pub proof fn start_takes_its_steps_in_order(startup: VcpuStartup, v: usize)
    requires
        startup.wf(),
    ensures
        startup.next() is SetRawMode <==> startup.raw_mode is None,
        startup.next() is SetNonBlock <==> (startup.raw_mode matches Some(Ok(_)))
            && startup.non_block is None,
        startup.next() == (StartStep::StartVcpu { vcpu: v }) <==> {
            &&& startup.raw_mode matches Some(Ok(_))
            &&& startup.non_block matches Some(Ok(_))
            &&& v == startup.started@.len() && v < startup.vcpus
            &&& startup.started@.len() > 0 ==> startup.started@[startup.started@.len() - 1] is Ok
        },
{
}

/// A start that is over has brought up the threads of the vCPUs in order, up to the first that
/// could not be started, and fails with that step's own error or not at all.
pub proof fn start_brings_up_threads_in_order(startup: VcpuStartup, up: int, i: int)
    requires
        startup.wf(),
        startup.next() is Over,
        0 <= up <= startup.started@.len(),
        forall|j: int| 0 <= j < up ==> #[trigger] startup.started@[j] is Ok,
        up < startup.started@.len() ==> startup.started@[up] is Err,
        0 <= i < up,
    ensures
        startup.handles().len() == up,
        startup.handles()[i] == startup.started@[i]->Ok_0,
{
    if up < startup.started@.len() && up < startup.started@.len() - 1 {
        assert(startup.started@[up] is Ok);
    }
    if up == startup.started@.len() {
        assert(startup.started@[up - 1] is Ok);
    }
}

/// What a start that is over fails with.
pub proof fn start_fails_with_its_own_error(startup: VcpuStartup)
    requires
        startup.wf(),
        startup.next() is Over,
    ensures
        match startup.error() {
            None => {
                &&& startup.raw_mode matches Some(Ok(_))
                &&& startup.non_block matches Some(Ok(_))
                &&& startup.started@.len() == startup.vcpus
                &&& startup.handles().len() == startup.vcpus
                &&& forall|i: int|
                    0 <= i < startup.vcpus ==> #[trigger] startup.started@[i] is Ok
            },
            Some(StartVcpusError::VmmObserverInit(e)) => {
                &&& startup.raw_mode == Some(Err::<(), TerminalError>(e)) || startup.non_block
                    == Some(Err::<(), TerminalError>(e))
                &&& startup.handles().len() == 0
            },
            Some(StartVcpusError::VcpuHandle(e)) => {
                &&& startup.started@.len() > 0
                &&& startup.started@[startup.started@.len() - 1] == Err::<
                    VcpuHandle,
                    StartThreadedError,
                >(e)
                &&& startup.handles().len() == startup.started@.len() - 1
            },
        },
{
    if startup.error() is None {
        assert forall|i: int| 0 <= i < startup.vcpus implies #[trigger] startup.started@[i] is Ok by {
            assert(i < startup.started@.len() - 1 || startup.started@[i]
                == startup.started@.last());
        }
    }
}

/// A response is a failing exit exactly where it is an exit with any code but success.
pub proof fn failing_exits(response: VcpuResponse)
    ensures
        reports_failure(response) <==> (response matches VcpuResponse::Exited(code) && !(
        code is Success)),
{
}

/// The monitor exits with the first failing code, vCPU by vCPU and response by response.
pub proof fn first_failing_code_wins(
    responses: Seq<Vec<VcpuResponse>>,
    v: int,
    i: int,
    code: FcExitCode,
)
    requires
        0 <= v < responses.len(),
        0 <= i < responses[v]@.len(),
        responses[v]@[i] == VcpuResponse::Exited(code),
        !(code is Success),
        forall|j: int|
            0 <= j < i ==> !((#[trigger] responses[v]@[j]) matches VcpuResponse::Exited(c) && !(
            c is Success)),
        forall|u: int, j: int|
            0 <= u < v && 0 <= j < responses[u]@.len() ==> !((#[trigger] responses[u]@[j]) matches
                VcpuResponse::Exited(c) && !(c is Success)),
    ensures
        exit_code_of(responses) == code,
{
    lemma_no_failing_before(responses[v]@, i);
    lemma_failing_found(responses[v]@, i, responses[v]@.len() as int, code);
    lemma_no_first_before(responses, v);
    lemma_first_found(responses, v, responses.len() as int, code);
}

proof fn lemma_no_failing_before(responses: Seq<VcpuResponse>, n: int)
    requires
        0 <= n <= responses.len(),
        forall|j: int|
            0 <= j < n ==> !((#[trigger] responses[j]) matches VcpuResponse::Exited(c) && !(
            c is Success)),
    ensures
        failing_exit(responses, n) is None,
    decreases n,
{
    if n > 0 {
        lemma_no_failing_before(responses, n - 1);
        assert(!(responses[n - 1] matches VcpuResponse::Exited(c) && !(c is Success)));
    }
}

proof fn lemma_failing_found(responses: Seq<VcpuResponse>, i: int, n: int, code: FcExitCode)
    requires
        0 <= i < n <= responses.len(),
        failing_exit(responses, i) is None,
        responses[i] == VcpuResponse::Exited(code),
        !(code is Success),
    ensures
        failing_exit(responses, n) == Some(code),
    decreases n,
{
    if i < n - 1 {
        lemma_failing_found(responses, i, n - 1, code);
    }
}

proof fn lemma_no_first_before(responses: Seq<Vec<VcpuResponse>>, n: int)
    requires
        0 <= n <= responses.len(),
        forall|u: int, j: int|
            0 <= u < n && 0 <= j < responses[u]@.len() ==> !((#[trigger] responses[u]@[j]) matches
                VcpuResponse::Exited(c) && !(c is Success)),
    ensures
        first_failing_exit(responses, n) is None,
    decreases n,
{
    if n > 0 {
        lemma_no_first_before(responses, n - 1);
        let last = responses[n - 1]@;
        assert forall|j: int| 0 <= j < last.len() implies !((#[trigger] last[j]) matches
            VcpuResponse::Exited(c) && !(c is Success)) by {
            assert(!(responses[n - 1]@[j] matches VcpuResponse::Exited(c) && !(c is Success)));
        }
        lemma_no_failing_before(last, last.len() as int);
    }
}

proof fn lemma_first_found(responses: Seq<Vec<VcpuResponse>>, v: int, n: int, code: FcExitCode)
    requires
        0 <= v < n <= responses.len(),
        first_failing_exit(responses, v) is None,
        failing_exit(responses[v]@, responses[v]@.len() as int) == Some(code),
    ensures
        first_failing_exit(responses, n) == Some(code),
    decreases n,
{
    if v < n - 1 {
        lemma_first_found(responses, v, n - 1, code);
    }
}

/// Where no vCPU reports a failing exit the monitor exits with success.
pub proof fn no_failing_code_is_a_success(responses: Seq<Vec<VcpuResponse>>)
    requires
        forall|u: int, j: int|
            0 <= u < responses.len() && 0 <= j < responses[u]@.len() ==> !((
            #[trigger] responses[u]@[j]) matches VcpuResponse::Exited(c) && !(c is Success)),
    ensures
        exit_code_of(responses) is Success,
{
    lemma_no_first_before(responses, responses.len() as int);
}

/// The kernel's form of `MPIDR_EL1` has the four affinity bytes in its high half, lowest level
/// first, and nothing in its low half.
pub proof fn affinity_bytes_move_up(mpidr: u64, out: u64)
    requires
        out == kvm_mpidr(mpidr),
    ensures
        out & 0xffff_ffff == 0,
        (out >> 32) & 0xff == mpidr & 0xff,
        (out >> 40) & 0xff == (mpidr >> 8) & 0xff,
        (out >> 48) & 0xff == (mpidr >> 16) & 0xff,
        (out >> 56) & 0xff == (mpidr >> 32) & 0xff,
{
    assert(out & 0xffff_ffff == 0 && (out >> 32) & 0xff == mpidr & 0xff && (out >> 40) & 0xff == (
    mpidr >> 8) & 0xff && (out >> 48) & 0xff == (mpidr >> 16) & 0xff && (out >> 56) & 0xff == (mpidr
        >> 32) & 0xff) by (bit_vector)
        requires
            out == (mpidr % 256) * 0x1_0000_0000 + (mpidr / 0x100 % 256) * 0x100_0000_0000 + (mpidr
                / 0x1_0000 % 256) * 0x1_0000_0000_0000 + (mpidr / 0x1_0000_0000 % 256)
                * 0x100_0000_0000_0000,
    ;
}

/// A stop takes the vCPU threads away and sets the exit code. Nothing else of the monitor changes.
pub proof fn stop_changes_threads_and_code<'a>(before: Vmm<'a>, after: Vmm<'a>, code: FcExitCode)
    requires
        before.stops_as(after, code),
    ensures
        after.vcpus_handles@ == Seq::<VcpuHandle>::empty(),
        after.shutdown_exit_code == Some(code),
        after.instance_info == before.instance_info,
        after.vcpus_exit_evt == before.vcpus_exit_evt,
        after.page_size == before.page_size,
        after.host_page_size == before.host_page_size,
        after.delta_hashes == before.delta_hashes,
        after.golden_base == before.golden_base,
        after.prev_checkpoint_blocks == before.prev_checkpoint_blocks,
{
}

/// A teardown leaves every thread and the golden image to release, keeps an exit code that was set,
/// and sets success otherwise.
pub proof fn teardown_leaves_all_to_release<'a>(
    before: Vmm<'a>,
    after: Vmm<'a>,
    left: Teardown<'a>,
)
    requires
        before.tears_down_to(after, left),
    ensures
        left.handles@ == before.vcpus_handles@,
        left.golden == before.golden_base,
        after.vcpus_handles@.len() == 0,
        after.golden_base is None,
        before.shutdown_exit_code is Some ==> after.shutdown_exit_code == before.shutdown_exit_code,
        before.shutdown_exit_code is None ==> after.shutdown_exit_code == Some(FcExitCode::Success),
        after.instance_info == before.instance_info,
        after.page_size == before.page_size,
        after.host_page_size == before.host_page_size,
        after.delta_hashes == before.delta_hashes,
        after.prev_checkpoint_blocks == before.prev_checkpoint_blocks,
{
}

/// Teardown is asked for by readiness for reading, alone, on the exit event.
pub proof fn teardown_is_asked_for_by_one_event(vmm: Vmm<'_>, source: i32, event_set: u32)
    ensures
        vmm.asks_for_teardown(source, event_set) <==> source == vmm.vcpus_exit_evt && event_set
            == 1,
{
}

/// A save takes its steps in one order: after vCPU states that are all there the hypervisor, then
/// the virtual machine, and after a machine that was saved the devices.
pub proof fn save_takes_its_steps_in_order<K, V, D>(saving: StateSave<K, V, D>)
    requires
        saving.wf(),
    ensures
        saving.next() is SaveKvm <==> saving.vcpu_states is Ok && saving.kvm_state is None,
        saving.next() is SaveVm <==> saving.kvm_state is Some && saving.vm_state is None,
        saving.next() is SaveDevices <==> (saving.vm_state matches Some(Ok(_)))
            && saving.device_states is None,
        saving.next() is Over <==> saving.vcpu_states is Err || (saving.vm_state matches Some(
            Err(_),
        )) || saving.device_states is Some,
{
}

} // verus!

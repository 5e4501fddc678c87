//! vCPU threads: what the monitor tells them, what they answer, and how a round of messages to all
//! of them runs.
//!
//! Sending and receiving happen outside. A [`VcpuRound`] or a [`VcpuStartup`] says which step comes
//! next and records its outcome.

use crate::error::{
    DumpCpuConfigError, MicrovmStateError, StartThreadedError, StartVcpusError, TerminalError,
    VcpuError, VcpuSendEventError,
};
use vstd::prelude::*;

verus! {

/// Exit codes of the monitor.
#[allow(clippy::upper_case_acronyms)]
#[derive(Debug, Clone, Copy, PartialEq, Eq, Structural)]
pub enum FcExitCode {
    /// Success exit code.
    Success,
    /// Generic error exit code.
    GenericError,
    /// Generic exit code error; not possible to occur if the program logic is sound.
    UnexpectedError,
    /// The monitor was shut down after intercepting a restricted system call.
    BadSyscall,
    /// The monitor was shut down after intercepting `SIGBUS`.
    SIGBUS,
    /// The monitor was shut down after intercepting `SIGSEGV`.
    SIGSEGV,
    /// The monitor was shut down after intercepting `SIGXFSZ`.
    SIGXFSZ,
    /// The monitor was shut down after intercepting `SIGXCPU`.
    SIGXCPU,
    /// The monitor was shut down after intercepting `SIGPIPE`.
    SIGPIPE,
    /// The monitor was shut down after intercepting `SIGHUP`.
    SIGHUP,
    /// The monitor was shut down after intercepting `SIGILL`.
    SIGILL,
    /// Bad configuration for the microVM's resources, when using a single json.
    BadConfiguration,
    /// Command line arguments parsing error.
    ArgParsing,
}

impl FcExitCode {
    /// The number that the process exits with.
    pub open spec fn number(self) -> u8 {
        match self {
            FcExitCode::Success => 0,
            FcExitCode::GenericError => 1,
            FcExitCode::UnexpectedError => 2,
            FcExitCode::BadSyscall => 148,
            FcExitCode::SIGBUS => 149,
            FcExitCode::SIGSEGV => 150,
            FcExitCode::SIGXFSZ => 151,
            FcExitCode::SIGXCPU => 154,
            FcExitCode::SIGPIPE => 155,
            FcExitCode::SIGHUP => 156,
            FcExitCode::SIGILL => 157,
            FcExitCode::BadConfiguration => 152,
            FcExitCode::ArgParsing => 153,
        }
    }

    /// The number that the process exits with.
    pub fn code(self) -> (code: u8)
        ensures
            code == self.number(),
    {
        match self {
            FcExitCode::Success => 0,
            FcExitCode::GenericError => 1,
            FcExitCode::UnexpectedError => 2,
            FcExitCode::BadSyscall => 148,
            FcExitCode::SIGBUS => 149,
            FcExitCode::SIGSEGV => 150,
            FcExitCode::SIGXFSZ => 151,
            FcExitCode::SIGXCPU => 154,
            FcExitCode::SIGPIPE => 155,
            FcExitCode::SIGHUP => 156,
            FcExitCode::SIGILL => 157,
            FcExitCode::BadConfiguration => 152,
            FcExitCode::ArgParsing => 153,
        }
    }
}

/// Exit codes that differ stand for different numbers.
pub proof fn exit_numbers_differ(a: FcExitCode, b: FcExitCode)
    requires
        a.number() == b.number(),
    ensures
        a == b,
{
}

/// Seconds to wait for a vCPU's response before it counts as stuck.
pub const RECV_TIMEOUT_SEC: u64 = 30;

/// A message to a vCPU thread.
#[derive(Debug, Clone, Copy, PartialEq, Eq)]
pub enum VcpuEvent {
    /// Leave the state machine, so that the thread can be joined.
    Finish,
    /// Stop running the guest.
    Pause,
    /// Run the guest.
    Resume,
    /// Save the vCPU's state.
    SaveState,
    /// Dump the vCPU's CPU configuration.
    DumpCpuConfig,
}

/// The saved state of a vCPU.
#[derive(Debug, PartialEq, Eq)]
pub struct VcpuState {
    /// The `MPIDR_EL1` register, zero on machines that have none.
    pub mpidr: u64,
    /// The rest of the state, serialised.
    pub registers: Vec<u8>,
}

/// The CPU configuration of a vCPU, serialised.
#[derive(Debug, PartialEq, Eq)]
pub struct CpuConfiguration(pub Vec<u8>);

/// An answer of a vCPU thread.
#[derive(Debug, PartialEq, Eq)]
pub enum VcpuResponse {
    /// The request failed.
    Error(VcpuError),
    /// The vCPU exited.
    Exited(FcExitCode),
    /// The request is not allowed in the vCPU's state, and why.
    NotAllowed(String),
    /// The vCPU is paused.
    Paused,
    /// The vCPU runs.
    Resumed,
    /// The vCPU's state.
    SavedState(Box<VcpuState>),
    /// The vCPU's CPU configuration.
    DumpedCpuConfig(Box<CpuConfiguration>),
}

/// Why no answer came.
#[derive(Debug, Clone, Copy, PartialEq, Eq)]
pub enum RecvTimeoutError {
    /// The thread did not answer in time.
    Timeout,
    /// The thread is gone.
    Disconnected,
}

/// A vCPU thread, by the number that its channel and thread are found under.
#[derive(Debug, Clone, Copy, PartialEq, Eq)]
pub struct VcpuHandle {
    /// The number.
    pub id: u64,
}

/// What all vCPUs are asked to do.
#[derive(Debug, Clone, Copy, PartialEq, Eq)]
pub enum RoundKind {
    /// Run the guest.
    Resume,
    /// Stop running the guest.
    Pause,
    /// Save their state.
    SaveState,
    /// Dump their CPU configuration.
    DumpCpuConfig,
}

impl RoundKind {
    /// The message of a round.
    pub open spec fn spec_event(self) -> VcpuEvent {
        match self {
            RoundKind::Resume => VcpuEvent::Resume,
            RoundKind::Pause => VcpuEvent::Pause,
            RoundKind::SaveState => VcpuEvent::SaveState,
            RoundKind::DumpCpuConfig => VcpuEvent::DumpCpuConfig,
        }
    }

    /// The message of a round.
    pub fn event(self) -> (event: VcpuEvent)
        ensures
            event == self.spec_event(),
    {
        match self {
            RoundKind::Resume => VcpuEvent::Resume,
            RoundKind::Pause => VcpuEvent::Pause,
            RoundKind::SaveState => VcpuEvent::SaveState,
            RoundKind::DumpCpuConfig => VcpuEvent::DumpCpuConfig,
        }
    }

    /// Whether a round ends with this answer. A resume or a pause ends with the first answer that
    /// does not confirm it; the other rounds end only where no answer came.
    pub open spec fn ended_by(self, reply: Result<VcpuResponse, RecvTimeoutError>) -> bool {
        match self {
            RoundKind::Resume => !(reply matches Ok(VcpuResponse::Resumed)),
            RoundKind::Pause => !(reply matches Ok(VcpuResponse::Paused)),
            RoundKind::SaveState | RoundKind::DumpCpuConfig => reply is Err,
        }
    }

    fn is_ended_by(self, reply: &Result<VcpuResponse, RecvTimeoutError>) -> (ends: bool)
        ensures
            ends == self.ended_by(*reply),
    {
        match self {
            RoundKind::Resume => match reply {
                Ok(VcpuResponse::Resumed) => false,
                _ => true,
            },
            RoundKind::Pause => match reply {
                Ok(VcpuResponse::Paused) => false,
                _ => true,
            },
            RoundKind::SaveState | RoundKind::DumpCpuConfig => match reply {
                Ok(_) => false,
                Err(_) => true,
            },
        }
    }
}

/// What a round needs next.
#[derive(Debug, Clone, Copy, PartialEq, Eq)]
pub enum RoundStep {
    /// Send the round's message to the vCPU.
    Send {
        /// Position of the vCPU among the handles.
        vcpu: usize,
    },
    /// Wait for the vCPU's answer.
    Receive {
        /// Position of the vCPU among the handles.
        vcpu: usize,
    },
    /// Nothing more.
    Over,
}

/// A message to every vCPU, followed by an answer from every vCPU.
#[derive(Debug)]
pub struct VcpuRound {
    /// What the vCPUs are asked to do.
    pub kind: RoundKind,
    /// Number of vCPUs.
    pub vcpus: usize,
    /// The outcomes of the sends so far.
    pub sends: Vec<Result<(), VcpuSendEventError>>,
    /// The answers so far.
    pub replies: Vec<Result<VcpuResponse, RecvTimeoutError>>,
}

impl VcpuRound {
    /// Whether a send failed.
    pub open spec fn send_failed(self) -> bool {
        self.sends@.len() > 0 && self.sends@.last() is Err
    }

    /// Whether an answer ended the round early.
    pub open spec fn reply_failed(self) -> bool {
        self.replies@.len() > 0 && self.kind.ended_by(self.replies@.last())
    }

    /// What the round needs next: all sends come before the first answer, and whatever fails ends
    /// the round.
    pub open spec fn next(self) -> RoundStep {
        if self.send_failed() || self.reply_failed() {
            RoundStep::Over
        } else if self.sends@.len() < self.vcpus {
            RoundStep::Send { vcpu: self.sends@.len() as usize }
        } else if self.replies@.len() < self.vcpus {
            RoundStep::Receive { vcpu: self.replies@.len() as usize }
        } else {
            RoundStep::Over
        }
    }

    /// Every vCPU took the message and gave an answer that does not end the round.
    pub open spec fn complete(self) -> bool {
        &&& self.sends@.len() == self.vcpus
        &&& forall|i: int| 0 <= i < self.vcpus ==> #[trigger] self.sends@[i] is Ok
        &&& self.replies@.len() == self.vcpus
        &&& forall|i: int|
            0 <= i < self.vcpus ==> !self.kind.ended_by(#[trigger] self.replies@[i])
    }

    /// The record is one that a round can leave.
    pub open spec fn wf(self) -> bool {
        &&& self.sends@.len() <= self.vcpus
        &&& self.replies@.len() <= self.vcpus
        &&& forall|i: int| 0 <= i < self.sends@.len() - 1 ==> #[trigger] self.sends@[i] is Ok
        &&& forall|i: int|
            0 <= i < self.replies@.len() - 1 ==> !self.kind.ended_by(#[trigger] self.replies@[i])
        &&& self.replies@.len() > 0 ==> self.sends@.len() == self.vcpus && !self.send_failed()
    }

    /// Begins a round with `vcpus` vCPUs.
    pub fn new(kind: RoundKind, vcpus: usize) -> (round: VcpuRound)
        ensures
            round.wf(),
            round.kind == kind,
            round.vcpus == vcpus,
            round.sends@.len() == 0,
            round.replies@.len() == 0,
    {
        VcpuRound { kind, vcpus, sends: Vec::new(), replies: Vec::new() }
    }

    /// What the round needs next.
    pub fn step(&self) -> (step: RoundStep)
        requires
            self.wf(),
        ensures
            step == self.next(),
    {
        let sent: usize = self.sends.len();
        if sent > 0 && self.sends[sent - 1].is_err() {
            return RoundStep::Over;
        }
        let got: usize = self.replies.len();
        if got > 0 && self.kind.is_ended_by(&self.replies[got - 1]) {
            return RoundStep::Over;
        }
        if sent < self.vcpus {
            RoundStep::Send { vcpu: sent }
        } else if got < self.vcpus {
            RoundStep::Receive { vcpu: got }
        } else {
            RoundStep::Over
        }
    }

    /// Records the outcome of a send.
    pub fn record_send(&mut self, outcome: Result<(), VcpuSendEventError>)
        requires
            old(self).wf(),
            old(self).next() is Send,
        ensures
            final(self).wf(),
            final(self).kind == old(self).kind,
            final(self).vcpus == old(self).vcpus,
            final(self).sends@ == old(self).sends@.push(outcome),
            final(self).replies@ == old(self).replies@,
    {
        self.sends.push(outcome);
    }

    /// Records an answer, or that none came.
    pub fn record_reply(&mut self, reply: Result<VcpuResponse, RecvTimeoutError>)
        requires
            old(self).wf(),
            old(self).next() is Receive,
        ensures
            final(self).wf(),
            final(self).kind == old(self).kind,
            final(self).vcpus == old(self).vcpus,
            final(self).sends@ == old(self).sends@,
            final(self).replies@ == old(self).replies@.push(reply),
    {
        self.replies.push(reply);
    }

    /// Whether the round, now over, reached every vCPU and was ended by none.
    pub fn is_complete(&self) -> (complete: bool)
        requires
            self.wf(),
            self.next() is Over,
        ensures
            complete == self.complete(),
    {
        let sent: usize = self.sends.len();
        if sent > 0 && self.sends[sent - 1].is_err() {
            return false;
        }
        let got: usize = self.replies.len();
        if got > 0 && self.kind.is_ended_by(&self.replies[got - 1]) {
            assert(self.kind.ended_by(self.replies@[got - 1]));
            return false;
        }
        assert forall|i: int| 0 <= i < self.vcpus implies #[trigger] self.sends@[i] is Ok by {
            assert(i < self.sends@.len() - 1 || self.sends@[i] == self.sends@.last());
        }
        assert forall|i: int| 0 <= i < self.vcpus implies !self.kind.ended_by(
            #[trigger] self.replies@[i],
        ) by {
            assert(i < self.replies@.len() - 1 || self.replies@[i] == self.replies@.last());
        }
        true
    }

    /// What a round that saves vCPU states came to.
    pub open spec fn states(self) -> Result<Seq<VcpuState>, MicrovmStateError> {
        if self.send_failed() {
            Err(MicrovmStateError::SignalVcpu(self.sends@.last()->Err_0))
        } else if self.reply_failed() {
            Err(MicrovmStateError::UnexpectedVcpuResponse)
        } else {
            saved_states(self.replies@, self.replies@.len() as int)
        }
    }

    /// What a round that dumps CPU configurations came to.
    pub open spec fn configs(self) -> Result<Seq<CpuConfiguration>, DumpCpuConfigError> {
        if self.send_failed() {
            Err(DumpCpuConfigError::SendEvent(self.sends@.last()->Err_0))
        } else if self.reply_failed() {
            Err(DumpCpuConfigError::UnexpectedResponse)
        } else {
            dumped_configs(self.replies@, self.replies@.len() as int)
        }
    }

    /// Takes the vCPU states out of a round that is over.
    pub fn into_states(self) -> (res: Result<Vec<VcpuState>, MicrovmStateError>)
        requires
            self.wf(),
            self.next() is Over,
            self.kind is SaveState,
        ensures
            match res {
                Ok(states) => self.states() == Ok::<Seq<VcpuState>, MicrovmStateError>(states@),
                Err(e) => self.states() == Err::<Seq<VcpuState>, MicrovmStateError>(e),
            },
    {
        let VcpuRound { kind, vcpus, mut sends, replies } = self;
        if let Some(Err(e)) = sends.pop() {
            return Err(MicrovmStateError::SignalVcpu(e));
        }
        let got: usize = replies.len();
        if got > 0 && kind.is_ended_by(&replies[got - 1]) {
            return Err(MicrovmStateError::UnexpectedVcpuResponse);
        }
        let mut states: Vec<VcpuState> = Vec::new();
        for reply in iter: replies
            invariant
                iter.seq() == replies@,
                replies@ == self.replies@,
                !self.send_failed(),
                !self.reply_failed(),
                saved_states(replies@, iter.index()) == Ok::<Seq<VcpuState>, MicrovmStateError>(
                    states@,
                ),
        {
            let ghost n = iter.index() + 1;
            let error = match reply {
                Ok(VcpuResponse::SavedState(state)) => {
                    states.push(*state);
                    None
                },
                Ok(VcpuResponse::Error(e)) => Some(MicrovmStateError::SaveVcpuState(e)),
                Ok(VcpuResponse::NotAllowed(reason)) => Some(MicrovmStateError::NotAllowed(reason)),
                _ => Some(MicrovmStateError::UnexpectedVcpuResponse),
            };
            if let Some(e) = error {
                proof {
                    lemma_states_stop(replies@, n, replies@.len() as int, e);
                }
                return Err(e);
            }
        }
        Ok(states)
    }

    /// Takes the CPU configurations out of a round that is over.
    pub fn into_configs(self) -> (res: Result<Vec<CpuConfiguration>, DumpCpuConfigError>)
        requires
            self.wf(),
            self.next() is Over,
            self.kind is DumpCpuConfig,
        ensures
            match res {
                Ok(configs) => self.configs() == Ok::<Seq<CpuConfiguration>, DumpCpuConfigError>(
                    configs@,
                ),
                Err(e) => self.configs() == Err::<Seq<CpuConfiguration>, DumpCpuConfigError>(e),
            },
    {
        let VcpuRound { kind, vcpus, mut sends, replies } = self;
        if let Some(Err(e)) = sends.pop() {
            return Err(DumpCpuConfigError::SendEvent(e));
        }
        let got: usize = replies.len();
        if got > 0 && kind.is_ended_by(&replies[got - 1]) {
            return Err(DumpCpuConfigError::UnexpectedResponse);
        }
        let mut configs: Vec<CpuConfiguration> = Vec::new();
        for reply in iter: replies
            invariant
                iter.seq() == replies@,
                replies@ == self.replies@,
                !self.send_failed(),
                !self.reply_failed(),
                dumped_configs(replies@, iter.index()) == Ok::<
                    Seq<CpuConfiguration>,
                    DumpCpuConfigError,
                >(configs@),
        {
            let ghost n = iter.index() + 1;
            let error = match reply {
                Ok(VcpuResponse::DumpedCpuConfig(config)) => {
                    configs.push(*config);
                    None
                },
                Ok(VcpuResponse::Error(e)) => Some(DumpCpuConfigError::DumpCpuConfig(e)),
                Ok(VcpuResponse::NotAllowed(reason)) => Some(
                    DumpCpuConfigError::NotAllowed(reason),
                ),
                _ => Some(DumpCpuConfigError::UnexpectedResponse),
            };
            if let Some(e) = error {
                proof {
                    lemma_configs_stop(replies@, n, replies@.len() as int, e);
                }
                return Err(e);
            }
        }
        Ok(configs)
    }
}

/// The state in an answer, or why there is none.
pub open spec fn saved_state(reply: Result<VcpuResponse, RecvTimeoutError>) -> Result<
    VcpuState,
    MicrovmStateError,
> {
    match reply {
        Ok(VcpuResponse::SavedState(state)) => Ok(*state),
        Ok(VcpuResponse::Error(e)) => Err(MicrovmStateError::SaveVcpuState(e)),
        Ok(VcpuResponse::NotAllowed(reason)) => Err(MicrovmStateError::NotAllowed(reason)),
        _ => Err(MicrovmStateError::UnexpectedVcpuResponse),
    }
}

/// The states in the first `n` answers, or what the first answer without one says.
pub open spec fn saved_states(
    replies: Seq<Result<VcpuResponse, RecvTimeoutError>>,
    n: int,
) -> Result<Seq<VcpuState>, MicrovmStateError>
    decreases n,
{
    if n <= 0 {
        Ok(Seq::empty())
    } else {
        match saved_states(replies, n - 1) {
            Err(e) => Err(e),
            Ok(states) => match saved_state(replies[n - 1]) {
                Err(e) => Err(e),
                Ok(state) => Ok(states.push(state)),
            },
        }
    }
}

/// The configuration in an answer, or why there is none.
pub open spec fn dumped_config(reply: Result<VcpuResponse, RecvTimeoutError>) -> Result<
    CpuConfiguration,
    DumpCpuConfigError,
> {
    match reply {
        Ok(VcpuResponse::DumpedCpuConfig(config)) => Ok(*config),
        Ok(VcpuResponse::Error(e)) => Err(DumpCpuConfigError::DumpCpuConfig(e)),
        Ok(VcpuResponse::NotAllowed(reason)) => Err(DumpCpuConfigError::NotAllowed(reason)),
        _ => Err(DumpCpuConfigError::UnexpectedResponse),
    }
}

/// The configurations in the first `n` answers, or what the first answer without one says.
pub open spec fn dumped_configs(
    replies: Seq<Result<VcpuResponse, RecvTimeoutError>>,
    n: int,
) -> Result<Seq<CpuConfiguration>, DumpCpuConfigError>
    decreases n,
{
    if n <= 0 {
        Ok(Seq::empty())
    } else {
        match dumped_configs(replies, n - 1) {
            Err(e) => Err(e),
            Ok(configs) => match dumped_config(replies[n - 1]) {
                Err(e) => Err(e),
                Ok(config) => Ok(configs.push(config)),
            },
        }
    }
}

proof fn lemma_states_stop(
    replies: Seq<Result<VcpuResponse, RecvTimeoutError>>,
    m: int,
    n: int,
    e: MicrovmStateError,
)
    requires
        m <= n,
        saved_states(replies, m) == Err::<Seq<VcpuState>, MicrovmStateError>(e),
    ensures
        saved_states(replies, n) == Err::<Seq<VcpuState>, MicrovmStateError>(e),
    decreases n - m,
{
    if m < n {
        lemma_states_stop(replies, m, n - 1, e);
        assert(n > 0);
    }
}

proof fn lemma_configs_stop(
    replies: Seq<Result<VcpuResponse, RecvTimeoutError>>,
    m: int,
    n: int,
    e: DumpCpuConfigError,
)
    requires
        m <= n,
        dumped_configs(replies, m) == Err::<Seq<CpuConfiguration>, DumpCpuConfigError>(e),
    ensures
        dumped_configs(replies, n) == Err::<Seq<CpuConfiguration>, DumpCpuConfigError>(e),
    decreases n - m,
{
    if m < n {
        lemma_configs_stop(replies, m, n - 1, e);
        assert(n > 0);
    }
}

/// What starting the vCPUs needs next.
#[derive(Debug, Clone, Copy, PartialEq, Eq)]
pub enum StartStep {
    /// Put the terminal into raw mode.
    SetRawMode,
    /// Make reads from the terminal non-blocking.
    SetNonBlock,
    /// Start the thread of the vCPU.
    StartVcpu {
        /// Position of the vCPU.
        vcpu: usize,
    },
    /// Nothing more.
    Over,
}

/// The start of all vCPU threads.
#[derive(Debug)]
pub struct VcpuStartup {
    /// Number of vCPUs.
    pub vcpus: usize,
    /// The outcome of setting raw mode.
    pub raw_mode: Option<Result<(), TerminalError>>,
    /// The outcome of setting non-blocking mode.
    pub non_block: Option<Result<(), TerminalError>>,
    /// The outcomes of the thread starts so far.
    pub started: Vec<Result<VcpuHandle, StartThreadedError>>,
}

impl VcpuStartup {
    /// Whether a thread could not be started.
    pub open spec fn thread_failed(self) -> bool {
        self.started@.len() > 0 && self.started@.last() is Err
    }

    /// What the start needs next: the terminal first, then one thread after the other, and whatever
    /// fails ends it.
    pub open spec fn next(self) -> StartStep {
        match (self.raw_mode, self.non_block) {
            (None, _) => StartStep::SetRawMode,
            (Some(Err(_)), _) => StartStep::Over,
            (Some(Ok(_)), None) => StartStep::SetNonBlock,
            (Some(Ok(_)), Some(Err(_))) => StartStep::Over,
            (Some(Ok(_)), Some(Ok(_))) => if self.thread_failed() || self.started@.len()
                >= self.vcpus {
                StartStep::Over
            } else {
                StartStep::StartVcpu { vcpu: self.started@.len() as usize }
            },
        }
    }

    /// What ended the start early.
    pub open spec fn error(self) -> Option<StartVcpusError> {
        match (self.raw_mode, self.non_block) {
            (Some(Err(e)), _) => Some(StartVcpusError::VmmObserverInit(e)),
            (_, Some(Err(e))) => Some(StartVcpusError::VmmObserverInit(e)),
            _ => if self.thread_failed() {
                Some(StartVcpusError::VcpuHandle(self.started@.last()->Err_0))
            } else {
                None
            },
        }
    }

    /// The threads that were started.
    pub open spec fn handles(self) -> Seq<VcpuHandle> {
        Seq::new(
            if self.thread_failed() {
                (self.started@.len() - 1) as nat
            } else {
                self.started@.len()
            },
            |i: int| self.started@[i]->Ok_0,
        )
    }

    /// The record is one that a start can leave.
    pub open spec fn wf(self) -> bool {
        &&& self.started@.len() <= self.vcpus
        &&& forall|i: int| 0 <= i < self.started@.len() - 1 ==> #[trigger] self.started@[i] is Ok
        &&& self.non_block is Some ==> (self.raw_mode matches Some(Ok(_)))
        &&& self.started@.len() > 0 ==> (self.non_block matches Some(Ok(_)))
    }

    /// Begins the start of `vcpus` vCPUs.
    pub fn new(vcpus: usize) -> (startup: VcpuStartup)
        ensures
            startup.wf(),
            startup.vcpus == vcpus,
            startup.raw_mode is None,
            startup.non_block is None,
            startup.started@.len() == 0,
    {
        VcpuStartup { vcpus, raw_mode: None, non_block: None, started: Vec::new() }
    }

    /// How many parties meet once all threads are up: the vCPUs and the monitor.
    pub fn barrier_parties(&self) -> (parties: usize)
        requires
            self.vcpus < usize::MAX,
        ensures
            parties == self.vcpus + 1,
    {
        self.vcpus + 1
    }

    fn has_thread_failure(&self) -> (failed: bool)
        ensures
            failed == self.thread_failed(),
    {
        let n: usize = self.started.len();
        n > 0 && self.started[n - 1].is_err()
    }

    /// What the start needs next.
    pub fn step(&self) -> (step: StartStep)
        requires
            self.wf(),
        ensures
            step == self.next(),
    {
        match &self.raw_mode {
            None => StartStep::SetRawMode,
            Some(Err(_)) => StartStep::Over,
            Some(Ok(_)) => match &self.non_block {
                None => StartStep::SetNonBlock,
                Some(Err(_)) => StartStep::Over,
                Some(Ok(_)) => {
                    let n: usize = self.started.len();
                    if self.has_thread_failure() || n >= self.vcpus {
                        StartStep::Over
                    } else {
                        StartStep::StartVcpu { vcpu: n }
                    }
                },
            },
        }
    }

    /// Records whether raw mode could be set.
    pub fn record_raw_mode(&mut self, outcome: Result<(), TerminalError>)
        requires
            old(self).wf(),
            old(self).next() is SetRawMode,
        ensures
            final(self).wf(),
            *final(self) == (VcpuStartup { raw_mode: Some(outcome), ..*old(self) }),
    {
        self.raw_mode = Some(outcome);
    }

    /// Records whether non-blocking mode could be set.
    pub fn record_non_block(&mut self, outcome: Result<(), TerminalError>)
        requires
            old(self).wf(),
            old(self).next() is SetNonBlock,
        ensures
            final(self).wf(),
            *final(self) == (VcpuStartup { non_block: Some(outcome), ..*old(self) }),
    {
        self.non_block = Some(outcome);
    }

    /// Records whether a thread could be started.
    pub fn record_thread(&mut self, outcome: Result<VcpuHandle, StartThreadedError>)
        requires
            old(self).wf(),
            old(self).next() is StartVcpu,
        ensures
            final(self).wf(),
            final(self).vcpus == old(self).vcpus,
            final(self).raw_mode == old(self).raw_mode,
            final(self).non_block == old(self).non_block,
            final(self).started@ == old(self).started@.push(outcome),
    {
        self.started.push(outcome);
    }

    /// Appends the threads that were started to `handles`, and gives back what ended the start
    /// early.
    pub fn take_handles(self, handles: &mut Vec<VcpuHandle>) -> (error: Option<StartVcpusError>)
        requires
            self.wf(),
            self.next() is Over,
        ensures
            final(handles)@ == old(handles)@ + self.handles(),
            error == self.error(),
    {
        let VcpuStartup { vcpus, raw_mode, non_block, started } = self;
        if let Some(Err(e)) = raw_mode {
            assert(handles@ =~= old(handles)@ + self.handles());
            return Some(StartVcpusError::VmmObserverInit(e));
        }
        if let Some(Err(e)) = non_block {
            assert(handles@ =~= old(handles)@ + self.handles());
            return Some(StartVcpusError::VmmObserverInit(e));
        }
        let mut error: Option<StartVcpusError> = None;
        assert(handles@ =~= old(handles)@ + Seq::new(0, |i: int| started@[i]->Ok_0));
        for outcome in iter: started
            invariant
                iter.seq() == started@,
                forall|i: int| 0 <= i < started@.len() - 1 ==> #[trigger] started@[i] is Ok,
                iter.index() < started@.len() ==> error is None,
                error == if iter.index() == started@.len() && started@.len() > 0
                    && started@.last() is Err {
                    Some(StartVcpusError::VcpuHandle(started@.last()->Err_0))
                } else {
                    None
                },
                handles@ == old(handles)@ + Seq::new(
                    if error is Some {
                        (iter.index() - 1) as nat
                    } else {
                        iter.index() as nat
                    },
                    |i: int| started@[i]->Ok_0,
                ),
        {
            match outcome {
                Ok(handle) => handles.push(handle),
                Err(e) => error = Some(StartVcpusError::VcpuHandle(e)),
            }
            assert(handles@ =~= old(handles)@ + Seq::new(
                if error is Some {
                    iter.index() as nat
                } else {
                    (iter.index() + 1) as nat
                },
                |i: int| started@[i]->Ok_0,
            ));
        }
        assert(handles@ =~= old(handles)@ + self.handles());
        error
    }
}

/// Whether a response reports an exit that was not a success.
pub open spec fn reports_failure(response: VcpuResponse) -> bool {
    response matches VcpuResponse::Exited(status) && status != FcExitCode::Success
}

/// Whether a response reports an exit that was not a success. Responses behind such a one do not
/// have to be drained.
pub fn is_failing_exit(response: &VcpuResponse) -> (failing: bool)
    ensures
        failing == reports_failure(*response),
{
    match response {
        VcpuResponse::Exited(status) => *status != FcExitCode::Success,
        _ => false,
    }
}

/// The status of the first vCPU exit among the first `n` responses that was not a success.
pub open spec fn failing_exit(responses: Seq<VcpuResponse>, n: int) -> Option<FcExitCode>
    decreases n,
{
    if n <= 0 {
        None
    } else {
        match failing_exit(responses, n - 1) {
            Some(status) => Some(status),
            None => match responses[n - 1] {
                VcpuResponse::Exited(status) => if status != FcExitCode::Success {
                    Some(status)
                } else {
                    None
                },
                _ => None,
            },
        }
    }
}

/// The same over the responses of the first `n` vCPUs, one vCPU after the other.
pub open spec fn first_failing_exit(responses: Seq<Vec<VcpuResponse>>, n: int) -> Option<FcExitCode>
    decreases n,
{
    if n <= 0 {
        None
    } else {
        match first_failing_exit(responses, n - 1) {
            Some(status) => Some(status),
            None => failing_exit(responses[n - 1]@, responses[n - 1]@.len() as int),
        }
    }
}

/// The code that the monitor exits with once its vCPUs have: the first failure there is, or
/// success.
pub open spec fn exit_code_of(responses: Seq<Vec<VcpuResponse>>) -> FcExitCode {
    match first_failing_exit(responses, responses.len() as int) {
        Some(status) => status,
        None => FcExitCode::Success,
    }
}

proof fn lemma_failing_exit(responses: Seq<VcpuResponse>, n: int)
    requires
        0 <= n <= responses.len(),
    ensures
        failing_exit(responses, n) matches Some(status) ==> status != FcExitCode::Success && exists|
            i: int,
        |
            0 <= i < n && #[trigger] responses[i] == VcpuResponse::Exited(status),
        failing_exit(responses, n) is None ==> forall|i: int|
            0 <= i < n ==> !reports_failure(#[trigger] responses[i]),
    decreases n,
{
    if n > 0 {
        lemma_failing_exit(responses, n - 1);
        assert(responses[n - 1] == responses[n - 1]);
    }
}

proof fn lemma_first_failing_exit(responses: Seq<Vec<VcpuResponse>>, n: int)
    requires
        0 <= n <= responses.len(),
    ensures
        first_failing_exit(responses, n) matches Some(status) ==> status != FcExitCode::Success
            && exists|v: int, i: int|
            0 <= v < n && 0 <= i < responses[v]@.len() && #[trigger] responses[v]@[i]
                == VcpuResponse::Exited(status),
        first_failing_exit(responses, n) is None ==> forall|v: int, i: int|
            0 <= v < n && 0 <= i < responses[v]@.len() ==> !reports_failure(
                #[trigger] responses[v]@[i],
            ),
    decreases n,
{
    if n > 0 {
        lemma_first_failing_exit(responses, n - 1);
        let last = responses[n - 1]@;
        lemma_failing_exit(last, last.len() as int);
    }
}

/// A vCPU that exits with an error takes precedence over those that exit with success: the code is
/// success only where no vCPU reported an error, and any other code is one that a vCPU reported.
pub proof fn error_exits_take_precedence(responses: Seq<Vec<VcpuResponse>>)
    ensures
        exit_code_of(responses) == FcExitCode::Success <==> forall|v: int, i: int|
            0 <= v < responses.len() && 0 <= i < responses[v]@.len() ==> !reports_failure(
                #[trigger] responses[v]@[i],
            ),
        exit_code_of(responses) != FcExitCode::Success ==> exists|v: int, i: int|
            0 <= v < responses.len() && 0 <= i < responses[v]@.len() && #[trigger] responses[v]@[i]
                == VcpuResponse::Exited(exit_code_of(responses)),
{
    lemma_first_failing_exit(responses, responses.len() as int);
}

/// Finds the code that the monitor exits with.
pub fn exit_code(responses: &Vec<Vec<VcpuResponse>>) -> (code: FcExitCode)
    ensures
        code == exit_code_of(responses@),
{
    let mut v: usize = 0;
    while v < responses.len()
        invariant
            0 <= v <= responses@.len(),
            first_failing_exit(responses@, v as int) is None,
        decreases responses@.len() - v,
    {
        let drained = &responses[v];
        let mut i: usize = 0;
        while i < drained.len()
            invariant
                0 <= i <= drained@.len(),
                v < responses@.len(),
                drained == responses@[v as int],
                first_failing_exit(responses@, v as int) is None,
                failing_exit(drained@, i as int) is None,
            decreases drained@.len() - i,
        {
            if let VcpuResponse::Exited(status) = &drained[i] {
                if *status != FcExitCode::Success {
                    proof {
                        lemma_exit_stays(drained@, i + 1, drained@.len() as int);
                        lemma_first_exit_stays(responses@, v + 1, responses@.len() as int);
                    }
                    return *status;
                }
            }
            i = i + 1;
        }
        v = v + 1;
    }
    FcExitCode::Success
}

proof fn lemma_exit_stays(responses: Seq<VcpuResponse>, m: int, n: int)
    requires
        m <= n,
        failing_exit(responses, m) is Some,
    ensures
        failing_exit(responses, n) == failing_exit(responses, m),
    decreases n - m,
{
    if m < n {
        lemma_exit_stays(responses, m, n - 1);
    }
}

proof fn lemma_first_exit_stays(responses: Seq<Vec<VcpuResponse>>, m: int, n: int)
    requires
        m <= n,
        first_failing_exit(responses, m) is Some,
    ensures
        first_failing_exit(responses, n) == first_failing_exit(responses, m),
    decreases n - m,
{
    if m < n {
        lemma_first_exit_stays(responses, m, n - 1);
    }
}

/// The four affinity levels of an `MPIDR_EL1` value, where the kernel expects them: level 0 from
/// bit 32 on, level 1 from bit 40, level 2 from bit 48 and level 3 from bit 56. In the register
/// levels 0 to 2 stand in the three low bytes and level 3 from bit 32 on.
pub open spec fn kvm_mpidr(mpidr: u64) -> int {
    let aff0 = mpidr as int % 256;
    let aff1 = mpidr as int / 0x100 % 256;
    let aff2 = mpidr as int / 0x1_0000 % 256;
    let aff3 = mpidr as int / 0x1_0000_0000 % 256;
    aff0 * 0x1_0000_0000 + aff1 * 0x100_0000_0000 + aff2 * 0x1_0000_0000_0000 + aff3
        * 0x100_0000_0000_0000
}

/// Brings the `MPIDR_EL1` register of each vCPU into the form that the kernel takes.
pub fn construct_kvm_mpidrs(vcpu_states: &Vec<VcpuState>) -> (mpidrs: Vec<u64>)
    ensures
        mpidrs@.len() == vcpu_states@.len(),
        forall|i: int|
            0 <= i < mpidrs@.len() ==> #[trigger] mpidrs@[i] == kvm_mpidr(vcpu_states@[i].mpidr),
{
    let mut mpidrs: Vec<u64> = Vec::with_capacity(vcpu_states.len());
    let mut i: usize = 0;
    while i < vcpu_states.len()
        invariant
            0 <= i <= vcpu_states@.len(),
            mpidrs@.len() == i,
            forall|j: int|
                0 <= j < i ==> #[trigger] mpidrs@[j] == kvm_mpidr(vcpu_states@[j].mpidr),
        decreases vcpu_states@.len() - i,
    {
        let m: u64 = vcpu_states[i].mpidr;
        let cpu_affid: u64 = ((m & 0xFF_0000_0000) >> 8) | (m & 0xFF_FFFF);
        let out: u64 = cpu_affid << 32;
        assert(out == (m % 256) * 0x1_0000_0000 + (m / 0x100 % 256) * 0x100_0000_0000 + (m
            / 0x1_0000 % 256) * 0x1_0000_0000_0000 + (m / 0x1_0000_0000 % 256)
            * 0x100_0000_0000_0000) by (bit_vector)
            requires
                out == (((m & 0xFF_0000_0000) >> 8) | (m & 0xFF_FFFF)) << 32,
        ;
        mpidrs.push(out);
        i = i + 1;
    }
    mpidrs
}

/// A round that yields states yields one from each answer, in the vCPUs' order.
pub proof fn states_come_from_every_vcpu(
    replies: Seq<Result<VcpuResponse, RecvTimeoutError>>,
    n: int,
)
    requires
        0 <= n <= replies.len(),
    ensures
        saved_states(replies, n) matches Ok(states) ==> states.len() == n && forall|i: int|
            0 <= i < n ==> #[trigger] saved_state(replies[i]) == Ok::<VcpuState, MicrovmStateError>(
                states[i],
            ),
        saved_states(replies, n) is Err <==> exists|i: int|
            0 <= i < n && #[trigger] saved_state(replies[i]) is Err,
    decreases n,
{
    if n > 0 {
        states_come_from_every_vcpu(replies, n - 1);
        assert(saved_state(replies[n - 1]) is Err || saved_state(replies[n - 1]) is Ok);
    }
}

/// A round that yields configurations yields one from each answer, in the vCPUs' order.
pub proof fn configs_come_from_every_vcpu(
    replies: Seq<Result<VcpuResponse, RecvTimeoutError>>,
    n: int,
)
    requires
        0 <= n <= replies.len(),
    ensures
        dumped_configs(replies, n) matches Ok(configs) ==> configs.len() == n && forall|i: int|
            0 <= i < n ==> #[trigger] dumped_config(replies[i]) == Ok::<
                CpuConfiguration,
                DumpCpuConfigError,
            >(configs[i]),
        dumped_configs(replies, n) is Err <==> exists|i: int|
            0 <= i < n && #[trigger] dumped_config(replies[i]) is Err,
    decreases n,
{
    if n > 0 {
        configs_come_from_every_vcpu(replies, n - 1);
        assert(dumped_config(replies[n - 1]) is Err || dumped_config(replies[n - 1]) is Ok);
    }
}

/// No answer is awaited before every vCPU was told, and a round that is over without a failure has
/// heard from all of them.
pub proof fn rounds_send_before_they_receive(round: VcpuRound)
    requires
        round.wf(),
    ensures
        round.next() is Receive ==> round.sends@.len() == round.vcpus && forall|i: int|
            0 <= i < round.vcpus ==> #[trigger] round.sends@[i] is Ok,
        round.next() is Over && !round.send_failed() && !round.reply_failed() <==> round.complete(),
{
    assert forall|i: int| 0 <= i < round.sends@.len() && !round.send_failed() implies
        #[trigger] round.sends@[i] is Ok by {
        assert(i < round.sends@.len() - 1 || round.sends@[i] == round.sends@.last());
    }
    assert forall|i: int|
        0 <= i < round.replies@.len() && !round.reply_failed() implies !round.kind.ended_by(
        #[trigger] round.replies@[i],
    ) by {
        assert(i < round.replies@.len() - 1 || round.replies@[i] == round.replies@.last());
    }
}

} // verus!

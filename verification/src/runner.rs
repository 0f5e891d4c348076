//! The shellcode-staging protocol: a state machine that borrows a scratch
//! region of the target, writes a code fragment there, redirects execution to
//! it, waits for the trap that signals completion, captures the result
//! register, and restores the original memory and registers — with the
//! restore guaranteed on every path, failures included.
//!
//! The machine itself performs no process control.  Each step hands the
//! driver one [`Action`] (a register read or write, a word read or write, a
//! resume, or a wait); the driver performs it against the stopped target and
//! hands back the [`Event`] that came of it.  Memory and register actions are
//! only ever emitted while the target is known-stopped: between [`Action::Resume`]
//! and the stop event of [`Action::WaitStop`] the machine asks for nothing else.

use crate::Error;
use vstd::prelude::*;

verus! {

/// A full copy of the target thread's general-purpose register set, in the
/// layout the supported architecture's process-control interface uses.
#[derive(Clone, Copy, Debug, PartialEq, Eq, Structural)]
pub struct Registers {
    pub r15: u64,
    pub r14: u64,
    pub r13: u64,
    pub r12: u64,
    pub rbp: u64,
    pub rbx: u64,
    pub r11: u64,
    pub r10: u64,
    pub r9: u64,
    pub r8: u64,
    pub rax: u64,
    pub rcx: u64,
    pub rdx: u64,
    pub rsi: u64,
    pub rdi: u64,
    pub orig_rax: u64,
    pub rip: u64,
    pub cs: u64,
    pub eflags: u64,
    pub rsp: u64,
    pub ss: u64,
    pub fs_base: u64,
    pub gs_base: u64,
    pub ds: u64,
    pub es: u64,
    pub fs: u64,
    pub gs: u64,
}

/// The all-zero register set, used only as the placeholder before a snapshot
/// is captured.
pub open spec fn spec_zero_registers() -> Registers {
    Registers {
        r15: 0,
        r14: 0,
        r13: 0,
        r12: 0,
        rbp: 0,
        rbx: 0,
        r11: 0,
        r10: 0,
        r9: 0,
        r8: 0,
        rax: 0,
        rcx: 0,
        rdx: 0,
        rsi: 0,
        rdi: 0,
        orig_rax: 0,
        rip: 0,
        cs: 0,
        eflags: 0,
        rsp: 0,
        ss: 0,
        fs_base: 0,
        gs_base: 0,
        ds: 0,
        es: 0,
        fs: 0,
        gs: 0,
    }
}

impl Default for Registers {
    /// The all-zero register set.
    fn default() -> (r: Self)
        ensures
            r == spec_zero_registers(),
    {
        Registers {
            r15: 0,
            r14: 0,
            r13: 0,
            r12: 0,
            rbp: 0,
            rbx: 0,
            r11: 0,
            r10: 0,
            r9: 0,
            r8: 0,
            rax: 0,
            rcx: 0,
            rdx: 0,
            rsi: 0,
            rdi: 0,
            orig_rax: 0,
            rip: 0,
            cs: 0,
            eflags: 0,
            rsp: 0,
            ss: 0,
            fs_base: 0,
            gs_base: 0,
            ds: 0,
            es: 0,
            fs: 0,
            gs: 0,
        }
    }
}

/// Why the target stopped after a resume.
#[derive(Clone, Copy, Debug, PartialEq, Eq, Structural)]
pub enum StopReason {
    /// The expected trap: the fragment completed, or ran into the padding
    /// trap opcode.
    Trap,
    /// Any other stop or a termination: a crash, not a completion.
    Other,
}

/// One process-control operation the machine asks the driver to perform
/// against the stopped target.
#[derive(Clone, Copy, Debug, PartialEq, Eq, Structural)]
pub enum Action {
    /// Read the full register set.
    GetRegs,
    /// Apply the given full register set.
    SetRegs(Registers),
    /// Read one word at the given address of the target's address space.
    ReadWord(usize),
    /// Write the given word at the given address of the target's address space.
    WriteWord(usize, u64),
    /// Let the target run.
    Resume,
    /// Block until the target stops again.
    WaitStop,
}

/// What came of the action the driver performed.
#[derive(Clone, Copy, Debug, PartialEq, Eq, Structural)]
pub enum Event {
    /// The register set a [`Action::GetRegs`] read.
    Regs(Registers),
    /// The word a [`Action::ReadWord`] read.
    Word(u64),
    /// A write, register apply or resume succeeded.
    Ack,
    /// The target stopped, for the given reason.
    Stopped(StopReason),
    /// A bounded [`Action::WaitStop`] ran out before the target stopped.
    TimedOut,
    /// The operation itself failed.
    Failed,
}

/// Where the protocol stands: which action is outstanding.
#[derive(Clone, Copy, Debug, PartialEq, Eq, Structural)]
pub enum Phase {
    /// Snapshotting the register set.
    SaveRegs,
    /// Saving original word `i` of the scratch range.
    SaveCode(usize),
    /// Writing code word `i` into the scratch range.
    WriteCode(usize),
    /// Pointing the instruction pointer at the scratch address.
    SetStartRegs,
    /// Letting the target run the fragment.
    Resuming,
    /// Waiting for the target to stop.
    Waiting,
    /// Reading the register set that holds the result.
    ReadResult,
    /// Writing saved word `i` back into the scratch range.
    RestoreCode(usize),
    /// Applying the saved register snapshot.
    RestoreRegs,
    /// The run is over; [`Runner::outcome`] has the verdict.
    Done,
}

/// The state of one run of the protocol.
pub struct Runner {
    /// Start of the borrowed scratch range in the target.
    pub scratch: usize,
    /// The code fragment, packed into words.
    pub code: Vec<u64>,
    /// The register snapshot taken first and restored last.
    pub saved_regs: Registers,
    /// Whether `saved_regs` holds a real snapshot yet.
    pub regs_saved: bool,
    /// The original words of the scratch range, in address order.
    pub saved_code: Vec<u64>,
    /// Where the protocol stands.
    pub phase: Phase,
    /// The captured result register; meaningful only without an error.
    pub result: u64,
    /// The first error the run hit, if any; never masked by later cleanup
    /// failures.
    pub error: Option<Error>,
    /// Whether some restore operation failed; reported beside the error.
    pub cleanup_failed: bool,
}

/// The mathematical value of a [`Runner`].
#[verifier::ext_equal]
pub ghost struct RunnerView {
    pub scratch: usize,
    pub code: Seq<u64>,
    pub saved_regs: Registers,
    pub regs_saved: bool,
    pub saved_code: Seq<u64>,
    pub phase: Phase,
    pub result: u64,
    pub error: Option<Error>,
    pub cleanup_failed: bool,
}

impl View for Runner {
    type V = RunnerView;

    open spec fn view(&self) -> RunnerView {
        RunnerView {
            scratch: self.scratch,
            code: self.code@,
            saved_regs: self.saved_regs,
            regs_saved: self.regs_saved,
            saved_code: self.saved_code@,
            phase: self.phase,
            result: self.result,
            error: self.error,
            cleanup_failed: self.cleanup_failed,
        }
    }
}

/// The register set the fragment starts from: the saved snapshot with the
/// instruction pointer moved to the scratch address.
pub open spec fn spec_start_regs(v: RunnerView) -> Registers {
    Registers { rip: v.scratch as u64, ..v.saved_regs }
}

/// What the machine keeps true between steps.
pub open spec fn runner_inv(v: RunnerView) -> bool {
    &&& v.code.len() >= 1
    &&& v.scratch + 8 * v.code.len() <= usize::MAX
    &&& match v.phase {
        Phase::SaveRegs => v.saved_code.len() == 0 && v.error is None,
        Phase::SaveCode(i) => i < v.code.len() && v.saved_code.len() == i && v.regs_saved
            && v.error is None,
        Phase::WriteCode(i) => i < v.code.len() && v.saved_code.len() == v.code.len()
            && v.regs_saved && v.error is None,
        Phase::SetStartRegs | Phase::Resuming | Phase::Waiting | Phase::ReadResult => v.saved_code.len()
            == v.code.len() && v.regs_saved && v.error is None,
        Phase::RestoreCode(i) => i < v.code.len() && v.saved_code.len() == v.code.len()
            && v.regs_saved,
        Phase::RestoreRegs => v.saved_code.len() == v.code.len() && v.regs_saved,
        Phase::Done => true,
    }
}

/// The action outstanding in the given state, if the run is not over.
pub open spec fn spec_pending_action(v: RunnerView) -> Option<Action> {
    match v.phase {
        Phase::SaveRegs => Some(Action::GetRegs),
        Phase::SaveCode(i) => Some(Action::ReadWord((v.scratch + 8 * i) as usize)),
        Phase::WriteCode(i) => Some(
            Action::WriteWord((v.scratch + 8 * i) as usize, v.code[i as int]),
        ),
        Phase::SetStartRegs => Some(Action::SetRegs(spec_start_regs(v))),
        Phase::Resuming => Some(Action::Resume),
        Phase::Waiting => Some(Action::WaitStop),
        Phase::ReadResult => Some(Action::GetRegs),
        Phase::RestoreCode(i) => Some(
            Action::WriteWord((v.scratch + 8 * i) as usize, v.saved_code[i as int]),
        ),
        Phase::RestoreRegs => Some(Action::SetRegs(v.saved_regs)),
        Phase::Done => None,
    }
}

/// Whether the event answers the outstanding action.
pub open spec fn spec_expects(v: RunnerView, ev: Event) -> bool {
    match v.phase {
        Phase::SaveRegs | Phase::ReadResult => ev matches Event::Regs(_) || ev matches
            Event::Failed,
        Phase::SaveCode(_) => ev matches Event::Word(_) || ev matches Event::Failed,
        Phase::WriteCode(_) | Phase::SetStartRegs | Phase::Resuming | Phase::RestoreCode(_)
            | Phase::RestoreRegs => ev matches Event::Ack || ev matches Event::Failed,
        Phase::Waiting => ev matches Event::Stopped(_) || ev matches Event::TimedOut
            || ev matches Event::Failed,
        Phase::Done => false,
    }
}

/// The successor state: how one answered action advances the protocol.
///
/// A failure before anything was written to the target finishes the run at
/// once; a failure anywhere later, the wrong stop reason included, records
/// the error and enters the restore path, which runs to its end whatever
/// events come back, recording — never masking — cleanup failures.
pub open spec fn spec_step(v: RunnerView, ev: Event) -> RunnerView {
    match v.phase {
        Phase::SaveRegs => match ev {
            Event::Regs(rg) => RunnerView {
                saved_regs: rg,
                regs_saved: true,
                phase: Phase::SaveCode(0),
                ..v
            },
            _ => RunnerView { error: Some(Error::IoError), phase: Phase::Done, ..v },
        },
        Phase::SaveCode(i) => match ev {
            Event::Word(w) => RunnerView {
                saved_code: v.saved_code.push(w),
                phase: if i + 1 < v.code.len() {
                    Phase::SaveCode((i + 1) as usize)
                } else {
                    Phase::WriteCode(0)
                },
                ..v
            },
            _ => RunnerView { error: Some(Error::IoError), phase: Phase::Done, ..v },
        },
        Phase::WriteCode(i) => match ev {
            Event::Ack => RunnerView {
                phase: if i + 1 < v.code.len() {
                    Phase::WriteCode((i + 1) as usize)
                } else {
                    Phase::SetStartRegs
                },
                ..v
            },
            _ => RunnerView { error: Some(Error::IoError), phase: Phase::RestoreCode(0), ..v },
        },
        Phase::SetStartRegs => match ev {
            Event::Ack => RunnerView { phase: Phase::Resuming, ..v },
            _ => RunnerView { error: Some(Error::IoError), phase: Phase::RestoreCode(0), ..v },
        },
        Phase::Resuming => match ev {
            Event::Ack => RunnerView { phase: Phase::Waiting, ..v },
            _ => RunnerView { error: Some(Error::IoError), phase: Phase::RestoreCode(0), ..v },
        },
        Phase::Waiting => match ev {
            Event::Stopped(StopReason::Trap) => RunnerView { phase: Phase::ReadResult, ..v },
            Event::Stopped(StopReason::Other) => RunnerView {
                error: Some(Error::ExecutionFailure),
                phase: Phase::RestoreCode(0),
                ..v
            },
            Event::TimedOut => RunnerView {
                error: Some(Error::Timeout),
                phase: Phase::RestoreCode(0),
                ..v
            },
            _ => RunnerView { error: Some(Error::IoError), phase: Phase::RestoreCode(0), ..v },
        },
        Phase::ReadResult => match ev {
            Event::Regs(rg) => RunnerView { result: rg.rax, phase: Phase::RestoreCode(0), ..v },
            _ => RunnerView { error: Some(Error::IoError), phase: Phase::RestoreCode(0), ..v },
        },
        Phase::RestoreCode(i) => {
            let cleanup_failed = v.cleanup_failed || !(ev matches Event::Ack);
            RunnerView {
                cleanup_failed,
                phase: if i + 1 < v.code.len() {
                    Phase::RestoreCode((i + 1) as usize)
                } else {
                    Phase::RestoreRegs
                },
                ..v
            }
        },
        Phase::RestoreRegs => RunnerView {
            cleanup_failed: v.cleanup_failed || !(ev matches Event::Ack),
            phase: Phase::Done,
            ..v
        },
        Phase::Done => v,
    }
}

impl Runner {
    /// Begin a run that will execute the given packed code fragment at the
    /// given scratch address.  The first outstanding action is the register
    /// snapshot.
    pub fn new(scratch: usize, code: Vec<u64>) -> (r: (Runner, Action))
        requires
            code@.len() >= 1,
            scratch + 8 * code@.len() <= usize::MAX,
        ensures
            r.0@ == (RunnerView {
                scratch,
                code: code@,
                saved_regs: spec_zero_registers(),
                regs_saved: false,
                saved_code: Seq::empty(),
                phase: Phase::SaveRegs,
                result: 0,
                error: None,
                cleanup_failed: false,
            }),
            runner_inv(r.0@),
            Some(r.1) == spec_pending_action(r.0@),
    {
        let runner = Runner {
            scratch,
            code,
            saved_regs: Registers::default(),
            regs_saved: false,
            saved_code: Vec::new(),
            phase: Phase::SaveRegs,
            result: 0,
            error: None,
            cleanup_failed: false,
        };
        assert(runner@.saved_code =~= Seq::<u64>::empty());
        (runner, Action::GetRegs)
    }

    /// Answer the outstanding action with the event it produced and receive
    /// the next action, or nothing when the run is over.
    pub fn step(&mut self, ev: Event) -> (a: Option<Action>)
        requires
            runner_inv(old(self)@),
            spec_expects(old(self)@, ev),
        ensures
            final(self)@ == spec_step(old(self)@, ev),
            a == spec_pending_action(final(self)@),
            runner_inv(final(self)@),
    {
        let n = self.code.len();
        match self.phase {
            Phase::SaveRegs => match ev {
                Event::Regs(rg) => {
                    self.saved_regs = rg;
                    self.regs_saved = true;
                    self.phase = Phase::SaveCode(0);
                    Some(Action::ReadWord(self.scratch))
                },
                _ => {
                    self.error = Some(Error::IoError);
                    self.phase = Phase::Done;
                    None
                },
            },
            Phase::SaveCode(i) => match ev {
                Event::Word(w) => {
                    self.saved_code.push(w);
                    if i + 1 < n {
                        self.phase = Phase::SaveCode(i + 1);
                        Some(Action::ReadWord(self.scratch + 8 * (i + 1)))
                    } else {
                        self.phase = Phase::WriteCode(0);
                        Some(Action::WriteWord(self.scratch, self.code[0]))
                    }
                },
                _ => {
                    self.error = Some(Error::IoError);
                    self.phase = Phase::Done;
                    None
                },
            },
            Phase::WriteCode(i) => match ev {
                Event::Ack => {
                    if i + 1 < n {
                        self.phase = Phase::WriteCode(i + 1);
                        Some(Action::WriteWord(self.scratch + 8 * (i + 1), self.code[i + 1]))
                    } else {
                        self.phase = Phase::SetStartRegs;
                        let mut rg = self.saved_regs;
                        rg.rip = self.scratch as u64;
                        Some(Action::SetRegs(rg))
                    }
                },
                _ => {
                    self.error = Some(Error::IoError);
                    self.phase = Phase::RestoreCode(0);
                    Some(Action::WriteWord(self.scratch, self.saved_code[0]))
                },
            },
            Phase::SetStartRegs => match ev {
                Event::Ack => {
                    self.phase = Phase::Resuming;
                    Some(Action::Resume)
                },
                _ => {
                    self.error = Some(Error::IoError);
                    self.phase = Phase::RestoreCode(0);
                    Some(Action::WriteWord(self.scratch, self.saved_code[0]))
                },
            },
            Phase::Resuming => match ev {
                Event::Ack => {
                    self.phase = Phase::Waiting;
                    Some(Action::WaitStop)
                },
                _ => {
                    self.error = Some(Error::IoError);
                    self.phase = Phase::RestoreCode(0);
                    Some(Action::WriteWord(self.scratch, self.saved_code[0]))
                },
            },
            Phase::Waiting => match ev {
                Event::Stopped(StopReason::Trap) => {
                    self.phase = Phase::ReadResult;
                    Some(Action::GetRegs)
                },
                Event::Stopped(StopReason::Other) => {
                    self.error = Some(Error::ExecutionFailure);
                    self.phase = Phase::RestoreCode(0);
                    Some(Action::WriteWord(self.scratch, self.saved_code[0]))
                },
                Event::TimedOut => {
                    self.error = Some(Error::Timeout);
                    self.phase = Phase::RestoreCode(0);
                    Some(Action::WriteWord(self.scratch, self.saved_code[0]))
                },
                _ => {
                    self.error = Some(Error::IoError);
                    self.phase = Phase::RestoreCode(0);
                    Some(Action::WriteWord(self.scratch, self.saved_code[0]))
                },
            },
            Phase::ReadResult => match ev {
                Event::Regs(rg) => {
                    self.result = rg.rax;
                    self.phase = Phase::RestoreCode(0);
                    Some(Action::WriteWord(self.scratch, self.saved_code[0]))
                },
                _ => {
                    self.error = Some(Error::IoError);
                    self.phase = Phase::RestoreCode(0);
                    Some(Action::WriteWord(self.scratch, self.saved_code[0]))
                },
            },
            Phase::RestoreCode(i) => {
                match ev {
                    Event::Ack => {},
                    _ => {
                        self.cleanup_failed = true;
                    },
                }
                if i + 1 < n {
                    self.phase = Phase::RestoreCode(i + 1);
                    Some(Action::WriteWord(self.scratch + 8 * (i + 1), self.saved_code[i + 1]))
                } else {
                    self.phase = Phase::RestoreRegs;
                    Some(Action::SetRegs(self.saved_regs))
                }
            },
            Phase::RestoreRegs => {
                match ev {
                    Event::Ack => {},
                    _ => {
                        self.cleanup_failed = true;
                    },
                }
                self.phase = Phase::Done;
                None
            },
            Phase::Done => None,
        }
    }

    /// The verdict of a finished run: the captured result register, or the
    /// first error the run hit.
    pub fn outcome(&self) -> (r: Result<u64, Error>)
        requires
            self@.phase == Phase::Done,
        ensures
            r == (match self@.error {
                None => Ok::<u64, Error>(self@.result),
                Some(e) => Err::<u64, Error>(e),
            }),
    {
        match self.error {
            None => Ok(self.result),
            Some(e) => Err(e),
        }
    }
}

/// The machine after a sequence of answered actions.
pub open spec fn spec_run(v: RunnerView, evs: Seq<Event>) -> RunnerView
    decreases evs.len(),
{
    if evs.len() == 0 {
        v
    } else {
        spec_run(spec_step(v, evs[0]), evs.skip(1))
    }
}

/// The actions the machine hands out over a sequence of answered actions:
/// element `k` is what [`Runner::step`] returns for event `k`.
pub open spec fn spec_run_actions(v: RunnerView, evs: Seq<Event>) -> Seq<Option<Action>>
    decreases evs.len(),
{
    if evs.len() == 0 {
        Seq::empty()
    } else {
        seq![spec_pending_action(spec_step(v, evs[0]))] + spec_run_actions(
            spec_step(v, evs[0]),
            evs.skip(1),
        )
    }
}

/// The full restore sequence: every saved word written back to its own
/// address, in ascending-address order, then the saved register snapshot.
pub open spec fn spec_restore_actions(v: RunnerView) -> Seq<Action> {
    Seq::new(
        v.code.len(),
        |i: int| Action::WriteWord((v.scratch + 8 * i) as usize, v.saved_code[i]),
    ).push(Action::SetRegs(v.saved_regs))
}

/// Every step keeps the machine's internal invariant.
pub proof fn lemma_step_preserves_inv(v: RunnerView, ev: Event)
    requires
        runner_inv(v),
    ensures
        runner_inv(spec_step(v, ev)),
{
}

/// Once the save phases are past, no step touches the saved register
/// snapshot, the saved code words, the scratch address or the code: what the
/// restore will replay is fixed the moment it is captured.
pub proof fn lemma_saved_state_stable(v: RunnerView, ev: Event)
    requires
        !(v.phase matches Phase::SaveRegs),
        !(v.phase matches Phase::SaveCode(_)),
    ensures
        spec_step(v, ev).saved_regs == v.saved_regs,
        spec_step(v, ev).saved_code == v.saved_code,
        spec_step(v, ev).scratch == v.scratch,
        spec_step(v, ev).code == v.code,
{
}

/// A run can only finish before anything was written to the target (a
/// failure while snapshotting or saving) or straight after the register
/// restore: every path that touched the target passes through the full
/// restore before it ends.
pub proof fn lemma_done_only_after_restore(v: RunnerView, ev: Event)
    requires
        runner_inv(v),
        spec_step(v, ev).phase matches Phase::Done,
    ensures
        v.phase matches Phase::RestoreRegs || v.phase matches Phase::SaveRegs || v.phase matches
            Phase::SaveCode(_) || v.phase matches Phase::Done,
{
}

/// A failure in any phase after the code was saved — a write or register
/// failure, a wrong stop reason, a timeout — never finishes the run: it
/// records the error and enters the restore path at its first word.
pub proof fn lemma_failure_enters_restore(v: RunnerView, ev: Event)
    requires
        runner_inv(v),
        v.phase matches Phase::WriteCode(_) || v.phase matches Phase::SetStartRegs || v.phase
            matches Phase::Resuming || v.phase matches Phase::Waiting || v.phase matches
            Phase::ReadResult,
        !(ev matches Event::Ack),
        !(ev matches Event::Regs(_)),
        !(ev matches Event::Stopped(StopReason::Trap)),
    ensures
        spec_step(v, ev).phase == Phase::RestoreCode(0usize),
        spec_step(v, ev).error is Some,
{
}

/// The restore phases replay exactly what was saved: word `i` of the saved
/// code goes back to its own address, and the register restore applies the
/// saved snapshot unchanged.
pub proof fn lemma_restore_replays_saved(v: RunnerView)
    requires
        runner_inv(v),
    ensures
        v.phase matches Phase::RestoreCode(i) ==> spec_pending_action(v) == Some(
            Action::WriteWord((v.scratch + 8 * i) as usize, v.saved_code[i as int]),
        ),
        v.phase matches Phase::RestoreRegs ==> spec_pending_action(v) == Some(
            Action::SetRegs(v.saved_regs),
        ),
{
}

/// The restore path runs to its end whatever events come back, failures
/// included: word `i` advances to word `i + 1` or to the register restore,
/// the register restore finishes the run, and the error recorded before the
/// restore began is never masked.
pub proof fn lemma_restore_runs_to_completion(v: RunnerView, ev: Event)
    requires
        runner_inv(v),
    ensures
        v.phase matches Phase::RestoreCode(i) ==> {
            let next = spec_step(v, ev);
            &&& i + 1 < v.code.len() ==> next.phase == Phase::RestoreCode((i + 1) as usize)
            &&& i + 1 == v.code.len() ==> next.phase == Phase::RestoreRegs
            &&& next.error == v.error
        },
        v.phase matches Phase::RestoreRegs ==> spec_step(v, ev).phase == Phase::Done && spec_step(
            v,
            ev,
        ).error == v.error,
{
}

/// The restore trace from word `k` on: over the next `code.len() - k + 1`
/// events, whatever they are, the machine hands out exactly the remaining
/// restore actions and finishes with the verdict it already had.
proof fn lemma_restore_trace_from(v: RunnerView, evs: Seq<Event>, k: usize)
    requires
        runner_inv(v),
        v.phase == Phase::RestoreCode(k),
        evs.len() == v.code.len() - k + 1,
    ensures
        spec_run(v, evs).phase == Phase::Done,
        spec_run(v, evs).error == v.error,
        seq![spec_pending_action(v)] + spec_run_actions(v, evs) == spec_restore_actions(v).skip(
            k as int,
        ).map_values(|a: Action| Some(a)).push(None::<Action>),
    decreases evs.len(),
{
    let v1 = spec_step(v, evs[0]);
    lemma_step_preserves_inv(v, evs[0]);
    let ra = spec_restore_actions(v);
    if k + 1 < v.code.len() {
        assert(v1.phase == Phase::RestoreCode((k + 1) as usize));
        assert(spec_restore_actions(v1) == ra) by {
            assert(spec_restore_actions(v1) =~= ra);
        }
        lemma_restore_trace_from(v1, evs.skip(1), (k + 1) as usize);
        assert(spec_run(v, evs) == spec_run(v1, evs.skip(1)));
        assert(spec_pending_action(v1) == Some(ra[k as int + 1]));
        assert(seq![spec_pending_action(v)] + spec_run_actions(v, evs) =~= seq![
            spec_pending_action(v),
        ] + (seq![spec_pending_action(v1)] + spec_run_actions(v1, evs.skip(1))));
        assert(spec_pending_action(v) == Some(ra[k as int]));
        assert(ra.skip(k as int).map_values(|a: Action| Some(a)).push(None::<Action>) =~= seq![
            Some(ra[k as int]),
        ] + ra.skip(k as int + 1).map_values(|a: Action| Some(a)).push(None::<Action>));
    } else {
        // the last word, then the register restore, then the run is over
        assert(k + 1 == v.code.len());
        assert(v1.phase == Phase::RestoreRegs);
        assert(evs.len() == 2);
        let v2 = spec_step(v1, evs.skip(1)[0]);
        assert(v2.phase == Phase::Done);
        assert(v2.error == v.error);
        assert(spec_run(v1, evs.skip(1)) == spec_run(v2, evs.skip(1).skip(1)));
        assert(evs.skip(1).skip(1).len() == 0);
        assert(spec_run(v, evs) == v2);
        assert(spec_run_actions(v2, evs.skip(1).skip(1)) =~= Seq::<Option<Action>>::empty());
        assert(spec_run_actions(v1, evs.skip(1)) == seq![spec_pending_action(v2)]
            + spec_run_actions(v2, evs.skip(1).skip(1)));
        assert(spec_run_actions(v1, evs.skip(1)) =~= seq![spec_pending_action(v2)]);
        assert(spec_pending_action(v2) == None::<Action>);
        assert(spec_pending_action(v1) == Some(ra[k as int + 1]));
        assert(spec_pending_action(v) == Some(ra[k as int]));
        assert(seq![spec_pending_action(v)] + spec_run_actions(v, evs) =~= seq![
            Some(ra[k as int]),
            Some(ra[k as int + 1]),
            None::<Action>,
        ]);
        assert(ra.skip(k as int) =~= seq![ra[k as int], ra[k as int + 1]]);
        assert(ra.skip(k as int).map_values(|a: Action| Some(a)).push(None::<Action>) =~= seq![
            Some(ra[k as int]),
            Some(ra[k as int + 1]),
            None::<Action>,
        ]);
    }
}

/// Running a sequence of answered actions in two parts runs them in turn.
proof fn lemma_run_concat(v: RunnerView, a: Seq<Event>, b: Seq<Event>)
    ensures
        spec_run(v, a + b) == spec_run(spec_run(v, a), b),
    decreases a.len(),
{
    if a.len() == 0 {
        assert(a + b =~= b);
    } else {
        assert((a + b)[0] == a[0]);
        assert((a + b).skip(1) =~= a.skip(1) + b);
        lemma_run_concat(spec_step(v, a[0]), a.skip(1), b);
    }
}

/// Saving the scratch range: answering each outstanding read with a word
/// appends exactly those words to the saved code, in order, and then turns to
/// writing the fragment.  Nothing else of the state moves.
proof fn lemma_save_loop(v: RunnerView, ws: Seq<u64>, k: usize)
    requires
        runner_inv(v),
        v.phase == Phase::SaveCode(k),
        ws.len() == v.code.len() - k,
    ensures
        spec_run(v, ws.map_values(|w: u64| Event::Word(w))) == (RunnerView {
            saved_code: v.saved_code + ws,
            phase: Phase::WriteCode(0usize),
            ..v
        }),
    decreases ws.len(),
{
    let evs = ws.map_values(|w: u64| Event::Word(w));
    let v1 = spec_step(v, Event::Word(ws[0]));
    lemma_step_preserves_inv(v, Event::Word(ws[0]));
    assert(evs[0] == Event::Word(ws[0]));
    assert(evs.skip(1) =~= ws.skip(1).map_values(|w: u64| Event::Word(w)));
    if k + 1 < v.code.len() {
        lemma_save_loop(v1, ws.skip(1), (k + 1) as usize);
        assert(v1.saved_code + ws.skip(1) =~= v.saved_code + ws);
        assert(spec_run(v, evs) =~= (RunnerView {
            saved_code: v.saved_code + ws,
            phase: Phase::WriteCode(0usize),
            ..v
        }));
    } else {
        assert(ws.len() == 1);
        assert(evs.skip(1).len() == 0);
        assert(spec_run(v1, evs.skip(1)) == v1);
        assert(v.saved_code.push(ws[0]) =~= v.saved_code + ws);
        assert(spec_run(v, evs) =~= (RunnerView {
            saved_code: v.saved_code + ws,
            phase: Phase::WriteCode(0usize),
            ..v
        }));
    }
}

/// Writing the fragment: an acknowledgement for each code word walks the
/// write phase through and turns to applying the start registers.  Nothing
/// else of the state moves.
proof fn lemma_write_loop(v: RunnerView, count: nat, k: usize)
    requires
        runner_inv(v),
        v.phase == Phase::WriteCode(k),
        count == v.code.len() - k,
    ensures
        spec_run(v, Seq::new(count, |i: int| Event::Ack)) == (RunnerView {
            phase: Phase::SetStartRegs,
            ..v
        }),
    decreases count,
{
    let evs = Seq::new(count, |i: int| Event::Ack);
    let v1 = spec_step(v, Event::Ack);
    lemma_step_preserves_inv(v, Event::Ack);
    assert(evs.skip(1) =~= Seq::new((count - 1) as nat, |i: int| Event::Ack));
    if k + 1 < v.code.len() {
        lemma_write_loop(v1, (count - 1) as nat, (k + 1) as usize);
        assert(spec_run(v, evs) =~= (RunnerView { phase: Phase::SetStartRegs, ..v }));
    } else {
        assert(count == 1);
        assert(spec_run(v1, evs.skip(1)) == v1);
        assert(spec_run(v, evs) =~= (RunnerView { phase: Phase::SetStartRegs, ..v }));
    }
}

/// The events a well-behaved target produces over a successful run: the
/// pre-call register snapshot, the original word of each scratch address,
/// acknowledgements for the code writes, the register apply and the resume,
/// the expected trap stop, and the post-stop register set.
pub open spec fn spec_success_events(r0: Registers, ws: Seq<u64>, r1: Registers) -> Seq<Event> {
    seq![Event::Regs(r0)] + ws.map_values(|w: u64| Event::Word(w)) + Seq::new(
        ws.len(),
        |i: int| Event::Ack,
    ) + seq![Event::Ack, Event::Ack, Event::Stopped(StopReason::Trap), Event::Regs(r1)]
}

/// A run against a target that behaves — every operation succeeds and the
/// fragment traps — reaches the restore phase having saved exactly the
/// snapshot `r0` and the original words `ws` it was handed, with no error and
/// with the result register of the post-stop set `r1` captured.  Together
/// with [`lemma_restore_emits_full_restore`] this pins the whole run: those
/// same words then go back to their own addresses and `r0` is reapplied, so
/// the target's memory and registers end at their pre-call values, with only
/// the result carried out.
pub proof fn lemma_successful_run(v0: RunnerView, r0: Registers, ws: Seq<u64>, r1: Registers)
    requires
        runner_inv(v0),
        v0.phase == Phase::SaveRegs,
        ws.len() == v0.code.len(),
    ensures
        spec_run(v0, spec_success_events(r0, ws, r1)) == (RunnerView {
            saved_regs: r0,
            regs_saved: true,
            saved_code: ws,
            phase: Phase::RestoreCode(0usize),
            result: r1.rax,
            ..v0
        }),
{
    let e1 = seq![Event::Regs(r0)];
    let e2 = ws.map_values(|w: u64| Event::Word(w));
    let e3 = Seq::new(ws.len(), |i: int| Event::Ack);
    let e4 = seq![
        Event::Ack,
        Event::Ack,
        Event::Stopped(StopReason::Trap),
        Event::Regs(r1),
    ];
    assert(spec_success_events(r0, ws, r1) =~= e1 + (e2 + (e3 + e4)));
    lemma_run_concat(v0, e1, e2 + (e3 + e4));
    let v1 = spec_step(v0, Event::Regs(r0));
    assert(e1[0] == Event::Regs(r0));
    assert(e1.skip(1).len() == 0);
    assert(spec_run(v1, e1.skip(1)) == v1);
    assert(spec_run(v0, e1) == spec_run(spec_step(v0, e1[0]), e1.skip(1)));
    assert(spec_run(v0, e1) == v1);
    lemma_step_preserves_inv(v0, Event::Regs(r0));
    assert(v1.phase == Phase::SaveCode(0usize));
    lemma_run_concat(v1, e2, e3 + e4);
    lemma_save_loop(v1, ws, 0);
    let v2 = spec_run(v1, e2);
    assert(v2.saved_code =~= ws);
    assert(runner_inv(v2));
    lemma_run_concat(v2, e3, e4);
    lemma_write_loop(v2, ws.len(), 0);
    let v3 = spec_run(v2, e3);
    assert(v3.phase == Phase::SetStartRegs);
    let s1 = spec_step(v3, e4[0]);
    let s2 = spec_step(s1, e4[1]);
    let s3 = spec_step(s2, e4[2]);
    let s4 = spec_step(s3, e4[3]);
    assert(e4.skip(1).skip(1).skip(1).skip(1).len() == 0);
    assert(spec_run(v3, e4) == spec_run(s1, e4.skip(1)));
    assert(e4.skip(1)[0] == e4[1] && e4.skip(1).skip(1) =~= e4.skip(2));
    assert(spec_run(s1, e4.skip(1)) == spec_run(s2, e4.skip(2)));
    assert(e4.skip(2)[0] == e4[2] && e4.skip(2).skip(1) =~= e4.skip(3));
    assert(spec_run(s2, e4.skip(2)) == spec_run(s3, e4.skip(3)));
    assert(e4.skip(3)[0] == e4[3] && e4.skip(3).skip(1) =~= e4.skip(4));
    assert(e4.skip(4).len() == 0);
    assert(spec_run(s3, e4.skip(3)) == spec_run(s4, e4.skip(4)));
    assert(spec_run(s4, e4.skip(4)) == s4);
    assert(spec_run(v0, spec_success_events(r0, ws, r1)) =~= (RunnerView {
        saved_regs: r0,
        regs_saved: true,
        saved_code: ws,
        phase: Phase::RestoreCode(0usize),
        result: r1.rax,
        ..v0
    }));
}

/// Whatever events come back while restoring — acknowledgements and failures
/// in any mixture — the machine hands the driver exactly the full restore
/// sequence: every saved word written back to its own address in ascending
/// order, then the saved register snapshot; then the run is over, with the
/// verdict it had when the restore began.
pub proof fn lemma_restore_emits_full_restore(v: RunnerView, evs: Seq<Event>)
    requires
        runner_inv(v),
        v.phase == Phase::RestoreCode(0usize),
        evs.len() == v.code.len() + 1,
    ensures
        spec_run(v, evs).phase == Phase::Done,
        spec_run(v, evs).error == v.error,
        seq![spec_pending_action(v)] + spec_run_actions(v, evs) == spec_restore_actions(
            v,
        ).map_values(|a: Action| Some(a)).push(None::<Action>),
{
    lemma_restore_trace_from(v, evs, 0);
    assert(spec_restore_actions(v).skip(0) =~= spec_restore_actions(v));
}

} // verus!

use procinject::runner::{Action, Event, Registers, Runner, StopReason};
use procinject::Error;

fn base_regs() -> Registers {
    let mut regs = Registers::default();
    regs.rip = 0x5555_0000;
    regs.rsp = 0x7ffd_0000;
    regs.rax = 7;
    regs.r11 = 3;
    regs
}

/// A fragment that writes a known constant into the result register and then
/// traps: the run returns that constant, and the scratch words and the full
/// register set are restored to their pre-call values.
#[test]
fn successful_run_returns_result_and_restores_everything() {
    let scratch: usize = 0x1000;
    let code = vec![0x11u64, 0x22u64];
    let original = [0xAAu64, 0xBBu64];
    let regs0 = base_regs();

    let (mut runner, first) = Runner::new(scratch, code);
    assert_eq!(first, Action::GetRegs);

    // snapshot, then save the two original words
    let a = runner.step(Event::Regs(regs0));
    assert_eq!(a, Some(Action::ReadWord(0x1000)));
    let a = runner.step(Event::Word(original[0]));
    assert_eq!(a, Some(Action::ReadWord(0x1008)));
    let a = runner.step(Event::Word(original[1]));

    // write the fragment
    assert_eq!(a, Some(Action::WriteWord(0x1000, 0x11)));
    let a = runner.step(Event::Ack);
    assert_eq!(a, Some(Action::WriteWord(0x1008, 0x22)));
    let a = runner.step(Event::Ack);

    // point the instruction pointer at the scratch address; nothing else moves
    let mut start = regs0;
    start.rip = 0x1000;
    assert_eq!(a, Some(Action::SetRegs(start)));

    // run to the trap
    let a = runner.step(Event::Ack);
    assert_eq!(a, Some(Action::Resume));
    let a = runner.step(Event::Ack);
    assert_eq!(a, Some(Action::WaitStop));
    let a = runner.step(Event::Stopped(StopReason::Trap));
    assert_eq!(a, Some(Action::GetRegs));

    // the fragment left 42 in the result register
    let mut after = regs0;
    after.rip = 0x1010;
    after.rax = 42;
    let a = runner.step(Event::Regs(after));

    // restore replays exactly the saved words, then the saved registers
    assert_eq!(a, Some(Action::WriteWord(0x1000, original[0])));
    let a = runner.step(Event::Ack);
    assert_eq!(a, Some(Action::WriteWord(0x1008, original[1])));
    let a = runner.step(Event::Ack);
    assert_eq!(a, Some(Action::SetRegs(regs0)));
    let a = runner.step(Event::Ack);
    assert_eq!(a, None);

    assert_eq!(runner.outcome(), Ok(42));
    assert!(!runner.cleanup_failed);
}

/// A failed code write aborts the run but still restores the saved word and
/// the saved registers before reporting the failure.
#[test]
fn failed_write_still_restores_before_reporting() {
    let regs0 = base_regs();
    let (mut runner, _) = Runner::new(0x2000, vec![0x33u64]);
    runner.step(Event::Regs(regs0));
    let a = runner.step(Event::Word(0x99));
    assert_eq!(a, Some(Action::WriteWord(0x2000, 0x33)));

    // the write fails: the machine turns straight to restoring
    let a = runner.step(Event::Failed);
    assert_eq!(a, Some(Action::WriteWord(0x2000, 0x99)));
    let a = runner.step(Event::Ack);
    assert_eq!(a, Some(Action::SetRegs(regs0)));
    let a = runner.step(Event::Ack);
    assert_eq!(a, None);

    assert_eq!(runner.outcome(), Err(Error::IoError));
    assert!(!runner.cleanup_failed);
}

/// A stop for any reason other than the expected trap is a crash, not a
/// success: the run restores state and reports an execution failure.
#[test]
fn wrong_stop_reason_is_execution_failure_not_success() {
    let regs0 = base_regs();
    let (mut runner, _) = Runner::new(0x3000, vec![0x44u64]);
    runner.step(Event::Regs(regs0));
    runner.step(Event::Word(0x88));
    runner.step(Event::Ack); // code written
    runner.step(Event::Ack); // registers applied
    runner.step(Event::Ack); // resumed
    let a = runner.step(Event::Stopped(StopReason::Other));
    assert_eq!(a, Some(Action::WriteWord(0x3000, 0x88)));
    let a = runner.step(Event::Ack);
    assert_eq!(a, Some(Action::SetRegs(regs0)));
    let a = runner.step(Event::Ack);
    assert_eq!(a, None);
    assert_eq!(runner.outcome(), Err(Error::ExecutionFailure));
}

/// A cleanup failure is reported beside the original error, never in its
/// place.
#[test]
fn cleanup_failure_does_not_mask_the_original_error() {
    let regs0 = base_regs();
    let (mut runner, _) = Runner::new(0x4000, vec![0x55u64]);
    runner.step(Event::Regs(regs0));
    runner.step(Event::Word(0x77));
    runner.step(Event::Failed); // the code write fails
    let a = runner.step(Event::Failed); // restoring the word fails too
    assert_eq!(a, Some(Action::SetRegs(regs0)));
    let a = runner.step(Event::Failed); // and so does the register restore
    assert_eq!(a, None);
    assert_eq!(runner.outcome(), Err(Error::IoError));
    assert!(runner.cleanup_failed);
}

/// A failure before anything was written to the target finishes at once:
/// there is nothing to restore.
#[test]
fn early_failure_finishes_without_restore() {
    let (mut runner, _) = Runner::new(0x5000, vec![0x66u64]);
    let a = runner.step(Event::Failed);
    assert_eq!(a, None);
    assert_eq!(runner.outcome(), Err(Error::IoError));
}

/// A bounded wait that runs out reports a timeout and still restores.
#[test]
fn timeout_reports_and_restores() {
    let regs0 = base_regs();
    let (mut runner, _) = Runner::new(0x6000, vec![0x12u64]);
    runner.step(Event::Regs(regs0));
    runner.step(Event::Word(0x34));
    runner.step(Event::Ack);
    runner.step(Event::Ack);
    runner.step(Event::Ack);
    let a = runner.step(Event::TimedOut);
    assert_eq!(a, Some(Action::WriteWord(0x6000, 0x34)));
    let a = runner.step(Event::Ack);
    assert_eq!(a, Some(Action::SetRegs(regs0)));
    let a = runner.step(Event::Ack);
    assert_eq!(a, None);
    assert_eq!(runner.outcome(), Err(Error::Timeout));
}

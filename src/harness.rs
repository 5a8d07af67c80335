use vstd::prelude::*;

verus! {

/// Status written to the exit port: all checks passed, or a failure was seen.
#[derive(Clone, Copy, Debug, PartialEq, Eq, Structural)]
pub enum QemuExitCode {
    Success,
    Failed,
}

impl QemuExitCode {
    /// The 32-bit value that the host reads from the exit port.
    pub open spec fn spec_code(self) -> u32 {
        match self {
            QemuExitCode::Success => 0x10,
            QemuExitCode::Failed => 0x11,
        }
    }

    /// The 32-bit value to write to the exit port.
    pub fn code(&self) -> (r: u32)
        ensures
            r == self.spec_code(),
    {
        match self {
            QemuExitCode::Success => 0x10,
            QemuExitCode::Failed => 0x11,
        }
    }
}

/// What the harness does next.
#[derive(Clone, Copy, Debug, PartialEq, Eq, Structural)]
pub enum RunnerStep {
    /// Run the check at this position.
    Run(usize),
    /// Write this status to the exit port.
    Exit(QemuExitCode),
}

/// How a check ended.
#[derive(Clone, Copy, Debug, PartialEq, Eq, Structural)]
pub enum CheckEvent {
    /// The check returned normally.
    Returned,
    /// The check reached the panic path.
    Panicked,
    /// The double-fault handler ran on its own stack.
    FaultCaught,
}

/// The harness's step once `finished` of `total` checks have returned:
/// checks run in order, and after the last one the run exits with success.
pub fn test_runner(total: usize, finished: usize) -> (r: RunnerStep)
    ensures
        finished < total ==> r == RunnerStep::Run(finished),
        finished >= total ==> r == RunnerStep::Exit(QemuExitCode::Success),
{
    if finished < total {
        RunnerStep::Run(finished)
    } else {
        RunnerStep::Exit(QemuExitCode::Success)
    }
}

/// The status owed when a check ends with `event`, or `None` when the run
/// goes on. In a run whose checks must end in a caught double fault
/// (`expect_fault`), only that fault is a success; elsewhere a returning
/// check lets the run go on and any fault or panic is a failure.
pub fn outcome_exit_code(expect_fault: bool, event: CheckEvent) -> (r: Option<QemuExitCode>)
    ensures
        r == (match event {
            CheckEvent::Returned => if expect_fault {
                Some(QemuExitCode::Failed)
            } else {
                None
            },
            CheckEvent::Panicked => Some(QemuExitCode::Failed),
            CheckEvent::FaultCaught => if expect_fault {
                Some(QemuExitCode::Success)
            } else {
                Some(QemuExitCode::Failed)
            },
        }),
{
    match event {
        CheckEvent::Returned => if expect_fault {
            Some(QemuExitCode::Failed)
        } else {
            None
        },
        CheckEvent::Panicked => Some(QemuExitCode::Failed),
        CheckEvent::FaultCaught => if expect_fault {
            Some(QemuExitCode::Success)
        } else {
            Some(QemuExitCode::Failed)
        },
    }
}

/// The harness's sample check: whether one equals zero. It does not, so the
/// check reports a failure.
pub fn trivial_assertion() -> (r: bool)
    ensures
        r == (1int == 0int),
{
    let one: u32 = 1;
    let zero: u32 = 0;
    one == zero
}

} // verus!

//! Support for the kernel's self-checks: the unit that can be run, the
//! runner, and the exit codes handed to the emulator.

use vstd::prelude::*;

verus! {

/// The I/O port of the emulator's exit device.
pub const EXIT_PORT: u16 = 0xf4;

/// The code with which the emulator is asked to exit.
#[derive(Clone, Copy, Debug, PartialEq, Eq)]
pub enum QemuExitCode {
    Success,
    Failed,
}

impl QemuExitCode {
    /// The number that stands for the code.
    pub open spec fn spec_code(self) -> u32 {
        match self {
            QemuExitCode::Success => 0x10,
            QemuExitCode::Failed => 0x11,
        }
    }

    #[verifier::when_used_as_spec(spec_code)]
    pub fn code(self) -> (r: u32)
        ensures
            r == self.spec_code(),
    {
        match self {
            QemuExitCode::Success => 0x10,
            QemuExitCode::Failed => 0x11,
        }
    }
}

/// One write to an I/O port.
#[derive(Clone, Copy, Debug, PartialEq, Eq)]
pub struct PortWrite {
    pub port: u16,
    pub value: u32,
}

/// The port write that makes the emulator exit with the given code.
pub fn exit_qemu(exit_code: QemuExitCode) -> (r: PortWrite)
    ensures
        r.port == 0xf4,
        r.value == exit_code.spec_code(),
{
    PortWrite { port: EXIT_PORT, value: exit_code.code() }
}

/// Something that can be run as a self-check.
pub trait Testable {
    /// Whether the check may be run.
    spec fn ready(&self) -> bool;

    /// What holds once the check has come back from a run.
    spec fn passed(&self) -> bool;

    fn run(&self)
        requires
            self.ready(),
        ensures
            self.passed(),
    ;
}

/// Every function that takes nothing and returns nothing is a check: to run
/// it is to call it, and it has passed when it has come back with what it
/// promises.
impl<T: Fn()> Testable for T {
    open spec fn ready(&self) -> bool {
        self.requires(())
    }

    open spec fn passed(&self) -> bool {
        self.ensures((), ())
    }

    fn run(&self) {
        self()
    }
}

/// Runs every check, first to last. When it returns, each check has been run
/// and has passed, and the result is the exit code of such a run.
pub fn test_runner<T: Testable>(tests: &[T]) -> (r: QemuExitCode)
    requires
        forall|i: int| 0 <= i < tests@.len() ==> (#[trigger] tests@[i]).ready(),
    ensures
        r == QemuExitCode::Success,
        forall|i: int| 0 <= i < tests@.len() ==> (#[trigger] tests@[i]).passed(),
{
    let mut i: usize = 0;
    while i < tests.len()
        invariant
            i <= tests.len(),
            forall|k: int| 0 <= k < tests@.len() ==> (#[trigger] tests@[k]).ready(),
            forall|k: int| 0 <= k < i ==> (#[trigger] tests@[k]).passed(),
        decreases tests.len() - i,
    {
        tests[i].run();
        i = i + 1;
    }
    QemuExitCode::Success
}

} // verus!

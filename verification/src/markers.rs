//! The literal markers that the library looks for in a log.
//!
//! Each marker is an ASCII string; the library compares its bytes.

use vstd::prelude::*;
use vstd::string::StringSliceAdditionalSpecFns;

verus! {

/// The line that opens the clean-up section at the end of a job.
pub const CLEANUP: &'static str = "\nPost job cleanup.\n";

/// The start of a line that opens a group of output.
pub const GROUP_LINE: &'static str = "\n##[group";

/// How a text begins whose first line opens a group.
pub const GROUP: &'static str = "##[group";

/// The line that opens a test harness's summary of failures.
pub const FAILURES: &'static str = "\nfailures:\n";

/// The line by which the runner says that it was told to shut down.
pub const SHUTDOWN: &'static str = "\n##[error]The runner has received a shutdown signal.";

/// How the group line of an LLVM build begins.
pub const LLVM_GROUP: &'static str = "##[group]Building LLVM for ";

/// How the line begins by which a build tool names the step that failed.
pub const FAILED: &'static str = "\nFAILED: ";

/// The line that only says that a step failed.
pub const EXIT_CODE_1: &'static str = "##[error]Process completed with exit code 1.";

/// How an error reported by cargo or rustc begins.
pub const ERROR: &'static str = "error: ";

/// How an error with a code begins.
pub const ERROR_CODE: &'static str = "error[";

/// How the line begins that says that the compiler was killed by a signal.
pub const RUSTC_SIGNAL: &'static str = "rustc exited with signal:";

/// How a line begins that the runner marks as an error.
pub const RUNNER_ERROR: &'static str = "##[error]";

/// How a JavaScript type error begins.
pub const TYPE_ERROR: &'static str = "TypeError:";

/// How a message of the dynamic linker begins.
pub const DYLD: &'static str = "dyld[";

/// How the line begins by which a test harness says how to run a test again.
pub const RERUN: &'static str = "error: test failed, to rerun";

/// How an error in capitals begins.
pub const ERROR_UPPER: &'static str = "ERROR: ";

/// How an error in one revision of a test begins.
pub const ERROR_IN_REVISION: &'static str = "error in revision ";

/// How a fatal error begins.
pub const FATAL: &'static str = "fatal: ";

/// How the header of a panic message begins.
pub const THREAD: &'static str = "thread '";

/// What the header of a panic message holds behind the thread's name.
pub const PANICKED_AT: &'static str = "' panicked at ";

/// How the header of a panic message ends.
pub const COLON: &'static str = ":";

/// The message of a panic that was given none.
pub const EXPLICIT_PANIC: &'static str = "explicit panic";

/// The message of a failed `assert_eq`.
pub const ASSERTION_FAILED: &'static str = "assertion `left == right` failed";

/// How many lines an excerpt keeps where no marker bounds it.
pub const EXCERPT_LINES: usize = 500;

/// How many lines an excerpt keeps of an LLVM build that names no failed step.
pub const LLVM_LINES: usize = 50;

/// The bytes of a marker.
pub open spec fn bytes(marker: &str) -> Seq<u8> {
    marker.spec_bytes()
}

/// The bytes of an ASCII marker are its characters, one byte each.
pub proof fn lemma_ascii_bytes(marker: &str)
    requires
        vstd::string::is_ascii(marker),
    ensures
        bytes(marker).len() == marker@.len(),
        forall|i: int| 0 <= i < marker@.len() ==> bytes(marker)[i] == marker@[i] as u8,
{
    vstd::string::is_ascii_spec_bytes(marker);
}

/// The clean-up marker is 19 bytes long and begins with a newline.
pub proof fn lemma_cleanup_marker()
    ensures
        bytes(CLEANUP).len() == 19,
        bytes(CLEANUP)[0] == 0x0A,
{
    reveal_strlit("\nPost job cleanup.\n");
    lemma_ascii_bytes(CLEANUP);
}

/// The marker of a group line is 9 bytes long and begins with a newline.
pub proof fn lemma_group_line_marker()
    ensures
        bytes(GROUP_LINE).len() == 9,
        bytes(GROUP_LINE)[0] == 0x0A,
{
    reveal_strlit("\n##[group");
    lemma_ascii_bytes(GROUP_LINE);
}

/// The marker of a summary of failures begins with a newline.
pub proof fn lemma_failures_marker()
    ensures
        bytes(FAILURES).len() == 11,
        bytes(FAILURES)[0] == 0x0A,
{
    reveal_strlit("\nfailures:\n");
    lemma_ascii_bytes(FAILURES);
}

/// The marker of a shutdown signal begins with a newline.
pub proof fn lemma_shutdown_marker()
    ensures
        bytes(SHUTDOWN).len() == 52,
        bytes(SHUTDOWN)[0] == 0x0A,
{
    reveal_strlit("\n##[error]The runner has received a shutdown signal.");
    lemma_ascii_bytes(SHUTDOWN);
}

/// The marker of a failed step begins with a newline.
pub proof fn lemma_failed_marker()
    ensures
        bytes(FAILED).len() == 9,
        bytes(FAILED)[0] == 0x0A,
{
    reveal_strlit("\nFAILED: ");
    lemma_ascii_bytes(FAILED);
}

} // verus!

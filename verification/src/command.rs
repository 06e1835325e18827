//! What the host reports of a spawned child process, and the uniform message
//! built when a process cannot be spawned at all.

use vstd::prelude::*;
use vstd::string::StringExecFns;

verus! {

/// The captured outcome of one finished child process: whether it exited
/// successfully, and its output streams decoded as text.
pub struct CommandOutput {
    pub success: bool,
    pub stdout: String,
    pub stderr: String,
}

/// The message reported when a program could not be spawned: the program's
/// name and the host's own error text.
pub open spec fn spawn_failure_spec(program: Seq<char>, err: Seq<char>) -> Seq<char> {
    "failed to execute "@ + program + ": "@ + err
}

/// Builds the message for a program that could not be spawned.
pub fn spawn_failure_message(program: &str, err: &str) -> (r: String)
    ensures
        r@ == spawn_failure_spec(program@, err@),
{
    let mut r = String::from_str("failed to execute ");
    r.append(program);
    r.append(": ");
    r.append(err);
    proof {
        assert(r@ =~= spawn_failure_spec(program@, err@));
    }
    r
}

/// The message reported when an operation on a path fails: what was being
/// attempted, the path, and the host's error text.
pub fn path_failure_message(action: &str, path: &str, err: &str) -> (r: String)
    ensures
        r@ == action@ + path@ + ": "@ + err@,
{
    let mut r = String::from_str(action);
    r.append(path);
    r.append(": ");
    r.append(err);
    proof {
        assert(r@ =~= action@ + path@ + ": "@ + err@);
    }
    r
}

} // verus!

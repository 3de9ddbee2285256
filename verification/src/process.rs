//! What the library makes of a user command before it runs and of what it
//! wrote once it has exited.
use vstd::prelude::*;

use crate::text::{cat, trim, trim_str};

verus! {

/// A command line with nothing but whitespace in it.
pub open spec fn blank(s: Seq<char>) -> bool {
    trim(s).len() == 0
}

/// The error of a command that exited unsuccessfully: its trimmed stderr
/// when there is any, else `<label> failed with <status>`.
pub open spec fn failure_text(label: Seq<char>, status: Seq<char>, stderr: Seq<char>) -> Seq<char> {
    if blank(stderr) {
        label + " failed with "@ + status
    } else {
        trim(stderr)
    }
}

/// Refuses a blank command line, naming the variable `name` that held
/// it.
pub fn check_command(name: &str, cmd: &str) -> (r: Result<(), String>)
    ensures
        r is Ok <==> !blank(cmd@),
        r matches Err(e) ==> e@ == name@ + " is empty"@,
{
    let t = trim_str(cmd);
    if t.as_str().is_empty() {
        Err(cat(name, " is empty"))
    } else {
        Ok(())
    }
}

/// The error of a command that exited unsuccessfully with `stderr` and
/// the exit status written as `status`.
pub fn failure(label: &str, status: &str, stderr: &str) -> (r: String)
    ensures
        r@ == failure_text(label@, status@, stderr@),
{
    let msg = trim_str(stderr);
    if msg.as_str().is_empty() {
        let mut r = cat(label, " failed with ");
        r.append(status);
        r
    } else {
        msg
    }
}

} // verus!

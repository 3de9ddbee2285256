//! Commit messages from a command of the user's choosing: the command
//! named by [`AI_CMD_ENV`] reads the diff on stdin and writes the message
//! on stdout. This module decides what to make of what it wrote; running
//! it is the caller's part.
use vstd::prelude::*;

use crate::decode::{utf8_lossy, utf8_lossy_string};
use crate::process::{blank, check_command as check_named, failure, failure_text};
use crate::text::{cat, fold_lines, folded, lemma_folded_one_line};

verus! {

/// The environment variable that names the message generator.
pub const AI_CMD_ENV: &'static str = "SHIKIGAMI_AI_CMD";

/// The message the generator gave: on success its output folded onto
/// one line (the input field holds one line), which must not be empty;
/// on failure its stderr or its exit status.
pub open spec fn spec_message(success: bool, status: Seq<char>, stdout: Seq<u8>, stderr: Seq<u8>) -> Result<
    Seq<char>,
    Seq<char>,
> {
    if !success {
        Err(failure_text(AI_CMD_ENV@, status, utf8_lossy(stderr)))
    } else if folded(utf8_lossy(stdout), " "@).len() == 0 {
        Err(AI_CMD_ENV@ + " produced no output"@)
    } else {
        Ok(folded(utf8_lossy(stdout), " "@))
    }
}

/// Refuses a blank generator command before anything runs.
pub fn check_command(cmd: &str) -> (r: Result<(), String>)
    ensures
        r is Ok <==> !blank(cmd@),
        r matches Err(e) ==> e@ == AI_CMD_ENV@ + " is empty"@,
{
    check_named(AI_CMD_ENV, cmd)
}

/// The message made of what the generator wrote, given whether it exited
/// successfully and its exit status as text.
pub fn message_from_output(success: bool, status: &str, stdout: &[u8], stderr: &[u8]) -> (r: Result<
    String,
    String,
>)
    ensures
        match r {
            Ok(m) => spec_message(success, status@, stdout@, stderr@) == Ok::<Seq<char>, Seq<char>>(m@),
            Err(e) => spec_message(success, status@, stdout@, stderr@) == Err::<Seq<char>, Seq<char>>(e@),
        },
{
    if !success {
        let err = utf8_lossy_string(stderr);
        return Err(failure(AI_CMD_ENV, status, err.as_str()));
    }
    let out = utf8_lossy_string(stdout);
    let message = fold_lines(out.as_str(), " ");
    if message.as_str().is_empty() {
        Err(cat(AI_CMD_ENV, " produced no output"))
    } else {
        Ok(message)
    }
}

/// A generated message is one non-empty line, whatever the generator
/// wrote.
pub proof fn law_message_is_one_line(success: bool, status: Seq<char>, stdout: Seq<u8>, stderr: Seq<u8>)
    ensures
        spec_message(success, status, stdout, stderr) matches Ok(m) ==> m.len() > 0 && !m.contains('\n'),
{
    assert(!(" "@).contains('\n')) by {
        reveal_strlit(" ");
        assert forall|j: int| 0 <= j < (" "@).len() implies (" "@)[j] != '\n' by {}
    }
    lemma_folded_one_line(utf8_lossy(stdout), " "@);
}

} // verus!

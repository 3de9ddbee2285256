//! A user command that recolours the diff: the command named by
//! [`DIFF_FILTER_ENV`] reads the ANSI-coloured diff on stdin and writes
//! the text the diff pane shows. This module decides what to make of what
//! it wrote; running it is the caller's part.
use vstd::prelude::*;

use crate::decode::{decode, decoded};
use crate::process::{blank, check_command as check_named, failure, failure_text};

verus! {

/// The environment variable that names the diff filter.
pub const DIFF_FILTER_ENV: &'static str = "SHIKIGAMI_DIFF_FILTER";

/// What the filter gave: its output as text on success, else its stderr
/// or its exit status.
pub open spec fn spec_filtered(success: bool, status: Seq<char>, stdout: Seq<u8>, stderr: Seq<u8>) -> Result<
    Seq<char>,
    Seq<char>,
> {
    if !success {
        Err(failure_text(DIFF_FILTER_ENV@, status, decoded(stderr)))
    } else {
        Ok(decoded(stdout))
    }
}

/// Refuses a blank filter command before anything runs.
pub fn check_command(cmd: &str) -> (r: Result<(), String>)
    ensures
        r is Ok <==> !blank(cmd@),
        r matches Err(e) ==> e@ == DIFF_FILTER_ENV@ + " is empty"@,
{
    check_named(DIFF_FILTER_ENV, cmd)
}

/// The text made of what the filter wrote, given whether it exited
/// successfully and its exit status as text.
pub fn filtered_output(success: bool, status: &str, stdout: &[u8], stderr: &[u8]) -> (r: Result<
    String,
    String,
>)
    ensures
        match r {
            Ok(t) => spec_filtered(success, status@, stdout@, stderr@) == Ok::<Seq<char>, Seq<char>>(t@),
            Err(e) => spec_filtered(success, status@, stdout@, stderr@) == Err::<Seq<char>, Seq<char>>(e@),
        },
{
    if !success {
        let err = decode(stderr);
        Err(failure(DIFF_FILTER_ENV, status, err.as_str()))
    } else {
        Ok(decode(stdout))
    }
}

} // verus!

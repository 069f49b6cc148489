//! Exit codes and the reports of failed commands.
use vstd::prelude::*;

use crate::text::{push_str, string_from_chars};

verus! {

/// The exit code that the runner passes on for a child's exit `code`
/// (`None` when the child was ended by a signal): the code itself when it
/// fits in a byte, else `None`, meaning failure.
pub fn exit_code(code: Option<i32>) -> (res: Option<u8>)
    ensures
        match code {
            Some(c) => if 0 <= c <= 255 {
                res == Some(c as u8)
            } else {
                res is None
            },
            None => res is None,
        },
{
    match code {
        Some(c) => if 0 <= c && c <= 255 {
            Some(c as u8)
        } else {
            None
        },
        None => None,
    }
}

/// The details added to the report of a command that failed: its standard
/// output and standard error, each on a line of its own and only when not
/// empty.
pub open spec fn spec_failure_details(stdout: Seq<char>, stderr: Seq<char>) -> Seq<char> {
    (if stdout.len() > 0 {
        "\nstdout: "@ + stdout
    } else {
        Seq::empty()
    }) + (if stderr.len() > 0 {
        "\nstderr: "@ + stderr
    } else {
        Seq::empty()
    })
}

pub fn failure_details(stdout: &str, stderr: &str) -> (res: String)
    ensures
        res@ == spec_failure_details(stdout@, stderr@),
{
    let mut out: Vec<char> = Vec::new();
    if !stdout.is_empty() {
        push_str(&mut out, "\nstdout: ");
        push_str(&mut out, stdout);
    }
    if !stderr.is_empty() {
        push_str(&mut out, "\nstderr: ");
        push_str(&mut out, stderr);
    }
    assert(out@ =~= spec_failure_details(stdout@, stderr@));
    string_from_chars(&out)
}

} // verus!

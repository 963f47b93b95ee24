//! The conflict-safe materialization protocol: the document is written with
//! an exclusive create, an existing file leads to an overwrite prompt, and
//! whenever no write succeeds the document goes to standard output instead,
//! so it is never lost.

use vstd::prelude::*;

use crate::model::{Confirmation, WriteOutcome, WriterAction};

verus! {

/// The byte value of `y`.
pub open spec fn yes_lower() -> u8 {
    121
}

/// The byte value of `Y`.
pub open spec fn yes_upper() -> u8 {
    89
}

/// The operator's answer, read as one raw byte: `y` or `Y` means yes, and
/// anything else — a read failure included — means no.
pub fn parse_confirmation(answer: Option<u8>) -> (r: Confirmation)
    ensures
        r == (if answer == Some(yes_lower()) || answer == Some(yes_upper()) {
            Confirmation::Yes
        } else {
            Confirmation::No
        }),
{
    match answer {
        Some(b) => {
            if b == 121 || b == 89 {
                Confirmation::Yes
            } else {
                Confirmation::No
            }
        },
        None => Confirmation::No,
    }
}

/// The step after the exclusive-create attempt: success is reported, an
/// existing file leads to the overwrite prompt, and any other failure sends
/// the document to standard output.
pub fn plan_after_create(outcome: &WriteOutcome) -> (a: WriterAction)
    ensures
        (outcome matches WriteOutcome::Created ==> a == WriterAction::ReportSuccess),
        (outcome matches WriteOutcome::AlreadyExists ==> a == WriterAction::PromptOverwrite),
        (outcome matches WriteOutcome::IOFailure(_) ==> a == WriterAction::DumpToStdout),
{
    match outcome {
        WriteOutcome::Created => WriterAction::ReportSuccess,
        WriteOutcome::AlreadyExists => WriterAction::PromptOverwrite,
        WriteOutcome::IOFailure(_) => WriterAction::DumpToStdout,
    }
}

/// The step after the prompt: yes leads to one truncating overwrite attempt,
/// no sends the document to standard output without writing anything.
pub fn plan_after_prompt(confirmation: &Confirmation) -> (a: WriterAction)
    ensures
        (confirmation matches Confirmation::Yes ==> a == WriterAction::AttemptOverwrite),
        (confirmation matches Confirmation::No ==> a == WriterAction::DumpToStdout),
{
    match confirmation {
        Confirmation::Yes => WriterAction::AttemptOverwrite,
        Confirmation::No => WriterAction::DumpToStdout,
    }
}

/// The step after the overwrite attempt: success is reported, and any failure
/// sends the document to standard output.
pub fn plan_after_overwrite(outcome: &WriteOutcome) -> (a: WriterAction)
    ensures
        (outcome matches WriteOutcome::Created ==> a == WriterAction::ReportSuccess),
        (!(outcome matches WriteOutcome::Created) ==> a == WriterAction::DumpToStdout),
{
    match outcome {
        WriteOutcome::Created => WriterAction::ReportSuccess,
        WriteOutcome::AlreadyExists => WriterAction::DumpToStdout,
        WriteOutcome::IOFailure(_) => WriterAction::DumpToStdout,
    }
}

} // verus!

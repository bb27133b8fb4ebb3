//! How a command fails: the message for the user and the exit code for scripts.

use vstd::prelude::*;

use crate::text::same_words;

verus! {

/// The request reached the server, or the local files, and was turned down.
pub const EXIT_REJECTED: i32 = 1;

/// The command was used in a way that cannot work.
pub const EXIT_USAGE: i32 = 2;

/// The competition server, or a local service, could not be reached.
/// A script may try again on this code, and on this code alone.
pub const EXIT_SERVICE: i32 = 3;

/// Why a command failed.
#[derive(Debug)]
pub struct Failure {
    pub message: String,
    pub code: i32,
}

/// What a [`Failure`] says.
pub struct FailureView {
    pub message: Seq<char>,
    pub code: i32,
}

impl View for Failure {
    type V = FailureView;

    open spec fn view(&self) -> FailureView {
        FailureView { message: self.message@, code: self.code }
    }
}

impl FailureView {
    pub open spec fn rejected(message: Seq<char>) -> FailureView {
        FailureView { message, code: EXIT_REJECTED }
    }

    pub open spec fn usage(message: Seq<char>) -> FailureView {
        FailureView { message, code: EXIT_USAGE }
    }

    pub open spec fn service(message: Seq<char>) -> FailureView {
        FailureView { message, code: EXIT_SERVICE }
    }
}

impl Failure {
    /// A request that was turned down.
    pub fn rejected(message: String) -> (r: Failure)
        ensures
            r@ == FailureView::rejected(message@),
    {
        Failure { message, code: EXIT_REJECTED }
    }

    /// A command that cannot work as given.
    pub fn usage(message: String) -> (r: Failure)
        ensures
            r@ == FailureView::usage(message@),
    {
        Failure { message, code: EXIT_USAGE }
    }

    /// A service that could not be reached.
    pub fn service(message: String) -> (r: Failure)
        ensures
            r@ == FailureView::service(message@),
    {
        Failure { message, code: EXIT_SERVICE }
    }
}

/// Two failures of one kind say the same of different values.
pub open spec fn told_alike(
    a: FailureView,
    a_values: Seq<Seq<char>>,
    b: FailureView,
    b_values: Seq<Seq<char>>,
) -> bool {
    a.code == b.code && same_words(a.message, a_values, b.message, b_values)
}

/// A failure carries its message as it was given, whatever it is, under one code for each
/// of the three kinds; and what is seen of a failure is what it holds.
pub proof fn law_failures_keep_their_message(message: Seq<char>, other: Seq<char>, failure: Failure)
    ensures
        FailureView::rejected(message).message == message,
        FailureView::usage(message).message == message,
        FailureView::service(message).message == message,
        FailureView::rejected(message).code == FailureView::rejected(other).code,
        FailureView::usage(message).code == FailureView::usage(other).code,
        FailureView::service(message).code == FailureView::service(other).code,
        FailureView::rejected(message).code != FailureView::usage(message).code,
        FailureView::usage(message).code != FailureView::service(message).code,
        FailureView::service(message).code != FailureView::rejected(message).code,
        failure@.message == failure.message@,
        failure@.code == failure.code,
{
}

} // verus!

//! Finding the repository to submit from.
//!
//! A directory that the user names is the repository or nothing is. Otherwise the search
//! starts in the current directory and climbs, so that it works from anywhere inside.

use vstd::prelude::*;

use crate::failure::{told_alike, Failure, FailureView};
use crate::sources::ALLOWED_FILE;
use crate::text::{lemma_same_words, lemma_same_words_two, same_words};

verus! {

/// What follows a look at a directory.
#[derive(Debug)]
pub enum SearchStep {
    /// The directory is the repository.
    Found,
    /// Look at the directory above.
    Climb,
    /// There is no repository.
    Fail(Failure),
}

/// What a [`SearchStep`] says.
pub enum SearchStepView {
    Found,
    Climb,
    Fail(FailureView),
}

impl View for SearchStep {
    type V = SearchStepView;

    open spec fn view(&self) -> SearchStepView {
        match *self {
            SearchStep::Found => SearchStepView::Found,
            SearchStep::Climb => SearchStepView::Climb,
            SearchStep::Fail(failure) => SearchStepView::Fail(failure@),
        }
    }
}

/// Neither `start` nor a directory above it is a repository.
pub open spec fn no_repository(start: Seq<char>) -> FailureView {
    FailureView::usage(
        "No baseline repository here. "@ + start + " and none of its parents contain "@
            + ALLOWED_FILE@
            + ".\nRun this inside your clone of the baseline, or pass --source <path>."@,
    )
}

/// The directory that the user named is no repository.
pub open spec fn not_a_repository(root: Seq<char>) -> FailureView {
    FailureView::usage(root + " is not a baseline checkout: it has no "@ + ALLOWED_FILE@ + "."@)
}

/// What follows a look at a directory: whether it holds the file that every repository
/// has, and whether there is a directory above it.
pub open spec fn search(start: Seq<char>, has_file: bool, has_parent: bool) -> SearchStepView {
    if has_file {
        SearchStepView::Found
    } else if has_parent {
        SearchStepView::Climb
    } else {
        SearchStepView::Fail(no_repository(start))
    }
}

/// What follows a look at a directory. `start` is where the search started.
pub fn search_step(start: &str, has_file: bool, has_parent: bool) -> (r: SearchStep)
    ensures
        r@ == search(start@, has_file, has_parent),
{
    if has_file {
        SearchStep::Found
    } else if has_parent {
        SearchStep::Climb
    } else {
        SearchStep::Fail(
            Failure::usage(
                "No baseline repository here. ".to_owned().concat(start).concat(
                    " and none of its parents contain ",
                ).concat(ALLOWED_FILE).concat(
                    ".\nRun this inside your clone of the baseline, or pass --source <path>.",
                ),
            ),
        )
    }
}

/// Whether the directory that the user named is a repository.
pub fn check_source(root: &str, has_file: bool) -> (r: Result<(), Failure>)
    ensures
        match r {
            Ok(_) => has_file,
            Err(failure) => !has_file && failure@ == not_a_repository(root@),
        },
{
    if has_file {
        Ok(())
    } else {
        Err(
            Failure::usage(
                root.to_owned().concat(" is not a baseline checkout: it has no ").concat(
                    ALLOWED_FILE,
                ).concat("."),
            ),
        )
    }
}

/// The directory that the user named could not be opened.
pub open spec fn cannot_open(given: Seq<char>, reason: Seq<char>) -> FailureView {
    FailureView::usage("Cannot open --source "@ + given + ": "@ + reason)
}

/// The current directory could not be read.
pub open spec fn no_current_dir(reason: Seq<char>) -> FailureView {
    FailureView::usage("Cannot read the current directory: "@ + reason)
}

/// The line that names the repository that is submitted.
pub open spec fn repository_text(root: Seq<char>) -> Seq<char> {
    "Repository:   "@ + root
}

/// The directory that the user named could not be opened.
pub fn source_failure(given: &str, reason: &str) -> (r: Failure)
    ensures
        r@ == cannot_open(given@, reason@),
        r@ == FailureView::usage("Cannot open --source "@ + given@ + ": "@ + reason@),
{
    Failure::usage("Cannot open --source ".to_owned().concat(given).concat(": ").concat(reason))
}

/// The current directory could not be read.
pub fn current_dir_failure(reason: &str) -> (r: Failure)
    ensures
        r@ == no_current_dir(reason@),
        r@ == FailureView::usage("Cannot read the current directory: "@ + reason@),
{
    Failure::usage("Cannot read the current directory: ".to_owned().concat(reason))
}

/// The line that names the repository that is submitted.
pub fn repository_line(root: &str) -> (r: String)
    ensures
        r@ == repository_text(root@),
        r@ == "Repository:   "@ + root@,
{
    "Repository:   ".to_owned().concat(root)
}

/// Where a search ends that has come to directory `at`: at the directory that it finds, or
/// nowhere. The directories are counted from the one in which the search starts; each
/// entry says whether the directory holds the file that every repository has.
pub open spec fn search_end(start: Seq<char>, has_file: Seq<bool>, at: int) -> Option<int>
    decreases has_file.len() - at,
{
    if at < 0 || at >= has_file.len() {
        None
    } else {
        match search(start, has_file[at], at + 1 < has_file.len()) {
            SearchStepView::Found => Some(at),
            SearchStepView::Climb => search_end(start, has_file, at + 1),
            SearchStepView::Fail(_) => None,
        }
    }
}

proof fn lemma_search_end(start: Seq<char>, has_file: Seq<bool>, at: int)
    requires
        0 <= at < has_file.len(),
        forall|i: int| 0 <= i < at ==> !has_file[i],
    ensures
        match search_end(start, has_file, at) {
            Some(k) => at <= k < has_file.len() && has_file[k] && forall|i: int|
                0 <= i < k ==> !has_file[i],
            None => forall|i: int| 0 <= i < has_file.len() ==> !has_file[i],
        },
    decreases has_file.len() - at,
{
    if !has_file[at] && at + 1 < has_file.len() {
        lemma_search_end(start, has_file, at + 1);
    }
}

/// From anywhere inside a repository the search finds the nearest one: the first directory
/// on the way up that is a repository, and none only if there is none on the whole way.
pub proof fn law_search_finds_the_nearest(start: Seq<char>, has_file: Seq<bool>)
    requires
        has_file.len() > 0,
    ensures
        match search_end(start, has_file, 0) {
            Some(k) => 0 <= k < has_file.len() && has_file[k] && forall|i: int|
                0 <= i < k ==> !has_file[i],
            None => forall|i: int| 0 <= i < has_file.len() ==> !has_file[i],
        },
{
    lemma_search_end(start, has_file, 0);
}

/// What is said of a directory holds all of its path, and all of the reason where there is
/// one, between the same words.
pub proof fn law_directories_are_named(x: (Seq<char>, Seq<char>), y: (Seq<char>, Seq<char>))
    ensures
        told_alike(no_repository(x.0), seq![x.0], no_repository(y.0), seq![y.0]),
        told_alike(not_a_repository(x.0), seq![x.0], not_a_repository(y.0), seq![y.0]),
        told_alike(cannot_open(x.0, x.1), seq![x.0, x.1], cannot_open(y.0, y.1), seq![y.0, y.1]),
        told_alike(no_current_dir(x.1), seq![x.1], no_current_dir(y.1), seq![y.1]),
        same_words(repository_text(x.0), seq![x.0], repository_text(y.0), seq![y.0]),
{
    let no = Seq::<char>::empty();
    let p = "No baseline repository here. "@;
    let q = " and none of its parents contain "@ + ALLOWED_FILE@
        + ".\nRun this inside your clone of the baseline, or pass --source <path>."@;
    lemma_same_words(p, q, x.0, y.0);
    assert(no_repository(x.0).message =~= p + x.0 + q);
    assert(no_repository(y.0).message =~= p + y.0 + q);
    let r = " is not a baseline checkout: it has no "@ + ALLOWED_FILE@ + "."@;
    lemma_same_words(no, r, x.0, y.0);
    assert(not_a_repository(x.0).message =~= no + x.0 + r);
    assert(not_a_repository(y.0).message =~= no + y.0 + r);
    lemma_same_words_two("Cannot open --source "@, ": "@, no, x, y);
    assert(cannot_open(x.0, x.1).message =~= "Cannot open --source "@ + x.0 + ": "@ + x.1 + no);
    assert(cannot_open(y.0, y.1).message =~= "Cannot open --source "@ + y.0 + ": "@ + y.1 + no);
    lemma_same_words("Cannot read the current directory: "@, no, x.1, y.1);
    assert(no_current_dir(x.1).message =~= "Cannot read the current directory: "@ + x.1 + no);
    assert(no_current_dir(y.1).message =~= "Cannot read the current directory: "@ + y.1 + no);
    lemma_same_words("Repository:   "@, no, x.0, y.0);
    assert(repository_text(x.0) =~= "Repository:   "@ + x.0 + no);
    assert(repository_text(y.0) =~= "Repository:   "@ + y.0 + no);
}

/// A directory that holds the file is the repository, wherever it lies; a search that
/// reaches the top without one fails by telling where it started; and what is seen of a
/// step is what it holds.
pub proof fn law_search_steps(start: Seq<char>, has_parent: bool, failure: Failure)
    ensures
        search(start, true, has_parent) is Found,
        search(start, false, true) is Climb,
        search(start, false, false) == SearchStepView::Fail(no_repository(start)),
        SearchStep::Found@ is Found,
        SearchStep::Climb@ is Climb,
        SearchStep::Fail(failure)@ == SearchStepView::Fail(failure@),
{
}

} // verus!

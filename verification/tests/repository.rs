use moa_submitter::failure::EXIT_USAGE;
use moa_submitter::repository::{
    check_source, current_dir_failure, repository_line, search_step, source_failure, SearchStep,
};

fn climb(has_file: &[bool]) -> Option<usize> {
    for (at, found) in has_file.iter().enumerate() {
        match search_step("/a/b", *found, at + 1 < has_file.len()) {
            SearchStep::Found => return Some(at),
            SearchStep::Climb => {}
            SearchStep::Fail(_) => return None,
        }
    }
    None
}

#[test]
fn the_nearest_repository_is_found() {
    assert_eq!(climb(&[true, true]), Some(0));
    assert_eq!(climb(&[false, false, true, true]), Some(2));
    assert_eq!(climb(&[false, false, false]), None);
}

#[test]
fn a_search_that_reaches_the_top_fails() {
    match search_step("/a/b", false, false) {
        SearchStep::Fail(failure) => {
            assert_eq!(
                failure.message,
                "No baseline repository here. /a/b and none of its parents contain src/ops.rs.\n\
                 Run this inside your clone of the baseline, or pass --source <path>."
            );
            assert_eq!(failure.code, EXIT_USAGE);
        }
        other => panic!("{other:?}"),
    }
}

#[test]
fn a_named_directory_is_the_repository_or_none_is() {
    assert!(check_source("/a", true).is_ok());
    let failure = check_source("/a", false).unwrap_err();
    assert_eq!(failure.message, "/a is not a baseline checkout: it has no src/ops.rs.");
    assert_eq!(failure.code, EXIT_USAGE);
}

#[test]
fn directories_that_cannot_be_opened_are_named() {
    let failure = source_failure("/x", "not found");
    assert_eq!(failure.message, "Cannot open --source /x: not found");
    assert_eq!(failure.code, EXIT_USAGE);
    let failure = current_dir_failure("gone");
    assert_eq!(failure.message, "Cannot read the current directory: gone");
    assert_eq!(failure.code, EXIT_USAGE);
}

#[test]
fn the_repository_is_named() {
    assert_eq!(repository_line("/home/me/clone"), "Repository:   /home/me/clone");
}

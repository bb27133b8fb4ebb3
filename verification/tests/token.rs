use moa_submitter::failure::{EXIT_REJECTED, EXIT_SERVICE};
use moa_submitter::token::{
    config_dir, load_token, store_failure, token_file_content, token_path, Base, StoreStep,
    TokenFile, TokenStep, TOKEN_FILE_MODE,
};

fn used(step: TokenStep) -> String {
    match step {
        TokenStep::Use(token) => token,
        other => panic!("{other:?}"),
    }
}

#[test]
fn xdg_comes_before_home() {
    let dir = config_dir(Some(4), Some(5)).unwrap();
    assert_eq!(dir.base, Base::XdgConfigHome);
    assert_eq!(dir.names, vec!["moa-submitter"]);
    let path = token_path(Some(4), None).unwrap();
    assert_eq!(path.base, Base::XdgConfigHome);
    assert_eq!(path.names, vec!["moa-submitter", "token"]);
}

#[test]
fn an_empty_variable_counts_as_unset() {
    let dir = config_dir(Some(0), Some(5)).unwrap();
    assert_eq!(dir.base, Base::Home);
    assert_eq!(dir.names, vec![".config", "moa-submitter"]);
    let path = token_path(None, Some(1)).unwrap();
    assert_eq!(path.base, Base::Home);
    assert_eq!(path.names, vec![".config", "moa-submitter", "token"]);
}

#[test]
fn without_a_home_there_is_no_place_for_a_token() {
    for (xdg, home) in [(None, None), (Some(0), None), (None, Some(0)), (Some(0), Some(0))] {
        for failure in [config_dir(xdg, home).unwrap_err(), token_path(xdg, home).unwrap_err()] {
            assert_eq!(failure.message, "Cannot find your home directory ($HOME is not set).");
            assert_eq!(failure.code, EXIT_SERVICE);
        }
    }
}

#[test]
fn the_environment_token_wins() {
    assert_eq!(used(load_token(Some(" env \n"), TokenFile::Content("file"))), "env");
    assert_eq!(used(load_token(Some("env"), TokenFile::NotRead)), "env");
    assert_eq!(used(load_token(Some("env"), TokenFile::Unreadable)), "env");
}

#[test]
fn a_blank_variable_leads_to_the_file() {
    assert!(matches!(load_token(Some(" \t"), TokenFile::NotRead), TokenStep::ReadFile));
    assert!(matches!(load_token(None, TokenFile::NotRead), TokenStep::ReadFile));
    assert_eq!(used(load_token(Some("  "), TokenFile::Content("file\n"))), "file");
}

#[test]
fn without_a_token_the_user_is_told_to_log_in() {
    match load_token(None, TokenFile::Unreadable) {
        TokenStep::Fail(failure) => {
            assert_eq!(
                failure.message,
                "You are not logged in. Run `moa-submitter login` first."
            );
            assert_eq!(failure.code, EXIT_REJECTED);
        }
        other => panic!("{other:?}"),
    }
    for content in ["", "\n", " \t\r\n"] {
        match load_token(None, TokenFile::Content(content)) {
            TokenStep::Fail(failure) => {
                assert_eq!(
                    failure.message,
                    "Your stored token is empty. Run `moa-submitter login` again."
                );
                assert_eq!(failure.code, EXIT_REJECTED);
            }
            other => panic!("{other:?}"),
        }
    }
}

#[test]
fn a_stored_token_is_the_one_that_is_used() {
    for token in ["abc", "a b", "토큰"] {
        let content = token_file_content(token);
        assert_eq!(content, format!("{token}\n"));
        assert_eq!(used(load_token(None, TokenFile::Content(&content))), token);
    }
}

#[test]
fn storing_fails_as_a_service() {
    let made = store_failure(StoreStep::CreateDirectory, "/c", "no space");
    assert_eq!(made.message, "Cannot create /c: no space");
    assert_eq!(made.code, EXIT_SERVICE);
    let written = store_failure(StoreStep::WriteFile, "/c/token", "denied");
    assert_eq!(written.message, "Cannot write /c/token: denied");
    assert_eq!(written.code, EXIT_SERVICE);
    assert_eq!(TOKEN_FILE_MODE, 0o600);
}

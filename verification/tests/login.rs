use moa_submitter::failure::{Failure, EXIT_REJECTED, EXIT_SERVICE};
use moa_submitter::http::HttpError;
use moa_submitter::login::{
    browser_command, login_prompt_lines, waiting_line, DevicePoll, DeviceStart, Login, LoginEvent,
    LoginNext, Platform, PollOutcome,
};

fn device(interval: Option<u64>) -> DeviceStart {
    DeviceStart {
        device_code: "dev code".to_string(),
        user_code: "ABCD-1234".to_string(),
        verification_url: "https://github.com/login/device".to_string(),
        interval,
    }
}

fn polling() -> Login {
    Login::start("https://h", &device(None)).step(LoginEvent::Elapsed(0))
}

fn answer(status: &str, token: Option<&str>, user: Option<&str>) -> LoginEvent {
    LoginEvent::Polled(PollOutcome::Answer(DevicePoll {
        status: status.to_string(),
        token: token.map(str::to_string),
        user: user.map(str::to_string),
    }))
}

fn error(code: u16, body: &str) -> LoginEvent {
    LoginEvent::Polled(PollOutcome::Error(HttpError::Status { code, body: body.to_string() }))
}

fn failed(login: Login) -> Failure {
    match login.next {
        LoginNext::Fail(failure) => failure,
        other => panic!("{other:?}"),
    }
}

#[test]
fn the_interval_is_kept_within_bounds() {
    for (asked, kept) in
        [(None, 5), (Some(0), 1), (Some(1), 1), (Some(7), 7), (Some(60), 60), (Some(61), 60)]
    {
        assert_eq!(Login::start("s", &device(asked)).interval, kept);
    }
}

#[test]
fn a_login_asks_at_its_own_address() {
    let login = Login::start("https://h", &device(None));
    assert_eq!(login.poll_url, "https://h/api/cli-auth/poll?device_code=dev%20code");
    assert!(matches!(login.next, LoginNext::CheckClock));
}

#[test]
fn the_user_is_told_where_to_go() {
    assert_eq!(
        login_prompt_lines(&device(None)),
        vec!["Your one-time code: ABCD-1234\n", "Enter it at:\n\n  https://github.com/login/device\n"]
    );
    assert_eq!(waiting_line(), "Waiting for you to finish in the browser... (Ctrl-C to cancel)");
}

#[test]
fn a_login_times_out_after_ten_minutes() {
    let login = Login::start("s", &device(None)).step(LoginEvent::Elapsed(599));
    assert!(matches!(login.next, LoginNext::Poll));
    let late = Login::start("s", &device(None)).step(LoginEvent::Elapsed(600));
    let failure = failed(late);
    assert_eq!(
        failure.message,
        "Login timed out after 10 minutes. Run `moa-submitter login` to try again."
    );
    assert_eq!(failure.code, EXIT_REJECTED);
}

#[test]
fn a_login_goes_on_through_lost_connections() {
    let lost = LoginEvent::Polled(PollOutcome::Error(HttpError::Transport {
        message: "reset".to_string(),
    }));
    let login = polling().step(lost);
    assert!(matches!(login.next, LoginNext::CheckClock));
    let login = login.step(LoginEvent::Elapsed(30));
    assert!(matches!(login.next, LoginNext::Poll));
    let login = login.step(answer("pending", Some("t"), None));
    assert!(matches!(login.next, LoginNext::CheckClock));
}

#[test]
fn an_error_status_ends_a_login() {
    let failure = failed(polling().step(error(404, "gone")));
    assert_eq!(
        failure.message,
        "This login request expired. Run `moa-submitter login` to try again."
    );
    assert_eq!(failure.code, EXIT_REJECTED);
    let failure = failed(polling().step(error(403, "{\"message\":\"not on the list\"}")));
    assert_eq!(failure.message, "not on the list");
    assert_eq!(failure.code, EXIT_REJECTED);
    let failure = failed(polling().step(error(500, "")));
    assert_eq!(failure.code, EXIT_SERVICE);
}

#[test]
fn an_unreadable_login_reply_ends_a_login() {
    let event = LoginEvent::Polled(PollOutcome::Unreadable("eof".to_string()));
    let failure = failed(polling().step(event));
    assert_eq!(failure.message, "The server sent a login reply we could not read: eof");
    assert_eq!(failure.code, EXIT_SERVICE);
}

#[test]
fn an_authorized_login_saves_the_token() {
    let login = polling().step(answer("authorized", Some("tok"), Some("octocat")));
    match &login.next {
        LoginNext::Save { token, user } => {
            assert_eq!(token, "tok");
            assert_eq!(user.as_deref(), Some("octocat"));
        }
        other => panic!("{other:?}"),
    }
    let login = login.step(LoginEvent::Saved(Ok("/c/token".to_string())));
    match login.next {
        LoginNext::Done(lines) => assert_eq!(
            lines,
            vec!["\nLogged in as octocat.", "Token saved to /c/token (valid for 30 days)."]
        ),
        other => panic!("{other:?}"),
    }
}

#[test]
fn an_account_without_a_name_is_logged_in_as_well() {
    let login = polling()
        .step(answer("authorized", Some("tok"), None))
        .step(LoginEvent::Saved(Ok("p".to_string())));
    match login.next {
        LoginNext::Done(lines) => assert_eq!(lines[0], "\nLogged in as your GitHub account."),
        other => panic!("{other:?}"),
    }
}

#[test]
fn an_authorized_login_without_a_token_fails() {
    let failure = failed(polling().step(answer("authorized", None, Some("octocat"))));
    assert_eq!(failure.message, "The server authorized the login but sent no token.");
    assert_eq!(failure.code, EXIT_SERVICE);
}

#[test]
fn a_token_that_cannot_be_stored_fails_the_login() {
    let login = polling().step(answer("authorized", Some("tok"), None)).step(LoginEvent::Saved(
        Err(Failure::service("Cannot write /c/token: denied".to_string())),
    ));
    assert_eq!(failed(login).message, "Cannot write /c/token: denied");
}

#[test]
fn events_that_answer_nothing_change_nothing() {
    let login = polling().step(LoginEvent::Elapsed(9999));
    assert!(matches!(login.next, LoginNext::Poll));
    assert_eq!(login.interval, 5);
    let login = login.step(LoginEvent::Saved(Ok("p".to_string())));
    assert!(matches!(login.next, LoginNext::Poll));
}

#[test]
fn each_platform_has_its_way_to_open_a_page() {
    let mac = browser_command(Platform::MacOs, "u");
    assert_eq!((mac.program.as_str(), mac.args), ("open", vec!["u".to_string()]));
    let windows = browser_command(Platform::Windows, "u");
    assert_eq!(windows.program, "cmd");
    assert_eq!(windows.args, vec!["/C", "start", "", "u"]);
    let other = browser_command(Platform::Other, "u");
    assert_eq!((other.program.as_str(), other.args), ("xdg-open", vec!["u".to_string()]));
}

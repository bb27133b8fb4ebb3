use moa_submitter::failure::{Failure, EXIT_REJECTED, EXIT_SERVICE, EXIT_USAGE};
use moa_submitter::http::{
    explain_status, unwrap_response, Attempt, FetchEvent, FetchNext, Fetching, HttpError, Retrying,
};

fn status(code: u16, body: &str) -> HttpError {
    HttpError::Status { code, body: body.to_string() }
}

fn transport(message: &str) -> HttpError {
    HttpError::Transport { message: message.to_string() }
}

fn told(code: u16, body: &str) -> (String, i32) {
    let failure = unwrap_response(status(code, body), "try");
    (failure.message, failure.code)
}

#[test]
fn failures_carry_their_exit_codes() {
    assert_eq!(Failure::rejected("a".to_string()).code, 1);
    assert_eq!(Failure::usage("b".to_string()).code, 2);
    assert_eq!(Failure::service("c".to_string()).code, 3);
    assert_eq!(Failure::service("c".to_string()).message, "c");
    assert_eq!((EXIT_REJECTED, EXIT_USAGE, EXIT_SERVICE), (1, 2, 3));
}

#[test]
fn the_message_of_the_body_is_told() {
    assert_eq!(told(409, "{\"message\": \"too soon\", \"x\": 1}"), ("too soon".to_string(), 1));
    assert_eq!(told(400, "{\"message\": \"a \\\"b\\\"\\n\\u00e5\"}"), ("a \"b\"\nå".to_string(), 1));
    assert_eq!(told(400, "{\"message\": \"\"}"), ("".to_string(), 1));
}

#[test]
fn a_body_without_a_message_is_told_as_it_is() {
    assert_eq!(told(400, "  plain text\n"), ("plain text".to_string(), 1));
    assert_eq!(told(400, "{\"message\": 3}"), ("{\"message\": 3}".to_string(), 1));
    assert_eq!(told(400, "[\"message\"]"), ("[\"message\"]".to_string(), 1));
    assert_eq!(told(400, "{\"error\": \"no\"}"), ("{\"error\": \"no\"}".to_string(), 1));
    assert_eq!(told(400, "{\"message\": \"cut"), ("{\"message\": \"cut".to_string(), 1));
}

#[test]
fn an_empty_body_is_told_by_its_code() {
    assert_eq!(told(404, ""), ("the server answered with HTTP 404".to_string(), 1));
    assert_eq!(told(418, " \n"), ("the server answered with HTTP 418".to_string(), 1));
}

#[test]
fn a_bad_token_asks_for_a_login() {
    let advice = "\nRun `moa-submitter login` to get a new token.";
    assert_eq!(told(401, "who?"), (format!("who?{advice}"), 1));
    assert_eq!(told(403, "bad token"), (format!("bad token{advice}"), 1));
    assert_eq!(told(403, "not on the list"), ("not on the list".to_string(), 1));
    assert_eq!(told(400, "bad token"), ("bad token".to_string(), 1));
}

#[test]
fn trouble_on_the_server_is_a_service_failure() {
    let trouble = "The competition server is having trouble: ";
    assert_eq!(told(500, "oops"), (format!("{trouble}oops"), 3));
    assert_eq!(told(599, ""), (format!("{trouble}the server answered with HTTP 599"), 3));
    assert_eq!(told(600, "odd"), ("odd".to_string(), 1));
    assert_eq!(told(499, "odd"), ("odd".to_string(), 1));
}

#[test]
fn an_unreachable_server_is_a_service_failure() {
    let failure = unwrap_response(transport("timed out"), "list your submissions");
    assert_eq!(
        failure.message,
        "Cannot reach the competition server while trying to list your submissions: timed out"
    );
    assert_eq!(failure.code, 3);
}

#[test]
fn a_message_that_is_given_is_told() {
    let failure = explain_status(401, "ignored", Some("m".to_string()));
    assert_eq!(failure.message, "m\nRun `moa-submitter login` to get a new token.");
    let failure = explain_status(503, " busy ", None);
    assert_eq!(failure.message, "The competition server is having trouble: busy");
}

#[test]
fn failed_connections_are_tried_three_times() {
    let mut retrying = Retrying::start();
    assert!(matches!(retrying.judge(Some(transport("a")), "x"), Attempt::Again { seconds: 1 }));
    assert!(matches!(retrying.judge(Some(transport("b")), "x"), Attempt::Again { seconds: 2 }));
    match retrying.judge(Some(transport("c")), "x") {
        Attempt::Failed(failure) => {
            assert_eq!(
                failure.message,
                "Cannot reach the competition server while trying to x: c"
            );
            assert_eq!(failure.code, EXIT_SERVICE);
        }
        other => panic!("{other:?}"),
    }
}

#[test]
fn answers_are_not_asked_for_again() {
    let mut retrying = Retrying::start();
    assert!(matches!(retrying.judge(Some(status(503, "busy")), "x"), Attempt::Failed(_)));
    let mut retrying = Retrying::start();
    assert!(matches!(retrying.judge(None, "x"), Attempt::Answered));
    let mut retrying = Retrying::start();
    assert!(matches!(retrying.judge(Some(transport("a")), "x"), Attempt::Again { seconds: 1 }));
    assert!(matches!(retrying.judge(None, "x"), Attempt::Answered));
}

#[test]
fn fetching_sends_reads_and_is_done() {
    let f = Fetching::start("read the log", "The server sent a log we could not read");
    assert!(matches!(f.next, FetchNext::Send { wait: 0 }));
    let f = f.step(FetchEvent::Sent(Some(transport("a"))));
    assert!(matches!(f.next, FetchNext::Send { wait: 1 }));
    let f = f.step(FetchEvent::Read(Ok(())));
    assert!(matches!(f.next, FetchNext::Send { wait: 1 }));
    let f = f.step(FetchEvent::Sent(Some(transport("a"))));
    assert!(matches!(f.next, FetchNext::Send { wait: 2 }));
    let f = f.step(FetchEvent::Sent(None));
    assert!(matches!(f.next, FetchNext::Read));
    let f = f.step(FetchEvent::Read(Ok(())));
    assert!(matches!(f.next, FetchNext::Done));
}

#[test]
fn fetching_fails_with_what_it_was_trying() {
    let f = Fetching::start("read the log", "The server sent a log we could not read");
    let f = f.step(FetchEvent::Sent(None)).step(FetchEvent::Read(Err("bad".to_string())));
    match f.next {
        FetchNext::Fail(failure) => {
            assert_eq!(failure.message, "The server sent a log we could not read: bad");
            assert_eq!(failure.code, EXIT_SERVICE);
        }
        other => panic!("{other:?}"),
    }
    let mut f = Fetching::start("read the log", "u");
    for _ in 0..3 {
        f = f.step(FetchEvent::Sent(Some(transport("down"))));
    }
    match f.next {
        FetchNext::Fail(failure) => {
            assert_eq!(
                failure.message,
                "Cannot reach the competition server while trying to read the log: down"
            );
        }
        other => panic!("{other:?}"),
    }
}

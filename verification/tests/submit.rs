use moa_submitter::failure::{Failure, EXIT_REJECTED, EXIT_SERVICE};
use moa_submitter::http::HttpError;
use moa_submitter::sources::Upload;
use moa_submitter::submit::{payloads, Created, SubmitEvent, SubmitNext, Submitting};

fn transport() -> Option<HttpError> {
    Some(HttpError::Transport { message: "reset".to_string() })
}

fn status(code: u16, body: &str) -> Option<HttpError> {
    Some(HttpError::Status { code, body: body.to_string() })
}

fn uploading() -> Submitting {
    Submitting::start().step(SubmitEvent::Health(None))
}

fn failed(submitting: Submitting) -> Failure {
    match submitting.next {
        SubmitNext::Fail(failure) => failure,
        other => panic!("{other:?}"),
    }
}

#[test]
fn contents_are_sent_in_base64() {
    let files: Vec<Upload> = [
        ("a", b"".to_vec()),
        ("b", b"f".to_vec()),
        ("c", b"fo".to_vec()),
        ("d", b"foo".to_vec()),
        ("e", b"hello internet~".to_vec()),
        ("f", vec![0xfb, 0xff, 0xfe]),
    ]
    .into_iter()
    .map(|(path, bytes)| Upload { path: path.to_string(), bytes })
    .collect();
    let sent = payloads(&files);
    let texts: Vec<(&str, &str)> =
        sent.iter().map(|p| (p.path.as_str(), p.content_base64.as_str())).collect();
    assert_eq!(
        texts,
        vec![
            ("a", ""),
            ("b", "Zg=="),
            ("c", "Zm8="),
            ("d", "Zm9v"),
            ("e", "aGVsbG8gaW50ZXJuZXR+"),
            ("f", "+//+"),
        ]
    );
}

#[test]
fn base64_takes_six_bits_at_a_time() {
    let alphabet: Vec<char> = ('A'..='Z').chain('a'..='z').chain('0'..='9').chain(['+', '/']).collect();
    let mut files: Vec<Upload> = Vec::new();
    for len in 0..130usize {
        let bytes: Vec<u8> = (0..len).map(|i| (i * i * 31 + i * 7 + len * 13) as u8).collect();
        files.push(Upload { path: format!("f{len}"), bytes });
    }
    let sent = payloads(&files);
    let mut seen: Vec<char> = Vec::new();
    for (file, payload) in files.iter().zip(&sent) {
        let mut bits: Vec<u8> = Vec::new();
        for byte in &file.bytes {
            bits.extend((0..8).rev().map(|place| byte >> place & 1));
        }
        while bits.len() % 6 != 0 {
            bits.push(0);
        }
        let mut expected: String = bits
            .chunks(6)
            .map(|six| alphabet[six.iter().fold(0usize, |value, bit| value * 2 + *bit as usize)])
            .collect();
        while expected.len() % 4 != 0 {
            expected.push('=');
        }
        assert_eq!(payload.content_base64, expected);
        assert_eq!(payload.path, file.path);
        seen.extend(expected.chars());
    }
    assert!(alphabet.iter().all(|c| seen.contains(c)));
    for (i, one) in sent.iter().enumerate() {
        assert!(sent[i + 1..].iter().all(|other| other.content_base64 != one.content_base64));
    }
}

#[test]
fn a_submission_is_made_in_three_steps() {
    let s = Submitting::start();
    assert!(matches!(s.next, SubmitNext::CheckHealth { wait: 0 }));
    let s = s.step(SubmitEvent::Health(None));
    assert!(matches!(s.next, SubmitNext::Upload));
    let s = s.step(SubmitEvent::Uploaded(None));
    assert!(matches!(s.next, SubmitNext::ReadReply));
    let s = s.step(SubmitEvent::Reply(Ok(Created {
        team_name: "Team A".to_string(),
        submission_id: "s-1".to_string(),
    })));
    match s.next {
        SubmitNext::Done(lines) => assert_eq!(
            lines,
            vec![
                "",
                "Submitted as: Team A",
                "Submission:   s-1",
                "",
                "Track it with:  moa-submitter status",
                "Read the log:   moa-submitter log s-1",
            ]
        ),
        other => panic!("{other:?}"),
    }
}

#[test]
fn nothing_is_sent_to_a_server_that_cannot_be_reached() {
    let s = Submitting::start().step(SubmitEvent::Health(transport()));
    assert!(matches!(s.next, SubmitNext::CheckHealth { wait: 1 }));
    let s = s.step(SubmitEvent::Uploaded(None));
    assert!(matches!(s.next, SubmitNext::CheckHealth { wait: 1 }));
    let s = s.step(SubmitEvent::Health(transport()));
    assert!(matches!(s.next, SubmitNext::CheckHealth { wait: 2 }));
    let failure = failed(s.step(SubmitEvent::Health(transport())));
    assert_eq!(
        failure.message,
        "Cannot reach the competition server while trying to reach the competition server: reset"
    );
    assert_eq!(failure.code, EXIT_SERVICE);
    let failure = failed(Submitting::start().step(SubmitEvent::Health(status(500, "down"))));
    assert_eq!(failure.message, "The competition server is having trouble: down");
}

#[test]
fn a_server_that_answers_late_is_reached() {
    let s = Submitting::start()
        .step(SubmitEvent::Health(transport()))
        .step(SubmitEvent::Health(transport()))
        .step(SubmitEvent::Health(None));
    assert!(matches!(s.next, SubmitNext::Upload));
}

#[test]
fn a_broken_upload_is_not_sent_again() {
    let s = uploading().step(SubmitEvent::Uploaded(transport()));
    let s = s.step(SubmitEvent::Health(None)).step(SubmitEvent::Uploaded(None));
    let failure = failed(s);
    assert_eq!(
        failure.message,
        "The upload did not complete: reset\n\
         Check `moa-submitter status` before submitting again -- it may already have gone through."
    );
    assert_eq!(failure.code, EXIT_SERVICE);
}

#[test]
fn a_refused_upload_says_why() {
    let failure = failed(
        uploading().step(SubmitEvent::Uploaded(status(429, "{\"message\":\"one an hour\"}"))),
    );
    assert_eq!(failure.message, "one an hour");
    assert_eq!(failure.code, EXIT_REJECTED);
}

#[test]
fn an_unreadable_reply_fails_the_submission() {
    let s = uploading()
        .step(SubmitEvent::Uploaded(None))
        .step(SubmitEvent::Reply(Err("eof".to_string())));
    let failure = failed(s);
    assert_eq!(
        failure.message,
        "The server accepted the upload but its reply was unreadable: eof"
    );
    assert_eq!(failure.code, EXIT_SERVICE);
}

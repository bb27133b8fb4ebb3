//! Sending a submission.
//!
//! An upload cannot be sent again: it may have arrived though its answer did not, and
//! would then count twice. So a cheap request goes first. It takes the blow on a network
//! that drops the first connection, and where the server cannot be reached at all it ends
//! the command before anything was sent.

use base64::Engine;
use vstd::prelude::*;

use crate::failure::{told_alike, Failure, FailureView, EXIT_SERVICE};
use crate::http::{
    error_of, judged, law_errors_are_told, reply_failure, response_failure, unreadable_reply,
    unwrap_response, Attempt, AttemptView, HttpError, HttpErrorView, Retrying,
};
use crate::sources::{is_path_sort, lemma_same_files, sendable, total_bytes, uploads, Upload};
use crate::text::{lemma_same_words, same_words, texts};
use crate::walk::{law_accepted_files_are_submittable, walk_after, EventView};

verus! {

/// A file as it is sent: its path, and its content in base64.
#[derive(Debug)]
pub struct Payload {
    pub path: String,
    pub content_base64: String,
}

/// What a [`Payload`] holds.
pub struct PayloadView {
    pub path: Seq<char>,
    pub content_base64: Seq<char>,
}

impl View for Payload {
    type V = PayloadView;

    open spec fn view(&self) -> PayloadView {
        PayloadView { path: self.path@, content_base64: self.content_base64@ }
    }
}

/// The character for six bits, in the standard alphabet of base64.
pub open spec fn base64_char(bits: nat) -> char
    recommends
        bits < 64,
{
    if bits < 26 {
        (0x41 + bits) as char
    } else if bits < 52 {
        (0x61 + bits - 26) as char
    } else if bits < 62 {
        (0x30 + bits - 52) as char
    } else if bits == 62 {
        '+'
    } else {
        '/'
    }
}

/// The bytes in base64: the bits of each three bytes in four characters, the highest
/// first. Bits that are missing at the end count as zero, and a character that would hold
/// none but those is `=`.
pub open spec fn base64_text(bytes: Seq<u8>) -> Seq<char>
    decreases bytes.len(),
{
    let n = bytes.len();
    let byte = |i: int| if i < n { bytes[i] as nat } else { 0 };
    if n == 0 {
        Seq::empty()
    } else {
        seq![
            base64_char(byte(0) / 4),
            base64_char(byte(0) % 4 * 16 + byte(1) / 16),
            if n > 1 { base64_char(byte(1) % 16 * 4 + byte(2) / 64) } else { '=' },
            if n > 2 { base64_char(byte(2) % 64) } else { '=' },
        ] + base64_text(bytes.skip(if n < 3 { n as int } else { 3 }))
    }
}

/// The text in base64 has four characters for each three bytes or part of them.
pub open spec fn base64_len(len: nat) -> nat {
    (len + 2) / 3 * 4
}

/// The bytes can be encoded: the text is no longer than any allocation may be.
pub open spec fn encodable(bytes: Seq<u8>) -> bool {
    base64_len(bytes.len()) <= isize::MAX
}

/// `base64::engine::general_purpose::STANDARD.encode` writes the bytes in base64, with the
/// standard alphabet and with padding. It panics where the length of the text overflows, or
/// is more than an allocation may hold; such bytes are left out.
#[verifier::external_body]
fn encode_base64(bytes: &Vec<u8>) -> (r: String)
    requires
        encodable(bytes@),
    ensures
        r@ == base64_text(bytes@),
{
    base64::engine::general_purpose::STANDARD.encode(bytes)
}

/// The file as it is sent.
pub open spec fn payload(f: Upload) -> PayloadView {
    PayloadView { path: f.path@, content_base64: base64_text(f.bytes@) }
}

/// What each of the payloads holds.
pub open spec fn payload_views(payloads: Seq<Payload>) -> Seq<PayloadView> {
    payloads.map_values(|p: Payload| p@)
}

/// The files as they are sent, in their order.
pub fn payloads(files: &Vec<Upload>) -> (r: Vec<Payload>)
    requires
        forall|i: int| 0 <= i < files@.len() ==> encodable((#[trigger] files@[i]).bytes@),
    ensures
        payload_views(r@) == files@.map_values(|f: Upload| payload(f)),
        r@.len() == files@.len(),
        forall|i: int| 0 <= i < files@.len() ==> (#[trigger] r@[i]).path@ == files@[i].path@,
        forall|i: int|
            0 <= i < files@.len() ==> base64_decoded((#[trigger] r@[i]).content_base64@)
                == files@[i].bytes@,
{
    let mut r: Vec<Payload> = Vec::new();
    let mut i: usize = 0;
    while i < files.len()
        invariant
            i <= files@.len(),
            r@.len() == i,
            forall|k: int| 0 <= k < files@.len() ==> encodable((#[trigger] files@[k]).bytes@),
            forall|k: int| 0 <= k < i ==> (#[trigger] r@[k])@ == payload(files@[k]),
            forall|k: int| 0 <= k < i ==> (#[trigger] r@[k]).path@ == files@[k].path@,
            forall|k: int|
                0 <= k < i ==> base64_decoded((#[trigger] r@[k]).content_base64@)
                    == files@[k].bytes@,
        decreases files.len() - i,
    {
        let content_base64: String = encode_base64(&files[i].bytes);
        proof {
            law_base64_can_be_decoded(files@[i as int].bytes@);
        }
        r.push(Payload { path: files[i].path.clone(), content_base64 });
        i = i + 1;
    }
    assert(payload_views(r@) =~= files@.map_values(|f: Upload| payload(f)));
    r
}

/// The text in base64 is as long as [`base64_len`] says.
pub proof fn law_base64_length(bytes: Seq<u8>)
    ensures
        base64_text(bytes).len() == base64_len(bytes.len()),
    decreases bytes.len(),
{
    if bytes.len() > 0 {
        law_base64_length(bytes.skip(if bytes.len() < 3 { bytes.len() as int } else { 3 }));
    }
}

/// Different bits have different characters, and none has that of the padding.
proof fn lemma_base64_char(a: nat, b: nat)
    requires
        a < 64,
        b < 64,
    ensures
        base64_char(a) == base64_char(b) ==> a == b,
        base64_char(a) != '=',
{
}

/// How many bytes the first four characters of a text in base64 stand for.
spec fn group_len(bytes: Seq<u8>) -> int {
    if bytes.len() < 3 {
        bytes.len() as int
    } else {
        3
    }
}

/// The text in base64 is four characters and the text of what is behind the first bytes.
proof fn lemma_base64_rest(bytes: Seq<u8>)
    requires
        bytes.len() > 0,
    ensures
        base64_text(bytes).len() >= 4,
        base64_text(bytes).skip(4) == base64_text(bytes.skip(group_len(bytes))),
{
    assert(base64_text(bytes).skip(4) =~= base64_text(bytes.skip(group_len(bytes))));
}

/// Four characters stand for the same bytes in every text that begins with them.
#[verifier::spinoff_prover]
proof fn lemma_base64_group(a: Seq<u8>, b: Seq<u8>)
    requires
        a.len() > 0,
        b.len() > 0,
        forall|i: int| 0 <= i < 4 ==> #[trigger] base64_text(a)[i] == base64_text(b)[i],
    ensures
        group_len(a) == group_len(b),
        a.take(group_len(a)) == b.take(group_len(b)),
{
    let (x, y) = (base64_text(a), base64_text(b));
    let byte = |s: Seq<u8>, i: int| if i < s.len() { s[i] as nat } else { 0 };
    let (a0, a1, a2) = (byte(a, 0), byte(a, 1), byte(a, 2));
    let (b0, b1, b2) = (byte(b, 0), byte(b, 1), byte(b, 2));
    assert(x[0] == y[0] && x[1] == y[1] && x[2] == y[2] && x[3] == y[3]);
    lemma_base64_char(a0 / 4, b0 / 4);
    lemma_base64_char(a0 % 4 * 16 + a1 / 16, b0 % 4 * 16 + b1 / 16);
    lemma_base64_char(a1 % 16 * 4 + a2 / 64, b1 % 16 * 4 + b2 / 64);
    lemma_base64_char(b1 % 16 * 4 + b2 / 64, a1 % 16 * 4 + a2 / 64);
    lemma_base64_char(a2 % 64, b2 % 64);
    lemma_base64_char(b2 % 64, a2 % 64);
    assert(group_len(a) == group_len(b));
    assert(a0 == b0 && a1 == b1 && a2 == b2);
    assert(a.take(group_len(a)) =~= b.take(group_len(b)));
}

/// Two different contents never look alike in base64: what is sent can be read back.
pub proof fn law_base64_is_injective(a: Seq<u8>, b: Seq<u8>)
    requires
        base64_text(a) == base64_text(b),
    ensures
        a == b,
    decreases a.len(),
{
    law_base64_length(a);
    law_base64_length(b);
    if a.len() == 0 || b.len() == 0 {
        assert(a =~= b);
    } else {
        let (m, n) = (group_len(a), group_len(b));
        lemma_base64_group(a, b);
        lemma_base64_rest(a);
        lemma_base64_rest(b);
        law_base64_is_injective(a.skip(m), b.skip(n));
        assert(a =~= a.take(m) + a.skip(m));
        assert(b =~= b.take(n) + b.skip(n));
    }
}

/// What the server says of a submission that it has taken.
#[derive(Debug)]
pub struct Created {
    pub team_name: String,
    pub submission_id: String,
}

/// What a [`Created`] says.
pub struct CreatedView {
    pub team_name: Seq<char>,
    pub submission_id: Seq<char>,
}

impl View for Created {
    type V = CreatedView;

    open spec fn view(&self) -> CreatedView {
        CreatedView { team_name: self.team_name@, submission_id: self.submission_id@ }
    }
}

/// What sending a submission asks for.
#[derive(Debug)]
pub enum SubmitNext {
    /// Wait so many seconds, and then ask how the server is.
    CheckHealth { wait: u64 },
    /// Send the files.
    Upload,
    /// Read the server's reply.
    ReadReply,
    /// Print these lines: the submission is made.
    Done(Vec<String>),
    /// Nothing: the command has failed.
    Fail(Failure),
}

/// How a step on the network went.
#[derive(Debug)]
pub enum SubmitEvent {
    /// The server answered how it is, or why not.
    Health(Option<HttpError>),
    /// The server answered the upload, or why not.
    Uploaded(Option<HttpError>),
    /// The server's reply, or why it could not be read.
    Reply(Result<Created, String>),
}

/// Sending a submission: the attempts to reach the server, and what comes next.
#[derive(Debug)]
pub struct Submitting {
    pub retrying: Retrying,
    pub next: SubmitNext,
}

/// What a [`SubmitNext`] asks for.
pub enum SubmitNextView {
    CheckHealth { wait: nat },
    Upload,
    ReadReply,
    Done(Seq<Seq<char>>),
    Fail(FailureView),
}

/// What a [`SubmitEvent`] says.
pub enum SubmitEventView {
    Health(Option<HttpErrorView>),
    Uploaded(Option<HttpErrorView>),
    Reply(Result<CreatedView, Seq<char>>),
}

/// The state of a [`Submitting`]; `number` is that of the attempt to reach the server.
pub struct SubmitView {
    pub number: nat,
    pub next: SubmitNextView,
}

impl View for SubmitNext {
    type V = SubmitNextView;

    open spec fn view(&self) -> SubmitNextView {
        match *self {
            SubmitNext::CheckHealth { wait } => SubmitNextView::CheckHealth { wait: wait as nat },
            SubmitNext::Upload => SubmitNextView::Upload,
            SubmitNext::ReadReply => SubmitNextView::ReadReply,
            SubmitNext::Done(lines) => SubmitNextView::Done(texts(lines@)),
            SubmitNext::Fail(failure) => SubmitNextView::Fail(failure@),
        }
    }
}

impl View for SubmitEvent {
    type V = SubmitEventView;

    open spec fn view(&self) -> SubmitEventView {
        match *self {
            SubmitEvent::Health(outcome) => SubmitEventView::Health(error_of(outcome)),
            SubmitEvent::Uploaded(outcome) => SubmitEventView::Uploaded(error_of(outcome)),
            SubmitEvent::Reply(reply) => SubmitEventView::Reply(
                match reply {
                    Ok(created) => Ok(created@),
                    Err(reason) => Err(reason@),
                },
            ),
        }
    }
}

impl View for Submitting {
    type V = SubmitView;

    open spec fn view(&self) -> SubmitView {
        SubmitView { number: self.retrying.number as nat, next: self.next@ }
    }
}

/// What is printed of a submission that the server has taken.
pub open spec fn submitted(created: CreatedView) -> Seq<Seq<char>> {
    seq![
        ""@,
        "Submitted as: "@ + created.team_name,
        "Submission:   "@ + created.submission_id,
        ""@,
        "Track it with:  moa-submitter status"@,
        "Read the log:   moa-submitter log "@ + created.submission_id,
    ]
}

/// The failure of an upload: one whose connection broke may have arrived all the same.
pub open spec fn upload_failure(error: HttpErrorView) -> FailureView {
    match error {
        HttpErrorView::Transport { message } => FailureView::service(
            "The upload did not complete: "@ + message
                + "\nCheck `moa-submitter status` before submitting again -- it may already have gone through."@,
        ),
        HttpErrorView::Status { .. } => response_failure(error, "send the submission"@),
    }
}

/// Before the first step.
pub open spec fn submit_start() -> SubmitView {
    SubmitView { number: 1, next: SubmitNextView::CheckHealth { wait: 0 } }
}

/// The state after the step that was asked for went as the event says. An event that
/// answers something else changes nothing.
pub open spec fn submit_step(s: SubmitView, e: SubmitEventView) -> SubmitView {
    match (s.next, e) {
        (SubmitNextView::CheckHealth { .. }, SubmitEventView::Health(outcome)) => match judged(
            s.number,
            outcome,
            "reach the competition server"@,
        ) {
            AttemptView::Again { seconds } => SubmitView {
                number: s.number + 1,
                next: SubmitNextView::CheckHealth { wait: seconds },
            },
            AttemptView::Answered => SubmitView { next: SubmitNextView::Upload, ..s },
            AttemptView::Failed(failure) => SubmitView {
                next: SubmitNextView::Fail(failure),
                ..s
            },
        },
        (SubmitNextView::Upload, SubmitEventView::Uploaded(outcome)) => SubmitView {
            next: match outcome {
                None => SubmitNextView::ReadReply,
                Some(error) => SubmitNextView::Fail(upload_failure(error)),
            },
            ..s
        },
        (SubmitNextView::ReadReply, SubmitEventView::Reply(reply)) => SubmitView {
            next: match reply {
                Ok(created) => SubmitNextView::Done(submitted(created)),
                Err(reason) => SubmitNextView::Fail(
                    unreadable_reply(
                        "The server accepted the upload but its reply was unreadable"@,
                        reason,
                    ),
                ),
            },
            ..s
        },
        _ => s,
    }
}

/// The state after the given events, from the start.
pub open spec fn submit_after(events: Seq<SubmitEventView>) -> SubmitView
    decreases events.len(),
{
    if events.len() == 0 {
        submit_start()
    } else {
        submit_step(submit_after(events.drop_last()), events.last())
    }
}

/// How many of the events are answers to an upload that was asked for.
pub open spec fn uploads_made(events: Seq<SubmitEventView>) -> nat
    decreases events.len(),
{
    if events.len() == 0 {
        0
    } else {
        uploads_made(events.drop_last()) + if submit_after(events.drop_last()).next is Upload
            && events.last() is Uploaded {
            1nat
        } else {
            0
        }
    }
}

/// What is printed of a submission that the server has taken.
fn submitted_lines(created: &Created) -> (r: Vec<String>)
    ensures
        texts(r@) == submitted(created@),
{
    let mut r: Vec<String> = Vec::new();
    r.push("".to_owned());
    r.push("Submitted as: ".to_owned().concat(created.team_name.as_str()));
    r.push("Submission:   ".to_owned().concat(created.submission_id.as_str()));
    r.push("".to_owned());
    r.push("Track it with:  moa-submitter status".to_owned());
    r.push("Read the log:   moa-submitter log ".to_owned().concat(created.submission_id.as_str()));
    assert(texts(r@) =~= submitted(created@));
    r
}

/// The failure of an upload.
fn failed_upload(error: HttpError) -> (r: Failure)
    ensures
        r@ == upload_failure(error@),
{
    match error {
        HttpError::Transport { message } => Failure::service(
            "The upload did not complete: ".to_owned().concat(message.as_str()).concat(
                "\nCheck `moa-submitter status` before submitting again -- it may already have gone through.",
            ),
        ),
        HttpError::Status { code, body } => unwrap_response(
            HttpError::Status { code, body },
            "send the submission",
        ),
    }
}

impl Submitting {
    /// Before the first step.
    pub fn start() -> (r: Submitting)
        ensures
            r@ == submit_start(),
    {
        Submitting { retrying: Retrying::start(), next: SubmitNext::CheckHealth { wait: 0 } }
    }

    /// The state after the step that was asked for went as the event says.
    pub fn step(self, event: SubmitEvent) -> (r: Submitting)
        ensures
            r@ == submit_step(self@, event@),
    {
        match (&self.next, event) {
            (SubmitNext::CheckHealth { .. }, SubmitEvent::Health(outcome)) => {
                let mut retrying: Retrying = self.retrying;
                let next: SubmitNext = match retrying.judge(
                    outcome,
                    "reach the competition server",
                ) {
                    Attempt::Again { seconds } => SubmitNext::CheckHealth { wait: seconds },
                    Attempt::Answered => SubmitNext::Upload,
                    Attempt::Failed(failure) => SubmitNext::Fail(failure),
                };
                Submitting { retrying, next }
            },
            (SubmitNext::Upload, SubmitEvent::Uploaded(outcome)) => {
                let next: SubmitNext = match outcome {
                    None => SubmitNext::ReadReply,
                    Some(error) => SubmitNext::Fail(failed_upload(error)),
                };
                Submitting { next, ..self }
            },
            (SubmitNext::ReadReply, SubmitEvent::Reply(reply)) => {
                let next: SubmitNext = match reply {
                    Ok(created) => SubmitNext::Done(submitted_lines(&created)),
                    Err(reason) => SubmitNext::Fail(
                        reply_failure(
                            "The server accepted the upload but its reply was unreadable",
                            reason.as_str(),
                        ),
                    ),
                };
                Submitting { next, ..self }
            },
            _ => self,
        }
    }
}

/// Whatever the network does, the files are sent at most once.
pub proof fn law_upload_is_sent_at_most_once(events: Seq<SubmitEventView>)
    ensures
        uploads_made(events) <= 1,
        submit_after(events).next is CheckHealth || submit_after(events).next is Upload
            ==> uploads_made(events) == 0,
    decreases events.len(),
{
    if events.len() > 0 {
        law_upload_is_sent_at_most_once(events.drop_last());
    }
}

/// Nothing is sent before the server has answered that it is there: as soon as the files
/// may be sent, one of the events was a good answer to the cheap request.
pub proof fn law_upload_waits_for_the_server(events: Seq<SubmitEventView>)
    ensures
        submit_after(events).next is Upload || submit_after(events).next is ReadReply
            || submit_after(events).next is Done || uploads_made(events) > 0 ==> exists|i: int|
            0 <= i < events.len() && #[trigger] events[i] == SubmitEventView::Health(None),
    decreases events.len(),
{
    if events.len() > 0 {
        let before = events.drop_last();
        law_upload_waits_for_the_server(before);
        if exists|i: int|
            0 <= i < before.len() && #[trigger] before[i] == SubmitEventView::Health(None) {
            let i = choose|i: int|
                0 <= i < before.len() && #[trigger] before[i] == SubmitEventView::Health(None);
            assert(events[i] == SubmitEventView::Health(None));
        } else if submit_after(events).next is Upload {
            assert(events[events.len() - 1] == SubmitEventView::Health(None));
        }
    }
}

/// An upload whose connection broke is not sent again. The command fails, as one for
/// which the service could not be reached, whatever comes after.
pub proof fn law_broken_upload_ends_the_command(
    s: SubmitView,
    message: Seq<char>,
    later: SubmitEventView,
)
    requires
        s.next is Upload,
    ensures
        ({
            let broken = SubmitEventView::Uploaded(Some(HttpErrorView::Transport { message }));
            let after = submit_step(s, broken);
            &&& after.next matches SubmitNextView::Fail(failure) && failure.code == EXIT_SERVICE
            &&& submit_step(after, later) == after
        }),
{
}

proof fn lemma_file_below_total(files: Seq<Upload>, i: int)
    requires
        0 <= i < files.len(),
    ensures
        files[i].bytes@.len() <= total_bytes(files),
    decreases files.len(),
{
    if i < files.len() - 1 {
        lemma_file_below_total(files.drop_last(), i);
    }
}

/// Files that may be sent can be encoded.
pub proof fn law_sendable_files_can_be_encoded(files: Seq<Upload>, sorted: Seq<Upload>)
    requires
        sendable(files),
        is_path_sort(files, sorted),
    ensures
        forall|i: int| 0 <= i < sorted.len() ==> encodable((#[trigger] sorted[i]).bytes@),
{
    assert forall|i: int| 0 <= i < sorted.len() implies encodable(
        (#[trigger] sorted[i]).bytes@,
    ) by {
        lemma_same_files(files, sorted, sorted[i]);
        assert(sorted.contains(sorted[i]));
        let k = choose|k: int| 0 <= k < files.len() && files[k] == sorted[i];
        lemma_file_below_total(files, k);
    }
}

/// The six bits that a character of base64 stands for.
pub open spec fn base64_value(c: char) -> int {
    if 'A' <= c <= 'Z' {
        c as int - 'A' as int
    } else if 'a' <= c <= 'z' {
        c as int - 'a' as int + 26
    } else if '0' <= c <= '9' {
        c as int - '0' as int + 52
    } else if c == '+' {
        62
    } else {
        63
    }
}

/// The bytes that a text in base64 stands for, as the server reads it.
pub open spec fn base64_decoded(s: Seq<char>) -> Seq<u8>
    decreases s.len(),
{
    if s.len() < 4 {
        Seq::empty()
    } else {
        let (a, b) = (base64_value(s[0]), base64_value(s[1]));
        let (c, d) = (base64_value(s[2]), base64_value(s[3]));
        let first = (a * 4 + b / 16) as u8;
        let second = (b % 16 * 16 + c / 4) as u8;
        let third = (c % 4 * 64 + d) as u8;
        if s[2] == '=' {
            seq![first]
        } else if s[3] == '=' {
            seq![first, second]
        } else {
            seq![first, second, third] + base64_decoded(s.skip(4))
        }
    }
}

proof fn lemma_base64_value(bits: nat)
    requires
        bits < 64,
    ensures
        base64_value(base64_char(bits)) == bits,
        base64_char(bits) != '=',
{
}

/// What is sent is the content: decoding its text gives all of its bytes back.
#[verifier::spinoff_prover]
pub proof fn law_base64_can_be_decoded(bytes: Seq<u8>)
    ensures
        base64_decoded(base64_text(bytes)) == bytes,
    decreases bytes.len(),
{
    let s = base64_text(bytes);
    if bytes.len() > 0 {
        let byte = |i: int| if i < bytes.len() { bytes[i] as nat } else { 0 };
        let (x, y, z) = (byte(0), byte(1), byte(2));
        lemma_base64_value(x / 4);
        lemma_base64_value(x % 4 * 16 + y / 16);
        lemma_base64_value(y % 16 * 4 + z / 64);
        lemma_base64_value(z % 64);
        lemma_base64_rest(bytes);
        if bytes.len() >= 3 {
            law_base64_can_be_decoded(bytes.skip(3));
            assert(bytes =~= seq![bytes[0], bytes[1], bytes[2]] + bytes.skip(3));
        } else {
            assert(base64_decoded(s) =~= bytes);
        }
    } else {
        assert(base64_decoded(s) =~= bytes);
    }
}

/// A file is sent under its own path, whole, and with its own content.
pub proof fn law_files_are_sent_as_they_are(f: Upload, sent: Seq<Payload>, p: Payload)
    ensures
        payload(f).path == f.path@,
        base64_decoded(payload(f).content_base64) == f.bytes@,
        p@.path == p.path@,
        p@.content_base64 == p.content_base64@,
        payload_views(sent).len() == sent.len(),
        forall|i: int| 0 <= i < sent.len() ==> #[trigger] payload_views(sent)[i] == sent[i]@,
{
    law_base64_can_be_decoded(f.bytes@);
}

/// After a finished walk every file is sent under a path that the server takes: that is
/// `src/ops.rs`, which is among them, or one below `src/device/`.
pub proof fn law_paths_that_are_sent(
    events: Seq<EventView>,
    files: Seq<Upload>,
    sorted: Seq<Upload>,
)
    requires
        walk_after(events).next is Done,
        uploads(files) == walk_after(events).files,
        is_path_sort(files, sorted),
    ensures
        forall|i: int|
            0 <= i < sorted.len() ==> payload(#[trigger] sorted[i]).path == "src/ops.rs"@
                || "src/device/"@.is_prefix_of(payload(sorted[i]).path),
        exists|i: int|
            0 <= i < sorted.len() && payload(#[trigger] sorted[i]).path == "src/ops.rs"@,
{
    law_accepted_files_are_submittable(events, files, sorted);
    reveal_strlit("src/device");
    reveal_strlit("/");
    reveal_strlit("src/device/");
    assert("src/device"@ + "/"@ =~= "src/device/"@);
    let k = choose|i: int|
        0 <= i < sorted.len() && (#[trigger] sorted[i]).path@ == crate::sources::ALLOWED_FILE@;
    assert(payload(sorted[k]).path == "src/ops.rs"@);
}

/// The server is asked how it is, and asked again as often as the attempts are judged worth
/// it; a good answer always leads to the upload, one that is taken always to its reply, and
/// a reply that can be read always to the end.
pub proof fn law_submission_takes_its_steps(
    s: SubmitView,
    outcome: Option<HttpErrorView>,
    created: CreatedView,
    what: Seq<char>,
)
    ensures
        ({
            let asked = submit_step(s, SubmitEventView::Health(outcome));
            let good = submit_step(s, SubmitEventView::Health(None));
            let sent = submit_step(s, SubmitEventView::Uploaded(outcome));
            let read = submit_step(s, SubmitEventView::Reply(Ok(created)));
            &&& if s.next is CheckHealth {
                &&& good.next is Upload
                &&& outcome matches Some(error) ==> match judged(s.number, outcome, what) {
                    AttemptView::Again { seconds } => asked.next == SubmitNextView::CheckHealth {
                        wait: seconds,
                    } && asked.number == s.number + 1,
                    _ => asked.next is Fail && (error is Status ==> asked.next
                        == SubmitNextView::Fail(response_failure(error, what))),
                }
            } else {
                asked == s && good == s
            }
            &&& if s.next is Upload {
                match outcome {
                    None => sent.next is ReadReply,
                    Some(error) => sent.next is Fail && (error is Status ==> sent.next
                        == SubmitNextView::Fail(response_failure(error, what))),
                }
            } else {
                sent == s
            }
            &&& if s.next is ReadReply {
                read.next == SubmitNextView::Done(submitted(created))
            } else {
                read == s
            }
        }),
        submit_start().number == 1,
        submit_start().next == (SubmitNextView::CheckHealth { wait: 0 }),
{
    if let Some(HttpErrorView::Status { code, body }) = outcome {
        law_errors_are_told(code, body, (what, what), (what, what));
        law_errors_are_told(code, body, ("reach the competition server"@, what), (what, what));
        law_errors_are_told(code, body, ("send the submission"@, what), (what, what));
    }
}

/// A lost connection and a reply that cannot be read are told with the whole reason, between
/// the same words.
pub proof fn law_submission_failures_are_told(s: SubmitView, t: SubmitView, x: Seq<char>, y: Seq<char>)
    ensures
        ({
            let lost = |s: SubmitView, m: Seq<char>| submit_step(
                s,
                SubmitEventView::Uploaded(Some(HttpErrorView::Transport { message: m })),
            ).next;
            let unread = |s: SubmitView, m: Seq<char>| submit_step(
                s,
                SubmitEventView::Reply(Err(m)),
            ).next;
            let silent = |s: SubmitView, m: Seq<char>| submit_step(
                s,
                SubmitEventView::Health(Some(HttpErrorView::Transport { message: m })),
            ).next;
            &&& s.next is Upload && t.next is Upload ==> lost(s, x) is Fail && told_alike(
                lost(s, x)->Fail_0,
                seq![x],
                lost(t, y)->Fail_0,
                seq![y],
            )
            &&& s.next is ReadReply && t.next is ReadReply ==> unread(s, x) is Fail && told_alike(
                unread(s, x)->Fail_0,
                seq![x],
                unread(t, y)->Fail_0,
                seq![y],
            )
            &&& s.next is CheckHealth && t.next is CheckHealth && silent(s, x) is Fail && silent(
                t,
                y,
            ) is Fail ==> told_alike(
                silent(s, x)->Fail_0,
                seq![x],
                silent(t, y)->Fail_0,
                seq![y],
            )
        }),
{
    let no = Seq::<char>::empty();
    let a = "The upload did not complete: "@;
    let b =
        "\nCheck `moa-submitter status` before submitting again -- it may already have gone through."@;
    lemma_same_words(a, b, x, y);
    let c = "The server accepted the upload but its reply was unreadable"@ + ": "@;
    lemma_same_words(c, no, x, y);
    assert(c + x + no =~= c + x);
    assert(c + y + no =~= c + y);
    let d = "Cannot reach the competition server while trying to "@
        + "reach the competition server"@ + ": "@;
    lemma_same_words(d, no, x, y);
    assert(d + x + no =~= d + x);
    assert(d + y + no =~= d + y);
}

/// What is printed of a submission names its team once and its identifier twice, whole, and
/// is the same for all submissions but for those.
pub proof fn law_submission_is_named(x: CreatedView, y: CreatedView)
    ensures
        ({
            let (a, b) = (submitted(x), submitted(y));
            &&& a.len() == 6 && b.len() == 6
            &&& a[0] == b[0] && a[3] == b[3] && a[4] == b[4]
            &&& same_words(a[1], seq![x.team_name], b[1], seq![y.team_name])
            &&& same_words(a[2], seq![x.submission_id], b[2], seq![y.submission_id])
            &&& same_words(a[5], seq![x.submission_id], b[5], seq![y.submission_id])
        }),
{
    lemma_line("Submitted as: "@, x.team_name, y.team_name);
    lemma_line("Submission:   "@, x.submission_id, y.submission_id);
    lemma_line("Read the log:   moa-submitter log "@, x.submission_id, y.submission_id);
}

proof fn lemma_line(label: Seq<char>, x: Seq<char>, y: Seq<char>)
    ensures
        same_words(label + x, seq![x], label + y, seq![y]),
{
    let no = Seq::<char>::empty();
    lemma_same_words(label, no, x, y);
    assert(label + x + no =~= label + x);
    assert(label + y + no =~= label + y);
}

/// What is seen of events and steps is what they hold.
pub proof fn law_submit_views(
    wait: u64,
    lines: Vec<String>,
    failure: Failure,
    error: HttpError,
    created: Created,
    reason: String,
    submitting: Submitting,
)
    ensures
        created@.team_name == created.team_name@ && created@.submission_id
            == created.submission_id@,
        (SubmitNext::CheckHealth { wait })@ == (SubmitNextView::CheckHealth { wait: wait as nat }),
        SubmitNext::Upload@ is Upload,
        SubmitNext::ReadReply@ is ReadReply,
        SubmitNext::Done(lines)@ == SubmitNextView::Done(texts(lines@)),
        SubmitNext::Fail(failure)@ == SubmitNextView::Fail(failure@),
        SubmitEvent::Health(Some(error))@ == SubmitEventView::Health(Some(error@)),
        SubmitEvent::Health(None)@ == SubmitEventView::Health(None),
        SubmitEvent::Uploaded(Some(error))@ == SubmitEventView::Uploaded(Some(error@)),
        SubmitEvent::Uploaded(None)@ == SubmitEventView::Uploaded(None),
        SubmitEvent::Reply(Ok(created))@ == SubmitEventView::Reply(Ok(created@)),
        SubmitEvent::Reply(Err(reason))@ == SubmitEventView::Reply(Err(reason@)),
        submitting@.number == submitting.retrying.number && submitting@.next == submitting.next@,
{
}

} // verus!

//! What a command makes of the server's answers: when a request is sent again, and how
//! an error is told to the user.

use vstd::prelude::*;

use crate::failure::{told_alike, Failure, FailureView, EXIT_REJECTED, EXIT_SERVICE};
use crate::text::{
    contains, decimal, decimal_digits, is_white_space, law_trimmed, lemma_same_words,
    lemma_same_words_two, occurs, same_words, text_of, trim, trimmed,
};

verus! {

/// A request that may be sent again is sent at most this often.
pub const CONNECT_ATTEMPTS: u32 = 3;

/// The wait after the first attempt, in seconds. It grows by as much with each attempt.
pub const RETRY_DELAY: u64 = 1;

/// Every request is given up after this many seconds.
pub const HTTP_TIMEOUT: u64 = 30;

/// Why a request has no good answer.
#[derive(Debug)]
pub enum HttpError {
    /// The server answered with an error status and this body.
    Status { code: u16, body: String },
    /// The server could not be reached, or the connection broke.
    Transport { message: String },
}

/// What an [`HttpError`] says.
pub enum HttpErrorView {
    Status { code: u16, body: Seq<char> },
    Transport { message: Seq<char> },
}

impl View for HttpError {
    type V = HttpErrorView;

    open spec fn view(&self) -> HttpErrorView {
        match *self {
            HttpError::Status { code, body } => HttpErrorView::Status { code, body: body@ },
            HttpError::Transport { message } => HttpErrorView::Transport { message: message@ },
        }
    }
}

/// The string that the JSON object `text` holds under the key `member`, as `serde_json`
/// reads it; nothing if `text` is not JSON, not an object, or holds no string there.
pub uninterp spec fn json_string_member(text: Seq<char>, member: Seq<char>) -> Option<Seq<char>>;

/// `serde_json::from_str` reads a JSON value from `text`; `Value::get` and `Value::as_str`
/// pick the string under the key `member` from it. What comes out depends on the two
/// texts alone, and is nothing where one of the three has nothing to give. Nothing more
/// is claimed of it.
#[verifier::external_body]
fn string_member(text: &str, member: &str) -> (r: Option<String>)
    ensures
        text_of(r) == json_string_member(text@, member@),
{
    let value: serde_json::Value = serde_json::from_str(text).ok()?;
    value.get(member)?.as_str().map(str::to_owned)
}

/// What the server has to say, in a sentence for people: the message that its answer
/// carries, or else the text of the answer, or else the bare status code.
pub open spec fn server_says(code: u16, body: Seq<char>, message: Option<Seq<char>>) -> Seq<char> {
    match message {
        Some(m) => m,
        None => if trimmed(body).len() == 0 {
            "the server answered with HTTP "@ + decimal_digits(code as nat)
        } else {
            trimmed(body)
        },
    }
}

/// The failure that an error status stands for. `message` is what the server says.
pub open spec fn status_failure(code: u16, message: Seq<char>) -> FailureView {
    if code == 401 || (code == 403 && occurs("token"@, message)) {
        FailureView::rejected(message + "\nRun `moa-submitter login` to get a new token."@)
    } else if 500 <= code <= 599 {
        FailureView::service("The competition server is having trouble: "@ + message)
    } else {
        FailureView::rejected(message)
    }
}

/// The failure that an error stands for. `what` is what the command was trying to do.
pub open spec fn response_failure(error: HttpErrorView, what: Seq<char>) -> FailureView {
    match error {
        HttpErrorView::Status { code, body } => status_failure(
            code,
            server_says(code, body, json_string_member(body, "message"@)),
        ),
        HttpErrorView::Transport { message } => FailureView::service(
            "Cannot reach the competition server while trying to "@ + what + ": "@ + message,
        ),
    }
}

/// The failure that an error status stands for. `message` is the message that the body
/// carries, if it carries one.
pub fn explain_status(code: u16, body: &str, message: Option<String>) -> (r: Failure)
    ensures
        r@ == status_failure(code, server_says(code, body@, text_of(message))),
{
    let says: String = match message {
        Some(m) => m,
        None => {
            let text: String = trim(body);
            if text.as_str().is_empty() {
                let digits: String = decimal(code as u128);
                "the server answered with HTTP ".to_owned().concat(digits.as_str())
            } else {
                text
            }
        },
    };
    if code == 401 || (code == 403 && contains(says.as_str(), "token")) {
        Failure::rejected(says.concat("\nRun `moa-submitter login` to get a new token."))
    } else if 500 <= code && code <= 599 {
        Failure::service(
            "The competition server is having trouble: ".to_owned().concat(says.as_str()),
        )
    } else {
        Failure::rejected(says)
    }
}

/// The failure that an error stands for. `what` is what the command was trying to do.
pub fn unwrap_response(error: HttpError, what: &str) -> (r: Failure)
    ensures
        r@ == response_failure(error@, what@),
{
    match error {
        HttpError::Status { code, body } => {
            let message: Option<String> = string_member(body.as_str(), "message");
            explain_status(code, body.as_str(), message)
        },
        HttpError::Transport { message } => Failure::service(
            "Cannot reach the competition server while trying to ".to_owned().concat(
                what,
            ).concat(": ").concat(message.as_str()),
        ),
    }
}

/// A reply that came and could not be read. `what` says which one.
pub open spec fn unreadable_reply(what: Seq<char>, reason: Seq<char>) -> FailureView {
    FailureView::service(what + ": "@ + reason)
}

/// The failure of a reply that came and could not be read. `what` says which one.
pub fn reply_failure(what: &str, reason: &str) -> (r: Failure)
    ensures
        r@ == unreadable_reply(what@, reason@),
{
    Failure::service(what.to_owned().concat(": ").concat(reason))
}

/// What follows an attempt.
#[derive(Debug)]
pub enum Attempt {
    /// Wait so many seconds and send the request again.
    Again { seconds: u64 },
    /// There is an answer to read.
    Answered,
    /// The command has failed.
    Failed(Failure),
}

/// What follows an attempt.
pub enum AttemptView {
    Again { seconds: nat },
    Answered,
    Failed(FailureView),
}

impl View for Attempt {
    type V = AttemptView;

    open spec fn view(&self) -> AttemptView {
        match *self {
            Attempt::Again { seconds } => AttemptView::Again { seconds: seconds as nat },
            Attempt::Answered => AttemptView::Answered,
            Attempt::Failed(failure) => AttemptView::Failed(failure@),
        }
    }
}

/// What an optional error says.
pub open spec fn error_of(outcome: Option<HttpError>) -> Option<HttpErrorView> {
    match outcome {
        Some(error) => Some(error@),
        None => None,
    }
}

/// What follows attempt number `number` of a request that may be sent again: only a
/// connection that failed is tried once more, and only so often.
pub open spec fn judged(number: nat, outcome: Option<HttpErrorView>, what: Seq<char>) -> AttemptView {
    match outcome {
        None => AttemptView::Answered,
        Some(error) => if error is Transport && number < CONNECT_ATTEMPTS {
            AttemptView::Again { seconds: RETRY_DELAY as nat * number }
        } else {
            AttemptView::Failed(response_failure(error, what))
        },
    }
}

/// The attempts of a request that is safe to send again. An upload is not: the request
/// may have arrived though the answer did not, and would then be taken twice.
#[derive(Debug)]
pub struct Retrying {
    /// The number of the attempt that is under way, from one.
    pub number: u32,
}

impl Retrying {
    /// Before the first attempt.
    pub fn start() -> (r: Retrying)
        ensures
            r.number == 1,
    {
        Retrying { number: 1 }
    }

    /// What follows the attempt that went as `outcome` says.
    pub fn judge(&mut self, outcome: Option<HttpError>, what: &str) -> (r: Attempt)
        ensures
            r@ == judged(old(self).number as nat, error_of(outcome), what@),
            final(self).number == if r@ is Again {
                old(self).number + 1
            } else {
                old(self).number as int
            },
    {
        match outcome {
            None => Attempt::Answered,
            Some(error) => {
                let broken: bool = match &error {
                    HttpError::Transport { .. } => true,
                    HttpError::Status { .. } => false,
                };
                if broken && self.number < CONNECT_ATTEMPTS {
                    let seconds: u64 = RETRY_DELAY * self.number as u64;
                    self.number = self.number + 1;
                    Attempt::Again { seconds }
                } else {
                    Attempt::Failed(unwrap_response(error, what))
                }
            },
        }
    }
}

/// What a command asks the server for, with a request that may be sent again.
#[derive(Debug)]
pub struct Query {
    pub url: String,
    /// What the command is trying to do.
    pub what: String,
    /// What to say of an answer that cannot be read.
    pub unreadable: String,
}

/// What a [`Query`] says.
pub struct QueryView {
    pub url: Seq<char>,
    pub what: Seq<char>,
    pub unreadable: Seq<char>,
}

impl View for Query {
    type V = QueryView;

    open spec fn view(&self) -> QueryView {
        QueryView { url: self.url@, what: self.what@, unreadable: self.unreadable@ }
    }
}

/// What asking the server for something asks for.
#[derive(Debug)]
pub enum FetchNext {
    /// Wait so many seconds, and then send the request.
    Send { wait: u64 },
    /// Read the answer.
    Read,
    /// Nothing: the answer is read.
    Done,
    /// Nothing: the command has failed.
    Fail(Failure),
}

/// How a step of asking the server went.
#[derive(Debug)]
pub enum FetchEvent {
    /// The server answered, or why not.
    Sent(Option<HttpError>),
    /// The answer is read, or why it could not be.
    Read(Result<(), String>),
}

/// What a [`FetchNext`] asks for.
pub enum FetchNextView {
    Send { wait: nat },
    Read,
    Done,
    Fail(FailureView),
}

/// What a [`FetchEvent`] says.
pub enum FetchEventView {
    Sent(Option<HttpErrorView>),
    Read(Result<(), Seq<char>>),
}

/// The state of a [`Fetching`].
pub struct FetchView {
    pub number: nat,
    pub what: Seq<char>,
    pub unreadable: Seq<char>,
    pub next: FetchNextView,
}

/// Asking the server for something, with a request that may be sent again.
#[derive(Debug)]
pub struct Fetching {
    pub retrying: Retrying,
    /// What the command is trying to do.
    pub what: String,
    /// What to say of an answer that cannot be read.
    pub unreadable: String,
    pub next: FetchNext,
}

impl View for FetchNext {
    type V = FetchNextView;

    open spec fn view(&self) -> FetchNextView {
        match *self {
            FetchNext::Send { wait } => FetchNextView::Send { wait: wait as nat },
            FetchNext::Read => FetchNextView::Read,
            FetchNext::Done => FetchNextView::Done,
            FetchNext::Fail(failure) => FetchNextView::Fail(failure@),
        }
    }
}

impl View for FetchEvent {
    type V = FetchEventView;

    open spec fn view(&self) -> FetchEventView {
        match *self {
            FetchEvent::Sent(outcome) => FetchEventView::Sent(error_of(outcome)),
            FetchEvent::Read(outcome) => FetchEventView::Read(
                match outcome {
                    Ok(()) => Ok(()),
                    Err(reason) => Err(reason@),
                },
            ),
        }
    }
}

impl View for Fetching {
    type V = FetchView;

    open spec fn view(&self) -> FetchView {
        FetchView {
            number: self.retrying.number as nat,
            what: self.what@,
            unreadable: self.unreadable@,
            next: self.next@,
        }
    }
}

/// Before the first request.
pub open spec fn fetch_start(what: Seq<char>, unreadable: Seq<char>) -> FetchView {
    FetchView { number: 1, what, unreadable, next: FetchNextView::Send { wait: 0 } }
}

/// The state after the step that was asked for went as the event says. An event that
/// answers something else changes nothing.
pub open spec fn fetch_step(f: FetchView, e: FetchEventView) -> FetchView {
    match (f.next, e) {
        (FetchNextView::Send { .. }, FetchEventView::Sent(outcome)) => match judged(
            f.number,
            outcome,
            f.what,
        ) {
            AttemptView::Again { seconds } => FetchView {
                number: f.number + 1,
                next: FetchNextView::Send { wait: seconds },
                ..f
            },
            AttemptView::Answered => FetchView { next: FetchNextView::Read, ..f },
            AttemptView::Failed(failure) => FetchView { next: FetchNextView::Fail(failure), ..f },
        },
        (FetchNextView::Read, FetchEventView::Read(outcome)) => FetchView {
            next: match outcome {
                Ok(()) => FetchNextView::Done,
                Err(reason) => FetchNextView::Fail(unreadable_reply(f.unreadable, reason)),
            },
            ..f
        },
        _ => f,
    }
}

impl Fetching {
    /// Before the first request. `what` is what the command is trying to do, `unreadable`
    /// what to say of an answer that cannot be read.
    pub fn start(what: &str, unreadable: &str) -> (r: Fetching)
        ensures
            r@ == fetch_start(what@, unreadable@),
    {
        Fetching {
            retrying: Retrying::start(),
            what: what.to_owned(),
            unreadable: unreadable.to_owned(),
            next: FetchNext::Send { wait: 0 },
        }
    }

    /// The state after the step that was asked for went as the event says.
    pub fn step(self, event: FetchEvent) -> (r: Fetching)
        ensures
            r@ == fetch_step(self@, event@),
    {
        match (&self.next, event) {
            (FetchNext::Send { .. }, FetchEvent::Sent(outcome)) => {
                let mut retrying: Retrying = self.retrying;
                let next: FetchNext = match retrying.judge(outcome, self.what.as_str()) {
                    Attempt::Again { seconds } => FetchNext::Send { wait: seconds },
                    Attempt::Answered => FetchNext::Read,
                    Attempt::Failed(failure) => FetchNext::Fail(failure),
                };
                Fetching { retrying, what: self.what, unreadable: self.unreadable, next }
            },
            (FetchNext::Read, FetchEvent::Read(outcome)) => {
                let next: FetchNext = match outcome {
                    Ok(()) => FetchNext::Done,
                    Err(reason) => FetchNext::Fail(
                        reply_failure(self.unreadable.as_str(), reason.as_str()),
                    ),
                };
                Fetching { next, ..self }
            },
            _ => self,
        }
    }
}

/// How many requests are sent when attempt number `number` and those after it go as the
/// outcomes say.
pub open spec fn requests_sent(
    outcomes: Seq<Option<HttpErrorView>>,
    number: nat,
    what: Seq<char>,
) -> nat
    decreases outcomes.len(),
{
    if outcomes.len() == 0 {
        0
    } else if judged(number, outcomes.first(), what) is Again {
        1 + requests_sent(outcomes.drop_first(), number + 1, what)
    } else {
        1
    }
}

/// However the attempts go, no request is sent more often than allowed.
pub proof fn law_attempts_are_bounded(
    outcomes: Seq<Option<HttpErrorView>>,
    number: nat,
    what: Seq<char>,
)
    requires
        1 <= number <= CONNECT_ATTEMPTS,
    ensures
        requests_sent(outcomes, number, what) <= CONNECT_ATTEMPTS - number + 1,
    decreases outcomes.len(),
{
    if outcomes.len() > 0 && judged(number, outcomes.first(), what) is Again {
        law_attempts_are_bounded(outcomes.drop_first(), number + 1, what);
    }
}

/// A request that the server answered is not sent again, whatever the answer was: it
/// would be the same.
pub proof fn law_answers_are_final(number: nat, outcome: Option<HttpErrorView>, what: Seq<char>)
    requires
        outcome matches Some(error) ==> error is Status,
    ensures
        judged(number, outcome, what) !is Again,
{
}

/// A failed connection is tried again until the attempts are used up, and the last one
/// is told as a service that cannot be reached.
pub proof fn law_failed_connections_are_retried(number: nat, message: Seq<char>, what: Seq<char>)
    ensures
        ({
            let outcome = Some(HttpErrorView::Transport { message });
            if number < CONNECT_ATTEMPTS {
                judged(number, outcome, what) is Again
            } else {
                judged(number, outcome, what) matches AttemptView::Failed(failure) && failure.code
                    == EXIT_SERVICE
            }
        }),
{
}

/// The exit code tells a script whether to try again: it says that the service could not
/// be reached exactly if the connection failed or the server itself is in trouble, and
/// else that the request was rejected.
pub proof fn law_exit_code_tells_the_kind(error: HttpErrorView, what: Seq<char>)
    ensures
        response_failure(error, what).code == match error {
            HttpErrorView::Transport { .. } => EXIT_SERVICE,
            HttpErrorView::Status { code, .. } => if 500 <= code <= 599 {
                EXIT_SERVICE
            } else {
                EXIT_REJECTED
            },
        },
{
}

/// The state of asking the server after the given events, from the start.
pub open spec fn fetch_after(
    what: Seq<char>,
    unreadable: Seq<char>,
    events: Seq<FetchEventView>,
) -> FetchView
    decreases events.len(),
{
    if events.len() == 0 {
        fetch_start(what, unreadable)
    } else {
        fetch_step(fetch_after(what, unreadable, events.drop_last()), events.last())
    }
}

/// How many of the events are answers to a request that was asked for.
pub open spec fn fetch_requests(
    what: Seq<char>,
    unreadable: Seq<char>,
    events: Seq<FetchEventView>,
) -> nat
    decreases events.len(),
{
    if events.len() == 0 {
        0
    } else {
        let before = events.drop_last();
        fetch_requests(what, unreadable, before) + if fetch_after(what, unreadable, before).next
            is Send && events.last() is Sent {
            1nat
        } else {
            0
        }
    }
}

/// Whatever the network does, asking the server takes no more requests than allowed.
pub proof fn law_fetch_requests_are_bounded(
    what: Seq<char>,
    unreadable: Seq<char>,
    events: Seq<FetchEventView>,
)
    ensures
        fetch_requests(what, unreadable, events) <= CONNECT_ATTEMPTS,
        fetch_after(what, unreadable, events).next is Send ==> fetch_requests(
            what,
            unreadable,
            events,
        ) + 1 == fetch_after(what, unreadable, events).number <= CONNECT_ATTEMPTS,
    decreases events.len(),
{
    if events.len() > 0 {
        law_fetch_requests_are_bounded(what, unreadable, events.drop_last());
    }
}

/// The text holds nothing but white space.
pub open spec fn is_blank(s: Seq<char>) -> bool {
    forall|i: int| 0 <= i < s.len() ==> is_white_space(#[trigger] s[i])
}

/// What the server has to say is told whole: the message that its answer carries, whatever
/// it is, or else the body without the white space around it, or else its code.
pub proof fn law_server_is_quoted(
    code: u16,
    body: Seq<char>,
    message: Seq<char>,
    other_code: u16,
    other_body: Seq<char>,
)
    ensures
        server_says(code, body, Some(message)) == message,
        !is_blank(body) ==> server_says(code, body, None) == trimmed(body),
        is_blank(body) && is_blank(other_body) ==> same_words(
            server_says(code, body, None),
            seq![decimal_digits(code as nat)],
            server_says(other_code, other_body, None),
            seq![decimal_digits(other_code as nat)],
        ),
{
    law_trimmed(body);
    law_trimmed(other_body);
    let no = Seq::<char>::empty();
    let words = "the server answered with HTTP "@;
    let (x, y) = (decimal_digits(code as nat), decimal_digits(other_code as nat));
    lemma_same_words(words, no, x, y);
    assert(words + x + no =~= words + x);
    assert(words + y + no =~= words + y);
}

/// A new login would help: the server knows no such token, or says so of it.
pub open spec fn login_would_help(code: u16, message: Seq<char>) -> bool {
    code == 401 || code == 403 && occurs("token"@, message)
}

/// There are three ways to tell an error status, and each holds all that the server says:
/// with the advice to log in, exactly if that would help; as trouble of the server, exactly
/// on its codes from 500 to 599; and else as it is.
pub proof fn law_error_statuses_are_told(a: u16, x: Seq<char>, b: u16, y: Seq<char>)
    ensures
        login_would_help(a, x) && login_would_help(b, y) || 500 <= a <= 599 && 500 <= b <= 599
            ==> told_alike(status_failure(a, x), seq![x], status_failure(b, y), seq![y]),
        login_would_help(a, x) ==> status_failure(a, x).message.len() > x.len()
            && status_failure(a, x).code == EXIT_REJECTED,
        500 <= a <= 599 ==> status_failure(a, x).message.len() > x.len() && status_failure(
            a,
            x,
        ).code == EXIT_SERVICE,
        !login_would_help(a, x) && !(500 <= a <= 599) ==> status_failure(a, x).message == x
            && status_failure(a, x).code == EXIT_REJECTED,
{
    let no = Seq::<char>::empty();
    let hint = "\nRun `moa-submitter login` to get a new token."@;
    let trouble = "The competition server is having trouble: "@;
    reveal_strlit("\nRun `moa-submitter login` to get a new token.");
    reveal_strlit("The competition server is having trouble: ");
    lemma_same_words(no, hint, x, y);
    lemma_same_words(trouble, no, x, y);
    assert(no + x + hint =~= x + hint);
    assert(no + y + hint =~= y + hint);
    assert(trouble + x + no =~= trouble + x);
    assert(trouble + y + no =~= trouble + y);
}

/// An error status is told by its code and what the server says in its answer, and not by
/// what the command was trying to do; a lost connection is told with both that and its
/// reason, and so is a reply that cannot be read.
pub proof fn law_errors_are_told(
    code: u16,
    body: Seq<char>,
    x: (Seq<char>, Seq<char>),
    y: (Seq<char>, Seq<char>),
)
    ensures
        response_failure(HttpErrorView::Status { code, body }, x.0) == status_failure(
            code,
            server_says(code, body, json_string_member(body, "message"@)),
        ),
        told_alike(
            response_failure(HttpErrorView::Transport { message: x.1 }, x.0),
            seq![x.0, x.1],
            response_failure(HttpErrorView::Transport { message: y.1 }, y.0),
            seq![y.0, y.1],
        ),
        told_alike(
            unreadable_reply(x.0, x.1),
            seq![x.0, x.1],
            unreadable_reply(y.0, y.1),
            seq![y.0, y.1],
        ),
{
    let no = Seq::<char>::empty();
    let words = "Cannot reach the competition server while trying to "@;
    lemma_same_words_two(words, ": "@, no, x, y);
    lemma_same_words_two(no, ": "@, no, x, y);
    assert(words + x.0 + ": "@ + x.1 + no =~= words + x.0 + ": "@ + x.1);
    assert(words + y.0 + ": "@ + y.1 + no =~= words + y.0 + ": "@ + y.1);
    assert(no + x.0 + ": "@ + x.1 + no =~= x.0 + ": "@ + x.1);
    assert(no + y.0 + ": "@ + y.1 + no =~= y.0 + ": "@ + y.1);
}

/// An attempt that is answered well is over whatever its number. A lost connection is tried
/// three times, after a wait of one second and then of two. One that fails for good fails
/// with what its error stands for. No request is waited for longer than half a minute.
pub proof fn law_attempts_are_judged(number: nat, error: HttpErrorView, what: Seq<char>)
    ensures
        judged(number, None, what) is Answered,
        judged(number, Some(error), what) == if error is Transport && number < 3 {
            AttemptView::Again { seconds: number }
        } else {
            AttemptView::Failed(response_failure(error, what))
        },
        HTTP_TIMEOUT == 30,
{
}

/// A request is sent, and sent again as often as its attempts are judged worth it; then its
/// answer is read, and that is all. What goes wrong ends it with the failure that it stands
/// for. An event that answers something else changes nothing.
pub proof fn law_fetching_takes_its_steps(
    f: FetchView,
    outcome: Option<HttpErrorView>,
    reason: Seq<char>,
)
    ensures
        ({
            let sent = fetch_step(f, FetchEventView::Sent(outcome));
            let done = fetch_step(f, FetchEventView::Read(Ok(())));
            let lost = fetch_step(f, FetchEventView::Read(Err(reason)));
            &&& sent.what == f.what && sent.unreadable == f.unreadable
            &&& if f.next is Send {
                &&& match judged(f.number, outcome, f.what) {
                    AttemptView::Again { seconds } => sent.next == FetchNextView::Send {
                        wait: seconds,
                    } && sent.number == f.number + 1,
                    AttemptView::Answered => sent.next is Read,
                    AttemptView::Failed(failure) => sent.next == FetchNextView::Fail(failure),
                }
            } else {
                sent == f
            }
            &&& if f.next is Read {
                &&& done.next is Done
                &&& lost.next == FetchNextView::Fail(unreadable_reply(f.unreadable, reason))
            } else {
                done == f && lost == f
            }
        }),
        fetch_start(f.what, reason).what == f.what,
        fetch_start(f.what, reason).unreadable == reason,
        fetch_start(f.what, reason).number == 1,
        fetch_start(f.what, reason).next == (FetchNextView::Send { wait: 0 }),
{
}

/// What is seen of errors, attempts and steps is what they hold.
pub proof fn law_http_views(
    code: u16,
    text: String,
    seconds: u64,
    failure: Failure,
    error: HttpError,
    query: Query,
    fetching: Fetching,
)
    ensures
        (HttpError::Status { code, body: text })@ == (HttpErrorView::Status { code, body: text@ }),
        (HttpError::Transport { message: text })@ == (HttpErrorView::Transport { message: text@ }),
        (Attempt::Again { seconds })@ == (AttemptView::Again { seconds: seconds as nat }),
        Attempt::Answered@ is Answered,
        Attempt::Failed(failure)@ == AttemptView::Failed(failure@),
        error_of(Some(error)) == Some(error@),
        error_of(None) is None,
        query@.url == query.url@ && query@.what == query.what@ && query@.unreadable
            == query.unreadable@,
        (FetchNext::Send { wait: seconds })@ == (FetchNextView::Send { wait: seconds as nat }),
        FetchNext::Read@ is Read,
        FetchNext::Done@ is Done,
        FetchNext::Fail(failure)@ == FetchNextView::Fail(failure@),
        FetchEvent::Sent(Some(error))@ == FetchEventView::Sent(Some(error@)),
        FetchEvent::Sent(None)@ == FetchEventView::Sent(None),
        FetchEvent::Read(Ok(()))@ == FetchEventView::Read(Ok(())),
        FetchEvent::Read(Err(text))@ == FetchEventView::Read(Err(text@)),
        fetching@.what == fetching.what@ && fetching@.unreadable == fetching.unreadable@
            && fetching@.next == fetching.next@ && fetching@.number == fetching.retrying.number,
{
}

} // verus!

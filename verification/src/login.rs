//! Logging in: the user types a code in the browser while the command asks the server,
//! again and again, whether that has happened.

use vstd::prelude::*;

use crate::failure::{told_alike, Failure, FailureView, EXIT_REJECTED};
use crate::http::{
    law_errors_are_told, reply_failure, response_failure, unreadable_reply, unwrap_response,
    HttpError, HttpErrorView, Query, QueryView,
};
use crate::server::{login_poll_address, login_poll_url, login_start_address, login_start_url};
use crate::text::{lemma_same_words, same_text, same_words, text_of, texts};

verus! {

/// A login is given up after this many seconds.
pub const LOGIN_TIMEOUT: u64 = 600;

/// The seconds between two questions unless the server says otherwise.
pub const DEFAULT_INTERVAL: u64 = 5;

/// The fewest and the most seconds between two questions.
pub const SHORTEST_INTERVAL: u64 = 1;

pub const LONGEST_INTERVAL: u64 = 60;

/// What the server says when a login starts.
#[derive(Debug)]
pub struct DeviceStart {
    pub device_code: String,
    pub user_code: String,
    pub verification_url: String,
    pub interval: Option<u64>,
}

/// What the server says when it is asked whether a login has finished: how it stands, the
/// token, and the name of the account.
#[derive(Debug)]
pub struct DevicePoll {
    pub status: String,
    pub token: Option<String>,
    pub user: Option<String>,
}

/// What a [`DevicePoll`] says.
pub struct DevicePollView {
    pub status: Seq<char>,
    pub token: Option<Seq<char>>,
    pub user: Option<Seq<char>>,
}

impl View for DevicePoll {
    type V = DevicePollView;

    open spec fn view(&self) -> DevicePollView {
        DevicePollView {
            status: self.status@,
            token: text_of(self.token),
            user: text_of(self.user),
        }
    }
}

/// The question with which a login starts.
pub open spec fn login_question(server: Seq<char>) -> QueryView {
    QueryView {
        url: login_start_address(server),
        what: "start a login"@,
        unreadable: "The server sent a login reply we could not read"@,
    }
}

/// The seconds between two questions: what the server asked for, within bounds.
pub open spec fn poll_interval(asked: Option<u64>) -> nat {
    let seconds = match asked {
        Some(s) => s,
        None => DEFAULT_INTERVAL,
    };
    if seconds < SHORTEST_INTERVAL {
        SHORTEST_INTERVAL as nat
    } else if seconds > LONGEST_INTERVAL {
        LONGEST_INTERVAL as nat
    } else {
        seconds as nat
    }
}

/// What is printed when a login starts, one piece for each line that is printed.
pub open spec fn login_prompt(user_code: Seq<char>, verification_url: Seq<char>) -> Seq<Seq<char>> {
    seq![
        "Your one-time code: "@ + user_code + "\n"@,
        "Enter it at:\n\n  "@ + verification_url + "\n"@,
    ]
}

/// What is printed while the user is in the browser.
pub open spec fn waiting_text() -> Seq<char> {
    "Waiting for you to finish in the browser... (Ctrl-C to cancel)"@
}

/// What is printed when a login has finished and the token lies at `path`.
pub open spec fn logged_in(user: Option<Seq<char>>, path: Seq<char>) -> Seq<Seq<char>> {
    seq![
        "\nLogged in as "@ + (match user {
            Some(name) => name,
            None => "your GitHub account"@,
        }) + "."@,
        "Token saved to "@ + path + " (valid for 30 days)."@,
    ]
}

/// The outcome of a question to the server.
#[derive(Debug)]
pub enum PollOutcome {
    /// There is no good answer.
    Error(HttpError),
    /// There is an answer, and it could not be read.
    Unreadable(String),
    /// The answer.
    Answer(DevicePoll),
}

/// What a [`PollOutcome`] says.
pub enum PollOutcomeView {
    Error(HttpErrorView),
    Unreadable(Seq<char>),
    Answer(DevicePollView),
}

impl View for PollOutcome {
    type V = PollOutcomeView;

    open spec fn view(&self) -> PollOutcomeView {
        match *self {
            PollOutcome::Error(error) => PollOutcomeView::Error(error@),
            PollOutcome::Unreadable(reason) => PollOutcomeView::Unreadable(reason@),
            PollOutcome::Answer(poll) => PollOutcomeView::Answer(poll@),
        }
    }
}

/// What a login asks for.
#[derive(Debug)]
pub enum LoginNext {
    /// See how many seconds have passed since the start.
    CheckClock,
    /// Wait for the interval and ask the server.
    Poll,
    /// Store this token; the account has this name.
    Save { token: String, user: Option<String> },
    /// Print these lines: the user is logged in.
    Done(Vec<String>),
    /// Nothing: the login has failed.
    Fail(Failure),
}

/// How a step of a login went.
#[derive(Debug)]
pub enum LoginEvent {
    /// So many whole seconds have passed since the start.
    Elapsed(u64),
    /// The outcome of the question.
    Polled(PollOutcome),
    /// The token is stored at this path, or why it could not be.
    Saved(Result<String, Failure>),
}

/// What a [`LoginNext`] asks for.
pub enum LoginNextView {
    CheckClock,
    Poll,
    Save { token: Seq<char>, user: Option<Seq<char>> },
    Done(Seq<Seq<char>>),
    Fail(FailureView),
}

/// What a [`LoginEvent`] says.
pub enum LoginEventView {
    Elapsed(nat),
    Polled(PollOutcomeView),
    Saved(Result<Seq<char>, FailureView>),
}

impl View for LoginNext {
    type V = LoginNextView;

    open spec fn view(&self) -> LoginNextView {
        match *self {
            LoginNext::CheckClock => LoginNextView::CheckClock,
            LoginNext::Poll => LoginNextView::Poll,
            LoginNext::Save { token, user } => LoginNextView::Save {
                token: token@,
                user: text_of(user),
            },
            LoginNext::Done(lines) => LoginNextView::Done(texts(lines@)),
            LoginNext::Fail(failure) => LoginNextView::Fail(failure@),
        }
    }
}

impl View for LoginEvent {
    type V = LoginEventView;

    open spec fn view(&self) -> LoginEventView {
        match *self {
            LoginEvent::Elapsed(seconds) => LoginEventView::Elapsed(seconds as nat),
            LoginEvent::Polled(outcome) => LoginEventView::Polled(outcome@),
            LoginEvent::Saved(outcome) => LoginEventView::Saved(
                match outcome {
                    Ok(path) => Ok(path@),
                    Err(failure) => Err(failure@),
                },
            ),
        }
    }
}

/// What follows the outcome of a question. Only an account that is authorized has logged
/// in; a connection that fails is no reason to give up while the user is in the browser.
pub open spec fn after_poll(outcome: PollOutcomeView) -> LoginNextView {
    match outcome {
        PollOutcomeView::Error(HttpErrorView::Transport { .. }) => LoginNextView::CheckClock,
        PollOutcomeView::Error(HttpErrorView::Status { code, body }) => LoginNextView::Fail(
            if code == 404 {
                FailureView::rejected(
                    "This login request expired. Run `moa-submitter login` to try again."@,
                )
            } else {
                response_failure(HttpErrorView::Status { code, body }, "finish the login"@)
            },
        ),
        PollOutcomeView::Unreadable(reason) => LoginNextView::Fail(
            unreadable_reply("The server sent a login reply we could not read"@, reason),
        ),
        PollOutcomeView::Answer(poll) => if poll.status != "authorized"@ {
            LoginNextView::CheckClock
        } else {
            match poll.token {
                Some(token) => LoginNextView::Save { token, user: poll.user },
                None => LoginNextView::Fail(
                    FailureView::service(
                        "The server authorized the login but sent no token."@,
                    ),
                ),
            }
        },
    }
}

/// What follows the step that was asked for when it went as the event says. An event that
/// answers something else changes nothing.
pub open spec fn login_step(next: LoginNextView, e: LoginEventView) -> LoginNextView {
    match (next, e) {
        (LoginNextView::CheckClock, LoginEventView::Elapsed(seconds)) => if seconds
            >= LOGIN_TIMEOUT {
            LoginNextView::Fail(
                FailureView::rejected(
                    "Login timed out after 10 minutes. Run `moa-submitter login` to try again."@,
                ),
            )
        } else {
            LoginNextView::Poll
        },
        (LoginNextView::Poll, LoginEventView::Polled(outcome)) => after_poll(outcome),
        (LoginNextView::Save { token, user }, LoginEventView::Saved(outcome)) => match outcome {
            Ok(path) => LoginNextView::Done(logged_in(user, path)),
            Err(failure) => LoginNextView::Fail(failure),
        },
        _ => next,
    }
}

/// What a login asks for after the given events, from its start.
pub open spec fn login_after(events: Seq<LoginEventView>) -> LoginNextView
    decreases events.len(),
{
    if events.len() == 0 {
        LoginNextView::CheckClock
    } else {
        login_step(login_after(events.drop_last()), events.last())
    }
}

/// A login that has started.
#[derive(Debug)]
pub struct Login {
    /// Where to ask whether the login has finished.
    pub poll_url: String,
    /// The seconds to wait before each question.
    pub interval: u64,
    pub next: LoginNext,
}

/// The question with which a login starts.
pub fn login_query(server: &str) -> (r: Query)
    ensures
        r@ == login_question(server@),
{
    Query {
        url: login_start_url(server),
        what: "start a login".to_owned(),
        unreadable: "The server sent a login reply we could not read".to_owned(),
    }
}

/// The seconds between two questions.
fn interval_of(asked: Option<u64>) -> (r: u64)
    ensures
        r == poll_interval(asked),
{
    let seconds: u64 = match asked {
        Some(s) => s,
        None => DEFAULT_INTERVAL,
    };
    if seconds < SHORTEST_INTERVAL {
        SHORTEST_INTERVAL
    } else if seconds > LONGEST_INTERVAL {
        LONGEST_INTERVAL
    } else {
        seconds
    }
}

/// What is printed when a login starts.
pub fn login_prompt_lines(start: &DeviceStart) -> (r: Vec<String>)
    ensures
        texts(r@) == login_prompt(start.user_code@, start.verification_url@),
{
    let mut r: Vec<String> = Vec::new();
    r.push("Your one-time code: ".to_owned().concat(start.user_code.as_str()).concat("\n"));
    r.push("Enter it at:\n\n  ".to_owned().concat(start.verification_url.as_str()).concat("\n"));
    assert(texts(r@) =~= login_prompt(start.user_code@, start.verification_url@));
    r
}

/// What is printed while the user is in the browser.
pub fn waiting_line() -> (r: String)
    ensures
        r@ == waiting_text(),
{
    "Waiting for you to finish in the browser... (Ctrl-C to cancel)".to_owned()
}

/// What is printed when a login has finished.
fn logged_in_lines(user: Option<String>, path: &str) -> (r: Vec<String>)
    ensures
        texts(r@) == logged_in(text_of(user), path@),
{
    let who: String = match user {
        Some(name) => name,
        None => "your GitHub account".to_owned(),
    };
    let mut r: Vec<String> = Vec::new();
    r.push("\nLogged in as ".to_owned().concat(who.as_str()).concat("."));
    r.push("Token saved to ".to_owned().concat(path).concat(" (valid for 30 days)."));
    assert(texts(r@) =~= logged_in(text_of(user), path@));
    r
}

/// What follows the outcome of a question.
fn judge_poll(outcome: PollOutcome) -> (r: LoginNext)
    ensures
        r@ == after_poll(outcome@),
{
    match outcome {
        PollOutcome::Error(HttpError::Transport { .. }) => LoginNext::CheckClock,
        PollOutcome::Error(HttpError::Status { code, body }) => if code == 404 {
            LoginNext::Fail(
                Failure::rejected(
                    "This login request expired. Run `moa-submitter login` to try again.".to_owned(),
                ),
            )
        } else {
            LoginNext::Fail(unwrap_response(HttpError::Status { code, body }, "finish the login"))
        },
        PollOutcome::Unreadable(reason) => LoginNext::Fail(
            reply_failure(
                "The server sent a login reply we could not read",
                reason.as_str(),
            ),
        ),
        PollOutcome::Answer(poll) => if !same_text(poll.status.as_str(), "authorized") {
            LoginNext::CheckClock
        } else {
            match poll.token {
                Some(token) => LoginNext::Save { token, user: poll.user },
                None => LoginNext::Fail(
                    Failure::service(
                        "The server authorized the login but sent no token.".to_owned(),
                    ),
                ),
            }
        },
    }
}

impl Login {
    /// The login that the server has started.
    pub fn start(server: &str, start: &DeviceStart) -> (r: Login)
        ensures
            r.poll_url@ == login_poll_address(server@, start.device_code@),
            r.interval == poll_interval(start.interval),
            r.next@ == LoginNextView::CheckClock,
    {
        Login {
            poll_url: login_poll_url(server, start.device_code.as_str()),
            interval: interval_of(start.interval),
            next: LoginNext::CheckClock,
        }
    }

    /// The login after the step that was asked for went as the event says.
    pub fn step(self, event: LoginEvent) -> (r: Login)
        ensures
            r.next@ == login_step(self.next@, event@),
            r.poll_url@ == self.poll_url@,
            r.interval == self.interval,
    {
        match (self.next, event) {
            (LoginNext::CheckClock, LoginEvent::Elapsed(seconds)) => {
                let next: LoginNext = if seconds >= LOGIN_TIMEOUT {
                    LoginNext::Fail(
                        Failure::rejected(
                            "Login timed out after 10 minutes. Run `moa-submitter login` to try again.".to_owned(),
                        ),
                    )
                } else {
                    LoginNext::Poll
                };
                Login { poll_url: self.poll_url, interval: self.interval, next }
            },
            (LoginNext::Poll, LoginEvent::Polled(outcome)) => {
                let next: LoginNext = judge_poll(outcome);
                Login { poll_url: self.poll_url, interval: self.interval, next }
            },
            (LoginNext::Save { token, user }, LoginEvent::Saved(outcome)) => {
                let next: LoginNext = match outcome {
                    Ok(path) => LoginNext::Done(logged_in_lines(user, path.as_str())),
                    Err(failure) => LoginNext::Fail(failure),
                };
                Login { poll_url: self.poll_url, interval: self.interval, next }
            },
            (next, _) => Login { poll_url: self.poll_url, interval: self.interval, next },
        }
    }
}

/// The server is asked neither more often than once a second nor less often than once a
/// minute, and as often as it wishes in between.
pub proof fn law_interval_is_bounded(asked: Option<u64>)
    ensures
        SHORTEST_INTERVAL <= poll_interval(asked) <= LONGEST_INTERVAL,
        asked matches Some(s) && SHORTEST_INTERVAL <= s <= LONGEST_INTERVAL ==> poll_interval(asked)
            == asked->0,
        asked is None ==> poll_interval(asked) == DEFAULT_INTERVAL,
{
}

/// A connection that fails while the user is in the browser, or an answer that the user
/// has not finished yet, leads to another question as long as there is time.
pub proof fn law_login_keeps_asking(outcome: PollOutcomeView, seconds: nat)
    requires
        seconds < LOGIN_TIMEOUT,
        match outcome {
            PollOutcomeView::Error(error) => error is Transport,
            PollOutcomeView::Answer(poll) => poll.status != "authorized"@,
            PollOutcomeView::Unreadable(_) => false,
        },
    ensures
        login_step(
            login_step(LoginNextView::Poll, LoginEventView::Polled(outcome)),
            LoginEventView::Elapsed(seconds),
        ) == LoginNextView::Poll,
{
}

/// An error status ends the login: a request that has expired, or an account that may not
/// log in, does not change by waiting.
pub proof fn law_error_status_ends_the_login(code: u16, body: Seq<char>)
    ensures
        login_step(
            LoginNextView::Poll,
            LoginEventView::Polled(PollOutcomeView::Error(HttpErrorView::Status { code, body })),
        ) is Fail,
{
}

/// No question is asked once the time is up: the login fails as rejected.
pub proof fn law_login_times_out(seconds: nat)
    requires
        seconds >= LOGIN_TIMEOUT,
    ensures
        login_step(LoginNextView::CheckClock, LoginEventView::Elapsed(seconds)) matches
            LoginNextView::Fail(failure) && failure.code == EXIT_REJECTED,
{
}

/// Event `i` is a look at the clock that left time for the question that is due after all
/// of the events: since then nothing else was asked for.
pub open spec fn leaves_time(events: Seq<LoginEventView>, i: int) -> bool {
    &&& 0 <= i < events.len()
    &&& login_after(events.take(i)) is CheckClock
    &&& events[i] matches LoginEventView::Elapsed(seconds) && seconds < LOGIN_TIMEOUT
    &&& forall|k: int| i < k <= events.len() ==> login_after(#[trigger] events.take(k)) is Poll
}

/// Every question follows its own look at the clock, and that look left time for it.
pub proof fn law_questions_are_in_time(events: Seq<LoginEventView>)
    requires
        login_after(events) is Poll,
    ensures
        exists|i: int| leaves_time(events, i),
    decreases events.len(),
{
    let before = events.drop_last();
    let n = before.len() as int;
    assert(events.take(n + 1) =~= events);
    assert(events.take(n) =~= before);
    if login_after(before) is Poll {
        law_questions_are_in_time(before);
        let i = choose|i: int| leaves_time(before, i);
        assert(events.take(i) =~= before.take(i));
        assert forall|k: int| i < k <= events.len() implies login_after(
            #[trigger] events.take(k),
        ) is Poll by {
            if k <= n {
                assert(events.take(k) =~= before.take(k));
            }
        }
        assert(leaves_time(events, i));
    } else {
        assert(leaves_time(events, n));
    }
}

/// A login only ever stores a token that the server sent together with its consent.
pub proof fn law_saved_token_was_granted(events: Seq<LoginEventView>)
    requires
        login_after(events) is Save,
    ensures
        exists|i: int|
            0 <= i < events.len() && (#[trigger] events[i] matches LoginEventView::Polled(
                PollOutcomeView::Answer(poll),
            ) && poll.status == "authorized"@ && poll.token == Some(
                login_after(events)->Save_token,
            )),
    decreases events.len(),
{
    let before = events.drop_last();
    if login_after(before) is Save {
        law_saved_token_was_granted(before);
        let i = choose|i: int|
            0 <= i < before.len() && (#[trigger] before[i] matches LoginEventView::Polled(
                PollOutcomeView::Answer(poll),
            ) && poll.status == "authorized"@ && poll.token == Some(
                login_after(before)->Save_token,
            ));
        assert(events[i] == before[i]);
    } else {
        assert(events[events.len() - 1] == events.last());
    }
}

/// The kind of system that the command runs on.
#[derive(Clone, Copy, Debug, PartialEq, Eq, Structural)]
pub enum Platform {
    MacOs,
    Windows,
    Other,
}

/// A program to start, with its arguments.
#[derive(Debug)]
pub struct Launch {
    pub program: String,
    pub args: Vec<String>,
}

/// The program and the arguments that open a page in the browser.
pub open spec fn browser_launch(platform: Platform, url: Seq<char>) -> (Seq<char>, Seq<Seq<char>>) {
    match platform {
        Platform::MacOs => ("open"@, seq![url]),
        Platform::Windows => ("cmd"@, seq!["/C"@, "start"@, ""@, url]),
        Platform::Other => ("xdg-open"@, seq![url]),
    }
}

/// The program and the arguments that open a page in the browser. Should it not start, the
/// login goes on all the same: the address is printed as well.
pub fn browser_command(platform: Platform, url: &str) -> (r: Launch)
    ensures
        (r.program@, texts(r.args@)) == browser_launch(platform, url@),
{
    let mut args: Vec<String> = Vec::new();
    let program: &str = match platform {
        Platform::MacOs => "open",
        Platform::Windows => {
            args.push("/C".to_owned());
            args.push("start".to_owned());
            args.push("".to_owned());
            "cmd"
        },
        Platform::Other => "xdg-open",
    };
    args.push(url.to_owned());
    assert(texts(args@) =~= browser_launch(platform, url@).1);
    Launch { program: program.to_owned(), args }
}

/// The seconds between two questions are those that the server asks for, but never less
/// than 1 nor more than 60, and 5 if it asks for none.
pub proof fn law_interval_is_the_nearest(asked: u64)
    ensures
        poll_interval(Some(asked)) == if asked < 1 {
            1
        } else if asked > 60 {
            60
        } else {
            asked as int
        },
        poll_interval(None) == 5,
{
}

/// Consent that comes with a token always leads to storing that token for that account,
/// whatever the token, and only consent without one fails for want of it. An answer that
/// is no consent leads back to the clock.
pub proof fn law_granted_token_is_saved(
    token: Seq<char>,
    user: Option<Seq<char>>,
    other_user: Option<Seq<char>>,
    status: Seq<char>,
    answer: DevicePollView,
)
    ensures
        login_step(
            LoginNextView::Poll,
            LoginEventView::Polled(
                PollOutcomeView::Answer(
                    DevicePollView { status: "authorized"@, token: Some(token), user },
                ),
            ),
        ) == (LoginNextView::Save { token, user }),
        login_step(
            LoginNextView::Poll,
            LoginEventView::Polled(
                PollOutcomeView::Answer(
                    DevicePollView { status: "authorized"@, token: None, user },
                ),
            ),
        ) is Fail,
        login_step(
            LoginNextView::Poll,
            LoginEventView::Polled(
                PollOutcomeView::Answer(
                    DevicePollView { status: "authorized"@, token: None, user },
                ),
            ),
        ) == login_step(
            LoginNextView::Poll,
            LoginEventView::Polled(
                PollOutcomeView::Answer(
                    DevicePollView { status: "authorized"@, token: None, user: other_user },
                ),
            ),
        ),
        login_step(
            LoginNextView::Poll,
            LoginEventView::Polled(PollOutcomeView::Answer(answer)),
        ) is Fail <==> answer.status == "authorized"@ && answer.token is None,
        answer.status != "authorized"@ ==> login_step(
            LoginNextView::Poll,
            LoginEventView::Polled(PollOutcomeView::Answer(answer)),
        ) is CheckClock,
{
}

/// A login that was granted a token and has stored it is done; one that could not store it
/// fails as storing did.
pub proof fn law_login_ends_with_the_store(
    token: Seq<char>,
    user: Option<Seq<char>>,
    path: Seq<char>,
    failure: FailureView,
)
    ensures
        login_step(
            LoginNextView::Save { token, user },
            LoginEventView::Saved(Ok(path)),
        ) == LoginNextView::Done(logged_in(user, path)),
        login_step(
            LoginNextView::Save { token, user },
            LoginEventView::Saved(Err(failure)),
        ) == LoginNextView::Fail(failure),
{
}

/// A question that goes wrong ends the login with what its error stands for, but for a lost
/// connection, which leads back to the clock, and for a request that has expired, which is
/// always told in the same way. What is wrong with a reply is told whole.
pub proof fn law_failed_questions(
    code: u16,
    body: Seq<char>,
    other: Seq<char>,
    x: Seq<char>,
    y: Seq<char>,
)
    ensures
        ({
            let after = |outcome: PollOutcomeView| login_step(
                LoginNextView::Poll,
                LoginEventView::Polled(outcome),
            );
            let status = |code: u16, body: Seq<char>| after(
                PollOutcomeView::Error(HttpErrorView::Status { code, body }),
            );
            &&& after(PollOutcomeView::Error(HttpErrorView::Transport { message: x })) is CheckClock
            &&& code != 404 ==> status(code, body) == LoginNextView::Fail(
                response_failure(HttpErrorView::Status { code, body }, x),
            )
            &&& status(404, body) is Fail && status(404, body) == status(404, other)
            &&& after(PollOutcomeView::Unreadable(x)) is Fail && after(
                PollOutcomeView::Unreadable(y),
            ) is Fail
            &&& told_alike(
                after(PollOutcomeView::Unreadable(x))->Fail_0,
                seq![x],
                after(PollOutcomeView::Unreadable(y))->Fail_0,
                seq![y],
            )
        }),
{
    law_errors_are_told(code, body, (x, x), (y, y));
    law_errors_are_told(code, body, ("finish the login"@, x), (y, y));
    let words = "The server sent a login reply we could not read"@ + ": "@;
    let no = Seq::<char>::empty();
    lemma_same_words(words, no, x, y);
    assert(words + x + no =~= words + x);
    assert(words + y + no =~= words + y);
}

/// The clock decides by the seconds alone: for ten minutes there is another question, and
/// from then on the login fails, always in the same way.
pub proof fn law_clock_decides(seconds: nat, other: nat)
    ensures
        seconds < 600 ==> login_step(
            LoginNextView::CheckClock,
            LoginEventView::Elapsed(seconds),
        ) is Poll,
        seconds >= 600 && other >= 600 ==> login_step(
            LoginNextView::CheckClock,
            LoginEventView::Elapsed(seconds),
        ) == login_step(LoginNextView::CheckClock, LoginEventView::Elapsed(other)),
{
}

/// An event that answers something else than what was asked for changes nothing, and a
/// login that is over stays as it is.
pub proof fn law_login_ignores_other_events(next: LoginNextView, e: LoginEventView)
    requires
        !(next is CheckClock && e is Elapsed),
        !(next is Poll && e is Polled),
        !(next is Save && e is Saved),
    ensures
        login_step(next, e) == next,
{
}

/// What is printed holds all of the code, the address, the name and the path, between the
/// same words; an account without a name is told in one way.
pub proof fn law_login_lines(x: (Seq<char>, Seq<char>), y: (Seq<char>, Seq<char>))
    ensures
        ({
            let (a, b) = (login_prompt(x.0, x.1), login_prompt(y.0, y.1));
            let (c, d) = (logged_in(Some(x.0), x.1), logged_in(Some(y.0), y.1));
            let (n, m) = (logged_in(None, x.1), logged_in(None, y.1));
            &&& a.len() == 2 && c.len() == 2 && n.len() == 2
            &&& same_words(a[0], seq![x.0], b[0], seq![y.0])
            &&& same_words(a[1], seq![x.1], b[1], seq![y.1])
            &&& same_words(c[0], seq![x.0], d[0], seq![y.0])
            &&& same_words(c[1], seq![x.1], d[1], seq![y.1])
            &&& n[0] == m[0] && n[1] == c[1]
        }),
{
    lemma_same_words("Your one-time code: "@, "\n"@, x.0, y.0);
    lemma_same_words("Enter it at:\n\n  "@, "\n"@, x.1, y.1);
    lemma_same_words("\nLogged in as "@, "."@, x.0, y.0);
    lemma_same_words("Token saved to "@, " (valid for 30 days)."@, x.1, y.1);
}

/// The page that is opened is the last thing handed to the program, whole, and nothing else
/// depends on it. The question with which a login starts goes to its address on the server,
/// and its words do not depend on that.
pub proof fn law_page_and_question(platform: Platform, x: Seq<char>, y: Seq<char>)
    ensures
        ({
            let (a, b) = (browser_launch(platform, x), browser_launch(platform, y));
            &&& a.0 == b.0
            &&& a.1.len() > 0 && a.1.last() == x
            &&& a.1.drop_last() == b.1.drop_last()
        }),
        login_question(x).url == login_start_address(x),
        login_question(x).what == login_question(y).what,
        login_question(x).unreadable == login_question(y).unreadable,
{
    assert(browser_launch(platform, x).1.drop_last() =~= browser_launch(
        platform,
        y,
    ).1.drop_last());
}

/// What is seen of answers, events and steps is what they hold.
pub proof fn law_login_views(
    text: String,
    user: Option<String>,
    lines: Vec<String>,
    failure: Failure,
    seconds: u64,
    poll: DevicePoll,
    outcome: PollOutcome,
    error: HttpError,
)
    ensures
        poll@.status == poll.status@ && poll@.token == text_of(poll.token) && poll@.user == text_of(
            poll.user,
        ),
        PollOutcome::Error(error)@ == PollOutcomeView::Error(error@),
        PollOutcome::Unreadable(text)@ == PollOutcomeView::Unreadable(text@),
        PollOutcome::Answer(poll)@ == PollOutcomeView::Answer(poll@),
        LoginNext::CheckClock@ is CheckClock,
        LoginNext::Poll@ is Poll,
        (LoginNext::Save { token: text, user })@ == (LoginNextView::Save {
            token: text@,
            user: text_of(user),
        }),
        LoginNext::Done(lines)@ == LoginNextView::Done(texts(lines@)),
        LoginNext::Fail(failure)@ == LoginNextView::Fail(failure@),
        LoginEvent::Elapsed(seconds)@ == LoginEventView::Elapsed(seconds as nat),
        LoginEvent::Polled(outcome)@ == LoginEventView::Polled(outcome@),
        LoginEvent::Saved(Ok(text))@ == LoginEventView::Saved(Ok(text@)),
        LoginEvent::Saved(Err(failure))@ == LoginEventView::Saved(Err(failure@)),
{
}

} // verus!

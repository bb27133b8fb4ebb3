//! The log of a submission.

use vstd::prelude::*;

use crate::http::{Query, QueryView};
use crate::server::{log_address, log_url};
use crate::submission::{status_text, Submission};
use crate::text::{
    is_white_space, law_trimmed_end, lemma_same_words, same_text, same_words, texts, trim_end,
    trimmed_end,
};

verus! {

/// The question for the log of a submission.
pub open spec fn log_question(server: Seq<char>, id: Seq<char>) -> QueryView {
    QueryView {
        url: log_address(server, id),
        what: "read the log"@,
        unreadable: "The server sent a log we could not read"@,
    }
}

/// The submission will not go on: its log is complete.
pub open spec fn is_over(one: Submission) -> bool {
    one.status@ == "completed"@ || one.status@ == "failed"@
}

/// What is printed of a log, one piece for each line that is printed: the log, and how the
/// submission stands unless it is over, so that a short log is not taken for a fault.
pub open spec fn log_output(text: Seq<char>, one: Submission) -> Seq<Seq<char>> {
    if trimmed_end(text).len() == 0 {
        seq!["No output yet — status: "@ + status_text(one)]
    } else if is_over(one) {
        seq![trimmed_end(text)]
    } else {
        seq![
            trimmed_end(text),
            "\n— "@ + status_text(one)
                + " · output appears as each stage finishes. Run this again for more."@,
        ]
    }
}

/// The question for the log of a submission.
pub fn log_query(server: &str, id: &str) -> (r: Query)
    ensures
        r@ == log_question(server@, id@),
{
    Query {
        url: log_url(server, id),
        what: "read the log".to_owned(),
        unreadable: "The server sent a log we could not read".to_owned(),
    }
}

/// What is printed of a log.
pub fn log_lines(text: &str, one: &Submission) -> (r: Vec<String>)
    ensures
        texts(r@) == log_output(text@, *one),
{
    let mut lines: Vec<String> = Vec::new();
    let body: String = trim_end(text);
    let status: String = one.display_status();
    if body.as_str().is_empty() {
        lines.push("No output yet — status: ".to_owned().concat(status.as_str()));
    } else {
        lines.push(body);
        if !same_text(one.status.as_str(), "completed") && !same_text(
            one.status.as_str(),
            "failed",
        ) {
            lines.push(
                "\n— ".to_owned().concat(status.as_str()).concat(
                    " · output appears as each stage finishes. Run this again for more.",
                ),
            );
        }
    }
    assert(texts(lines@) =~= log_output(text@, *one));
    lines
}

/// A log that holds more than white space is printed whole: what is printed first is the
/// beginning of it, and nothing but white space stands behind that.
pub proof fn law_whole_log_is_printed(text: Seq<char>, one: Submission)
    requires
        exists|i: int| 0 <= i < text.len() && !is_white_space(#[trigger] text[i]),
    ensures
        ({
            let lines = log_output(text, one);
            &&& lines.len() > 0
            &&& lines[0].is_prefix_of(text)
            &&& lines[0].len() > 0 && !is_white_space(lines[0].last())
            &&& forall|i: int| lines[0].len() <= i < text.len() ==> is_white_space(#[trigger] text[i])
        }),
{
    law_trimmed_end(text);
}

/// How a submission stands is told behind its log unless it has completed or failed, and in
/// place of a log that holds nothing but white space; each time in the same words, and with
/// the whole status.
pub proof fn law_log_tells_how_it_stands(
    text: Seq<char>,
    one: Submission,
    other_text: Seq<char>,
    other: Submission,
)
    ensures
        ({
            let blank = |s: Seq<char>| forall|i: int| 0 <= i < s.len() ==> is_white_space(#[trigger] s[i]);
            let over = |s: Submission| s.status@ == "completed"@ || s.status@ == "failed"@;
            let (a, b) = (log_output(text, one), log_output(other_text, other));
            &&& blank(text) || over(one) ==> a.len() == 1
            &&& !blank(text) && !over(one) ==> a.len() == 2
            &&& blank(text) && blank(other_text) ==> same_words(
                a[0],
                seq![status_text(one)],
                b[0],
                seq![status_text(other)],
            )
            &&& a.len() == 2 && b.len() == 2 ==> same_words(
                a[1],
                seq![status_text(one)],
                b[1],
                seq![status_text(other)],
            )
        }),
{
    law_trimmed_end(text);
    law_trimmed_end(other_text);
    let no = Seq::<char>::empty();
    let (x, y) = (status_text(one), status_text(other));
    let wait = "No output yet — status: "@;
    lemma_same_words(wait, no, x, y);
    assert(wait + x + no =~= wait + x);
    assert(wait + y + no =~= wait + y);
    lemma_same_words(
        "\n— "@,
        " · output appears as each stage finishes. Run this again for more."@,
        x,
        y,
    );
}

/// The question for a log goes to the address of that log, and its words do not depend on
/// it.
pub proof fn law_log_question(server: Seq<char>, id: Seq<char>, other: Seq<char>, other_id: Seq<char>)
    ensures
        log_question(server, id).url == log_address(server, id),
        log_question(server, id).what == log_question(other, other_id).what,
        log_question(server, id).unreadable == log_question(other, other_id).unreadable,
{
}

} // verus!

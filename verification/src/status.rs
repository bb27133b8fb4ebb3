//! The status command: what it asks the server for, and which submissions it lists.

use vstd::prelude::*;
use vstd::relations::injective_on;
use vstd::set_lib::*;

use crate::http::{Query, QueryView};
use crate::order::{comes_before, law_text_order, text_before};
use crate::server::{submission_address, submission_url, submissions_address, submissions_url};
use crate::submission::{is_shortenable, time_can_be_shortened, Submission};
use crate::table::{table, table_lines};
use crate::text::{as_slice, same_text, slice_text, text_of, texts};

verus! {

/// How many submissions are listed unless the user says otherwise.
pub const DEFAULT_SHOWN: usize = 20;

/// Which submissions to list.
#[derive(Clone, Copy, Debug, PartialEq, Eq, Structural)]
pub enum Shown {
    /// Every one of them.
    All,
    /// The most recent ones, at most so many.
    Recent(usize),
}

/// The question about one submission.
pub open spec fn submission_question(server: Seq<char>, id: Seq<char>) -> QueryView {
    QueryView {
        url: submission_address(server, id),
        what: "read the submission"@,
        unreadable: "The server sent a reply we could not read"@,
    }
}

/// The question that the status command asks: about one submission, or for the list.
pub open spec fn status_question(server: Seq<char>, submission: Option<Seq<char>>) -> QueryView {
    match submission {
        Some(id) => submission_question(server, id),
        None => QueryView {
            url: submissions_address(server),
            what: "list your submissions"@,
            unreadable: "The server sent a reply we could not read"@,
        },
    }
}

/// Which submissions the options ask for: all of them, or so many, or the default.
pub open spec fn shown_for(all: bool, count: Option<usize>) -> Shown {
    if all {
        Shown::All
    } else {
        Shown::Recent(
            match count {
                Some(n) => n,
                None => DEFAULT_SHOWN,
            },
        )
    }
}

/// When the submission was made, as the server wrote it. Times are compared as texts, on the
/// assumption that the server writes all of them in one form, like
/// `2026-09-09T04:12:31.001Z`: in one zone, with the year first and to the same precision.
/// Then the later of two times comes later as a text. A submission without a time counts as
/// older than all that have one.
pub open spec fn time_key(row: Submission) -> Seq<char> {
    match text_of(row.created_at) {
        Some(t) => t,
        None => Seq::empty(),
    }
}

/// Row `j` is more recent than row `i`: its time comes later, or they have one time and the
/// server lists row `j` first.
pub open spec fn more_recent(rows: Seq<Submission>, j: int, i: int) -> bool {
    ||| text_before(time_key(rows[i]), time_key(rows[j]))
    ||| time_key(rows[i]) == time_key(rows[j]) && j < i
}

/// The rows among the first `n` that are more recent than row `i`.
pub open spec fn newer_rows(rows: Seq<Submission>, i: int, n: int) -> Set<int> {
    Set::new(|j: int| 0 <= j < n && more_recent(rows, j, i))
}

/// How many rows are more recent than row `i`.
pub open spec fn rank(rows: Seq<Submission>, i: int) -> nat {
    newer_rows(rows, i, rows.len() as int).len()
}

/// Row `i` is listed.
pub open spec fn is_listed(rows: Seq<Submission>, shown: Shown, i: int) -> bool {
    match shown {
        Shown::All => true,
        Shown::Recent(n) => rank(rows, i) < n,
    }
}

/// The rows from row `from` on that are listed, in the order of the server.
pub open spec fn listed_from(rows: Seq<Submission>, shown: Shown, from: int) -> Seq<Submission>
    decreases rows.len() - from,
{
    if from >= rows.len() {
        Seq::empty()
    } else {
        let rest = listed_from(rows, shown, from + 1);
        if is_listed(rows, shown, from) {
            seq![rows[from]] + rest
        } else {
            rest
        }
    }
}

/// The rows that are listed, in the order of the server.
pub open spec fn listed(rows: Seq<Submission>, shown: Shown) -> Seq<Submission> {
    listed_from(rows, shown, 0)
}

/// What the status command prints of a list of submissions.
pub open spec fn status_list(rows: Seq<Submission>, shown: Shown) -> Seq<Seq<char>> {
    if rows.len() == 0 {
        seq!["You have no submissions yet. Run `moa-submitter submit` from your repository."@]
    } else {
        table(listed(rows, shown))
    }
}

/// The question about one submission.
pub fn submission_query(server: &str, id: &str) -> (r: Query)
    ensures
        r@ == submission_question(server@, id@),
{
    Query {
        url: submission_url(server, id),
        what: "read the submission".to_owned(),
        unreadable: "The server sent a reply we could not read".to_owned(),
    }
}

/// The question that the status command asks.
pub fn status_query(server: &str, submission: Option<&str>) -> (r: Query)
    ensures
        r@ == status_question(server@, slice_text(submission)),
{
    match submission {
        Some(id) => submission_query(server, id),
        None => Query {
            url: submissions_url(server),
            what: "list your submissions".to_owned(),
            unreadable: "The server sent a reply we could not read".to_owned(),
        },
    }
}

/// Which submissions the options ask for.
pub fn shown_by(all: bool, count: Option<usize>) -> (r: Shown)
    ensures
        r == shown_for(all, count),
{
    if all {
        Shown::All
    } else {
        match count {
            Some(n) => Shown::Recent(n),
            None => Shown::Recent(DEFAULT_SHOWN),
        }
    }
}

proof fn lemma_newer_rows_finite(rows: Seq<Submission>, i: int, n: int)
    requires
        0 <= n,
    ensures
        newer_rows(rows, i, n).finite(),
        newer_rows(rows, i, n).len() <= n,
{
    lemma_int_range(0, n);
    assert(newer_rows(rows, i, n).subset_of(set_int_range(0, n)));
    lemma_set_subset_finite(set_int_range(0, n), newer_rows(rows, i, n));
    lemma_len_subset(newer_rows(rows, i, n), set_int_range(0, n));
}

proof fn lemma_newer_rows_next(rows: Seq<Submission>, i: int, n: int)
    requires
        0 <= n,
    ensures
        newer_rows(rows, i, n + 1).len() == newer_rows(rows, i, n).len() + if more_recent(
            rows,
            n,
            i,
        ) {
            1int
        } else {
            0
        },
{
    lemma_newer_rows_finite(rows, i, n);
    if more_recent(rows, n, i) {
        assert(newer_rows(rows, i, n + 1) =~= newer_rows(rows, i, n).insert(n));
    } else {
        assert(newer_rows(rows, i, n + 1) =~= newer_rows(rows, i, n));
    }
}

/// When the submission was made, as the server wrote it.
fn key_of(row: &Submission) -> (r: &str)
    ensures
        r@ == time_key(*row),
{
    match &row.created_at {
        Some(t) => t.as_str(),
        None => {
            proof {
                reveal_strlit("");
                assert(""@ =~= Seq::<char>::empty());
            }
            ""
        },
    }
}

/// How many rows are more recent than row `i`.
fn rank_of(rows: &Vec<Submission>, i: usize) -> (r: usize)
    requires
        i < rows@.len(),
    ensures
        r == rank(rows@, i as int),
{
    let mut count: usize = 0;
    let mut j: usize = 0;
    let key: &str = key_of(&rows[i]);
    assert(newer_rows(rows@, i as int, 0) =~= Set::<int>::empty());
    while j < rows.len()
        invariant
            i < rows@.len(),
            j <= rows@.len(),
            count <= j,
            key@ == time_key(rows@[i as int]),
            count == newer_rows(rows@, i as int, j as int).len(),
        decreases rows.len() - j,
    {
        let other: &str = key_of(&rows[j]);
        proof {
            lemma_newer_rows_next(rows@, i as int, j as int);
        }
        if comes_before(key, other) || (j < i && same_text(key, other)) {
            count = count + 1;
        }
        j = j + 1;
    }
    count
}

/// The rows that are listed, in the order of the server.
pub fn recent(rows: Vec<Submission>, shown: Shown) -> (r: Vec<Submission>)
    ensures
        r@ == listed(rows@, shown),
{
    let limit: usize = match shown {
        Shown::All => {
            return all_rows(rows);
        },
        Shown::Recent(n) => n,
    };
    let mut keep: Vec<bool> = Vec::new();
    let mut i: usize = 0;
    while i < rows.len()
        invariant
            i <= rows@.len(),
            keep@.len() == i,
            shown == Shown::Recent(limit),
            forall|k: int| 0 <= k < i ==> keep@[k] == is_listed(rows@, shown, k),
        decreases rows.len() - i,
    {
        let place: usize = rank_of(&rows, i);
        keep.push(place < limit);
        i = i + 1;
    }
    let ghost given = rows@;
    let mut rest: Vec<Submission> = rows;
    let mut picked: Vec<Submission> = Vec::new();
    while rest.len() > 0
        invariant
            keep@.len() == given.len(),
            rest@.len() <= given.len(),
            forall|k: int| 0 <= k < given.len() ==> keep@[k] == is_listed(given, shown, k),
            rest@ == given.take(rest@.len() as int),
            picked@ == listed_from(given, shown, rest@.len() as int),
        decreases rest.len(),
    {
        if let Some(row) = rest.pop() {
            if keep[rest.len()] {
                picked.insert(0, row);
                assert(picked@ =~= listed_from(given, shown, rest@.len() as int));
            }
        }
    }
    picked
}

/// All of the rows.
fn all_rows(rows: Vec<Submission>) -> (r: Vec<Submission>)
    ensures
        r@ == listed(rows@, Shown::All),
{
    proof {
        lemma_all_listed(rows@, 0);
        assert(rows@.skip(0) =~= rows@);
    }
    rows
}

proof fn lemma_all_listed(rows: Seq<Submission>, from: int)
    requires
        0 <= from <= rows.len(),
    ensures
        listed_from(rows, Shown::All, from) == rows.skip(from),
    decreases rows.len() - from,
{
    if from < rows.len() {
        lemma_all_listed(rows, from + 1);
        assert(rows.skip(from) =~= seq![rows[from]] + rows.skip(from + 1));
    } else {
        assert(rows.skip(from) =~= Seq::<Submission>::empty());
    }
}

/// The times of the rows that are listed can be shortened.
pub open spec fn is_printable(rows: Seq<Submission>, shown: Shown) -> bool {
    forall|i: int|
        0 <= i < rows.len() && is_listed(rows, shown, i) ==> time_can_be_shortened(
            text_of((#[trigger] rows[i]).created_at),
        )
}

/// What stands in the list is a row that is listed.
proof fn lemma_listed_row(rows: Seq<Submission>, shown: Shown, from: int, k: int) -> (i: int)
    requires
        0 <= from <= rows.len(),
        0 <= k < listed_from(rows, shown, from).len(),
    ensures
        from <= i < rows.len(),
        is_listed(rows, shown, i),
        listed_from(rows, shown, from)[k] == rows[i],
    decreases rows.len() - from,
{
    let rest = listed_from(rows, shown, from + 1);
    if !is_listed(rows, shown, from) {
        lemma_listed_row(rows, shown, from + 1, k)
    } else if k == 0 {
        from
    } else {
        assert(listed_from(rows, shown, from)[k] == rest[k - 1]);
        lemma_listed_row(rows, shown, from + 1, k - 1)
    }
}

/// Whether the times of the rows that are listed can be shortened.
pub fn can_be_printed(rows: &Vec<Submission>, shown: Shown) -> (r: bool)
    ensures
        r == is_printable(rows@, shown),
{
    let mut i: usize = 0;
    while i < rows.len()
        invariant
            i <= rows@.len(),
            forall|k: int|
                0 <= k < i && is_listed(rows@, shown, k) ==> time_can_be_shortened(
                    text_of((#[trigger] rows@[k]).created_at),
                ),
        decreases rows.len() - i,
    {
        let listed: bool = match shown {
            Shown::All => true,
            Shown::Recent(n) => rank_of(rows, i) < n,
        };
        if listed && !is_shortenable(as_slice(&rows[i].created_at)) {
            assert(!time_can_be_shortened(text_of(rows@[i as int].created_at)));
            return false;
        }
        i = i + 1;
    }
    true
}

/// What the status command prints of a list of submissions.
pub fn status_lines(rows: Vec<Submission>, shown: Shown) -> (r: Vec<String>)
    requires
        is_printable(rows@, shown),
    ensures
        texts(r@) == status_list(rows@, shown),
{
    if rows.len() == 0 {
        let mut lines: Vec<String> = Vec::new();
        lines.push(
            "You have no submissions yet. Run `moa-submitter submit` from your repository.".to_owned(),
        );
        assert(texts(lines@) =~= status_list(rows@, shown));
        return lines;
    }
    let ghost given = rows@;
    let chosen: Vec<Submission> = recent(rows, shown);
    assert forall|k: int| 0 <= k < chosen@.len() implies time_can_be_shortened(
        text_of((#[trigger] chosen@[k]).created_at),
    ) by {
        let i = lemma_listed_row(given, shown, 0, k);
        assert(time_can_be_shortened(text_of(given[i].created_at)));
    }
    table_lines(&chosen)
}

/// Of two rows one is the more recent, and being more recent is transitive.
proof fn lemma_more_recent(rows: Seq<Submission>, i: int, j: int, k: int)
    ensures
        !more_recent(rows, i, i),
        i != j ==> more_recent(rows, i, j) || more_recent(rows, j, i),
        more_recent(rows, i, j) && more_recent(rows, j, k) ==> more_recent(rows, i, k),
{
    let (a, b, c) = (time_key(rows[i]), time_key(rows[j]), time_key(rows[k]));
    law_text_order(a, b, c);
    law_text_order(c, b, a);
}

/// The more recent of two rows has the lower rank.
proof fn lemma_rank_order(rows: Seq<Submission>, i: int, j: int)
    requires
        0 <= i < rows.len(),
        0 <= j < rows.len(),
        more_recent(rows, i, j),
    ensures
        rank(rows, i) < rank(rows, j),
{
    let n = rows.len() as int;
    let (above_i, above_j) = (newer_rows(rows, i, n), newer_rows(rows, j, n));
    lemma_newer_rows_finite(rows, i, n);
    lemma_newer_rows_finite(rows, j, n);
    lemma_more_recent(rows, i, i, i);
    assert forall|k: int| #[trigger] above_i.insert(i).contains(k) implies above_j.contains(k) by {
        lemma_more_recent(rows, k, i, j);
    }
    lemma_len_subset(above_i.insert(i), above_j);
}

/// The rows that are listed are the most recent ones: each of them is more recent than
/// every row that is not listed.
pub proof fn law_listed_rows_are_the_most_recent(
    rows: Seq<Submission>,
    shown: Shown,
    i: int,
    j: int,
)
    requires
        0 <= i < rows.len(),
        0 <= j < rows.len(),
        is_listed(rows, shown, i),
        !is_listed(rows, shown, j),
    ensures
        more_recent(rows, i, j),
{
    lemma_more_recent(rows, i, j, j);
    if more_recent(rows, j, i) {
        lemma_rank_order(rows, j, i);
    }
}

/// The rows from row `from` on that are listed.
spec fn listed_rows(rows: Seq<Submission>, shown: Shown, from: int) -> Set<int> {
    Set::new(|i: int| from <= i < rows.len() && is_listed(rows, shown, i))
}

proof fn lemma_listed_count(rows: Seq<Submission>, shown: Shown, from: int)
    requires
        0 <= from <= rows.len(),
    ensures
        listed_rows(rows, shown, from).finite(),
        listed_from(rows, shown, from).len() == listed_rows(rows, shown, from).len(),
    decreases rows.len() - from,
{
    let here = listed_rows(rows, shown, from);
    if from < rows.len() {
        lemma_listed_count(rows, shown, from + 1);
        let rest = listed_rows(rows, shown, from + 1);
        if is_listed(rows, shown, from) {
            assert(here =~= rest.insert(from));
        } else {
            assert(here =~= rest);
        }
    } else {
        assert(here =~= Set::<int>::empty());
    }
}

/// As many submissions are listed as were asked for, or all of them if there are fewer.
pub proof fn law_number_of_listed_rows(rows: Seq<Submission>, n: usize)
    ensures
        listed(rows, Shown::Recent(n)).len() == if n <= rows.len() {
            n as nat
        } else {
            rows.len()
        },
        listed(rows, Shown::All) == rows,
{
    let len = rows.len() as int;
    let shown = Shown::Recent(n);
    let bound = if n <= rows.len() {
        n as int
    } else {
        len
    };
    let r = |i: int| rank(rows, i) as int;
    let every = set_int_range(0, len);
    lemma_int_range(0, len);
    lemma_int_range(0, bound);
    assert(injective_on(r, every)) by {
        assert forall|i: int, j: int|
            every.contains(i) && every.contains(j) && #[trigger] r(i) == #[trigger] r(j) implies i
            == j by {
            if i != j {
                lemma_more_recent(rows, i, j, j);
                if more_recent(rows, i, j) {
                    lemma_rank_order(rows, i, j);
                } else {
                    lemma_rank_order(rows, j, i);
                }
            }
        }
    }
    // Every number below the number of rows is the rank of some row.
    let ranks = every.map(r);
    lemma_map_size(every, ranks, r);
    assert(ranks =~= every) by {
        assert forall|v: int| #[trigger] ranks.contains(v) implies every.contains(v) by {
            let i = choose|i: int| every.contains(i) && r(i) == v;
            lemma_rank_bound(rows, i);
        }
        lemma_subset_equality(ranks, every);
    }
    // The ranks of the listed rows are the numbers below the bound.
    let chosen = listed_rows(rows, shown, 0);
    lemma_listed_count(rows, shown, 0);
    assert(chosen.map(r) =~= set_int_range(0, bound)) by {
        assert forall|v: int| #[trigger] set_int_range(0, bound).contains(v) implies chosen.map(
            r,
        ).contains(v) by {
            assert(ranks.contains(v));
            let i = choose|i: int| every.contains(i) && r(i) == v;
            assert(chosen.contains(i));
        }
        assert forall|v: int| #[trigger] chosen.map(r).contains(v) implies set_int_range(
            0,
            bound,
        ).contains(v) by {
            let i = choose|i: int| chosen.contains(i) && r(i) == v;
            lemma_rank_bound(rows, i);
        }
    }
    vstd::relations::lemma_injective_on_subset(r, chosen, every);
    lemma_map_size(chosen, chosen.map(r), r);
    lemma_all_listed(rows, 0);
    assert(rows.skip(0) =~= rows);
}

/// A row is not more recent than itself, so fewer rows are than there are rows.
proof fn lemma_rank_bound(rows: Seq<Submission>, i: int)
    requires
        0 <= i < rows.len(),
    ensures
        rank(rows, i) < rows.len(),
{
    let n = rows.len() as int;
    let above = newer_rows(rows, i, n);
    lemma_newer_rows_finite(rows, i, n);
    lemma_more_recent(rows, i, i, i);
    lemma_int_range(0, n);
    assert(above.insert(i).subset_of(set_int_range(0, n)));
    lemma_len_subset(above.insert(i), set_int_range(0, n));
}

/// When a submission was made; nothing if the server does not say.
pub open spec fn made_at(row: Submission) -> Seq<char> {
    match row.created_at {
        Some(time) => time@,
        None => Seq::empty(),
    }
}

/// The rows with the given numbers, in the order of the server, are so many of the most
/// recent ones: every row that is left out was made before each of them, or at the same
/// time and stands behind it.
pub open spec fn are_most_recent(rows: Seq<Submission>, picked: Seq<int>) -> bool {
    &&& forall|k: int| 0 <= k < picked.len() ==> 0 <= #[trigger] picked[k] < rows.len()
    &&& forall|k: int, m: int|
        0 <= k < m < picked.len() ==> #[trigger] picked[k] < #[trigger] picked[m]
    &&& forall|i: int, k: int|
        0 <= i < rows.len() && !picked.contains(i) && 0 <= k < picked.len() ==> {
            let (out, kept) = (made_at(#[trigger] rows[i]), made_at(rows[#[trigger] picked[k]]));
            text_before(out, kept) || out == kept && picked[k] < i
        }
}

/// The rows with the given numbers.
pub open spec fn rows_at(rows: Seq<Submission>, picked: Seq<int>) -> Seq<Submission> {
    Seq::new(picked.len(), |k: int| rows[picked[k]])
}

/// The numbers of the rows from row `from` on that are listed.
spec fn listed_numbers(rows: Seq<Submission>, shown: Shown, from: int) -> Seq<int>
    decreases rows.len() - from,
{
    if from >= rows.len() {
        Seq::empty()
    } else if is_listed(rows, shown, from) {
        seq![from] + listed_numbers(rows, shown, from + 1)
    } else {
        listed_numbers(rows, shown, from + 1)
    }
}

proof fn lemma_listed_numbers(rows: Seq<Submission>, shown: Shown, from: int)
    requires
        0 <= from <= rows.len(),
    ensures
        ({
            let picked = listed_numbers(rows, shown, from);
            &&& listed_from(rows, shown, from) == rows_at(rows, picked)
            &&& forall|k: int|
                0 <= k < picked.len() ==> from <= #[trigger] picked[k] < rows.len() && is_listed(
                    rows,
                    shown,
                    picked[k],
                )
            &&& forall|k: int, m: int|
                0 <= k < m < picked.len() ==> #[trigger] picked[k] < #[trigger] picked[m]
            &&& forall|i: int|
                from <= i < rows.len() && #[trigger] is_listed(rows, shown, i) ==> picked.contains(i)
        }),
    decreases rows.len() - from,
{
    let picked = listed_numbers(rows, shown, from);
    if from < rows.len() {
        let rest = listed_numbers(rows, shown, from + 1);
        lemma_listed_numbers(rows, shown, from + 1);
        if is_listed(rows, shown, from) {
            assert(picked == seq![from] + rest);
            assert(rows_at(rows, picked) =~= seq![rows[from]] + rows_at(rows, rest));
            assert forall|i: int| from <= i < rows.len() && #[trigger] is_listed(
                rows,
                shown,
                i,
            ) implies picked.contains(i) by {
                if i == from {
                    assert(picked[0] == i);
                } else {
                    let k = choose|k: int| 0 <= k < rest.len() && rest[k] == i;
                    assert(picked[k + 1] == i);
                }
            }
        }
    } else {
        assert(rows_at(rows, picked) =~= listed_from(rows, shown, from));
    }
}

/// With `--all` every row is listed. Without it a count that is given is the number of rows
/// that are listed, and 20 is if none is given, or all of them if there are fewer; these are
/// the most recent ones, in the order of the server.
pub proof fn law_options_say_what_is_listed(rows: Seq<Submission>, count: Option<usize>)
    ensures
        listed(rows, shown_for(true, count)) == rows,
        ({
            let wanted = match count {
                Some(n) => n as nat,
                None => 20,
            };
            let got = listed(rows, shown_for(false, count));
            &&& got.len() == if wanted < rows.len() {
                wanted
            } else {
                rows.len()
            }
            &&& exists|picked: Seq<int>| #[trigger]
                are_most_recent(rows, picked) && got == rows_at(rows, picked)
        }),
{
    let shown = shown_for(false, count);
    law_number_of_listed_rows(rows, shown->Recent_0);
    lemma_listed_numbers(rows, shown, 0);
    let picked = listed_numbers(rows, shown, 0);
    assert forall|i: int, k: int|
        0 <= i < rows.len() && !picked.contains(i) && 0 <= k < picked.len() implies {
        let (out, kept) = (made_at(#[trigger] rows[i]), made_at(rows[#[trigger] picked[k]]));
        text_before(out, kept) || out == kept && picked[k] < i
    } by {
        assert(!is_listed(rows, shown, i));
        law_listed_rows_are_the_most_recent(rows, shown, picked[k], i);
    }
    assert(are_most_recent(rows, picked));
}

/// What is printed of rows is the table of those that are listed; that there are none is
/// told in one line, whatever the options.
pub proof fn law_listed_rows_are_printed(rows: Seq<Submission>, shown: Shown, other: Shown)
    ensures
        rows.len() > 0 ==> status_list(rows, shown) == table(listed(rows, shown)),
        rows.len() == 0 ==> status_list(rows, shown).len() == 1 && status_list(rows, shown)
            == status_list(rows, other),
{
    if rows.len() == 0 {
        assert(status_list(rows, shown) =~= status_list(rows, other));
    }
}

/// The question about a submission goes to its address, and the one for the list to that of
/// all submissions; their words do not depend on either.
pub proof fn law_status_questions(server: Seq<char>, id: Seq<char>, other: Seq<char>, other_id: Seq<char>)
    ensures
        status_question(server, Some(id)).url == submission_address(server, id),
        status_question(server, None).url == submissions_address(server),
        status_question(server, Some(id)).what == status_question(other, Some(other_id)).what,
        status_question(server, None).what == status_question(other, None).what,
        status_question(server, Some(id)).unreadable == status_question(other, None).unreadable,
        submission_question(server, id) == status_question(server, Some(id)),
{
}

/// Rows can be printed exactly if the times of those that are listed can be shortened.
pub proof fn law_rows_that_can_be_printed(rows: Seq<Submission>, shown: Shown)
    ensures
        is_printable(rows, shown) <==> forall|k: int|
            0 <= k < listed(rows, shown).len() ==> time_can_be_shortened(
                text_of((#[trigger] listed(rows, shown)[k]).created_at),
            ),
{
    let got = listed(rows, shown);
    lemma_listed_numbers(rows, shown, 0);
    let picked = listed_numbers(rows, shown, 0);
    if is_printable(rows, shown) {
        assert forall|k: int| 0 <= k < got.len() implies time_can_be_shortened(
            text_of((#[trigger] got[k]).created_at),
        ) by {
            assert(got[k] == rows[picked[k]]);
        }
    }
    if forall|k: int|
        0 <= k < got.len() ==> time_can_be_shortened(text_of((#[trigger] got[k]).created_at)) {
        assert forall|i: int| 0 <= i < rows.len() && is_listed(rows, shown, i) implies
            time_can_be_shortened(text_of((#[trigger] rows[i]).created_at)) by {
            let k = choose|k: int| 0 <= k < picked.len() && picked[k] == i;
            assert(got[k] == rows[i]);
        }
    }
}

} // verus!

//! One submission in detail.

use vstd::prelude::*;

use crate::order::{law_text_order, text_before};
use crate::submission::{
    in_kernel_order, short_time, short_time_text, status_text, times_can_be_shortened, Cycles, Submission,
};
use crate::text::{
    as_slice, law_padded, lemma_same_words, lemma_texts_push, pad, padded, same_text, same_words,
    slice_text, text_of, texts,
};

verus! {

/// How many characters the name of a kernel takes at least.
pub const KERNEL_WIDTH: usize = 32;

/// The kernels that are scored, in the order in which their tests run. Cycles are shown
/// in this order, so that they can be read beside the log.
pub open spec fn kernel_order() -> Seq<Seq<char>> {
    seq![
        "ops::sliding_project_qkv"@,
        "ops::sliding_attention_output"@,
        "ops::decoder_feedforward"@,
    ]
}

/// That an entry is one of the given kernel.
pub open spec fn is_of(kernel: Seq<char>) -> spec_fn(Cycles) -> bool {
    |c: Cycles| c.kernel@ == kernel
}

/// That an entry is one of a kernel that is not scored.
pub open spec fn is_other() -> spec_fn(Cycles) -> bool {
    |c: Cycles| !kernel_order().contains(c.kernel@)
}

/// The cycles of one kernel.
pub open spec fn cycles_of(cycles: Seq<Cycles>, kernel: Seq<char>) -> Seq<Cycles> {
    cycles.filter(is_of(kernel))
}

/// The cycles of the kernels that are not scored.
pub open spec fn other_cycles(cycles: Seq<Cycles>) -> Seq<Cycles> {
    cycles.filter(is_other())
}

/// The cycles in the order in which they are shown: those of the scored kernels as their
/// tests run, and then the others as they stand.
pub open spec fn shown_cycles(cycles: Seq<Cycles>) -> Seq<Cycles> {
    cycles_of(cycles, kernel_order()[0]) + cycles_of(cycles, kernel_order()[1]) + cycles_of(
        cycles,
        kernel_order()[2],
    ) + other_cycles(cycles)
}

/// The line of one kernel.
pub open spec fn cycle_line(c: Cycles) -> Seq<char> {
    "  "@ + padded(c.kernel@, KERNEL_WIDTH as nat) + " "@ + c.value@
}

/// The lines of the cycles.
pub open spec fn cycle_lines(cycles: Seq<Cycles>) -> Seq<Seq<char>> {
    cycles.map_values(|c: Cycles| cycle_line(c))
}

/// A line with a label, if there is something to label.
pub open spec fn labelled(label: Seq<char>, value: Option<Seq<char>>) -> Seq<Seq<char>> {
    match value {
        Some(v) => seq![label + v],
        None => Seq::empty(),
    }
}

/// When the submission finished, shortened, if it has.
pub open spec fn finish_time(one: Submission) -> Option<Seq<char>> {
    match text_of(one.finished_at) {
        Some(t) => Some(short_time_text(Some(t))),
        None => None,
    }
}

/// The heading of the cycles and their lines, if there are any.
pub open spec fn cycle_block(cycles: Seq<Cycles>) -> Seq<Seq<char>> {
    if cycles.len() == 0 {
        Seq::empty()
    } else {
        seq!["\nCycles:"@] + cycle_lines(shown_cycles(cycles))
    }
}

/// What is shown of a submission, one piece for each line that is printed.
pub open spec fn detail(one: Submission) -> Seq<Seq<char>> {
    seq![
        "Submission:   "@ + one.submission_id@,
        "Team:         "@ + one.team_name@,
        "Status:       "@ + status_text(one),
    ] + labelled("Stage:        "@, text_of(one.stage)) + seq![
        "Submitted:    "@ + short_time_text(text_of(one.created_at)),
    ] + labelled("Finished:     "@, finish_time(one)) + cycle_block(one.cycles@) + labelled(
        "\nScore:        "@,
        text_of(one.score),
    ) + labelled("\nNot scored:   "@, text_of(one.flagged)) + labelled("\n"@, text_of(one.error))
        + seq!["\nFull log:     moa-submitter log "@ + one.submission_id@]
}

/// Adds a line with a label to the lines.
fn add_line(lines: &mut Vec<String>, label: &str, value: &str)
    ensures
        texts(final(lines)@) == texts(old(lines)@) + seq![label@ + value@],
{
    let next: String = label.to_owned().concat(value);
    proof {
        lemma_texts_push(lines@, next);
    }
    lines.push(next);
    assert(texts(lines@) =~= texts(old(lines)@) + seq![label@ + value@]);
}

/// Adds a line with a label to the lines, if there is something to label.
fn add_labelled(lines: &mut Vec<String>, label: &str, value: Option<&str>)
    ensures
        texts(final(lines)@) == texts(old(lines)@) + labelled(label@, slice_text(value)),
{
    match value {
        Some(v) => add_line(lines, label, v),
        None => {
            assert(texts(lines@) =~= texts(old(lines)@) + Seq::<Seq<char>>::empty());
        },
    }
}

/// The line of one kernel.
fn line_of(c: &Cycles) -> (r: String)
    ensures
        r@ == cycle_line(*c),
{
    let name: String = pad(c.kernel.as_str(), KERNEL_WIDTH);
    "  ".to_owned().concat(name.as_str()).concat(" ").concat(c.value.as_str())
}

/// The kernels that are scored.
fn scored_kernels() -> (r: Vec<String>)
    ensures
        texts(r@) == kernel_order(),
{
    let mut r: Vec<String> = Vec::new();
    r.push("ops::sliding_project_qkv".to_owned());
    r.push("ops::sliding_attention_output".to_owned());
    r.push("ops::decoder_feedforward".to_owned());
    assert(texts(r@) =~= kernel_order());
    r
}

/// Adds the lines of one kernel to the lines.
fn add_kernel(lines: &mut Vec<String>, cycles: &Vec<Cycles>, kernel: &str)
    ensures
        texts(final(lines)@) == texts(old(lines)@) + cycle_lines(cycles_of(cycles@, kernel@)),
{
    let ghost keep = is_of(kernel@);
    let ghost given = texts(lines@);
    let mut i: usize = 0;
    proof {
        reveal(Seq::filter);
        assert(texts(lines@) =~= given + cycle_lines(cycles@.take(0).filter(keep)));
    }
    while i < cycles.len()
        invariant
            i <= cycles.len(),
            keep == is_of(kernel@),
            texts(lines@) == given + cycle_lines(cycles@.take(i as int).filter(keep)),
        decreases cycles.len() - i,
    {
        proof {
            cycles@.lemma_take_succ_push(i as int);
            cycles@.take(i as int).lemma_filter_push(cycles@[i as int], keep);
        }
        if same_text(cycles[i].kernel.as_str(), kernel) {
            let next: String = line_of(&cycles[i]);
            proof {
                lemma_texts_push(lines@, next);
            }
            lines.push(next);
            assert(texts(lines@) =~= given + cycle_lines(cycles@.take(i + 1).filter(keep)));
        }
        i = i + 1;
    }
    assert(cycles@.take(i as int) =~= cycles@);
}

/// Adds the lines of the kernels that are not scored to the lines.
fn add_others(lines: &mut Vec<String>, cycles: &Vec<Cycles>)
    ensures
        texts(final(lines)@) == texts(old(lines)@) + cycle_lines(other_cycles(cycles@)),
{
    let kernels: Vec<String> = scored_kernels();
    let ghost keep = is_other();
    let ghost given = texts(lines@);
    let mut i: usize = 0;
    proof {
        reveal(Seq::filter);
        assert(texts(lines@) =~= given + cycle_lines(cycles@.take(0).filter(keep)));
    }
    while i < cycles.len()
        invariant
            i <= cycles.len(),
            texts(kernels@) == kernel_order(),
            keep == is_other(),
            texts(lines@) == given + cycle_lines(cycles@.take(i as int).filter(keep)),
        decreases cycles.len() - i,
    {
        let mut scored: bool = false;
        let mut k: usize = 0;
        while k < kernels.len()
            invariant
                i < cycles.len(),
                k <= kernels.len(),
                texts(kernels@) == kernel_order(),
                scored == exists|j: int|
                    0 <= j < k && #[trigger] kernel_order()[j] == cycles@[i as int].kernel@,
            decreases kernels.len() - k,
        {
            assert(kernel_order()[k as int] == kernels@[k as int]@);
            if same_text(kernels[k].as_str(), cycles[i].kernel.as_str()) {
                scored = true;
            }
            k = k + 1;
        }
        assert(kernel_order().len() == kernels@.len());
        assert(scored == kernel_order().contains(cycles@[i as int].kernel@));
        proof {
            cycles@.lemma_take_succ_push(i as int);
            cycles@.take(i as int).lemma_filter_push(cycles@[i as int], keep);
        }
        if !scored {
            let next: String = line_of(&cycles[i]);
            proof {
                lemma_texts_push(lines@, next);
            }
            lines.push(next);
            assert(texts(lines@) =~= given + cycle_lines(cycles@.take(i + 1).filter(keep)));
        }
        i = i + 1;
    }
    assert(cycles@.take(i as int) =~= cycles@);
}

/// Adds the heading of the cycles and their lines to the lines, if there are any.
fn add_cycles(lines: &mut Vec<String>, cycles: &Vec<Cycles>)
    ensures
        texts(final(lines)@) == texts(old(lines)@) + cycle_block(cycles@),
{
    if cycles.len() == 0 {
        assert(texts(lines@) =~= texts(old(lines)@) + Seq::<Seq<char>>::empty());
        return ;
    }
    let ghost given = texts(lines@);
    add_line(lines, "\nCycles:", "");
    assert("\nCycles:"@ + ""@ =~= "\nCycles:"@) by {
        reveal_strlit("");
    }
    add_kernel(lines, cycles, "ops::sliding_project_qkv");
    add_kernel(lines, cycles, "ops::sliding_attention_output");
    add_kernel(lines, cycles, "ops::decoder_feedforward");
    add_others(lines, cycles);
    assert(texts(lines@) =~= given + cycle_block(cycles@));
}

/// What is shown of a submission, one string for each line that is printed.
pub fn detail_lines(one: &Submission) -> (r: Vec<String>)
    requires
        times_can_be_shortened(*one),
    ensures
        texts(r@) == detail(*one),
{
    let mut lines: Vec<String> = Vec::new();
    let id: &str = one.submission_id.as_str();
    let status: String = one.display_status();
    let submitted: String = short_time(as_slice(&one.created_at));
    let finished: Option<String> = match &one.finished_at {
        Some(t) => Some(short_time(Some(t.as_str()))),
        None => None,
    };
    assert(texts(lines@) =~= Seq::<Seq<char>>::empty());
    add_line(&mut lines, "Submission:   ", id);
    add_line(&mut lines, "Team:         ", one.team_name.as_str());
    add_line(&mut lines, "Status:       ", status.as_str());
    assert(texts(lines@) =~= seq![
        "Submission:   "@ + one.submission_id@,
        "Team:         "@ + one.team_name@,
        "Status:       "@ + status_text(*one),
    ]);
    add_labelled(&mut lines, "Stage:        ", as_slice(&one.stage));
    add_line(&mut lines, "Submitted:    ", submitted.as_str());
    add_labelled(&mut lines, "Finished:     ", as_slice(&finished));
    add_cycles(&mut lines, &one.cycles);
    add_labelled(&mut lines, "\nScore:        ", as_slice(&one.score));
    add_labelled(&mut lines, "\nNot scored:   ", as_slice(&one.flagged));
    add_labelled(&mut lines, "\n", as_slice(&one.error));
    add_line(&mut lines, "\nFull log:     moa-submitter log ", id);
    lines
}

proof fn lemma_kernels_differ()
    ensures
        kernel_order()[0] != kernel_order()[1],
        kernel_order()[0] != kernel_order()[2],
        kernel_order()[1] != kernel_order()[2],
{
    reveal_strlit("ops::sliding_project_qkv");
    reveal_strlit("ops::sliding_attention_output");
    reveal_strlit("ops::decoder_feedforward");
    assert(kernel_order()[0].len() == 24);
    assert(kernel_order()[1].len() == 29);
    assert(kernel_order()[2].len() == 24);
    assert(kernel_order()[0][5] == 's');
    assert(kernel_order()[2][5] == 'd');
}

/// How often each entry stands among those that are kept.
proof fn lemma_filter_counts(cycles: Seq<Cycles>, keep: spec_fn(Cycles) -> bool, x: Cycles)
    ensures
        cycles.filter(keep).to_multiset().count(x) == if keep(x) {
            cycles.to_multiset().count(x)
        } else {
            0
        },
    decreases cycles.len(),
{
    broadcast use vstd::multiset::group_multiset_axioms;

    reveal(Seq::filter);
    cycles.to_multiset_ensures();
    if cycles.len() > 0 {
        let front = cycles.drop_last();
        lemma_filter_counts(front, keep, x);
        assert(cycles == front.push(cycles.last()));
        front.to_multiset_ensures();
        front.filter(keep).to_multiset_ensures();
    } else {
        cycles.filter(keep).to_multiset_ensures();
        assert(cycles.filter(keep) =~= cycles);
    }
}

/// Nothing is left out and nothing is shown twice: the cycles that are shown are those
/// that the server reported, each as often as there.
pub proof fn law_all_cycles_are_shown(cycles: Seq<Cycles>)
    ensures
        shown_cycles(cycles).to_multiset() == cycles.to_multiset(),
        cycle_block(cycles).len() == if cycles.len() == 0 {
            0
        } else {
            cycles.len() + 1
        },
{
    broadcast use vstd::multiset::group_multiset_axioms;

    let a = cycles_of(cycles, kernel_order()[0]);
    let b = cycles_of(cycles, kernel_order()[1]);
    let c = cycles_of(cycles, kernel_order()[2]);
    let d = other_cycles(cycles);
    vstd::seq_lib::lemma_multiset_commutative(a, b);
    vstd::seq_lib::lemma_multiset_commutative(a + b, c);
    vstd::seq_lib::lemma_multiset_commutative(a + b + c, d);
    lemma_kernels_differ();
    let shown = shown_cycles(cycles);
    assert forall|x: Cycles| #[trigger]
        shown.to_multiset().count(x) == cycles.to_multiset().count(x) by {
        let k = x.kernel@;
        lemma_filter_counts(cycles, is_of(kernel_order()[0]), x);
        lemma_filter_counts(cycles, is_of(kernel_order()[1]), x);
        lemma_filter_counts(cycles, is_of(kernel_order()[2]), x);
        lemma_filter_counts(cycles, is_other(), x);
        assert(kernel_order().contains(k) <==> (k == kernel_order()[0] || k == kernel_order()[1]
            || k == kernel_order()[2])) by {
            assert(kernel_order().contains(kernel_order()[0]));
            assert(kernel_order().contains(kernel_order()[1]));
            assert(kernel_order().contains(kernel_order()[2]));
        }
    }
    assert(shown.to_multiset() =~= cycles.to_multiset());
    shown.to_multiset_ensures();
    cycles.to_multiset_ensures();
}

proof fn lemma_filter_keeps_order(cycles: Seq<Cycles>, keep: spec_fn(Cycles) -> bool)
    requires
        in_kernel_order(cycles),
    ensures
        in_kernel_order(cycles.filter(keep)),
    decreases cycles.len(),
{
    reveal(Seq::filter);
    if cycles.len() > 0 {
        let front = cycles.drop_last();
        let kept = front.filter(keep);
        lemma_filter_keeps_order(front, keep);
        assert forall|i: int| 0 <= i < kept.len() implies front.contains(#[trigger] kept[i]) by {
            assert(kept.contains(kept[i]));
            front.lemma_filter_contains_rev(keep, kept[i]);
        }
        assert forall|i: int| 0 <= i < kept.len() implies text_before(
            (#[trigger] kept[i]).kernel@,
            cycles.last().kernel@,
        ) by {
            let k = choose|k: int| 0 <= k < front.len() && front[k] == kept[i];
            assert(cycles[k] == kept[i]);
        }
    }
}

/// Where each kernel has one entry and these stand in the order of the names, each kernel
/// that has cycles has one line and no other has any, and the lines of the kernels that are
/// not scored stand in the order of the names.
pub proof fn law_cycles_are_shown_in_order(cycles: Seq<Cycles>, kernel: Seq<char>)
    requires
        in_kernel_order(cycles),
    ensures
        in_kernel_order(other_cycles(cycles)),
        cycles_of(cycles, kernel).len() <= 1,
        cycles_of(cycles, kernel).len() == 1 <==> exists|i: int|
            0 <= i < cycles.len() && (#[trigger] cycles[i]).kernel@ == kernel,
        cycles_of(shown_cycles(cycles), kernel) == cycles_of(cycles, kernel),
{
    let named = is_of(kernel);
    let mine = cycles_of(cycles, kernel);
    lemma_filter_keeps_order(cycles, is_other());
    lemma_one_entry(cycles, kernel);
    lemma_shown_of_kernel(cycles, kernel);
    if mine.len() == 1 {
        assert(mine.contains(mine[0]));
        cycles.lemma_filter_contains_rev(named, mine[0]);
        cycles.lemma_filter_pred(named, 0);
    }
    if exists|i: int| 0 <= i < cycles.len() && (#[trigger] cycles[i]).kernel@ == kernel {
        let i = choose|i: int| 0 <= i < cycles.len() && (#[trigger] cycles[i]).kernel@ == kernel;
        cycles.lemma_filter_contains(named, i);
    }
}

proof fn lemma_one_entry(cycles: Seq<Cycles>, kernel: Seq<char>)
    requires
        in_kernel_order(cycles),
    ensures
        cycles_of(cycles, kernel).len() <= 1,
{
    let named = is_of(kernel);
    let mine = cycles_of(cycles, kernel);
    lemma_filter_keeps_order(cycles, named);
    if mine.len() > 1 {
        cycles.lemma_filter_pred(named, 0);
        cycles.lemma_filter_pred(named, 1);
        assert(mine[0].kernel@ == mine[1].kernel@);
        law_text_order(kernel, kernel, kernel);
    }
}

/// What one filter keeps, a second one keeps whole or drops whole, where it does so with
/// each entry that the first one keeps.
proof fn lemma_filter_twice(
    cycles: Seq<Cycles>,
    first: spec_fn(Cycles) -> bool,
    second: spec_fn(Cycles) -> bool,
    all: bool,
)
    requires
        forall|c: Cycles| #[trigger] first(c) ==> second(c) == all,
    ensures
        cycles.filter(first).filter(second) == if all {
            cycles.filter(first)
        } else {
            Seq::empty()
        },
    decreases cycles.len(),
{
    reveal(Seq::filter);
    if cycles.len() > 0 {
        let front = cycles.drop_last();
        lemma_filter_twice(front, first, second, all);
        if first(cycles.last()) {
            assert(front.filter(first).push(cycles.last()).drop_last() =~= front.filter(first));
        }
    }
}

/// A kernel has the same lines among those that are shown as it has entries.
proof fn lemma_shown_of_kernel(cycles: Seq<Cycles>, kernel: Seq<char>)
    ensures
        cycles_of(shown_cycles(cycles), kernel) == cycles_of(cycles, kernel),
{
    let named = is_of(kernel);
    let a = cycles_of(cycles, kernel_order()[0]);
    let b = cycles_of(cycles, kernel_order()[1]);
    let c = cycles_of(cycles, kernel_order()[2]);
    let d = other_cycles(cycles);
    lemma_kernels_differ();
    assert(kernel_order().contains(kernel) <==> (kernel == kernel_order()[0] || kernel
        == kernel_order()[1] || kernel == kernel_order()[2])) by {
        assert(kernel_order().contains(kernel_order()[0]));
        assert(kernel_order().contains(kernel_order()[1]));
        assert(kernel_order().contains(kernel_order()[2]));
    }
    lemma_filter_twice(cycles, is_of(kernel_order()[0]), named, kernel == kernel_order()[0]);
    lemma_filter_twice(cycles, is_of(kernel_order()[1]), named, kernel == kernel_order()[1]);
    lemma_filter_twice(cycles, is_of(kernel_order()[2]), named, kernel == kernel_order()[2]);
    Seq::filter_distributes_over_add(a + b + c, d, named);
    Seq::filter_distributes_over_add(a + b, c, named);
    Seq::filter_distributes_over_add(a, b, named);
    if kernel_order().contains(kernel) {
        lemma_filter_twice(cycles, is_other(), named, false);
    } else {
        lemma_filter_others(cycles, kernel);
    }
    assert(cycles_of(shown_cycles(cycles), kernel) =~= cycles_of(cycles, kernel));
}

/// The entries of a kernel that is not scored stand among the others as they stand in all.
proof fn lemma_filter_others(cycles: Seq<Cycles>, kernel: Seq<char>)
    requires
        !kernel_order().contains(kernel),
    ensures
        cycles_of(other_cycles(cycles), kernel) == cycles_of(cycles, kernel),
    decreases cycles.len(),
{
    reveal(Seq::filter);
    if cycles.len() > 0 {
        let front = cycles.drop_last();
        lemma_filter_others(front, kernel);
        if !kernel_order().contains(cycles.last().kernel@) {
            assert(other_cycles(front).push(cycles.last()).drop_last() =~= other_cycles(front));
        }
    }
}

/// The detail of a submission shows what it is asked for: the cycles of each kernel, the
/// score, and why it was not scored or failed.
pub proof fn law_detail_shows_the_outcome(one: Submission)
    ensures
        forall|i: int|
            0 <= i < one.cycles@.len() ==> detail(one).contains(
                cycle_line(#[trigger] one.cycles@[i]),
            ),
        text_of(one.score) matches Some(score) ==> detail(one).contains(
            "\nScore:        "@ + score,
        ),
        text_of(one.flagged) matches Some(reason) ==> detail(one).contains(
            "\nNot scored:   "@ + reason,
        ),
        text_of(one.error) matches Some(reason) ==> detail(one).contains("\n"@ + reason),
{
    let a = seq![
        "Submission:   "@ + one.submission_id@,
        "Team:         "@ + one.team_name@,
        "Status:       "@ + status_text(one),
    ] + labelled("Stage:        "@, text_of(one.stage)) + seq![
        "Submitted:    "@ + short_time_text(text_of(one.created_at)),
    ] + labelled("Finished:     "@, finish_time(one));
    let b = cycle_block(one.cycles@);
    let c = labelled("\nScore:        "@, text_of(one.score));
    let d = labelled("\nNot scored:   "@, text_of(one.flagged));
    let e = labelled("\n"@, text_of(one.error));
    let f = seq!["\nFull log:     moa-submitter log "@ + one.submission_id@];
    assert(detail(one) == a + b + c + d + e + f);
    lemma_middle(a, b, c + d + e + f);
    lemma_middle(a + b, c, d + e + f);
    lemma_middle(a + b + c, d, e + f);
    lemma_middle(a + b + c + d, e, f);
    assert(a + b + (c + d + e + f) =~= detail(one));
    assert(a + b + c + (d + e + f) =~= detail(one));
    assert(a + b + c + d + (e + f) =~= detail(one));
    if let Some(score) = text_of(one.score) {
        assert(c[0] == "\nScore:        "@ + score);
    }
    if let Some(reason) = text_of(one.flagged) {
        assert(d[0] == "\nNot scored:   "@ + reason);
    }
    if let Some(reason) = text_of(one.error) {
        assert(e[0] == "\n"@ + reason);
    }
    assert forall|i: int| 0 <= i < one.cycles@.len() implies detail(one).contains(
        cycle_line(#[trigger] one.cycles@[i]),
    ) by {
        let x = one.cycles@[i];
        let shown = shown_cycles(one.cycles@);
        law_all_cycles_are_shown(one.cycles@);
        shown.to_multiset_ensures();
        one.cycles@.to_multiset_ensures();
        assert(one.cycles@.contains(x));
        assert(shown.to_multiset().count(x) == one.cycles@.to_multiset().count(x));
        assert(shown.contains(x));
        let k = choose|k: int| 0 <= k < shown.len() && shown[k] == x;
        assert(b[k + 1] == cycle_line(x));
    }
}

/// What stands in the middle stands in the whole.
proof fn lemma_middle(a: Seq<Seq<char>>, b: Seq<Seq<char>>, c: Seq<Seq<char>>)
    ensures
        forall|i: int| 0 <= i < b.len() ==> (a + b + c).contains(#[trigger] b[i]),
{
    assert forall|i: int| 0 <= i < b.len() implies (a + b + c).contains(#[trigger] b[i]) by {
        assert((a + b + c)[a.len() + i] == b[i]);
    }
}

/// The line shows all of the name of the kernel behind two spaces, filled up with spaces to
/// 32 characters if it is shorter, and behind that, one space further, all of the cycles.
pub open spec fn shows_cycles(line: Seq<char>, c: Cycles) -> bool {
    let (name, value) = (c.kernel@, c.value@);
    let at = 3 + if name.len() < 32 {
        32
    } else {
        name.len() as int
    };
    &&& line.len() == at + value.len()
    &&& line[0] == ' ' && line[1] == ' '
    &&& line.subrange(2, 2int + name.len()) == name
    &&& forall|i: int| 2 + name.len() <= i < at ==> #[trigger] line[i] == ' '
    &&& line.skip(at) == value
}

/// The line of a kernel shows its whole name and its whole cycles.
pub proof fn law_line_shows_the_cycles(c: Cycles)
    ensures
        shows_cycles(cycle_line(c), c),
{
    let (name, value) = (c.kernel@, c.value@);
    let cell = padded(name, KERNEL_WIDTH as nat);
    let line = cycle_line(c);
    law_padded(name, KERNEL_WIDTH as nat);
    reveal_strlit("  ");
    reveal_strlit(" ");
    assert(line.len() == 2 + cell.len() + 1 + value.len());
    assert forall|i: int| 0 <= i < cell.len() implies line[2 + i] == cell[i] by {}
    assert forall|i: int| 0 <= i < name.len() implies line[2 + i] == name[i] by {
        assert(cell.subrange(0, name.len() as int)[i] == cell[i]);
    }
    assert(line.subrange(2, 2int + name.len()) =~= name);
    assert forall|i: int| 2 + name.len() <= i < 3 + cell.len() implies #[trigger] line[i] == ' ' by {
        if i < 2 + cell.len() {
            assert(line[2 + (i - 2)] == cell[i - 2]);
        }
    }
    assert(line.skip(3int + cell.len()) =~= value);
}

/// Where the cycles of a kernel stand among those of the others: first those of the scored
/// kernels, in the order in which their tests run, and then the rest.
pub open spec fn kernel_rank(kernel: Seq<char>) -> int {
    if kernel == "ops::sliding_project_qkv"@ {
        0
    } else if kernel == "ops::sliding_attention_output"@ {
        1
    } else if kernel == "ops::decoder_feedforward"@ {
        2
    } else {
        3
    }
}

/// That an entry has the given rank.
pub open spec fn of_rank(rank: int) -> spec_fn(Cycles) -> bool {
    |c: Cycles| kernel_rank(c.kernel@) == rank
}

proof fn lemma_same_filter(
    cycles: Seq<Cycles>,
    p: spec_fn(Cycles) -> bool,
    q: spec_fn(Cycles) -> bool,
)
    requires
        forall|c: Cycles| #[trigger] p(c) == q(c),
    ensures
        cycles.filter(p) == cycles.filter(q),
    decreases cycles.len(),
{
    reveal(Seq::filter);
    if cycles.len() > 0 {
        lemma_same_filter(cycles.drop_last(), p, q);
    }
}

proof fn lemma_ranks(kernel: Seq<char>)
    ensures
        kernel == kernel_order()[0] <==> kernel_rank(kernel) == 0,
        kernel == kernel_order()[1] <==> kernel_rank(kernel) == 1,
        kernel == kernel_order()[2] <==> kernel_rank(kernel) == 2,
        !kernel_order().contains(kernel) <==> kernel_rank(kernel) == 3,
{
    lemma_kernels_differ();
    assert(kernel_order().contains(kernel_order()[0]));
    assert(kernel_order().contains(kernel_order()[1]));
    assert(kernel_order().contains(kernel_order()[2]));
}

/// The cycles are shown by the rank of their kernels, and those of one rank in the order in
/// which the server reports them.
pub proof fn law_cycles_stand_by_rank(cycles: Seq<Cycles>, i: int, j: int, rank: int)
    ensures
        shown_cycles(cycles).to_multiset() == cycles.to_multiset(),
        0 <= i < j < shown_cycles(cycles).len() ==> kernel_rank(shown_cycles(cycles)[i].kernel@)
            <= kernel_rank(shown_cycles(cycles)[j].kernel@),
        shown_cycles(cycles).filter(of_rank(rank)) == cycles.filter(of_rank(rank)),
{
    let a = cycles_of(cycles, kernel_order()[0]);
    let b = cycles_of(cycles, kernel_order()[1]);
    let c = cycles_of(cycles, kernel_order()[2]);
    let d = other_cycles(cycles);
    let same = of_rank(rank);
    law_all_cycles_are_shown(cycles);
    assert forall|x: Cycles|
        is_of(kernel_order()[0])(x) == of_rank(0)(x) && is_of(kernel_order()[1])(x) == of_rank(1)(x)
            && is_of(kernel_order()[2])(x) == of_rank(2)(x) && #[trigger] is_other()(x) == of_rank(
            3,
        )(x) by {
        lemma_ranks(x.kernel@);
    }
    assert forall|x: Cycles| #[trigger] is_of(kernel_order()[0])(x) == of_rank(0)(x) by {
        lemma_ranks(x.kernel@);
    }
    assert forall|x: Cycles| #[trigger] is_of(kernel_order()[1])(x) == of_rank(1)(x) by {
        lemma_ranks(x.kernel@);
    }
    assert forall|x: Cycles| #[trigger] is_of(kernel_order()[2])(x) == of_rank(2)(x) by {
        lemma_ranks(x.kernel@);
    }
    assert forall|x: Cycles| #[trigger] is_other()(x) == of_rank(3)(x) by {
        lemma_ranks(x.kernel@);
    }
    lemma_same_filter(cycles, is_of(kernel_order()[0]), of_rank(0));
    lemma_same_filter(cycles, is_of(kernel_order()[1]), of_rank(1));
    lemma_same_filter(cycles, is_of(kernel_order()[2]), of_rank(2));
    lemma_same_filter(cycles, is_other(), of_rank(3));
    assert forall|k: int| 0 <= k < a.len() implies kernel_rank((#[trigger] a[k]).kernel@) == 0 by {
        cycles.lemma_filter_pred(of_rank(0), k);
    }
    assert forall|k: int| 0 <= k < b.len() implies kernel_rank((#[trigger] b[k]).kernel@) == 1 by {
        cycles.lemma_filter_pred(of_rank(1), k);
    }
    assert forall|k: int| 0 <= k < c.len() implies kernel_rank((#[trigger] c[k]).kernel@) == 2 by {
        cycles.lemma_filter_pred(of_rank(2), k);
    }
    assert forall|k: int| 0 <= k < d.len() implies kernel_rank((#[trigger] d[k]).kernel@) == 3 by {
        cycles.lemma_filter_pred(of_rank(3), k);
    }
    lemma_filter_twice(cycles, of_rank(0), same, rank == 0);
    lemma_filter_twice(cycles, of_rank(1), same, rank == 1);
    lemma_filter_twice(cycles, of_rank(2), same, rank == 2);
    lemma_filter_twice(cycles, of_rank(3), same, rank == 3);
    Seq::filter_distributes_over_add(a + b + c, d, same);
    Seq::filter_distributes_over_add(a + b, c, same);
    Seq::filter_distributes_over_add(a, b, same);
    if rank < 0 || rank > 3 {
        lemma_nothing_kept(cycles, same);
    }
    assert(shown_cycles(cycles).filter(same) =~= cycles.filter(same));
}

proof fn lemma_nothing_kept(cycles: Seq<Cycles>, keep: spec_fn(Cycles) -> bool)
    requires
        forall|c: Cycles| !#[trigger] keep(c),
    ensures
        cycles.filter(keep).len() == 0,
    decreases cycles.len(),
{
    reveal(Seq::filter);
    if cycles.len() > 0 {
        lemma_nothing_kept(cycles.drop_last(), keep);
    }
}

/// One if there is something, and none if not.
pub open spec fn one_if<A>(x: Option<A>) -> int {
    if x is Some {
        1
    } else {
        0
    }
}

/// How many lines the cycles take: one for each, and one above them if there are any.
pub open spec fn lines_of(cycles: Seq<Cycles>) -> int {
    if cycles.len() == 0 {
        0
    } else {
        cycles.len() as int + 1
    }
}

/// The line in which the time of the submission stands.
pub open spec fn submitted_at(one: Submission) -> int {
    3 + one_if(one.stage)
}

/// The line with which the cycles begin, if there are any.
pub open spec fn cycles_at(one: Submission) -> int {
    submitted_at(one) + 1 + one_if(one.finished_at)
}

/// The line behind the cycles.
pub open spec fn outcome_at(one: Submission) -> int {
    cycles_at(one) + lines_of(one.cycles@)
}

proof fn lemma_labelled(label: Seq<char>, x: Seq<char>, y: Seq<char>)
    ensures
        same_words(label + x, seq![x], label + y, seq![y]),
{
    let no = Seq::<char>::empty();
    lemma_same_words(label, no, x, y);
    assert(label + x + no =~= label + x);
    assert(label + y + no =~= label + y);
}

/// The first lines tell what the submission is and how it stands.
pub proof fn law_detail_begins(one: Submission, other: Submission)
    ensures
        ({
            let (d, e) = (detail(one), detail(other));
            let (p, q) = (submitted_at(one), submitted_at(other));
            &&& same_words(d[0], seq![one.submission_id@], e[0], seq![other.submission_id@])
            &&& same_words(d[1], seq![one.team_name@], e[1], seq![other.team_name@])
            &&& same_words(d[2], seq![status_text(one)], e[2], seq![status_text(other)])
            &&& one.stage is Some && other.stage is Some ==> same_words(
                d[3],
                seq![one.stage->0@],
                e[3],
                seq![other.stage->0@],
            )
            &&& same_words(
                d[p],
                seq![short_time_text(text_of(one.created_at))],
                e[q],
                seq![short_time_text(text_of(other.created_at))],
            )
            &&& one.finished_at is Some && other.finished_at is Some ==> same_words(
                d[p + 1],
                seq![short_time_text(Some(one.finished_at->0@))],
                e[q + 1],
                seq![short_time_text(Some(other.finished_at->0@))],
            )
        }),
{
    lemma_detail_begins(one);
    lemma_detail_begins(other);
    lemma_labelled("Submission:   "@, one.submission_id@, other.submission_id@);
    lemma_labelled("Team:         "@, one.team_name@, other.team_name@);
    lemma_labelled("Status:       "@, status_text(one), status_text(other));
    lemma_labelled("Stage:        "@, one.stage->0@, other.stage->0@);
    lemma_labelled(
        "Submitted:    "@,
        short_time_text(text_of(one.created_at)),
        short_time_text(text_of(other.created_at)),
    );
    lemma_labelled(
        "Finished:     "@,
        short_time_text(Some(one.finished_at->0@)),
        short_time_text(Some(other.finished_at->0@)),
    );
}

/// The lines before the cycles.
spec fn detail_front(one: Submission) -> Seq<Seq<char>> {
    seq![
        "Submission:   "@ + one.submission_id@,
        "Team:         "@ + one.team_name@,
        "Status:       "@ + status_text(one),
    ] + labelled("Stage:        "@, text_of(one.stage)) + seq![
        "Submitted:    "@ + short_time_text(text_of(one.created_at)),
    ] + labelled("Finished:     "@, finish_time(one))
}

/// The lines behind the cycles.
spec fn detail_back(one: Submission) -> Seq<Seq<char>> {
    labelled("\nScore:        "@, text_of(one.score)) + labelled(
        "\nNot scored:   "@,
        text_of(one.flagged),
    ) + labelled("\n"@, text_of(one.error)) + seq![
        "\nFull log:     moa-submitter log "@ + one.submission_id@,
    ]
}

proof fn lemma_detail_split(one: Submission)
    ensures
        detail(one) == detail_front(one) + cycle_block(one.cycles@) + detail_back(one),
        detail_front(one).len() == cycles_at(one),
        cycle_block(one.cycles@).len() == lines_of(one.cycles@),
        detail_back(one).len() == one_if(one.score) + one_if(one.flagged) + one_if(one.error) + 1,
{
    law_all_cycles_are_shown(one.cycles@);
    assert(detail(one) =~= detail_front(one) + cycle_block(one.cycles@) + detail_back(one));
}

proof fn lemma_detail_begins(one: Submission)
    ensures
        ({
            let d = detail(one);
            let p = submitted_at(one);
            &&& d[0] == "Submission:   "@ + one.submission_id@
            &&& d[1] == "Team:         "@ + one.team_name@
            &&& d[2] == "Status:       "@ + status_text(one)
            &&& one.stage is Some ==> d[3] == "Stage:        "@ + one.stage->0@
            &&& d[p] == "Submitted:    "@ + short_time_text(text_of(one.created_at))
            &&& one.finished_at is Some ==> d[p + 1] == "Finished:     "@ + short_time_text(
                Some(one.finished_at->0@),
            )
        }),
{
    let front = detail_front(one);
    lemma_detail_split(one);
    assert forall|i: int| 0 <= i < front.len() implies detail(one)[i] == front[i] by {}
    assert(front[0] == "Submission:   "@ + one.submission_id@);
    assert(front[1] == "Team:         "@ + one.team_name@);
    assert(front[2] == "Status:       "@ + status_text(one));
    assert(front[submitted_at(one)] == "Submitted:    "@ + short_time_text(
        text_of(one.created_at),
    ));
}

/// The cycles stand behind the times under one heading, a line for each kernel, in the order
/// in which they are shown; each line holds the whole name and the whole cycles.
pub proof fn law_detail_shows_cycles(one: Submission, other: Submission, i: int)
    ensures
        one.cycles@.len() > 0 && other.cycles@.len() > 0 ==> detail(one)[cycles_at(one)] == detail(
            other,
        )[cycles_at(other)],
        shown_cycles(one.cycles@).len() == one.cycles@.len(),
        0 <= i < one.cycles@.len() ==> shows_cycles(
            detail(one)[cycles_at(one) + 1 + i],
            shown_cycles(one.cycles@)[i],
        ),
{
    lemma_detail_split(one);
    lemma_detail_split(other);
    let shown = shown_cycles(one.cycles@);
    law_all_cycles_are_shown(one.cycles@);
    shown.to_multiset_ensures();
    one.cycles@.to_multiset_ensures();
    if 0 <= i < one.cycles@.len() {
        assert(detail(one)[cycles_at(one) + 1 + i] == cycle_block(one.cycles@)[1 + i]);
        assert(cycle_block(one.cycles@)[1 + i] == cycle_line(shown[i]));
        law_line_shows_the_cycles(shown[i]);
    }
    if one.cycles@.len() > 0 && other.cycles@.len() > 0 {
        assert(detail(one)[cycles_at(one)] == cycle_block(one.cycles@)[0]);
        assert(detail(other)[cycles_at(other)] == cycle_block(other.cycles@)[0]);
    }
}

/// For every kernel with cycles the detail has a line that shows its whole name and all of
/// its cycles.
pub proof fn law_every_kernel_has_its_line(one: Submission, i: int)
    requires
        0 <= i < one.cycles@.len(),
    ensures
        exists|k: int|
            0 <= k < detail(one).len() && shows_cycles(#[trigger] detail(one)[k], one.cycles@[i]),
{
    let x = one.cycles@[i];
    let shown = shown_cycles(one.cycles@);
    law_all_cycles_are_shown(one.cycles@);
    shown.to_multiset_ensures();
    one.cycles@.to_multiset_ensures();
    assert(one.cycles@.contains(x));
    assert(shown.to_multiset().count(x) == one.cycles@.to_multiset().count(x));
    assert(shown.contains(x));
    let k = choose|k: int| 0 <= k < shown.len() && shown[k] == x;
    law_detail_shows_cycles(one, one, k);
    lemma_detail_split(one);
    assert(shows_cycles(detail(one)[cycles_at(one) + 1 + k], x));
}

/// Behind the cycles stand the score, why it was not scored and why it failed, each whole
/// and if there is one, and at the end how to read the log; and nothing else.
pub proof fn law_detail_ends(one: Submission, other: Submission)
    ensures
        ({
            let (d, e) = (detail(one), detail(other));
            let (p, q) = (outcome_at(one), outcome_at(other));
            let (f, g) = (p + one_if(one.score), q + one_if(other.score));
            let (r, s) = (f + one_if(one.flagged), g + one_if(other.flagged));
            &&& d.len() == r + one_if(one.error) + 1
            &&& one.score is Some && other.score is Some ==> same_words(
                d[p],
                seq![one.score->0@],
                e[q],
                seq![other.score->0@],
            )
            &&& one.flagged is Some && other.flagged is Some ==> same_words(
                d[f],
                seq![one.flagged->0@],
                e[g],
                seq![other.flagged->0@],
            )
            &&& one.error is Some && other.error is Some ==> same_words(
                d[r],
                seq![one.error->0@],
                e[s],
                seq![other.error->0@],
            )
            &&& same_words(d.last(), seq![one.submission_id@], e.last(), seq![other.submission_id@])
        }),
{
    lemma_detail_ends(one);
    lemma_detail_ends(other);
    lemma_labelled("\nScore:        "@, one.score->0@, other.score->0@);
    lemma_labelled("\nNot scored:   "@, one.flagged->0@, other.flagged->0@);
    lemma_labelled("\n"@, one.error->0@, other.error->0@);
    lemma_labelled(
        "\nFull log:     moa-submitter log "@,
        one.submission_id@,
        other.submission_id@,
    );
}

proof fn lemma_detail_ends(one: Submission)
    ensures
        ({
            let d = detail(one);
            let p = outcome_at(one);
            let f = p + one_if(one.score);
            let r = f + one_if(one.flagged);
            &&& d.len() == r + one_if(one.error) + 1
            &&& one.score is Some ==> d[p] == "\nScore:        "@ + one.score->0@
            &&& one.flagged is Some ==> d[f] == "\nNot scored:   "@ + one.flagged->0@
            &&& one.error is Some ==> d[r] == "\n"@ + one.error->0@
            &&& d.last() == "\nFull log:     moa-submitter log "@ + one.submission_id@
        }),
{
    let back = detail_back(one);
    let p = outcome_at(one);
    lemma_detail_split(one);
    assert forall|i: int| 0 <= i < back.len() implies detail(one)[p + i] == back[i] by {}
    assert(back.last() == "\nFull log:     moa-submitter log "@ + one.submission_id@);
    assert(detail(one).last() == detail(one)[p + (back.len() - 1)]);
    if one.score is Some {
        assert(detail(one)[p + 0] == back[0]);
    }
    if one.flagged is Some {
        assert(back[one_if(one.score)] == "\nNot scored:   "@ + one.flagged->0@);
    }
    if one.error is Some {
        assert(back[one_if(one.score) + one_if(one.flagged)] == "\n"@ + one.error->0@);
        assert(detail(one)[p + (one_if(one.score) + one_if(one.flagged))] == back[one_if(one.score)
            + one_if(one.flagged)]);
    }
}

} // verus!

//! The table of submissions.

use vstd::prelude::*;

use crate::submission::{
    score_text, short_time, short_time_text, status_text, time_can_be_shortened, Submission,
};
use crate::text::{
    as_slice, join, joined, law_padded, lemma_texts_push, pad, padded, repeat, repeated, text_of,
    texts, trim_end, trimmed_end,
};

verus! {

/// How many columns the table has.
pub const COLUMNS: usize = 5;

/// The heads of the columns.
pub open spec fn header_cells() -> Seq<Seq<char>> {
    seq!["SUBMISSION"@, "TEAM"@, "STATUS"@, "SCORE"@, "SUBMITTED"@]
}

/// The cells of a submission's row.
pub open spec fn row_cells(row: Submission) -> Seq<Seq<char>> {
    seq![
        row.submission_id@,
        row.team_name@,
        status_text(row),
        score_text(row),
        short_time_text(text_of(row.created_at)),
    ]
}

/// The cells of each submission's row.
pub open spec fn body_cells(rows: Seq<Submission>) -> Seq<Seq<Seq<char>>> {
    rows.map_values(|row: Submission| row_cells(row))
}

/// The number of characters of the widest cell of a column.
pub open spec fn widest(rows: Seq<Seq<Seq<char>>>, column: int) -> nat
    decreases rows.len(),
{
    if rows.len() == 0 {
        0
    } else {
        let above = widest(rows.drop_last(), column);
        let here = rows.last()[column].len();
        if here > above {
            here
        } else {
            above
        }
    }
}

/// The width of each column: that of its widest cell, its head among them.
pub open spec fn column_widths(rows: Seq<Seq<Seq<char>>>) -> Seq<nat> {
    Seq::new(COLUMNS as nat, |column: int| widest(seq![header_cells()] + rows, column))
}

/// The cells of a row, each filled up to the width of its column.
pub open spec fn filled(cells: Seq<Seq<char>>, widths: Seq<nat>) -> Seq<Seq<char>> {
    Seq::new(COLUMNS as nat, |column: int| padded(cells[column], widths[column]))
}

/// A row: the filled cells with two spaces between them, and no white space at the end.
pub open spec fn row_line(cells: Seq<Seq<char>>, widths: Seq<nat>) -> Seq<char> {
    trimmed_end(joined(filled(cells, widths), "  "@))
}

/// The line below the heads.
pub open spec fn rule_line(widths: Seq<nat>) -> Seq<char> {
    joined(Seq::new(COLUMNS as nat, |column: int| repeated('-', widths[column])), "  "@)
}

/// The lines of the table: the heads, a rule, and a row for each submission.
pub open spec fn table(rows: Seq<Submission>) -> Seq<Seq<char>> {
    let body = body_cells(rows);
    let widths = column_widths(body);
    seq![row_line(header_cells(), widths), rule_line(widths)] + body.map_values(
        |cells: Seq<Seq<char>>| row_line(cells, widths),
    )
}

/// The widths as numbers.
spec fn numbers(widths: Seq<usize>) -> Seq<nat> {
    widths.map_values(|w: usize| w as nat)
}

/// What the cells of each row hold.
spec fn cell_texts(rows: Seq<Vec<String>>) -> Seq<Seq<Seq<char>>> {
    rows.map_values(|cells: Vec<String>| texts(cells@))
}

/// The heads of the columns.
fn headers() -> (r: Vec<String>)
    ensures
        texts(r@) == header_cells(),
{
    let mut r: Vec<String> = Vec::new();
    r.push("SUBMISSION".to_owned());
    r.push("TEAM".to_owned());
    r.push("STATUS".to_owned());
    r.push("SCORE".to_owned());
    r.push("SUBMITTED".to_owned());
    assert(texts(r@) =~= header_cells());
    r
}

/// The cells of a submission's row.
fn cells_of(row: &Submission) -> (r: Vec<String>)
    requires
        time_can_be_shortened(text_of(row.created_at)),
    ensures
        texts(r@) == row_cells(*row),
{
    let mut r: Vec<String> = Vec::new();
    r.push(row.submission_id.clone());
    r.push(row.team_name.clone());
    r.push(row.display_status());
    r.push(row.display_score());
    r.push(short_time(as_slice(&row.created_at)));
    assert(texts(r@) =~= row_cells(*row));
    r
}

/// The width of a column over all the rows.
fn widest_cell(rows: &Vec<Vec<String>>, column: usize) -> (r: usize)
    requires
        forall|i: int| 0 <= i < rows@.len() ==> column < (#[trigger] rows@[i])@.len(),
    ensures
        r == widest(cell_texts(rows@), column as int),
{
    let mut width: usize = 0;
    let mut i: usize = 0;
    let ghost all = cell_texts(rows@);
    while i < rows.len()
        invariant
            i <= rows.len(),
            all == cell_texts(rows@),
            forall|k: int| 0 <= k < rows@.len() ==> column < (#[trigger] rows@[k])@.len(),
            width == widest(all.take(i as int), column as int),
        decreases rows.len() - i,
    {
        assert(all.take(i + 1).drop_last() == all.take(i as int));
        let cell: &str = rows[i][column].as_str();
        let count: usize = cell.unicode_len();
        assert(all.take(i + 1).last()[column as int] == cell@);
        if count > width {
            width = count;
        }
        i = i + 1;
    }
    assert(all.take(i as int) == all);
    width
}

/// A row of the table.
fn line(cells: &Vec<String>, widths: &Vec<usize>) -> (r: String)
    requires
        cells@.len() == COLUMNS,
        widths@.len() == COLUMNS,
    ensures
        r@ == row_line(texts(cells@), numbers(widths@)),
{
    let mut parts: Vec<String> = Vec::new();
    let mut column: usize = 0;
    let ghost expected = filled(texts(cells@), numbers(widths@));
    while column < COLUMNS
        invariant
            column <= COLUMNS,
            cells@.len() == COLUMNS,
            widths@.len() == COLUMNS,
            expected == filled(texts(cells@), numbers(widths@)),
            texts(parts@) == expected.take(column as int),
        decreases COLUMNS - column,
    {
        let part: String = pad(cells[column].as_str(), widths[column]);
        proof {
            lemma_texts_push(parts@, part);
            assert(expected.take(column + 1) =~= expected.take(column as int).push(part@));
        }
        parts.push(part);
        column = column + 1;
    }
    assert(expected.take(column as int) =~= expected);
    let whole: String = join(&parts, "  ");
    trim_end(whole.as_str())
}

/// The line below the heads.
fn rule(widths: &Vec<usize>) -> (r: String)
    requires
        widths@.len() == COLUMNS,
    ensures
        r@ == rule_line(numbers(widths@)),
{
    let mut parts: Vec<String> = Vec::new();
    let mut column: usize = 0;
    let ghost expected = Seq::new(
        COLUMNS as nat,
        |column: int| repeated('-', numbers(widths@)[column]),
    );
    while column < COLUMNS
        invariant
            column <= COLUMNS,
            widths@.len() == COLUMNS,
            expected == Seq::new(
                COLUMNS as nat,
                |column: int| repeated('-', numbers(widths@)[column]),
            ),
            texts(parts@) == expected.take(column as int),
        decreases COLUMNS - column,
    {
        let part: String = repeat('-', widths[column]);
        proof {
            lemma_texts_push(parts@, part);
            assert(expected.take(column + 1) =~= expected.take(column as int).push(part@));
        }
        parts.push(part);
        column = column + 1;
    }
    assert(expected.take(column as int) =~= expected);
    join(&parts, "  ")
}

/// The lines of the table of submissions.
pub fn table_lines(rows: &Vec<Submission>) -> (r: Vec<String>)
    requires
        forall|i: int|
            0 <= i < rows@.len() ==> time_can_be_shortened(
                text_of((#[trigger] rows@[i]).created_at),
            ),
    ensures
        texts(r@) == table(rows@),
{
    let mut all: Vec<Vec<String>> = Vec::new();
    all.push(headers());
    let ghost body = body_cells(rows@);
    assert(cell_texts(all@) =~= seq![header_cells()] + body.take(0));
    let mut i: usize = 0;
    while i < rows.len()
        invariant
            i <= rows.len(),
            all@.len() == i + 1,
            body == body_cells(rows@),
            forall|k: int|
                0 <= k < rows@.len() ==> time_can_be_shortened(
                    text_of((#[trigger] rows@[k]).created_at),
                ),
            cell_texts(all@) == seq![header_cells()] + body.take(i as int),
        decreases rows.len() - i,
    {
        let cells: Vec<String> = cells_of(&rows[i]);
        let ghost before = all@;
        assert(body.take(i + 1) =~= body.take(i as int).push(texts(cells@)));
        all.push(cells);
        assert(cell_texts(all@) =~= cell_texts(before).push(texts(cells@)));
        i = i + 1;
        assert(cell_texts(all@) =~= seq![header_cells()] + body.take(i as int));
    }
    assert(body.take(i as int) =~= body);
    assert forall|k: int| 0 <= k < all@.len() implies (#[trigger] all@[k])@.len() == COLUMNS by {
        assert(cell_texts(all@)[k] == texts(all@[k]@));
        if k > 0 {
            assert(cell_texts(all@)[k] == row_cells(rows@[k - 1]));
        }
    }
    let mut widths: Vec<usize> = Vec::new();
    let ghost expected = column_widths(body);
    while widths.len() < COLUMNS
        invariant
            widths.len() <= COLUMNS,
            expected == column_widths(body),
            cell_texts(all@) == seq![header_cells()] + body,
            forall|k: int| 0 <= k < all@.len() ==> (#[trigger] all@[k])@.len() == COLUMNS,
            numbers(widths@) == expected.take(widths@.len() as int),
        decreases COLUMNS - widths.len(),
    {
        let width: usize = widest_cell(&all, widths.len());
        let ghost before = widths@;
        widths.push(width);
        assert(numbers(widths@) =~= numbers(before).push(width as nat));
        assert(expected.take(widths@.len() as int) =~= expected.take(before.len() as int).push(
            width as nat,
        ));
    }
    assert(expected.take(widths@.len() as int) =~= expected);
    let mut lines: Vec<String> = Vec::new();
    lines.push(line(&all[0], &widths));
    lines.push(rule(&widths));
    let ghost goal = table(rows@);
    assert(texts(all@[0]@) == cell_texts(all@)[0]);
    assert(texts(lines@) =~= goal.take(2));
    let mut k: usize = 1;
    while k < all.len()
        invariant
            1 <= k <= all.len(),
            goal == table(rows@),
            body == body_cells(rows@),
            goal.len() == all@.len() + 1,
            all@.len() == body.len() + 1,
            cell_texts(all@) == seq![header_cells()] + body,
            forall|j: int| 0 <= j < all@.len() ==> (#[trigger] all@[j])@.len() == COLUMNS,
            widths@.len() == COLUMNS,
            numbers(widths@) == column_widths(body),
            texts(lines@) == goal.take(k + 1),
        decreases all.len() - k,
    {
        let next: String = line(&all[k], &widths);
        proof {
            lemma_texts_push(lines@, next);
            assert(cell_texts(all@)[k as int] == texts(all@[k as int]@));
            assert(cell_texts(all@)[k as int] == body[k - 1]);
            assert(goal[k + 1] == next@);
            assert(goal.take(k + 2) =~= goal.take(k + 1).push(next@));
        }
        lines.push(next);
        k = k + 1;
    }
    assert(goal.take(k + 1) =~= goal);
    lines
}

/// Where part `k` starts in the joined parts.
pub open spec fn part_start(parts: Seq<Seq<char>>, separator: Seq<char>, k: int) -> nat
    decreases k,
{
    if k <= 0 {
        0
    } else {
        part_start(parts, separator, k - 1) + parts[k - 1].len() + separator.len()
    }
}

/// Where column `k` starts.
pub open spec fn column_start(widths: Seq<nat>, k: int) -> nat
    decreases k,
{
    if k <= 0 {
        0
    } else {
        column_start(widths, k - 1) + widths[k - 1] + 2
    }
}

proof fn lemma_part_start_prefix(
    a: Seq<Seq<char>>,
    b: Seq<Seq<char>>,
    separator: Seq<char>,
    k: int,
)
    requires
        forall|j: int| 0 <= j < k ==> a[j] == b[j],
    ensures
        part_start(a, separator, k) == part_start(b, separator, k),
    decreases k,
{
    if k > 0 {
        lemma_part_start_prefix(a, b, separator, k - 1);
    }
}

proof fn lemma_joined_len(parts: Seq<Seq<char>>, separator: Seq<char>)
    requires
        parts.len() > 0,
    ensures
        joined(parts, separator).len() == part_start(parts, separator, parts.len() - 1)
            + parts.last().len(),
    decreases parts.len(),
{
    if parts.len() > 1 {
        let shorter = parts.drop_last();
        lemma_joined_len(shorter, separator);
        lemma_part_start_prefix(shorter, parts, separator, shorter.len() - 1);
    }
}

proof fn lemma_part_in_joined(parts: Seq<Seq<char>>, separator: Seq<char>, k: int)
    requires
        0 <= k < parts.len(),
    ensures
        ({
            let start = part_start(parts, separator, k) as int;
            let whole = joined(parts, separator);
            &&& start + parts[k].len() <= whole.len()
            &&& whole.subrange(start, start + parts[k].len()) == parts[k]
        }),
    decreases parts.len(),
{
    let whole = joined(parts, separator);
    let start = part_start(parts, separator, k) as int;
    if parts.len() == 1 {
        assert(whole.subrange(0, whole.len() as int) =~= parts[0]);
    } else {
        let shorter = parts.drop_last();
        let front = joined(shorter, separator);
        assert(whole == front + separator + parts.last());
        if k < parts.len() - 1 {
            lemma_part_in_joined(shorter, separator, k);
            lemma_part_start_prefix(shorter, parts, separator, k);
            assert(whole.subrange(start, start + parts[k].len()) =~= front.subrange(
                start,
                start + parts[k].len(),
            ));
        } else {
            lemma_joined_len(shorter, separator);
            lemma_part_start_prefix(shorter, parts, separator, shorter.len() - 1);
            assert(start == front.len() + separator.len());
            assert(whole.subrange(start, start + parts[k].len()) =~= parts[k]);
        }
    }
}

proof fn lemma_widest(rows: Seq<Seq<Seq<char>>>, column: int, i: int)
    requires
        0 <= i < rows.len(),
    ensures
        rows[i][column].len() <= widest(rows, column),
    decreases rows.len(),
{
    if i < rows.len() - 1 {
        lemma_widest(rows.drop_last(), column, i);
    }
}

proof fn lemma_filled_start(cells: Seq<Seq<char>>, widths: Seq<nat>, k: int)
    requires
        0 <= k <= COLUMNS,
        forall|j: int| 0 <= j < COLUMNS ==> #[trigger] cells[j].len() <= widths[j],
    ensures
        part_start(filled(cells, widths), "  "@, k) == column_start(widths, k),
    decreases k,
{
    if k > 0 {
        reveal_strlit("  ");
        lemma_filled_start(cells, widths, k - 1);
        assert(cells[k - 1].len() <= widths[k - 1]);
        assert(filled(cells, widths)[k - 1].len() == widths[k - 1]);
    }
}

/// A cell stands whole at the start of its column.
proof fn lemma_cell_in_row(cells: Seq<Seq<char>>, widths: Seq<nat>, column: int)
    requires
        0 <= column < COLUMNS,
        forall|j: int| 0 <= j < COLUMNS ==> #[trigger] cells[j].len() <= widths[j],
    ensures
        ({
            let text = joined(filled(cells, widths), "  "@);
            let start = column_start(widths, column) as int;
            &&& start + cells[column].len() <= text.len()
            &&& text.subrange(start, start + cells[column].len()) == cells[column]
        }),
{
    let parts = filled(cells, widths);
    let text = joined(parts, "  "@);
    let start = column_start(widths, column) as int;
    let cell = cells[column];
    let part = parts[column];
    lemma_filled_start(cells, widths, column);
    lemma_part_in_joined(parts, "  "@, column);
    assert(cell.len() <= widths[column]);
    assert(part == padded(cell, widths[column]));
    assert forall|i: int| 0 <= i < cell.len() implies text.subrange(start, start + cell.len())[i]
        == cell[i] by {
        assert(text[start + i] == text.subrange(start, start + part.len())[i]);
    }
    assert(text.subrange(start, start + cell.len()) =~= cell);
}

/// The columns line up: in the heads and in every row each cell stands whole at the place
/// where its column starts, and that place is the same in all of them. Row zero of the
/// law are the heads. A printed line is such a row without the white space at its end.
pub proof fn law_columns_line_up(rows: Seq<Submission>, row: int, column: int)
    requires
        0 <= row <= rows.len(),
        0 <= column < COLUMNS,
    ensures
        ({
            let body = body_cells(rows);
            let widths = column_widths(body);
            let cells = (seq![header_cells()] + body)[row];
            let text = joined(filled(cells, widths), "  "@);
            let start = column_start(widths, column) as int;
            &&& start + cells[column].len() <= text.len()
            &&& text.subrange(start, start + cells[column].len()) == cells[column]
            &&& table(rows)[if row == 0 {
                0
            } else {
                row + 1
            }] == trimmed_end(text)
        }),
{
    let body = body_cells(rows);
    let widths = column_widths(body);
    let all = seq![header_cells()] + body;
    let cells = all[row];
    assert forall|j: int| 0 <= j < COLUMNS implies #[trigger] cells[j].len() <= widths[j] by {
        lemma_widest(all, j, row);
    }
    lemma_cell_in_row(cells, widths, column);
}

/// The table has a row for each submission, below two lines for the heads.
pub proof fn law_table_has_all_rows(rows: Seq<Submission>)
    ensures
        table(rows).len() == rows.len() + 2,
{
}

/// Behind each part but the last one stands the separator.
proof fn lemma_separator_in_joined(parts: Seq<Seq<char>>, separator: Seq<char>, k: int)
    requires
        0 <= k < parts.len() - 1,
    ensures
        ({
            let end = part_start(parts, separator, k) + parts[k].len();
            let whole = joined(parts, separator);
            &&& end + separator.len() <= whole.len()
            &&& whole.subrange(end as int, (end + separator.len()) as int) == separator
        }),
    decreases parts.len(),
{
    let whole = joined(parts, separator);
    let end = (part_start(parts, separator, k) + parts[k].len()) as int;
    let shorter = parts.drop_last();
    let front = joined(shorter, separator);
    assert(whole == front + separator + parts.last());
    lemma_part_start_prefix(shorter, parts, separator, k);
    if k < parts.len() - 2 {
        lemma_separator_in_joined(shorter, separator, k);
        assert(whole.subrange(end, end + separator.len()) =~= front.subrange(
            end,
            end + separator.len(),
        ));
    } else {
        lemma_joined_len(shorter, separator);
        assert(whole.subrange(end, end + separator.len()) =~= separator);
    }
}

/// A text of five columns: in each one a part that is as wide as the column, and two spaces
/// between them.
pub open spec fn has_columns(text: Seq<char>, widths: Seq<nat>, parts: Seq<Seq<char>>) -> bool {
    &&& text.len() == column_start(widths, 4) + widths[4]
    &&& forall|c: int| #![trigger parts[c]]
        0 <= c < 5 ==> {
            let start = column_start(widths, c) as int;
            &&& parts[c].len() == widths[c]
            &&& start + widths[c] <= text.len()
            &&& text.subrange(start, start + widths[c]) == parts[c]
        }
    &&& forall|c: int| #![trigger column_start(widths, c)]
        0 < c < 5 ==> text[column_start(widths, c) - 1] == ' ' && text[column_start(widths, c) - 2]
            == ' '
}

proof fn lemma_has_columns(parts: Seq<Seq<char>>, widths: Seq<nat>)
    requires
        parts.len() == 5,
        forall|c: int| 0 <= c < 5 ==> (#[trigger] parts[c]).len() == widths[c],
    ensures
        has_columns(joined(parts, "  "@), widths, parts),
{
    let text = joined(parts, "  "@);
    reveal_strlit("  ");
    lemma_joined_len(parts, "  "@);
    lemma_column_starts(parts, widths, 4);
    assert forall|c: int| #![trigger parts[c]] 0 <= c < 5 implies {
        let start = column_start(widths, c) as int;
        &&& parts[c].len() == widths[c]
        &&& start + widths[c] <= text.len()
        &&& text.subrange(start, start + widths[c]) == parts[c]
    } by {
        lemma_column_starts(parts, widths, c);
        lemma_part_in_joined(parts, "  "@, c);
    }
    assert forall|c: int| #![trigger column_start(widths, c)] 0 < c < 5 implies text[column_start(
        widths,
        c,
    ) - 1] == ' ' && text[column_start(widths, c) - 2] == ' ' by {
        let end = (part_start(parts, "  "@, c - 1) + parts[c - 1].len()) as int;
        lemma_column_starts(parts, widths, c);
        lemma_column_starts(parts, widths, c - 1);
        lemma_separator_in_joined(parts, "  "@, c - 1);
        assert(text.subrange(end, end + 2)[0] == ' ');
        assert(text.subrange(end, end + 2)[1] == ' ');
    }
}

proof fn lemma_column_starts(parts: Seq<Seq<char>>, widths: Seq<nat>, k: int)
    requires
        0 <= k < 5,
        forall|c: int| 0 <= c < 5 ==> (#[trigger] parts[c]).len() == widths[c],
    ensures
        part_start(parts, "  "@, k) == column_start(widths, k),
    decreases k,
{
    reveal_strlit("  ");
    if k > 0 {
        lemma_column_starts(parts, widths, k - 1);
        assert(parts[k - 1].len() == widths[k - 1]);
    }
}

/// What a row is to show: the identifier, the team, the status, the score and the time.
pub open spec fn fields(row: Submission) -> Seq<Seq<char>> {
    seq![
        row.submission_id@,
        row.team_name@,
        status_text(row),
        score_text(row),
        short_time_text(text_of(row.created_at)),
    ]
}

/// The heads and what each row is to show, one below the other.
pub open spec fn grid(rows: Seq<Submission>) -> Seq<Seq<Seq<char>>> {
    seq![seq!["SUBMISSION"@, "TEAM"@, "STATUS"@, "SCORE"@, "SUBMITTED"@]] + Seq::new(
        rows.len(),
        |i: int| fields(rows[i]),
    )
}

/// A column has room for all of its cells, and is no wider than one of them.
pub open spec fn fits_column(width: nat, cells: Seq<Seq<Seq<char>>>, c: int) -> bool {
    &&& forall|i: int| 0 <= i < cells.len() ==> (#[trigger] cells[i])[c].len() <= width
    &&& exists|i: int| 0 <= i < cells.len() && (#[trigger] cells[i])[c].len() == width
}

/// Each column is as wide as the widest of its cells, and no wider.
pub open spec fn fits(widths: Seq<nat>, cells: Seq<Seq<Seq<char>>>) -> bool {
    forall|c: int| 0 <= c < 5 ==> fits_column(#[trigger] widths[c], cells, c)
}

/// The line is a row of the cells in their columns, each one whole and with nothing but
/// spaces behind it, and without the white space at its end.
pub open spec fn shows_cells(line: Seq<char>, widths: Seq<nat>, cells: Seq<Seq<char>>) -> bool {
    exists|text: Seq<char>, parts: Seq<Seq<char>>| #[trigger]
        has_columns(text, widths, parts) && line == trimmed_end(text) && forall|c: int|
            0 <= c < 5 ==> cells[c].is_prefix_of(#[trigger] parts[c]) && forall|i: int|
                cells[c].len() <= i < parts[c].len() ==> #[trigger] parts[c][i] == ' '
}

/// The line is a row of dashes in the columns.
pub open spec fn is_ruled(line: Seq<char>, widths: Seq<nat>) -> bool {
    exists|parts: Seq<Seq<char>>| #[trigger]
        has_columns(line, widths, parts) && forall|c: int, i: int|
            0 <= c < 5 && 0 <= i < parts[c].len() ==> #[trigger] parts[c][i] == '-'
}

proof fn lemma_widest_is_there(rows: Seq<Seq<Seq<char>>>, column: int) -> (i: int)
    requires
        rows.len() > 0,
    ensures
        0 <= i < rows.len(),
        rows[i][column].len() == widest(rows, column),
    decreases rows.len(),
{
    let above = rows.drop_last();
    if above.len() == 0 || rows.last()[column].len() > widest(above, column) {
        rows.len() - 1
    } else {
        let i = lemma_widest_is_there(above, column);
        assert(above[i] == rows[i]);
        i
    }
}

proof fn lemma_row_shows(cells: Seq<Seq<char>>, widths: Seq<nat>)
    requires
        forall|c: int| 0 <= c < 5 ==> (#[trigger] cells[c]).len() <= widths[c],
    ensures
        shows_cells(row_line(cells, widths), widths, cells),
{
    let parts = filled(cells, widths);
    let text = joined(parts, "  "@);
    assert forall|c: int| 0 <= c < 5 implies (#[trigger] parts[c]).len() == widths[c]
        && cells[c].is_prefix_of(parts[c]) && forall|i: int|
        cells[c].len() <= i < parts[c].len() ==> #[trigger] parts[c][i] == ' ' by {
        law_padded(cells[c], widths[c]);
        assert(cells[c].len() <= widths[c]);
        assert(parts[c] == padded(cells[c], widths[c]));
    }
    lemma_has_columns(parts, widths);
    assert(has_columns(text, widths, parts));
}

/// The table shows the heads, a rule and a row for each submission, in their order. In each
/// row all that is to be shown of the submission stands whole in its column, and the columns
/// are the same in all lines and no wider than they have to be.
pub proof fn law_table_shows_everything(rows: Seq<Submission>)
    ensures
        table(rows).len() == rows.len() + 2,
        exists|widths: Seq<nat>| #[trigger]
            fits(widths, grid(rows)) && shows_cells(table(rows)[0], widths, grid(rows)[0])
                && is_ruled(table(rows)[1], widths) && forall|i: int|
                0 <= i < rows.len() ==> shows_cells(
                    #[trigger] table(rows)[i + 2],
                    widths,
                    fields(rows[i]),
                ),
{
    let body = body_cells(rows);
    let widths = column_widths(body);
    let all = seq![header_cells()] + body;
    assert(all =~= grid(rows)) by {
        assert forall|i: int| 0 <= i < all.len() implies all[i] == grid(rows)[i] by {
            if i == 0 {
                assert(all[0] =~= grid(rows)[0]);
            } else {
                assert(all[i] == row_cells(rows[i - 1]));
                assert(row_cells(rows[i - 1]) =~= fields(rows[i - 1]));
            }
        }
    }
    assert forall|c: int| 0 <= c < 5 implies fits_column(#[trigger] widths[c], all, c) by {
        assert forall|i: int| 0 <= i < all.len() implies (#[trigger] all[i])[c].len()
            <= widths[c] by {
            lemma_widest(all, c, i);
        }
        let k = lemma_widest_is_there(all, c);
        assert(all[k][c].len() == widths[c]);
    }
    assert(fits(widths, all));
    assert forall|r: int| 0 <= r < all.len() implies shows_cells(
        row_line(#[trigger] all[r], widths),
        widths,
        all[r],
    ) by {
        assert forall|c: int| 0 <= c < 5 implies (#[trigger] all[r][c]).len() <= widths[c] by {
            lemma_widest(all, c, r);
        }
        lemma_row_shows(all[r], widths);
    }
    assert(table(rows)[0] == row_line(all[0], widths));
    assert forall|i: int| 0 <= i < rows.len() implies shows_cells(
        #[trigger] table(rows)[i + 2],
        widths,
        fields(rows[i]),
    ) by {
        assert(all[i + 1] == grid(rows)[i + 1]);
        assert(table(rows)[i + 2] == row_line(all[i + 1], widths));
    }
    let dashes = Seq::new(COLUMNS as nat, |column: int| repeated('-', widths[column]));
    assert(table(rows)[1] == joined(dashes, "  "@));
    lemma_has_columns(dashes, widths);
    assert(is_ruled(table(rows)[1], widths));
}

} // verus!

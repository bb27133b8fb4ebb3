use moa_submitter::detail::detail_lines;
use moa_submitter::log::{log_lines, log_query};
use moa_submitter::login::login_query;
use moa_submitter::status::{
    can_be_printed, recent, shown_by, status_lines, status_query, submission_query, Shown,
};
use moa_submitter::submission::{is_shortenable, short_time, Cycles, Submission};
use moa_submitter::table::table_lines;

fn submission(id: &str) -> Submission {
    Submission {
        submission_id: id.to_string(),
        team_name: "Team".to_string(),
        status: "completed".to_string(),
        stage: None,
        cycles: vec![],
        score: None,
        error: None,
        flagged: None,
        queue_position: None,
        created_at: None,
        finished_at: None,
    }
}

fn made_at(id: &str, time: &str) -> Submission {
    Submission { created_at: Some(time.to_string()), ..submission(id) }
}

fn ids(rows: &[Submission]) -> Vec<&str> {
    rows.iter().map(|r| r.submission_id.as_str()).collect()
}

fn cycle(kernel: &str, value: &str) -> Cycles {
    Cycles { kernel: kernel.to_string(), value: value.to_string() }
}

#[test]
fn times_are_shortened_to_the_minute() {
    assert_eq!(short_time(Some("2026-09-09T04:12:31.001Z")), "2026-09-09 04:12");
    assert_eq!(short_time(Some("2026-09-09T04:12")), "2026-09-09 04:12");
    assert_eq!(short_time(None), "-");
}

#[test]
fn what_is_no_time_is_left_as_it_is() {
    for raw in ["", "2026-09-09", "2026-09-09T04:1", "2026-09-09 04:12:31", "yesterday afternoon"] {
        assert_eq!(short_time(Some(raw)), raw);
    }
    assert_eq!(short_time(Some("한한한aT12:34")), "한한한a 12:34");
}

#[test]
fn a_time_that_ends_inside_a_character_is_told_apart() {
    assert!(!is_shortenable(Some("2026-09-09T04:1å")));
    assert!(is_shortenable(Some("2026-09-09T04:å")));
    assert_eq!(short_time(Some("2026-09-09T04:å")), "2026-09-09 04:å");
    assert!(is_shortenable(Some("2026-09-09T04:12å")));
    assert!(is_shortenable(None));
    assert!(is_shortenable(Some("å")));
}

#[test]
fn status_and_score_are_shown() {
    let mut one = submission("a");
    assert_eq!(one.display_status(), "completed");
    assert_eq!(one.display_score(), "-");
    one.status = "queued".to_string();
    one.queue_position = Some(12);
    one.score = Some(format!("{:.4}", 1.5f64));
    assert_eq!(one.display_status(), "queued (#12)");
    assert_eq!(one.display_score(), "1.5000");
    assert!(one.has_shortenable_times());
    one.finished_at = Some("2026-09-09T04:1å".to_string());
    assert!(!one.has_shortenable_times());
}

#[test]
fn the_table_lines_its_columns_up() {
    let mut first = made_at("s-100000001", "2026-09-09T04:12:31Z");
    first.team_name = "한글 팀".to_string();
    first.score = Some("0.9876".to_string());
    let mut second = submission("s-2");
    second.status = "queued".to_string();
    second.queue_position = Some(3);
    assert_eq!(
        table_lines(&vec![first, second]),
        vec![
            "SUBMISSION   TEAM  STATUS       SCORE   SUBMITTED",
            "-----------  ----  -----------  ------  ----------------",
            "s-100000001  한글 팀  completed    0.9876  2026-09-09 04:12",
            "s-2          Team  queued (#3)  -       -",
        ]
    );
}

#[test]
fn the_table_agrees_with_standard_formatting() {
    let names = ["", "x", "a longer name", "한글", "trailing  ", "åß\u{3000}"];
    let mut rows: Vec<Submission> = Vec::new();
    for (i, name) in names.iter().enumerate() {
        let mut row = submission(&format!("s-{}", i * 1000));
        row.team_name = name.to_string();
        row.status = names[(i + 2) % names.len()].to_string();
        row.created_at = Some(names[(i + 4) % names.len()].to_string());
        rows.push(row);
    }
    let mut cells: Vec<[String; 5]> =
        vec![["SUBMISSION", "TEAM", "STATUS", "SCORE", "SUBMITTED"].map(str::to_owned)];
    for row in &rows {
        cells.push([
            row.submission_id.clone(),
            row.team_name.clone(),
            row.display_status(),
            row.display_score(),
            short_time(row.created_at.as_deref()),
        ]);
    }
    let mut widths = [0usize; 5];
    for row in &cells {
        for (index, cell) in row.iter().enumerate() {
            widths[index] = widths[index].max(cell.chars().count());
        }
    }
    let mut expected: Vec<String> = Vec::new();
    for row in &cells {
        let parts: Vec<String> = row
            .iter()
            .enumerate()
            .map(|(index, cell)| format!("{cell:<width$}", width = widths[index]))
            .collect();
        expected.push(parts.join("  ").trim_end().to_owned());
    }
    let rule: Vec<String> = widths.iter().map(|w| "-".repeat(*w)).collect();
    expected.insert(1, rule.join("  "));
    assert_eq!(table_lines(&rows), expected);
}

#[test]
fn the_table_without_rows_has_its_heads() {
    assert_eq!(
        table_lines(&vec![]),
        vec![
            "SUBMISSION  TEAM  STATUS  SCORE  SUBMITTED",
            "----------  ----  ------  -----  ---------",
        ]
    );
}

#[test]
fn each_kernel_has_one_line_and_the_others_stand_in_order() {
    let mut one = submission("s");
    one.cycles = vec![
        cycle("a", "1"),
        cycle("ops::decoder_feedforward", "2"),
        cycle("ops::sliding_attention_output", "3"),
        cycle("ops::zebra", "4"),
        cycle("z", "5"),
    ];
    let lines = detail_lines(&one);
    let names: Vec<&str> = lines
        .iter()
        .filter(|line| line.starts_with("  "))
        .map(|line| line.split_whitespace().next().unwrap())
        .collect();
    assert_eq!(
        names,
        vec![
            "ops::sliding_attention_output",
            "ops::decoder_feedforward",
            "a",
            "ops::zebra",
            "z",
        ]
    );
}

#[test]
fn the_detail_shows_only_what_there_is() {
    assert_eq!(
        detail_lines(&submission("s-1")),
        vec![
            "Submission:   s-1",
            "Team:         Team",
            "Status:       completed",
            "Submitted:    -",
            "\nFull log:     moa-submitter log s-1",
        ]
    );
}

#[test]
fn the_detail_shows_all_there_is() {
    let one = Submission {
        stage: Some("bench".to_string()),
        cycles: vec![
            cycle("ops::another", "7"),
            cycle("ops::decoder_feedforward", "300"),
            cycle("ops::sliding_attention_output", "200"),
            cycle("ops::sliding_project_qkv", "{\"min\":100}"),
            cycle("ops::zz_a_kernel_with_a_very_long_name", "9"),
        ],
        score: Some("1.2500".to_string()),
        error: Some("it broke".to_string()),
        flagged: Some("checked by hand".to_string()),
        created_at: Some("2026-09-09T04:12:31.001Z".to_string()),
        finished_at: Some("2026-09-09T05:00:00.000Z".to_string()),
        ..submission("s-1")
    };
    assert_eq!(
        detail_lines(&one),
        vec![
            "Submission:   s-1",
            "Team:         Team",
            "Status:       completed",
            "Stage:        bench",
            "Submitted:    2026-09-09 04:12",
            "Finished:     2026-09-09 05:00",
            "\nCycles:",
            "  ops::sliding_project_qkv         {\"min\":100}",
            "  ops::sliding_attention_output    200",
            "  ops::decoder_feedforward         300",
            "  ops::another                     7",
            "  ops::zz_a_kernel_with_a_very_long_name 9",
            "\nScore:        1.2500",
            "\nNot scored:   checked by hand",
            "\nit broke",
            "\nFull log:     moa-submitter log s-1",
        ]
    );
}

#[test]
fn the_options_say_how_many_are_listed() {
    assert_eq!(shown_by(false, None), Shown::Recent(20));
    assert_eq!(shown_by(false, Some(50)), Shown::Recent(50));
    assert_eq!(shown_by(true, None), Shown::All);
    assert_eq!(shown_by(true, Some(3)), Shown::All);
}

#[test]
fn twenty_submissions_are_listed_by_default() {
    let rows = |n: usize| -> Vec<Submission> {
        (0..n).map(|i| made_at(&format!("{i}"), &format!("2026-09-{:02}", 30 - i))).collect()
    };
    let shown = shown_by(false, None);
    assert_eq!(recent(rows(25), shown).len(), 20);
    assert_eq!(ids(&recent(rows(25), shown))[19], "19");
    assert_eq!(recent(rows(5), shown).len(), 5);
    assert_eq!(recent(rows(25), Shown::All).len(), 25);
    assert_eq!(recent(rows(25), Shown::Recent(0)).len(), 0);
    assert_eq!(status_lines(rows(25), shown).len(), 22);
}

#[test]
fn the_most_recent_are_listed_whatever_the_order() {
    let rows = || {
        vec![
            made_at("old", "2026-01-01T00:00:00Z"),
            submission("none"),
            made_at("new", "2026-03-01T00:00:00Z"),
            made_at("mid", "2026-02-01T00:00:00Z"),
            made_at("mid2", "2026-02-01T00:00:00Z"),
        ]
    };
    assert_eq!(ids(&recent(rows(), Shown::Recent(1))), vec!["new"]);
    assert_eq!(ids(&recent(rows(), Shown::Recent(2))), vec!["new", "mid"]);
    assert_eq!(ids(&recent(rows(), Shown::Recent(3))), vec!["new", "mid", "mid2"]);
    assert_eq!(ids(&recent(rows(), Shown::Recent(4))), vec!["old", "new", "mid", "mid2"]);
    assert_eq!(ids(&recent(rows(), Shown::Recent(9))), vec!["old", "none", "new", "mid", "mid2"]);
}

#[test]
fn without_submissions_the_user_is_told_how_to_make_one() {
    assert_eq!(
        status_lines(vec![], Shown::All),
        vec!["You have no submissions yet. Run `moa-submitter submit` from your repository."]
    );
}

#[test]
fn only_listed_times_have_to_be_shortened() {
    let rows = vec![made_at("a", "2026-09-09T04:12"), made_at("b", "2025-09-09T04:1å")];
    assert!(can_be_printed(&rows, Shown::Recent(1)));
    assert!(!can_be_printed(&rows, Shown::Recent(2)));
    assert!(!can_be_printed(&rows, Shown::All));
    assert_eq!(status_lines(rows, Shown::Recent(1)).len(), 3);
}

#[test]
fn each_command_asks_its_question() {
    let one = status_query("https://h", Some("a/b"));
    assert_eq!(one.url, "https://h/api/submissions/a%2Fb");
    assert_eq!(one.what, "read the submission");
    let same = submission_query("https://h", "a/b");
    assert_eq!((same.url, same.what), (one.url, one.what));
    let all = status_query("https://h", None);
    assert_eq!(all.url, "https://h/api/submissions");
    assert_eq!(all.what, "list your submissions");
    let log = log_query("https://h", "a/b");
    assert_eq!(log.url, "https://h/api/submissions/a%2Fb/log");
    assert_eq!(log.what, "read the log");
    assert_eq!(same.unreadable, "The server sent a reply we could not read");
    assert_eq!(all.unreadable, "The server sent a reply we could not read");
    assert_eq!(log.unreadable, "The server sent a log we could not read");
    let login = login_query("https://h");
    assert_eq!(login.url, "https://h/api/cli-auth/start");
    assert_eq!(login.what, "start a login");
    assert_eq!(login.unreadable, "The server sent a login reply we could not read");
}

#[test]
fn a_finished_log_stands_alone() {
    for status in ["completed", "failed"] {
        let one = Submission { status: status.to_string(), ..submission("a") };
        assert_eq!(log_lines("  one\ntwo \n\n", &one), vec!["  one\ntwo"]);
    }
}

#[test]
fn a_running_log_says_so() {
    let one = Submission { status: "running".to_string(), ..submission("a") };
    assert_eq!(
        log_lines("one\n", &one),
        vec![
            "one",
            "\n— running · output appears as each stage finishes. Run this again for more.",
        ]
    );
}

#[test]
fn an_empty_log_says_how_the_submission_stands() {
    let one = Submission {
        status: "queued".to_string(),
        queue_position: Some(2),
        ..submission("a")
    };
    assert_eq!(log_lines(" \n", &one), vec!["No output yet — status: queued (#2)"]);
    assert_eq!(log_lines("", &submission("a")), vec!["No output yet — status: completed"]);
}

use pltest::cursor::{advance, get_substring, is_at_end, peek, skip_str, Parser};
use pltest::parser::{
    is_whitespace, parse, parse_separated_test, parse_test_separator, skip_whitespaces,
    ParseError, ParseErrorKind, TestsData,
};
use pltest::report::{difference_lines, results_as_expected};
use pltest::run::{parse_and_run, scratch_file_name, Outcome, Run};

fn parsed(text: &str) -> TestsData {
    match parse(text, String::from("cmd")) {
        Ok(data) => data,
        Err(e) => panic!("unexpected parse error {:?}", e),
    }
}

fn started(text: &str) -> Run {
    match parse_and_run(text, String::from("upper")) {
        Ok(run) => run,
        Err(e) => panic!("unexpected parse error {:?}", e),
    }
}

fn parse_error(text: &str) -> ParseError {
    match parse(text, String::from("cmd")) {
        Ok(_) => panic!("expected a parse error"),
        Err(e) => e,
    }
}

fn output(s: &str) -> Outcome {
    Outcome::Output(s.as_bytes().to_vec())
}

const ONE_TEST: &str = "TEST upper case:\n===\nhello\n===\nHELLO\n===\n";

#[test]
fn matching_output_passes() {
    let mut run = started(ONE_TEST);
    assert_eq!(run.header(), "RUNNING 1 TEST:");
    let job = run.next_job().unwrap();
    assert_eq!(job.input, "hello\n");
    assert_eq!(job.command, "upper");
    assert_eq!(job.file_name, "upper_case");
    let lines = run.record(output("HELLO\n"));
    assert!(lines.is_empty());
    assert!(run.next_job().is_none());
    assert!(run.is_finished());
    assert_eq!(run.failed_count(), 0);
    assert_eq!(run.report(), vec!["", "All tests successfully completed!", ""]);
}

#[test]
fn wrong_case_fails_with_difference() {
    let mut run = started(ONE_TEST);
    run.next_job().unwrap();
    let lines = run.record(output("Hello\n"));
    assert_eq!(
        lines,
        vec![
            "![1](upper case): output differs from expected",
            "",
            ":got:\n\"Hello\n\"",
            ":expected:\n\"HELLO\n\"",
        ]
    );
    assert_eq!(
        run.report(),
        vec![
            "",
            "FAILED TESTS:",
            "upper case on line 1",
            "",
            "Successfully completed 0 out of 1 tests.",
            "",
        ]
    );
}

#[test]
fn unterminated_block_aborts_parse() {
    let text = "TEST upper:\n===\nhello\n===\nHELLO\n===";
    let e = parse_error(text);
    assert_eq!(e.kind, ParseErrorKind::UnterminatedBlock);
    assert_eq!(e.line, 6);
    assert!(parse_and_run(text, String::from("upper")).is_err());
}

#[test]
fn first_fails_second_passes() {
    let text = "TEST first:\n---\na\n---\nA\n---\n\nTEST second:\n---\nb\n---\nB\n---\n";
    let mut run = started(text);
    assert_eq!(run.header(), "RUNNING 2 TESTS:");
    assert_eq!(run.next_job().unwrap().input, "a\n");
    run.record(output("x\n"));
    assert_eq!(run.next_job().unwrap().input, "b\n");
    assert!(run.record(output("B\n")).is_empty());
    assert_eq!(
        run.report(),
        vec![
            "",
            "FAILED TESTS:",
            "first on line 1",
            "",
            "Successfully completed 1 out of 2 tests.",
            "",
        ]
    );
}

#[test]
fn delimiter_of_another_test_is_plain_content() {
    let text = "TEST one:\n---\nx >>>\n>>>\n---\nout\n---\nTEST two:\n>>>\n---\n---\n>>>\nz\n>>>\n";
    let data = parsed(text);
    assert_eq!(data.tests.len(), 2);
    assert_eq!(data.tests[0].input, "x >>>\n>>>\n");
    assert_eq!(data.tests[0].expected, "out\n");
    assert_eq!(data.tests[1].input, "---\n---\n");
    assert_eq!(data.tests[1].expected, "z\n");
    assert_eq!(data.tests[1].line, 8);
}

#[test]
fn same_test_reads_the_same_after_other_tests() {
    let alone = parsed("TEST t:\n%%\nin\n%%\nout\n%%\n");
    let after = parsed("TEST s:\n##\n%%\n##\n%%\n##\nTEST t:\n%%\nin\n%%\nout\n%%\n");
    assert_eq!(after.tests[1].name, alone.tests[0].name);
    assert_eq!(after.tests[1].input, alone.tests[0].input);
    assert_eq!(after.tests[1].expected, alone.tests[0].expected);
}

#[test]
fn inline_delimiter_does_not_close_block() {
    let data = parsed("TEST inline:\n---\na---b\n---\nc--- d\n---\n");
    assert_eq!(data.tests[0].input, "a---b\n");
    assert_eq!(data.tests[0].expected, "c--- d\n");
}

#[test]
fn overlapping_delimiter_occurrences() {
    let data = parsed("TEST overlap:\nab\nabab\nq\nab\n");
    assert_eq!(data.tests[0].input, "ab");
    assert_eq!(data.tests[0].expected, "q\n");
}

#[test]
fn comparison_is_exact() {
    let t = parsed("TEST t:\n=\nx\n=\nabc\n=\n").tests.remove(0);
    assert_eq!(t.expected, "abc\n");
    assert!(results_as_expected(&String::from("abc\n"), &t));
    assert!(!results_as_expected(&String::from("abc"), &t));
    assert!(!results_as_expected(&String::from("ABC\n"), &t));
    assert!(!results_as_expected(&String::from("abc \n"), &t));
    assert!(!results_as_expected(&String::from("abc\r\n"), &t));
}

#[test]
fn failures_listed_in_order_with_counts() {
    let text = "TEST a:\n=\n1\n=\n1\n=\nTEST b:\n=\n2\n=\n2\n=\nTEST c:\n=\n3\n=\n3\n=\n";
    let mut run = started(text);
    run.record(output("no"));
    run.record(output("2\n"));
    run.record(Outcome::Unrunnable);
    assert_eq!(run.failed_count(), 2);
    assert_eq!(
        run.report(),
        vec![
            "",
            "FAILED TESTS:",
            "a on line 1",
            "c on line 13",
            "",
            "Successfully completed 1 out of 3 tests.",
            "",
        ]
    );
}

#[test]
fn rerun_gives_identical_report() {
    let text = "TEST a:\n=\n1\n=\n1\n=\nTEST b:\n=\n2\n=\n2\n=\n";
    let mut reports = Vec::new();
    for _ in 0..2 {
        let mut run = started(text);
        let mut lines = Vec::new();
        while let Some(job) = run.next_job() {
            let out = if job.input == "1\n" { "1\n" } else { "3\n" };
            lines.extend(run.record(output(out)));
        }
        lines.extend(run.report());
        reports.push(lines);
    }
    assert_eq!(reports[0], reports[1]);
    assert!(reports[0].contains(&String::from("b on line 7")));
}

#[test]
fn missing_directive() {
    let e = parse_error("\n\nFOO bar:\n");
    assert_eq!(e, ParseError { kind: ParseErrorKind::MissingDirective, line: 3 });
}

#[test]
fn unterminated_name() {
    let e = parse_error("TEST no colon");
    assert_eq!(e, ParseError { kind: ParseErrorKind::UnterminatedName, line: 1 });
}

#[test]
fn missing_colon() {
    let e = parse_error("\nTEST no colon\n===\n");
    assert_eq!(e, ParseError { kind: ParseErrorKind::MissingColon, line: 2 });
}

#[test]
fn unterminated_expected_block() {
    let e = parse_error("TEST t:\n=\nin\n=\nout\n");
    assert_eq!(e, ParseError { kind: ParseErrorKind::UnterminatedBlock, line: 6 });
}

#[test]
fn empty_file_has_no_tests() {
    let run = started(" \n\t\r\n");
    assert_eq!(run.header(), "RUNNING 0 TEST:");
    assert!(run.next_job().is_none());
    assert_eq!(run.report(), vec!["", "All tests successfully completed!", ""]);
}

#[test]
fn name_and_blobs_keep_inner_text() {
    let data = parsed("  TEST   spaced name :  <<\n  in  \n<<\nout\n<<\n");
    let t = &data.tests[0];
    assert_eq!(t.name, "spaced name ");
    assert_eq!(t.input, "in  \n");
    assert_eq!(t.expected, "out\n");
    assert_eq!(t.line, 1);
    assert_eq!(data.command, "cmd");
}

#[test]
fn keyword_directly_followed_by_name() {
    let data = parsed("TESTx:\n=\n\n=\n\n=\n");
    assert_eq!(data.tests[0].name, "x");
    assert_eq!(data.tests[0].input, "");
    assert_eq!(data.tests[0].expected, "");
}

#[test]
fn scratch_file_name_lowercases_and_replaces_spaces() {
    assert_eq!(scratch_file_name(&String::from("My Test\tTWO")), "my_test_two");
    assert_eq!(scratch_file_name(&String::from("a\u{a0}B")), "a_b");
    assert_eq!(scratch_file_name(&String::from("Ünï")), "Ünï");
}

#[test]
fn output_longer_than_expected() {
    let t = parsed("TEST long:\n=\nx\n=\nab\n=\n").tests.remove(0);
    let lines = difference_lines(&String::from("abcd\n"), &t);
    assert_eq!(
        lines[0],
        "![1](long): output string length is greater than expected by 2 - 5 vs 3"
    );
    assert_eq!(lines[2], ":got:\n\"abcd\n\"");
    assert_eq!(lines[3], ":expected:\n\"ab\n\"");
}

#[test]
fn output_shorter_than_expected_counts_characters() {
    let text = "\n\n\n\n\n\n\n\n\n\n\nTEST short:\n=\nx\n=\néé\n=\n";
    let t = parsed(text).tests.remove(0);
    assert_eq!(t.line, 12);
    let lines = difference_lines(&String::from(""), &t);
    assert_eq!(
        lines[0],
        "![12](short): output string length is less than expected by 3 - 0 vs 3"
    );
}

#[test]
fn invalid_utf8_output_fails() {
    let mut run = started(ONE_TEST);
    let lines = run.record(Outcome::Output(vec![0xff, 0xfe]));
    assert_eq!(lines, vec!["![1](upper case): output is not valid UTF-8"]);
    assert_eq!(run.report()[4], "Successfully completed 0 out of 1 tests.");
}

#[test]
fn unrunnable_test_fails_silently() {
    let mut run = started(ONE_TEST);
    assert!(run.record(Outcome::Unrunnable).is_empty());
    assert_eq!(run.report()[2], "upper case on line 1");
}

#[test]
fn cursor_moves_and_counts_lines() {
    let mut p = Parser::new("a\nb");
    assert_eq!(peek(&p), 'a');
    assert_eq!(advance(&mut p), 'a');
    assert_eq!(p.current_line(), 1);
    assert_eq!(advance(&mut p), '\n');
    assert_eq!(p.current_line(), 2);
    assert_eq!(p.position(), 2);
    assert!(!is_at_end(&p));
    assert_eq!(skip_str(&mut p, &['x', 'y']), None);
    assert!(is_at_end(&p));
    assert_eq!(peek(&p), '\0');
    assert_eq!(advance(&mut p), '\0');
}

#[test]
fn cursor_substring_trims_leading_space() {
    let mut p = Parser::new("  \u{a0}word rest");
    assert_eq!(skip_str(&mut p, &['x'; 7]), Some(()));
    assert_eq!(get_substring(&p, 0), "word");
}

#[test]
fn separator_and_block_readers() {
    let mut p = Parser::new("  \n ## body ##x\n##\nrest");
    skip_whitespaces(&mut p);
    assert_eq!(p.current_line(), 2);
    assert_eq!(parse_test_separator(&mut p), vec!['#', '#']);
    let sep = vec!['#', '#'];
    assert_eq!(parse_separated_test(&mut p, &sep), Ok(String::from("body ##x\n")));
    assert_eq!(peek(&p), '\n');
    assert!(is_whitespace('\r'));
    assert!(!is_whitespace('\u{a0}'));
}

//! Comparing a command's output with the expected text, and the lines that
//! report on a run.
use vstd::prelude::*;

use crate::parser::{Test, TestView};
use crate::text::{decimal, decimal_text};

verus! {

/// `![line](name)`, which opens each line about one test.
pub open spec fn heading(t: TestView) -> Seq<char> {
    "!["@ + decimal(t.line) + "]("@ + t.name + ")"@
}

/// The first line about a mismatch: which text is longer and by how much,
/// or that they differ at equal length.
pub open spec fn length_note(got: Seq<char>, t: TestView) -> Seq<char> {
    let g = got.len();
    let e = t.expected.len();
    if e < g {
        heading(t) + ": output string length is greater than expected by "@ + decimal(
            (g - e) as nat,
        ) + " - "@ + decimal(g) + " vs "@ + decimal(e)
    } else if g < e {
        heading(t) + ": output string length is less than expected by "@ + decimal((e - g) as nat)
            + " - "@ + decimal(g) + " vs "@ + decimal(e)
    } else {
        heading(t) + ": output differs from expected"@
    }
}

/// The lines that report output `got` that does not match test `t`.
pub open spec fn difference(got: Seq<char>, t: TestView) -> Seq<Seq<char>> {
    seq![
        length_note(got, t),
        Seq::empty(),
        ":got:\n\""@ + got + "\""@,
        ":expected:\n\""@ + t.expected + "\""@,
    ]
}

/// `<name> on line <line>`, as a failing test is listed.
pub open spec fn failure_line(t: TestView) -> Seq<char> {
    t.name + " on line "@ + decimal(t.line)
}

/// The closing count of a run with failures.
pub open spec fn completed_line(passed: nat, total: nat) -> Seq<char> {
    "Successfully completed "@ + decimal(passed) + " out of "@ + decimal(total) + " tests."@
}

/// The summary of a run of `total` tests of which `failed` failed.
pub open spec fn summary(failed: Seq<TestView>, total: nat) -> Seq<Seq<char>> {
    if failed.len() == 0 {
        seq![Seq::empty(), "All tests successfully completed!"@, Seq::empty()]
    } else {
        seq![Seq::empty(), "FAILED TESTS:"@] + failed.map_values(|t: TestView| failure_line(t))
            + seq![
            Seq::empty(),
            completed_line((total - failed.len()) as nat, total),
            Seq::empty(),
        ]
    }
}

/// The values of the strings `lines`, in order.
pub open spec fn lines_view(lines: Seq<String>) -> Seq<Seq<char>> {
    lines.map_values(|l: String| l@)
}

/// Whether the captured output equals the expected text exactly.
pub fn results_as_expected(result: &String, t: &Test) -> (r: bool)
    ensures
        r == (result@ == t.expected@),
{
    *result == t.expected
}

/// `![line](name)` for test `t`.
pub(crate) fn heading_text(t: &Test) -> (r: String)
    ensures
        r@ == heading(t@),
{
    let mut r = String::from_str("![");
    r.append(decimal_text(t.line).as_str());
    r.append("](");
    r.append(t.name.as_str());
    r.append(")");
    r
}

/// The lines that report output `result` that does not match test `t`.
pub fn difference_lines(result: &String, t: &Test) -> (r: Vec<String>)
    ensures
        lines_view(r@) == difference(result@, t@),
{
    let g = result.as_str().unicode_len();
    let e = t.expected.as_str().unicode_len();
    let mut note = heading_text(t);
    if e < g {
        note.append(": output string length is greater than expected by ");
        note.append(decimal_text(g - e).as_str());
        note.append(" - ");
        note.append(decimal_text(g).as_str());
        note.append(" vs ");
        note.append(decimal_text(e).as_str());
    } else if g < e {
        note.append(": output string length is less than expected by ");
        note.append(decimal_text(e - g).as_str());
        note.append(" - ");
        note.append(decimal_text(g).as_str());
        note.append(" vs ");
        note.append(decimal_text(e).as_str());
    } else {
        note.append(": output differs from expected");
    }
    let mut got = String::from_str(":got:\n\"");
    got.append(result.as_str());
    got.append("\"");
    let mut expected = String::from_str(":expected:\n\"");
    expected.append(t.expected.as_str());
    expected.append("\"");
    let r = vec![note, String::new(), got, expected];
    assert(lines_view(r@) =~= difference(result@, t@));
    r
}

/// The summary of a run over `tests` in which the tests at the positions
/// `failing` failed.
pub fn summary_lines(tests: &Vec<Test>, failing: &Vec<usize>) -> (r: Vec<String>)
    requires
        forall|j: int| 0 <= j < failing.len() ==> failing@[j] < tests.len(),
        failing.len() <= tests.len(),
    ensures
        lines_view(r@) == summary(
            failing@.map_values(|i: usize| tests@[i as int]@),
            tests.len() as nat,
        ),
{
    let ghost failed = failing@.map_values(|i: usize| tests@[i as int]@);
    let mut r: Vec<String> = Vec::new();
    r.push(String::new());
    if failing.len() == 0 {
        r.push(String::from_str("All tests successfully completed!"));
        r.push(String::new());
        assert(lines_view(r@) =~= summary(failed, tests.len() as nat));
        return r;
    }
    r.push(String::from_str("FAILED TESTS:"));
    let mut k: usize = 0;
    while k < failing.len()
        invariant
            k <= failing.len(),
            failing.len() <= tests.len(),
            forall|j: int| 0 <= j < failing.len() ==> failing@[j] < tests.len(),
            failed == failing@.map_values(|i: usize| tests@[i as int]@),
            lines_view(r@) == seq![Seq::<char>::empty(), "FAILED TESTS:"@] + failed.take(
                k as int,
            ).map_values(|t: TestView| failure_line(t)),
        decreases failing.len() - k,
    {
        let t = &tests[failing[k]];
        let mut line = t.name.clone();
        line.append(" on line ");
        line.append(decimal_text(t.line).as_str());
        let ghost before = lines_view(r@);
        r.push(line);
        assert(failed.take(k + 1) =~= failed.take(k as int).push(failed[k as int]));
        assert(lines_view(r@) =~= before.push(failure_line(failed[k as int])));
        assert(failed.take(k + 1).map_values(|t: TestView| failure_line(t)) =~= failed.take(
            k as int,
        ).map_values(|t: TestView| failure_line(t)).push(failure_line(failed[k as int])));
        k = k + 1;
    }
    r.push(String::new());
    let mut done = String::from_str("Successfully completed ");
    done.append(decimal_text(tests.len() - failing.len()).as_str());
    done.append(" out of ");
    done.append(decimal_text(tests.len()).as_str());
    done.append(" tests.");
    r.push(done);
    r.push(String::new());
    assert(failed.take(failing.len() as int) =~= failed);
    assert(lines_view(r@) =~= summary(failed, tests.len() as nat));
    r
}

} // verus!

//! The decisions of a run: which test comes next, where its input goes,
//! what its outcome means and what is reported. Writing files and starting
//! the command are left to the caller, which hands back each [`Outcome`].
use vstd::prelude::*;
use vstd::utf8::{decode_utf8, valid_utf8};

use crate::parser::{parse, tests_from, ParseError, Test, TestView};
use crate::report::{
    difference, difference_lines, heading, heading_text, lines_view, results_as_expected, summary,
    summary_lines,
};
use crate::text::{
    ascii_lower, decimal, decimal_text, decode, lower_ascii, string_of, unicode_whitespace,
    white_space,
};

verus! {

/// What came of running the command on one test's input.
pub enum Outcome {
    /// The input file could not be written, or the command could not be
    /// started or waited for; the caller has reported why.
    Unrunnable,
    /// The command ran, and wrote these bytes to its standard output.
    Output(Vec<u8>),
}

/// What the caller has to do for the next test: write `input` to a scratch
/// file named `file_name`, and run `command` with that file's path.
pub struct Job {
    pub file_name: String,
    pub input: String,
    pub command: String,
}

/// The character that stands for `c` in a scratch file name.
pub open spec fn file_char(c: char) -> char {
    if white_space(c) {
        '_'
    } else {
        ascii_lower(c)
    }
}

/// The scratch file name of a test named `name`: lower case, with each
/// white-space character replaced by `_`.
pub open spec fn file_name_of(name: Seq<char>) -> Seq<char> {
    name.map_values(|c: char| file_char(c))
}

/// Whether a test passed: the command ran, its output is well-formed text,
/// and that text is exactly the expected one.
pub open spec fn verdict(t: TestView, o: Outcome) -> bool {
    match o {
        Outcome::Unrunnable => false,
        Outcome::Output(b) => valid_utf8(b@) && decode_utf8(b@) == t.expected,
    }
}

/// The line that reports output that is not well-formed text.
pub open spec fn encoding_note(t: TestView) -> Seq<char> {
    heading(t) + ": output is not valid UTF-8"@
}

/// The lines that report on test `t` once its outcome `o` is known.
pub open spec fn outcome_lines(t: TestView, o: Outcome) -> Seq<Seq<char>> {
    match o {
        Outcome::Unrunnable => Seq::empty(),
        Outcome::Output(b) => if !valid_utf8(b@) {
            seq![encoding_note(t)]
        } else if decode_utf8(b@) == t.expected {
            Seq::empty()
        } else {
            difference(decode_utf8(b@), t)
        },
    }
}

/// The positions of the failed tests among the verdicts `vs`, in order.
pub open spec fn failing_indices(vs: Seq<bool>) -> Seq<int>
    decreases vs.len(),
{
    if vs.len() == 0 {
        Seq::empty()
    } else {
        let prev = failing_indices(vs.drop_last());
        if vs.last() {
            prev
        } else {
            prev.push(vs.len() - 1)
        }
    }
}

/// The failed tests among `ts` under the verdicts `vs`, in order.
pub open spec fn failures(ts: Seq<TestView>, vs: Seq<bool>) -> Seq<TestView> {
    failing_indices(vs).map_values(|i: int| ts[i])
}

/// The failed tests' positions lie among the verdicts given.
pub proof fn lemma_failing_indices_bounded(vs: Seq<bool>)
    ensures
        failing_indices(vs).len() <= vs.len(),
        forall|j: int|
            0 <= j < failing_indices(vs).len() ==> 0 <= #[trigger] failing_indices(vs)[j]
                < vs.len(),
    decreases vs.len(),
{
    if vs.len() > 0 {
        lemma_failing_indices_bounded(vs.drop_last());
    }
}

/// The failed tests are listed in the order of the file, each once, and
/// exactly those whose verdict is false: `k` of them out of `n`, `k <= n`.
pub proof fn lemma_failures_in_order(vs: Seq<bool>)
    ensures
        failing_indices(vs).len() <= vs.len(),
        forall|j: int|
            0 <= j < failing_indices(vs).len() ==> {
                &&& 0 <= #[trigger] failing_indices(vs)[j] < vs.len()
                &&& !vs[failing_indices(vs)[j]]
            },
        forall|j1: int, j2: int|
            0 <= j1 < j2 < failing_indices(vs).len() ==> failing_indices(vs)[j1]
                < failing_indices(vs)[j2],
        forall|i: int|
            0 <= i < vs.len() && !vs[i] ==> exists|j: int|
                0 <= j < failing_indices(vs).len() && failing_indices(vs)[j] == i,
    decreases vs.len(),
{
    if vs.len() > 0 {
        let prev = vs.drop_last();
        lemma_failures_in_order(prev);
        let f = failing_indices(vs);
        assert forall|i: int| 0 <= i < vs.len() && !vs[i] implies exists|j: int|
            0 <= j < f.len() && f[j] == i by {
            if i < vs.len() - 1 {
                assert(!prev[i]);
                let j = choose|j: int|
                    0 <= j < failing_indices(prev).len() && failing_indices(prev)[j] == i;
                assert(f[j] == i);
            } else {
                assert(f[f.len() - 1] == i);
            }
        }
    }
}

/// The verdicts of tests `ts` under outcomes `os`, in order.
pub open spec fn verdicts_of(ts: Seq<TestView>, os: Seq<Outcome>) -> Seq<bool> {
    os.map(|i: int, o: Outcome| verdict(ts[i], o))
}

/// The summary of a run of the tests of `file` under outcomes `os`.
pub open spec fn report_of(file: Seq<char>, os: Seq<Outcome>) -> Seq<Seq<char>> {
    match tests_from(file, 0) {
        Ok(ts) => summary(failures(ts, verdicts_of(ts, os)), ts.len() as nat),
        Err(_) => Seq::empty(),
    }
}

/// Running the same file again, with a command that behaves as before,
/// gives the same report: two finished runs of the tests of `file` whose
/// outcomes were `os` both report `report_of(file, os)`.
pub proof fn lemma_rerun_same_report(file: Seq<char>, os: Seq<Outcome>, first: Run, second: Run)
    requires
        tests_from(file, 0) is Ok,
        first.tests() == tests_from(file, 0)->Ok_0,
        second.tests() == tests_from(file, 0)->Ok_0,
        first.verdicts() == verdicts_of(first.tests(), os),
        second.verdicts() == verdicts_of(second.tests(), os),
    ensures
        summary(failures(first.tests(), first.verdicts()), first.tests().len() as nat)
            == report_of(file, os),
        summary(failures(second.tests(), second.verdicts()), second.tests().len() as nat)
            == report_of(file, os),
{
}

/// A run over the tests of a file: the verdicts of the tests run so far.
pub struct Run {
    tests: Vec<Test>,
    command: String,
    verdicts: Vec<bool>,
    failing: Vec<usize>,
}

impl Run {
    /// The tests, in the order of the file.
    pub closed spec fn tests(&self) -> Seq<TestView> {
        self.tests@.map_values(|t: Test| t@)
    }

    /// The verdicts of the tests run so far, in order.
    pub closed spec fn verdicts(&self) -> Seq<bool> {
        self.verdicts@
    }

    /// The command the tests run against.
    pub closed spec fn command(&self) -> Seq<char> {
        self.command@
    }

    /// The positions of the failed tests are those of the false verdicts.
    pub closed spec fn wf(&self) -> bool {
        &&& self.verdicts@.len() <= self.tests@.len()
        &&& self.failing@.len() == failing_indices(self.verdicts@).len()
        &&& forall|j: int|
            0 <= j < self.failing@.len() ==> self.failing@[j] as int == failing_indices(
                self.verdicts@,
            )[j]
    }

    /// Whether every test has its verdict.
    pub open spec fn finished(&self) -> bool {
        self.verdicts().len() == self.tests().len()
    }

    /// Whether every test has been run.
    pub fn is_finished(&self) -> (r: bool)
        requires
            self.wf(),
        ensures
            r == self.finished(),
    {
        self.verdicts.len() == self.tests.len()
    }

    /// `RUNNING <n> TESTS:` (`TEST` unless there are several).
    pub fn header(&self) -> (r: String)
        ensures
            r@ == "RUNNING "@ + decimal(self.tests().len()) + if self.tests().len()
                > 1 {
                " TESTS:"@
            } else {
                " TEST:"@
            },
    {
        let mut r = String::from_str("RUNNING ");
        r.append(decimal_text(self.tests.len()).as_str());
        if self.tests.len() > 1 {
            r.append(" TESTS:");
        } else {
            r.append(" TEST:");
        }
        r
    }

    /// The work for the next test, or `None` once all have run.
    pub fn next_job(&self) -> (r: Option<Job>)
        requires
            self.wf(),
        ensures
            self.finished() <==> r is None,
            r matches Some(job) ==> {
                let t = self.tests()[self.verdicts().len() as int];
                &&& job.file_name@ == file_name_of(t.name)
                &&& job.input@ == t.input
                &&& job.command@ == self.command()
            },
    {
        if self.verdicts.len() == self.tests.len() {
            return None;
        }
        let t = &self.tests[self.verdicts.len()];
        Some(Job {
            file_name: scratch_file_name(&t.name),
            input: t.input.clone(),
            command: self.command.clone(),
        })
    }

    /// Records the outcome of the next test and returns the lines that
    /// report on it.
    pub fn record(&mut self, outcome: Outcome) -> (r: Vec<String>)
        requires
            old(self).wf(),
            !old(self).finished(),
        ensures
            final(self).wf(),
            final(self).tests() == old(self).tests(),
            final(self).command() == old(self).command(),
            final(self).verdicts() == old(self).verdicts().push(
                verdict(old(self).tests()[old(self).verdicts().len() as int], outcome),
            ),
            lines_view(r@) == outcome_lines(
                old(self).tests()[old(self).verdicts().len() as int],
                outcome,
            ),
    {
        let ghost vs = self.verdicts@;
        let ghost o = outcome;
        let n = self.verdicts.len();
        let t = &self.tests[n];
        assert(t@ == self.tests()[n as int]);
        let (passed, lines) = match outcome {
            Outcome::Unrunnable => (false, Vec::new()),
            Outcome::Output(bytes) => match decode(bytes) {
                None => {
                    let mut note = heading_text(t);
                    note.append(": output is not valid UTF-8");
                    (false, vec![note])
                },
                Some(result) => if results_as_expected(&result, t) {
                    (true, Vec::new())
                } else {
                    (false, difference_lines(&result, t))
                },
            },
        };
        self.verdicts.push(passed);
        if !passed {
            self.failing.push(n);
        }
        assert(self.verdicts@.drop_last() =~= vs);
        proof {
            if let Outcome::Output(b) = o {
                if !valid_utf8(b@) {
                    assert(lines_view(lines@) =~= outcome_lines(t@, o));
                } else if decode_utf8(b@) == t@.expected {
                    assert(lines_view(lines@) =~= outcome_lines(t@, o));
                }
            } else {
                assert(lines_view(lines@) =~= outcome_lines(t@, o));
            }
        }
        lines
    }

    /// How many of the tests run so far failed.
    pub fn failed_count(&self) -> (r: usize)
        requires
            self.wf(),
        ensures
            r == failures(self.tests(), self.verdicts()).len(),
    {
        self.failing.len()
    }

    /// The summary of a finished run.
    pub fn report(&self) -> (r: Vec<String>)
        requires
            self.wf(),
            self.finished(),
        ensures
            lines_view(r@) == summary(
                failures(self.tests(), self.verdicts()),
                self.tests().len() as nat,
            ),
    {
        proof {
            lemma_failing_indices_bounded(self.verdicts@);
        }
        let r = summary_lines(&self.tests, &self.failing);
        assert(self.failing@.map_values(|i: usize| self.tests@[i as int]@) =~= failures(
            self.tests(),
            self.verdicts(),
        ));
        r
    }
}

/// The scratch file name of a test named `name`: lower case, with each
/// white-space character replaced by `_`.
pub fn scratch_file_name(name: &String) -> (r: String)
    ensures
        r@ == file_name_of(name@),
{
    let mut cs: Vec<char> = Vec::new();
    for c in it: name.as_str().chars()
        invariant
            cs@ == it.seq().take(it.index() as int).map_values(|c: char| file_char(c)),
    {
        let ghost before = cs@;
        if unicode_whitespace(c) {
            cs.push('_');
        } else {
            cs.push(lower_ascii(c));
        }
        assert(it.seq().take(it.index() + 1) =~= it.seq().take(it.index() as int).push(c));
    }
    string_of(cs.as_slice())
}

/// Reads the tests of `file` and starts a run of them against `command`,
/// with no test run yet.
pub fn parse_and_run(file: &str, command: String) -> (r: Result<Run, ParseError>)
    requires
        file@.len() < usize::MAX,
    ensures
        match tests_from(file@, 0) {
            Ok(ts) => {
                &&& r matches Ok(run)
                &&& run.wf()
                &&& run.tests() == ts
                &&& run.verdicts().len() == 0
                &&& run.command() == command@
            },
            Err(e) => r matches Err(x) && x == e,
        },
{
    match parse(file, command) {
        Ok(data) => {
            let run = Run {
                tests: data.tests,
                command: data.command,
                verdicts: Vec::new(),
                failing: Vec::new(),
            };
            assert(run.tests() =~= data.tests_view());
            Ok(run)
        },
        Err(e) => Err(e),
    }
}

} // verus!

//! The test-file format: `TEST <name>:`, a delimiter token, then the input
//! and the expected output, each closed by the delimiter at the end of a line.
use vstd::prelude::*;

use crate::cursor::{
    advance, get_substring, get_substr, is_at_end, lemma_trimmed_start_bounds, line_at, occurs_at,
    peek, skip_str, trimmed_start, Parser,
};
use crate::text::white_space;

verus! {

/// Why a test file was rejected.
#[derive(Clone, Copy, Debug, PartialEq, Eq, Structural)]
pub enum ParseErrorKind {
    /// Something other than `TEST` where a test case should begin.
    MissingDirective,
    /// The text ends inside a test name.
    UnterminatedName,
    /// The line of a test name ends before its `:`.
    MissingColon,
    /// The text ends before a block is closed by its delimiter.
    UnterminatedBlock,
}

/// A rejection of a test file, with the line the cursor stood on.
#[derive(Clone, Copy, Debug, PartialEq, Eq, Structural)]
pub struct ParseError {
    pub kind: ParseErrorKind,
    pub line: usize,
}

/// One test case of a file.
#[derive(Debug)]
pub struct Test {
    pub name: String,
    pub input: String,
    pub expected: String,
    /// The line on which the test's `TEST` directive stands.
    pub line: usize,
}

/// The mathematical value of a [`Test`].
pub struct TestView {
    pub name: Seq<char>,
    pub input: Seq<char>,
    pub expected: Seq<char>,
    pub line: nat,
}

impl View for Test {
    type V = TestView;

    open spec fn view(&self) -> TestView {
        TestView {
            name: self.name@,
            input: self.input@,
            expected: self.expected@,
            line: self.line as nat,
        }
    }
}

/// The tests of a file together with the command they are run against.
pub struct TestsData {
    pub tests: Vec<Test>,
    pub command: String,
}

/// The values of the tests `ts`, in order.
pub open spec fn views_of(ts: Seq<Test>) -> Seq<TestView> {
    ts.map_values(|t: Test| t@)
}

impl TestsData {
    pub open spec fn tests_view(&self) -> Seq<TestView> {
        views_of(self.tests@)
    }
}

/// The white space that separates the parts of a test file.
pub open spec fn is_ws(c: char) -> bool {
    c == ' ' || c == '\n' || c == '\t' || c == '\r'
}

/// The keyword that opens a test case.
pub open spec fn test_keyword() -> Seq<char> {
    seq!['T', 'E', 'S', 'T']
}

/// Length of the run of white space at position `i`.
pub open spec fn ws_run(s: Seq<char>, i: int) -> nat
    decreases s.len() - i,
{
    if 0 <= i < s.len() && is_ws(s[i]) {
        1 + ws_run(s, i + 1)
    } else {
        0
    }
}

/// Length of the run at `i` that holds neither `:` nor a line break.
pub open spec fn name_len(s: Seq<char>, i: int) -> nat
    decreases s.len() - i,
{
    if 0 <= i < s.len() && s[i] != ':' && s[i] != '\n' {
        1 + name_len(s, i + 1)
    } else {
        0
    }
}

/// Length of the run of non-white-space characters at `i`.
pub open spec fn token_len(s: Seq<char>, i: int) -> nat
    decreases s.len() - i,
{
    if 0 <= i < s.len() && !is_ws(s[i]) {
        1 + token_len(s, i + 1)
    } else {
        0
    }
}

/// Whether a block can end at `p`: the delimiter occurs there and a line
/// break follows it at once.
pub open spec fn closes_at(s: Seq<char>, p: int, d: Seq<char>) -> bool {
    occurs_at(s, p, d) && p + d.len() < s.len() && s[p + d.len()] == '\n'
}

/// Distance from `i` to the first position at which a block closes, or to
/// the end of the text if there is none.
pub open spec fn close_offset(s: Seq<char>, i: int, d: Seq<char>) -> nat
    decreases s.len() - i,
{
    if i < 0 || i >= s.len() || closes_at(s, i, d) {
        0
    } else {
        1 + close_offset(s, i + 1, d)
    }
}

/// The error of `kind` reported at position `i`.
pub open spec fn error_at(kind: ParseErrorKind, s: Seq<char>, i: int) -> ParseError {
    ParseError { kind, line: line_at(s, i) as usize }
}

/// The text from `from` to `to` with its leading white space trimmed.
pub open spec fn trimmed(s: Seq<char>, from: int, to: int) -> Seq<char> {
    s.subrange(trimmed_start(s, from, to), to)
}

/// The block that starts at `i` and is closed by `d`: its text and the
/// position just past its closing delimiter, or `None` if it never closes.
pub open spec fn block_at(s: Seq<char>, i: int, d: Seq<char>) -> Option<(Seq<char>, int)> {
    let c = i + close_offset(s, i, d);
    if c >= s.len() {
        None
    } else {
        Some((trimmed(s, i, c), c + d.len()))
    }
}

/// The test case whose `TEST` keyword is expected at `i`, with the position
/// just past its last delimiter.
pub open spec fn test_at(s: Seq<char>, i: int) -> Result<(TestView, int), ParseError> {
    if !occurs_at(s, i, test_keyword()) {
        Err(error_at(ParseErrorKind::MissingDirective, s, i))
    } else {
        let a = i + 4;
        let ne = a + name_len(s, a);
        if ne >= s.len() {
            Err(error_at(ParseErrorKind::UnterminatedName, s, ne))
        } else if s[ne] == '\n' {
            Err(error_at(ParseErrorKind::MissingColon, s, ne))
        } else {
            let b = ne + 1 + ws_run(s, ne + 1);
            let te = b + token_len(s, b);
            let d = trimmed(s, b, te);
            match block_at(s, te, d) {
                None => Err(error_at(ParseErrorKind::UnterminatedBlock, s, s.len() as int)),
                Some((input, e)) => match block_at(s, e, d) {
                    None => Err(error_at(ParseErrorKind::UnterminatedBlock, s, s.len() as int)),
                    Some((expected, end)) => Ok(
                        (
                            TestView {
                                name: trimmed(s, a, ne),
                                input,
                                expected,
                                line: line_at(s, a),
                            },
                            end,
                        ),
                    ),
                },
            }
        }
    }
}

/// The test cases of `s` from position `i` on, in order of appearance.
pub open spec fn tests_from(s: Seq<char>, i: int) -> Result<Seq<TestView>, ParseError>
    decreases (s.len() - i) as nat
    via tests_from_decreases
{
    let j = i + ws_run(s, i);
    if j >= s.len() {
        Ok(Seq::empty())
    } else {
        match test_at(s, j) {
            Err(e) => Err(e),
            Ok((t, k)) => match tests_from(s, k) {
                Ok(ts) => Ok(seq![t] + ts),
                Err(e) => Err(e),
            },
        }
    }
}

/// `r` with the tests `ts` put before the tests it holds.
pub open spec fn prefixed(
    ts: Seq<TestView>,
    r: Result<Seq<TestView>, ParseError>,
) -> Result<Seq<TestView>, ParseError> {
    match r {
        Ok(rest) => Ok(ts + rest),
        Err(e) => Err(e),
    }
}

/// Whether `c` separates the parts of a test file.
pub fn is_whitespace(c: char) -> (r: bool)
    ensures
        r == is_ws(c),
{
    c == ' ' || c == '\n' || c == '\t' || c == '\r'
}

/// Skips white space, counting the line breaks it passes.
pub fn skip_whitespaces(p: &mut Parser)
    requires
        old(p).wf(),
    ensures
        final(p).wf(),
        final(p).text() == old(p).text(),
        final(p).pos() == old(p).pos() + ws_run(old(p).text(), old(p).pos()),
{
    while !is_at_end(p) && is_whitespace(peek(p))
        invariant
            p.wf(),
            p.text() == old(p).text(),
            p.pos() + ws_run(p.text(), p.pos()) == old(p).pos() + ws_run(
                old(p).text(),
                old(p).pos(),
            ),
        decreases p.text().len() - p.pos(),
    {
        advance(p);
    }
}

/// Reads a test name up to its `:`, which it consumes too.
pub fn parse_test_name(p: &mut Parser) -> (r: Result<String, ParseError>)
    requires
        old(p).wf(),
    ensures
        final(p).wf(),
        final(p).text() == old(p).text(),
        ({
            let s = old(p).text();
            let a = old(p).pos();
            let ne = a + name_len(s, a);
            if ne >= s.len() {
                r == Err::<String, ParseError>(error_at(ParseErrorKind::UnterminatedName, s, ne))
            } else if s[ne] == '\n' {
                r == Err::<String, ParseError>(error_at(ParseErrorKind::MissingColon, s, ne))
            } else {
                &&& r matches Ok(name)
                &&& name@ == trimmed(s, a, ne)
                &&& final(p).pos() == ne + 1
            }
        }),
{
    let start = p.position();
    while !is_at_end(p) && peek(p) != ':' && peek(p) != '\n'
        invariant
            p.wf(),
            p.text() == old(p).text(),
            start == old(p).pos(),
            start <= p.pos(),
            p.pos() + name_len(p.text(), p.pos()) == start + name_len(p.text(), start as int),
        decreases p.text().len() - p.pos(),
    {
        advance(p);
    }
    if is_at_end(p) {
        return Err(ParseError { kind: ParseErrorKind::UnterminatedName, line: p.current_line() });
    }
    if peek(p) == '\n' {
        return Err(ParseError { kind: ParseErrorKind::MissingColon, line: p.current_line() });
    }
    let name = get_substring(p, start);
    advance(p);
    Ok(name)
}

/// Reads the delimiter token: the run of non-white-space characters at the
/// cursor.
pub fn parse_test_separator(p: &mut Parser) -> (r: Vec<char>)
    requires
        old(p).wf(),
    ensures
        final(p).wf(),
        final(p).text() == old(p).text(),
        final(p).pos() == old(p).pos() + token_len(old(p).text(), old(p).pos()),
        r@ == trimmed(old(p).text(), old(p).pos(), final(p).pos()),
{
    let start = p.position();
    while !is_at_end(p) && !is_whitespace(peek(p))
        invariant
            p.wf(),
            p.text() == old(p).text(),
            start == old(p).pos(),
            start <= p.pos(),
            p.pos() + token_len(p.text(), p.pos()) == start + token_len(p.text(), start as int),
        decreases p.text().len() - p.pos(),
    {
        advance(p);
    }
    let from = get_substr(p, start);
    p.slice_chars(from, p.position())
}

/// Reads one block: everything up to the first occurrence of `separator`
/// that a line break follows at once. The cursor is left on that line break.
pub fn parse_separated_test(p: &mut Parser, separator: &[char]) -> (r: Result<String, ParseError>)
    requires
        old(p).wf(),
    ensures
        final(p).wf(),
        final(p).text() == old(p).text(),
        match block_at(old(p).text(), old(p).pos(), separator@) {
            None => r == Err::<String, ParseError>(
                error_at(ParseErrorKind::UnterminatedBlock, old(p).text(), old(p).text().len() as int),
            ),
            Some((blob, e)) => {
                &&& r matches Ok(b)
                &&& b@ == blob
                &&& final(p).pos() == e
            },
        },
{
    let start = p.position();
    while !is_at_end(p)
        invariant
            p.wf(),
            p.text() == old(p).text(),
            start == old(p).pos(),
            start <= p.pos(),
            start + close_offset(p.text(), start as int, separator@) == p.pos() + close_offset(
                p.text(),
                p.pos(),
                separator@,
            ),
        decreases p.text().len() - p.pos(),
    {
        if p.rest_starts_with(separator) && p.char_at(p.position() + separator.len()) == '\n' {
            let blob = get_substring(p, start);
            skip_str(p, separator);
            return Ok(blob);
        }
        advance(p);
    }
    Err(ParseError { kind: ParseErrorKind::UnterminatedBlock, line: p.current_line() })
}

/// Reads one test case, from its `TEST` keyword to the line break after its
/// last delimiter.
pub fn parse_test(p: &mut Parser) -> (r: Result<Test, ParseError>)
    requires
        old(p).wf(),
    ensures
        final(p).wf(),
        final(p).text() == old(p).text(),
        match test_at(old(p).text(), old(p).pos()) {
            Ok((t, k)) => {
                &&& r matches Ok(x)
                &&& x@ == t
                &&& final(p).pos() == k
            },
            Err(e) => r == Err::<Test, ParseError>(e),
        },
{
    let keyword = vec!['T', 'E', 'S', 'T'];
    assert(keyword@ =~= test_keyword());
    if !p.rest_starts_with(keyword.as_slice()) {
        return Err(ParseError { kind: ParseErrorKind::MissingDirective, line: p.current_line() });
    }
    skip_str(p, keyword.as_slice());
    let line = p.current_line();
    let name = match parse_test_name(p) {
        Ok(name) => name,
        Err(e) => return Err(e),
    };
    skip_whitespaces(p);
    let separator = parse_test_separator(p);
    let input = match parse_separated_test(p, separator.as_slice()) {
        Ok(b) => b,
        Err(e) => return Err(e),
    };
    let expected = match parse_separated_test(p, separator.as_slice()) {
        Ok(b) => b,
        Err(e) => return Err(e),
    };
    Ok(Test { name, input, expected, line })
}

/// Reads every test case of `file`, in order, to be run against `command`.
pub fn parse(file: &str, command: String) -> (r: Result<TestsData, ParseError>)
    requires
        file@.len() < usize::MAX,
    ensures
        match tests_from(file@, 0) {
            Ok(ts) => {
                &&& r matches Ok(data)
                &&& data.tests_view() == ts
                &&& data.command == command
            },
            Err(e) => r matches Err(x) && x == e,
        },
{
    let mut p = Parser::new(file);
    let mut tests: Vec<Test> = Vec::new();
    loop
        invariant
            p.wf(),
            p.text() == file@,
            tests_from(file@, 0) == prefixed(views_of(tests@), tests_from(file@, p.pos())),
        ensures
            tests_from(file@, 0) == Ok::<Seq<TestView>, ParseError>(views_of(tests@)),
        decreases p.text().len() - p.pos(),
    {
        let ghost before = p.pos();
        skip_whitespaces(&mut p);
        if is_at_end(&p) {
            assert(tests_from(file@, before) == Ok::<Seq<TestView>, ParseError>(Seq::empty()));
            assert(views_of(tests@) + Seq::<TestView>::empty() =~= views_of(tests@));
            break;
        }
        proof {
            lemma_test_at_advances(file@, p.pos());
        }
        match parse_test(&mut p) {
            Ok(t) => {
                let ghost tv = t@;
                let ghost old_views = views_of(tests@);
                tests.push(t);
                assert(views_of(tests@) =~= old_views.push(tv));
                proof {
                    if let Ok(rest) = tests_from(file@, p.pos()) {
                        assert(old_views + (seq![tv] + rest) =~= old_views.push(tv) + rest);
                    }
                }
            },
            Err(e) => {
                assert(tests_from(file@, before) == Err::<Seq<TestView>, ParseError>(e));
                return Err(e);
            },
        }
    }
    Ok(TestsData { tests, command })
}

/// `s1` on `lo..hi` and `s2` on `lo + delta..hi + delta` hold the same
/// characters.
pub open spec fn agree(s1: Seq<char>, s2: Seq<char>, lo: int, hi: int, delta: int) -> bool {
    &&& 0 <= lo <= hi <= s1.len()
    &&& 0 <= lo + delta
    &&& hi + delta <= s2.len()
    &&& forall|p: int| lo <= p < hi ==> #[trigger] s1[p] == s2[p + delta]
}

proof fn lemma_ws_run_agree(s1: Seq<char>, s2: Seq<char>, lo: int, hi: int, delta: int, i: int)
    requires
        agree(s1, s2, lo, hi, delta),
        lo <= i,
        i + ws_run(s1, i) < hi,
    ensures
        ws_run(s2, i + delta) == ws_run(s1, i),
    decreases hi - i,
{
    assert(s1[i] == s2[i + delta]);
    if is_ws(s1[i]) {
        lemma_ws_run_agree(s1, s2, lo, hi, delta, i + 1);
    }
}

proof fn lemma_name_len_agree(s1: Seq<char>, s2: Seq<char>, lo: int, hi: int, delta: int, i: int)
    requires
        agree(s1, s2, lo, hi, delta),
        lo <= i,
        i + name_len(s1, i) < hi,
    ensures
        name_len(s2, i + delta) == name_len(s1, i),
    decreases hi - i,
{
    assert(s1[i] == s2[i + delta]);
    if s1[i] != ':' && s1[i] != '\n' {
        lemma_name_len_agree(s1, s2, lo, hi, delta, i + 1);
    }
}

proof fn lemma_token_len_agree(s1: Seq<char>, s2: Seq<char>, lo: int, hi: int, delta: int, i: int)
    requires
        agree(s1, s2, lo, hi, delta),
        lo <= i,
        i + token_len(s1, i) < hi,
    ensures
        token_len(s2, i + delta) == token_len(s1, i),
    decreases hi - i,
{
    assert(s1[i] == s2[i + delta]);
    if !is_ws(s1[i]) {
        lemma_token_len_agree(s1, s2, lo, hi, delta, i + 1);
    }
}

proof fn lemma_trimmed_agree(
    s1: Seq<char>,
    s2: Seq<char>,
    lo: int,
    hi: int,
    delta: int,
    from: int,
    to: int,
)
    requires
        agree(s1, s2, lo, hi, delta),
        lo <= from <= to <= hi,
    ensures
        trimmed_start(s2, from + delta, to + delta) == trimmed_start(s1, from, to) + delta,
        trimmed(s2, from + delta, to + delta) == trimmed(s1, from, to),
    decreases to - from,
{
    if from < to {
        assert(s1[from] == s2[from + delta]);
        if white_space(s1[from]) {
            lemma_trimmed_agree(s1, s2, lo, hi, delta, from + 1, to);
        }
    }
    lemma_trimmed_start_bounds(s1, from, to);
    let t = trimmed_start(s1, from, to);
    assert(trimmed(s2, from + delta, to + delta) =~= trimmed(s1, from, to)) by {
        assert forall|j: int| 0 <= j < to - t implies s2.subrange(t + delta, to + delta)[j]
            == s1.subrange(t, to)[j] by {
            assert(s1[t + j] == s2[t + j + delta]);
        }
    }
}

proof fn lemma_close_offset_agree(
    s1: Seq<char>,
    s2: Seq<char>,
    lo: int,
    hi: int,
    delta: int,
    i: int,
    d: Seq<char>,
)
    requires
        agree(s1, s2, lo, hi, delta),
        lo <= i,
        i + close_offset(s1, i, d) + d.len() < hi,
    ensures
        close_offset(s2, i + delta, d) == close_offset(s1, i, d),
    decreases hi - i,
{
    assert(s1[i + d.len()] == s2[i + d.len() + delta]);
    assert(s1.subrange(i, i + d.len()) =~= s2.subrange(i + delta, i + delta + d.len())) by {
        assert forall|j: int| 0 <= j < d.len() implies #[trigger] s1.subrange(i, i + d.len())[j]
            == s2.subrange(i + delta, i + delta + d.len())[j] by {
            assert(s1[i + j] == s2[i + j + delta]);
        }
    }
    assert(closes_at(s1, i, d) == closes_at(s2, i + delta, d));
    if !closes_at(s1, i, d) {
        lemma_close_offset_agree(s1, s2, lo, hi, delta, i + 1, d);
    }
}

/// A test case reads the same wherever its text stands: the text before it
/// and after it, other test cases with delimiters of their own included,
/// changes neither its name nor its input nor its expected output.
pub proof fn lemma_delimiter_independence(s1: Seq<char>, i1: int, s2: Seq<char>, i2: int)
    requires
        test_at(s1, i1) matches Ok((_, k)) && agree(s1, s2, i1, k + 1, i2 - i1),
    ensures
        test_at(s2, i2) matches Ok((t2, k2)) && test_at(s1, i1) matches Ok((t1, k1)) && {
            &&& k2 - i2 == k1 - i1
            &&& t2.name == t1.name
            &&& t2.input == t1.input
            &&& t2.expected == t1.expected
        },
{
    let delta = i2 - i1;
    lemma_test_at_advances(s1, i1);
    let k = test_at(s1, i1)->Ok_0.1;
    let hi = k + 1;
    let a = i1 + 4;
    assert(s1.subrange(i1, i1 + 4) =~= s2.subrange(i2, i2 + 4)) by {
        assert forall|j: int| 0 <= j < 4 implies #[trigger] s1.subrange(i1, i1 + 4)[j] == s2.subrange(
            i2,
            i2 + 4,
        )[j] by {
            assert(s1[i1 + j] == s2[i1 + j + delta]);
        }
    }
    let ne = a + name_len(s1, a);
    let b = ne + 1 + ws_run(s1, ne + 1);
    let te = b + token_len(s1, b);
    let d = trimmed(s1, b, te);
    lemma_trimmed_start_bounds(s1, b, te);
    lemma_block_at_closes(s1, te, d);
    let e = block_at(s1, te, d)->Some_0.1;
    lemma_block_at_closes(s1, e, d);
    lemma_name_len_agree(s1, s2, i1, hi, delta, a);
    assert(s1[ne] == s2[ne + delta]);
    lemma_ws_run_agree(s1, s2, i1, hi, delta, ne + 1);
    lemma_token_len_agree(s1, s2, i1, hi, delta, b);
    lemma_trimmed_agree(s1, s2, i1, hi, delta, a, ne);
    lemma_trimmed_agree(s1, s2, i1, hi, delta, b, te);
    lemma_close_offset_agree(s1, s2, i1, hi, delta, te, d);
    let c1 = te + close_offset(s1, te, d);
    lemma_trimmed_agree(s1, s2, i1, hi, delta, te, c1);
    lemma_close_offset_agree(s1, s2, i1, hi, delta, e, d);
    let c2 = e + close_offset(s1, e, d);
    lemma_trimmed_agree(s1, s2, i1, hi, delta, e, c2);
}

#[via_fn]
proof fn tests_from_decreases(s: Seq<char>, i: int) {
    let j = i + ws_run(s, i);
    if j < s.len() {
        lemma_test_at_advances(s, j);
        if let Ok((t, k)) = test_at(s, j) {
            assert(k > i);
            assert(((s.len() - k) as nat) < ((s.len() - i) as nat));
        }
    }
}

/// A test case always ends beyond where it starts, within the text.
pub proof fn lemma_test_at_advances(s: Seq<char>, i: int)
    ensures
        test_at(s, i) matches Ok((_, k)) ==> i < k < s.len(),
{
    if occurs_at(s, i, test_keyword()) {
        let a = i + 4;
        let ne = a + name_len(s, a);
        let b = ne + 1 + ws_run(s, ne + 1);
        let te = b + token_len(s, b);
        let d = trimmed(s, b, te);
        lemma_block_at_closes(s, te, d);
        if let Some((input, e)) = block_at(s, te, d) {
            lemma_block_at_closes(s, e, d);
        }
    }
}

/// The offset found by `close_offset` is a closing position unless it is
/// the end of the text.
pub proof fn lemma_close_offset(s: Seq<char>, i: int, d: Seq<char>)
    requires
        0 <= i <= s.len(),
    ensures
        i + close_offset(s, i, d) <= s.len(),
        i + close_offset(s, i, d) < s.len() ==> closes_at(s, i + close_offset(s, i, d), d),
    decreases s.len() - i,
{
    if i < s.len() && !closes_at(s, i, d) {
        lemma_close_offset(s, i + 1, d);
    }
}

/// A block ends at the first occurrence of its delimiter that a line break
/// follows at once; an occurrence inside a line never ends it.
pub proof fn lemma_block_ends_at_first_close(s: Seq<char>, i: int, d: Seq<char>)
    requires
        0 <= i <= s.len(),
    ensures
        block_at(s, i, d) matches Some((_, e)) ==> {
            &&& closes_at(s, e - d.len(), d)
            &&& forall|p: int| i <= p < e - d.len() ==> !closes_at(s, p, d)
        },
        forall|p: int|
            i <= p && occurs_at(s, p, d) && !(p + d.len() < s.len() && s[p + d.len()] == '\n')
                ==> !(block_at(s, i, d) matches Some((_, e)) && e - d.len() == p),
{
    lemma_close_offset(s, i, d);
    lemma_close_offset_first(s, i, d);
}

/// No block closes between `i` and the offset `close_offset` finds.
pub proof fn lemma_close_offset_first(s: Seq<char>, i: int, d: Seq<char>)
    requires
        0 <= i <= s.len(),
    ensures
        forall|p: int| i <= p < i + close_offset(s, i, d) ==> !closes_at(s, p, d),
    decreases s.len() - i,
{
    if i < s.len() && !closes_at(s, i, d) {
        lemma_close_offset_first(s, i + 1, d);
    }
}

/// A closed block ends within the text, just past its delimiter.
pub proof fn lemma_block_at_closes(s: Seq<char>, i: int, d: Seq<char>)
    requires
        0 <= i,
    ensures
        block_at(s, i, d) matches Some((_, e)) ==> i <= e - d.len() && e < s.len(),
{
    if i <= s.len() {
        lemma_close_offset(s, i, d);
    }
}

} // verus!

//! A position-tracking view over the characters of a source text.
use vstd::prelude::*;

use crate::text::{string_of, unicode_whitespace, white_space};

verus! {

/// Number of line breaks in `s`.
pub open spec fn newlines(s: Seq<char>) -> nat
    decreases s.len(),
{
    if s.len() == 0 {
        0
    } else {
        newlines(s.drop_last()) + if s.last() == '\n' {
            1nat
        } else {
            0nat
        }
    }
}

/// The 1-based line on which position `i` of `s` lies.
pub open spec fn line_at(s: Seq<char>, i: int) -> nat {
    1 + newlines(s.take(i))
}

/// The first position in `start..end` whose character is not white space,
/// or `end` if there is none.
pub open spec fn trimmed_start(s: Seq<char>, start: int, end: int) -> int
    decreases end - start,
{
    if start >= end {
        end
    } else if white_space(s[start]) {
        trimmed_start(s, start + 1, end)
    } else {
        start
    }
}

/// Whether `word` occurs in `s` at position `i`.
pub open spec fn occurs_at(s: Seq<char>, i: int, word: Seq<char>) -> bool {
    0 <= i && i + word.len() <= s.len() && s.subrange(i, i + word.len()) == word
}

/// Consuming one more character adds one line break exactly when that
/// character is a line break.
pub proof fn lemma_newlines_step(s: Seq<char>, i: int)
    requires
        0 <= i < s.len(),
    ensures
        newlines(s.take(i + 1)) == newlines(s.take(i)) + if s[i] == '\n' {
            1nat
        } else {
            0nat
        },
{
    assert(s.take(i + 1).drop_last() =~= s.take(i));
}

/// A text has no more line breaks than characters.
pub proof fn lemma_newlines_bound(s: Seq<char>)
    ensures
        newlines(s) <= s.len(),
    decreases s.len(),
{
    if s.len() > 0 {
        lemma_newlines_bound(s.drop_last());
    }
}

/// Trimming stays within the range trimmed.
pub proof fn lemma_trimmed_start_bounds(s: Seq<char>, start: int, end: int)
    requires
        start <= end,
    ensures
        start <= trimmed_start(s, start, end) <= end,
    decreases end - start,
{
    if start < end && white_space(s[start]) {
        lemma_trimmed_start_bounds(s, start + 1, end);
    }
}

/// A cursor over a source text: the characters, the current position and
/// the line that position lies on.
pub struct Parser {
    chars: Vec<char>,
    pos: usize,
    line: usize,
}

impl Parser {
    /// The whole source text.
    pub closed spec fn text(&self) -> Seq<char> {
        self.chars@
    }

    /// The current position, as an index into `text()`.
    pub closed spec fn pos(&self) -> int {
        self.pos as int
    }

    /// The line counter.
    pub closed spec fn line(&self) -> int {
        self.line as int
    }

    /// The position lies within the text, and the line counter is the line
    /// of the position.
    pub open spec fn wf(&self) -> bool {
        &&& 0 <= self.pos() <= self.text().len()
        &&& self.text().len() < usize::MAX
        &&& self.line() == line_at(self.text(), self.pos())
    }

    /// The character at the position, or `'\0'` at the end of the text.
    pub open spec fn current(&self) -> char {
        if self.pos() < self.text().len() {
            self.text()[self.pos()]
        } else {
            '\0'
        }
    }

    /// A cursor at the first character of `source`, on line 1.
    pub fn new(source: &str) -> (p: Parser)
        requires
            source@.len() < usize::MAX,
        ensures
            p.wf(),
            p.text() == source@,
            p.pos() == 0,
    {
        let mut chars: Vec<char> = Vec::new();
        for c in it: source.chars()
            invariant
                chars@ == it.seq().take(it.index() as int),
        {
            chars.push(c);
        }
        assert(chars@ =~= source@);
        assert(chars@.take(0) =~= Seq::<char>::empty());
        Parser { chars, pos: 0, line: 1 }
    }

    /// The current position.
    pub fn position(&self) -> (r: usize)
        ensures
            r == self.pos(),
    {
        self.pos
    }

    /// The current line.
    pub fn current_line(&self) -> (r: usize)
        ensures
            r == self.line(),
    {
        self.line
    }

    /// The character at position `i`, or `'\0'` past the end.
    pub fn char_at(&self, i: usize) -> (c: char)
        ensures
            c == if i < self.text().len() {
                self.text()[i as int]
            } else {
                '\0'
            },
    {
        if i < self.chars.len() {
            self.chars[i]
        } else {
            '\0'
        }
    }

    /// The characters from `from` up to `to`.
    pub fn slice_chars(&self, from: usize, to: usize) -> (r: Vec<char>)
        requires
            from <= to <= self.text().len(),
        ensures
            r@ == self.text().subrange(from as int, to as int),
    {
        let mut r: Vec<char> = Vec::new();
        let mut i = from;
        while i < to
            invariant
                from <= i <= to <= self.text().len(),
                r@ == self.text().subrange(from as int, i as int),
            decreases to - i,
        {
            r.push(self.chars[i]);
            i = i + 1;
            assert(r@ =~= self.text().subrange(from as int, i as int));
        }
        r
    }

    /// Whether `word` occurs at the current position.
    pub fn rest_starts_with(&self, word: &[char]) -> (r: bool)
        requires
            self.wf(),
        ensures
            r == occurs_at(self.text(), self.pos(), word@),
    {
        let n = self.chars.len();
        if word.len() > n - self.pos {
            return false;
        }
        let mut k: usize = 0;
        while k < word.len()
            invariant
                self.wf(),
                n == self.text().len(),
                self.pos + word.len() <= n,
                k <= word.len(),
                forall|j: int| 0 <= j < k ==> self.text()[self.pos() + j] == word@[j],
            decreases word.len() - k,
        {
            if self.chars[self.pos + k] != word[k] {
                assert(self.text().subrange(self.pos(), self.pos() + word@.len())[k as int]
                    != word@[k as int]);
                return false;
            }
            k = k + 1;
        }
        assert(self.text().subrange(self.pos(), self.pos() + word@.len()) =~= word@);
        true
    }
}

/// The current character without consuming it; `'\0'` at the end.
pub fn peek(p: &Parser) -> (c: char)
    requires
        p.wf(),
    ensures
        c == p.current(),
{
    if p.pos < p.chars.len() {
        p.chars[p.pos]
    } else {
        '\0'
    }
}

/// Consumes and returns the current character, counting a consumed line
/// break; at the end nothing moves and `'\0'` is returned.
pub fn advance(p: &mut Parser) -> (c: char)
    requires
        old(p).wf(),
    ensures
        final(p).wf(),
        final(p).text() == old(p).text(),
        c == old(p).current(),
        final(p).pos() == if old(p).pos() < old(p).text().len() {
            old(p).pos() + 1
        } else {
            old(p).pos()
        },
{
    if p.pos < p.chars.len() {
        let c = p.chars[p.pos];
        proof {
            lemma_newlines_step(p.chars@, p.pos as int);
            lemma_newlines_bound(p.chars@.take(p.pos as int));
        }
        if c == '\n' {
            p.line = p.line + 1;
        }
        p.pos = p.pos + 1;
        c
    } else {
        '\0'
    }
}

/// Whether the whole text has been consumed.
pub fn is_at_end(p: &Parser) -> (r: bool)
    requires
        p.wf(),
    ensures
        r == (p.pos() == p.text().len()),
{
    p.pos == p.chars.len()
}

/// Consumes as many characters as `word` has; `None` if the text ends first.
pub fn skip_str(p: &mut Parser, word: &[char]) -> (r: Option<()>)
    requires
        old(p).wf(),
    ensures
        final(p).wf(),
        final(p).text() == old(p).text(),
        r is Some <==> old(p).pos() + word@.len() <= old(p).text().len(),
        r is Some ==> final(p).pos() == old(p).pos() + word@.len(),
        r is None ==> final(p).pos() == old(p).text().len(),
{
    let mut k: usize = 0;
    while k < word.len()
        invariant
            p.wf(),
            p.text() == old(p).text(),
            k <= word.len(),
            p.pos() == old(p).pos() + k,
        decreases word.len() - k,
    {
        if is_at_end(p) {
            return None;
        }
        advance(p);
        k = k + 1;
    }
    Some(())
}

/// Where the text from `start` to the current position begins once its
/// leading white space is trimmed.
pub fn get_substr(p: &Parser, start: usize) -> (r: usize)
    requires
        p.wf(),
        start <= p.pos(),
    ensures
        r == trimmed_start(p.text(), start as int, p.pos()),
        start <= r <= p.pos(),
{
    let mut i = start;
    while i < p.pos && unicode_whitespace(p.chars[i])
        invariant
            p.wf(),
            start <= i <= p.pos(),
            trimmed_start(p.text(), i as int, p.pos()) == trimmed_start(
                p.text(),
                start as int,
                p.pos(),
            ),
        decreases p.pos() - i,
    {
        i = i + 1;
    }
    i
}

/// The text from `start` to the current position, leading white space
/// trimmed.
pub fn get_substring(p: &Parser, start: usize) -> (r: String)
    requires
        p.wf(),
        start <= p.pos(),
    ensures
        r@ == p.text().subrange(trimmed_start(p.text(), start as int, p.pos()), p.pos()),
{
    let from = get_substr(p, start);
    string_of(&p.chars.as_slice()[from..p.pos])
}

} // verus!

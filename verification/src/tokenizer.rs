//! Splitting one line into raw `key=value` tokens.
//!
//! A space ends a token only where the scan is outside every quote and every round bracket.

use vstd::prelude::*;
use vstd::slice::slice_subrange;
use crate::text::{chars_of, lemma_trim_shape, string_of, trim, trim_slice, CharClass};

verus! {

/// What a scan has to remember of the characters it has passed.
pub struct ScanState {
    /// Opening round brackets minus closing ones, counted outside quotes. May be negative.
    pub depth: int,
    /// Inside a single-quoted span.
    pub single: bool,
    /// Inside a double-quoted span.
    pub double: bool,
}

impl ScanState {
    /// The state at the start of a line.
    pub open spec fn initial() -> ScanState {
        ScanState { depth: 0, single: false, double: false }
    }

    /// Outside every quote, at bracket depth zero.
    pub open spec fn neutral(self) -> bool {
        self.depth == 0 && !self.single && !self.double
    }

    /// The state after passing `c`.
    ///
    /// A quote toggles its own state only outside the other kind of quote and at depth zero;
    /// a round bracket moves the depth only outside both kinds of quote.
    pub open spec fn step(self, c: char) -> ScanState {
        if c == '"' && !self.single && self.depth == 0 {
            ScanState { double: !self.double, ..self }
        } else if c == '\'' && !self.double && self.depth == 0 {
            ScanState { single: !self.single, ..self }
        } else if c == '(' && !self.single && !self.double {
            ScanState { depth: self.depth + 1, ..self }
        } else if c == ')' && !self.single && !self.double {
            ScanState { depth: self.depth - 1, ..self }
        } else {
            self
        }
    }
}

/// The state of a scan of `line` that has passed the characters before index `i`.
pub open spec fn state_before(line: Seq<char>, i: int) -> ScanState
    decreases i,
{
    if i <= 0 {
        ScanState::initial()
    } else {
        state_before(line, i - 1).step(line[i - 1])
    }
}

/// Index `i` of `line` holds a space that ends a token.
pub open spec fn is_split(line: Seq<char>, i: int) -> bool {
    0 <= i < line.len() && line[i] == ' ' && state_before(line, i).neutral()
}

/// Index `i` holds the first space of `line` that ends a token.
pub open spec fn is_first_split(line: Seq<char>, i: int) -> bool {
    is_split(line, i) && forall|j: int| 0 <= j < i ==> !is_split(line, j)
}

/// The index of the first space of `line` that ends a token, or 0 where there is none.
///
/// A result of 0 therefore also stands for a line that begins with such a space.
pub open spec fn split_point(line: Seq<char>) -> int {
    if exists|i: int| is_first_split(line, i) {
        choose|i: int| is_first_split(line, i)
    } else {
        0
    }
}

/// There is at most one first split, and `split_point` is it.
pub proof fn lemma_split_point_is(line: Seq<char>, i: int)
    requires
        is_first_split(line, i),
    ensures
        split_point(line) == i,
{
}

/// Without any split in `line`, `split_point` is 0.
pub proof fn lemma_split_point_none(line: Seq<char>)
    requires
        forall|i: int| 0 <= i < line.len() ==> !is_split(line, i),
    ensures
        split_point(line) == 0,
{
}

/// Where index `i` or an index before it holds a split, some index holds the first split.
proof fn lemma_first_split_exists(line: Seq<char>, i: int)
    requires
        is_split(line, i),
    ensures
        exists|k: int| is_first_split(line, k),
    decreases i,
{
    if exists|j: int| 0 <= j < i && is_split(line, j) {
        let j = choose|j: int| 0 <= j < i && is_split(line, j);
        lemma_first_split_exists(line, j);
    } else {
        assert(is_first_split(line, i));
    }
}

/// In a line that is trimmed of white space, a split point of 0 means that no space ends a
/// token: such a line does not begin with a space, so the two meanings of 0 cannot be confused.
pub proof fn lemma_trimmed_split(line: Seq<char>)
    ensures
        split_point(trim(line, CharClass::Whitespace)) == 0 ==> forall|i: int|
            !is_split(trim(line, CharClass::Whitespace), i),
{
    let text = trim(line, CharClass::Whitespace);
    lemma_trim_shape(line, CharClass::Whitespace);
    if split_point(text) == 0 {
        assert forall|i: int| !is_split(text, i) by {
            if is_split(text, i) {
                lemma_first_split_exists(text, i);
            }
        }
    }
}

/// `split_point` lies inside the line, at a split unless it is 0, in a neutral state.
pub proof fn lemma_split_point_shape(line: Seq<char>)
    ensures
        0 <= split_point(line) <= line.len(),
        split_point(line) > 0 ==> is_first_split(line, split_point(line)),
        split_point(line) > 0 ==> split_point(line) < line.len(),
        state_before(line, split_point(line)).neutral(),
{
}

/// The index of the first space of `line` outside quotes and round brackets, or 0.
pub fn split_index(line: &[char]) -> (n: usize)
    ensures
        n == split_point(line@),
        state_before(line@, n as int).neutral(),
        n == 0 || n < line@.len(),
{
    let mut depth: i128 = 0;
    let mut single = false;
    let mut double = false;
    let mut i: usize = 0;
    while i < line.len()
        invariant
            i <= line.len(),
            -(i as int) <= depth <= i as int,
            state_before(line@, i as int) == (ScanState { depth: depth as int, single, double }),
            forall|j: int| 0 <= j < i ==> !is_split(line@, j),
        decreases line.len() - i,
    {
        let c = line[i];
        if c == ' ' && !double && !single && depth == 0 {
            proof {
                lemma_split_point_is(line@, i as int);
            }
            return i;
        }
        if c == '"' && !single && depth == 0 {
            double = !double;
        } else if c == '\'' && !double && depth == 0 {
            single = !single;
        } else if c == '(' && !single && !double {
            depth += 1;
        } else if c == ')' && !single && !double {
            depth -= 1;
        }
        i += 1;
    }
    proof {
        lemma_split_point_none(line@);
    }
    0
}

/// The index of the first space of `line` that ends a token, counted in characters, or 0.
///
/// The result is 0 both where no space ends a token and where the line begins with one; a
/// caller that has trimmed the line can tell that only the first is possible.
pub fn find_next_split(line: &str) -> (n: usize)
    ensures
        n == split_point(line@),
        state_before(line@, n as int).neutral(),
        n == 0 || n < line@.len(),
{
    let chars = chars_of(line);
    split_index(chars.as_slice())
}

/// The raw tokens of `line`, in order.
///
/// The line is trimmed and cut at its first split; the part before the cut, trimmed, is a token
/// and the part from the cut on is treated in the same way. What is left when no split is found
/// is the last token, unless it is empty.
pub open spec fn tokens(line: Seq<char>) -> Seq<Seq<char>>
    decreases line.len(),
{
    let text = trim(line, CharClass::Whitespace);
    let n = split_point(text);
    if n > 0 {
        proof {
            lemma_trim_shape(line, CharClass::Whitespace);
            lemma_split_point_shape(text);
        }
        seq![trim(text.take(n), CharClass::Whitespace)] + tokens(text.skip(n))
    } else if text.len() > 0 {
        seq![text]
    } else {
        Seq::empty()
    }
}

/// The raw tokens of `line` as parts of it.
pub fn token_slices<'a>(line: &'a [char]) -> (found: Vec<&'a [char]>)
    ensures
        found@.len() == tokens(line@).len(),
        forall|i: int| 0 <= i < found@.len() ==> (#[trigger] found@[i])@ == tokens(line@)[i],
{
    let mut found: Vec<&'a [char]> = Vec::new();
    let mut rest = line;
    let ghost mut done: Seq<Seq<char>> = Seq::empty();
    loop
        invariant_except_break
            tokens(line@) == done + tokens(rest@),
        invariant
            found@.len() == done.len(),
            forall|i: int| 0 <= i < found@.len() ==> (#[trigger] found@[i])@ == done[i],
        ensures
            tokens(line@) == done,
        decreases rest@.len(),
    {
        let text = trim_slice(rest, CharClass::Whitespace);
        let n: usize = split_index(text);
        proof {
            lemma_trim_shape(rest@, CharClass::Whitespace);
        }
        if n == 0 {
            if text.len() > 0 {
                found.push(text);
                proof {
                    done = done.push(text@);
                }
            }
            break;
        }
        let token = trim_slice(slice_subrange(text, 0, n), CharClass::Whitespace);
        found.push(token);
        proof {
            assert(done + (seq![token@] + tokens(text@.skip(n as int))) == done.push(token@)
                + tokens(text@.skip(n as int)));
            done = done.push(token@);
        }
        rest = slice_subrange(text, n, text.len());
    }
    found
}

/// The raw tokens of `line`, in order, each as a string of its own.
pub fn tokenize(line: &str) -> (found: Vec<String>)
    ensures
        found@.len() == tokens(line@).len(),
        forall|i: int| 0 <= i < found@.len() ==> (#[trigger] found@[i])@ == tokens(line@)[i],
{
    let chars = chars_of(line);
    let slices = token_slices(chars.as_slice());
    let mut found: Vec<String> = Vec::new();
    let mut i: usize = 0;
    while i < slices.len()
        invariant
            i <= slices@.len(),
            found@.len() == i,
            slices@.len() == tokens(line@).len(),
            forall|j: int| 0 <= j < slices@.len() ==> (#[trigger] slices@[j])@ == tokens(line@)[j],
            forall|j: int| 0 <= j < i ==> (#[trigger] found@[j])@ == tokens(line@)[j],
        decreases slices.len() - i,
    {
        found.push(string_of(slices[i]));
        i += 1;
    }
    found
}

} // verus!

//! Character classes and trimming on sequences of characters.

use vstd::prelude::*;

verus! {

/// Whether `c` is white space: one of the code points with the Unicode property `White_Space`,
/// which are the ones that `char::is_whitespace` accepts.
pub open spec fn is_whitespace(c: char) -> bool {
    let n = c as u32;
    ||| 0x09 <= n <= 0x0D
    ||| n == 0x20
    ||| n == 0x85
    ||| n == 0xA0
    ||| n == 0x1680
    ||| 0x2000 <= n <= 0x200A
    ||| n == 0x2028
    ||| n == 0x2029
    ||| n == 0x202F
    ||| n == 0x205F
    ||| n == 0x3000
}

/// A set of characters that can be trimmed from the two ends of a text.
#[derive(Clone, Copy, Debug)]
pub enum CharClass {
    /// Unicode white space.
    Whitespace,
    /// The double and the single quote.
    Quote,
    /// The two quotes and the two round brackets.
    Wrapper,
}

impl CharClass {
    /// Whether `c` belongs to the class.
    pub open spec fn has(self, c: char) -> bool {
        match self {
            CharClass::Whitespace => is_whitespace(c),
            CharClass::Quote => c == '"' || c == '\'',
            CharClass::Wrapper => c == '"' || c == '\'' || c == '(' || c == ')',
        }
    }

    /// Tests whether `c` belongs to the class.
    pub fn contains(&self, c: char) -> (r: bool)
        ensures
            r == self.has(c),
    {
        match self {
            CharClass::Whitespace => {
                let n: u32 = c as u32;
                let ascii: bool = (0x09 <= n && n <= 0x0D) || n == 0x20;
                let latin: bool = n == 0x85 || n == 0xA0;
                let spaces: bool = n == 0x1680 || (0x2000 <= n && n <= 0x200A) || n == 0x202F
                    || n == 0x205F || n == 0x3000;
                let separators: bool = n == 0x2028 || n == 0x2029;
                ascii || latin || spaces || separators
            },
            CharClass::Quote => c == '"' || c == '\'',
            CharClass::Wrapper => c == '"' || c == '\'' || c == '(' || c == ')',
        }
    }
}

/// `text` without its longest prefix of characters of `class`.
pub open spec fn trim_start(text: Seq<char>, class: CharClass) -> Seq<char>
    decreases text.len(),
{
    if text.len() > 0 && class.has(text.first()) {
        trim_start(text.drop_first(), class)
    } else {
        text
    }
}

/// `text` without its longest suffix of characters of `class`.
pub open spec fn trim_end(text: Seq<char>, class: CharClass) -> Seq<char>
    decreases text.len(),
{
    if text.len() > 0 && class.has(text.last()) {
        trim_end(text.drop_last(), class)
    } else {
        text
    }
}

/// `text` with the characters of `class` removed from both ends, for as long as there are any.
pub open spec fn trim(text: Seq<char>, class: CharClass) -> Seq<char> {
    trim_end(trim_start(text, class), class)
}

/// Skipping `n` leading characters of `class` does not change what `trim_start` gives.
proof fn lemma_trim_start_skip(text: Seq<char>, class: CharClass, n: int)
    requires
        0 <= n <= text.len(),
        forall|i: int| 0 <= i < n ==> class.has(text[i]),
    ensures
        trim_start(text, class) == trim_start(text.skip(n), class),
    decreases n,
{
    if n > 0 {
        let rest = text.drop_first();
        assert forall|i: int| 0 <= i < n - 1 implies class.has(rest[i]) by {}
        lemma_trim_start_skip(rest, class, n - 1);
        assert(rest.skip(n - 1) =~= text.skip(n));
    } else {
        assert(text.skip(0) =~= text);
    }
}

/// Dropping trailing characters of `class` down to length `n` does not change what `trim_end`
/// gives.
proof fn lemma_trim_end_take(text: Seq<char>, class: CharClass, n: int)
    requires
        0 <= n <= text.len(),
        forall|i: int| n <= i < text.len() ==> class.has(text[i]),
    ensures
        trim_end(text, class) == trim_end(text.take(n), class),
    decreases text.len() - n,
{
    if n < text.len() {
        let rest = text.drop_last();
        lemma_trim_end_take(rest, class, n);
        assert(rest.take(n) =~= text.take(n));
    } else {
        assert(text.take(n) =~= text);
    }
}

/// What `trim_start` gives is a suffix of `text` that does not begin with a character of `class`.
pub proof fn lemma_trim_start_shape(text: Seq<char>, class: CharClass)
    ensures
        trim_start(text, class).len() <= text.len(),
        trim_start(text, class) == text.skip(text.len() - trim_start(text, class).len()),
        trim_start(text, class).len() > 0 ==> !class.has(trim_start(text, class).first()),
    decreases text.len(),
{
    if text.len() > 0 && class.has(text.first()) {
        lemma_trim_start_shape(text.drop_first(), class);
    }
}

/// What `trim_end` gives is a prefix of `text` that does not end with a character of `class`.
pub proof fn lemma_trim_end_shape(text: Seq<char>, class: CharClass)
    ensures
        trim_end(text, class).len() <= text.len(),
        trim_end(text, class) == text.take(trim_end(text, class).len() as int),
        trim_end(text, class).len() > 0 ==> !class.has(trim_end(text, class).last()),
    decreases text.len(),
{
    if text.len() > 0 && class.has(text.last()) {
        lemma_trim_end_shape(text.drop_last(), class);
    }
}

/// What `trim` gives is no longer than `text`, and neither begins nor ends with a character of
/// `class`.
pub proof fn lemma_trim_shape(text: Seq<char>, class: CharClass)
    ensures
        trim(text, class).len() <= text.len(),
        trim(text, class).len() > 0 ==> !class.has(trim(text, class).first()) && !class.has(
            trim(text, class).last(),
        ),
{
    lemma_trim_start_shape(text, class);
    lemma_trim_end_shape(trim_start(text, class), class);
}

/// Trimming is idempotent: a second pass over a trimmed text removes nothing.
pub proof fn lemma_trim_idempotent(text: Seq<char>, class: CharClass)
    ensures
        trim(trim(text, class), class) == trim(text, class),
{
    lemma_trim_shape(text, class);
}

/// The part of `text` that is left when the characters of `class` are trimmed from both ends.
pub fn trim_slice<'a>(text: &'a [char], class: CharClass) -> (r: &'a [char])
    ensures
        r@ == trim(text@, class),
{
    let mut start: usize = 0;
    while start < text.len() && class.contains(text[start])
        invariant
            start <= text.len(),
            forall|i: int| 0 <= i < start ==> class.has(text@[i]),
        decreases text.len() - start,
    {
        start += 1;
    }
    let mut end: usize = text.len();
    while end > start && class.contains(text[end - 1])
        invariant
            start <= end <= text.len(),
            forall|i: int| end <= i < text.len() ==> class.has(text@[i]),
        decreases end,
    {
        end -= 1;
    }
    proof {
        let tail = text@.skip(start as int);
        lemma_trim_start_skip(text@, class, start as int);
        assert(trim_start(text@, class) == tail);
        assert forall|i: int| end - start <= i < tail.len() implies class.has(tail[i]) by {}
        lemma_trim_end_take(tail, class, end - start);
        let core = tail.take(end - start);
        assert(trim_end(core, class) == core);
    }
    vstd::slice::slice_subrange(text, start, end)
}

/// The index of the first `c` in `text`, or the length of `text` where it holds none.
pub open spec fn first_index(text: Seq<char>, c: char) -> int
    decreases text.len(),
{
    if text.len() == 0 || text.first() == c {
        0
    } else {
        1 + first_index(text.drop_first(), c)
    }
}

/// `first_index` lies inside the text or at its end; before it there is no `c`, and at it there
/// is one unless it is the end.
pub proof fn lemma_first_index_bound(text: Seq<char>, c: char)
    ensures
        0 <= first_index(text, c) <= text.len(),
        forall|j: int| 0 <= j < first_index(text, c) ==> text[j] != c,
        first_index(text, c) < text.len() ==> text[first_index(text, c)] == c,
    decreases text.len(),
{
    if text.len() > 0 && text.first() != c {
        let rest = text.drop_first();
        lemma_first_index_bound(rest, c);
        assert forall|j: int| 0 <= j < first_index(text, c) implies text[j] != c by {
            if j > 0 {
                assert(text[j] == rest[j - 1]);
            }
        }
    }
}

/// `first_index` is the one index that holds `c` with no `c` before it, or the length.
pub proof fn lemma_first_index(text: Seq<char>, c: char, i: int)
    requires
        0 <= i <= text.len(),
        forall|j: int| 0 <= j < i ==> text[j] != c,
        i < text.len() ==> text[i] == c,
    ensures
        first_index(text, c) == i,
    decreases i,
{
    if i > 0 {
        let rest = text.drop_first();
        assert forall|j: int| 0 <= j < i - 1 implies rest[j] != c by {}
        lemma_first_index(rest, c, i - 1);
    }
}

/// Finds the first `c` in `text`; gives the length of `text` where it holds none.
pub fn find_char(text: &[char], c: char) -> (i: usize)
    ensures
        i == first_index(text@, c),
        i <= text@.len(),
        i < text@.len() ==> text@[i as int] == c,
{
    let mut i: usize = 0;
    while i < text.len() && text[i] != c
        invariant
            i <= text.len(),
            forall|j: int| 0 <= j < i ==> text@[j] != c,
        decreases text.len() - i,
    {
        i += 1;
    }
    proof {
        lemma_first_index(text@, c, i as int);
    }
    i
}

/// The characters of `text`, in order.
pub fn chars_of(text: &str) -> (chars: Vec<char>)
    ensures
        chars@ == text@,
{
    let mut chars: Vec<char> = Vec::new();
    for c in it: text.chars()
        invariant
            it.seq() == text@,
            chars@ == it.seq().take(it.index() as int),
    {
        chars.push(c);
    }
    chars
}

/// `String::push` appends the one character `c` to the end of `text` and changes nothing else.
#[verifier::external_body]
fn push_char(text: &mut String, c: char)
    ensures
        final(text)@ == old(text)@.push(c),
{
    text.push(c)
}

/// A string made of `chars`, in order.
pub fn string_of(chars: &[char]) -> (text: String)
    ensures
        text@ == chars@,
{
    let mut text = String::new();
    let mut i: usize = 0;
    while i < chars.len()
        invariant
            i <= chars.len(),
            text@ == chars@.take(i as int),
        decreases chars.len() - i,
    {
        push_char(&mut text, chars[i]);
        i += 1;
    }
    text
}

} // verus!

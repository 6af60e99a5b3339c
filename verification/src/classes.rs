//! Character classes and maximal runs of one class.

use vstd::prelude::*;

verus! {

/// Blank characters inside a line: space, tab and carriage return.
pub open spec fn is_blank(c: char) -> bool {
    c == ' ' || c == '\t' || c == '\r'
}

/// ASCII decimal digits.
pub open spec fn is_digit(c: char) -> bool {
    '0' <= c <= '9'
}

/// ASCII letters and the underscore: what an identifier may start with.
pub open spec fn is_alpha(c: char) -> bool {
    'a' <= c <= 'z' || 'A' <= c <= 'Z' || c == '_'
}

/// What an identifier may continue with.
pub open spec fn is_word(c: char) -> bool {
    is_alpha(c) || is_digit(c)
}

/// The sets of characters of which the scanner takes maximal runs.
#[derive(Clone, Copy, Debug, PartialEq, Eq, Structural)]
pub enum CharClass {
    /// Decimal digits.
    Digit,
    /// Letters, digits and underscore.
    Word,
    /// The character `0`.
    Zero,
    /// Everything but the double quote.
    StringBody,
    /// Everything but the line feed.
    LineBody,
}

impl CharClass {
    /// Whether `c` belongs to the class.
    pub open spec fn has(self, c: char) -> bool {
        match self {
            CharClass::Digit => is_digit(c),
            CharClass::Word => is_word(c),
            CharClass::Zero => c == '0',
            CharClass::StringBody => c != '"',
            CharClass::LineBody => c != '\n',
        }
    }

    /// Whether `c` belongs to the class.
    pub fn contains(self, c: char) -> (b: bool)
        ensures
            b == self.has(c),
    {
        match self {
            CharClass::Digit => '0' <= c && c <= '9',
            CharClass::Word => ('a' <= c && c <= 'z') || ('A' <= c && c <= 'Z') || c == '_' || (
            '0' <= c && c <= '9'),
            CharClass::Zero => c == '0',
            CharClass::StringBody => c != '"',
            CharClass::LineBody => c != '\n',
        }
    }
}

/// Where the maximal run of `class` that starts at `i` ends: the first index
/// at or after `i` whose character is outside the class, or the length of
/// `s` when there is none. Outside `0..s.len()` the run is empty.
pub open spec fn run_end(s: Seq<char>, i: int, class: CharClass) -> int
    decreases s.len() - i,
{
    if 0 <= i < s.len() && class.has(s[i]) {
        run_end(s, i + 1, class)
    } else {
        i
    }
}

/// A run ends at or after its start, inside the sequence, on a character
/// outside the class, and holds characters of the class only.
pub proof fn lemma_run_end(s: Seq<char>, i: int, class: CharClass)
    requires
        0 <= i <= s.len(),
    ensures
        i <= run_end(s, i, class) <= s.len(),
        run_end(s, i, class) < s.len() ==> !class.has(s[run_end(s, i, class)]),
        forall|j: int| i <= j < run_end(s, i, class) ==> class.has(#[trigger] s[j]),
    decreases s.len() - i,
{
    if i < s.len() && class.has(s[i]) {
        lemma_run_end(s, i + 1, class);
    }
}

/// The end of a run is the only index that closes a stretch of the class.
pub proof fn lemma_run_end_unique(s: Seq<char>, i: int, class: CharClass, j: int)
    requires
        0 <= i <= j <= s.len(),
        forall|k: int| i <= k < j ==> class.has(#[trigger] s[k]),
        j < s.len() ==> !class.has(s[j]),
    ensures
        run_end(s, i, class) == j,
    decreases j - i,
{
    if i < j {
        lemma_run_end_unique(s, i + 1, class, j);
    }
}

/// Whether `c` is a blank character.
pub fn is_whitespace(c: char) -> (b: bool)
    ensures
        b == is_blank(c),
{
    c == ' ' || c == '\t' || c == '\r'
}

/// The end of the run of `class` that starts at `from`.
pub fn find_run_end(chars: &[char], from: usize, class: CharClass) -> (end: usize)
    requires
        from <= chars@.len(),
    ensures
        end == run_end(chars@, from as int, class),
        from <= end <= chars@.len(),
{
    let mut end: usize = from;
    while end < chars.len() && class.contains(chars[end])
        invariant
            from <= end <= chars@.len(),
            forall|k: int| from <= k < end ==> class.has(#[trigger] chars@[k]),
        decreases chars@.len() - end,
    {
        end += 1;
    }
    proof {
        lemma_run_end_unique(chars@, from as int, class, end as int);
    }
    end
}

} // verus!

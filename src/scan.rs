//! Character classes and scanning primitives shared by the statement grammar.

use vstd::prelude::*;

verus! {

/// The character classes that the grammar scans runs of.
#[derive(Clone, Copy, PartialEq, Eq, Debug)]
pub enum CharClass {
    /// Blanks, tabs and line breaks.
    Space,
    /// Letters, digits and `_`: identifiers and keywords.
    Word,
    /// Letters, digits, `_` and `-`: the segments of a collection path.
    Segment,
    /// Decimal digits.
    Digit,
    /// Anything but a double quote: the inside of a string literal.
    Unquoted,
    /// Segment characters and `/`: a whole collection or reference path.
    Path,
    /// The characters that comparison operators are spelled with.
    Operator,
}

pub open spec fn is_letter(c: char) -> bool {
    ('a' <= c && c <= 'z') || ('A' <= c && c <= 'Z')
}

pub open spec fn is_digit(c: char) -> bool {
    '0' <= c && c <= '9'
}

pub open spec fn in_class(c: char, class: CharClass) -> bool {
    match class {
        CharClass::Space => c == ' ' || c == '\t' || c == '\n' || c == '\r',
        CharClass::Word => is_letter(c) || is_digit(c) || c == '_',
        CharClass::Segment => is_letter(c) || is_digit(c) || c == '_' || c == '-',
        CharClass::Digit => is_digit(c),
        CharClass::Unquoted => c != '"',
        CharClass::Path => is_letter(c) || is_digit(c) || c == '_' || c == '-' || c == '/',
        CharClass::Operator => c == '=' || c == '!' || c == '<' || c == '>',
    }
}

/// The position just past the longest run of `class` characters that starts at `i`.
pub open spec fn run_end(s: Seq<char>, i: int, class: CharClass) -> int
    decreases s.len() - i,
{
    if 0 <= i < s.len() && in_class(s[i], class) {
        run_end(s, i + 1, class)
    } else {
        i
    }
}

pub proof fn lemma_run_end_bounds(s: Seq<char>, i: int, class: CharClass)
    requires
        0 <= i <= s.len(),
    ensures
        i <= run_end(s, i, class) <= s.len(),
        forall|k: int| i <= k < run_end(s, i, class) ==> in_class(#[trigger] s[k], class),
        run_end(s, i, class) < s.len() ==> !in_class(s[run_end(s, i, class)], class),
    decreases s.len() - i,
{
    if i < s.len() && in_class(s[i], class) {
        lemma_run_end_bounds(s, i + 1, class);
    }
}

pub fn char_in_class(c: char, class: CharClass) -> (r: bool)
    ensures
        r == in_class(c, class),
{
    match class {
        CharClass::Space => c == ' ' || c == '\t' || c == '\n' || c == '\r',
        CharClass::Word => ('a' <= c && c <= 'z') || ('A' <= c && c <= 'Z') || ('0' <= c && c
            <= '9') || c == '_',
        CharClass::Segment => ('a' <= c && c <= 'z') || ('A' <= c && c <= 'Z') || ('0' <= c
            && c <= '9') || c == '_' || c == '-',
        CharClass::Digit => '0' <= c && c <= '9',
        CharClass::Unquoted => c != '"',
        CharClass::Path => ('a' <= c && c <= 'z') || ('A' <= c && c <= 'Z') || ('0' <= c && c
            <= '9') || c == '_' || c == '-' || c == '/',
        CharClass::Operator => c == '=' || c == '!' || c == '<' || c == '>',
    }
}

/// Scans the run of `class` characters that starts at `i`.
pub fn scan_run(s: &Vec<char>, i: usize, class: CharClass) -> (r: usize)
    requires
        i <= s@.len(),
    ensures
        r == run_end(s@, i as int, class),
        i <= r <= s@.len(),
{
    let mut j: usize = i;
    while j < s.len() && char_in_class(s[j], class)
        invariant
            i <= j <= s@.len(),
            run_end(s@, i as int, class) == run_end(s@, j as int, class),
        decreases s@.len() - j,
    {
        j = j + 1;
    }
    proof {
        lemma_run_end_bounds(s@, j as int, class);
    }
    j
}

} // verus!

verus! {

/// The reserved words of the dialect; they match without regard to case.
#[derive(Clone, Copy, PartialEq, Eq, Debug)]
pub enum Keyword {
    Select,
    From,
    Where,
    And,
    Is,
    Not,
    Null,
}

pub open spec fn keyword_lower(k: Keyword) -> Seq<char> {
    match k {
        Keyword::Select => seq!['s', 'e', 'l', 'e', 'c', 't'],
        Keyword::From => seq!['f', 'r', 'o', 'm'],
        Keyword::Where => seq!['w', 'h', 'e', 'r', 'e'],
        Keyword::And => seq!['a', 'n', 'd'],
        Keyword::Is => seq!['i', 's'],
        Keyword::Not => seq!['n', 'o', 't'],
        Keyword::Null => seq!['n', 'u', 'l', 'l'],
    }
}

pub open spec fn keyword_upper(k: Keyword) -> Seq<char> {
    match k {
        Keyword::Select => seq!['S', 'E', 'L', 'E', 'C', 'T'],
        Keyword::From => seq!['F', 'R', 'O', 'M'],
        Keyword::Where => seq!['W', 'H', 'E', 'R', 'E'],
        Keyword::And => seq!['A', 'N', 'D'],
        Keyword::Is => seq!['I', 'S'],
        Keyword::Not => seq!['N', 'O', 'T'],
        Keyword::Null => seq!['N', 'U', 'L', 'L'],
    }
}

/// `w` spells the keyword `k`, each letter in either case.
pub open spec fn spells(w: Seq<char>, k: Keyword) -> bool {
    &&& w.len() == keyword_lower(k).len()
    &&& forall|j: int|
        0 <= j < w.len() ==> #[trigger] w[j] == keyword_lower(k)[j] || w[j] == keyword_upper(
            k,
        )[j]
}

/// The word (maximal run of word characters) that starts at `i`.
pub open spec fn word_at(s: Seq<char>, i: int) -> Seq<char> {
    s.subrange(i, run_end(s, i, CharClass::Word))
}

pub open spec fn keyword_at(s: Seq<char>, i: int, k: Keyword) -> bool {
    spells(word_at(s, i), k)
}

pub open spec fn is_reserved(w: Seq<char>) -> bool {
    spells(w, Keyword::Select) || spells(w, Keyword::From) || spells(w, Keyword::Where) || spells(
        w,
        Keyword::And,
    ) || spells(w, Keyword::Is) || spells(w, Keyword::Not) || spells(w, Keyword::Null)
}

/// A name of a field: a word that does not start with a digit and is not reserved.
pub open spec fn is_identifier(w: Seq<char>) -> bool {
    w.len() > 0 && !is_digit(w[0]) && !is_reserved(w)
}

fn keyword_letters(k: Keyword) -> (r: (Vec<char>, Vec<char>))
    ensures
        r.0@ == keyword_lower(k),
        r.1@ == keyword_upper(k),
        r.0@.len() == r.1@.len(),
{
    match k {
        Keyword::Select => (vec!['s', 'e', 'l', 'e', 'c', 't'], vec!['S', 'E', 'L', 'E', 'C', 'T']),
        Keyword::From => (vec!['f', 'r', 'o', 'm'], vec!['F', 'R', 'O', 'M']),
        Keyword::Where => (vec!['w', 'h', 'e', 'r', 'e'], vec!['W', 'H', 'E', 'R', 'E']),
        Keyword::And => (vec!['a', 'n', 'd'], vec!['A', 'N', 'D']),
        Keyword::Is => (vec!['i', 's'], vec!['I', 'S']),
        Keyword::Not => (vec!['n', 'o', 't'], vec!['N', 'O', 'T']),
        Keyword::Null => (vec!['n', 'u', 'l', 'l'], vec!['N', 'U', 'L', 'L']),
    }
}

/// Whether `s[start..end]` spells the keyword `k`.
pub fn spells_keyword(s: &Vec<char>, start: usize, end: usize, k: Keyword) -> (r: bool)
    requires
        start <= end <= s@.len(),
    ensures
        r == spells(s@.subrange(start as int, end as int), k),
{
    let (lo, up) = keyword_letters(k);
    if end - start != lo.len() {
        return false;
    }
    let ghost w = s@.subrange(start as int, end as int);
    let mut j: usize = 0;
    while j < lo.len()
        invariant
            start <= end <= s@.len(),
            end - start == lo@.len(),
            lo@ == keyword_lower(k),
            up@ == keyword_upper(k),
            lo@.len() == up@.len(),
            w == s@.subrange(start as int, end as int),
            j <= lo@.len(),
            forall|t: int| 0 <= t < j ==> #[trigger] w[t] == lo@[t] || w[t] == up@[t],
        decreases lo@.len() - j,
    {
        if s[start + j] != lo[j] && s[start + j] != up[j] {
            assert(w[j as int] == s@[start + j]);
            return false;
        }
        j = j + 1;
    }
    true
}

/// Whether the word at `i` is the keyword `k`.
pub fn at_keyword(s: &Vec<char>, i: usize, k: Keyword) -> (r: bool)
    requires
        i <= s@.len(),
    ensures
        r == keyword_at(s@, i as int, k),
{
    let e = scan_run(s, i, CharClass::Word);
    spells_keyword(s, i, e, k)
}

/// Whether `s[start..end]` is a field name.
pub fn is_identifier_text(s: &Vec<char>, start: usize, end: usize) -> (r: bool)
    requires
        start <= end <= s@.len(),
    ensures
        r == is_identifier(s@.subrange(start as int, end as int)),
{
    if start == end {
        return false;
    }
    let c = s[start];
    if '0' <= c && c <= '9' {
        return false;
    }
    let reserved = spells_keyword(s, start, end, Keyword::Select) || spells_keyword(
        s,
        start,
        end,
        Keyword::From,
    ) || spells_keyword(s, start, end, Keyword::Where) || spells_keyword(
        s,
        start,
        end,
        Keyword::And,
    ) || spells_keyword(s, start, end, Keyword::Is) || spells_keyword(s, start, end, Keyword::Not)
        || spells_keyword(s, start, end, Keyword::Null);
    !reserved
}

/// The characters of `text`, one element each.
pub fn chars_of(text: &str) -> (r: Vec<char>)
    ensures
        r@ == text@,
{
    let n = text.unicode_len();
    let mut r: Vec<char> = Vec::new();
    let mut i: usize = 0;
    while i < n
        invariant
            n == text@.len(),
            i <= n,
            r@ == text@.subrange(0, i as int),
        decreases n - i,
    {
        r.push(text.get_char(i));
        i = i + 1;
        assert(r@ =~= text@.subrange(0, i as int));
    }
    assert(r@ =~= text@);
    r
}

/// The text of `text[start..end]`, counted in characters.
pub fn text_between(text: &str, start: usize, end: usize) -> (r: String)
    requires
        start <= end <= text@.len(),
    ensures
        r@ == text@.subrange(start as int, end as int),
{
    text.substring_char(start, end).to_owned()
}

} // verus!

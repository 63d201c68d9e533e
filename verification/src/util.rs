//! Reading the operator's answer to a yes-or-no question.

use vstd::prelude::*;
use crate::text::chars_of;

verus! {

/// Whether a character is white space: whether it has the property
/// `White_Space` of Unicode, which these characters have and no others.
pub open spec fn is_space(c: char) -> bool {
    let n = c as u32;
    ||| 0x0009 <= n <= 0x000d
    ||| n == 0x0020
    ||| n == 0x0085
    ||| n == 0x00a0
    ||| n == 0x1680
    ||| 0x2000 <= n <= 0x200a
    ||| n == 0x2028
    ||| n == 0x2029
    ||| n == 0x202f
    ||| n == 0x205f
    ||| n == 0x3000
}

/// `char::is_whitespace`: whether the character has the Unicode property
/// `White_Space`.
pub assume_specification[ char::is_whitespace ](c: char) -> (r: bool)
    ensures
        r == is_space(c),
;

/// The position of the first character at or after `from` that is no white
/// space, or the length of the text.
pub open spec fn first_kept(text: Seq<char>, from: int) -> int
    decreases text.len() - from,
{
    if 0 <= from < text.len() && is_space(text[from]) {
        first_kept(text, from + 1)
    } else {
        from
    }
}

/// The position after the last character before `to` that is no white
/// space, or `from`.
pub open spec fn last_kept(text: Seq<char>, from: int, to: int) -> int
    decreases to,
{
    if from < to <= text.len() && 0 < to && is_space(text[to - 1]) {
        last_kept(text, from, to - 1)
    } else {
        to
    }
}

/// The text without the white space at its two ends.
pub open spec fn trimmed(text: Seq<char>) -> Seq<char> {
    let from = first_kept(text, 0);
    text.subrange(from, last_kept(text, from, text.len() as int))
}

/// What a word answers: `y` or `Y` confirms, `n` or `N` declines, and
/// anything else is no answer.
pub open spec fn word_answer(word: Seq<char>) -> Option<bool> {
    if word == seq!['y'] || word == seq!['Y'] {
        Some(true)
    } else if word == seq!['n'] || word == seq!['N'] {
        Some(false)
    } else {
        None
    }
}

/// What a line of input answers: what the word answers that is left of it
/// without the white space at its two ends.
pub open spec fn answer_of(input: Seq<char>) -> Option<bool> {
    word_answer(trimmed(input))
}

/// What the word `chars[from..to]` answers.
pub fn answer_in(chars: &Vec<char>, from: usize, to: usize) -> (r: Option<bool>)
    requires
        from <= to <= chars.len(),
    ensures
        r == word_answer(chars@.subrange(from as int, to as int)),
{
    let ghost word = chars@.subrange(from as int, to as int);
    if to - from != 1 {
        assert(word.len() != 1);
        return None;
    }
    let c = chars[from];
    assert(word[0] == c);
    assert(seq!['y'][0] == 'y' && seq!['Y'][0] == 'Y' && seq!['n'][0] == 'n' && seq!['N'][0] == 'N');
    if c == 'y' || c == 'Y' {
        assert(word =~= seq!['y'] || word =~= seq!['Y']);
        Some(true)
    } else if c == 'n' || c == 'N' {
        assert(word =~= seq!['n'] || word =~= seq!['N']);
        Some(false)
    } else {
        None
    }
}

/// Reads the operator's answer from a line of input: the white space at
/// its two ends does not count.
pub fn confirm_action(input: &str) -> (r: Option<bool>)
    ensures
        r == answer_of(input@),
{
    let chars = chars_of(input);
    let mut from: usize = 0;
    while from < chars.len() && chars[from].is_whitespace()
        invariant
            from <= chars.len(),
            first_kept(chars@, 0) == first_kept(chars@, from as int),
        decreases chars.len() - from,
    {
        from += 1;
    }
    let mut to: usize = chars.len();
    while to > from && chars[to - 1].is_whitespace()
        invariant
            from <= to <= chars.len(),
            last_kept(chars@, from as int, chars.len() as int) == last_kept(
                chars@,
                from as int,
                to as int,
            ),
        decreases to,
    {
        to -= 1;
    }
    answer_in(&chars, from, to)
}

} // verus!

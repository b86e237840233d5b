//! Characters, decimal numbers and blank-separated words: what the notations
//! for boards and moves are made of.

use vstd::prelude::*;

verus! {

/// `String::push` appends the given character to the end of the string.
pub assume_specification[ String::push ](s: &mut String, c: char)
    ensures
        final(s)@ == old(s)@.push(c),
;

/// Whether `c` separates words: the characters that Unicode calls white
/// space.
pub open spec fn is_space(c: char) -> bool {
    let code = c as u32;
    ||| 0x09 <= code <= 0x0d
    ||| code == 0x20
    ||| code == 0x85
    ||| code == 0xa0
    ||| code == 0x1680
    ||| 0x2000 <= code <= 0x200a
    ||| code == 0x2028
    ||| code == 0x2029
    ||| code == 0x202f
    ||| code == 0x205f
    ||| code == 0x3000
}

/// Whether `c` separates words.
pub(crate) fn is_space_char(c: char) -> (space: bool)
    ensures
        space == is_space(c),
{
    let code: u32 = c as u32;
    (0x09 <= code && code <= 0x0d) || code == 0x20 || code == 0x85 || code == 0xa0 || code
        == 0x1680 || (0x2000 <= code && code <= 0x200a) || code == 0x2028 || code == 0x2029 || code
        == 0x202f || code == 0x205f || code == 0x3000
}

/// The characters of a string, one by one.
pub(crate) fn chars_of(s: &str) -> (chars: Vec<char>)
    ensures
        chars@ == s@,
{
    let mut chars: Vec<char> = Vec::new();
    for c in it: s.chars()
        invariant
            chars@ == it.seq().take(it.index() as int),
            it.seq() == s@,
    {
        chars.push(c);
    }
    chars
}

/// Where the blanks that begin at `from` end.
pub open spec fn skip_spaces(text: Seq<char>, from: int) -> int
    decreases text.len() - from,
{
    if 0 <= from < text.len() && is_space(text[from]) {
        skip_spaces(text, from + 1)
    } else {
        from
    }
}

/// Where the word that begins at `from` ends.
pub open spec fn word_end(text: Seq<char>, from: int) -> int
    decreases text.len() - from,
{
    if 0 <= from < text.len() && !is_space(text[from]) {
        word_end(text, from + 1)
    } else {
        from
    }
}

/// Where the first word of a text begins: at its end, if it holds none.
pub open spec fn first_word(text: Seq<char>) -> int {
    skip_spaces(text, 0)
}

/// Where the word after the one at `from` begins: at the end of the text, if
/// none follows.
pub open spec fn next_word(text: Seq<char>, from: int) -> int {
    skip_spaces(text, word_end(text, from))
}

/// The word that begins at `from`.
pub open spec fn word_at(text: Seq<char>, from: int) -> Seq<char> {
    text.subrange(from, word_end(text, from))
}

/// Passes over the blanks that begin at `from`.
pub(crate) fn skip_spaces_in(text: &Vec<char>, from: usize) -> (to: usize)
    requires
        from <= text.len(),
    ensures
        to == skip_spaces(text@, from as int),
        from <= to <= text.len(),
{
    let mut to: usize = from;
    while to < text.len() && is_space_char(text[to])
        invariant
            from <= to <= text.len(),
            skip_spaces(text@, from as int) == skip_spaces(text@, to as int),
        decreases text.len() - to,
    {
        to += 1;
    }
    to
}

/// Passes over the word that begins at `from`.
pub(crate) fn word_end_in(text: &Vec<char>, from: usize) -> (to: usize)
    requires
        from <= text.len(),
    ensures
        to == word_end(text@, from as int),
        from <= to <= text.len(),
{
    let mut to: usize = from;
    while to < text.len() && !is_space_char(text[to])
        invariant
            from <= to <= text.len(),
            word_end(text@, from as int) == word_end(text@, to as int),
        decreases text.len() - to,
    {
        to += 1;
    }
    to
}

/// Whether `c` is one of the digits `0` to `9`.
pub open spec fn is_digit(c: char) -> bool {
    0x30 <= c as u32 <= 0x39
}

/// The number that a row of digits stands for.
pub open spec fn digits_value(digits: Seq<char>) -> nat
    decreases digits.len(),
{
    if digits.len() == 0 {
        0
    } else {
        digits_value(digits.drop_last()) * 10 + (digits.last() as u32 - 0x30) as nat
    }
}

/// The number below 65536 that a word stands for: digits, with or without a
/// plus sign before them. A word of another form stands for no number.
pub open spec fn parse_u16(word: Seq<char>) -> Option<u16> {
    let digits = without_sign(word);
    if digits.len() > 0 && all_digits(digits) && digits_value(digits) <= u16::MAX {
        Some(digits_value(digits) as u16)
    } else {
        None
    }
}

/// A word without the plus sign that may stand before its digits.
pub open spec fn without_sign(word: Seq<char>) -> Seq<char> {
    if word.len() > 0 && word[0] == '+' {
        word.subrange(1, word.len() as int)
    } else {
        word
    }
}

/// Whether a word is made of digits alone.
pub open spec fn all_digits(word: Seq<char>) -> bool {
    forall|i: int| 0 <= i < word.len() ==> is_digit(#[trigger] word[i])
}

/// A longer row of digits stands for no smaller number.
pub proof fn lemma_digits_value_grows(digits: Seq<char>, n: int)
    requires
        0 <= n <= digits.len(),
    ensures
        digits_value(digits.take(n)) <= digits_value(digits),
    decreases digits.len() - n,
{
    if n == digits.len() {
        assert(digits.take(n) =~= digits);
    } else {
        lemma_digits_value_grows(digits, n + 1);
        assert(digits.take(n + 1).drop_last() =~= digits.take(n));
    }
}

/// Reads the number that the word `text[from..to]` stands for.
#[verifier::loop_isolation(false)]
pub(crate) fn parse_u16_in(text: &Vec<char>, from: usize, to: usize) -> (number: Option<u16>)
    requires
        from <= to <= text.len(),
    ensures
        number == parse_u16(text@.subrange(from as int, to as int)),
{
    let ghost word = text@.subrange(from as int, to as int);
    let start: usize = if from < to && text[from] == '+' {
        from + 1
    } else {
        from
    };
    let ghost digits = text@.subrange(start as int, to as int);
    assert(digits =~= without_sign(word));
    if start == to {
        return None;
    }
    let mut value: u32 = 0;
    let mut i: usize = start;
    while i < to
        invariant
            start <= i <= to <= text.len(),
            digits == text@.subrange(start as int, to as int),
            all_digits(digits.take(i - start)),
            value == digits_value(digits.take(i - start)),
            value <= u16::MAX,
        decreases to - i,
    {
        let code: u32 = text[i] as u32;
        assert(digits[i - start] == text@[i as int]);
        if code < 0x30 || code > 0x39 {
            assert(!all_digits(digits));
            return None;
        }
        proof {
            assert(digits.take(i - start + 1).drop_last() =~= digits.take(i - start));
            assert(all_digits(digits.take(i - start + 1))) by {
                assert forall|k: int| 0 <= k < i - start + 1 implies is_digit(
                    #[trigger] digits.take(i - start + 1)[k],
                ) by {
                    if k < i - start {
                        assert(digits.take(i - start)[k] == digits[k]);
                    }
                }
            }
            lemma_digits_value_grows(digits, i - start + 1);
        }
        value = value * 10 + (code - 0x30);
        if value > 0xffff {
            return None;
        }
        i += 1;
    }
    assert(digits.take(to - start) =~= digits);
    Some(value as u16)
}

/// The character that stands for a digit below ten.
pub open spec fn digit_char(digit: nat) -> char {
    (digit + 0x30) as char
}

/// A number in decimal digits, without leading zeros.
pub open spec fn decimal(n: nat) -> Seq<char>
    decreases n,
{
    if n < 10 {
        seq![digit_char(n)]
    } else {
        decimal(n / 10).push(digit_char(n % 10))
    }
}

/// Appends `n` in decimal digits to `out`.
pub(crate) fn push_decimal(out: &mut String, n: u32)
    ensures
        final(out)@ == old(out)@ + decimal(n as nat),
    decreases n,
{
    if n >= 10 {
        push_decimal(out, n / 10);
    }
    let digit: u8 = (n % 10) as u8;
    out.push((48u8 + digit) as char);
    assert(final(out)@ =~= old(out)@ + decimal(n as nat));
}

/// A word that begins at `from`, is free of blanks and is followed by a
/// blank or by the end of the text, ends at `to`.
pub proof fn lemma_word_end(text: Seq<char>, from: int, to: int)
    requires
        0 <= from <= to <= text.len(),
        forall|i: int| from <= i < to ==> !is_space(#[trigger] text[i]),
        to < text.len() ==> is_space(text[to]),
    ensures
        word_end(text, from) == to,
    decreases to - from,
{
    if from < to {
        lemma_word_end(text, from + 1, to);
    }
}

/// Blanks that begin at `from` and are followed by another character or by
/// the end of the text end at `to`.
pub proof fn lemma_skip_spaces(text: Seq<char>, from: int, to: int)
    requires
        0 <= from <= to <= text.len(),
        forall|i: int| from <= i < to ==> is_space(#[trigger] text[i]),
        to < text.len() ==> !is_space(text[to]),
    ensures
        skip_spaces(text, from) == to,
    decreases to - from,
{
    if from < to {
        lemma_skip_spaces(text, from + 1, to);
    }
}

/// A number in decimal digits is made of digits alone, at least one, and
/// stands for the number.
pub proof fn lemma_decimal(n: nat)
    ensures
        decimal(n).len() >= 1,
        all_digits(decimal(n)),
        digits_value(decimal(n)) == n,
        without_sign(decimal(n)) == decimal(n),
    decreases n,
{
    if n < 10 {
        assert(decimal(n).drop_last() =~= Seq::<char>::empty());
        assert(digits_value(decimal(n).drop_last()) == 0);
    } else {
        lemma_decimal(n / 10);
        let front = decimal(n / 10);
        let all = decimal(n);
        assert(all.drop_last() =~= front);
        assert forall|i: int| 0 <= i < all.len() implies is_digit(#[trigger] all[i]) by {
            if i < front.len() {
                assert(all[i] == front[i]);
            }
        }
        assert(all[0] == front[0]);
    }
}

/// A number below 65536 in decimal digits is read back as that number.
pub proof fn lemma_parse_decimal(n: nat)
    requires
        n <= u16::MAX,
    ensures
        parse_u16(decimal(n)) == Some(n as u16),
{
    lemma_decimal(n);
}

} // verus!

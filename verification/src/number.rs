//! Numbers in decimal digits: the counts that the words of a log write, and
//! the digits that write a score.

use vstd::prelude::*;

verus! {

/// Whether a character is one of the ten decimal digits.
pub open spec fn digit(c: char) -> bool {
    0x30 <= c as u32 <= 0x39
}

/// The number a decimal digit stands for.
pub open spec fn digit_value(c: char) -> nat {
    (c as u32 - 0x30) as nat
}

/// The number that a run of decimal digits writes.
pub open spec fn digits_value(digits: Seq<char>) -> nat
    decreases digits.len(),
{
    if digits.len() == 0 {
        0
    } else {
        digits_value(digits.drop_last()) * 10 + digit_value(digits.last())
    }
}

/// Whether a text is one or more decimal digits.
pub open spec fn numeral(text: Seq<char>) -> bool {
    text.len() > 0 && forall|i: int| 0 <= i < text.len() ==> digit(#[trigger] text[i])
}

/// A word without the plus sign that may lead it.
pub open spec fn unsigned_part(word: Seq<char>) -> Seq<char> {
    if word.len() > 0 && word[0] == '+' {
        word.skip(1)
    } else {
        word
    }
}

/// The largest count that one word may write.
pub open spec fn count_max() -> nat {
    0xFFFF_FFFF
}

/// The number that a word writes, where it writes one: the word is a
/// numeral, with or without a leading plus sign, of at most `count_max()`.
pub open spec fn number_in(word: Seq<char>) -> Option<nat> {
    let digits = unsigned_part(word);
    if numeral(digits) && digits_value(digits) <= count_max() {
        Some(digits_value(digits))
    } else {
        None
    }
}

/// The count that a word adds: the number it writes, 0 for a word that
/// writes none.
pub open spec fn count_of(word: Seq<char>) -> nat {
    match number_in(word) {
        Some(n) => n,
        None => 0,
    }
}

/// The first digits of a numeral write no more than all of them.
pub proof fn lemma_digits_prefix(digits: Seq<char>, k: int)
    requires
        0 <= k <= digits.len(),
    ensures
        digits_value(digits.take(k)) <= digits_value(digits),
    decreases digits.len() - k,
{
    if k < digits.len() {
        lemma_digits_prefix(digits, k + 1);
        assert(digits.take(k + 1).drop_last() == digits.take(k));
    } else {
        assert(digits.take(k) == digits);
    }
}

/// Reads the number that a word writes.
pub fn read_number(word: &[char]) -> (number: Option<u32>)
    ensures
        match number {
            Some(n) => number_in(word@) == Some(n as nat),
            None => number_in(word@) is None,
        },
{
    let start: usize = if word.len() > 0 && word[0] == '+' {
        1
    } else {
        0
    };
    let ghost digits = unsigned_part(word@);
    if start == word.len() {
        return None;
    }
    let mut value: u64 = 0;
    let mut i: usize = start;
    while i < word.len()
        invariant
            start <= i <= word@.len(),
            digits == unsigned_part(word@),
            digits == word@.skip(start as int),
            value == digits_value(digits.take(i - start)),
            value <= count_max(),
            forall|j: int| 0 <= j < i - start ==> digit(#[trigger] digits[j]),
        decreases word@.len() - i,
    {
        let n: u32 = word[i] as u32;
        if n < 0x30 || n > 0x39 {
            assert(!digit(digits[i - start]));
            return None;
        }
        let next: u64 = value * 10 + (n - 0x30) as u64;
        proof {
            assert(digits.take(i + 1 - start).drop_last() == digits.take(i - start));
            lemma_digits_prefix(digits, i + 1 - start);
        }
        if next > 0xFFFF_FFFF {
            return None;
        }
        value = next;
        i += 1;
    }
    assert(digits.take(i - start) == digits);
    Some(value as u32)
}

/// The character that writes a digit.
pub open spec fn digit_char(d: nat) -> char {
    ((0x30 + d) as u8) as char
}

/// A number in decimal digits, without leading zeros.
pub open spec fn decimal(n: nat) -> Seq<char>
    decreases n,
{
    if n < 10 {
        seq![digit_char(n)]
    } else {
        decimal(n / 10).push(digit_char(n % 10))
    }
}

/// The character that writes a digit.
pub fn digit_to_char(d: u64) -> (c: char)
    requires
        d < 10,
    ensures
        c == digit_char(d as nat),
{
    (0x30u8 + d as u8) as char
}

/// Appends a number in decimal digits to a text.
pub fn push_decimal(text: &mut String, n: u64)
    ensures
        final(text)@ == old(text)@ + decimal(n as nat),
    decreases n,
{
    if n >= 10 {
        push_decimal(text, n / 10);
    }
    text.push(digit_to_char(n % 10));
}

} // verus!

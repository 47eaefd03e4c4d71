//! Reading text a character at a time: blanks, words, letters without case, and numbers.

use vstd::prelude::*;
use vstd::string::*;

verus! {

/// Whether a character is white space.
pub open spec fn is_space(c: char) -> bool {
    ||| '\t' <= c <= '\r'
    ||| c == ' '
    ||| c == '\u{85}'
    ||| c == '\u{a0}'
    ||| c == '\u{1680}'
    ||| '\u{2000}' <= c <= '\u{200a}'
    ||| c == '\u{2028}'
    ||| c == '\u{2029}'
    ||| c == '\u{202f}'
    ||| c == '\u{205f}'
    ||| c == '\u{3000}'
}

/// Whether a character is ASCII white space, which is what words are told apart by.
pub open spec fn is_blank(c: char) -> bool {
    c == ' ' || c == '\t' || c == '\n' || c == '\u{c}' || c == '\r'
}

pub open spec fn is_letter(c: char) -> bool {
    'a' <= c <= 'z' || 'A' <= c <= 'Z'
}

pub open spec fn is_digit(c: char) -> bool {
    '0' <= c <= '9'
}

/// An ASCII letter in lower case, and any other character as it is.
pub open spec fn lower(c: char) -> char {
    if 'A' <= c <= 'Z' {
        ((c as u32 + 32) as u32) as char
    } else {
        c
    }
}

/// A text with its ASCII letters in lower case.
pub open spec fn lowered(text: Seq<char>) -> Seq<char> {
    Seq::new(text.len(), |i: int| lower(text[i]))
}

/// Whether two texts are the same but for the case of ASCII letters.
pub open spec fn same_but_case(left: Seq<char>, right: Seq<char>) -> bool {
    lowered(left) == lowered(right)
}

/// The first place from `from` on that is not white space, or `to`.
pub open spec fn past_space(text: Seq<char>, from: int, to: int) -> int
    decreases to - from,
{
    if from < to && is_space(text[from]) {
        past_space(text, from + 1, to)
    } else {
        from
    }
}

/// Where a text ends once the white space before `to` is taken off, no earlier than `from`.
pub open spec fn before_space(text: Seq<char>, from: int, to: int) -> int
    decreases to - from,
{
    if from < to && is_space(text[to - 1]) {
        before_space(text, from, to - 1)
    } else {
        to
    }
}

/// A text without the white space at its two ends.
pub open spec fn trimmed(text: Seq<char>) -> Seq<char> {
    let from = past_space(text, 0, text.len() as int);
    text.subrange(from, before_space(text, from, text.len() as int))
}

/// The first place from `from` on that is, or is not, a blank.
pub open spec fn next_blank(text: Seq<char>, from: int, blank: bool) -> int
    decreases text.len() - from,
{
    if 0 <= from < text.len() && is_blank(text[from]) != blank {
        next_blank(text, from + 1, blank)
    } else {
        from
    }
}

proof fn lemma_next_blank(text: Seq<char>, from: int, blank: bool)
    requires
        0 <= from <= text.len(),
    ensures
        from <= next_blank(text, from, blank) <= text.len(),
        next_blank(text, from, blank) < text.len() ==> is_blank(
            text[next_blank(text, from, blank)],
        ) == blank,
        from < text.len() && is_blank(text[from]) != blank ==> next_blank(text, from, blank) > from,
    decreases text.len() - from,
{
    if from < text.len() && is_blank(text[from]) != blank {
        lemma_next_blank(text, from + 1, blank);
    }
}

/// The words of a text from a place on, told apart by blanks.
pub open spec fn words_from(text: Seq<char>, from: int) -> Seq<Seq<char>>
    decreases text.len() - from,
    when 0 <= from <= text.len()
    via words_from_ends
{
    let start = next_blank(text, from, false);
    let end = next_blank(text, start, true);
    if start >= text.len() {
        Seq::empty()
    } else {
        seq![text.subrange(start, end)] + words_from(text, end)
    }
}

#[via_fn]
proof fn words_from_ends(text: Seq<char>, from: int) {
    lemma_next_blank(text, from, false);
    let start = next_blank(text, from, false);
    lemma_next_blank(text, start, true);
}

/// The words of a text.
pub open spec fn words(text: Seq<char>) -> Seq<Seq<char>> {
    words_from(text, 0)
}

/// Whether a text is a name that needs no quotes: a letter or an underscore, then any number of
/// letters, digits and underscores.
pub open spec fn is_plain_name(text: Seq<char>) -> bool {
    &&& text.len() > 0
    &&& is_letter(text[0]) || text[0] == '_'
    &&& forall|i: int|
        0 <= i < text.len() ==> is_letter(#[trigger] text[i]) || is_digit(text[i]) || text[i] == '_'
}

pub(crate) fn space(c: char) -> (yes: bool)
    ensures
        yes == is_space(c),
{
    ('\t' <= c && c <= '\r') || c == ' ' || c == '\u{85}' || c == '\u{a0}' || c == '\u{1680}' || (
    '\u{2000}' <= c && c <= '\u{200a}') || c == '\u{2028}' || c == '\u{2029}' || c == '\u{202f}' || c
        == '\u{205f}' || c == '\u{3000}'
}

fn blank(c: char) -> (yes: bool)
    ensures
        yes == is_blank(c),
{
    c == ' ' || c == '\t' || c == '\n' || c == '\u{c}' || c == '\r'
}

/// An ASCII letter in lower case, and any other character as it is.
pub(crate) fn lower_char(c: char) -> (low: char)
    ensures
        low == lower(c),
{
    if 'A' <= c && c <= 'Z' {
        (c as u8 + 32) as char
    } else {
        c
    }
}

/// A text of one character.
///
/// Calls `std::string::String::from` on a character, and claims of it that the text is that
/// character and nothing else.
#[verifier::external_body]
pub(crate) fn text_of_char(c: char) -> (text: String)
    ensures
        text@ == seq![c],
{
    String::from(c)
}

/// A text with its ASCII letters in lower case.
pub fn lower_text(text: &str) -> (low: String)
    ensures
        low@ == lowered(text@),
{
    let len: usize = text.unicode_len();
    let mut low = String::new();
    let mut at: usize = 0;
    while at < len
        invariant
            at <= len,
            len == text@.len(),
            low@ == lowered(text@.subrange(0, at as int)),
        decreases len - at,
    {
        let one = text_of_char(lower_char(text.get_char(at)));
        low.append(one.as_str());
        assert(low@ =~= lowered(text@.subrange(0, at + 1)));
        at += 1;
    }
    assert(text@.subrange(0, at as int) =~= text@);
    low
}

/// Whether two texts are the same but for the case of ASCII letters.
pub fn equal_but_case(left: &str, right: &str) -> (same: bool)
    ensures
        same == same_but_case(left@, right@),
{
    let len: usize = left.unicode_len();
    if len != right.unicode_len() {
        assert(lowered(left@).len() != lowered(right@).len());
        return false;
    }
    let mut at: usize = 0;
    while at < len
        invariant
            at <= len,
            len == left@.len(),
            len == right@.len(),
            forall|i: int| 0 <= i < at ==> lower(#[trigger] left@[i]) == lower(right@[i]),
        decreases len - at,
    {
        if lower_char(left.get_char(at)) != lower_char(right.get_char(at)) {
            assert(lowered(left@)[at as int] != lowered(right@)[at as int]);
            return false;
        }
        at += 1;
    }
    assert(lowered(left@) =~= lowered(right@));
    true
}

/// A text without the white space at its two ends.
pub fn trim(text: &str) -> (inner: &str)
    ensures
        inner@ == trimmed(text@),
{
    let len: usize = text.unicode_len();
    let mut from: usize = 0;
    while from < len && space(text.get_char(from))
        invariant
            from <= len,
            len == text@.len(),
            past_space(text@, 0, len as int) == past_space(text@, from as int, len as int),
        decreases len - from,
    {
        from += 1;
    }
    let mut to: usize = len;
    while from < to && space(text.get_char(to - 1))
        invariant
            from <= to <= len,
            len == text@.len(),
            before_space(text@, from as int, len as int) == before_space(
                text@,
                from as int,
                to as int,
            ),
        decreases to - from,
    {
        to -= 1;
    }
    text.substring_char(from, to)
}

/// Whether a text ends in that character.
pub fn ends_in(text: &str, c: char) -> (yes: bool)
    ensures
        yes == (text@.len() > 0 && text@.last() == c),
{
    let len: usize = text.unicode_len();
    len > 0 && text.get_char(len - 1) == c
}

/// The words of a text.
pub fn split_words<'a>(text: &'a str) -> (found: Vec<&'a str>)
    ensures
        found@.len() == words(text@).len(),
        forall|i: int| 0 <= i < found@.len() ==> (#[trigger] found@[i])@ == words(text@)[i],
{
    let len: usize = text.unicode_len();
    let mut found: Vec<&'a str> = Vec::new();
    let ghost mut done: Seq<Seq<char>> = Seq::empty();
    let mut at: usize = 0;
    assert(done + words_from(text@, 0) =~= words(text@));
    while at < len
        invariant
            at <= len,
            len == text@.len(),
            words(text@) == done + words_from(text@, at as int),
            found@.len() == done.len(),
            forall|i: int| 0 <= i < found@.len() ==> (#[trigger] found@[i])@ == done[i],
        decreases len - at,
    {
        let ghost from = at as int;
        while at < len && blank(text.get_char(at))
            invariant
                from <= at <= len,
                len == text@.len(),
                next_blank(text@, from, false) == next_blank(text@, at as int, false),
            decreases len - at,
        {
            at += 1;
        }
        let start: usize = at;
        while at < len && !blank(text.get_char(at))
            invariant
                start <= at <= len,
                len == text@.len(),
                next_blank(text@, start as int, true) == next_blank(text@, at as int, true),
            decreases len - at,
        {
            at += 1;
        }
        proof {
            lemma_next_blank(text@, from, false);
            lemma_next_blank(text@, start as int, true);
        }
        if start < len {
            found.push(text.substring_char(start, at));
            proof {
                let word = text@.subrange(start as int, at as int);
                assert(done + (seq![word] + words_from(text@, at as int)) =~= done.push(word)
                    + words_from(text@, at as int));
                done = done.push(word);
            }
        } else {
            proof {
                assert(words_from(text@, from) =~= Seq::<Seq<char>>::empty());
                assert(words_from(text@, at as int) =~= Seq::<Seq<char>>::empty());
            }
        }
    }
    assert(words_from(text@, at as int) =~= Seq::<Seq<char>>::empty());
    assert(words(text@) =~= done);
    found
}

/// Whether a text is a name that needs no quotes.
pub fn plain_name(text: &str) -> (yes: bool)
    ensures
        yes == is_plain_name(text@),
{
    let len: usize = text.unicode_len();
    if len == 0 {
        return false;
    }
    let first: char = text.get_char(0);
    if !(('a' <= first && first <= 'z') || ('A' <= first && first <= 'Z') || first == '_') {
        return false;
    }
    let mut at: usize = 0;
    while at < len
        invariant
            at <= len,
            len == text@.len(),
            forall|i: int|
                0 <= i < at ==> is_letter(#[trigger] text@[i]) || is_digit(text@[i]) || text@[i]
                    == '_',
        decreases len - at,
    {
        let c: char = text.get_char(at);
        if !(('a' <= c && c <= 'z') || ('A' <= c && c <= 'Z') || ('0' <= c && c <= '9') || c
            == '_') {
            assert(!(is_letter(text@[at as int]) || is_digit(text@[at as int]) || text@[at as int]
                == '_'));
            return false;
        }
        at += 1;
    }
    true
}

/// The character of a digit.
pub open spec fn digit_of(digit: nat) -> char {
    if digit == 0 {
        '0'
    } else if digit == 1 {
        '1'
    } else if digit == 2 {
        '2'
    } else if digit == 3 {
        '3'
    } else if digit == 4 {
        '4'
    } else if digit == 5 {
        '5'
    } else if digit == 6 {
        '6'
    } else if digit == 7 {
        '7'
    } else if digit == 8 {
        '8'
    } else {
        '9'
    }
}

/// A number written in decimal, without leading zeros.
pub open spec fn decimal(number: nat) -> Seq<char>
    decreases number,
{
    if number < 10 {
        seq![digit_of(number)]
    } else {
        decimal(number / 10).push(digit_of(number % 10))
    }
}

fn digit_text(digit: u64) -> (text: &'static str)
    requires
        digit < 10,
    ensures
        text@ == seq![digit_of(digit as nat)],
{
    proof {
        reveal_strlit("0");
        reveal_strlit("1");
        reveal_strlit("2");
        reveal_strlit("3");
        reveal_strlit("4");
        reveal_strlit("5");
        reveal_strlit("6");
        reveal_strlit("7");
        reveal_strlit("8");
        reveal_strlit("9");
        assert("0"@ =~= seq!['0']);
        assert("1"@ =~= seq!['1']);
        assert("2"@ =~= seq!['2']);
        assert("3"@ =~= seq!['3']);
        assert("4"@ =~= seq!['4']);
        assert("5"@ =~= seq!['5']);
        assert("6"@ =~= seq!['6']);
        assert("7"@ =~= seq!['7']);
        assert("8"@ =~= seq!['8']);
        assert("9"@ =~= seq!['9']);
    }
    if digit == 0 {
        "0"
    } else if digit == 1 {
        "1"
    } else if digit == 2 {
        "2"
    } else if digit == 3 {
        "3"
    } else if digit == 4 {
        "4"
    } else if digit == 5 {
        "5"
    } else if digit == 6 {
        "6"
    } else if digit == 7 {
        "7"
    } else if digit == 8 {
        "8"
    } else {
        "9"
    }
}

/// A number written in decimal.
pub fn decimal_text(number: u128) -> (text: String)
    ensures
        text@ == decimal(number as nat),
    decreases number,
{
    if number < 10 {
        digit_text(number as u64).to_owned()
    } else {
        let mut text = decimal_text(number / 10);
        text.append(digit_text((number % 10) as u64));
        assert(text@ =~= decimal(number as nat));
        text
    }
}

/// Writes a number on the end of a text.
pub fn push_number(text: &mut String, number: usize)
    ensures
        final(text)@ == old(text)@ + decimal(number as nat),
{
    let digits = decimal_text(number as u128);
    text.append(digits.as_str());
}

/// How a whole number is written, with a sign below zero.
pub open spec fn signed_decimal(number: int) -> Seq<char> {
    if number < 0 {
        "-"@ + decimal((-number) as nat)
    } else {
        decimal(number as nat)
    }
}

/// Writes a whole number, with a sign below zero.
pub fn signed_text(number: i128) -> (text: String)
    ensures
        text@ == signed_decimal(number as int),
{
    if number < 0 {
        let size: u128 = if number == i128::MIN {
            170141183460469231731687303715884105728
        } else {
            (-number) as u128
        };
        let mut text = "-".to_owned();
        let digits = decimal_text(size);
        text.append(digits.as_str());
        text
    } else {
        decimal_text(number as u128)
    }
}

/// The number some digits stand for.
pub open spec fn decimal_value(text: Seq<char>) -> nat
    decreases text.len(),
{
    if text.len() == 0 {
        0
    } else {
        decimal_value(text.drop_last()) * 10 + (text.last() as u32 - '0' as u32) as nat
    }
}

/// A number is written in digits, and in at least one.
pub proof fn lemma_digits(number: nat)
    ensures
        decimal(number).len() > 0,
        forall|i: int| 0 <= i < decimal(number).len() ==> is_digit(#[trigger] decimal(number)[i]),
    decreases number,
{
    if number >= 10 {
        lemma_digits(number / 10);
    }
}

/// A number reads back as it was written.
pub proof fn law_decimal_reads_back(number: nat)
    ensures
        decimal_value(decimal(number)) == number,
    decreases number,
{
    if number < 10 {
        let text = seq![digit_of(number)];
        assert(text.drop_last() =~= Seq::<char>::empty());
        assert(decimal_value(text.drop_last()) == 0);
        assert(text.last() == digit_of(number));
    } else {
        law_decimal_reads_back(number / 10);
        let text = decimal(number);
        assert(text.drop_last() =~= decimal(number / 10));
        assert(text.last() == digit_of(number % 10));
        assert(decimal_value(decimal(number)) == decimal_value(decimal(number / 10)) * 10 + (
        digit_of(number % 10) as u32 - '0' as u32) as nat);
    }
}

/// Two texts are the same but for case where they are as long as each other and each letter of the
/// one is the same letter of the other, in upper or in lower case. Nothing but the letters `a` to `z`
/// has a case.
pub proof fn law_only_letters_have_a_case(left: Seq<char>, right: Seq<char>)
    ensures
        same_but_case(left, right) <==> left.len() == right.len() && forall|i: int|
            0 <= i < left.len() ==> {
                ||| #[trigger] left[i] == right[i]
                ||| 65 <= left[i] as u32 <= 90 && right[i] as u32 == left[i] as u32 + 32
                ||| 65 <= right[i] as u32 <= 90 && left[i] as u32 == right[i] as u32 + 32
            },
{
    if same_but_case(left, right) {
        assert(lowered(left).len() == lowered(right).len());
        assert forall|i: int| 0 <= i < left.len() implies {
            ||| #[trigger] left[i] == right[i]
            ||| 65 <= left[i] as u32 <= 90 && right[i] as u32 == left[i] as u32 + 32
            ||| 65 <= right[i] as u32 <= 90 && left[i] as u32 == right[i] as u32 + 32
        } by {
            assert(lowered(left)[i] == lowered(right)[i]);
        }
    }
    if left.len() == right.len() && forall|i: int|
        0 <= i < left.len() ==> {
            ||| #[trigger] left[i] == right[i]
            ||| 65 <= left[i] as u32 <= 90 && right[i] as u32 == left[i] as u32 + 32
            ||| 65 <= right[i] as u32 <= 90 && left[i] as u32 == right[i] as u32 + 32
        } {
        assert forall|i: int| 0 <= i < left.len() implies lowered(left)[i] == lowered(right)[i] by {
            assert(left[i] == left[i]);
        }
        assert(lowered(left) =~= lowered(right));
    }
}

/// A text in lower case is as long, and has no letter in upper case.
pub proof fn law_lower_case_has_no_upper_case(text: Seq<char>, at: int)
    requires
        0 <= at < text.len(),
    ensures
        lowered(text).len() == text.len(),
        !(65 <= lowered(text)[at] as u32 <= 90),
        lowered(text)[at] as u32 == if 65 <= text[at] as u32 <= 90 {
            (text[at] as u32 + 32) as u32
        } else {
            text[at] as u32
        },
{
}

/// White space, the blanks among it, letters and digits, by their numbers.
pub proof fn law_what_characters_are(c: char)
    ensures
        is_space(c) <==> 9 <= c as u32 <= 13 || c as u32 == 32 || c as u32 == 0x85 || c as u32
            == 0xa0 || c as u32 == 0x1680 || 0x2000 <= c as u32 <= 0x200a || c as u32 == 0x2028
            || c as u32 == 0x2029 || c as u32 == 0x202f || c as u32 == 0x205f || c as u32
            == 0x3000,
        is_blank(c) <==> c as u32 == 9 || c as u32 == 10 || c as u32 == 12 || c as u32 == 13
            || c as u32 == 32,
        is_letter(c) <==> 65 <= c as u32 <= 90 || 97 <= c as u32 <= 122,
        is_digit(c) <==> 48 <= c as u32 <= 57,
{
}

proof fn lemma_spaces(text: Seq<char>, from: int, to: int)
    requires
        0 <= from <= to <= text.len(),
    ensures
        from <= past_space(text, from, to) <= to,
        forall|i: int| from <= i < past_space(text, from, to) ==> is_space(#[trigger] text[i]),
        past_space(text, from, to) < to ==> !is_space(text[past_space(text, from, to)]),
        from <= before_space(text, from, to) <= to,
        forall|i: int| before_space(text, from, to) <= i < to ==> is_space(#[trigger] text[i]),
        from < before_space(text, from, to) ==> !is_space(text[before_space(text, from, to) - 1]),
    decreases to - from,
{
    if from < to {
        lemma_spaces(text, from + 1, to);
        lemma_spaces(text, from, to - 1);
    }
}

/// Trimming takes off white space and nothing else, and all of it: where the rest starts and ends is
/// what is handed back.
pub proof fn law_trimming_takes_off_white_space_alone(text: Seq<char>) -> (ends: (int, int))
    ensures
        0 <= ends.0 <= ends.1 <= text.len(),
        trimmed(text) == text.subrange(ends.0, ends.1),
        forall|i: int|
            0 <= i < text.len() && !(ends.0 <= i < ends.1) ==> is_space(#[trigger] text[i]),
        ends.0 < ends.1 ==> !is_space(text[ends.0]) && !is_space(text[ends.1 - 1]),
{
    lemma_spaces(text, 0, text.len() as int);
    let from = past_space(text, 0, text.len() as int);
    lemma_spaces(text, from, text.len() as int);
    (from, before_space(text, from, text.len() as int))
}

proof fn lemma_next_blank_of_rest(text: Seq<char>, from: int, at: int, blank: bool)
    requires
        0 <= from <= at <= text.len(),
    ensures
        next_blank(text, at, blank) == from + next_blank(
            text.subrange(from, text.len() as int),
            at - from,
            blank,
        ),
    decreases text.len() - at,
{
    let rest = text.subrange(from, text.len() as int);
    if at < text.len() {
        assert(rest[at - from] == text[at]);
        if is_blank(text[at]) != blank {
            lemma_next_blank_of_rest(text, from, at + 1, blank);
        }
    }
}

proof fn lemma_words_of_rest(text: Seq<char>, from: int, at: int)
    requires
        0 <= from <= at <= text.len(),
    ensures
        words_from(text, at) == words_from(text.subrange(from, text.len() as int), at - from),
    decreases text.len() - at,
{
    let rest = text.subrange(from, text.len() as int);
    lemma_next_blank_of_rest(text, from, at, false);
    lemma_next_blank(text, at, false);
    let start = next_blank(text, at, false);
    lemma_next_blank_of_rest(text, from, start, true);
    lemma_next_blank(text, start, true);
    let end = next_blank(text, start, true);
    if start < text.len() {
        lemma_words_of_rest(text, from, end);
        assert(text.subrange(start, end) =~= rest.subrange(start - from, end - from));
    }
}

proof fn lemma_skip(text: Seq<char>, from: int, to: int, blank: bool)
    requires
        0 <= from <= to <= text.len(),
        forall|i: int| from <= i < to ==> is_blank(#[trigger] text[i]) != blank,
        to < text.len() ==> is_blank(text[to]) == blank,
    ensures
        next_blank(text, from, blank) == to,
    decreases to - from,
{
    if from < to {
        assert(is_blank(text[from]) != blank);
        lemma_skip(text, from + 1, to, blank);
    }
}

/// A text of no word has none, blanks before a text add none, and a word with a blank after it, or
/// with nothing after it, comes whole before the words of the rest.
pub proof fn law_words_are_told_apart_by_blanks(
    blanks: Seq<char>,
    word: Seq<char>,
    rest: Seq<char>,
)
    requires
        forall|i: int|
            0 <= i < blanks.len() ==> #[trigger] blanks[i] == ' ' || blanks[i] == '\t' || blanks[i]
                == '\n' || blanks[i] == '\r' || blanks[i] == '\u{c}',
        word.len() > 0,
        forall|i: int|
            0 <= i < word.len() ==> #[trigger] word[i] != ' ' && word[i] != '\t' && word[i] != '\n'
                && word[i] != '\r' && word[i] != '\u{c}',
    ensures
        words(blanks) == Seq::<Seq<char>>::empty(),
        words(blanks + rest) == words(rest),
        words(word) == seq![word],
        blanks.len() > 0 ==> words(word + blanks + rest) == seq![word] + words(rest),
{
    let none = Seq::<char>::empty();
    // Blanks alone.
    lemma_skip(blanks, 0, blanks.len() as int, false);
    // Blanks before a text.
    let both = blanks + rest;
    lemma_next_blank_after(blanks, rest);
    lemma_words_of_rest(both, blanks.len() as int, blanks.len() as int);
    assert(both.subrange(blanks.len() as int, both.len() as int) =~= rest);
    // A word alone.
    lemma_skip(word, 0, 0, false);
    lemma_skip(word, 0, word.len() as int, true);
    lemma_skip(word, word.len() as int, word.len() as int, false);
    assert(word.subrange(0, word.len() as int) =~= word);
    assert(words_from(word, word.len() as int) =~= Seq::<Seq<char>>::empty());
    assert(words(word) =~= seq![word]);
    // A word, a blank and the rest.
    if blanks.len() > 0 {
        let all = word + blanks + rest;
        assert forall|i: int| 0 <= i < word.len() implies !is_blank(#[trigger] all[i]) by {
            assert(all[i] == word[i]);
        }
        assert(all[word.len() as int] == blanks[0]);
        lemma_skip(all, 0, 0, false);
        lemma_skip(all, 0, word.len() as int, true);
        assert(all.subrange(0, word.len() as int) =~= word);
        lemma_words_of_rest(all, word.len() as int, word.len() as int);
        assert(all.subrange(word.len() as int, all.len() as int) =~= both);
        assert(words(all) == seq![word] + words(both));
    }
}

proof fn lemma_next_blank_after(blanks: Seq<char>, rest: Seq<char>)
    requires
        forall|i: int| 0 <= i < blanks.len() ==> is_blank(#[trigger] blanks[i]),
    ensures
        words_from(blanks + rest, 0) == words_from(blanks + rest, blanks.len() as int),
{
    let both = blanks + rest;
    lemma_next_blank(both, blanks.len() as int, false);
    let start = next_blank(both, blanks.len() as int, false);
    lemma_start(both, blanks.len() as int, start);
    assert forall|i: int| 0 <= i < start implies is_blank(#[trigger] both[i]) by {
        if i < blanks.len() {
            assert(both[i] == blanks[i]);
        }
    }
    lemma_skip(both, 0, start, false);
}

proof fn lemma_start(text: Seq<char>, from: int, start: int)
    requires
        0 <= from <= text.len(),
        start == next_blank(text, from, false),
    ensures
        forall|i: int| from <= i < start ==> is_blank(#[trigger] text[i]),
    decreases text.len() - from,
{
    if from < text.len() && is_blank(text[from]) {
        lemma_start(text, from + 1, start);
    }
}

/// A number is written in its decimal digits, the last of them what is left of it by ten and the rest
/// the number without it, and no zero in front. Below zero it is a minus sign and the number without
/// its sign.
pub proof fn law_a_number_is_written_in_its_digits(number: nat)
    ensures
        decimal(number).len() >= 1,
        decimal(number).last() as u32 == 48 + number % 10,
        number >= 10 ==> decimal(number).drop_last() == decimal(number / 10),
        number < 10 ==> decimal(number).len() == 1,
        decimal(number).len() > 1 ==> decimal(number)[0] as u32 != 48,
        signed_decimal(number as int) == decimal(number),
        number > 0 ==> signed_decimal(-(number as int)) == seq!['-'] + decimal(number),
    decreases number,
{
    reveal_strlit("-");
    assert("-"@ =~= seq!['-']);
    if number >= 10 {
        law_a_number_is_written_in_its_digits(number / 10);
        let text = decimal(number);
        assert(text.drop_last() =~= decimal(number / 10));
        assert(text[0] == decimal(number / 10)[0]);
        if number / 10 < 10 {
            assert(decimal(number / 10) =~= seq![digit_of(number / 10)]);
        }
    }
}

/// A plain name starts with a letter or an underscore and goes on in letters, digits and underscores:
/// it holds no blank, no bracket, no quote and no comma.
pub proof fn law_a_plain_name_is_a_word(text: Seq<char>, at: int)
    requires
        is_plain_name(text),
        0 <= at < text.len(),
    ensures
        text.len() > 0,
        65 <= text[at] as u32 <= 90 || 97 <= text[at] as u32 <= 122 || text[at] as u32 == 95 || (at
            > 0 && 48 <= text[at] as u32 <= 57),
{
    assert(is_letter(text[at]) || is_digit(text[at]) || text[at] == '_');
}

/// A text that starts with a letter or an underscore and goes on in letters, digits and underscores
/// is a plain name.
pub proof fn law_letters_digits_and_underscores_are_a_plain_name(text: Seq<char>)
    requires
        text.len() > 0,
        !('0' <= text[0] <= '9'),
        forall|i: int|
            0 <= i < text.len() ==> 'A' <= #[trigger] text[i] <= 'Z' || 'a' <= text[i] <= 'z'
                || text[i] == '_' || '0' <= text[i] <= '9',
    ensures
        is_plain_name(text),
{
    assert forall|i: int| 0 <= i < text.len() implies is_letter(#[trigger] text[i]) || is_digit(
        text[i],
    ) || text[i] == '_' by {}
    assert(is_letter(text[0]) || text[0] == '_');
}

} // verus!

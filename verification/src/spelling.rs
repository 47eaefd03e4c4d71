//! Putting what an error names into its words.

use crate::scan::text_of_char;
use crate::types::Error;
use vstd::prelude::*;
use vstd::string::*;

verus! {

/// The rest of a message from `at` on, each `{}` of it in turn replaced by what was printed for it,
/// from the `next` on.
pub open spec fn filled(message: Seq<char>, at: nat, printed: Seq<String>, next: nat) -> Seq<char>
    decreases message.len() - at,
{
    if at >= message.len() {
        seq![]
    } else if next < printed.len() && at + 1 < message.len() && message[at as int] == '{'
        && message[(at + 1) as int] == '}' {
        printed[next as int]@ + filled(message, at + 2, printed, next + 1)
    } else {
        seq![message[at as int]] + filled(message, at + 1, printed, next)
    }
}

/// A message with nothing printed for it is the message.
proof fn lemma_nothing_printed(message: Seq<char>, at: nat, printed: Seq<String>)
    requires
        printed.len() == 0,
        at <= message.len(),
    ensures
        filled(message, at, printed, 0) == message.subrange(at as int, message.len() as int),
    decreases message.len() - at,
{
    if at < message.len() {
        lemma_nothing_printed(message, at + 1, printed);
    }
    assert(filled(message, at, printed, 0) =~= message.subrange(at as int, message.len() as int));
}

/// A message that names nothing is shown as it is.
pub proof fn law_a_message_that_names_nothing_is_shown_as_it_is(
    message: Seq<char>,
    printed: Seq<String>,
)
    requires
        printed.len() == 0,
    ensures
        filled(message, 0, printed, 0) == message,
{
    lemma_nothing_printed(message, 0, printed);
    assert(message.subrange(0, message.len() as int) =~= message);
}

impl Error {
    /// The words of the error, with what was printed for each thing it names in its place.
    pub fn text(&self, printed: &Vec<String>) -> (text: String)
        ensures
            text@ == filled(self@.message, 0, printed@, 0),
    {
        let message = self.message.as_str();
        let len: usize = message.unicode_len();
        let mut text = String::new();
        let mut at: usize = 0;
        let mut next: usize = 0;
        while at < len
            invariant
                at <= len,
                len == message@.len(),
                next <= printed@.len(),
                text@ + filled(message@, at as nat, printed@, next as nat) == filled(
                    message@,
                    0,
                    printed@,
                    0,
                ),
            decreases len - at,
        {
            let ghost rest = filled(message@, at as nat, printed@, next as nat);
            let ghost before = text@;
            if next < printed.len() && at + 1 < len && message.get_char(at) == '{'
                && message.get_char(at + 1) == '}' {
                text.append(printed[next].as_str());
                at += 2;
                next += 1;
            } else {
                let one = text_of_char(message.get_char(at));
                text.append(one.as_str());
                at += 1;
            }
            assert(text@ + filled(message@, at as nat, printed@, next as nat) =~= before + rest);
        }
        text
    }
}

/// What is left of a message depends on nothing before it.
proof fn lemma_rest(before: Seq<char>, rest: Seq<char>, at: nat, printed: Seq<String>, next: nat)
    ensures
        filled(before + rest, before.len() + at, printed, next) == filled(rest, at, printed, next),
    decreases rest.len() - at,
{
    let message = before + rest;
    if at < rest.len() {
        assert(message[(before.len() + at) as int] == rest[at as int]);
        if at + 1 < rest.len() {
            assert(message[(before.len() + at + 1) as int] == rest[(at + 1) as int]);
            lemma_rest(before, rest, at + 2, printed, next + 1);
        }
        lemma_rest(before, rest, at + 1, printed, next);
    }
}

/// Words before the first gap of a message are shown as they are.
proof fn lemma_words(words: Seq<char>, rest: Seq<char>, at: nat, printed: Seq<String>, next: nat)
    requires
        at <= words.len(),
        forall|i: int| 0 <= i < words.len() ==> #[trigger] words[i] != '{',
    ensures
        filled(words + rest, at, printed, next) == words.subrange(at as int, words.len() as int)
            + filled(rest, 0, printed, next),
    decreases words.len() - at,
{
    let message = words + rest;
    if at < words.len() {
        assert(message[at as int] == words[at as int]);
        lemma_words(words, rest, at + 1, printed, next);
        assert(words.subrange(at as int, words.len() as int) =~= seq![words[at as int]]
            + words.subrange((at + 1) as int, words.len() as int));
        assert(filled(message, at, printed, next) =~= words.subrange(
            at as int,
            words.len() as int,
        ) + filled(rest, 0, printed, next));
    } else {
        lemma_rest(words, rest, 0, printed, next);
        assert(words.subrange(at as int, words.len() as int) + filled(rest, 0, printed, next)
            =~= filled(rest, 0, printed, next));
    }
}

/// A gap of a message is filled with what was printed for it, the words before it stand before it as
/// they are, and the gaps after it take what was printed after it.
pub proof fn law_a_gap_takes_what_was_printed_for_it(
    words: Seq<char>,
    rest: Seq<char>,
    printed: Seq<String>,
    next: nat,
)
    requires
        next < printed.len(),
        forall|i: int| 0 <= i < words.len() ==> #[trigger] words[i] != '{',
    ensures
        filled(words + seq!['{', '}'] + rest, 0, printed, next) == words + printed[next as int]@
            + filled(rest, 0, printed, next + 1),
        filled(words, 0, printed, next) == words,
{
    let gap = seq!['{', '}'];
    let message = gap + rest;
    assert(words + gap + rest =~= words + message);
    lemma_words(words, message, 0, printed, next);
    assert(message[0] == '{' && message[1] == '}');
    lemma_rest(gap, rest, 0, printed, next + 1);
    assert(words.subrange(0, words.len() as int) =~= words);
    assert(words + (printed[next as int]@ + filled(rest, 0, printed, next + 1)) =~= words
        + printed[next as int]@ + filled(rest, 0, printed, next + 1));
    let none = Seq::<char>::empty();
    lemma_words(words, none, 0, printed, next);
    assert(words + none =~= words);
}

} // verus!

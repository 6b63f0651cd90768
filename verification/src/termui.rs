//! Answers typed at a terminal: what a line of input means.

use crate::text::{parse_index, parsed_number, trim, trimmed};
use vstd::prelude::*;

verus! {

/// The answer to a question that can be confirmed, refused or left.
#[derive(Debug, Clone, Copy, PartialEq, Eq, Structural)]
pub enum Confirm {
    Yes,
    No,
    Cancel,
}

/// The lower-case form of `c`, which may be more than one character.
pub uninterp spec fn lowercase(c: char) -> Seq<char>;

/// `char::to_lowercase`, collected: the characters that the lower-case mapping
/// of `c` yields. The contract only gives them their name.
#[verifier::external_body]
fn to_lowercase(c: char) -> (lower: Vec<char>)
    ensures
        lower@ == lowercase(c),
{
    c.to_lowercase().collect()
}

/// Two characters are the same letter: their lower-case forms are equal.
pub open spec fn same_letter(a: char, b: char) -> bool {
    lowercase(a) == lowercase(b)
}

/// `input` and `word` agree letter by letter as far as the shorter of them goes.
/// An empty input agrees with every word, and so does a word's first letter.
pub open spec fn letters_agree(input: Seq<char>, word: Seq<char>) -> bool {
    forall|i: int| 0 <= i < input.len() && i < word.len() ==> same_letter(input[i], word[i])
}

/// What `match_word` answers for an input and a word that are trimmed already,
/// where the input reads as `number`.
pub open spec fn word_matched(
    input: Seq<char>,
    word: Seq<char>,
    number: Option<usize>,
    index: Option<usize>,
) -> bool {
    (number is Some && number == index) || letters_agree(input, word)
}

/// Whether two characters are the same letter, whatever their case.
pub fn is_same_letter(a: char, b: char) -> (same: bool)
    ensures
        same == same_letter(a, b),
{
    let x = to_lowercase(a);
    let y = to_lowercase(b);
    if x.len() != y.len() {
        return false;
    }
    let mut i: usize = 0;
    while i < x.len()
        invariant
            i <= x@.len() == y@.len(),
            x@ == lowercase(a),
            y@ == lowercase(b),
            x@.take(i as int) == y@.take(i as int),
        decreases x@.len() - i,
    {
        if x[i] != y[i] {
            assert(x@[i as int] != y@[i as int]);
            return false;
        }
        assert(x@.take(i + 1) =~= x@.take(i as int).push(x@[i as int]));
        assert(y@.take(i + 1) =~= y@.take(i as int).push(y@[i as int]));
        i += 1;
    }
    assert(x@.take(i as int) =~= x@);
    assert(y@.take(i as int) =~= y@);
    true
}

/// Whether a trimmed input names a trimmed word: as the number that the word
/// has in a list, or by its letters.
pub fn word_matches(input: &str, word: &str, number: Option<usize>, index: Option<usize>) -> (matched:
    bool)
    ensures
        matched == word_matched(input@, word@, number, index),
{
    match (number, index) {
        (Some(n), Some(i)) => {
            if n == i {
                return true;
            }
        },
        _ => {},
    }
    let input_chars = input.unicode_len();
    let word_chars = word.unicode_len();
    let mut i: usize = 0;
    while i < input_chars && i < word_chars
        invariant
            input_chars == input@.len(),
            word_chars == word@.len(),
            i <= input_chars,
            i <= word_chars,
            !(number is Some && number == index),
            forall|j: int| 0 <= j < i ==> same_letter(input@[j], word@[j]),
        decreases input_chars - i,
    {
        if !is_same_letter(input.get_char(i), word.get_char(i)) {
            return false;
        }
        i += 1;
    }
    true
}

/// Whether `input` names `word`. Both are trimmed first. The input names the
/// word if it is the number `index`, or if it agrees with the word letter by
/// letter, whatever the case, as far as the shorter of the two goes.
pub fn match_word(input: &str, word: &str, index: Option<usize>) -> (matched: bool)
    ensures
        matched == word_matched(
            trimmed(input@),
            trimmed(word@),
            parsed_number(trimmed(input@)),
            index,
        ),
{
    let inner = trim(input);
    word_matches(inner, trim(word), parse_index(inner), index)
}

/// The line as an answer: nothing where it is blank, else the line trimmed.
pub fn try_input(line: &str) -> (answer: Option<String>)
    ensures
        match answer {
            Some(text) => text@ == trimmed(line@) && text@.len() > 0,
            None => trimmed(line@).len() == 0,
        },
{
    let inner = trim(line);
    if inner.unicode_len() == 0 {
        None
    } else {
        Some(inner.to_owned())
    }
}

/// What a line of input chooses from a list of options.
#[derive(Debug, Clone, Copy, PartialEq, Eq, Structural)]
pub enum Choice {
    /// The option at this place.
    Picked(usize),
    /// To leave without choosing.
    Cancelled,
    /// More than one option, so that the question has to be asked again.
    Ambiguous,
    /// Nothing, so that the question has to be asked again.
    Unknown,
}

/// The index that option `place` is matched with, if options are matched by
/// index at all.
pub open spec fn index_of(place: int, by_index: bool) -> Option<usize> {
    if by_index {
        Some(place as usize)
    } else {
        None
    }
}

/// The trimmed `input`, which reads as `number`, names option `place`.
pub open spec fn option_matched(
    input: Seq<char>,
    options: Seq<&str>,
    number: Option<usize>,
    by_index: bool,
    place: int,
) -> bool {
    word_matched(input, trimmed(options[place]@), number, index_of(place, by_index))
}

/// `places` are the places of the options that the input names, in their order.
pub open spec fn are_matches(
    places: Seq<usize>,
    input: Seq<char>,
    options: Seq<&str>,
    number: Option<usize>,
    by_index: bool,
) -> bool {
    &&& forall|k: int|
        0 <= k < places.len() ==> (#[trigger] places[k]) < options.len() && option_matched(
            input,
            options,
            number,
            by_index,
            places[k] as int,
        )
    &&& forall|k: int, l: int| 0 <= k < l < places.len() ==> places[k] < places[l]
    &&& forall|i: int|
        0 <= i < options.len() && option_matched(input, options, number, by_index, i)
            ==> places.contains(i as usize)
}

/// The place that `number` names in a list of `count` options that are numbered
/// from one.
pub open spec fn numbered(number: Option<usize>, count: nat) -> Option<usize> {
    match number {
        Some(n) => if 1 <= n <= count {
            Some((n - 1) as usize)
        } else {
            None
        },
        None => None,
    }
}

/// What is chosen from `count` options, where the input names the options at
/// `places` and reads as `number`: the one option that it names; nothing clear
/// where it names several; else the option that it numbers.
pub open spec fn chosen(places: Seq<usize>, number: Option<usize>, count: nat) -> Choice {
    if places.len() > 1 {
        Choice::Ambiguous
    } else if places.len() == 1 {
        Choice::Picked(places[0])
    } else {
        match numbered(number, count) {
            Some(place) => Choice::Picked(place),
            None => Choice::Unknown,
        }
    }
}

/// What is chosen where the choice may be cancelled: nothing, where the input
/// says cancel, is blank or is the number zero; else the last of the options
/// that the input names; else the option that it numbers.
pub open spec fn chosen_or_cancelled(
    cancel: bool,
    blank: bool,
    places: Seq<usize>,
    number: Option<usize>,
    count: nat,
) -> Choice {
    if cancel || blank || number == Some(0usize) {
        Choice::Cancelled
    } else if places.len() > 0 {
        Choice::Picked(places.last())
    } else {
        match numbered(number, count) {
            Some(place) => Choice::Picked(place),
            None => Choice::Unknown,
        }
    }
}

/// The places of the options that a trimmed input names, in their order. With
/// `by_index` an option is also named by the number of its place.
pub fn matching_options(input: &str, options: &[&str], number: Option<usize>, by_index: bool) -> (places:
    Vec<usize>)
    ensures
        are_matches(places@, input@, options@, number, by_index),
{
    let mut places: Vec<usize> = Vec::new();
    let mut i: usize = 0;
    while i < options.len()
        invariant
            i <= options.len(),
            forall|k: int|
                0 <= k < places@.len() ==> (#[trigger] places@[k]) < i && option_matched(
                    input@,
                    options@,
                    number,
                    by_index,
                    places@[k] as int,
                ),
            forall|k: int, l: int| 0 <= k < l < places@.len() ==> places@[k] < places@[l],
            forall|j: int|
                0 <= j < i && option_matched(input@, options@, number, by_index, j)
                    ==> places@.contains(j as usize),
        decreases options.len() - i,
    {
        let index = if by_index {
            Some(i)
        } else {
            None
        };
        let ghost before = places@;
        if word_matches(input, trim(options[i]), number, index) {
            places.push(i);
            proof {
                assert(places@[before.len() as int] == i);
                assert forall|j: int|
                    0 <= j < i + 1 && option_matched(
                        input@,
                        options@,
                        number,
                        by_index,
                        j,
                    ) implies places@.contains(j as usize) by {
                    if j < i {
                        let k = choose|k: int| 0 <= k < before.len() && before[k] == j as usize;
                        assert(places@[k] == j as usize);
                    }
                }
            }
        }
        i += 1;
    }
    places
}

/// Chooses from `count` options by the places that the input names and the
/// number that it reads as.
pub fn choose_option(places: &Vec<usize>, number: Option<usize>, count: usize) -> (choice: Choice)
    ensures
        choice == chosen(places@, number, count as nat),
{
    if places.len() > 1 {
        return Choice::Ambiguous;
    }
    if places.len() == 1 {
        return Choice::Picked(places[0]);
    }
    match number {
        Some(n) => if 1 <= n && n <= count {
            Choice::Picked(n - 1)
        } else {
            Choice::Unknown
        },
        None => Choice::Unknown,
    }
}

/// Chooses from `count` options where the choice may be cancelled.
pub fn choose_option_or_cancel(
    cancel: bool,
    blank: bool,
    places: &Vec<usize>,
    number: Option<usize>,
    count: usize,
) -> (choice: Choice)
    ensures
        choice == chosen_or_cancelled(cancel, blank, places@, number, count as nat),
{
    if cancel || blank {
        return Choice::Cancelled;
    }
    match number {
        Some(n) => {
            if n == 0 {
                return Choice::Cancelled;
            }
        },
        None => {},
    }
    if places.len() > 0 {
        return Choice::Picked(places[places.len() - 1]);
    }
    match number {
        Some(n) => if 1 <= n && n <= count {
            Choice::Picked(n - 1)
        } else {
            Choice::Unknown
        },
        None => Choice::Unknown,
    }
}

/// What a line of input chooses from the options in `list`: the one option that
/// it names by its letters, else the option whose number it is, counted from
/// one. The line is trimmed first.
pub fn options(line: &str, list: &[&str]) -> (choice: Choice)
    ensures
        exists|places: Seq<usize>|
            are_matches(places, trimmed(line@), list@, parsed_number(trimmed(line@)), false)
                && choice == chosen(places, parsed_number(trimmed(line@)), list@.len()),
{
    let inner = trim(line);
    let number = parse_index(inner);
    let places = matching_options(inner, list, number, false);
    choose_option(&places, number, list.len())
}

/// What a line of input chooses from `options` where the choice may be
/// cancelled. The line is trimmed first. Here an option is also named by the
/// number of its place, counted from zero.
pub fn try_options(line: &str, options: &[&str]) -> (choice: Choice)
    ensures
        exists|places: Seq<usize>|
            are_matches(places, trimmed(line@), options@, parsed_number(trimmed(line@)), true)
                && choice == chosen_or_cancelled(
                letters_agree(trimmed(line@), trimmed("cancel"@)),
                trimmed(line@).len() == 0,
                places,
                parsed_number(trimmed(line@)),
                options@.len(),
            ),
{
    let inner = trim(line);
    let number = parse_index(inner);
    let cancel = word_matches(inner, trim("cancel"), None, None);
    let blank = inner.unicode_len() == 0;
    let places = matching_options(inner, options, number, true);
    choose_option_or_cancel(cancel, blank, &places, number, options.len())
}

/// The trimmed `input` agrees with `word`, trimmed, letter by letter.
pub open spec fn names(input: Seq<char>, word: Seq<char>) -> bool {
    letters_agree(input, trimmed(word))
}

impl Confirm {
    /// The answer that a trimmed line gives to a question with this default.
    pub open spec fn answer(default: Confirm, line: Seq<char>) -> Confirm {
        if line.len() == 0 {
            default
        } else if names(line, Confirm::Yes.word()) {
            Confirm::Yes
        } else if names(line, Confirm::No.word()) {
            Confirm::No
        } else {
            Confirm::Cancel
        }
    }

    /// The answer that a trimmed line gives to a yes-or-no question with this
    /// default, if it gives one.
    pub open spec fn yes_or_no(default: Option<bool>, line: Seq<char>) -> Option<bool> {
        if line.len() == 0 {
            default
        } else if names(line, Confirm::Yes.word()) {
            Some(true)
        } else if names(line, Confirm::No.word()) {
            Some(false)
        } else {
            None
        }
    }

    /// The word for this answer.
    pub open spec fn word(self) -> Seq<char> {
        match self {
            Confirm::Yes => "Yes"@,
            Confirm::No => "No"@,
            Confirm::Cancel => "Cancel"@,
        }
    }

    /// The word for this answer.
    pub fn as_str(&self) -> (word: &'static str)
        ensures
            word@ == self.word(),
    {
        match self {
            Confirm::Yes => "Yes",
            Confirm::No => "No",
            Confirm::Cancel => "Cancel",
        }
    }

    /// Whether the answer is yes.
    pub fn is_ok(&self) -> (ok: bool)
        ensures
            ok == (*self == Confirm::Yes),
    {
        match self {
            Confirm::Yes => true,
            _ => false,
        }
    }

    /// The answer taken where none is given: cancel.
    pub fn default() -> (answer: Confirm)
        ensures
            answer == Confirm::Cancel,
    {
        Confirm::Cancel
    }

    /// The answer that a line of input gives to a question with this default:
    /// the default where the line is blank; else the first of yes, no and cancel
    /// whose word the line names; else cancel.
    pub fn prompt(default: &Confirm, line: &str) -> (answer: Confirm)
        ensures
            answer == Self::answer(*default, trimmed(line@)),
    {
        let inner = trim(line);
        if inner.unicode_len() == 0 {
            return *default;
        }
        if word_matches(inner, trim(Confirm::Yes.as_str()), None, None) {
            return Confirm::Yes;
        }
        if word_matches(inner, trim(Confirm::No.as_str()), None, None) {
            return Confirm::No;
        }
        if word_matches(inner, trim(Confirm::Cancel.as_str()), None, None) {
            return Confirm::Cancel;
        }
        Confirm::Cancel
    }

    /// The answer that a line of input gives to a yes-or-no question: the default
    /// where the line is blank, yes or no where the line names one of the two, yes
    /// first; nothing where the question has to be asked again.
    pub fn yesno(default: Option<bool>, line: &str) -> (answer: Option<bool>)
        ensures
            answer == Self::yes_or_no(default, trimmed(line@)),
    {
        let inner = trim(line);
        if inner.unicode_len() == 0 {
            return default;
        }
        if word_matches(inner, trim(Confirm::Yes.as_str()), None, None) {
            return Some(true);
        }
        if word_matches(inner, trim(Confirm::No.as_str()), None, None) {
            return Some(false);
        }
        None
    }
}

} // verus!

//! Building and comparing text.
use vstd::prelude::*;

verus! {

/// The digit for a number below ten.
pub open spec fn digit_char(digit: nat) -> char {
    if digit == 0 {
        '0'
    } else if digit == 1 {
        '1'
    } else if digit == 2 {
        '2'
    } else if digit == 3 {
        '3'
    } else if digit == 4 {
        '4'
    } else if digit == 5 {
        '5'
    } else if digit == 6 {
        '6'
    } else if digit == 7 {
        '7'
    } else if digit == 8 {
        '8'
    } else {
        '9'
    }
}

/// A number in decimal, without leading zeros.
pub open spec fn decimal_text(number: nat) -> Seq<char>
    decreases number,
{
    if number < 10 {
        seq![digit_char(number)]
    } else {
        decimal_text(number / 10).push(digit_char(number % 10))
    }
}

fn digit_text(digit: u64) -> (text: &'static str)
    requires
        digit < 10,
    ensures
        text@ == seq![digit_char(digit as nat)],
{
    proof {
        reveal_strlit("0");
        reveal_strlit("1");
        reveal_strlit("2");
        reveal_strlit("3");
        reveal_strlit("4");
        reveal_strlit("5");
        reveal_strlit("6");
        reveal_strlit("7");
        reveal_strlit("8");
        reveal_strlit("9");
    }
    let text = if digit == 0 {
        "0"
    } else if digit == 1 {
        "1"
    } else if digit == 2 {
        "2"
    } else if digit == 3 {
        "3"
    } else if digit == 4 {
        "4"
    } else if digit == 5 {
        "5"
    } else if digit == 6 {
        "6"
    } else if digit == 7 {
        "7"
    } else if digit == 8 {
        "8"
    } else {
        "9"
    };
    assert(text@ =~= seq![digit_char(digit as nat)]);
    text
}

/// Writes a number in decimal.
pub fn decimal(number: u64) -> (text: String)
    ensures
        text@ == decimal_text(number as nat),
    decreases number,
{
    if number < 10 {
        String::from_str(digit_text(number))
    } else {
        let mut text = decimal(number / 10);
        text.append(digit_text(number % 10));
        assert(text@ =~= decimal_text((number / 10) as nat).push(
            digit_char((number % 10) as nat),
        ));
        text
    }
}

/// Joins two texts.
pub fn join(first: &str, second: &str) -> (text: String)
    ensures
        text@ == first@ + second@,
{
    let mut text = String::from_str(first);
    text.append(second);
    text
}

/// Compares two texts.
pub fn same_text(first: &str, second: &str) -> (same: bool)
    ensures
        same == (first@ == second@),
{
    let first = String::from_str(first);
    let second = String::from_str(second);
    first == second
}

/// A text, where there is one.
pub open spec fn seen(text: Option<String>) -> Option<Seq<char>> {
    match text {
        Some(text) => Some(text@),
        None => None,
    }
}

/// Whether a text is among some texts.
pub open spec fn holds_text(texts: Seq<String>, text: Seq<char>) -> bool {
    exists|i: int| 0 <= i < texts.len() && (#[trigger] texts[i])@ == text
}

/// Looks for a text among some texts.
pub fn contains_text(texts: &[String], text: &str) -> (found: bool)
    ensures
        found == holds_text(texts@, text@),
{
    let mut index: usize = 0;
    while index < texts.len()
        invariant
            index <= texts@.len(),
            forall|i: int| 0 <= i < index ==> (#[trigger] texts@[i])@ != text@,
        decreases texts@.len() - index,
    {
        if same_text(texts[index].as_str(), text) {
            return true;
        }
        index += 1;
    }
    false
}

/// What some texts say.
pub open spec fn views(texts: Seq<String>) -> Seq<Seq<char>> {
    texts.map_values(|text: String| text@)
}

/// Some texts in one, with a separator between neighbours.
pub open spec fn joined(texts: Seq<Seq<char>>, separator: Seq<char>) -> Seq<char>
    decreases texts.len(),
{
    if texts.len() == 0 {
        Seq::empty()
    } else if texts.len() == 1 {
        texts[0]
    } else {
        joined(texts.drop_last(), separator) + separator + texts.last()
    }
}

/// Joins some texts, with a separator between neighbours.
pub fn join_all(texts: &[String], separator: &str) -> (text: String)
    ensures
        text@ == joined(views(texts@), separator@),
{
    let mut text = String::new();
    let mut index: usize = 0;
    while index < texts.len()
        invariant
            index <= texts@.len(),
            text@ == joined(views(texts@).take(index as int), separator@),
        decreases texts@.len() - index,
    {
        if index > 0 {
            text.append(separator);
        }
        text.append(texts[index].as_str());
        index += 1;
        proof {
            let taken = views(texts@).take(index as int);
            assert(taken.drop_last() =~= views(texts@).take(index - 1));
            assert(taken.last() == texts@[index - 1]@);
        }
    }
    assert(views(texts@).take(index as int) =~= views(texts@));
    text
}

/// Writes text in place of a format with one hole: what stands before it, what fills it and what
/// stands after it.
pub fn surround(before: &str, middle: &str, after: &str) -> (text: String)
    ensures
        text@ == before@ + middle@ + after@,
{
    let mut text = join(before, middle);
    text.append(after);
    text
}

/// Whether a text begins with another.
pub open spec fn begins_with(text: Seq<char>, prefix: Seq<char>) -> bool {
    prefix.len() <= text.len() && text.take(prefix.len() as int) == prefix
}

/// What follows a prefix, where a text begins with it.
pub fn strip_prefix(text: &str, prefix: &str) -> (rest: Option<String>)
    ensures
        match rest {
            Some(rest) => begins_with(text@, prefix@) && rest@ == text@.skip(
                prefix@.len() as int,
            ),
            None => !begins_with(text@, prefix@),
        },
{
    let length = text.unicode_len();
    let start = prefix.unicode_len();
    if length < start {
        return None;
    }
    if same_text(text.substring_char(0, start), prefix) {
        assert(text@.subrange(0, start as int) =~= text@.take(start as int));
        let rest = String::from_str(text.substring_char(start, length));
        assert(rest@ =~= text@.skip(start as int));
        Some(rest)
    } else {
        assert(text@.subrange(0, start as int) =~= text@.take(start as int));
        None
    }
}

/// A text without some character at its start.
pub open spec fn trimmed_start(text: Seq<char>, character: char) -> Seq<char>
    decreases text.len(),
{
    if text.len() > 0 && text[0] == character {
        trimmed_start(text.drop_first(), character)
    } else {
        text
    }
}

proof fn lemma_trimmed_start(text: Seq<char>, character: char, count: int)
    requires
        0 <= count <= text.len(),
        forall|i: int| 0 <= i < count ==> text[i] == character,
        count < text.len() ==> text[count] != character,
    ensures
        trimmed_start(text, character) == text.skip(count),
    decreases count,
{
    if count == 0 {
        assert(text.skip(0) =~= text);
    } else {
        let rest = text.drop_first();
        assert forall|i: int| 0 <= i < count - 1 implies rest[i] == character by {
            assert(rest[i] == text[i + 1]);
        }
        lemma_trimmed_start(rest, character, count - 1);
        assert(rest.skip(count - 1) =~= text.skip(count));
    }
}

/// Drops a character from the start of a text, as often as it stands there.
pub fn trim_start(text: &str, character: char) -> (trimmed: String)
    ensures
        trimmed@ == trimmed_start(text@, character),
{
    let length = text.unicode_len();
    let mut count: usize = 0;
    while count < length && text.get_char(count) == character
        invariant
            length == text@.len(),
            count <= length,
            forall|i: int| 0 <= i < count ==> text@[i] == character,
        ensures
            count < length ==> text@[count as int] != character,
        decreases length - count,
    {
        count += 1;
    }
    proof {
        lemma_trimmed_start(text@, character, count as int);
    }
    let trimmed = String::from_str(text.substring_char(count, length));
    assert(trimmed@ =~= text@.skip(count as int));
    trimmed
}

/// A copy of a text, where there is one.
pub fn copy_optional(text: &Option<String>) -> (copy: Option<String>)
    ensures
        seen(copy) == seen(*text),
{
    match text {
        Some(text) => Some(String::from_str(text.as_str())),
        None => None,
    }
}

/// `std::string::String::push` appends one character.
pub assume_specification[ String::push ](text: &mut String, character: char)
    ensures
        final(text)@ == old(text)@.push(character),
;

/// A text with every `from` replaced by `to`.
pub open spec fn replaced(text: Seq<char>, from: char, to: char) -> Seq<char> {
    text.map_values(
        |character: char|
            if character == from {
                to
            } else {
                character
            },
    )
}

/// Replaces a character throughout a text.
pub fn replace_char(text: &str, from: char, to: char) -> (changed: String)
    ensures
        changed@ == replaced(text@, from, to),
{
    let mut changed = String::new();
    for character in iter: text.chars()
        invariant
            iter.seq() == text@,
            changed@ =~= replaced(text@, from, to).take(iter.index() as int),
    {
        changed.push(
            if character == from {
                to
            } else {
                character
            },
        );
    }
    assert(changed@ =~= replaced(text@, from, to));
    changed
}

} // verus!

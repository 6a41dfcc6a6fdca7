//! Small verified string helpers and the std string calls they rest on.

use vstd::prelude::*;

use crate::error::texts;

verus! {

/// Wraps `<str as PartialEq>::eq`: two string slices are equal exactly when
/// they hold the same characters.
#[verifier::external_body]
pub(crate) fn str_equal(left: &str, right: &str) -> (equal: bool)
    ensures
        equal == (left@ == right@),
{
    left == right
}

/// Wraps `String::push`: the character is appended at the end.
#[verifier::external_body]
pub(crate) fn push_char(text: &mut String, character: char)
    ensures
        final(text)@ == old(text)@.push(character),
{
    text.push(character)
}

/// A fresh `String` holding the characters of `text`.
pub fn owned(text: &str) -> (result: String)
    ensures
        result@ == text@,
{
    String::from_str(text)
}

/// `left` followed by `right`, as a new `String`.
pub fn joined(left: &str, right: &str) -> (result: String)
    ensures
        result@ == left@ + right@,
{
    let mut result = String::from_str(left);
    result.append(right);
    result
}

} // verus!

verus! {

/// Three pieces of text, one after another.
pub fn joined3(first: &str, second: &str, third: &str) -> (result: String)
    ensures
        result@ == first@ + second@ + third@,
{
    let mut result = String::from_str(first);
    result.append(second);
    result.append(third);
    result
}

/// Five pieces of text, one after another.
pub fn joined5(first: &str, second: &str, third: &str, fourth: &str, fifth: &str) -> (result: String)
    ensures
        result@ == first@ + second@ + third@ + fourth@ + fifth@,
{
    let mut result = String::from_str(first);
    result.append(second);
    result.append(third);
    result.append(fourth);
    result.append(fifth);
    result
}

/// The decimal digits of `number`, most significant first.
pub open spec fn decimal_text(number: nat) -> Seq<char>
    decreases number,
{
    let digit = (('0' as u8) + (number % 10) as u8) as char;
    if number < 10 {
        seq![digit]
    } else {
        decimal_text(number / 10).push(digit)
    }
}

/// A 64-bit `number` written in decimal.
pub fn decimal_u64(number: u64) -> (text: String)
    ensures
        text@ == decimal_text(number as nat),
    decreases number,
{
    let digit = ((48u8 + (number % 10) as u8) as char);
    if number < 10 {
        let mut text = String::new();
        push_char(&mut text, digit);
        proof {
            assert(text@ =~= decimal_text(number as nat));
        }
        text
    } else {
        let mut text = decimal_u64(number / 10);
        push_char(&mut text, digit);
        text
    }
}

/// `number` written in decimal.
pub fn decimal(number: usize) -> (text: String)
    ensures
        text@ == decimal_text(number as nat),
    decreases number,
{
    let digit = ((48u8 + (number % 10) as u8) as char);
    if number < 10 {
        let mut text = String::new();
        push_char(&mut text, digit);
        proof {
            assert(text@ =~= decimal_text(number as nat));
        }
        text
    } else {
        let mut text = decimal(number / 10);
        push_char(&mut text, digit);
        text
    }
}

} // verus!

verus! {

/// `left` comes before `right` in lexicographic order of characters (a
/// proper prefix comes first). For strings this is the order of their UTF-8 bytes.
pub open spec fn text_less(left: Seq<char>, right: Seq<char>) -> bool
    decreases left.len(),
{
    if left.len() == 0 {
        right.len() > 0
    } else if right.len() == 0 {
        false
    } else if left[0] != right[0] {
        (left[0] as int) < (right[0] as int)
    } else {
        text_less(left.drop_first(), right.drop_first())
    }
}

/// No text comes before itself.
pub proof fn lemma_text_less_irreflexive(text: Seq<char>)
    ensures
        !text_less(text, text),
    decreases text.len(),
{
    if text.len() > 0 {
        lemma_text_less_irreflexive(text.drop_first());
    }
}

/// Of two different texts, one comes before the other, and not both ways.
pub proof fn lemma_text_less_total(left: Seq<char>, right: Seq<char>)
    ensures
        left != right ==> (text_less(left, right) || text_less(right, left)),
        !(text_less(left, right) && text_less(right, left)),
    decreases left.len(),
{
    if left.len() == 0 {
        if right.len() == 0 {
            assert(left =~= right);
        }
    } else if right.len() == 0 {
    } else if left[0] != right[0] {
    } else {
        lemma_text_less_total(left.drop_first(), right.drop_first());
        if left.drop_first() == right.drop_first() {
            assert(left =~= seq![left[0]] + left.drop_first());
            assert(right =~= seq![right[0]] + right.drop_first());
        }
    }
}

/// Inserting an element into a sequence inserts it into its set.
pub proof fn lemma_insert_to_set<A>(items: Seq<A>, index: int, item: A)
    requires
        0 <= index <= items.len(),
    ensures
        items.insert(index, item).to_set() == items.to_set().insert(item),
{
    let after = items.insert(index, item);
    assert forall|x: A| after.to_set().contains(x) implies items.to_set().insert(item).contains(x) by {
        let k = choose|k: int| 0 <= k < after.len() && after[k] == x;
        if k < index {
            assert(items[k] == x);
        } else if k > index {
            assert(items[k - 1] == x);
        }
    }
    assert forall|x: A| items.to_set().insert(item).contains(x) implies after.to_set().contains(x) by {
        if x == item {
            assert(after[index] == item);
        } else {
            let k = choose|k: int| 0 <= k < items.len() && items[k] == x;
            if k < index {
                assert(after[k] == x);
            } else {
                assert(after[k + 1] == x);
            }
        }
    }
    assert(after.to_set() =~= items.to_set().insert(item));
}

/// The order is transitive.
pub proof fn lemma_text_less_transitive(first: Seq<char>, second: Seq<char>, third: Seq<char>)
    requires
        text_less(first, second),
        text_less(second, third),
    ensures
        text_less(first, third),
    decreases first.len(),
{
    if first.len() > 0 && second.len() > 0 && third.len() > 0 {
        if first[0] == second[0] && second[0] == third[0] {
            lemma_text_less_transitive(first.drop_first(), second.drop_first(), third.drop_first());
        }
    }
}

/// The texts are in strictly increasing order (so no text occurs twice).
pub open spec fn strictly_sorted(items: Seq<Seq<char>>) -> bool {
    forall|i: int, j: int| 0 <= i < j < items.len() ==> text_less(#[trigger] items[i], #[trigger] items[j])
}

/// Whether `left` comes before `right`.
pub fn less_text(left: &str, right: &str) -> (less: bool)
    ensures
        less == text_less(left@, right@),
{
    let left_len = left.unicode_len();
    let right_len = right.unicode_len();
    let mut index: usize = 0;
    proof {
        assert(left@.skip(0) =~= left@);
        assert(right@.skip(0) =~= right@);
    }
    while index < left_len && index < right_len
        invariant
            left_len == left@.len(),
            right_len == right@.len(),
            0 <= index <= left_len,
            index <= right_len,
            text_less(left@, right@) == text_less(left@.skip(index as int), right@.skip(index as int)),
        decreases left_len - index,
    {
        let a = left.get_char(index);
        let b = right.get_char(index);
        proof {
            let l = left@.skip(index as int);
            let r = right@.skip(index as int);
            assert(l[0] == a && r[0] == b);
            assert(l.drop_first() =~= left@.skip(index + 1));
            assert(r.drop_first() =~= right@.skip(index + 1));
        }
        if a != b {
            return (a as u32) < (b as u32);
        }
        index = index + 1;
    }
    proof {
        let l = left@.skip(index as int);
        let r = right@.skip(index as int);
        assert(l.len() == left_len - index);
        assert(r.len() == right_len - index);
    }
    index < right_len
}

/// The distinct texts of `items`, in increasing order.
pub fn sorted_distinct(items: &Vec<String>) -> (sorted: Vec<String>)
    ensures
        strictly_sorted(texts(sorted@)),
        texts(sorted@).to_set() == texts(items@).to_set(),
{
    let mut sorted: Vec<String> = Vec::new();
    let mut index: usize = 0;
    while index < items.len()
        invariant
            0 <= index <= items.len(),
            strictly_sorted(texts(sorted@)),
            texts(sorted@).to_set() == texts(items@.take(index as int)).to_set(),
        decreases items.len() - index,
    {
        let item = &items[index];
        let ghost current = texts(sorted@);
        let mut position: usize = 0;
        while position < sorted.len() && less_text(sorted[position].as_str(), item.as_str())
            invariant
                0 <= position <= sorted.len(),
                current == texts(sorted@),
                forall|j: int| 0 <= j < position ==> text_less(#[trigger] current[j], item@),
            decreases sorted.len() - position,
        {
            proof {
                assert(current[position as int] == sorted@[position as int]@);
            }
            position = position + 1;
        }
        proof {
            assert(texts(items@.take(index + 1)) =~= texts(items@.take(index as int)).push(
                item@,
            ));
            texts(items@.take(index as int)).lemma_push_to_set_commute(item@);
        }
        let present = position < sorted.len() && str_equal(sorted[position].as_str(), item.as_str());
        proof {
            if position < sorted.len() {
                assert(current[position as int] == sorted@[position as int]@);
            }
        }
        if !present {
            let ghost before = current;
            sorted.insert(position, item.clone());
            proof {
                let after = texts(sorted@);
                assert(after =~= before.insert(position as int, item@));
                if position < before.len() {
                    lemma_text_less_total(before[position as int], item@);
                }
                assert forall|i: int, j: int| 0 <= i < j < after.len() implies text_less(
                    #[trigger] after[i],
                    #[trigger] after[j],
                ) by {
                    if j < position {
                        assert(after[i] == before[i] && after[j] == before[j]);
                    } else if i < position && j == position {
                        assert(after[i] == before[i] && after[j] == item@);
                    } else if i < position && j > position {
                        assert(after[i] == before[i] && after[j] == before[j - 1]);
                    } else if i == position {
                        assert(after[j] == before[j - 1]);
                        assert(text_less(item@, before[position as int]));
                        if j - 1 > position {
                            lemma_text_less_transitive(item@, before[position as int], before[j - 1]);
                        }
                    } else {
                        assert(after[i] == before[i - 1]);
                        assert(after[j] == before[j - 1]);
                    }
                }
                lemma_insert_to_set(before, position as int, item@);

            }
        } else {
            proof {
                assert(current[position as int] == item@);
                assert(current.to_set().contains(item@));
                assert(current.to_set() =~= current.to_set().insert(item@));
            }
        }
        index = index + 1;
    }
    proof {
        lemma_take_texts(items@);
    }
    sorted
}

proof fn lemma_take_texts(items: Seq<String>)
    ensures
        items.take(items.len() as int) == items,
{
    assert(items.take(items.len() as int) =~= items);
}

} // verus!

verus! {

/// The texts of `set` in strictly increasing order.
pub open spec fn sorted_texts(set: Set<Seq<char>>) -> Seq<Seq<char>> {
    choose|items: Seq<Seq<char>>| strictly_sorted(items) && items.to_set() == set
}

/// A strictly sorted sequence is the only one with its set of elements.
pub proof fn lemma_sorted_unique(left: Seq<Seq<char>>, right: Seq<Seq<char>>)
    requires
        strictly_sorted(left),
        strictly_sorted(right),
        left.to_set() == right.to_set(),
    ensures
        left == right,
    decreases left.len(),
{
    if left.len() == 0 {
        if right.len() > 0 {
            assert(right.to_set().contains(right[0]));
        }
        assert(left =~= right);
    } else {
        assert(left.to_set().contains(left[0]));
        assert(right.len() > 0);
        assert(right.to_set().contains(right[0]));
        let k = choose|k: int| 0 <= k < right.len() && right[k] == left[0];
        let m = choose|m: int| 0 <= m < left.len() && left[m] == right[0];
        if k > 0 {
            assert(text_less(right[0], right[k]));
            if m > 0 {
                assert(text_less(left[0], left[m]));
                lemma_text_less_total(left[0], left[m]);
            } else {
                lemma_text_less_irreflexive(left[0]);
            }
        }
        assert(left[0] == right[0]);
        let left_rest = left.drop_first();
        let right_rest = right.drop_first();
        assert forall|x: Seq<char>| left_rest.to_set().contains(x) implies right_rest.to_set().contains(x) by {
            let i = choose|i: int| 0 <= i < left_rest.len() && left_rest[i] == x;
            assert(left.to_set().contains(x)) by {
                assert(left[i + 1] == x);
            }
            let j = choose|j: int| 0 <= j < right.len() && right[j] == x;
            if j == 0 {
                assert(text_less(left[0], left[i + 1]));
                lemma_text_less_irreflexive(left[0]);
            }
            assert(right_rest[j - 1] == x);
        }
        assert forall|x: Seq<char>| right_rest.to_set().contains(x) implies left_rest.to_set().contains(x) by {
            let j = choose|j: int| 0 <= j < right_rest.len() && right_rest[j] == x;
            assert(right.to_set().contains(x)) by {
                assert(right[j + 1] == x);
            }
            let i = choose|i: int| 0 <= i < left.len() && left[i] == x;
            if i == 0 {
                assert(text_less(right[0], right[j + 1]));
                lemma_text_less_irreflexive(right[0]);
            }
            assert(left_rest[i - 1] == x);
        }
        assert(left_rest.to_set() =~= right_rest.to_set());
        lemma_sorted_unique(left_rest, right_rest);
        assert(left.len() == right.len());
        assert forall|i: int| 0 <= i < left.len() implies left[i] == right[i] by {
            if i > 0 {
                assert(left[i] == left_rest[i - 1]);
                assert(right[i] == right_rest[i - 1]);
            }
        }
        assert(left =~= right);
    }
}

/// A strictly sorted sequence with the elements of `set` is `sorted_texts(set)`.
pub proof fn lemma_sorted_texts(items: Seq<Seq<char>>, set: Set<Seq<char>>)
    requires
        strictly_sorted(items),
        items.to_set() == set,
    ensures
        sorted_texts(set) == items,
{
    let chosen = sorted_texts(set);
    assert(strictly_sorted(chosen) && chosen.to_set() == set);
    lemma_sorted_unique(chosen, items);
}

} // verus!

verus! {

/// Whether a character has the Unicode `White_Space` property, as
/// `char::is_whitespace` decides it: the 25 code points U+0009 to U+000D,
/// U+0020, U+0085, U+00A0, U+1680, U+2000 to U+200A, U+2028, U+2029, U+202F,
/// U+205F and U+3000.
pub open spec fn white_space(character: char) -> bool {
    let code = character as u32;
    ||| 0x9 <= code <= 0xd
    ||| code == 0x20
    ||| code == 0x85
    ||| code == 0xa0
    ||| code == 0x1680
    ||| 0x2000 <= code <= 0x200a
    ||| code == 0x2028
    ||| code == 0x2029
    ||| code == 0x202f
    ||| code == 0x205f
    ||| code == 0x3000
}

/// Whether the character has the `White_Space` property, as
/// `char::is_whitespace` decides it.
pub(crate) fn is_whitespace(character: char) -> (white: bool)
    ensures
        white == white_space(character),
{
    let code = character as u32;
    (0x9 <= code && code <= 0xd) || code == 0x20 || code == 0x85 || code == 0xa0 || code == 0x1680 || (0x2000
        <= code && code <= 0x200a) || code == 0x2028 || code == 0x2029 || code == 0x202f || code == 0x205f || code
        == 0x3000
}

/// Index of the first character that is not white space (the length if none).
pub open spec fn trim_start_index(text: Seq<char>) -> int
    decreases text.len(),
{
    if text.len() == 0 || !white_space(text[0]) {
        0
    } else {
        1 + trim_start_index(text.drop_first())
    }
}

/// Index just past the last character that is not white space (0 if none).
pub open spec fn trim_end_index(text: Seq<char>) -> int
    decreases text.len(),
{
    if text.len() == 0 || !white_space(text.last()) {
        text.len() as int
    } else {
        trim_end_index(text.drop_last())
    }
}

/// `text` without its leading and trailing white space, as `str::trim` gives it.
pub open spec fn trimmed(text: Seq<char>) -> Seq<char> {
    let start = trim_start_index(text);
    let end = trim_end_index(text);
    if start >= end {
        Seq::empty()
    } else {
        text.subrange(start, end)
    }
}

/// Where the leading white space ends.
proof fn lemma_trim_start(text: Seq<char>, index: int)
    requires
        0 <= index <= text.len(),
        forall|i: int| 0 <= i < index ==> white_space(#[trigger] text[i]),
    ensures
        trim_start_index(text) == index + trim_start_index(text.skip(index)),
    decreases index,
{
    if index > 0 {
        assert(text.skip(index) =~= text.drop_first().skip(index - 1));
        assert forall|i: int| 0 <= i < index - 1 implies white_space(#[trigger] text.drop_first()[i]) by {
            assert(text.drop_first()[i] == text[i + 1]);
        }
        lemma_trim_start(text.drop_first(), index - 1);
    } else {
        assert(text.skip(0) =~= text);
    }
}

/// Where the trailing white space starts.
proof fn lemma_trim_end(text: Seq<char>, end: int)
    requires
        0 <= end <= text.len(),
        forall|i: int| end <= i < text.len() ==> white_space(#[trigger] text[i]),
    ensures
        trim_end_index(text) == trim_end_index(text.take(end)),
    decreases text.len() - end,
{
    if end < text.len() {
        assert(text.drop_last().take(end) =~= text.take(end));
        assert forall|i: int| end <= i < text.drop_last().len() implies white_space(
            #[trigger] text.drop_last()[i],
        ) by {
            assert(text.drop_last()[i] == text[i]);
        }
        lemma_trim_end(text.drop_last(), end);
    } else {
        assert(text.take(end) =~= text);
    }
}

/// The bounds of `text` without its leading and trailing white space.
pub fn trim_bounds(text: &str) -> (bounds: (usize, usize))
    ensures
        bounds.0 == trim_start_index(text@),
        bounds.1 == trim_end_index(text@),
        bounds.0 <= text@.len(),
        bounds.1 <= text@.len(),
        bounds.0 < bounds.1 ==> text@.subrange(bounds.0 as int, bounds.1 as int) == trimmed(text@),
        bounds.0 >= bounds.1 ==> trimmed(text@) == Seq::<char>::empty(),
{
    let length = text.unicode_len();
    let mut start: usize = 0;
    while start < length && is_whitespace(text.get_char(start))
        invariant
            0 <= start <= length,
            length == text@.len(),
            forall|i: int| 0 <= i < start ==> white_space(#[trigger] text@[i]),
        decreases length - start,
    {
        start = start + 1;
    }
    proof {
        lemma_trim_start(text@, start as int);
        let rest = text@.skip(start as int);
        if start < length {
            assert(rest[0] == text@[start as int]);
        }
    }
    let mut end: usize = length;
    while end > 0 && is_whitespace(text.get_char(end - 1))
        invariant
            0 <= end <= length,
            length == text@.len(),
            forall|i: int| end <= i < length ==> white_space(#[trigger] text@[i]),
        decreases end,
    {
        end = end - 1;
    }
    proof {
        lemma_trim_end(text@, end as int);
        let front = text@.take(end as int);
        if end > 0 {
            assert(front.last() == text@[end as int - 1]);
        }
    }
    (start, end)
}

/// `text` without its leading and trailing white space.
pub fn trim(text: &str) -> (result: &str)
    ensures
        result@ == trimmed(text@),
{
    let (start, end) = trim_bounds(text);
    if start < end {
        text.substring_char(start, end)
    } else {
        proof {
            reveal_strlit("");
        }
        ""
    }
}

} // verus!

verus! {

/// Whether a character is alphabetic or numeric in Unicode's sense, as
/// `char::is_alphanumeric` decides it.
pub uninterp spec fn alphanumeric(character: char) -> bool;

/// Wraps `char::is_alphanumeric`.
#[verifier::external_body]
pub(crate) fn is_alphanumeric(character: char) -> (result: bool)
    ensures
        result == alphanumeric(character),
{
    character.is_alphanumeric()
}

/// The characters of `text`, one per element.
pub fn chars_of(text: &str) -> (characters: Vec<char>)
    ensures
        characters@ == text@,
{
    let length = text.unicode_len();
    let mut characters: Vec<char> = Vec::new();
    let mut index: usize = 0;
    while index < length
        invariant
            0 <= index <= length,
            length == text@.len(),
            characters@ == text@.take(index as int),
        decreases length - index,
    {
        characters.push(text.get_char(index));
        index = index + 1;
        proof {
            assert(characters@ =~= text@.take(index as int));
        }
    }
    proof {
        assert(text@.take(length as int) =~= text@);
    }
    characters
}

/// A `String` holding `characters[start..end]`.
pub fn string_of(characters: &Vec<char>, start: usize, end: usize) -> (text: String)
    requires
        start <= end <= characters@.len(),
    ensures
        text@ == characters@.subrange(start as int, end as int),
{
    let mut text = String::new();
    let mut index: usize = start;
    while index < end
        invariant
            start <= index <= end,
            end <= characters@.len(),
            text@ == characters@.subrange(start as int, index as int),
        decreases end - index,
    {
        push_char(&mut text, characters[index]);
        index = index + 1;
        proof {
            assert(text@ =~= characters@.subrange(start as int, index as int));
        }
    }
    text
}

} // verus!

verus! {

/// `sorted` with `text` put in its place (unchanged when it is already there).
pub open spec fn insert_sorted(sorted: Seq<Seq<char>>, text: Seq<char>) -> Seq<Seq<char>>
    decreases sorted.len(),
{
    if sorted.len() == 0 {
        seq![text]
    } else if text == sorted[0] {
        sorted
    } else if text_less(text, sorted[0]) {
        seq![text] + sorted
    } else {
        seq![sorted[0]] + insert_sorted(sorted.drop_first(), text)
    }
}

/// Inserting keeps the order and adds exactly the text.
pub proof fn lemma_insert_sorted(sorted: Seq<Seq<char>>, text: Seq<char>)
    requires
        strictly_sorted(sorted),
    ensures
        strictly_sorted(insert_sorted(sorted, text)),
        insert_sorted(sorted, text).to_set() == sorted.to_set().insert(text),
    decreases sorted.len(),
{
    let result = insert_sorted(sorted, text);
    if sorted.len() == 0 {
        assert(result.to_set() =~= sorted.to_set().insert(text)) by {
            assert(result[0] == text);
        }
    } else if text == sorted[0] {
        assert(sorted.to_set().contains(sorted[0]));
        assert(result.to_set() =~= sorted.to_set().insert(text));
    } else if text_less(text, sorted[0]) {
        assert forall|i: int, j: int| 0 <= i < j < result.len() implies text_less(
            #[trigger] result[i],
            #[trigger] result[j],
        ) by {
            if i == 0 {
                assert(result[j] == sorted[j - 1]);
                if j - 1 > 0 {
                    assert(text_less(sorted[0], sorted[j - 1]));
                    lemma_text_less_transitive(text, sorted[0], sorted[j - 1]);
                }
            } else {
                assert(result[i] == sorted[i - 1] && result[j] == sorted[j - 1]);
            }
        }
        assert forall|x: Seq<char>| result.to_set().contains(x) == sorted.to_set().insert(text).contains(x) by {
            if result.to_set().contains(x) {
                let k = choose|k: int| 0 <= k < result.len() && result[k] == x;
                if k > 0 {
                    assert(sorted[k - 1] == x);
                }
            }
            if sorted.to_set().contains(x) {
                let k = choose|k: int| 0 <= k < sorted.len() && sorted[k] == x;
                assert(result[k + 1] == x);
            }
            if x == text {
                assert(result[0] == x);
            }
        }
        assert(result.to_set() =~= sorted.to_set().insert(text));
    } else {
        lemma_text_less_total(text, sorted[0]);
        let rest = sorted.drop_first();
        assert(strictly_sorted(rest)) by {
            assert forall|i: int, j: int| 0 <= i < j < rest.len() implies text_less(
                #[trigger] rest[i],
                #[trigger] rest[j],
            ) by {
                assert(rest[i] == sorted[i + 1] && rest[j] == sorted[j + 1]);
            }
        }
        lemma_insert_sorted(rest, text);
        let inserted = insert_sorted(rest, text);
        assert(result == seq![sorted[0]] + inserted);
        assert forall|x: Seq<char>| inserted.to_set().contains(x) implies text_less(sorted[0], x) by {
            if x == text {
            } else {
                assert(rest.to_set().contains(x));
                let k = choose|k: int| 0 <= k < rest.len() && rest[k] == x;
                assert(sorted[k + 1] == x);
            }
        }
        assert forall|i: int, j: int| 0 <= i < j < result.len() implies text_less(
            #[trigger] result[i],
            #[trigger] result[j],
        ) by {
            if i == 0 {
                assert(result[j] == inserted[j - 1]);
                assert(inserted.to_set().contains(inserted[j - 1]));
            } else {
                assert(result[i] == inserted[i - 1] && result[j] == inserted[j - 1]);
            }
        }
        assert forall|x: Seq<char>| result.to_set().contains(x) == sorted.to_set().insert(text).contains(x) by {
            if result.to_set().contains(x) {
                let k = choose|k: int| 0 <= k < result.len() && result[k] == x;
                if k > 0 {
                    assert(inserted[k - 1] == x);
                    assert(inserted.to_set().contains(x));
                    if x != text {
                        assert(rest.to_set().contains(x));
                        let m = choose|m: int| 0 <= m < rest.len() && rest[m] == x;
                        assert(sorted[m + 1] == x);
                    }
                } else {
                    assert(sorted[0] == x);
                }
            }
            if sorted.to_set().contains(x) {
                let k = choose|k: int| 0 <= k < sorted.len() && sorted[k] == x;
                if k == 0 {
                    assert(result[0] == x);
                } else {
                    assert(rest[k - 1] == x);
                    assert(rest.to_set().contains(x));
                    assert(inserted.to_set().contains(x));
                    let m = choose|m: int| 0 <= m < inserted.len() && inserted[m] == x;
                    assert(result[m + 1] == x);
                }
            }
            if x == text {
                assert(inserted.to_set().contains(x));
                let m = choose|m: int| 0 <= m < inserted.len() && inserted[m] == x;
                assert(result[m + 1] == x);
            }
        }
        assert(result.to_set() =~= sorted.to_set().insert(text));
    }
}

/// Every list of texts has a strictly sorted arrangement of its distinct
/// texts, so `sorted_texts` of its set holds exactly that set.
pub proof fn lemma_sorted_texts_of(items: Seq<Seq<char>>)
    ensures
        strictly_sorted(sorted_texts(items.to_set())),
        sorted_texts(items.to_set()).to_set() == items.to_set(),
    decreases items.len(),
{
    let witness = sorted_of(items);
    lemma_sorted_of(items);
    assert(strictly_sorted(witness) && witness.to_set() == items.to_set());
}

/// The texts of `items`, inserted one by one into a sorted list.
pub open spec fn sorted_of(items: Seq<Seq<char>>) -> Seq<Seq<char>>
    decreases items.len(),
{
    if items.len() == 0 {
        Seq::empty()
    } else {
        insert_sorted(sorted_of(items.drop_last()), items.last())
    }
}

/// `sorted_of` is strictly sorted and holds the texts of `items`.
pub proof fn lemma_sorted_of(items: Seq<Seq<char>>)
    ensures
        strictly_sorted(sorted_of(items)),
        sorted_of(items).to_set() == items.to_set(),
    decreases items.len(),
{
    if items.len() == 0 {
        assert(sorted_of(items).to_set() =~= items.to_set());
    } else {
        lemma_sorted_of(items.drop_last());
        lemma_insert_sorted(sorted_of(items.drop_last()), items.last());
        assert(items =~= items.drop_last().push(items.last()));
        items.drop_last().lemma_push_to_set_commute(items.last());
    }
}

} // verus!

//! Text as sequences of characters: the character classes and the small string
//! operations that the rest of the library is stated with.
use vstd::prelude::*;

verus! {

// ---------------------------------------------------------------------------
// Character classes and case
// ---------------------------------------------------------------------------
/// The Unicode `White_Space` property.
pub open spec fn white_space(character: char) -> bool {
    let code = character as u32;
    ||| 0x09 <= code <= 0x0d
    ||| code == 0x20
    ||| code == 0x85
    ||| code == 0xa0
    ||| code == 0x1680
    ||| 0x2000 <= code <= 0x200a
    ||| code == 0x2028
    ||| code == 0x2029
    ||| code == 0x202f
    ||| code == 0x205f
    ||| code == 0x3000
}

/// The Unicode general category `Cc`.
pub open spec fn control(character: char) -> bool {
    let code = character as u32;
    code <= 0x1f || 0x7f <= code <= 0x9f
}

/// What `char::is_alphanumeric` answers. Contracts speak of `in_word`.
pub uninterp spec fn alphanumeric(character: char) -> bool;

/// What `str::to_lowercase` makes of a text. Contracts speak of `lowered`.
pub uninterp spec fn lowercase(value: Seq<char>) -> Seq<char>;

/// The lowercase form of one ASCII letter; every other character is kept.
pub open spec fn ascii_lower(character: char) -> char {
    if 'A' <= character <= 'Z' {
        (character as u32 + 32) as char
    } else {
        character
    }
}

/// `ascii_lower` on every character.
pub open spec fn ascii_lowercase(value: Seq<char>) -> Seq<char> {
    value.map_values(|character: char| ascii_lower(character))
}

/// The text in lowercase. On ASCII text this is `ascii_lowercase`; the Unicode
/// mappings for other texts go by the name `lowercase`.
pub open spec fn lowered(value: Seq<char>) -> Seq<char> {
    if vstd::utf8::is_ascii_chars(value) {
        ascii_lowercase(value)
    } else {
        lowercase(value)
    }
}

/// An ASCII letter or digit.
pub open spec fn ascii_alphanumeric(character: char) -> bool {
    '0' <= character <= '9' || 'A' <= character <= 'Z' || 'a' <= character <= 'z'
}

/// A character that belongs to a word: a letter or a digit. Beyond ASCII these go
/// by the name `alphanumeric`.
pub open spec fn in_word(character: char) -> bool {
    if (character as u32) < 128 {
        ascii_alphanumeric(character)
    } else {
        alphanumeric(character)
    }
}

/// `char::is_whitespace`: true of exactly the characters with the Unicode
/// property `White_Space`.
pub assume_specification[ char::is_whitespace ](character: char) -> (answer: bool)
    ensures
        answer == white_space(character),
;

/// `char::is_control`: true of exactly the characters of the Unicode general
/// category `Cc`, which is fixed for good.
pub assume_specification[ char::is_control ](character: char) -> (answer: bool)
    ensures
        answer == control(character),
;

/// `char::is_alphanumeric`: the answer depends on the character alone, and of the
/// ASCII characters it is true of the letters and digits. Which other characters
/// are alphabetic or numeric is in the Unicode tables and is not written out here.
pub assume_specification[ char::is_alphanumeric ](character: char) -> (answer: bool)
    ensures
        answer == alphanumeric(character),
        (character as u32) < 128 ==> answer == ascii_alphanumeric(character),
;

/// `str::to_lowercase`: the result depends on the text alone. On ASCII text it
/// maps `A` to `Z` to `a` to `z` and keeps the rest; the other Unicode mappings,
/// which may lengthen a text, are not written out here. Nor is it claimed that
/// they leave alone what is in lowercase already.
pub assume_specification[ str::to_lowercase ](value: &str) -> (result: String)
    ensures
        result@ == lowercase(value@),
        vstd::utf8::is_ascii_chars(value@) ==> result@ == ascii_lowercase(value@),
;

/// `String::push`: appends one character.
pub assume_specification[ String::push ](value: &mut String, character: char)
    ensures
        final(value)@ == old(value)@.push(character),
;

/// `String::pop`: takes the last character off and returns it; `None` on an
/// empty string, which stays empty.
pub assume_specification[ String::pop ](value: &mut String) -> (last: Option<char>)
    ensures
        old(value)@.len() == 0 ==> last is None && final(value)@ == old(value)@,
        old(value)@.len() > 0 ==> last == Some(old(value)@.last()) && final(value)@
            == old(value)@.drop_last(),
;

/// `value` in lowercase.
pub fn lower(value: &str) -> (low: String)
    ensures
        low@ == lowered(value@),
{
    value.to_lowercase()
}

/// The character is a letter or a digit.
pub fn is_in_word(character: char) -> (answer: bool)
    ensures
        answer == in_word(character),
{
    character.is_alphanumeric()
}

/// Two texts are the same but for the case of their letters: they are the same in
/// lowercase.
pub open spec fn same_but_for_case(left: Seq<char>, right: Seq<char>) -> bool {
    lowered(left) == lowered(right)
}

/// As many texts on both sides, and each the same as its counterpart but for case.
pub open spec fn all_same_but_for_case(left: Seq<Seq<char>>, right: Seq<Seq<char>>) -> bool {
    &&& left.len() == right.len()
    &&& forall|i: int| 0 <= i < left.len() ==> same_but_for_case(#[trigger] left[i], right[i])
}

/// Both texts are absent, or they are the same but for case.
pub open spec fn optional_same_but_for_case(
    left: Option<Seq<char>>,
    right: Option<Seq<char>>,
) -> bool {
    match (left, right) {
        (Some(one), Some(other)) => same_but_for_case(one, other),
        (None, None) => true,
        _ => false,
    }
}

/// An ASCII text in lowercase is the same but for case, and lowering it once more
/// changes nothing.
pub proof fn lowering_twice_is_lowering_once(value: Seq<char>)
    requires
        vstd::utf8::is_ascii_chars(value),
    ensures
        vstd::utf8::is_ascii_chars(lowered(value)),
        lowered(lowered(value)) == lowered(value),
        same_but_for_case(value, lowered(value)),
{
    let low = ascii_lowercase(value);
    assert forall|i: int| 0 <= i < low.len() implies '\0' <= #[trigger] low[i] <= '\u{7f}' by {
        assert('\0' <= value[i] <= '\u{7f}');
    }
    assert(ascii_lowercase(low) == low);
}

// ---------------------------------------------------------------------------
// Between strings and vectors of characters
// ---------------------------------------------------------------------------
/// The contents of several strings.
pub open spec fn texts(values: Seq<String>) -> Seq<Seq<char>> {
    values.map_values(|value: String| value@)
}

/// The contents of a string that may be absent.
pub open spec fn optional_text(value: Option<String>) -> Option<Seq<char>> {
    match value {
        Some(text) => Some(text@),
        None => None,
    }
}

/// The characters of `value`, in order.
pub fn chars_of(value: &str) -> (chars: Vec<char>)
    ensures
        chars@ == value@,
{
    let mut chars: Vec<char> = Vec::new();
    for character in iter: value.chars()
        invariant
            chars@ == iter.seq().take(iter.index()),
            iter.seq() == value@,
    {
        chars.push(character);
    }
    chars
}

/// The string made of `chars[from..to]`.
pub fn string_between(chars: &Vec<char>, from: usize, to: usize) -> (value: String)
    requires
        from <= to <= chars@.len(),
    ensures
        value@ == chars@.subrange(from as int, to as int),
{
    let mut value = String::new();
    let mut next: usize = from;
    while next < to
        invariant
            from <= next <= to <= chars@.len(),
            value@ == chars@.subrange(from as int, next as int),
        decreases to - next,
    {
        value.push(chars[next]);
        next = next + 1;
    }
    value
}

/// Two strings hold the same characters.
pub fn same_text(left: &str, right: &str) -> (same: bool)
    ensures
        same == (left@ == right@),
{
    left.to_owned() == right.to_owned()
}

/// One of the strings holds the same characters as `wanted`.
pub fn contains_text(values: &Vec<String>, wanted: &String) -> (found: bool)
    ensures
        found == texts(values@).contains(wanted@),
{
    let mut next: usize = 0;
    while next < values.len()
        invariant
            next <= values@.len(),
            forall|i: int| 0 <= i < next ==> (#[trigger] values@[i])@ != wanted@,
        decreases values@.len() - next,
    {
        if values[next] == *wanted {
            assert(texts(values@)[next as int] == wanted@);
            return true;
        }
        next = next + 1;
    }
    assert(forall|i: int|
        0 <= i < values@.len() ==> #[trigger] texts(values@)[i] == values@[i]@);
    false
}

/// `left` followed by `right`.
pub fn joined(left: &str, right: &str) -> (both: String)
    ensures
        both@ == left@ + right@,
{
    let mut both = left.to_owned();
    both.append(right);
    both
}

// ---------------------------------------------------------------------------
// Blank text, trimming, words
// ---------------------------------------------------------------------------
/// Nothing is left of the text once it is trimmed.
pub open spec fn blank(value: Seq<char>) -> bool {
    forall|i: int| 0 <= i < value.len() ==> white_space(#[trigger] value[i])
}

/// How many white space characters the text starts with.
pub open spec fn leading_space(value: Seq<char>) -> nat
    decreases value.len(),
{
    if value.len() > 0 && white_space(value[0]) {
        1 + leading_space(value.skip(1))
    } else {
        0
    }
}

/// How many characters come before the first white space.
pub open spec fn word_length(value: Seq<char>) -> nat
    decreases value.len(),
{
    if value.len() > 0 && !white_space(value[0]) {
        1 + word_length(value.skip(1))
    } else {
        0
    }
}

/// The text without the white space at its end.
pub open spec fn trimmed_end(value: Seq<char>) -> Seq<char>
    decreases value.len(),
{
    if value.len() > 0 && white_space(value.last()) {
        trimmed_end(value.drop_last())
    } else {
        value
    }
}

/// The text without the white space at both ends.
pub open spec fn trimmed(value: Seq<char>) -> Seq<char> {
    trimmed_end(value.skip(leading_space(value) as int))
}

/// The maximal runs of characters that are not white space, in order.
pub open spec fn words(value: Seq<char>) -> Seq<Seq<char>>
    decreases value.len(),
    via words_decreases
{
    let start = leading_space(value) as int;
    let rest = value.skip(start);
    if rest.len() == 0 {
        Seq::empty()
    } else {
        let length = word_length(rest) as int;
        seq![rest.take(length)] + words(rest.skip(length))
    }
}

#[via_fn]
proof fn words_decreases(value: Seq<char>) {
    lemma_leading_space(value);
    let rest = value.skip(leading_space(value) as int);
    lemma_word_length(rest);
}

proof fn lemma_leading_space(value: Seq<char>)
    ensures
        leading_space(value) <= value.len(),
        forall|i: int| 0 <= i < leading_space(value) ==> white_space(#[trigger] value[i]),
        leading_space(value) < value.len() ==> !white_space(value[leading_space(value) as int]),
    decreases value.len(),
{
    if value.len() > 0 && white_space(value[0]) {
        let rest = value.skip(1);
        lemma_leading_space(rest);
        assert forall|i: int| 0 <= i < leading_space(value) implies white_space(
            #[trigger] value[i],
        ) by {
            if i > 0 {
                assert(value[i] == rest[i - 1]);
            }
        }
    }
}

proof fn lemma_word_length(value: Seq<char>)
    ensures
        word_length(value) <= value.len(),
        value.len() > 0 && !white_space(value[0]) ==> word_length(value) > 0,
        forall|i: int| 0 <= i < word_length(value) ==> !white_space(#[trigger] value[i]),
        word_length(value) < value.len() ==> white_space(value[word_length(value) as int]),
    decreases value.len(),
{
    if value.len() > 0 && !white_space(value[0]) {
        let rest = value.skip(1);
        lemma_word_length(rest);
        assert forall|i: int| 0 <= i < word_length(value) implies !white_space(
            #[trigger] value[i],
        ) by {
            if i > 0 {
                assert(value[i] == rest[i - 1]);
            }
        }
    }
}

/// Any split of a text into white space and a rest that does not start with
/// white space is the one that `leading_space` finds.
proof fn lemma_leading_space_is(value: Seq<char>, count: int)
    requires
        0 <= count <= value.len(),
        forall|i: int| 0 <= i < count ==> white_space(#[trigger] value[i]),
        count < value.len() ==> !white_space(value[count]),
    ensures
        leading_space(value) == count,
{
    lemma_leading_space(value);
    let found = leading_space(value) as int;
    if found < count {
        assert(white_space(value[found]));
    }
    if count < found {
        assert(white_space(value[count]));
    }
}

proof fn lemma_word_length_is(value: Seq<char>, count: int)
    requires
        0 <= count <= value.len(),
        forall|i: int| 0 <= i < count ==> !white_space(#[trigger] value[i]),
        count < value.len() ==> white_space(value[count]),
    ensures
        word_length(value) == count,
{
    lemma_word_length(value);
    let found = word_length(value) as int;
    if found < count {
        assert(!white_space(value[found]));
    }
    if count < found {
        assert(!white_space(value[count]));
    }
}

proof fn lemma_trimmed_end(value: Seq<char>, count: int)
    requires
        0 <= count <= value.len(),
        forall|i: int| count <= i < value.len() ==> white_space(#[trigger] value[i]),
        count > 0 ==> !white_space(value[count - 1]),
    ensures
        trimmed_end(value) == value.take(count),
    decreases value.len(),
{
    if count < value.len() {
        assert(white_space(value.last()));
        let shorter = value.drop_last();
        lemma_trimmed_end(shorter, count);
        assert(shorter.take(count) == value.take(count));
    } else {
        assert(value.take(count) == value);
    }
}

/// A text is blank exactly when trimming leaves nothing of it.
pub proof fn blank_is_trimmed_to_nothing(value: Seq<char>)
    ensures
        blank(value) <==> trimmed(value).len() == 0,
{
    lemma_leading_space(value);
    let start = leading_space(value) as int;
    let rest = value.skip(start);
    if start < value.len() {
        assert(!white_space(rest[0]));
        assert(!white_space(value[start]));
        lemma_trimmed_end_keeps_first(rest);
    }
}

proof fn lemma_trimmed_end_keeps_first(value: Seq<char>)
    requires
        value.len() > 0,
        !white_space(value[0]),
    ensures
        trimmed_end(value).len() > 0,
    decreases value.len(),
{
    if white_space(value.last()) {
        assert(value.len() > 1);
        lemma_trimmed_end_keeps_first(value.drop_last());
    }
}

/// A text that neither starts nor ends with white space is kept as it is by
/// trimming.
pub proof fn trimming_keeps_tight_text(value: Seq<char>)
    requires
        value.len() > 0,
        !white_space(value[0]),
        !white_space(value.last()),
    ensures
        trimmed(value) == value,
{
    assert(value.skip(0) == value);
}

proof fn lemma_trimmed_end_is_tight(value: Seq<char>)
    ensures
        trimmed_end(value).is_prefix_of(value),
        trimmed_end(value).len() > 0 ==> !white_space(trimmed_end(value).last()),
    decreases value.len(),
{
    if value.len() > 0 && white_space(value.last()) {
        let shorter = value.drop_last();
        lemma_trimmed_end_is_tight(shorter);
        let tight = trimmed_end(value);
        assert(tight == shorter.take(tight.len() as int));
        assert(tight == value.take(tight.len() as int));
    } else {
        assert(value.take(value.len() as int) == value);
    }
}

/// What trimming leaves neither starts nor ends with white space, and all of it
/// was there before.
pub proof fn trimmed_is_tight(value: Seq<char>)
    ensures
        trimmed(value).len() > 0 ==> !white_space(trimmed(value)[0]) && !white_space(
            trimmed(value).last(),
        ),
        forall|i: int| 0 <= i < trimmed(value).len() ==> value.contains(#[trigger] trimmed(value)[i]),
{
    lemma_leading_space(value);
    let start = leading_space(value) as int;
    let rest = value.skip(start);
    lemma_trimmed_end_is_tight(rest);
    let tight = trimmed(value);
    assert(tight == rest.take(tight.len() as int));
    assert forall|i: int| 0 <= i < tight.len() implies value.contains(#[trigger] tight[i]) by {
        assert(tight[i] == rest.take(tight.len() as int)[i]);
        assert(value[start + i] == tight[i]);
    }
    if tight.len() > 0 {
        assert(tight[0] == value[start]);
    }
}

/// Trimming what was trimmed already changes nothing.
pub proof fn trimming_twice_is_trimming_once(value: Seq<char>)
    ensures
        trimmed(trimmed(value)) == trimmed(value),
{
    let tight = trimmed(value);
    trimmed_is_tight(value);
    if tight.len() > 0 {
        trimming_keeps_tight_text(tight);
    } else {
        blank_is_trimmed_to_nothing(tight);
    }
}

proof fn lemma_leading_space_alike(left: Seq<char>, right: Seq<char>)
    requires
        left.len() == right.len(),
        forall|i: int|
            0 <= i < left.len() ==> white_space(#[trigger] left[i]) == white_space(right[i]),
    ensures
        leading_space(left) == leading_space(right),
{
    lemma_leading_space(left);
    let count = leading_space(left) as int;
    assert forall|i: int| 0 <= i < count implies white_space(#[trigger] right[i]) by {
        assert(white_space(left[i]));
    }
    if count < left.len() {
        assert(!white_space(left[count]));
    }
    lemma_leading_space_is(right, count);
}

proof fn lemma_trimmed_end_alike(left: Seq<char>, right: Seq<char>)
    requires
        left.len() == right.len(),
        forall|i: int|
            0 <= i < left.len() ==> white_space(#[trigger] left[i]) == white_space(right[i]),
    ensures
        trimmed_end(left).len() == trimmed_end(right).len(),
    decreases left.len(),
{
    if left.len() > 0 {
        assert(white_space(left[left.len() - 1]) == white_space(right[left.len() - 1]));
        if white_space(left.last()) {
            assert forall|i: int| 0 <= i < left.drop_last().len() implies white_space(
                #[trigger] left.drop_last()[i],
            ) == white_space(right.drop_last()[i]) by {
                assert(white_space(left[i]) == white_space(right[i]));
            }
            lemma_trimmed_end_alike(left.drop_last(), right.drop_last());
        }
    }
}

/// Trimming keeps the same stretch of two texts that have white space in the same
/// places.
pub proof fn lemma_trimmed_alike(left: Seq<char>, right: Seq<char>)
    requires
        left.len() == right.len(),
        forall|i: int|
            0 <= i < left.len() ==> white_space(#[trigger] left[i]) == white_space(right[i]),
    ensures
        leading_space(left) == leading_space(right),
        trimmed(left).len() == trimmed(right).len(),
        leading_space(left) + trimmed(left).len() <= left.len(),
        trimmed(left) == left.subrange(
            leading_space(left) as int,
            (leading_space(left) + trimmed(left).len()) as int,
        ),
        trimmed(right) == right.subrange(
            leading_space(left) as int,
            (leading_space(left) + trimmed(left).len()) as int,
        ),
{
    lemma_leading_space_alike(left, right);
    lemma_leading_space(left);
    let start = leading_space(left) as int;
    let left_rest = left.skip(start);
    let right_rest = right.skip(start);
    assert forall|i: int| 0 <= i < left_rest.len() implies white_space(#[trigger] left_rest[i])
        == white_space(right_rest[i]) by {
        assert(white_space(left[start + i]) == white_space(right[start + i]));
    }
    lemma_trimmed_end_alike(left_rest, right_rest);
    lemma_trimmed_end_is_tight(left_rest);
    lemma_trimmed_end_is_tight(right_rest);
    let length = trimmed(left).len() as int;
    assert(trimmed(left) == left_rest.take(length));
    assert(left_rest.take(length) == left.subrange(start, start + length));
    assert(trimmed(right) == right_rest.take(length));
    assert(right_rest.take(length) == right.subrange(start, start + length));
}

/// The text is empty or white space only.
pub fn is_blank(value: &str) -> (answer: bool)
    ensures
        answer == blank(value@),
{
    let chars = chars_of(value);
    let mut next: usize = 0;
    while next < chars.len()
        invariant
            next <= chars@.len(),
            chars@ == value@,
            forall|i: int| 0 <= i < next ==> white_space(#[trigger] value@[i]),
        decreases chars@.len() - next,
    {
        if !chars[next].is_whitespace() {
            return false;
        }
        next = next + 1;
    }
    true
}

/// `value` without the white space at both ends.
pub fn trim(value: &str) -> (tight: String)
    ensures
        tight@ == trimmed(value@),
{
    let chars = chars_of(value);
    let mut start: usize = 0;
    while start < chars.len() && chars[start].is_whitespace()
        invariant
            start <= chars@.len(),
            forall|i: int| 0 <= i < start ==> white_space(#[trigger] chars@[i]),
        decreases chars@.len() - start,
    {
        start = start + 1;
    }
    let mut end: usize = chars.len();
    while end > start && chars[end - 1].is_whitespace()
        invariant
            start <= end <= chars@.len(),
            forall|i: int| end <= i < chars@.len() ==> white_space(#[trigger] chars@[i]),
        decreases end,
    {
        end = end - 1;
    }
    proof {
        lemma_leading_space_is(value@, start as int);
        let rest = value@.skip(start as int);
        assert forall|i: int| end - start <= i < rest.len() implies white_space(
            #[trigger] rest[i],
        ) by {
            assert(rest[i] == chars@[i + start]);
        }
        lemma_trimmed_end(rest, end - start);
        assert(rest.take(end - start) == chars@.subrange(start as int, end as int));
    }
    string_between(&chars, start, end)
}

/// The words of `value`: what white space separates.
pub fn split_words(value: &str) -> (parts: Vec<String>)
    ensures
        texts(parts@) == words(value@),
{
    let chars = chars_of(value);
    let mut parts: Vec<String> = Vec::new();
    let mut next: usize = 0;
    assert(value@.skip(0) == value@);
    assert(texts(parts@) + words(value@) == words(value@));
    while next < chars.len()
        invariant
            next <= chars@.len(),
            chars@ == value@,
            texts(parts@) + words(value@.skip(next as int)) == words(value@),
        decreases chars@.len() - next,
    {
        let ghost tail = value@.skip(next as int);
        let mut start: usize = next;
        while start < chars.len() && chars[start].is_whitespace()
            invariant
                next <= start <= chars@.len(),
                chars@ == value@,
                forall|i: int| next <= i < start ==> white_space(#[trigger] chars@[i]),
            decreases chars@.len() - start,
        {
            start = start + 1;
        }
        proof {
            assert forall|i: int| 0 <= i < start - next implies white_space(
                #[trigger] tail[i],
            ) by {
                assert(tail[i] == chars@[i + next]);
            }
            lemma_leading_space_is(tail, start - next);
            assert(tail.skip(start - next) == value@.skip(start as int));
        }
        let ghost rest = value@.skip(start as int);
        let mut end: usize = start;
        while end < chars.len() && !chars[end].is_whitespace()
            invariant
                start <= end <= chars@.len(),
                chars@ == value@,
                forall|i: int| start <= i < end ==> !white_space(#[trigger] chars@[i]),
            decreases chars@.len() - end,
        {
            end = end + 1;
        }
        if start < chars.len() {
            let part = string_between(&chars, start, end);
            let ghost before = parts@;
            parts.push(part);
            proof {
                assert forall|i: int| 0 <= i < end - start implies !white_space(
                    #[trigger] rest[i],
                ) by {
                    assert(rest[i] == chars@[i + start]);
                }
                lemma_word_length_is(rest, end - start);
                assert(!white_space(rest[0]));
                assert(rest.take(end - start) == part@);
                assert(rest.skip(end - start) == value@.skip(end as int));
                assert(words(tail) == seq![part@] + words(value@.skip(end as int)));
                assert(texts(parts@) == texts(before) + seq![part@]);
                assert(texts(parts@) + words(value@.skip(end as int)) == texts(before) + words(
                    tail,
                ));
                assert(end > start) by {
                    assert(!white_space(chars@[start as int]));
                }
            }
        } else {
            proof {
                assert(words(tail) == Seq::<Seq<char>>::empty());
                assert(words(value@.skip(end as int)) == Seq::<Seq<char>>::empty()) by {
                    assert(value@.skip(end as int).len() == 0);
                    lemma_leading_space(value@.skip(end as int));
                }
            }
        }
        next = end;
    }
    proof {
        let tail = value@.skip(next as int);
        lemma_leading_space(tail);
        assert(words(tail) == Seq::<Seq<char>>::empty());
        assert(texts(parts@) + words(tail) == texts(parts@));
    }
    parts
}

/// A text has no words exactly when it is blank.
pub proof fn blank_has_no_words(value: Seq<char>)
    ensures
        blank(value) <==> words(value).len() == 0,
{
    lemma_leading_space(value);
    let start = leading_space(value) as int;
    if start < value.len() {
        assert(!white_space(value[start]));
        let rest = value.skip(start);
        assert(words(value).len() >= 1);
    }
}

proof fn lemma_word_length_alike(left: Seq<char>, right: Seq<char>)
    requires
        left.len() == right.len(),
        forall|i: int|
            0 <= i < left.len() ==> white_space(#[trigger] left[i]) == white_space(right[i]),
    ensures
        word_length(left) == word_length(right),
{
    lemma_word_length(left);
    let count = word_length(left) as int;
    assert forall|i: int| 0 <= i < count implies !white_space(#[trigger] right[i]) by {
        assert(!white_space(left[i]));
    }
    if count < left.len() {
        assert(white_space(left[count]));
    }
    lemma_word_length_is(right, count);
}

/// The words of an ASCII text in lowercase are its words in lowercase, and a text
/// stays blank or not.
pub proof fn lowering_keeps_the_words(value: Seq<char>)
    requires
        vstd::utf8::is_ascii_chars(value),
    ensures
        blank(lowered(value)) == blank(value),
        words(lowered(value)).len() == words(value).len(),
        forall|i: int|
            0 <= i < words(value).len() ==> vstd::utf8::is_ascii_chars(#[trigger] words(value)[i])
                && words(lowered(value))[i] == lowered(words(value)[i]),
        all_same_but_for_case(words(value), words(lowered(value))),
    decreases value.len(),
{
    let low = ascii_lowercase(value);
    assert forall|i: int| 0 <= i < low.len() implies white_space(#[trigger] low[i]) == white_space(
        value[i],
    ) by {
        assert(low[i] == ascii_lower(value[i]));
    }
    assert(blank(low) == blank(value)) by {
        assert forall|i: int| 0 <= i < low.len() && blank(low) implies white_space(
            #[trigger] value[i],
        ) by {
            assert(white_space(low[i]));
        }
        assert forall|i: int| 0 <= i < low.len() && blank(value) implies white_space(
            #[trigger] low[i],
        ) by {
            assert(white_space(value[i]));
        }
    }
    lemma_leading_space_alike(low, value);
    lemma_leading_space(value);
    let start = leading_space(value) as int;
    let rest = value.skip(start);
    let low_rest = low.skip(start);
    if rest.len() > 0 {
        assert forall|i: int| 0 <= i < rest.len() implies white_space(#[trigger] low_rest[i])
            == white_space(rest[i]) by {
            assert(white_space(low[start + i]) == white_space(value[start + i]));
        }
        lemma_word_length_alike(low_rest, rest);
        lemma_word_length(rest);
        let length = word_length(rest) as int;
        let tail = rest.skip(length);
        assert forall|i: int| 0 <= i < tail.len() implies '\0' <= #[trigger] tail[i]
            <= '\u{7f}' by {
            assert(tail[i] == value[start + length + i]);
        }
        let first = rest.take(length);
        assert forall|i: int| 0 <= i < first.len() implies '\0' <= #[trigger] first[i]
            <= '\u{7f}' by {
            assert(first[i] == value[start + i]);
        }
        assert(low_rest.skip(length) == ascii_lowercase(tail));
        assert(low_rest.take(length) == ascii_lowercase(first));
        lowering_keeps_the_words(tail);
        assert(words(value) == seq![first] + words(tail));
        assert(words(low) == seq![ascii_lowercase(first)] + words(ascii_lowercase(tail)));
        assert forall|i: int| 0 <= i < words(value).len() implies vstd::utf8::is_ascii_chars(
            #[trigger] words(value)[i],
        ) && words(low)[i] == lowered(words(value)[i]) by {
            if i > 0 {
                assert(words(value)[i] == words(tail)[i - 1]);
                assert(words(low)[i] == words(ascii_lowercase(tail))[i - 1]);
            }
        }
    }
    assert forall|i: int| 0 <= i < words(value).len() implies same_but_for_case(
        #[trigger] words(value)[i],
        words(low)[i],
    ) by {
        lowering_twice_is_lowering_once(words(value)[i]);
    }
}

// ---------------------------------------------------------------------------
// Joining and cutting
// ---------------------------------------------------------------------------
/// `parts` with `separator` between each two of them.
pub open spec fn join(parts: Seq<Seq<char>>, separator: Seq<char>) -> Seq<char>
    decreases parts.len(),
{
    if parts.len() == 0 {
        Seq::empty()
    } else if parts.len() == 1 {
        parts[0]
    } else {
        join(parts.drop_last(), separator) + separator + parts.last()
    }
}

/// The strings of `parts` with `separator` between each two of them.
pub fn join_texts(parts: &Vec<String>, separator: &str) -> (whole: String)
    ensures
        whole@ == join(texts(parts@), separator@),
{
    let mut whole = String::new();
    let mut next: usize = 0;
    while next < parts.len()
        invariant
            next <= parts@.len(),
            whole@ == join(texts(parts@).take(next as int), separator@),
        decreases parts@.len() - next,
    {
        proof {
            let longer = texts(parts@).take(next + 1);
            assert(longer.drop_last() == texts(parts@).take(next as int));
            assert(longer.last() == parts@[next as int]@);
        }
        if next > 0 {
            whole.append(separator);
        }
        whole.append(parts[next].as_str());
        next = next + 1;
        proof {
            if next == 1 {
                assert(whole@ == parts@[0]@);
            }
        }
    }
    assert(texts(parts@).take(next as int) == texts(parts@));
    whole
}

/// What is shown of a text in `width` columns: the text itself where it fits,
/// else as much of it as leaves room for an ellipsis.
pub open spec fn truncated(value: Seq<char>, width: nat) -> Seq<char> {
    if value.len() <= width {
        value
    } else if width == 0 {
        Seq::empty()
    } else {
        value.take(width - 1).push('…')
    }
}

/// Cuts `value` down to `width` characters, the last of them an ellipsis where
/// anything was cut off.
pub fn truncate_text(value: &str, width: usize) -> (shown: String)
    ensures
        shown@ == truncated(value@, width as nat),
        shown@.len() <= width,
{
    let chars = chars_of(value);
    if chars.len() <= width {
        return value.to_owned();
    }
    if width == 0 {
        return String::new();
    }
    let mut shortened = string_between(&chars, 0, width - 1);
    shortened.push('…');
    assert(value@.subrange(0, width - 1) == value@.take(width - 1));
    shortened
}

// ---------------------------------------------------------------------------
// Numbers
// ---------------------------------------------------------------------------
/// The digit for `value`, which is below 16.
pub open spec fn digit(value: nat) -> char {
    if value < 10 {
        (value + 48) as char
    } else {
        (value + 87) as char
    }
}

/// `value` in decimal, without leading zeros.
pub open spec fn decimal(value: nat) -> Seq<char>
    decreases value,
{
    if value < 10 {
        seq![digit(value)]
    } else {
        decimal(value / 10).push(digit(value % 10))
    }
}

/// `value` in decimal, with a minus sign where it is negative.
pub open spec fn signed_decimal(value: int) -> Seq<char> {
    if value < 0 {
        seq!['-'] + decimal((-value) as nat)
    } else {
        decimal(value as nat)
    }
}

/// The last `width` hexadecimal digits of `value`, in lowercase, with leading
/// zeros.
pub open spec fn hexadecimal(value: nat, width: nat) -> Seq<char>
    decreases width,
{
    if width == 0 {
        Seq::empty()
    } else {
        hexadecimal(value / 16, (width - 1) as nat).push(digit(value % 16))
    }
}

fn digit_of(value: u64) -> (shown: char)
    requires
        value < 16,
    ensures
        shown == digit(value as nat),
{
    let code: u8 = value as u8;
    if code < 10 {
        (code + 48) as char
    } else {
        (code + 87) as char
    }
}

/// Appends `value` in decimal.
pub fn push_decimal(out: &mut String, value: u64)
    ensures
        final(out)@ == old(out)@ + decimal(value as nat),
    decreases value,
{
    if value < 10 {
        out.push(digit_of(value));
    } else {
        push_decimal(out, value / 10);
        out.push(digit_of(value % 10));
    }
    assert(out@ == old(out)@ + decimal(value as nat));
}

/// Appends `value` in decimal, with its sign where it is negative.
pub fn push_signed_decimal(out: &mut String, value: i32)
    ensures
        final(out)@ == old(out)@ + signed_decimal(value as int),
{
    if value < 0 {
        out.push('-');
        push_decimal(out, (-(value as i64)) as u64);
    } else {
        push_decimal(out, value as u64);
    }
    assert(out@ == old(out)@ + signed_decimal(value as int));
}

/// Appends the last `width` hexadecimal digits of `value`.
pub fn push_hexadecimal(out: &mut String, value: u64, width: u64)
    ensures
        final(out)@ == old(out)@ + hexadecimal(value as nat, width as nat),
    decreases width,
{
    if width > 0 {
        push_hexadecimal(out, value / 16, width - 1);
        out.push(digit_of(value % 16));
    }
    assert(out@ == old(out)@ + hexadecimal(value as nat, width as nat));
}

// ---------------------------------------------------------------------------
// Laws
// ---------------------------------------------------------------------------
/// Putting an ASCII text in lowercase changes `A` to `Z` alone, each into the letter
/// 32 places further on, and keeps every other character in its place.
pub proof fn lowering_changes_capital_letters_alone(value: Seq<char>)
    requires
        vstd::utf8::is_ascii_chars(value),
    ensures
        lowered(value).len() == value.len(),
        forall|i: int|
            0 <= i < value.len() ==> if 'A' <= #[trigger] value[i] <= 'Z' {
                lowered(value)[i] as u32 == value[i] as u32 + 32
            } else {
                lowered(value)[i] == value[i]
            },
{
}

/// Trimming cuts white space off the two ends and nothing else: what is left is one
/// stretch of the text, and all that stands before and behind it is white space.
pub proof fn trimming_cuts_white_space_alone(value: Seq<char>) -> (ends: (int, int))
    ensures
        0 <= ends.0 <= ends.1 <= value.len(),
        trimmed(value) == value.subrange(ends.0, ends.1),
        forall|i: int| 0 <= i < ends.0 ==> white_space(#[trigger] value[i]),
        forall|i: int| ends.1 <= i < value.len() ==> white_space(#[trigger] value[i]),
        ends.0 < ends.1 ==> !white_space(value[ends.0]) && !white_space(value[ends.1 - 1]),
{
    lemma_leading_space(value);
    let start = leading_space(value) as int;
    let rest = value.skip(start);
    lemma_trimmed_end_is_tight(rest);
    lemma_cut_off_is_space(rest);
    let length = trimmed(value).len() as int;
    assert(trimmed(value) == rest.take(length));
    assert(rest.take(length) == value.subrange(start, start + length));
    assert forall|i: int| start + length <= i < value.len() implies white_space(
        #[trigger] value[i],
    ) by {
        assert(rest[i - start] == value[i]);
    }
    trimmed_is_tight(value);
    (start, start + length)
}

proof fn lemma_cut_off_is_space(value: Seq<char>)
    ensures
        forall|i: int|
            trimmed_end(value).len() <= i < value.len() ==> white_space(#[trigger] value[i]),
    decreases value.len(),
{
    if value.len() > 0 && white_space(value.last()) {
        let shorter = value.drop_last();
        lemma_cut_off_is_space(shorter);
        assert forall|i: int| trimmed_end(value).len() <= i < value.len() implies white_space(
            #[trigger] value[i],
        ) by {
            if i < shorter.len() {
                assert(shorter[i] == value[i]);
            }
        }
    }
}

proof fn lemma_words_behind_space(value: Seq<char>)
    requires
        value.len() > 0,
        white_space(value[0]),
    ensures
        words(value) == words(value.skip(1)),
{
    let rest = value.skip(1);
    lemma_leading_space(rest);
    assert(value.skip(leading_space(value) as int) == rest.skip(leading_space(rest) as int));
}

/// White space separates words: what stands before it and what stands behind it are
/// split on their own.
pub proof fn white_space_separates_words(left: Seq<char>, space: char, right: Seq<char>)
    requires
        white_space(space),
    ensures
        words(left.push(space) + right) == words(left) + words(right),
    decreases left.len(),
{
    let whole = left.push(space) + right;
    if left.len() == 0 {
        lemma_words_behind_space(whole);
        assert(whole.skip(1) == right);
        no_text_has_no_words();
        assert(left == Seq::<char>::empty());
        assert(words(left) + words(right) == words(right));
    } else if white_space(left[0]) {
        lemma_words_behind_space(whole);
        lemma_words_behind_space(left);
        assert(whole.skip(1) == left.skip(1).push(space) + right);
        white_space_separates_words(left.skip(1), space, right);
    } else {
        lemma_word_length(left);
        let length = word_length(left) as int;
        assert forall|i: int| 0 <= i < length implies !white_space(#[trigger] whole[i]) by {
            assert(whole[i] == left[i]);
        }
        assert(white_space(whole[length]));
        lemma_word_length_is(whole, length);
        assert(whole.skip(0) == whole && left.skip(0) == left);
        assert(whole.take(length) == left.take(length));
        assert(whole.skip(length) == left.skip(length).push(space) + right);
        white_space_separates_words(left.skip(length), space, right);
        let first = seq![left.take(length)];
        assert(words(whole) == first + words(whole.skip(length)));
        assert(words(left) == first + words(left.skip(length)));
        assert(first + (words(left.skip(length)) + words(right)) == (first + words(
            left.skip(length),
        )) + words(right));
    }
}

/// A text without white space is one word, unless it is empty.
pub proof fn a_text_without_white_space_is_one_word(value: Seq<char>)
    requires
        value.len() > 0,
        forall|i: int| 0 <= i < value.len() ==> !white_space(#[trigger] value[i]),
    ensures
        words(value) == seq![value],
{
    lemma_word_length_is(value, value.len() as int);
    assert(value.skip(0) == value);
    assert(value.take(value.len() as int) == value);
    assert(value.skip(value.len() as int) == Seq::<char>::empty());
    no_text_has_no_words();
}

/// There is no word in the empty text.
pub proof fn no_text_has_no_words()
    ensures
        words(Seq::<char>::empty()).len() == 0,
{
    blank_has_no_words(Seq::<char>::empty());
}

/// Joining two lists of texts and joining all of them at once is the same, with the
/// separator between the two.
pub proof fn joining_is_joining_the_halves(
    left: Seq<Seq<char>>,
    right: Seq<Seq<char>>,
    separator: Seq<char>,
)
    requires
        left.len() > 0,
        right.len() > 0,
    ensures
        join(left + right, separator) == join(left, separator) + separator + join(right, separator),
    decreases right.len(),
{
    let all = left + right;
    assert(all.drop_last() == left + right.drop_last());
    assert(all.last() == right.last());
    if right.len() == 1 {
        assert(all.drop_last() == left);
    } else {
        joining_is_joining_the_halves(left, right.drop_last(), separator);
        let first = join(left, separator);
        let middle = join(right.drop_last(), separator);
        assert((first + separator + middle) + separator + right.last() == first + separator + (middle
            + separator + right.last()));
    }
}

/// One text is joined to itself, and no texts to nothing.
pub proof fn joining_one_text_keeps_it(value: Seq<char>, separator: Seq<char>)
    ensures
        join(seq![value], separator) == value,
        join(Seq::<Seq<char>>::empty(), separator).len() == 0,
{
}

/// A text that fits is kept. Else exactly the width is used: for the beginning of
/// the text and an ellipsis.
pub proof fn a_cut_text_is_a_beginning_and_an_ellipsis(value: Seq<char>, width: nat)
    ensures
        value.len() <= width ==> truncated(value, width) == value,
        value.len() > width ==> truncated(value, width).len() == width,
        value.len() > width && width > 0 ==> truncated(value, width).last() == '…' && forall|i: int|
            0 <= i < width - 1 ==> #[trigger] truncated(value, width)[i] == value[i],
{
}

/// The number that decimal digits stand for.
spec fn number(digits: Seq<char>) -> int
    decreases digits.len(),
{
    if digits.len() == 0 {
        0
    } else {
        number(digits.drop_last()) * 10 + (digits.last() as u32 - '0' as u32)
    }
}

/// Decimal digits stand for the number that they were written for, and there are no
/// more of them than needed.
pub proof fn decimal_digits_stand_for_the_number(value: nat)
    ensures
        decimal(value).fold_left(0, |read: int, shown: char| read * 10 + (shown as u32 - 48))
            == value,
        decimal(value).len() > 0,
        forall|i: int| 0 <= i < decimal(value).len() ==> '0' <= #[trigger] decimal(value)[i] <= '9',
        decimal(value).len() > 1 ==> decimal(value)[0] != '0',
{
    lemma_decimal(value);
    lemma_number_is_read(decimal(value));
}

proof fn lemma_number_is_read(digits: Seq<char>)
    ensures
        number(digits) == digits.fold_left(
            0,
            |read: int, shown: char| read * 10 + (shown as u32 - 48),
        ),
    decreases digits.len(),
{
    if digits.len() > 0 {
        lemma_number_is_read(digits.drop_last());
    }
}

proof fn lemma_decimal(value: nat)
    ensures
        number(decimal(value)) == value,
        decimal(value).len() > 0,
        forall|i: int| 0 <= i < decimal(value).len() ==> '0' <= #[trigger] decimal(value)[i] <= '9',
        decimal(value).len() > 1 ==> decimal(value)[0] != '0',
    decreases value,
{
    if value >= 10 {
        lemma_decimal(value / 10);
        let shorter = decimal(value / 10);
        assert(decimal(value).drop_last() == shorter);
        assert(decimal(value)[0] == shorter[0]);
        if shorter.len() == 1 {
            reveal_with_fuel(number, 2);
            assert(shorter.drop_last() == Seq::<char>::empty());
            assert(number(shorter) == shorter[0] as u32 - '0' as u32);
        }
    } else {
        assert(decimal(value).drop_last() == Seq::<char>::empty());
        assert(number(Seq::<char>::empty()) == 0);
    }
}

/// A negative number is written as a minus sign and the opposite number.
pub proof fn negative_numbers_have_a_sign(value: int)
    ensures
        value >= 0 ==> signed_decimal(value) == decimal(value as nat),
        value < 0 ==> signed_decimal(value) == seq!['-'] + decimal((-value) as nat),
{
}

/// The number that lowercase hexadecimal digits stand for.
spec fn hexadecimal_number(digits: Seq<char>) -> int
    decreases digits.len(),
{
    if digits.len() == 0 {
        0
    } else {
        hexadecimal_number(digits.drop_last()) * 16 + (if digits.last() <= '9' {
            digits.last() as u32 - '0' as u32
        } else {
            digits.last() as u32 - 'a' as u32 + 10
        })
    }
}

/// As many hexadecimal digits as asked for stand for the number that they were
/// written for, where it fits.
pub proof fn hexadecimal_digits_stand_for_the_number(value: nat, width: nat)
    requires
        value < vstd::arithmetic::power::pow(16, width),
    ensures
        hexadecimal(value, width).len() == width,
        hexadecimal(value, width).fold_left(
            0,
            |read: int, shown: char|
                read * 16 + (if shown <= '9' {
                    shown as u32 - 48
                } else {
                    shown as u32 - 87
                }),
        ) == value,
        forall|i: int|
            0 <= i < width ==> {
                let shown = #[trigger] hexadecimal(value, width)[i];
                '0' <= shown <= '9' || 'a' <= shown <= 'f'
            },
{
    lemma_hexadecimal(value, width);
    lemma_hexadecimal_number_is_read(hexadecimal(value, width));
}

proof fn lemma_hexadecimal_number_is_read(digits: Seq<char>)
    ensures
        hexadecimal_number(digits) == digits.fold_left(
            0,
            |read: int, shown: char|
                read * 16 + (if shown <= '9' {
                    shown as u32 - 48
                } else {
                    shown as u32 - 87
                }),
        ),
    decreases digits.len(),
{
    if digits.len() > 0 {
        lemma_hexadecimal_number_is_read(digits.drop_last());
    }
}

proof fn lemma_hexadecimal(value: nat, width: nat)
    requires
        value < vstd::arithmetic::power::pow(16, width),
    ensures
        hexadecimal(value, width).len() == width,
        hexadecimal_number(hexadecimal(value, width)) == value,
        forall|i: int|
            0 <= i < width ==> {
                let shown = #[trigger] hexadecimal(value, width)[i];
                '0' <= shown <= '9' || 'a' <= shown <= 'f'
            },
    decreases width,
{
    reveal(vstd::arithmetic::power::pow);
    if width > 0 {
        lemma_hexadecimal(value / 16, (width - 1) as nat);
        assert(hexadecimal(value, width).drop_last() == hexadecimal(value / 16, (width - 1) as nat));
        assert(value % 16 < 16);
    }
}

/// A text is blank exactly when all of its characters are white space.
pub proof fn blank_is_white_space_alone(value: Seq<char>)
    ensures
        blank(value) <==> forall|i: int|
            0 <= i < value.len() ==> white_space(#[trigger] value[i]),
        !blank(value) <==> exists|i: int|
            0 <= i < value.len() && !white_space(#[trigger] value[i]),
{
}

/// White space is the space, the tab, the line breaks and the spaces that Unicode adds;
/// controls are the codes below the space and the 33 from the delete code on; an ASCII
/// character belongs to a word exactly when it is a letter or a digit.
pub proof fn what_kind_a_character_is_of(character: char)
    ensures
        (character as u32) < 128 ==> (white_space(character) <==> character == ' ' || '\t'
            <= character <= '\r'),
        (character as u32) >= 128 ==> (white_space(character) <==> seq![
            '\u{85}',
            '\u{a0}',
            '\u{1680}',
            '\u{2000}',
            '\u{2001}',
            '\u{2002}',
            '\u{2003}',
            '\u{2004}',
            '\u{2005}',
            '\u{2006}',
            '\u{2007}',
            '\u{2008}',
            '\u{2009}',
            '\u{200a}',
            '\u{2028}',
            '\u{2029}',
            '\u{202f}',
            '\u{205f}',
            '\u{3000}',
        ].contains(character)),
        control(character) <==> character < ' ' || 127 <= character as u32 <= 159,
        (character as u32) < 128 ==> (in_word(character) <==> '0' <= character <= '9' || 'A'
            <= character <= 'Z' || 'a' <= character <= 'z'),
{
    let spaces = seq![
        '\u{85}',
        '\u{a0}',
        '\u{1680}',
        '\u{2000}',
        '\u{2001}',
        '\u{2002}',
        '\u{2003}',
        '\u{2004}',
        '\u{2005}',
        '\u{2006}',
        '\u{2007}',
        '\u{2008}',
        '\u{2009}',
        '\u{200a}',
        '\u{2028}',
        '\u{2029}',
        '\u{202f}',
        '\u{205f}',
        '\u{3000}',
    ];
    assert(spaces.len() == 19);
    assert(spaces[0] == '\u{85}' && spaces[1] == '\u{a0}' && spaces[2] == '\u{1680}');
    assert(spaces[3] == '\u{2000}' && spaces[4] == '\u{2001}' && spaces[5] == '\u{2002}');
    assert(spaces[6] == '\u{2003}' && spaces[7] == '\u{2004}' && spaces[8] == '\u{2005}');
    assert(spaces[9] == '\u{2006}' && spaces[10] == '\u{2007}' && spaces[11] == '\u{2008}');
    assert(spaces[12] == '\u{2009}' && spaces[13] == '\u{200a}' && spaces[14] == '\u{2028}');
    assert(spaces[15] == '\u{2029}' && spaces[16] == '\u{202f}' && spaces[17] == '\u{205f}');
    assert(spaces[18] == '\u{3000}');
}

/// The contents of several strings are their contents one by one.
pub proof fn contents_are_taken_one_by_one(values: Seq<String>)
    ensures
        texts(values).len() == values.len(),
        forall|i: int| 0 <= i < values.len() ==> #[trigger] texts(values)[i] == values[i]@,
{
}

} // verus!

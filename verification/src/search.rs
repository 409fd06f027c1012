//! Fuzzy search: how well a query fits a text, and how well it fits an item.
use crate::command::command_display;
use crate::menu::MenuItem;
use crate::text;
use crate::text::{chars_of, is_in_word, lower, split_words};
use vstd::prelude::*;
use vstd::wrapping::i64_specs;

verus! {

// ---------------------------------------------------------------------------
// One text
// ---------------------------------------------------------------------------
/// The first position from `from` on that holds `wanted`; the length of the
/// candidate where there is none.
pub open spec fn position_from(candidate: Seq<char>, wanted: char, from: int) -> int
    decreases candidate.len() - from,
{
    if from < 0 || from >= candidate.len() {
        candidate.len() as int
    } else if candidate[from] == wanted {
        from
    } else {
        position_from(candidate, wanted, from + 1)
    }
}

/// What a character found at `index` is worth where the search for it started at
/// `cursor`: more at the start of the text or of a word, more right behind the
/// character found before it, less for what had to be skipped.
pub open spec fn points(candidate: Seq<char>, cursor: int, index: int) -> int {
    let skipped = index - cursor;
    20 + (if index == 0 {
        20int
    } else if !text::in_word(candidate[index - 1]) {
        12
    } else {
        0
    }) + (if cursor > 0 && index == cursor {
        15int
    } else {
        0
    }) - (if skipped < 20 {
        skipped
    } else {
        20
    })
}

/// The points of all characters of the query, each searched for behind the one
/// before it; `None` where one of them is not found.
pub open spec fn total_points(query: Seq<char>, candidate: Seq<char>, cursor: int) -> Option<int>
    decreases query.len(),
{
    if query.len() == 0 {
        Some(0)
    } else {
        let index = position_from(candidate, query[0], cursor);
        if index >= candidate.len() {
            None
        } else {
            match total_points(query.skip(1), candidate, index + 1) {
                Some(rest) => Some(points(candidate, cursor, index) + rest),
                None => None,
            }
        }
    }
}

/// What a candidate loses for its length.
pub open spec fn length_penalty(candidate: Seq<char>) -> int {
    if candidate.len() <= i64::MAX {
        candidate.len() as int / 8
    } else {
        i64::MAX as int / 8
    }
}

/// The score of two texts in lowercase. It is a 64-bit number and wraps around.
pub open spec fn lowered_score(query: Seq<char>, candidate: Seq<char>) -> Option<i64> {
    if query.len() == 0 {
        Some(0)
    } else {
        match total_points(query, candidate, 0) {
            Some(total) => Some(i64_specs::signed_crop(total - length_penalty(candidate))),
            None => None,
        }
    }
}

/// The score of a query on a candidate, whatever the case of their letters.
pub open spec fn score_of(query: Seq<char>, candidate: Seq<char>) -> Option<i64> {
    lowered_score(text::lowered(query), text::lowered(candidate))
}

proof fn lemma_crop_add(total: int, added: i64)
    ensures
        i64_specs::signed_crop(total).wrapping_add(added) == i64_specs::signed_crop(total + added),
{
}

proof fn lemma_position_from(candidate: Seq<char>, wanted: char, from: int)
    requires
        0 <= from <= candidate.len(),
    ensures
        ({
            let index = position_from(candidate, wanted, from);
            &&& from <= index <= candidate.len()
            &&& index < candidate.len() ==> candidate[index] == wanted
            &&& forall|i: int| from <= i < index ==> #[trigger] candidate[i] != wanted
        }),
    decreases candidate.len() - from,
{
    if from < candidate.len() && candidate[from] != wanted {
        lemma_position_from(candidate, wanted, from + 1);
    }
}

fn find_from(candidate: &Vec<char>, wanted: char, from: usize) -> (index: usize)
    requires
        from <= candidate@.len(),
    ensures
        index == position_from(candidate@, wanted, from as int),
        from <= index <= candidate@.len(),
{
    let mut index: usize = from;
    while index < candidate.len() && candidate[index] != wanted
        invariant
            from <= index <= candidate@.len(),
            position_from(candidate@, wanted, from as int) == position_from(
                candidate@,
                wanted,
                index as int,
            ),
        decreases candidate@.len() - index,
    {
        index = index + 1;
    }
    index
}

fn points_at(candidate: &Vec<char>, cursor: usize, index: usize) -> (worth: i64)
    requires
        cursor <= index < candidate@.len(),
    ensures
        worth == points(candidate@, cursor as int, index as int),
{
    let mut worth: i64 = 20;
    if index == 0 {
        worth = worth + 20;
    } else if !is_in_word(candidate[index - 1]) {
        worth = worth + 12;
    }
    if cursor > 0 && index == cursor {
        worth = worth + 15;
    }
    let skipped: usize = index - cursor;
    if skipped < 20 {
        worth - skipped as i64
    } else {
        worth - 20
    }
}

/// The score of a query and a candidate that are in lowercase already.
pub fn score_lowered(query: &Vec<char>, candidate: &Vec<char>) -> (score: Option<i64>)
    ensures
        score == lowered_score(query@, candidate@),
{
    if query.len() == 0 {
        return Some(0);
    }
    let mut score: i64 = 0;
    let ghost mut total: int = 0;
    let mut cursor: usize = 0;
    let mut next: usize = 0;
    assert(query@.skip(0) == query@);
    while next < query.len()
        invariant
            0 < query@.len(),
            next <= query@.len(),
            cursor <= candidate@.len(),
            score == i64_specs::signed_crop(total),
            match total_points(query@.skip(next as int), candidate@, cursor as int) {
                Some(rest) => total_points(query@, candidate@, 0) == Some(total + rest),
                None => total_points(query@, candidate@, 0) is None,
            },
        decreases query@.len() - next,
    {
        let ghost rest = query@.skip(next as int);
        let index = find_from(candidate, query[next], cursor);
        assert(rest[0] == query@[next as int]);
        if index == candidate.len() {
            return None;
        }
        let worth = points_at(candidate, cursor, index);
        proof {
            lemma_crop_add(total, worth);
            assert(rest.skip(1) == query@.skip(next + 1));
            total = total + worth;
        }
        score = score.wrapping_add(worth);
        cursor = index + 1;
        next = next + 1;
    }
    let penalty: i64 = if candidate.len() as u64 <= i64::MAX as u64 {
        candidate.len() as i64 / 8
    } else {
        i64::MAX / 8
    };
    proof {
        lemma_crop_add(total, (-penalty) as i64);
    }
    Some(score.wrapping_add(-penalty))
}

/// How well `query` fits `candidate`; `None` where it does not. The characters
/// of the query have to occur in the candidate in their order, in upper or lower
/// case. The empty query fits everything, with score 0.
pub fn fuzzy_score(query: &str, candidate: &str) -> (score: Option<i64>)
    ensures
        score == score_of(query@, candidate@),
{
    let query = chars_of(lower(query).as_str());
    let candidate = chars_of(lower(candidate).as_str());
    score_lowered(&query, &candidate)
}

// ---------------------------------------------------------------------------
// What a score says
// ---------------------------------------------------------------------------
/// `positions` are places of `candidate`, in increasing order and none before
/// `from`, that hold the characters of `query`.
pub open spec fn spelled_at(
    query: Seq<char>,
    candidate: Seq<char>,
    from: int,
    positions: Seq<int>,
) -> bool {
    &&& positions.len() == query.len()
    &&& forall|i: int|
        0 <= i < positions.len() ==> from <= #[trigger] positions[i] < candidate.len()
            && candidate[positions[i]] == query[i]
    &&& forall|i: int, j: int|
        0 <= i < j < positions.len() ==> #[trigger] positions[i] < #[trigger] positions[j]
}

/// The characters of `query` occur in `candidate` in their order.
pub open spec fn occurs_in_order(query: Seq<char>, candidate: Seq<char>) -> bool {
    exists|positions: Seq<int>| spelled_at(query, candidate, 0, positions)
}

proof fn lemma_points_spell(query: Seq<char>, candidate: Seq<char>, cursor: int) -> (positions: Seq<
    int,
>)
    requires
        0 <= cursor <= candidate.len(),
        total_points(query, candidate, cursor) is Some,
    ensures
        spelled_at(query, candidate, cursor, positions),
    decreases query.len(),
{
    if query.len() == 0 {
        Seq::empty()
    } else {
        let index = position_from(candidate, query[0], cursor);
        lemma_position_from(candidate, query[0], cursor);
        let rest = lemma_points_spell(query.skip(1), candidate, index + 1);
        let positions = seq![index] + rest;
        assert forall|i: int| 0 <= i < positions.len() implies cursor <= #[trigger] positions[i]
            < candidate.len() && candidate[positions[i]] == query[i] by {
            if i > 0 {
                assert(positions[i] == rest[i - 1]);
                assert(query[i] == query.skip(1)[i - 1]);
            }
        }
        assert forall|i: int, j: int| 0 <= i < j < positions.len() implies #[trigger] positions[i]
            < #[trigger] positions[j] by {
            assert(positions[j] == rest[j - 1]);
            if i > 0 {
                assert(positions[i] == rest[i - 1]);
            }
        }
        positions
    }
}

proof fn lemma_spelled_has_points(
    query: Seq<char>,
    candidate: Seq<char>,
    cursor: int,
    positions: Seq<int>,
)
    requires
        0 <= cursor <= candidate.len(),
        spelled_at(query, candidate, cursor, positions),
    ensures
        total_points(query, candidate, cursor) is Some,
    decreases query.len(),
{
    if query.len() > 0 {
        let index = position_from(candidate, query[0], cursor);
        lemma_position_from(candidate, query[0], cursor);
        let first = positions[0];
        assert(candidate[first] == query[0]);
        assert(index <= first);
        let rest = positions.skip(1);
        assert forall|i: int| 0 <= i < rest.len() implies index + 1 <= #[trigger] rest[i]
            < candidate.len() && candidate[rest[i]] == query.skip(1)[i] by {
            assert(rest[i] == positions[i + 1]);
            assert(positions[0] < positions[i + 1]);
        }
        assert forall|i: int, j: int| 0 <= i < j < rest.len() implies #[trigger] rest[i]
            < #[trigger] rest[j] by {
            assert(rest[i] == positions[i + 1] && rest[j] == positions[j + 1]);
        }
        lemma_spelled_has_points(query.skip(1), candidate, index + 1, rest);
    }
}

/// A query fits a candidate exactly when its characters occur in the candidate in
/// their order, letter case aside: taking the first place for each of them misses
/// nothing.
pub proof fn a_match_is_a_subsequence(query: Seq<char>, candidate: Seq<char>)
    ensures
        score_of(query, candidate) is Some <==> occurs_in_order(
            text::lowered(query),
            text::lowered(candidate),
        ),
{
    let low_query = text::lowered(query);
    let low_candidate = text::lowered(candidate);
    if low_query.len() == 0 {
        assert(spelled_at(low_query, low_candidate, 0, Seq::empty()));
    } else if score_of(query, candidate) is Some {
        let positions = lemma_points_spell(low_query, low_candidate, 0);
        assert(spelled_at(low_query, low_candidate, 0, positions));
    } else if occurs_in_order(low_query, low_candidate) {
        let positions = choose|positions: Seq<int>|
            spelled_at(low_query, low_candidate, 0, positions);
        lemma_spelled_has_points(low_query, low_candidate, 0, positions);
    }
}

/// The case of letters changes neither whether a query fits a candidate nor the
/// score.
pub proof fn case_does_not_matter(
    query: Seq<char>,
    other_query: Seq<char>,
    candidate: Seq<char>,
    other_candidate: Seq<char>,
)
    requires
        text::same_but_for_case(query, other_query),
        text::same_but_for_case(candidate, other_candidate),
    ensures
        score_of(query, candidate) == score_of(other_query, other_candidate),
{
}

/// Scoring texts that were put in lowercase before gives the same score, where each
/// of them is ASCII or stays the same when it is put in lowercase once more.
pub proof fn lowering_first_changes_no_score(query: Seq<char>, candidate: Seq<char>)
    requires
        vstd::utf8::is_ascii_chars(query) || text::same_but_for_case(query, text::lowered(query)),
        vstd::utf8::is_ascii_chars(candidate) || text::same_but_for_case(
            candidate,
            text::lowered(candidate),
        ),
    ensures
        score_of(text::lowered(query), text::lowered(candidate)) == score_of(query, candidate),
{
    if vstd::utf8::is_ascii_chars(query) {
        text::lowering_twice_is_lowering_once(query);
    }
    if vstd::utf8::is_ascii_chars(candidate) {
        text::lowering_twice_is_lowering_once(candidate);
    }
}

proof fn lemma_points_bounds(query: Seq<char>, candidate: Seq<char>, cursor: int)
    requires
        0 <= cursor <= candidate.len(),
    ensures
        total_points(query, candidate, cursor) matches Some(total) ==> 0 <= total <= 55
            * query.len(),
    decreases query.len(),
{
    if query.len() > 0 {
        let index = position_from(candidate, query[0], cursor);
        lemma_position_from(candidate, query[0], cursor);
        if index < candidate.len() {
            lemma_points_bounds(query.skip(1), candidate, index + 1);
            assert(0 <= points(candidate, cursor, index) <= 55);
        }
    }
}

/// A score is the plain sum of the points less the penalty for length as long as
/// the query, in lowercase, is shorter than a 55th of what 64 bits hold.
pub proof fn short_queries_do_not_wrap(query: Seq<char>, candidate: Seq<char>)
    requires
        0 < text::lowered(query).len(),
        55 * text::lowered(query).len() <= i64::MAX,
    ensures
        score_of(query, candidate) matches Some(score) ==> total_points(
            text::lowered(query),
            text::lowered(candidate),
            0,
        ) == Some(score + length_penalty(text::lowered(candidate))),
{
    lemma_points_bounds(text::lowered(query), text::lowered(candidate), 0);
}

// ---------------------------------------------------------------------------
// One item
// ---------------------------------------------------------------------------
/// A score with a bonus for the field that it was found in.
pub open spec fn boosted(score: Option<i64>, bonus: i64) -> Option<i64> {
    match score {
        Some(found) => Some(found.wrapping_add(bonus)),
        None => None,
    }
}

/// The higher of two scores; `None` only where there is neither.
pub open spec fn better(left: Option<i64>, right: Option<i64>) -> Option<i64> {
    match (left, right) {
        (Some(one), Some(other)) => if one < other {
            right
        } else {
            left
        },
        (Some(_), None) => left,
        (None, _) => right,
    }
}

/// The score on a field that may be absent.
pub open spec fn field_score(word: Seq<char>, field: Option<String>) -> Option<i64> {
    match field {
        Some(value) => score_of(word, value@),
        None => None,
    }
}

/// The best score on one of several texts, each with the bonus.
pub open spec fn best_of(word: Seq<char>, candidates: Seq<Seq<char>>, bonus: i64) -> Option<i64>
    decreases candidates.len(),
{
    if candidates.len() == 0 {
        None
    } else {
        better(
            best_of(word, candidates.drop_last(), bonus),
            boosted(score_of(word, candidates.last()), bonus),
        )
    }
}

/// The best score of one word of a query on the fields of an item.
pub open spec fn word_score(item: MenuItem, word: Seq<char>) -> Option<i64> {
    let label = boosted(score_of(word, item.label@), 1_000);
    let group = boosted(field_score(word, item.group), 600);
    let description = boosted(field_score(word, item.description), 350);
    let key = boosted(field_score(word, item.key), 250);
    let tags = best_of(word, text::texts(item.tags@), 550);
    let command = boosted(score_of(word, item.command.display()), 150);
    better(better(better(better(better(label, group), description), key), tags), command)
}

/// The sum of the scores of several words; `None` where one of them fits nothing.
pub open spec fn words_score(item: MenuItem, words: Seq<Seq<char>>) -> Option<i64>
    decreases words.len(),
{
    if words.len() == 0 {
        Some(0)
    } else {
        match (words_score(item, words.drop_last()), word_score(item, words.last())) {
            (Some(sum), Some(last)) => Some(sum.wrapping_add(last)),
            _ => None,
        }
    }
}

/// The score of a query on an item.
pub open spec fn item_score(item: MenuItem, query: Seq<char>) -> Option<i64> {
    words_score(item, text::words(query))
}

fn boost(score: Option<i64>, bonus: i64) -> (raised: Option<i64>)
    ensures
        raised == boosted(score, bonus),
{
    match score {
        Some(found) => Some(found.wrapping_add(bonus)),
        None => None,
    }
}

fn better_of(left: Option<i64>, right: Option<i64>) -> (best: Option<i64>)
    ensures
        best == better(left, right),
{
    match (left, right) {
        (Some(one), Some(other)) => if one < other {
            right
        } else {
            left
        },
        (Some(_), None) => left,
        (None, _) => right,
    }
}

fn score_field(word: &str, field: &Option<String>) -> (score: Option<i64>)
    ensures
        score == field_score(word@, *field),
{
    match field {
        Some(value) => fuzzy_score(word, value.as_str()),
        None => None,
    }
}

fn score_word(item: &MenuItem, word: &str) -> (score: Option<i64>)
    ensures
        score == word_score(*item, word@),
{
    let mut best = boost(fuzzy_score(word, item.label.as_str()), 1_000);
    best = better_of(best, boost(score_field(word, &item.group), 600));
    best = better_of(best, boost(score_field(word, &item.description), 350));
    best = better_of(best, boost(score_field(word, &item.key), 250));
    let mut tags: Option<i64> = None;
    let mut next: usize = 0;
    while next < item.tags.len()
        invariant
            next <= item.tags@.len(),
            tags == best_of(word@, text::texts(item.tags@).take(next as int), 550),
        decreases item.tags@.len() - next,
    {
        proof {
            let longer = text::texts(item.tags@).take(next + 1);
            assert(longer.drop_last() == text::texts(item.tags@).take(next as int));
            assert(longer.last() == item.tags@[next as int]@);
        }
        tags = better_of(tags, boost(fuzzy_score(word, item.tags[next].as_str()), 550));
        next = next + 1;
    }
    assert(text::texts(item.tags@).take(next as int) == text::texts(item.tags@));
    best = better_of(best, tags);
    better_of(best, boost(fuzzy_score(word, command_display(&item.command).as_str()), 150))
}

/// How well `query` fits `item`; `None` where it does not. Every word of the
/// query has to fit the label, the group, the description, the binding, a tag or
/// the command, and counts with its best score on one of them.
pub fn item_match_score(item: &MenuItem, query: &str) -> (score: Option<i64>)
    ensures
        score == item_score(*item, query@),
{
    let words = split_words(query);
    let mut total: i64 = 0;
    let mut next: usize = 0;
    while next < words.len()
        invariant
            next <= words@.len(),
            text::texts(words@) == text::words(query@),
            words_score(*item, text::words(query@).take(next as int)) == Some(total),
        decreases words@.len() - next,
    {
        proof {
            let longer = text::words(query@).take(next + 1);
            assert(longer.drop_last() == text::words(query@).take(next as int));
            assert(longer.last() == text::texts(words@)[next as int]);
        }
        match score_word(item, words[next].as_str()) {
            Some(found) => {
                total = total.wrapping_add(found);
            },
            None => {
                proof {
                    lemma_unmatched_word(*item, text::words(query@), next as int);
                }
                return None;
            },
        }
        next = next + 1;
    }
    assert(text::words(query@).take(next as int) == text::words(query@));
    Some(total)
}

proof fn lemma_unmatched_word(item: MenuItem, words: Seq<Seq<char>>, index: int)
    requires
        0 <= index < words.len(),
        word_score(item, words[index]) is None,
    ensures
        words_score(item, words) is None,
    decreases words.len(),
{
    if index < words.len() - 1 {
        assert(words.drop_last()[index] == words[index]);
        lemma_unmatched_word(item, words.drop_last(), index);
    }
}

/// The word fits one of the fields that are searched.
pub open spec fn fits_some_field(item: MenuItem, word: Seq<char>) -> bool {
    ||| score_of(word, item.label@) is Some
    ||| field_score(word, item.group) is Some
    ||| field_score(word, item.description) is Some
    ||| field_score(word, item.key) is Some
    ||| exists|i: int|
        0 <= i < item.tags@.len() && score_of(word, (#[trigger] item.tags@[i])@) is Some
    ||| score_of(word, item.command.display()) is Some
}

proof fn lemma_best_of(word: Seq<char>, candidates: Seq<Seq<char>>, bonus: i64)
    ensures
        best_of(word, candidates, bonus) is Some <==> exists|i: int|
            0 <= i < candidates.len() && score_of(word, #[trigger] candidates[i]) is Some,
    decreases candidates.len(),
{
    if candidates.len() > 0 {
        let shorter = candidates.drop_last();
        lemma_best_of(word, shorter, bonus);
        if exists|i: int|
            0 <= i < candidates.len() && score_of(word, #[trigger] candidates[i]) is Some {
            let i = choose|i: int|
                0 <= i < candidates.len() && score_of(word, #[trigger] candidates[i]) is Some;
            if i < shorter.len() {
                assert(shorter[i] == candidates[i]);
            }
        }
        if best_of(word, shorter, bonus) is Some {
            let i = choose|i: int|
                0 <= i < shorter.len() && score_of(word, #[trigger] shorter[i]) is Some;
            assert(candidates[i] == shorter[i]);
        }
        if score_of(word, candidates.last()) is Some {
            assert(score_of(word, candidates[candidates.len() - 1]) is Some);
        }
    }
}

proof fn lemma_word_fits(item: MenuItem, word: Seq<char>)
    ensures
        word_score(item, word) is Some <==> fits_some_field(item, word),
{
    let tags = text::texts(item.tags@);
    lemma_best_of(word, tags, 550);
    assert(forall|i: int| 0 <= i < tags.len() ==> #[trigger] tags[i] == item.tags@[i]@);
    if exists|i: int|
        0 <= i < item.tags@.len() && score_of(word, (#[trigger] item.tags@[i])@) is Some {
        let i = choose|i: int|
            0 <= i < item.tags@.len() && score_of(word, (#[trigger] item.tags@[i])@) is Some;
        assert(score_of(word, tags[i]) is Some);
    }
}

proof fn lemma_words_fit(item: MenuItem, words: Seq<Seq<char>>)
    ensures
        words_score(item, words) is Some <==> forall|i: int|
            0 <= i < words.len() ==> fits_some_field(item, #[trigger] words[i]),
    decreases words.len(),
{
    if words.len() > 0 {
        let shorter = words.drop_last();
        lemma_words_fit(item, shorter);
        lemma_word_fits(item, words.last());
        if words_score(item, words) is Some {
            assert forall|i: int| 0 <= i < words.len() implies fits_some_field(
                item,
                #[trigger] words[i],
            ) by {
                if i < shorter.len() {
                    assert(shorter[i] == words[i]);
                }
            }
        }
        if forall|i: int| 0 <= i < words.len() ==> fits_some_field(item, #[trigger] words[i]) {
            assert forall|i: int| 0 <= i < shorter.len() implies fits_some_field(
                item,
                #[trigger] shorter[i],
            ) by {
                assert(shorter[i] == words[i]);
            }
            assert(fits_some_field(item, words[words.len() - 1]));
        }
    }
}

/// An item is found exactly when every word of the query fits one of its label,
/// group, description, binding, tags and command.
pub proof fn found_when_every_word_fits(item: MenuItem, query: Seq<char>)
    ensures
        item_score(item, query) is Some <==> forall|i: int|
            0 <= i < text::words(query).len() ==> fits_some_field(
                item,
                #[trigger] text::words(query)[i],
            ),
{
    lemma_words_fit(item, text::words(query));
}

/// What is searched of two items is the same but for the case of letters.
pub open spec fn items_same_but_for_case(one: MenuItem, other: MenuItem) -> bool {
    &&& text::same_but_for_case(one.label@, other.label@)
    &&& text::optional_same_but_for_case(
        text::optional_text(one.group),
        text::optional_text(other.group),
    )
    &&& text::optional_same_but_for_case(
        text::optional_text(one.description),
        text::optional_text(other.description),
    )
    &&& text::optional_same_but_for_case(
        text::optional_text(one.key),
        text::optional_text(other.key),
    )
    &&& text::all_same_but_for_case(text::texts(one.tags@), text::texts(other.tags@))
    &&& text::same_but_for_case(one.command.display(), other.command.display())
}

proof fn lemma_best_of_case(
    word: Seq<char>,
    other_word: Seq<char>,
    candidates: Seq<Seq<char>>,
    others: Seq<Seq<char>>,
    bonus: i64,
)
    requires
        text::same_but_for_case(word, other_word),
        text::all_same_but_for_case(candidates, others),
    ensures
        best_of(word, candidates, bonus) == best_of(other_word, others, bonus),
    decreases candidates.len(),
{
    if candidates.len() > 0 {
        let last = candidates.len() - 1;
        assert(text::same_but_for_case(candidates[last], others[last]));
        assert forall|i: int| 0 <= i < last implies text::same_but_for_case(
            #[trigger] candidates.drop_last()[i],
            others.drop_last()[i],
        ) by {
            assert(text::same_but_for_case(candidates[i], others[i]));
        }
        lemma_best_of_case(
            word,
            other_word,
            candidates.drop_last(),
            others.drop_last(),
            bonus,
        );
    }
}

/// The case of letters changes neither whether the words of a query fit an item nor
/// the score: not in the words, and not in what is searched of the item.
pub proof fn case_does_not_matter_for_items(
    item: MenuItem,
    other_item: MenuItem,
    words: Seq<Seq<char>>,
    others: Seq<Seq<char>>,
)
    requires
        items_same_but_for_case(item, other_item),
        text::all_same_but_for_case(words, others),
    ensures
        words_score(item, words) == words_score(other_item, others),
    decreases words.len(),
{
    if words.len() > 0 {
        let last = words.len() - 1;
        assert(text::same_but_for_case(words[last], others[last]));
        lemma_best_of_case(
            words[last],
            others[last],
            text::texts(item.tags@),
            text::texts(other_item.tags@),
            550,
        );
        assert(word_score(item, words[last]) == word_score(other_item, others[last]));
        assert forall|i: int| 0 <= i < last implies text::same_but_for_case(
            #[trigger] words.drop_last()[i],
            others.drop_last()[i],
        ) by {
            assert(text::same_but_for_case(words[i], others[i]));
        }
        case_does_not_matter_for_items(
            item,
            other_item,
            words.drop_last(),
            others.drop_last(),
        );
    }
}

/// Two queries whose words are the same but for the case of letters find an item
/// with the same score.
pub proof fn the_case_of_a_query_does_not_matter(
    item: MenuItem,
    query: Seq<char>,
    other_query: Seq<char>,
)
    requires
        text::all_same_but_for_case(text::words(query), text::words(other_query)),
    ensures
        item_score(item, query) == item_score(item, other_query),
{
    case_does_not_matter_for_items(item, item, text::words(query), text::words(other_query));
}

/// An ASCII query finds an item with the same score when it is put in lowercase.
pub proof fn lowering_a_query_changes_no_score(item: MenuItem, query: Seq<char>)
    requires
        vstd::utf8::is_ascii_chars(query),
    ensures
        item_score(item, text::lowered(query)) == item_score(item, query),
{
    text::lowering_keeps_the_words(query);
    the_case_of_a_query_does_not_matter(item, query, text::lowered(query));
}

// ---------------------------------------------------------------------------
// What the scores are made of
// ---------------------------------------------------------------------------
/// Where the search for the character number `i` of a query starts: behind the
/// character found before it.
spec fn search_start(positions: Seq<int>, i: int) -> int {
    if i == 0 {
        0
    } else {
        positions[i - 1] + 1
    }
}

/// The character number `i` of the query is found at the first place behind the one
/// before it that holds it.
spec fn found_next(query: Seq<char>, candidate: Seq<char>, positions: Seq<int>, i: int) -> bool {
    &&& search_start(positions, i) <= positions[i] < candidate.len()
    &&& candidate[positions[i]] == query[i]
    &&& forall|k: int|
        search_start(positions, i) <= k < positions[i] ==> #[trigger] candidate[k] != query[i]
}

/// All characters of the query are found, one after the other.
spec fn found_in_turn(query: Seq<char>, candidate: Seq<char>, positions: Seq<int>) -> bool {
    &&& positions.len() == query.len()
    &&& forall|i: int|
        0 <= i < query.len() ==> #[trigger] found_next(query, candidate, positions, i)
}

/// What the character number `i` adds to the score: 20 for being found; 20 more at
/// the start of the text, or else 12 more behind something that is no letter or
/// digit; 15 more right behind the character found before it; and one less for each
/// character that was skipped, up to 20.
spec fn worth(candidate: Seq<char>, positions: Seq<int>, i: int) -> int {
    let position = positions[i];
    let start_bonus: int = if position == 0 {
        20
    } else if !text::in_word(candidate[position - 1]) {
        12
    } else {
        0
    };
    let run_bonus: int = if i > 0 && position == positions[i - 1] + 1 {
        15
    } else {
        0
    };
    20 + start_bonus + run_bonus - vstd::math::min(position - search_start(positions, i), 20)
}

/// What the first `count` characters add.
spec fn worths(candidate: Seq<char>, positions: Seq<int>, count: int) -> int
    decreases count,
{
    if count <= 0 {
        0
    } else {
        worths(candidate, positions, count - 1) + worth(candidate, positions, count - 1)
    }
}

proof fn lemma_worths_of_beginning(candidate: Seq<char>, positions: Seq<int>, more: int, count: int)
    requires
        0 <= count <= positions.len(),
    ensures
        worths(candidate, positions.push(more), count) == worths(candidate, positions, count),
    decreases count,
{
    if count > 0 {
        lemma_worths_of_beginning(candidate, positions, more, count - 1);
    }
}

proof fn lemma_found_one_more(
    query: Seq<char>,
    candidate: Seq<char>,
    found: Seq<int>,
    index: int,
)
    requires
        found.len() < query.len(),
        found_in_turn(query.take(found.len() as int), candidate, found),
        found_next(query, candidate, found.push(index), found.len() as int),
    ensures
        found_in_turn(query.take((found.len() + 1) as int), candidate, found.push(index)),
{
    let count = found.len() as int;
    let longer = found.push(index);
    let beginning = query.take(count + 1);
    assert forall|i: int| 0 <= i < beginning.len() implies #[trigger] found_next(
        beginning,
        candidate,
        longer,
        i,
    ) by {
        assert(beginning[i] == query[i]);
        assert(search_start(longer, i) == search_start(found, i));
        if i < count {
            assert(found_next(query.take(count), candidate, found, i));
            assert(longer[i] == found[i]);
            assert(query.take(count)[i] == query[i]);
        } else {
            assert(found_next(query, candidate, longer, i));
        }
    }
}

proof fn lemma_points_are_worths(
    query: Seq<char>,
    candidate: Seq<char>,
    found: Seq<int>,
    cursor: int,
) -> (positions: Seq<int>)
    requires
        found.len() <= query.len(),
        found_in_turn(query.take(found.len() as int), candidate, found),
        cursor == search_start(found, found.len() as int),
        0 <= cursor <= candidate.len(),
        total_points(query.skip(found.len() as int), candidate, cursor) is Some,
    ensures
        found_in_turn(query, candidate, positions),
        worths(candidate, positions, query.len() as int) == worths(
            candidate,
            found,
            found.len() as int,
        ) + total_points(query.skip(found.len() as int), candidate, cursor)->0,
    decreases query.len() - found.len(),
{
    let count = found.len() as int;
    let rest = query.skip(count);
    if count == query.len() {
        assert(query.take(count) == query);
        found
    } else {
        let wanted = rest[0];
        let index = position_from(candidate, wanted, cursor);
        lemma_position_from(candidate, wanted, cursor);
        let longer = found.push(index);
        assert(wanted == query[count]);
        assert(search_start(longer, count) == cursor);
        assert(found_next(query, candidate, longer, count));
        lemma_found_one_more(query, candidate, found, index);
        assert(rest.skip(1) == query.skip(count + 1));
        lemma_worths_of_beginning(candidate, found, index, count);
        if count > 0 {
            assert(longer[count - 1] == found[count - 1]);
            lemma_positions_not_negative(query.take(count), candidate, found, count - 1);
        }
        assert(worth(candidate, longer, count) == points(candidate, cursor, index));
        lemma_points_are_worths(query, candidate, longer, index + 1)
    }
}

proof fn lemma_positions_not_negative(
    query: Seq<char>,
    candidate: Seq<char>,
    positions: Seq<int>,
    i: int,
)
    requires
        found_in_turn(query, candidate, positions),
        0 <= i < positions.len(),
    ensures
        positions[i] >= 0,
    decreases i,
{
    assert(found_next(query, candidate, positions, i));
    if i > 0 {
        lemma_positions_not_negative(query, candidate, positions, i - 1);
    }
}

spec fn all_worths(candidate: Seq<char>, positions: Seq<int>) -> Seq<int> {
    Seq::new(positions.len(), |i: int| worth(candidate, positions, i))
}

proof fn lemma_worths_are_a_sum(candidate: Seq<char>, positions: Seq<int>, count: int)
    requires
        0 <= count <= positions.len(),
    ensures
        worths(candidate, positions, count) == all_worths(candidate, positions).take(
            count,
        ).fold_left(0, |sum: int, more: int| sum + more),
    decreases count,
{
    let all = all_worths(candidate, positions);
    if count > 0 {
        lemma_worths_are_a_sum(candidate, positions, count - 1);
        assert(all.take(count).drop_last() == all.take(count - 1));
        assert(all.take(count).last() == worth(candidate, positions, count - 1));
    }
}

/// The score of a query that fits is what its characters add, less an eighth of the
/// length of the candidate, as a 64-bit number. Each character is found at the first
/// place behind the one before it that holds it. It adds 20; 20 more at the start of
/// the text, or else 12 more behind something that is no letter or digit; 15 more right
/// behind the character before it; and one less for each character that was skipped, up
/// to 20. The empty query has the score 0.
pub proof fn a_score_is_what_the_characters_add(query: Seq<char>, candidate: Seq<char>) -> (found: (
    Seq<int>,
    Seq<int>,
))
    requires
        score_of(query, candidate) is Some,
    ensures
        text::lowered(query).len() == 0 ==> score_of(query, candidate) == Some(0i64),
        text::lowered(query).len() > 0 ==> found.0.len() == text::lowered(query).len()
            && found.1.len() == text::lowered(query).len(),
        text::lowered(query).len() > 0 ==> forall|i: int|
            0 <= i < text::lowered(query).len() ==> (if i == 0 {
                0
            } else {
                found.0[i - 1] + 1
            }) <= #[trigger] found.0[i] < text::lowered(candidate).len(),
        text::lowered(query).len() > 0 ==> forall|i: int|
            0 <= i < text::lowered(query).len() ==> text::lowered(
                candidate,
            )[#[trigger] found.0[i]] == text::lowered(query)[i],
        text::lowered(query).len() > 0 ==> forall|i: int, k: int|
            0 <= i < text::lowered(query).len() && (if i == 0 {
                0
            } else {
                found.0[i - 1] + 1
            }) <= k < found.0[i] ==> #[trigger] text::lowered(candidate)[k]
                != #[trigger] text::lowered(query)[i],
        text::lowered(query).len() > 0 ==> forall|i: int|
            0 <= i < text::lowered(query).len() ==> #[trigger] found.1[i] == 20 + (
            if found.0[i] == 0 {
                20int
            } else if !text::in_word(text::lowered(candidate)[found.0[i] - 1]) {
                12
            } else {
                0
            }) + (if i > 0 && found.0[i] == found.0[i - 1] + 1 {
                15int
            } else {
                0
            }) - vstd::math::min(
                found.0[i] - (if i == 0 {
                    0
                } else {
                    found.0[i - 1] + 1
                }),
                20,
            ),
        text::lowered(query).len() > 0 && text::lowered(candidate).len() <= i64::MAX ==> score_of(
            query,
            candidate,
        ) == Some(
            i64_specs::signed_crop(
                found.1.fold_left(0, |sum: int, more: int| sum + more) - text::lowered(
                    candidate,
                ).len() / 8,
            ),
        ),
{
    let low_query = text::lowered(query);
    let low_candidate = text::lowered(candidate);
    if low_query.len() > 0 {
        let nothing = Seq::<int>::empty();
        assert(low_query.skip(0) == low_query);
        assert(found_in_turn(low_query.take(0), low_candidate, nothing));
        let positions = lemma_points_are_worths(low_query, low_candidate, nothing, 0);
        let added = all_worths(low_candidate, positions);
        let count = positions.len() as int;
        lemma_worths_are_a_sum(low_candidate, positions, count);
        assert(added.take(count) == added);
        assert forall|i: int| 0 <= i < low_query.len() implies found_next(
            low_query,
            low_candidate,
            positions,
            i,
        ) && #[trigger] added[i] == worth(low_candidate, positions, i) by {
            assert(found_next(low_query, low_candidate, positions, i));
        }
        assert forall|i: int| 0 <= i < low_query.len() implies #[trigger] positions[i]
            < low_candidate.len() && low_candidate[positions[i]] == low_query[i] && search_start(
            positions,
            i,
        ) <= positions[i] by {
            assert(found_next(low_query, low_candidate, positions, i));
        }
        assert forall|i: int, k: int|
            0 <= i < low_query.len() && search_start(positions, i) <= k < positions[i] implies #[trigger] low_candidate[k]
            != #[trigger] low_query[i] by {
            assert(found_next(low_query, low_candidate, positions, i));
        }
        assert(total_points(low_query, low_candidate, 0) == Some(
            worths(low_candidate, positions, count),
        ));
        assert(added.fold_left(0, |sum: int, more: int| sum + more) == worths(
            low_candidate,
            positions,
            count,
        ));
        if low_candidate.len() <= i64::MAX {
            assert(score_of(query, candidate) == Some(
                i64_specs::signed_crop(
                    added.fold_left(0, |sum: int, more: int| sum + more) - low_candidate.len() / 8,
                ),
            ));
        }
        (positions, added)
    } else {
        (Seq::empty(), Seq::empty())
    }
}

/// A word counts with its best field: its score on an item is at least the score on
/// each field that it fits, raised by 1000 for the label, 600 for the group, 550 for
/// a tag, 350 for the description, 250 for the binding and 150 for the command; and it
/// is one of these.
pub proof fn a_word_counts_with_its_best_field(item: MenuItem, word: Seq<char>)
    ensures
        score_of(word, item.label@) matches Some(score) ==> word_score(item, word) is Some
            && word_score(item, word)->0 >= score.wrapping_add(1_000),
        item.group matches Some(group) ==> (score_of(word, group@) matches Some(score)
            ==> word_score(item, word) is Some && word_score(item, word)->0 >= score.wrapping_add(
            600,
        )),
        forall|i: int|
            0 <= i < item.tags@.len() ==> (score_of(word, (#[trigger] item.tags@[i])@) matches Some(
                score,
            ) ==> word_score(item, word) is Some && word_score(item, word)->0
                >= score.wrapping_add(550)),
        item.description matches Some(description) ==> (score_of(word, description@) matches Some(
            score,
        ) ==> word_score(item, word) is Some && word_score(item, word)->0 >= score.wrapping_add(
            350,
        )),
        item.key matches Some(key) ==> (score_of(word, key@) matches Some(score) ==> word_score(
            item,
            word,
        ) is Some && word_score(item, word)->0 >= score.wrapping_add(250)),
        score_of(word, item.command.display()) matches Some(score) ==> word_score(item, word)
            is Some && word_score(item, word)->0 >= score.wrapping_add(150),
        word_score(item, word) matches Some(best) ==> {
            ||| score_of(word, item.label@) matches Some(score) && best == score.wrapping_add(1_000)
            ||| item.group matches Some(group) && score_of(word, group@) matches Some(score) && best
                == score.wrapping_add(600)
            ||| exists|i: int|
                0 <= i < item.tags@.len() && score_of(word, (#[trigger] item.tags@[i])@) is Some
                    && best == (score_of(word, item.tags@[i]@)->0).wrapping_add(550)
            ||| item.description matches Some(description) && score_of(word, description@) matches Some(
                score,
            ) && best == score.wrapping_add(350)
            ||| item.key matches Some(key) && score_of(word, key@) matches Some(score) && best
                == score.wrapping_add(250)
            ||| score_of(word, item.command.display()) matches Some(score) && best
                == score.wrapping_add(150)
        },
{
    let tags = text::texts(item.tags@);
    lemma_best_is_a_maximum(word, tags, 550);
    assert forall|i: int| 0 <= i < item.tags@.len() implies (score_of(
        word,
        (#[trigger] item.tags@[i])@,
    ) matches Some(score) ==> word_score(item, word) is Some && word_score(item, word)->0
        >= score.wrapping_add(550)) by {
        assert(tags[i] == item.tags@[i]@);
    }
    if let Some(best) = best_of(word, tags, 550) {
        let i = choose|i: int|
            0 <= i < tags.len() && score_of(word, #[trigger] tags[i]) is Some && best == (score_of(
                word,
                tags[i],
            )->0).wrapping_add(550);
        assert(tags[i] == item.tags@[i]@);
        assert(score_of(word, item.tags@[i]@) is Some);
    }
}

proof fn lemma_best_is_a_maximum(word: Seq<char>, candidates: Seq<Seq<char>>, bonus: i64)
    ensures
        forall|i: int|
            0 <= i < candidates.len() ==> (score_of(word, #[trigger] candidates[i]) matches Some(
                score,
            ) ==> best_of(word, candidates, bonus) is Some && best_of(word, candidates, bonus)->0
                >= score.wrapping_add(bonus)),
        best_of(word, candidates, bonus) matches Some(best) ==> exists|i: int|
            0 <= i < candidates.len() && score_of(word, #[trigger] candidates[i]) is Some && best
                == (score_of(word, candidates[i])->0).wrapping_add(bonus),
    decreases candidates.len(),
{
    if candidates.len() > 0 {
        let shorter = candidates.drop_last();
        let last = candidates.len() - 1;
        lemma_best_is_a_maximum(word, shorter, bonus);
        assert forall|i: int| 0 <= i < candidates.len() implies (score_of(
            word,
            #[trigger] candidates[i],
        ) matches Some(score) ==> best_of(word, candidates, bonus) is Some && best_of(
            word,
            candidates,
            bonus,
        )->0 >= score.wrapping_add(bonus)) by {
            if i < last {
                assert(shorter[i] == candidates[i]);
            }
        }
        if let Some(best) = best_of(word, candidates, bonus) {
            let before = best_of(word, shorter, bonus);
            if before == Some(best) {
                let i = choose|i: int|
                    0 <= i < shorter.len() && score_of(word, #[trigger] shorter[i]) is Some && best
                        == (score_of(word, shorter[i])->0).wrapping_add(bonus);
                assert(candidates[i] == shorter[i]);
            } else {
                assert(score_of(word, candidates[last]) is Some);
            }
        }
    }
}

/// Another tag never lowers the score of a word on an item, and never makes it fit no
/// more.
pub proof fn another_tag_never_lowers_a_score(
    item: MenuItem,
    tagged: MenuItem,
    word: Seq<char>,
)
    requires
        tagged.label@ == item.label@,
        text::optional_text(tagged.group) == text::optional_text(item.group),
        text::optional_text(tagged.description) == text::optional_text(item.description),
        text::optional_text(tagged.key) == text::optional_text(item.key),
        tagged.command.display() == item.command.display(),
        tagged.tags@.len() > 0,
        text::texts(tagged.tags@).drop_last() == text::texts(item.tags@),
    ensures
        word_score(item, word) matches Some(score) ==> word_score(tagged, word) is Some
            && word_score(tagged, word)->0 >= score,
{
}

/// The words of a query add up: the score of two lists of words together is the sum of
/// their scores, and there is none where one of them has none. One word has its own
/// score, and no words the score 0.
pub proof fn the_words_of_a_query_add_up(
    item: MenuItem,
    left: Seq<Seq<char>>,
    right: Seq<Seq<char>>,
    word: Seq<char>,
)
    ensures
        words_score(item, Seq::empty()) == Some(0i64),
        words_score(item, seq![word]) == word_score(item, word),
        words_score(item, left + right) == (match (
            words_score(item, left),
            words_score(item, right),
        ) {
            (Some(one), Some(other)) => Some(one.wrapping_add(other)),
            _ => None,
        }),
    decreases right.len(),
{
    assert(seq![word].drop_last() == Seq::<Seq<char>>::empty());
    assert(words_score(item, Seq::<Seq<char>>::empty()) == Some(0i64));
    if right.len() == 0 {
        assert(left + right == left);
    } else {
        assert((left + right).drop_last() == left + right.drop_last());
        the_words_of_a_query_add_up(item, left, right.drop_last(), word);
    }
}

/// A query is scored word by word: white space between two pieces of it adds their
/// scores, and a piece without white space has the score of that word.
pub proof fn a_query_is_scored_word_by_word(
    item: MenuItem,
    left: Seq<char>,
    space: char,
    right: Seq<char>,
)
    requires
        text::white_space(space),
    ensures
        item_score(item, left.push(space) + right) == (match (
            item_score(item, left),
            item_score(item, right),
        ) {
            (Some(one), Some(other)) => Some(one.wrapping_add(other)),
            _ => None,
        }),
        left.len() > 0 && (forall|i: int|
            0 <= i < left.len() ==> !text::white_space(#[trigger] left[i])) ==> item_score(
            item,
            left,
        ) == word_score(item, left),
        item_score(item, Seq::empty()) == Some(0i64),
{
    text::white_space_separates_words(left, space, right);
    the_words_of_a_query_add_up(item, text::words(left), text::words(right), left);
    text::no_text_has_no_words();
    if left.len() > 0 && forall|i: int|
        0 <= i < left.len() ==> !text::white_space(#[trigger] left[i]) {
        text::a_text_without_white_space_is_one_word(left);
    }
}

} // verus!

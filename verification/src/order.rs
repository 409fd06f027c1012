//! The order in which items are listed.
use crate::config;
use crate::menu::{MenuConfig, MenuItem};
use crate::recent;
use crate::recent::{RecentStore, MAX_RECENT_ITEMS};
use crate::search;
use crate::search::item_match_score;
use crate::text;
use crate::text::{chars_of, is_blank, lower};
use vstd::prelude::*;

verus! {

// ---------------------------------------------------------------------------
// Sort keys
// ---------------------------------------------------------------------------
/// `left` comes before `right` when texts are compared character by character.
pub open spec fn text_before(left: Seq<char>, right: Seq<char>) -> bool
    decreases left.len(),
{
    if right.len() == 0 {
        false
    } else if left.len() == 0 {
        true
    } else {
        left[0] < right[0] || (left[0] == right[0] && text_before(left.skip(1), right.skip(1)))
    }
}

/// What decides where an item is listed: first the class, then the rank, then
/// the text, and last the place of the item in the menu.
pub struct Key {
    pub class: int,
    pub rank: int,
    pub text: Seq<char>,
    pub index: int,
}

/// An item with the key `left` is listed before one with the key `right`.
pub open spec fn key_before(left: Key, right: Key) -> bool {
    ||| left.class < right.class
    ||| left.class == right.class && left.rank < right.rank
    ||| left.class == right.class && left.rank == right.rank && text_before(left.text, right.text)
    ||| left.class == right.class && left.rank == right.rank && left.text == right.text
        && left.index < right.index
}

proof fn lemma_text_irreflexive(value: Seq<char>)
    ensures
        !text_before(value, value),
    decreases value.len(),
{
    if value.len() > 0 {
        lemma_text_irreflexive(value.skip(1));
    }
}

proof fn lemma_text_transitive(first: Seq<char>, second: Seq<char>, third: Seq<char>)
    requires
        text_before(first, second),
        text_before(second, third),
    ensures
        text_before(first, third),
    decreases first.len(),
{
    if first.len() > 0 && first[0] == second[0] && second[0] == third[0] {
        lemma_text_transitive(first.skip(1), second.skip(1), third.skip(1));
    }
}

proof fn lemma_text_total(left: Seq<char>, right: Seq<char>)
    ensures
        text_before(left, right) || text_before(right, left) || left == right,
    decreases left.len(),
{
    if left.len() > 0 && right.len() > 0 {
        if left[0] == right[0] {
            lemma_text_total(left.skip(1), right.skip(1));
            if left.skip(1) == right.skip(1) {
                assert(left == seq![left[0]] + left.skip(1));
                assert(right == seq![right[0]] + right.skip(1));
            }
        }
    } else if left.len() == 0 && right.len() == 0 {
        assert(left == right);
    }
}

proof fn lemma_key_transitive(first: Key, second: Key, third: Key)
    requires
        key_before(first, second),
        key_before(second, third),
    ensures
        key_before(first, third),
{
    if text_before(first.text, second.text) && text_before(second.text, third.text) {
        lemma_text_transitive(first.text, second.text, third.text);
    }
}

proof fn lemma_key_total(left: Key, right: Key)
    ensures
        key_before(left, right) || key_before(right, left) || left == right,
{
    lemma_text_total(left.text, right.text);
}

proof fn lemma_key_irreflexive(key: Key)
    ensures
        !key_before(key, key),
{
    lemma_text_irreflexive(key.text);
}

struct SortKey {
    class: u8,
    rank: i128,
    text: Vec<char>,
    index: usize,
}

impl View for SortKey {
    type V = Key;

    closed spec fn view(&self) -> Key {
        Key {
            class: self.class as int,
            rank: self.rank as int,
            text: self.text@,
            index: self.index as int,
        }
    }
}

spec fn views(keys: Seq<SortKey>) -> Seq<Key> {
    keys.map_values(|key: SortKey| key@)
}

/// The first place where the texts differ, or the end of the shorter one.
fn common_length(left: &Vec<char>, right: &Vec<char>) -> (length: usize)
    ensures
        length <= left@.len(),
        length <= right@.len(),
        length < left@.len() && length < right@.len() ==> left@[length as int]
            != right@[length as int],
        text_before(left@, right@) == text_before(
            left@.skip(length as int),
            right@.skip(length as int),
        ),
        left@ == right@ <==> left@.skip(length as int) == right@.skip(length as int),
{
    let mut length: usize = 0;
    assert(left@.skip(0) == left@ && right@.skip(0) == right@);
    while length < left.len() && length < right.len() && left[length] == right[length]
        invariant
            length <= left@.len(),
            length <= right@.len(),
            text_before(left@, right@) == text_before(
                left@.skip(length as int),
                right@.skip(length as int),
            ),
            left@ == right@ <==> left@.skip(length as int) == right@.skip(length as int),
        decreases left@.len() - length,
    {
        proof {
            let left_rest = left@.skip(length as int);
            let right_rest = right@.skip(length as int);
            assert(left_rest.skip(1) == left@.skip(length + 1));
            assert(right_rest.skip(1) == right@.skip(length + 1));
            assert(left_rest == seq![left_rest[0]] + left_rest.skip(1));
            assert(right_rest == seq![right_rest[0]] + right_rest.skip(1));
        }
        length = length + 1;
    }
    length
}

fn is_key_before(left: &SortKey, right: &SortKey) -> (answer: bool)
    ensures
        answer == key_before(left@, right@),
{
    if left.class != right.class {
        return left.class < right.class;
    }
    if left.rank != right.rank {
        return left.rank < right.rank;
    }
    let length = common_length(&left.text, &right.text);
    let ghost left_rest = left.text@.skip(length as int);
    let ghost right_rest = right.text@.skip(length as int);
    if length == right.text.len() {
        if length == left.text.len() {
            assert(left_rest == right_rest);
            return left.index < right.index;
        }
        assert(left_rest.len() > 0 && right_rest.len() == 0);
        return false;
    }
    if length == left.text.len() {
        assert(left_rest.len() == 0 && right_rest.len() > 0);
        return true;
    }
    assert(left_rest[0] == left.text@[length as int]);
    assert(right_rest[0] == right.text@[length as int]);
    left.text[length] < right.text[length]
}

/// Every key comes before all that follow it.
pub open spec fn sorted(keys: Seq<Key>) -> bool {
    forall|a: int, b: int|
        0 <= a < b < keys.len() ==> key_before(#[trigger] keys[a], #[trigger] keys[b])
}

/// Puts `key` where it belongs among sorted keys.
fn insert_key(keys: &mut Vec<SortKey>, key: SortKey)
    requires
        sorted(views(old(keys)@)),
        !views(old(keys)@).contains(key@),
    ensures
        sorted(views(final(keys)@)),
        views(final(keys)@).to_multiset() == views(old(keys)@).to_multiset().insert(key@),
{
    let ghost before = views(keys@);
    let mut place: usize = keys.len();
    while place > 0 && is_key_before(&key, &keys[place - 1])
        invariant
            before == views(keys@),
            place <= keys@.len(),
            place < keys@.len() ==> key_before(key@, before[place as int]),
        decreases place,
    {
        assert(before[place - 1] == keys@[place - 1]@);
        place = place - 1;
    }
    let ghost added = key@;
    keys.insert(place, key);
    proof {
        let after = views(keys@);
        assert(after == before.insert(place as int, added));
        before.insert_ensures(place as int, added);
        vstd::seq_lib::to_multiset_insert(before, place as int, added);
        if place > 0 {
            assert(!key_before(added, before[place - 1]));
            lemma_key_total(added, before[place - 1]);
            assert(before[place - 1] != added);
            assert(key_before(before[place - 1], added));
        }
        assert forall|a: int, b: int| 0 <= a < b < after.len() implies key_before(
            #[trigger] after[a],
            #[trigger] after[b],
        ) by {
            if b == place {
                if a < place - 1 {
                    assert(key_before(before[a], before[place - 1]));
                    lemma_key_transitive(before[a], before[place - 1], added);
                }
            } else if a == place {
                if b > place + 1 {
                    assert(key_before(before[place as int], before[b - 1]));
                    lemma_key_transitive(added, before[place as int], before[b - 1]);
                }
            } else {
                let from = if a < place { a } else { a - 1 };
                let to = if b < place { b } else { b - 1 };
                assert(key_before(before[from], before[to]));
            }
        }
    }
}

// ---------------------------------------------------------------------------
// The keys of the items
// ---------------------------------------------------------------------------
/// How many of the items before `end` are no favorites and have the identity
/// `id`. There is never more than one in a well-formed menu.
pub open spec fn namesakes(items: Seq<MenuItem>, id: Seq<char>, end: int) -> nat
    decreases end,
{
    if end <= 0 {
        0
    } else {
        namesakes(items, id, end - 1) + (if !items[end - 1].favorite && items[end - 1].stable_id@
            == id {
            1nat
        } else {
            0
        })
    }
}

/// Where `id` stands among `ids` from `from` on for the time after `passed` other
/// times; the length where it does not stand there so often.
pub open spec fn occurrence(ids: Seq<Seq<char>>, id: Seq<char>, from: int, passed: nat) -> int
    decreases ids.len() - from,
{
    if from < 0 || from >= ids.len() {
        ids.len() as int
    } else if ids[from] != id {
        occurrence(ids, id, from + 1, passed)
    } else if passed > 0 {
        occurrence(ids, id, from + 1, (passed - 1) as nat)
    } else {
        from
    }
}

/// The place among the recently used commands that lists the item at `index`.
/// Where several items share an identity, each place lists the next of them.
pub open spec fn recent_place(items: Seq<MenuItem>, ids: Seq<Seq<char>>, index: int) -> Option<
    int,
> {
    let id = items[index].stable_id@;
    let place = occurrence(ids, id, 0, namesakes(items, id, index));
    if place < ids.len() {
        Some(place)
    } else {
        None
    }
}

/// The group by which an item is listed.
pub open spec fn listed_group(item: MenuItem) -> Seq<char> {
    text::lowered(config::text_or(item.group, "Other"@))
}

/// The key of an item while nothing is searched for: favorites come first, in the
/// order of the menu; then the recently used, the latest first; then the rest by
/// group.
pub open spec fn browse_key(items: Seq<MenuItem>, ids: Seq<Seq<char>>, index: int) -> Key {
    if items[index].favorite {
        Key { class: 0, rank: 0, text: Seq::empty(), index }
    } else {
        match recent_place(items, ids, index) {
            Some(place) => Key { class: 1, rank: place, text: Seq::empty(), index },
            None => Key { class: 2, rank: 0, text: listed_group(items[index]), index },
        }
    }
}

/// What a search score gains for a favorite.
pub open spec fn favorite_bonus(item: MenuItem) -> i64 {
    if item.favorite {
        100
    } else {
        0
    }
}

/// What a search score gains for recent use.
pub open spec fn recent_bonus(ids: Seq<Seq<char>>, item: MenuItem) -> i64 {
    match recent::rank_of(ids, item.stable_id@) {
        Some(rank) => if rank < MAX_RECENT_ITEMS {
            (MAX_RECENT_ITEMS - rank) as i64
        } else {
            0
        },
        None => 0,
    }
}

/// The score by which an item is listed in a search; `None` where it is not.
pub open spec fn listed_score(item: MenuItem, query: Seq<char>, ids: Seq<Seq<char>>) -> Option<
    i64,
> {
    match search::item_score(item, query) {
        Some(score) => Some(
            score.wrapping_add(favorite_bonus(item)).wrapping_add(recent_bonus(ids, item)),
        ),
        None => None,
    }
}

/// The key of an item that a search finds: the highest score first, equal scores
/// by label.
pub open spec fn search_key(
    items: Seq<MenuItem>,
    query: Seq<char>,
    ids: Seq<Seq<char>>,
    index: int,
) -> Key {
    Key {
        class: 0,
        rank: -(listed_score(items[index], query, ids)->0 as int),
        text: items[index].label@,
        index,
    }
}

/// The item at `index` is listed.
pub open spec fn listed(
    items: Seq<MenuItem>,
    query: Seq<char>,
    ids: Seq<Seq<char>>,
    index: int,
) -> bool {
    0 <= index < items.len() && (text::blank(query) || listed_score(items[index], query, ids)
        is Some)
}

/// The key by which the item at `index` is listed.
pub open spec fn listing_key(
    items: Seq<MenuItem>,
    query: Seq<char>,
    ids: Seq<Seq<char>>,
    index: int,
) -> Key {
    if text::blank(query) {
        browse_key(items, ids, index)
    } else {
        search_key(items, query, ids, index)
    }
}

/// `order` lists the right items, each once, in the right order.
pub open spec fn is_listing(
    items: Seq<MenuItem>,
    query: Seq<char>,
    ids: Seq<Seq<char>>,
    order: Seq<usize>,
) -> bool {
    &&& forall|a: int|
        0 <= a < order.len() ==> listed(items, query, ids, #[trigger] order[a] as int)
    &&& forall|index: int| #[trigger]
        listed(items, query, ids, index) ==> order.contains(index as usize)
    &&& forall|a: int, b: int|
        0 <= a < b < order.len() ==> key_before(
            listing_key(items, query, ids, #[trigger] order[a] as int),
            listing_key(items, query, ids, #[trigger] order[b] as int),
        )
}

/// The listing for a query and a history. There is exactly one, see
/// `there_is_a_listing` and `the_listing_is_determined`.
pub open spec fn listing(items: Seq<MenuItem>, query: Seq<char>, ids: Seq<Seq<char>>) -> Seq<
    usize,
> {
    choose|order: Seq<usize>| is_listing(items, query, ids, order)
}

fn count_namesakes(items: &Vec<MenuItem>, index: usize) -> (count: usize)
    requires
        index < items@.len(),
    ensures
        count == namesakes(items@, items@[index as int].stable_id@, index as int),
{
    let mut count: usize = 0;
    let mut next: usize = 0;
    while next < index
        invariant
            next <= index < items@.len(),
            count <= next,
            count == namesakes(items@, items@[index as int].stable_id@, next as int),
        decreases index - next,
    {
        if !items[next].favorite && items[next].stable_id == items[index].stable_id {
            count = count + 1;
        }
        next = next + 1;
    }
    count
}

fn find_recent_place(items: &Vec<MenuItem>, recents: &RecentStore, index: usize) -> (place: Option<
    usize,
>)
    requires
        index < items@.len(),
    ensures
        match place {
            Some(found) => recent_place(items@, recents.list(), index as int) == Some(found as int),
            None => recent_place(items@, recents.list(), index as int) is None,
        },
{
    let ghost id = items@[index as int].stable_id@;
    let mut passed: usize = count_namesakes(items, index);
    let mut next: usize = 0;
    while next < recents.ids.len()
        invariant
            index < items@.len(),
            id == items@[index as int].stable_id@,
            next <= recents.ids@.len(),
            occurrence(recents.list(), id, 0, namesakes(items@, id, index as int)) == occurrence(
                recents.list(),
                id,
                next as int,
                passed as nat,
            ),
        decreases recents.ids@.len() - next,
    {
        assert(recents.list()[next as int] == recents.ids@[next as int]@);
        if recents.ids[next] == items[index].stable_id {
            if passed == 0 {
                return Some(next);
            }
            passed = passed - 1;
        }
        next = next + 1;
    }
    None
}

fn make_browse_key(items: &Vec<MenuItem>, recents: &RecentStore, index: usize) -> (key: SortKey)
    requires
        index < items@.len(),
    ensures
        key@ == browse_key(items@, recents.list(), index as int),
        key.index == index,
{
    let item = &items[index];
    if item.favorite {
        return SortKey { class: 0, rank: 0, text: Vec::new(), index };
    }
    match find_recent_place(items, recents, index) {
        Some(place) => SortKey { class: 1, rank: place as i128, text: Vec::new(), index },
        None => {
            let group = match &item.group {
                Some(group) => lower(group.as_str()),
                None => lower("Other"),
            };
            SortKey { class: 2, rank: 0, text: chars_of(group.as_str()), index }
        },
    }
}

fn make_search_key(
    items: &Vec<MenuItem>,
    query: &str,
    recents: &RecentStore,
    index: usize,
) -> (key: Option<SortKey>)
    requires
        index < items@.len(),
    ensures
        key is Some <==> listed_score(items@[index as int], query@, recents.list()) is Some,
        key matches Some(found) ==> found.index == index && found@ == search_key(
            items@,
            query@,
            recents.list(),
            index as int,
        ),
{
    let item = &items[index];
    let mut score: i64 = match item_match_score(item, query) {
        Some(score) => score,
        None => return None,
    };
    if item.favorite {
        score = score.wrapping_add(100);
    }
    if let Some(rank) = recents.rank(item.stable_id.as_str()) {
        if rank < MAX_RECENT_ITEMS {
            score = score.wrapping_add((MAX_RECENT_ITEMS - rank) as i64);
        }
    }
    Some(
        SortKey { class: 0, rank: -(score as i128), text: chars_of(item.label.as_str()), index },
    )
}

/// The places in the menu of the items to list, in order. While the query is
/// blank these are all items: favorites first, then the recently used, then the
/// others by group. Else they are the items that the query finds, the best match
/// first.
pub fn ordered_items(config: &MenuConfig, query: &str, recents: &RecentStore) -> (order: Vec<usize>)
    ensures
        is_listing(config.items@, query@, recents.list(), order@),
        order@ == listing(config.items@, query@, recents.list()),
        text::blank(query@) ==> order@.len() == config.items@.len(),
        order@.len() <= config.items@.len(),
{
    let browsing = is_blank(query);
    let mut keys: Vec<SortKey> = Vec::new();
    let mut next: usize = 0;
    let ghost items = config.items@;
    let ghost ids = recents.list();
    proof {
        views(keys@).to_multiset_ensures();
    }
    while next < config.items.len()
        invariant
            items == config.items@,
            ids == recents.list(),
            browsing == text::blank(query@),
            next <= items.len(),
            sorted(views(keys@)),
            keys@.len() <= next,
            browsing ==> keys@.len() == next,
            forall|key: Key| #[trigger]
                views(keys@).contains(key) ==> 0 <= key.index < next && listed(
                    items,
                    query@,
                    ids,
                    key.index,
                ) && key == listing_key(items, query@, ids, key.index),
            forall|index: int|
                0 <= index < next && #[trigger] listed(items, query@, ids, index) ==> views(
                    keys@,
                ).contains(listing_key(items, query@, ids, index)),
        decreases items.len() - next,
    {
        let ghost before = views(keys@);
        let key = if browsing {
            Some(make_browse_key(&config.items, recents, next))
        } else {
            make_search_key(&config.items, query, recents, next)
        };
        if let Some(key) = key {
            let ghost added = key@;
            proof {
                assert(added == listing_key(items, query@, ids, next as int));
                if before.contains(added) {
                    assert(added.index < next);
                }
            }
            insert_key(&mut keys, key);
            proof {
                let after = views(keys@);
                before.to_multiset_ensures();
                after.to_multiset_ensures();
                assert forall|other: Key| #[trigger]
                    after.contains(other) <==> before.contains(other) || other == added by {
                    vstd::seq_lib::to_multiset_contains(after, other);
                    vstd::seq_lib::to_multiset_contains(before, other);
                }
                assert(keys@.len() == before.len() + 1);
            }
        }
        next = next + 1;
    }
    let mut order: Vec<usize> = Vec::new();
    let mut at: usize = 0;
    let ghost all = views(keys@);
    while at < keys.len()
        invariant
            at <= keys@.len(),
            all == views(keys@),
            order@.len() == at,
            forall|i: int| 0 <= i < at ==> (#[trigger] order@[i]) as int == all[i].index,
        decreases keys@.len() - at,
    {
        assert(all[at as int] == keys@[at as int]@);
        order.push(keys[at].index);
        at = at + 1;
    }
    proof {
        assert forall|i: int| 0 <= i < order@.len() implies {
            let index = (#[trigger] order@[i]) as int;
            &&& listed(items, query@, ids, index)
            &&& all[i] == listing_key(items, query@, ids, index)
        } by {
            assert(all.contains(all[i]));
        }
        assert forall|index: int| #[trigger]
            listed(items, query@, ids, index) implies order@.contains(index as usize) by {
            let key = listing_key(items, query@, ids, index);
            assert(all.contains(key));
            let i = choose|i: int| 0 <= i < all.len() && all[i] == key;
            assert(order@[i] == index as usize);
        }
        assert forall|a: int, b: int| 0 <= a < b < order@.len() implies key_before(
            listing_key(items, query@, ids, #[trigger] order@[a] as int),
            listing_key(items, query@, ids, #[trigger] order@[b] as int),
        ) by {
            assert(key_before(all[a], all[b]));
        }
        assert(is_listing(items, query@, ids, order@));
        the_listing_is_determined(items, query@, ids, order@, listing(items, query@, ids));
    }
    order
}

// ---------------------------------------------------------------------------
// Laws
// ---------------------------------------------------------------------------
proof fn lemma_listing_distinct(
    items: Seq<MenuItem>,
    query: Seq<char>,
    ids: Seq<Seq<char>>,
    order: Seq<usize>,
    a: int,
    b: int,
)
    requires
        is_listing(items, query, ids, order),
        0 <= a < b < order.len(),
    ensures
        order[a] != order[b],
{
    lemma_key_irreflexive(listing_key(items, query, ids, order[a] as int));
}

/// The place in the other listing of an item that comes behind a common beginning
/// is behind that beginning, too.
proof fn lemma_place_in_other(
    items: Seq<MenuItem>,
    query: Seq<char>,
    ids: Seq<Seq<char>>,
    order: Seq<usize>,
    other: Seq<usize>,
    at: int,
) -> (place: int)
    requires
        is_listing(items, query, ids, order),
        is_listing(items, query, ids, other),
        0 <= at < order.len(),
        at <= other.len(),
        forall|m: int| 0 <= m < at ==> order[m] == other[m],
    ensures
        at <= place < other.len(),
        other[place] == order[at],
{
    let index = order[at] as int;
    assert(listed(items, query, ids, index));
    assert(other.contains(index as usize));
    let place = choose|place: int| 0 <= place < other.len() && other[place] == order[at];
    if place < at {
        lemma_listing_distinct(items, query, ids, order, place, at);
    }
    place
}

proof fn lemma_common_beginning(
    items: Seq<MenuItem>,
    query: Seq<char>,
    ids: Seq<Seq<char>>,
    order: Seq<usize>,
    other: Seq<usize>,
    length: int,
)
    requires
        is_listing(items, query, ids, order),
        is_listing(items, query, ids, other),
        0 <= length <= order.len(),
        length <= other.len(),
    ensures
        forall|m: int| 0 <= m < length ==> order[m] == other[m],
    decreases length,
{
    if length > 0 {
        let at = length - 1;
        lemma_common_beginning(items, query, ids, order, other, at);
        let there = lemma_place_in_other(items, query, ids, order, other, at);
        let here = lemma_place_in_other(items, query, ids, other, order, at);
        if there > at && here > at {
            let mine = listing_key(items, query, ids, order[at] as int);
            let its = listing_key(items, query, ids, other[at] as int);
            assert(key_before(
                listing_key(items, query, ids, order[at] as int),
                listing_key(items, query, ids, order[here] as int),
            ));
            assert(key_before(
                listing_key(items, query, ids, other[at] as int),
                listing_key(items, query, ids, other[there] as int),
            ));
            lemma_key_transitive(mine, its, mine);
            lemma_key_irreflexive(mine);
        }
    }
}

/// There is only one way to list the items of a menu for a query and a history.
pub proof fn the_listing_is_determined(
    items: Seq<MenuItem>,
    query: Seq<char>,
    ids: Seq<Seq<char>>,
    order: Seq<usize>,
    other: Seq<usize>,
)
    requires
        is_listing(items, query, ids, order),
        is_listing(items, query, ids, other),
    ensures
        order == other,
{
    if order.len() < other.len() {
        lemma_common_beginning(items, query, ids, order, other, order.len() as int);
        let _ = lemma_place_in_other(items, query, ids, other, order, order.len() as int);
    } else if other.len() < order.len() {
        lemma_common_beginning(items, query, ids, order, other, other.len() as int);
        let _ = lemma_place_in_other(items, query, ids, order, other, other.len() as int);
    } else {
        lemma_common_beginning(items, query, ids, order, other, order.len() as int);
        assert(order == other);
    }
}

/// Where an item belongs in a listing of others: how many come before it.
proof fn lemma_insertion_place(
    items: Seq<MenuItem>,
    query: Seq<char>,
    ids: Seq<Seq<char>>,
    order: Seq<usize>,
    index: int,
    end: int,
) -> (place: int)
    requires
        0 <= end <= order.len(),
        !order.contains(index as usize),
        0 <= index <= usize::MAX,
        forall|a: int, b: int|
            0 <= a < b < order.len() ==> key_before(
                listing_key(items, query, ids, #[trigger] order[a] as int),
                listing_key(items, query, ids, #[trigger] order[b] as int),
            ),
        forall|a: int|
            end <= a < order.len() ==> key_before(
                listing_key(items, query, ids, index),
                listing_key(items, query, ids, #[trigger] order[a] as int),
            ),
    ensures
        0 <= place <= order.len(),
        forall|a: int|
            0 <= a < place ==> key_before(
                listing_key(items, query, ids, #[trigger] order[a] as int),
                listing_key(items, query, ids, index),
            ),
        forall|a: int|
            place <= a < order.len() ==> key_before(
                listing_key(items, query, ids, index),
                listing_key(items, query, ids, #[trigger] order[a] as int),
            ),
    decreases end,
{
    if end == 0 {
        0
    } else {
        let key = listing_key(items, query, ids, index);
        let last = listing_key(items, query, ids, order[end - 1] as int);
        if key_before(key, last) {
            lemma_insertion_place(items, query, ids, order, index, end - 1)
        } else {
            lemma_key_total(key, last);
            assert(order[end - 1] != index as usize);
            assert forall|a: int| 0 <= a < end implies key_before(
                listing_key(items, query, ids, #[trigger] order[a] as int),
                key,
            ) by {
                if a < end - 1 {
                    assert(key_before(
                        listing_key(items, query, ids, order[a] as int),
                        listing_key(items, query, ids, order[end - 1] as int),
                    ));
                    lemma_key_transitive(
                        listing_key(items, query, ids, order[a] as int),
                        last,
                        key,
                    );
                }
            }
            end
        }
    }
}

/// The first `count` items can be listed.
#[verifier::spinoff_prover]
#[verifier::rlimit(60)]
proof fn lemma_partial_listing(
    items: Seq<MenuItem>,
    query: Seq<char>,
    ids: Seq<Seq<char>>,
    count: int,
) -> (order: Seq<usize>)
    requires
        0 <= count <= items.len() <= usize::MAX,
    ensures
        forall|a: int|
            0 <= a < order.len() ==> order[a] < count && listed(
                items,
                query,
                ids,
                #[trigger] order[a] as int,
            ),
        forall|index: int|
            index < count && #[trigger] listed(items, query, ids, index) ==> order.contains(
                index as usize,
            ),
        forall|a: int, b: int|
            0 <= a < b < order.len() ==> key_before(
                listing_key(items, query, ids, #[trigger] order[a] as int),
                listing_key(items, query, ids, #[trigger] order[b] as int),
            ),
    decreases count,
{
    if count == 0 {
        Seq::empty()
    } else {
        let index = count - 1;
        let before = lemma_partial_listing(items, query, ids, index);
        if !listed(items, query, ids, index) {
            before
        } else {
            if before.contains(index as usize) {
                let a = choose|a: int| 0 <= a < before.len() && before[a] == index as usize;
                assert(before[a] < index);
            }
            let place = lemma_insertion_place(
                items,
                query,
                ids,
                before,
                index,
                before.len() as int,
            );
            let order = before.insert(place, index as usize);
            before.insert_ensures(place, index as usize);
            assert forall|a: int| 0 <= a < order.len() implies order[a] < count && listed(
                items,
                query,
                ids,
                #[trigger] order[a] as int,
            ) by {
                if a < place {
                    assert(order[a] == before[a]);
                } else if a > place {
                    assert(order[a] == before[a - 1]);
                }
            }
            assert forall|other: int| other < count && #[trigger] listed(
                items,
                query,
                ids,
                other,
            ) implies order.contains(other as usize) by {
                if other == index {
                    assert(order[place] == other as usize);
                } else {
                    let a = choose|a: int| 0 <= a < before.len() && before[a] == other as usize;
                    assert(order[if a < place {
                        a
                    } else {
                        a + 1
                    }] == other as usize);
                }
            }
            assert forall|a: int, b: int| 0 <= a < b < order.len() implies key_before(
                listing_key(items, query, ids, #[trigger] order[a] as int),
                listing_key(items, query, ids, #[trigger] order[b] as int),
            ) by {
                let from = if a < place {
                    a
                } else {
                    a - 1
                };
                let to = if b < place {
                    b
                } else {
                    b - 1
                };
                if a == place {
                    assert(order[b] == before[to]);
                } else if b == place {
                    assert(order[a] == before[from]);
                } else {
                    assert(order[a] == before[from] && order[b] == before[to]);
                }
            }
            order
        }
    }
}

/// There is a way to list the items of a menu for every query and history.
pub proof fn there_is_a_listing(items: Seq<MenuItem>, query: Seq<char>, ids: Seq<Seq<char>>)
    requires
        items.len() <= usize::MAX,
    ensures
        is_listing(items, query, ids, listing(items, query, ids)),
{
    let order = lemma_partial_listing(items, query, ids, items.len() as int);
    assert(is_listing(items, query, ids, order));
}

/// While nothing is searched for, favorites come first, then the recently used,
/// the latest first, and then the others by group. Within favorites and within a
/// group the order of the menu is kept.
pub proof fn favorites_then_recents_then_groups(
    items: Seq<MenuItem>,
    query: Seq<char>,
    ids: Seq<Seq<char>>,
    order: Seq<usize>,
    a: int,
    b: int,
)
    requires
        text::blank(query),
        is_listing(items, query, ids, order),
        0 <= a < b < order.len(),
    ensures
        ({
            let former = order[a] as int;
            let latter = order[b] as int;
            &&& items[latter].favorite ==> items[former].favorite && former < latter
            &&& !items[latter].favorite && !items[former].favorite ==> match (
                recent_place(items, ids, former),
                recent_place(items, ids, latter),
            ) {
                (Some(earlier), Some(later)) => earlier < later || earlier == later && former
                    < latter,
                (Some(_), None) => true,
                (None, Some(_)) => false,
                (None, None) => text_before(
                    listed_group(items[former]),
                    listed_group(items[latter]),
                ) || listed_group(items[former]) == listed_group(items[latter]) && former < latter,
            }
        }),
{
    assert(key_before(
        listing_key(items, query, ids, order[a] as int),
        listing_key(items, query, ids, order[b] as int),
    ));
}

/// In a search a better match comes first, and equally good ones are ordered by
/// label.
pub proof fn better_matches_come_first(
    items: Seq<MenuItem>,
    query: Seq<char>,
    ids: Seq<Seq<char>>,
    order: Seq<usize>,
    a: int,
    b: int,
)
    requires
        !text::blank(query),
        is_listing(items, query, ids, order),
        0 <= a < b < order.len(),
    ensures
        ({
            let former = items[order[a] as int];
            let latter = items[order[b] as int];
            &&& listed_score(former, query, ids) is Some
            &&& listed_score(latter, query, ids) is Some
            &&& listed_score(former, query, ids)->0 >= listed_score(latter, query, ids)->0
            &&& listed_score(former, query, ids) == listed_score(latter, query, ids)
                ==> text_before(former.label@, latter.label@) || former.label@ == latter.label@
                && order[a] < order[b]
        }),
{
    assert(key_before(
        listing_key(items, query, ids, order[a] as int),
        listing_key(items, query, ids, order[b] as int),
    ));
}

proof fn lemma_no_namesakes(config: MenuConfig, index: int, end: int)
    requires
        config.distinct_identities(),
        0 <= end <= index < config.items@.len(),
    ensures
        namesakes(config.items@, config.items@[index].stable_id@, end) == 0,
    decreases end,
{
    if end > 0 {
        lemma_no_namesakes(config, index, end - 1);
        assert(config.items@[end - 1].stable_id@ != config.items@[index].stable_id@);
    }
}

proof fn lemma_first_occurrence(ids: Seq<Seq<char>>, id: Seq<char>, from: int)
    ensures
        occurrence(ids, id, from, 0) == recent::first_position(ids, id, from),
    decreases ids.len() - from,
{
    if 0 <= from < ids.len() && ids[from] != id {
        lemma_first_occurrence(ids, id, from + 1);
    }
}

/// In a menu without shared identities the place of an item among the recently
/// used is its rank.
pub proof fn recent_place_is_rank(config: MenuConfig, ids: Seq<Seq<char>>, index: int)
    requires
        config.distinct_identities(),
        0 <= index < config.items@.len(),
    ensures
        recent_place(config.items@, ids, index) == recent::rank_of(
            ids,
            config.items@[index].stable_id@,
        ),
{
    lemma_no_namesakes(config, index, index);
    lemma_first_occurrence(ids, config.items@[index].stable_id@, 0);
}

/// Two queries whose words are the same but for the case of letters list the same
/// items in the same order.
pub proof fn the_case_of_a_query_lists_the_same(
    items: Seq<MenuItem>,
    query: Seq<char>,
    other_query: Seq<char>,
    ids: Seq<Seq<char>>,
    order: Seq<usize>,
)
    requires
        text::all_same_but_for_case(text::words(query), text::words(other_query)),
    ensures
        is_listing(items, query, ids, order) <==> is_listing(items, other_query, ids, order),
{
    text::blank_has_no_words(query);
    text::blank_has_no_words(other_query);
    assert forall|index: int| 0 <= index < items.len() implies listed_score(
        #[trigger] items[index],
        query,
        ids,
    ) == listed_score(items[index], other_query, ids) by {
        search::the_case_of_a_query_does_not_matter(items[index], query, other_query);
    }
    assert forall|index: int| #[trigger] listed(items, query, ids, index) == listed(
        items,
        other_query,
        ids,
        index,
    ) by {
        if 0 <= index < items.len() {
            assert(listed_score(items[index], query, ids) == listed_score(
                items[index],
                other_query,
                ids,
            ));
        }
    }
    assert forall|index: int| 0 <= index < items.len() implies #[trigger] listing_key(
        items,
        query,
        ids,
        index,
    ) == listing_key(items, other_query, ids, index) by {
        assert(listed_score(items[index], query, ids) == listed_score(
            items[index],
            other_query,
            ids,
        ));
    }
    if is_listing(items, query, ids, order) {
        lemma_same_listing(items, query, other_query, ids, order);
    }
    if is_listing(items, other_query, ids, order) {
        lemma_same_listing(items, other_query, query, ids, order);
    }
}

/// An ASCII query lists the same items in the same order when it is put in
/// lowercase.
pub proof fn lowering_a_query_lists_the_same(
    items: Seq<MenuItem>,
    query: Seq<char>,
    ids: Seq<Seq<char>>,
    order: Seq<usize>,
)
    requires
        vstd::utf8::is_ascii_chars(query),
    ensures
        is_listing(items, text::lowered(query), ids, order) <==> is_listing(
            items,
            query,
            ids,
            order,
        ),
{
    text::lowering_keeps_the_words(query);
    the_case_of_a_query_lists_the_same(items, query, text::lowered(query), ids, order);
}

proof fn lemma_same_listing(
    items: Seq<MenuItem>,
    query: Seq<char>,
    other: Seq<char>,
    ids: Seq<Seq<char>>,
    order: Seq<usize>,
)
    requires
        is_listing(items, query, ids, order),
        forall|index: int|
            #![trigger listed(items, query, ids, index)]
            #![trigger listed(items, other, ids, index)]
            listed(items, query, ids, index) == listed(items, other, ids, index),
        forall|index: int|
            #![trigger listing_key(items, query, ids, index)]
            #![trigger listing_key(items, other, ids, index)]
            0 <= index < items.len() ==> listing_key(items, query, ids, index) == listing_key(
                items,
                other,
                ids,
                index,
            ),
    ensures
        is_listing(items, other, ids, order),
{
    assert forall|a: int, b: int| 0 <= a < b < order.len() implies key_before(
        listing_key(items, other, ids, #[trigger] order[a] as int),
        listing_key(items, other, ids, #[trigger] order[b] as int),
    ) by {
        assert(listed(items, query, ids, order[a] as int));
        assert(listed(items, query, ids, order[b] as int));
        assert(key_before(
            listing_key(items, query, ids, order[a] as int),
            listing_key(items, query, ids, order[b] as int),
        ));
    }
}

/// A listing holds each item at most once. Where nothing but white space is searched
/// for it holds all of them, else those that the query finds.
pub proof fn a_listing_holds_what_is_found_once(
    items: Seq<MenuItem>,
    query: Seq<char>,
    ids: Seq<Seq<char>>,
    order: Seq<usize>,
)
    requires
        is_listing(items, query, ids, order),
        items.len() <= usize::MAX,
    ensures
        order.no_duplicates(),
        forall|a: int| 0 <= a < order.len() ==> #[trigger] order[a] < items.len(),
        forall|index: usize|
            index < items.len() ==> (#[trigger] order.contains(index) <==> (forall|i: int|
                0 <= i < query.len() ==> text::white_space(#[trigger] query[i]))
                || search::item_score(items[index as int], query) is Some),
{
    assert forall|a: int, b: int| 0 <= a < b < order.len() implies order[a] != order[b] by {
        lemma_listing_distinct(items, query, ids, order, a, b);
    }
    assert forall|index: usize| index < items.len() implies (#[trigger] order.contains(index) <==> (
    forall|i: int| 0 <= i < query.len() ==> text::white_space(#[trigger] query[i]))
        || search::item_score(items[index as int], query) is Some) by {
        if order.contains(index) {
            let a = choose|a: int| 0 <= a < order.len() && order[a] == index;
            assert(listed(items, query, ids, order[a] as int));
        }
        if listed(items, query, ids, index as int) {
            assert(order.contains((index as int) as usize));
        }
    }
}

/// A text comes before another one exactly when the two agree up to some place, and
/// there the first one ends or has the smaller character.
pub proof fn texts_are_compared_character_by_character(left: Seq<char>, right: Seq<char>)
    ensures
        text_before(left, right) <==> exists|place: int|
            {
                &&& 0 <= place <= left.len()
                &&& place < right.len()
                &&& #[trigger] left.take(place) == right.take(place)
                &&& (place == left.len() || left[place] < right[place])
            },
    decreases left.len(),
{
    if right.len() > 0 {
        if left.len() == 0 || left[0] < right[0] {
            assert(left.take(0) == right.take(0));
        } else if left[0] == right[0] {
            texts_are_compared_character_by_character(left.skip(1), right.skip(1));
            if text_before(left, right) {
                let place = choose|place: int|
                    {
                        &&& 0 <= place <= left.skip(1).len()
                        &&& place < right.skip(1).len()
                        &&& #[trigger] left.skip(1).take(place) == right.skip(1).take(place)
                        &&& (place == left.skip(1).len() || left.skip(1)[place] < right.skip(
                            1,
                        )[place])
                    };
                assert(left.take(place + 1) == seq![left[0]] + left.skip(1).take(place));
                assert(right.take(place + 1) == seq![right[0]] + right.skip(1).take(place));
            }
        }
        if exists|place: int|
            {
                &&& 0 <= place <= left.len()
                &&& place < right.len()
                &&& #[trigger] left.take(place) == right.take(place)
                &&& (place == left.len() || left[place] < right[place])
            } {
            let place = choose|place: int|
                {
                    &&& 0 <= place <= left.len()
                    &&& place < right.len()
                    &&& #[trigger] left.take(place) == right.take(place)
                    &&& (place == left.len() || left[place] < right[place])
                };
            if place > 0 {
                assert(left.take(place)[0] == right.take(place)[0]);
                assert(left.skip(1).take(place - 1) == left.take(place).skip(1));
                assert(right.skip(1).take(place - 1) == right.take(place).skip(1));
            }
        }
    }
}

/// A match is listed by its score on the query, with 100 more for a favorite, and for
/// an item that was used recently 20 more less the number of commands used later.
pub proof fn favorites_and_recent_use_raise_a_score(
    item: MenuItem,
    query: Seq<char>,
    ids: Seq<Seq<char>>,
    place: int,
)
    ensures
        listed_score(item, query, ids) is Some <==> search::item_score(item, query) is Some,
        search::item_score(item, query) matches Some(score) ==> {
            let raised = if item.favorite {
                score.wrapping_add(100)
            } else {
                score
            };
            &&& !ids.contains(item.stable_id@) ==> listed_score(item, query, ids) == Some(raised)
            &&& 0 <= place < ids.len() && ids[place] == item.stable_id@ && (forall|k: int|
                0 <= k < place ==> #[trigger] ids[k] != item.stable_id@) ==> listed_score(
                item,
                query,
                ids,
            ) == Some(
                if place < 20 {
                    raised.wrapping_add((20 - place) as i64)
                } else {
                    raised
                },
            )
        },
{
    recent::rank_is_the_first_place(ids, item.stable_id@);
    if 0 <= place < ids.len() && ids[place] == item.stable_id@ && forall|k: int|
        0 <= k < place ==> #[trigger] ids[k] != item.stable_id@ {
        assert(ids.contains(item.stable_id@));
        let rank = recent::rank_of(ids, item.stable_id@)->0;
        if rank < place {
            assert(ids[rank] != item.stable_id@);
        }
        if place < rank {
            assert(ids[place] != item.stable_id@);
        }
    }
}

/// While nothing is searched for, any two listed items stand as they should. A
/// favorite has favorites before it alone, in the order of the menu. Of two others
/// that were used recently the one used later comes first, and it comes before all
/// that were not. Of two that were not, the group decides, in lowercase, and then the
/// order of the menu.
pub proof fn any_two_listed_items_stand_in_order(
    config: MenuConfig,
    query: Seq<char>,
    ids: Seq<Seq<char>>,
    order: Seq<usize>,
    a: int,
    b: int,
)
    requires
        config.distinct_identities(),
        forall|i: int| 0 <= i < query.len() ==> text::white_space(#[trigger] query[i]),
        is_listing(config.items@, query, ids, order),
        0 <= a < b < order.len(),
    ensures
        ({
            let former = config.items@[order[a] as int];
            let latter = config.items@[order[b] as int];
            let former_group = text::lowered(
                match former.group {
                    Some(group) => group@,
                    None => "Other"@,
                },
            );
            let latter_group = text::lowered(
                match latter.group {
                    Some(group) => group@,
                    None => "Other"@,
                },
            );
            &&& latter.favorite ==> former.favorite && order[a] < order[b]
            &&& !latter.favorite && !former.favorite && ids.contains(latter.stable_id@) ==> {
                forall|later: int|
                    0 <= later < ids.len() && #[trigger] ids[later] == latter.stable_id@
                        ==> exists|earlier: int|
                        0 <= earlier < later && #[trigger] ids[earlier] == former.stable_id@
            }
            &&& !latter.favorite && !former.favorite && !ids.contains(latter.stable_id@)
                && !ids.contains(former.stable_id@) ==> {
                ||| text_before(former_group, latter_group)
                ||| former_group == latter_group && order[a] < order[b]
            }
        }),
{
    let items = config.items@;
    let left = order[a] as int;
    let right = order[b] as int;
    assert(listed(items, query, ids, left) && listed(items, query, ids, right));
    favorites_then_recents_then_groups(items, query, ids, order, a, b);
    recent_place_is_rank(config, ids, left);
    recent_place_is_rank(config, ids, right);
    recent::rank_is_the_first_place(ids, items[left].stable_id@);
    recent::rank_is_the_first_place(ids, items[right].stable_id@);
    if !items[right].favorite && !items[left].favorite && ids.contains(items[right].stable_id@) {
        let first = recent::rank_of(ids, items[left].stable_id@)->0;
        let second = recent::rank_of(ids, items[right].stable_id@)->0;
        lemma_listing_distinct(items, query, ids, order, a, b);
        assert(items[left].stable_id@ != items[right].stable_id@);
        assert(first < second);
        assert forall|later: int|
            0 <= later < ids.len() && #[trigger] ids[later] == items[right].stable_id@ implies exists|
            earlier: int,
        |
            0 <= earlier < later && #[trigger] ids[earlier] == items[left].stable_id@ by {
            if later < second {
                assert(ids[later] != items[right].stable_id@);
            }
            assert(ids[first] == items[left].stable_id@);
        }
    }
}

} // verus!

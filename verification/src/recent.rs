//! The commands used last.
use crate::text;
use crate::text::{chars_of, contains_text, join_texts, string_between, trim};
use vstd::prelude::*;

verus! {

/// At most this many used commands are remembered.
pub const MAX_RECENT_ITEMS: usize = 20;

/// The identities of the commands used last, the latest first.
#[derive(Debug)]
pub struct RecentStore {
    pub ids: Vec<String>,
}

// ---------------------------------------------------------------------------
// The stored text
// ---------------------------------------------------------------------------
/// How many characters come before the first line break.
pub open spec fn line_length(contents: Seq<char>) -> nat
    decreases contents.len(),
{
    if contents.len() == 0 || contents[0] == '\n' {
        0
    } else {
        1 + line_length(contents.skip(1))
    }
}

/// The lines of a text, trimmed, without the blank ones.
pub open spec fn entries(contents: Seq<char>) -> Seq<Seq<char>>
    decreases contents.len(),
{
    let length = line_length(contents) as int;
    let entry = text::trimmed(contents.take(length));
    let first = if entry.len() == 0 {
        Seq::empty()
    } else {
        seq![entry]
    };
    if length >= contents.len() {
        first
    } else {
        first + entries(contents.skip(length + 1))
    }
}

/// `known` and behind it those of `more` that were not there yet, in their order.
pub open spec fn extended(known: Seq<Seq<char>>, more: Seq<Seq<char>>) -> Seq<Seq<char>>
    decreases more.len(),
{
    if more.len() == 0 {
        known
    } else if known.contains(more[0]) {
        extended(known, more.skip(1))
    } else {
        extended(known.push(more[0]), more.skip(1))
    }
}

/// At most the first `MAX_RECENT_ITEMS`.
pub open spec fn limited(ids: Seq<Seq<char>>) -> Seq<Seq<char>> {
    if ids.len() <= MAX_RECENT_ITEMS {
        ids
    } else {
        ids.take(MAX_RECENT_ITEMS as int)
    }
}

/// The identities that a stored text remembers: its lines, each once.
pub open spec fn remembered(contents: Seq<char>) -> Seq<Seq<char>> {
    limited(extended(Seq::empty(), entries(contents)))
}

/// The text that is stored for `ids`: one line each.
pub open spec fn stored(ids: Seq<Seq<char>>) -> Seq<char> {
    text::join(ids, "\n"@) + "\n"@
}

/// `ids` without `id`; the others keep their order.
pub open spec fn without(ids: Seq<Seq<char>>, id: Seq<char>) -> Seq<Seq<char>>
    decreases ids.len(),
{
    if ids.len() == 0 {
        Seq::empty()
    } else if ids.last() == id {
        without(ids.drop_last(), id)
    } else {
        without(ids.drop_last(), id).push(ids.last())
    }
}

/// `ids` once `id` was used: it comes first, and the others keep their order.
pub open spec fn with_used(ids: Seq<Seq<char>>, id: Seq<char>) -> Seq<Seq<char>> {
    limited(seq![id] + without(ids, id))
}

/// The first position from `from` on that holds `wanted`; the length where there
/// is none.
pub open spec fn first_position(ids: Seq<Seq<char>>, wanted: Seq<char>, from: int) -> int
    decreases ids.len() - from,
{
    if from < 0 || from >= ids.len() {
        ids.len() as int
    } else if ids[from] == wanted {
        from
    } else {
        first_position(ids, wanted, from + 1)
    }
}

/// How recently an identity was used: 0 for the latest.
pub open spec fn rank_of(ids: Seq<Seq<char>>, id: Seq<char>) -> Option<int> {
    let position = first_position(ids, id, 0);
    if position < ids.len() {
        Some(position)
    } else {
        None
    }
}

/// A text that can be stored: not empty, no line break in it and no white space at
/// its ends.
pub open spec fn storable(id: Seq<char>) -> bool {
    &&& id.len() > 0
    &&& !text::white_space(id[0])
    &&& !text::white_space(id.last())
    &&& forall|i: int| 0 <= i < id.len() ==> #[trigger] id[i] != '\n'
}

impl RecentStore {
    /// The identities, the latest first.
    pub open spec fn list(self) -> Seq<Seq<char>> {
        text::texts(self.ids@)
    }

    /// What holds of every store that was loaded: few enough identities, none of
    /// them twice, all of them storable.
    pub open spec fn well_formed(self) -> bool {
        &&& self.list().len() <= MAX_RECENT_ITEMS
        &&& self.list().no_duplicates()
        &&& forall|i: int| 0 <= i < self.list().len() ==> storable(#[trigger] self.list()[i])
    }
}

proof fn lemma_line_length(contents: Seq<char>)
    ensures
        line_length(contents) <= contents.len(),
        forall|i: int| 0 <= i < line_length(contents) ==> #[trigger] contents[i] != '\n',
        line_length(contents) < contents.len() ==> contents[line_length(contents) as int] == '\n',
    decreases contents.len(),
{
    if contents.len() > 0 && contents[0] != '\n' {
        let rest = contents.skip(1);
        lemma_line_length(rest);
        assert forall|i: int| 0 <= i < line_length(contents) implies #[trigger] contents[i]
            != '\n' by {
            if i > 0 {
                assert(contents[i] == rest[i - 1]);
            }
        }
    }
}

proof fn lemma_line_length_is(contents: Seq<char>, length: int)
    requires
        0 <= length <= contents.len(),
        forall|i: int| 0 <= i < length ==> #[trigger] contents[i] != '\n',
        length < contents.len() ==> contents[length] == '\n',
    ensures
        line_length(contents) == length,
{
    lemma_line_length(contents);
    let found = line_length(contents) as int;
    if found < length {
        assert(contents[found] != '\n');
    }
    if length < found {
        assert(contents[length] != '\n');
    }
}

/// What is known already stays in front.
proof fn lemma_extended_keeps(known: Seq<Seq<char>>, more: Seq<Seq<char>>)
    ensures
        known.is_prefix_of(extended(known, more)),
    decreases more.len(),
{
    if more.len() > 0 {
        if known.contains(more[0]) {
            lemma_extended_keeps(known, more.skip(1));
        } else {
            let longer = known.push(more[0]);
            lemma_extended_keeps(longer, more.skip(1));
            let all = extended(known, more);
            assert(all.take(known.len() as int) == known) by {
                assert(all.take(longer.len() as int) == longer);
                assert forall|i: int| 0 <= i < known.len() implies all[i] == known[i] by {
                    assert(all.take(longer.len() as int)[i] == longer[i]);
                }
            }
        }
    }
}

proof fn lemma_extended_entries(known: Seq<Seq<char>>, more: Seq<Seq<char>>)
    requires
        known.no_duplicates(),
        forall|i: int| 0 <= i < known.len() ==> storable(#[trigger] known[i]),
        forall|i: int| 0 <= i < more.len() ==> storable(#[trigger] more[i]),
    ensures
        extended(known, more).no_duplicates(),
        forall|i: int|
            0 <= i < extended(known, more).len() ==> storable(#[trigger] extended(known, more)[i]),
    decreases more.len(),
{
    if more.len() > 0 {
        assert forall|i: int| 0 <= i < more.skip(1).len() implies storable(
            #[trigger] more.skip(1)[i],
        ) by {
            assert(more.skip(1)[i] == more[i + 1]);
        }
        if known.contains(more[0]) {
            lemma_extended_entries(known, more.skip(1));
        } else {
            let longer = known.push(more[0]);
            assert(storable(more[0]));
            lemma_extended_entries(longer, more.skip(1));
        }
    }
}

proof fn lemma_entries_storable(contents: Seq<char>)
    ensures
        forall|i: int|
            0 <= i < entries(contents).len() ==> storable(#[trigger] entries(contents)[i]),
    decreases contents.len(),
{
    let length = line_length(contents) as int;
    lemma_line_length(contents);
    let line = contents.take(length);
    text::trimmed_is_tight(line);
    let entry = text::trimmed(line);
    if entry.len() > 0 {
        assert(storable(entry)) by {
            assert forall|i: int| 0 <= i < entry.len() implies #[trigger] entry[i] != '\n' by {
                assert(line.contains(entry[i]));
                let at = choose|at: int| 0 <= at < line.len() && line[at] == entry[i];
                assert(contents[at] == entry[i]);
            }
        }
    }
    if length < contents.len() {
        let more = entries(contents.skip(length + 1));
        lemma_entries_storable(contents.skip(length + 1));
        assert forall|i: int| 0 <= i < entries(contents).len() implies storable(
            #[trigger] entries(contents)[i],
        ) by {
            if entry.len() == 0 {
                assert(entries(contents) == more);
            } else if i > 0 {
                assert(entries(contents)[i] == more[i - 1]);
            }
        }
    }
}

impl RecentStore {
    /// The store that a stored text describes; the empty one where there is no
    /// such text.
    pub fn load(contents: Option<&str>) -> (store: Self)
        ensures
            store.list() == (match contents {
                Some(stored) => remembered(stored@),
                None => Seq::empty(),
            }),
            store.well_formed(),
    {
        let mut ids: Vec<String> = Vec::new();
        let contents = match contents {
            Some(stored) => stored,
            None => {
                assert(text::texts(ids@) == Seq::<Seq<char>>::empty());
                return RecentStore { ids };
            },
        };
        let chars = chars_of(contents);
        let mut next: usize = 0;
        let mut done = false;
        proof {
            assert(chars@.skip(0) == chars@);
            assert(text::texts(ids@) == Seq::<Seq<char>>::empty());
        }
        while !done
            invariant
                chars@ == contents@,
                next <= chars@.len(),
                text::texts(ids@).len() < MAX_RECENT_ITEMS || done,
                !done ==> extended(text::texts(ids@), entries(chars@.skip(next as int)))
                    == extended(Seq::empty(), entries(contents@)),
                done ==> text::texts(ids@) == remembered(contents@),
            decreases chars@.len() - next + 1, !done as int,
        {
            let ghost rest = chars@.skip(next as int);
            let ghost before = text::texts(ids@);
            let mut end: usize = next;
            while end < chars.len() && chars[end] != '\n'
                invariant
                    next <= end <= chars@.len(),
                    forall|i: int| next <= i < end ==> #[trigger] chars@[i] != '\n',
                decreases chars@.len() - end,
            {
                end = end + 1;
            }
            proof {
                assert forall|i: int| 0 <= i < end - next implies #[trigger] rest[i] != '\n' by {
                    assert(rest[i] == chars@[i + next]);
                }
                lemma_line_length_is(rest, end - next);
                assert(rest.take(end - next) == chars@.subrange(next as int, end as int));
            }
            let entry = trim(string_between(&chars, next, end).as_str());
            let ghost more = if end < chars@.len() {
                entries(chars@.skip(end + 1))
            } else {
                Seq::empty()
            };
            proof {
                if end < chars@.len() {
                    assert(rest.skip(end - next + 1) == chars@.skip(end + 1));
                }
                if entry@.len() > 0 {
                    assert(entries(rest) == seq![entry@] + more);
                    assert((seq![entry@] + more).skip(1) == more);
                } else {
                    assert(entries(rest) == more);
                }
            }
            if !entry.as_str().is_empty() {
                if !contains_text(&ids, &entry) {
                    ids.push(entry);
                    assert(text::texts(ids@) == before.push(entry@));
                }
            }
            assert(extended(text::texts(ids@), more) == extended(Seq::empty(), entries(contents@)));
            if ids.len() == MAX_RECENT_ITEMS {
                proof {
                    let known = text::texts(ids@);
                    lemma_extended_keeps(known, more);
                    assert(extended(known, more).take(MAX_RECENT_ITEMS as int) == known);
                    if extended(known, more).len() == MAX_RECENT_ITEMS {
                        assert(extended(known, more) == known);
                    }
                }
                done = true;
            } else if end == chars.len() {
                done = true;
            } else {
                next = end + 1;
            }
        }
        proof {
            lemma_entries_storable(contents@);
            lemma_extended_entries(Seq::empty(), entries(contents@));
        }
        RecentStore { ids }
    }

    /// How recently an item was used: 0 for the latest, `None` where it is not
    /// remembered.
    pub fn rank(&self, stable_id: &str) -> (rank: Option<usize>)
        ensures
            match rank {
                Some(position) => rank_of(self.list(), stable_id@) == Some(position as int),
                None => rank_of(self.list(), stable_id@) is None,
            },
    {
        let wanted = stable_id.to_owned();
        let mut next: usize = 0;
        while next < self.ids.len()
            invariant
                next <= self.ids@.len(),
                wanted@ == stable_id@,
                first_position(self.list(), stable_id@, 0) == first_position(
                    self.list(),
                    stable_id@,
                    next as int,
                ),
            decreases self.ids@.len() - next,
        {
            assert(self.list()[next as int] == self.ids@[next as int]@);
            if self.ids[next] == wanted {
                return Some(next);
            }
            next = next + 1;
        }
        None
    }

    /// The item is among the remembered ones.
    pub fn contains(&self, stable_id: &str) -> (answer: bool)
        ensures
            answer == self.list().contains(stable_id@),
    {
        proof {
            rank_is_the_first_place(self.list(), stable_id@);
        }
        self.rank(stable_id).is_some()
    }

    /// Remembers that an item was used just now. Returns the text to store.
    pub fn mark_used(&mut self, stable_id: &str) -> (contents: String)
        ensures
            final(self).list() == with_used(old(self).list(), stable_id@),
            contents@ == stored(final(self).list()),
            old(self).well_formed() && storable(stable_id@) ==> final(self).well_formed(),
    {
        let ghost before = self.list();
        let used = stable_id.to_owned();
        let mut ids: Vec<String> = Vec::new();
        ids.push(used.clone());
        let mut next: usize = 0;
        proof {
            assert(without(before.take(0), stable_id@) == Seq::<Seq<char>>::empty());
            assert(text::texts(ids@) == seq![stable_id@] + without(before.take(0), stable_id@));
        }
        while next < self.ids.len()
            invariant
                next <= self.ids@.len(),
                used@ == stable_id@,
                before == self.list(),
                text::texts(ids@) == seq![stable_id@] + without(
                    before.take(next as int),
                    stable_id@,
                ),
            decreases self.ids@.len() - next,
        {
            let ghost kept = text::texts(ids@);
            proof {
                let longer = before.take(next + 1);
                assert(longer.drop_last() == before.take(next as int));
                assert(longer.last() == self.ids@[next as int]@);
            }
            if self.ids[next] != used {
                ids.push(self.ids[next].clone());
                assert(text::texts(ids@) == kept.push(self.ids@[next as int]@));
            }
            next = next + 1;
        }
        assert(before.take(next as int) == before);
        let ghost all = text::texts(ids@);
        if ids.len() > MAX_RECENT_ITEMS {
            ids.truncate(MAX_RECENT_ITEMS);
            assert(text::texts(ids@) == all.take(MAX_RECENT_ITEMS as int));
        }
        self.ids = ids;
        let mut contents = join_texts(&self.ids, "\n");
        contents.append("\n");
        proof {
            if old(self).well_formed() && storable(stable_id@) {
                lemma_with_used_well_formed(before, stable_id@);
            }
        }
        contents
    }
}

proof fn lemma_first_position(ids: Seq<Seq<char>>, wanted: Seq<char>, from: int)
    requires
        0 <= from <= ids.len(),
    ensures
        from <= first_position(ids, wanted, from) <= ids.len(),
        first_position(ids, wanted, from) < ids.len() ==> ids[first_position(ids, wanted, from)]
            == wanted,
        forall|i: int|
            from <= i < first_position(ids, wanted, from) ==> #[trigger] ids[i] != wanted,
    decreases ids.len() - from,
{
    if from < ids.len() && ids[from] != wanted {
        lemma_first_position(ids, wanted, from + 1);
    }
}

/// The rank of an identity is its first position; it has one exactly when it is
/// remembered.
pub proof fn rank_is_the_first_place(ids: Seq<Seq<char>>, id: Seq<char>)
    ensures
        rank_of(ids, id) is Some <==> ids.contains(id),
        rank_of(ids, id) matches Some(rank) ==> 0 <= rank < ids.len() && ids[rank] == id
            && forall|i: int| 0 <= i < rank ==> #[trigger] ids[i] != id,
{
    lemma_first_position(ids, id, 0);
    if ids.contains(id) {
        let at = choose|at: int| 0 <= at < ids.len() && ids[at] == id;
        assert(first_position(ids, id, 0) <= at);
    }
}

proof fn lemma_without(ids: Seq<Seq<char>>, id: Seq<char>)
    ensures
        without(ids, id).len() <= ids.len(),
        forall|i: int|
            0 <= i < without(ids, id).len() ==> (#[trigger] without(ids, id)[i]) != id
                && ids.contains(without(ids, id)[i]),
        ids.no_duplicates() ==> without(ids, id).no_duplicates(),
    decreases ids.len(),
{
    if ids.len() > 0 {
        let shorter = ids.drop_last();
        let kept = without(shorter, id);
        lemma_without(shorter, id);
        assert forall|i: int| 0 <= i < kept.len() implies ids.contains(#[trigger] kept[i]) && (
        ids.no_duplicates() ==> kept[i] != ids.last()) by {
            assert(shorter.contains(kept[i]));
            let at = choose|at: int| 0 <= at < shorter.len() && shorter[at] == kept[i];
            assert(ids[at] == kept[i]);
        }
        if ids.last() != id {
            assert(ids[ids.len() - 1] == ids.last());
            assert forall|i: int| 0 <= i < without(ids, id).len() implies (
            #[trigger] without(ids, id)[i]) != id && ids.contains(without(ids, id)[i]) by {
                if i < kept.len() {
                    assert(without(ids, id)[i] == kept[i]);
                }
            }
        }
    }
}

proof fn lemma_without_absent(ids: Seq<Seq<char>>, id: Seq<char>)
    requires
        forall|i: int| 0 <= i < ids.len() ==> #[trigger] ids[i] != id,
    ensures
        without(ids, id) == ids,
    decreases ids.len(),
{
    if ids.len() > 0 {
        lemma_without_absent(ids.drop_last(), id);
        assert(ids.last() == ids[ids.len() - 1]);
        assert(ids.drop_last().push(ids.last()) == ids);
    }
}

/// The identity in front is dropped like any other.
proof fn lemma_without_first(ids: Seq<Seq<char>>, id: Seq<char>)
    ensures
        without(seq![id] + ids, id) == without(ids, id),
    decreases ids.len(),
{
    let all = seq![id] + ids;
    if ids.len() == 0 {
        assert(all.last() == id);
        assert(without(all.drop_last(), id) == Seq::<Seq<char>>::empty());
    } else {
        assert(all.last() == ids.last());
        assert(all.drop_last() == seq![id] + ids.drop_last());
        lemma_without_first(ids.drop_last(), id);
    }
}

proof fn lemma_with_used_well_formed(ids: Seq<Seq<char>>, id: Seq<char>)
    requires
        ids.no_duplicates(),
        forall|i: int| 0 <= i < ids.len() ==> storable(#[trigger] ids[i]),
        storable(id),
    ensures
        with_used(ids, id).len() <= MAX_RECENT_ITEMS,
        with_used(ids, id).no_duplicates(),
        forall|i: int|
            0 <= i < with_used(ids, id).len() ==> storable(#[trigger] with_used(ids, id)[i]),
{
    let kept = without(ids, id);
    lemma_without(ids, id);
    let all = seq![id] + kept;
    assert forall|i: int| 0 <= i < kept.len() implies storable(#[trigger] kept[i]) by {
        let at = choose|at: int| 0 <= at < ids.len() && ids[at] == kept[i];
        assert(storable(ids[at]));
    }
    assert(all.no_duplicates()) by {
        assert forall|i: int, j: int|
            0 <= i < all.len() && 0 <= j < all.len() && i != j implies all[i] != all[j] by {
            if i > 0 {
                assert(all[i] == kept[i - 1]);
            }
            if j > 0 {
                assert(all[j] == kept[j - 1]);
            }
        }
    }
    assert forall|i: int| 0 <= i < with_used(ids, id).len() implies storable(
        #[trigger] with_used(ids, id)[i],
    ) by {
        assert(with_used(ids, id)[i] == all[i]);
        if i > 0 {
            assert(all[i] == kept[i - 1]);
        }
    }
}

// ---------------------------------------------------------------------------
// Laws
// ---------------------------------------------------------------------------
/// An item that was used just now is the latest.
pub proof fn a_used_item_comes_first(ids: Seq<Seq<char>>, id: Seq<char>)
    ensures
        rank_of(with_used(ids, id), id) == Some(0int),
        with_used(ids, id).len() <= MAX_RECENT_ITEMS,
{
    assert(with_used(ids, id)[0] == id);
}

/// An item that was not remembered yet comes before all others, which keep their
/// order; the oldest is forgotten where there are too many.
pub proof fn a_new_item_pushes_the_others_back(ids: Seq<Seq<char>>, id: Seq<char>)
    requires
        !ids.contains(id),
    ensures
        with_used(ids, id) == limited(seq![id] + ids),
{
    lemma_without_absent(ids, id);
}

/// Using the same item twice in a row changes nothing the second time.
pub proof fn using_twice_is_using_once(ids: Seq<Seq<char>>, id: Seq<char>)
    ensures
        with_used(with_used(ids, id), id) == with_used(ids, id),
{
    let kept = without(ids, id);
    lemma_without(ids, id);
    let once = with_used(ids, id);
    let tail = once.skip(1);
    assert forall|i: int| 0 <= i < tail.len() implies #[trigger] tail[i] != id by {
        assert(tail[i] == kept[i]);
    }
    assert(once == seq![id] + tail);
    lemma_without_first(tail, id);
    lemma_without_absent(tail, id);
}

proof fn lemma_join_first(ids: Seq<Seq<char>>)
    requires
        ids.len() > 1,
    ensures
        text::join(ids, "\n"@) == ids[0] + "\n"@ + text::join(ids.skip(1), "\n"@),
    decreases ids.len(),
{
    let shorter = ids.drop_last();
    if ids.len() == 2 {
        assert(text::join(shorter, "\n"@) == ids[0]);
        assert(ids.skip(1).len() == 1);
    } else {
        lemma_join_first(shorter);
        assert(shorter.skip(1) == ids.skip(1).drop_last());
        assert(shorter[0] == ids[0]);
        assert(ids.skip(1).last() == ids.last());
        let middle = text::join(shorter.skip(1), "\n"@);
        assert((ids[0] + "\n"@ + middle) + "\n"@ + ids.last() == ids[0] + "\n"@ + (middle + "\n"@
            + ids.last()));
    }
}

proof fn lemma_stored_entries(ids: Seq<Seq<char>>)
    requires
        forall|i: int| 0 <= i < ids.len() ==> storable(#[trigger] ids[i]),
    ensures
        entries(stored(ids)) == ids,
    decreases ids.len(),
{
    reveal_strlit("\n");
    let contents = stored(ids);
    let nothing = Seq::<char>::empty();
    assert(entries(nothing) == Seq::<Seq<char>>::empty()) by {
        assert(nothing.take(0) == nothing);
        text::blank_is_trimmed_to_nothing(nothing);
    }
    if ids.len() == 0 {
        lemma_line_length_is(contents, 0);
        assert(contents.take(0) == nothing);
        text::blank_is_trimmed_to_nothing(nothing);
        assert(contents.skip(1) == nothing);
        assert(entries(contents) == Seq::<Seq<char>>::empty());
    } else {
        let first = ids[0];
        let length = first.len() as int;
        let rest = ids.skip(1);
        if ids.len() == 1 {
            assert(contents == first + "\n"@);
            assert(contents.skip(length + 1) == nothing);
            assert(entries(contents.skip(length + 1)) == rest);
        } else {
            lemma_join_first(ids);
            assert(contents == first + "\n"@ + stored(rest));
            assert(contents.skip(length + 1) == stored(rest));
            assert forall|i: int| 0 <= i < rest.len() implies storable(#[trigger] rest[i]) by {
                assert(rest[i] == ids[i + 1]);
            }
            lemma_stored_entries(rest);
        }
        assert(storable(first));
        assert(forall|i: int| 0 <= i < length ==> #[trigger] contents[i] == first[i]);
        assert(contents[length] == '\n');
        lemma_line_length_is(contents, length);
        assert(contents.take(length) == first);
        text::trimming_keeps_tight_text(first);
        assert(seq![first] + rest == ids);
    }
}

proof fn lemma_extended_all(known: Seq<Seq<char>>, more: Seq<Seq<char>>)
    requires
        (known + more).no_duplicates(),
    ensures
        extended(known, more) == known + more,
    decreases more.len(),
{
    if more.len() > 0 {
        let all = known + more;
        if known.contains(more[0]) {
            let at = choose|at: int| 0 <= at < known.len() && known[at] == more[0];
            assert(all[at] == all[known.len() as int]);
        }
        assert(known.push(more[0]) + more.skip(1) == all);
        lemma_extended_all(known.push(more[0]), more.skip(1));
    } else {
        assert(known + more == known);
    }
}

/// What was stored is read back: loading the text that is stored for a store gives
/// its identities, in their order.
pub proof fn a_stored_list_is_read_back(store: RecentStore)
    requires
        store.well_formed(),
    ensures
        remembered(stored(store.list())) == store.list(),
{
    let ids = store.list();
    lemma_stored_entries(ids);
    assert(Seq::<Seq<char>>::empty() + ids == ids);
    lemma_extended_all(Seq::empty(), ids);
}

proof fn lemma_without_is_filter(ids: Seq<Seq<char>>, id: Seq<char>)
    ensures
        without(ids, id) == ids.filter(|other: Seq<char>| other != id),
    decreases ids.len(),
{
    reveal(Seq::filter);
    if ids.len() > 0 {
        lemma_without_is_filter(ids.drop_last(), id);
    }
}

/// Using an item puts it first and keeps the others in their order, without it, as
/// far as there is room for 20: whether it was remembered before or not.
pub proof fn the_others_keep_their_order(ids: Seq<Seq<char>>, id: Seq<char>)
    ensures
        ({
            let others = ids.filter(|other: Seq<char>| other != id);
            let after = with_used(ids, id);
            &&& after.len() == (if others.len() < 19 {
                others.len() + 1
            } else {
                20
            })
            &&& after[0] == id
            &&& forall|i: int| 1 <= i < after.len() ==> #[trigger] after[i] == others[i - 1]
        }),
{
    lemma_without_is_filter(ids, id);
}

/// Of two items that are both still remembered after a third was used, the one used
/// later still comes first.
pub proof fn later_use_stays_later(ids: Seq<Seq<char>>, id: Seq<char>, later: int, earlier: int)
    requires
        ids.no_duplicates(),
        0 <= later < earlier < ids.len(),
        ids[later] != id,
        ids[earlier] != id,
    ensures
        rank_of(with_used(ids, id), ids[earlier]) is Some ==> rank_of(
            with_used(ids, id),
            ids[later],
        ) is Some && rank_of(with_used(ids, id), ids[later])->0 < rank_of(
            with_used(ids, id),
            ids[earlier],
        )->0,
{
    let after = with_used(ids, id);
    let kept = without(ids, id);
    let (former, latter) = lemma_without_order(ids, id, later, earlier);
    rank_is_the_first_place(after, ids[earlier]);
    rank_is_the_first_place(after, ids[later]);
    lemma_without(ids, id);
    if rank_of(after, ids[earlier]) is Some {
        let rank = rank_of(after, ids[earlier])->0;
        assert(after[0] == id);
        assert(after[rank] == kept[rank - 1]);
        assert(rank - 1 == latter);
        assert(after[former + 1] == kept[former]);
        assert(after.contains(ids[later]));
    }
}

/// Where two identities stand once another one is dropped.
proof fn lemma_without_order(ids: Seq<Seq<char>>, id: Seq<char>, later: int, earlier: int) -> (places:
    (int, int))
    requires
        0 <= later < earlier < ids.len(),
        ids[later] != id,
        ids[earlier] != id,
    ensures
        0 <= places.0 < places.1 < without(ids, id).len(),
        without(ids, id)[places.0] == ids[later],
        without(ids, id)[places.1] == ids[earlier],
    decreases ids.len(),
{
    let shorter = ids.drop_last();
    if earlier < shorter.len() {
        let places = lemma_without_order(shorter, id, later, earlier);
        assert(ids.last() != id ==> without(ids, id)[places.0] == without(shorter, id)[places.0]);
        assert(ids.last() != id ==> without(ids, id)[places.1] == without(shorter, id)[places.1]);
        places
    } else {
        let place = lemma_without_keeps(shorter, id, later);
        (place, without(shorter, id).len() as int)
    }
}

proof fn lemma_without_keeps(ids: Seq<Seq<char>>, id: Seq<char>, at: int) -> (place: int)
    requires
        0 <= at < ids.len(),
        ids[at] != id,
    ensures
        0 <= place < without(ids, id).len(),
        without(ids, id)[place] == ids[at],
    decreases ids.len(),
{
    let shorter = ids.drop_last();
    if at < shorter.len() {
        lemma_without_keeps(shorter, id, at)
    } else {
        without(shorter, id).len() as int
    }
}

/// A line break separates what is read: what stands before it and what stands behind
/// it are read on their own.
pub proof fn line_breaks_separate_entries(left: Seq<char>, right: Seq<char>)
    ensures
        entries(left.push('\n') + right) == entries(left) + entries(right),
    decreases left.len(),
{
    let whole = left.push('\n') + right;
    lemma_line_length(left);
    let length = line_length(left) as int;
    assert forall|i: int| 0 <= i < length implies #[trigger] whole[i] != '\n' by {
        assert(whole[i] == left[i]);
    }
    assert(whole[length] == '\n');
    lemma_line_length_is(whole, length);
    assert(whole.take(length) == left.take(length));
    let entry = text::trimmed(left.take(length));
    let first = if entry.len() == 0 {
        Seq::empty()
    } else {
        seq![entry]
    };
    if length < left.len() {
        assert(whole.skip(length + 1) == left.skip(length + 1).push('\n') + right);
        line_breaks_separate_entries(left.skip(length + 1), right);
        assert(first + (entries(left.skip(length + 1)) + entries(right)) == (first + entries(
            left.skip(length + 1),
        )) + entries(right));
    } else {
        assert(whole.skip(length + 1) == right);
    }
}

/// A line is read as its text without white space at the ends, and not at all where
/// there is nothing else in it.
pub proof fn a_line_is_read_trimmed(line: Seq<char>)
    requires
        forall|i: int| 0 <= i < line.len() ==> #[trigger] line[i] != '\n',
    ensures
        entries(line) == (if text::trimmed(line).len() == 0 {
            Seq::empty()
        } else {
            seq![text::trimmed(line)]
        }),
{
    lemma_line_length_is(line, line.len() as int);
    assert(line.take(line.len() as int) == line);
}

/// `ids` are texts of `lines`, each where it occurs first, in their order; `places`
/// says where.
spec fn first_occurrences(
    lines: Seq<Seq<char>>,
    ids: Seq<Seq<char>>,
    places: Seq<int>,
) -> bool {
    &&& places.len() == ids.len()
    &&& forall|i: int|
        0 <= i < ids.len() ==> 0 <= #[trigger] places[i] < lines.len() && lines[places[i]] == ids[i]
    &&& forall|i: int, j: int|
        0 <= i < j < places.len() ==> #[trigger] places[i] < #[trigger] places[j]
    &&& forall|i: int, k: int|
        0 <= i < ids.len() && 0 <= k < places[i] ==> #[trigger] lines[k] != #[trigger] ids[i]
}

proof fn lemma_extended_places(
    lines: Seq<Seq<char>>,
    read: int,
    known: Seq<Seq<char>>,
    places: Seq<int>,
) -> (all: Seq<int>)
    requires
        0 <= read <= lines.len(),
        first_occurrences(lines, known, places),
        forall|k: int| 0 <= k < read ==> known.contains(#[trigger] lines[k]),
        forall|i: int| 0 <= i < places.len() ==> #[trigger] places[i] < read,
    ensures
        first_occurrences(lines, extended(known, lines.skip(read)), all),
        forall|k: int|
            0 <= k < lines.len() ==> extended(known, lines.skip(read)).contains(
                #[trigger] lines[k],
            ),
    decreases lines.len() - read,
{
    let more = lines.skip(read);
    if more.len() == 0 {
        places
    } else {
        let line = lines[read];
        assert(more[0] == line);
        assert(more.skip(1) == lines.skip(read + 1));
        if known.contains(line) {
            lemma_extended_places(lines, read + 1, known, places)
        } else {
            let longer = known.push(line);
            let farther = places.push(read);
            assert forall|i: int| 0 <= i < longer.len() implies 0 <= #[trigger] farther[i]
                < lines.len() && lines[farther[i]] == longer[i] by {
                if i < known.len() {
                    assert(farther[i] == places[i]);
                }
            }
            assert forall|i: int, j: int| 0 <= i < j < farther.len() implies #[trigger] farther[i]
                < #[trigger] farther[j] by {
                assert(farther[i] == places[i]);
                if j < known.len() {
                    assert(farther[j] == places[j]);
                }
            }
            assert forall|i: int, k: int|
                0 <= i < longer.len() && 0 <= k < farther[i] implies #[trigger] lines[k]
                != #[trigger] longer[i] by {
                if i < known.len() {
                    assert(longer[i] == known[i] && farther[i] == places[i]);
                } else {
                    assert(known.contains(lines[k]));
                }
            }
            assert forall|k: int| 0 <= k < read + 1 implies longer.contains(#[trigger] lines[k]) by {
                if k < read {
                    let at = choose|at: int| 0 <= at < known.len() && known[at] == lines[k];
                    assert(longer[at] == lines[k]);
                } else {
                    assert(longer[known.len() as int] == lines[k]);
                }
            }
            lemma_extended_places(lines, read + 1, longer, farther)
        }
    }
}

/// Of the lines of a stored text the first 20 different ones are remembered, each
/// where it occurs first and in their order: a line that is missing comes behind all
/// of the 20.
pub proof fn the_first_lines_are_remembered(contents: Seq<char>) -> (places: Seq<int>)
    ensures
        places.len() == remembered(contents).len(),
        forall|i: int|
            0 <= i < places.len() ==> 0 <= #[trigger] places[i] < entries(contents).len()
                && remembered(contents)[i] == entries(contents)[places[i]],
        forall|i: int, j: int|
            0 <= i < j < places.len() ==> #[trigger] places[i] < #[trigger] places[j],
        forall|i: int, k: int|
            0 <= i < places.len() && 0 <= k < places[i] ==> #[trigger] entries(contents)[k]
                != #[trigger] remembered(contents)[i],
        remembered(contents).no_duplicates(),
        remembered(contents).len() <= 20,
        forall|k: int|
            0 <= k < entries(contents).len() ==> remembered(contents).contains(
                #[trigger] entries(contents)[k],
            ) || remembered(contents).len() == 20 && places[19] < k,
{
    let lines = entries(contents);
    let known = Seq::<Seq<char>>::empty();
    assert(lines.skip(0) == lines);
    let all = lemma_extended_places(lines, 0, known, Seq::empty());
    let ids = extended(known, lines);
    let kept = remembered(contents);
    let places = all.take(kept.len() as int);
    lemma_entries_storable(contents);
    lemma_extended_entries(known, lines);
    assert forall|i: int| 0 <= i < kept.len() implies 0 <= #[trigger] places[i] < lines.len()
        && lines[places[i]] == kept[i] by {
        assert(places[i] == all[i] && kept[i] == ids[i]);
    }
    assert forall|i: int, j: int| 0 <= i < j < places.len() implies #[trigger] places[i]
        < #[trigger] places[j] by {
        assert(all[i] < all[j]);
    }
    assert forall|i: int, k: int| 0 <= i < kept.len() && 0 <= k < places[i] implies #[trigger] lines[k]
        != #[trigger] kept[i] by {
        assert(kept[i] == ids[i] && places[i] == all[i]);
    }
    assert forall|k: int| 0 <= k < lines.len() implies kept.contains(#[trigger] lines[k])
        || kept.len() == 20 && places[19] < k by {
        assert(ids.contains(lines[k]));
        let at = choose|at: int| 0 <= at < ids.len() && ids[at] == lines[k];
        if at < kept.len() {
            assert(kept[at] == lines[k]);
        } else {
            assert(all[19] < all[at]);
            if k < all[at] {
                assert(lines[k] != ids[at]);
            }
        }
    }
    places
}

/// Every identity is stored on a line of its own, one after the other.
pub proof fn every_identity_is_stored_on_its_line(ids: Seq<Seq<char>>, last: Seq<char>)
    ensures
        stored(seq![last]) == last + "\n"@,
        ids.len() > 0 ==> stored(ids.push(last)) == stored(ids) + last + "\n"@,
{
    assert(ids.push(last).drop_last() == ids);
    if ids.len() > 0 {
        assert(text::join(ids.push(last), "\n"@) == text::join(ids, "\n"@) + "\n"@ + last);
    }
}

} // verus!

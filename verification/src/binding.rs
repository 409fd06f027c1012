//! Key bindings: which texts can be one, when two of them are the same key, and
//! how a binding is shown.
use crate::text;
use crate::text::{chars_of, lower};
use vstd::prelude::*;

verus! {

/// `value` is exactly one character.
pub fn one_character(value: &str) -> (answer: bool)
    ensures
        answer == (value@.len() == 1),
{
    value.unicode_len() == 1
}

/// The form in which bindings are compared: lowercase.
pub fn normalize_key(value: &str) -> (normalized: String)
    ensures
        normalized@ == text::lowered(value@),
{
    lower(value)
}

/// What stands for the key in a template.
pub open spec fn placeholder() -> Seq<char> {
    seq!['{', 'k', 'e', 'y', '}']
}

/// The placeholder stands at position `at` of the template.
pub open spec fn placeholder_at(template: Seq<char>, at: int) -> bool {
    0 <= at && at + 5 <= template.len() && template.subrange(at, at + 5) == placeholder()
}

/// The template with `key` in place of every placeholder.
pub open spec fn substituted(template: Seq<char>, key: Seq<char>) -> Seq<char>
    decreases template.len(),
{
    if template.len() == 0 {
        Seq::empty()
    } else if placeholder_at(template, 0) {
        key + substituted(template.skip(5), key)
    } else {
        seq![template[0]] + substituted(template.skip(1), key)
    }
}

/// How many placeholders the template holds.
pub open spec fn placeholders(template: Seq<char>) -> nat
    decreases template.len(),
{
    if template.len() == 0 {
        0
    } else if placeholder_at(template, 0) {
        1 + placeholders(template.skip(5))
    } else {
        placeholders(template.skip(1))
    }
}

/// A template that bindings may be shown with.
pub open spec fn acceptable_key_format(template: Seq<char>) -> bool {
    &&& placeholders(template) == 1
    &&& template.len() <= 32
    &&& forall|i: int| 0 <= i < template.len() ==> !text::control(#[trigger] template[i])
}

/// The placeholder stands at position `at` of the template.
fn has_placeholder_at(template: &Vec<char>, at: usize) -> (answer: bool)
    requires
        at <= template@.len(),
    ensures
        answer == placeholder_at(template@, at as int),
{
    if template.len() - at < 5 {
        return false;
    }
    let ghost window = template@.subrange(at as int, at + 5);
    let answer = template[at] == '{' && template[at + 1] == 'k' && template[at + 2] == 'e'
        && template[at + 3] == 'y' && template[at + 4] == '}';
    proof {
        assert(forall|i: int| 0 <= i < 5 ==> #[trigger] window[i] == template@[at + i]);
        if answer {
            assert(window == placeholder());
        } else if window == placeholder() {
            assert(window[0] == '{' && window[1] == 'k' && window[2] == 'e' && window[3] == 'y'
                && window[4] == '}');
        }
    }
    answer
}

proof fn lemma_placeholder_at_skip(template: Seq<char>, at: int)
    requires
        0 <= at <= template.len(),
    ensures
        placeholder_at(template.skip(at), 0) == placeholder_at(template, at),
{
    if at + 5 <= template.len() {
        assert(template.skip(at).subrange(0, 5) == template.subrange(at, at + 5));
    }
}

/// Shows a binding: `template` with `key` in place of each `{key}`.
pub fn format_binding(template: &str, key: &str) -> (shown: String)
    ensures
        shown@ == substituted(template@, key@),
{
    let chars = chars_of(template);
    let mut shown = String::new();
    let mut next: usize = 0;
    assert(template@.skip(0) == template@);
    while next < chars.len()
        invariant
            next <= chars@.len(),
            chars@ == template@,
            shown@ + substituted(template@.skip(next as int), key@) == substituted(
                template@,
                key@,
            ),
        decreases chars@.len() - next,
    {
        let ghost rest = template@.skip(next as int);
        let ghost before = shown@;
        proof {
            lemma_placeholder_at_skip(template@, next as int);
        }
        if has_placeholder_at(&chars, next) {
            shown.append(key);
            next = next + 5;
            proof {
                let tail = template@.skip(next as int);
                assert(rest.skip(5) == tail);
                assert(before + (key@ + substituted(tail, key@)) == (before + key@) + substituted(
                    tail,
                    key@,
                ));
            }
        } else {
            shown.push(chars[next]);
            next = next + 1;
            proof {
                let tail = template@.skip(next as int);
                assert(rest.skip(1) == tail);
                assert(before + (seq![rest[0]] + substituted(tail, key@)) == before.push(rest[0])
                    + substituted(tail, key@));
            }
        }
    }
    assert(shown@ + Seq::<char>::empty() == shown@);
    shown
}

/// `template` may be used to show bindings: it holds `{key}` exactly once, has no
/// control characters and is at most 32 characters long.
pub fn valid_key_format(template: &str) -> (valid: bool)
    ensures
        valid == acceptable_key_format(template@),
{
    let chars = chars_of(template);
    if chars.len() > 32 {
        return false;
    }
    let mut next: usize = 0;
    while next < chars.len()
        invariant
            next <= chars@.len(),
            chars@ == template@,
            forall|i: int| 0 <= i < next ==> !text::control(#[trigger] template@[i]),
        decreases chars@.len() - next,
    {
        if chars[next].is_control() {
            return false;
        }
        next = next + 1;
    }
    let mut found: usize = 0;
    let mut at: usize = 0;
    assert(template@.skip(0) == template@);
    while at < chars.len()
        invariant
            at <= chars@.len() <= 32,
            chars@ == template@,
            found <= at,
            found + placeholders(template@.skip(at as int)) == placeholders(template@),
        decreases chars@.len() - at,
    {
        let ghost rest = template@.skip(at as int);
        proof {
            lemma_placeholder_at_skip(template@, at as int);
        }
        if has_placeholder_at(&chars, at) {
            found = found + 1;
            at = at + 5;
            assert(rest.skip(5) == template@.skip(at as int));
        } else {
            at = at + 1;
            assert(rest.skip(1) == template@.skip(at as int));
        }
    }
    found == 1
}

proof fn lemma_without_placeholder(template: Seq<char>, key: Seq<char>)
    requires
        placeholders(template) == 0,
    ensures
        substituted(template, key) == template,
    decreases template.len(),
{
    if template.len() > 0 {
        lemma_without_placeholder(template.skip(1), key);
        assert(seq![template[0]] + template.skip(1) == template);
    }
}

/// Where the one placeholder of a template stands.
pub open spec fn placeholder_position(template: Seq<char>) -> int
    decreases template.len(),
{
    if template.len() == 0 || placeholder_at(template, 0) {
        0
    } else {
        1 + placeholder_position(template.skip(1))
    }
}

/// A template with one placeholder shows every key between the same two pieces of
/// text.
pub proof fn one_placeholder_frames_the_key(template: Seq<char>, key: Seq<char>)
    requires
        placeholders(template) == 1,
    ensures
        placeholder_at(template, placeholder_position(template)),
        substituted(template, key) == template.take(placeholder_position(template)) + key
            + template.skip(placeholder_position(template) + 5),
    decreases template.len(),
{
    if placeholder_at(template, 0) {
        lemma_without_placeholder(template.skip(5), key);
        assert(template.take(0) + key + template.skip(5) == key + template.skip(5));
    } else {
        let rest = template.skip(1);
        let at = placeholder_position(rest);
        one_placeholder_frames_the_key(rest, key);
        assert(template.subrange(at + 1, at + 6) == rest.subrange(at, at + 5));
        assert(seq![template[0]] + (rest.take(at) + key + rest.skip(at + 5)) == template.take(
            at + 1,
        ) + key + template.skip(at + 6));
    }
}

proof fn lemma_placeholder_characters(template: Seq<char>, at: int)
    ensures
        placeholder_at(template, at) <==> 0 <= at && at + 5 <= template.len() && template[at] == '{'
            && template[at + 1] == 'k' && template[at + 2] == 'e' && template[at + 3] == 'y'
            && template[at + 4] == '}',
{
    if 0 <= at && at + 5 <= template.len() {
        let window = template.subrange(at, at + 5);
        assert(forall|i: int| 0 <= i < 5 ==> #[trigger] window[i] == template[at + i]);
        if window == placeholder() {
            assert(window[0] == '{' && window[1] == 'k' && window[2] == 'e' && window[3] == 'y'
                && window[4] == '}');
        }
        if template[at] == '{' && template[at + 1] == 'k' && template[at + 2] == 'e' && template[at
            + 3] == 'y' && template[at + 4] == '}' {
            assert(window == placeholder());
        }
    }
}

/// `{key}` stands at position `at` of the template.
pub open spec fn key_stands_at(template: Seq<char>, at: int) -> bool {
    0 <= at && at + 5 <= template.len() && template.subrange(at, at + 5) == "{key}"@
}

proof fn lemma_key_stands_at(template: Seq<char>, at: int)
    ensures
        key_stands_at(template, at) == placeholder_at(template, at),
{
    reveal_strlit("{key}");
    assert("{key}"@ == placeholder());
}

/// The key is written where `{key}` stands, and what comes before and behind it is
/// treated on its own.
pub proof fn the_key_stands_where_it_is_asked_for(
    before: Seq<char>,
    behind: Seq<char>,
    key: Seq<char>,
)
    ensures
        substituted(before + "{key}"@ + behind, key) == substituted(before, key) + key
            + substituted(behind, key),
    decreases before.len(),
{
    reveal_strlit("{key}");
    let whole = before + "{key}"@ + behind;
    lemma_placeholder_characters(whole, 0);
    lemma_placeholder_characters(before, 0);
    if before.len() == 0 {
        assert(whole.skip(5) == behind);
        assert(substituted(before, key) + key + substituted(behind, key) == key + substituted(
            behind,
            key,
        ));
    } else {
        assert(whole[before.len() as int] == '{');
        if placeholder_at(before, 0) {
            assert(whole.skip(5) == before.skip(5) + "{key}"@ + behind);
            the_key_stands_where_it_is_asked_for(before.skip(5), behind, key);
            let rest = substituted(before.skip(5), key);
            assert(key + (rest + key + substituted(behind, key)) == (key + rest) + key
                + substituted(behind, key));
        } else {
            assert(!placeholder_at(whole, 0));
            assert(whole.skip(1) == before.skip(1) + "{key}"@ + behind);
            the_key_stands_where_it_is_asked_for(before.skip(1), behind, key);
            let rest = substituted(before.skip(1), key);
            let first = seq![before[0]];
            assert(first + (rest + key + substituted(behind, key)) == (first + rest) + key
                + substituted(behind, key));
        }
    }
}

/// A template in which `{key}` stands nowhere is shown as it is.
pub proof fn a_template_without_key_is_shown_as_it_is(template: Seq<char>, key: Seq<char>)
    requires
        forall|at: int| !#[trigger] key_stands_at(template, at),
    ensures
        substituted(template, key) == template,
        placeholders(template) == 0,
    decreases template.len(),
{
    if template.len() > 0 {
        lemma_key_stands_at(template, 0);
        assert(!key_stands_at(template, 0));
        assert forall|at: int| !#[trigger] key_stands_at(template.skip(1), at) by {
            if key_stands_at(template.skip(1), at) {
                assert(template.skip(1).subrange(at, at + 5) == template.subrange(at + 1, at + 6));
                assert(key_stands_at(template, at + 1));
            }
        }
        a_template_without_key_is_shown_as_it_is(template.skip(1), key);
        assert(seq![template[0]] + template.skip(1) == template);
    }
}

proof fn lemma_key_stands_behind(template: Seq<char>, cut: int, at: int)
    requires
        0 <= cut <= at,
        cut <= template.len(),
    ensures
        key_stands_at(template.skip(cut), at - cut) == key_stands_at(template, at),
{
    if at + 5 <= template.len() {
        assert(template.skip(cut).subrange(at - cut, at - cut + 5) == template.subrange(at, at + 5));
    }
}

proof fn lemma_no_overlap(template: Seq<char>, at: int)
    requires
        key_stands_at(template, 0),
        0 < at < 5,
    ensures
        !key_stands_at(template, at),
{
    lemma_key_stands_at(template, 0);
    lemma_key_stands_at(template, at);
    lemma_placeholder_characters(template, 0);
    lemma_placeholder_characters(template, at);
}

proof fn lemma_some_placeholder(template: Seq<char>, at: int)
    requires
        key_stands_at(template, at),
    ensures
        placeholders(template) > 0,
    decreases template.len(),
{
    lemma_key_stands_at(template, 0);
    lemma_key_stands_at(template, at);
    if !placeholder_at(template, 0) {
        lemma_key_stands_behind(template, 1, at);
        lemma_some_placeholder(template.skip(1), at - 1);
    }
}

/// A template counts as holding `{key}` once exactly when there is one position at
/// which it stands and no other.
pub proof fn once_is_at_one_position_alone(template: Seq<char>)
    ensures
        placeholders(template) == 1 <==> exists|at: int|
            {
                &&& #[trigger] key_stands_at(template, at)
                &&& forall|other: int| #[trigger] key_stands_at(template, other) ==> other == at
            },
    decreases template.len(),
{
    if template.len() == 0 {
        assert(forall|at: int| !#[trigger] key_stands_at(template, at));
    } else {
        lemma_key_stands_at(template, 0);
        if placeholder_at(template, 0) {
            let rest = template.skip(5);
            assert(key_stands_at(template, 0));
            if placeholders(rest) == 0 {
                assert forall|other: int| #[trigger] key_stands_at(template, other) implies other
                    == 0 by {
                    if 0 < other < 5 {
                        lemma_no_overlap(template, other);
                    } else if other >= 5 {
                        lemma_key_stands_behind(template, 5, other);
                        lemma_some_placeholder(rest, other - 5);
                    }
                }
            } else if forall|other: int| !#[trigger] key_stands_at(rest, other) {
                a_template_without_key_is_shown_as_it_is(rest, Seq::empty());
            } else {
                let other = choose|other: int| #[trigger] key_stands_at(rest, other);
                lemma_key_stands_behind(template, 5, other + 5);
                assert(key_stands_at(template, other + 5));
            }
        } else {
            let rest = template.skip(1);
            once_is_at_one_position_alone(rest);
            if placeholders(rest) == 1 {
                let at = choose|at: int|
                    {
                        &&& #[trigger] key_stands_at(rest, at)
                        &&& forall|other: int| #[trigger]
                            key_stands_at(rest, other) ==> other == at
                    };
                lemma_key_stands_behind(template, 1, at + 1);
                assert(key_stands_at(template, at + 1));
                assert forall|other: int| #[trigger] key_stands_at(template, other) implies other
                    == at + 1 by {
                    lemma_key_stands_behind(template, 1, other);
                    assert(key_stands_at(rest, other - 1));
                }
            }
            if exists|at: int|
                {
                    &&& #[trigger] key_stands_at(template, at)
                    &&& forall|other: int| #[trigger]
                        key_stands_at(template, other) ==> other == at
                } {
                let at = choose|at: int|
                    {
                        &&& #[trigger] key_stands_at(template, at)
                        &&& forall|other: int| #[trigger]
                            key_stands_at(template, other) ==> other == at
                    };
                lemma_key_stands_behind(template, 1, at);
                assert(key_stands_at(rest, at - 1));
                assert forall|other: int| #[trigger] key_stands_at(rest, other) implies other == at
                    - 1 by {
                    lemma_key_stands_behind(template, 1, other + 1);
                    assert(key_stands_at(template, other + 1));
                }
            }
        }
    }
}

/// A key format is accepted exactly when `{key}` stands at one position of it alone,
/// it is at most 32 characters long and none of them is a control character.
pub proof fn accepted_key_formats(template: Seq<char>)
    ensures
        acceptable_key_format(template) <==> {
            &&& template.len() <= 32
            &&& forall|i: int|
                0 <= i < template.len() ==> {
                    let code = (#[trigger] template[i]) as u32;
                    0x20 <= code < 0x7f || 0xa0 <= code
                }
            &&& exists|at: int|
                {
                    &&& #[trigger] key_stands_at(template, at)
                    &&& forall|other: int| #[trigger] key_stands_at(template, other) ==> other == at
                }
        },
{
    once_is_at_one_position_alone(template);
    if forall|i: int| 0 <= i < template.len() ==> !text::control(#[trigger] template[i]) {
        assert forall|i: int| 0 <= i < template.len() implies {
            let code = (#[trigger] template[i]) as u32;
            0x20 <= code < 0x7f || 0xa0 <= code
        } by {
            assert(!text::control(template[i]));
        }
    }
}

} // verus!

//! The stable identities under which used commands are remembered.
use crate::text;
use crate::text::{chars_of, push_hexadecimal};
use vstd::prelude::*;

verus! {

/// The 64-bit FNV-1a hash of `bytes`.
pub open spec fn fnv1a(bytes: Seq<u8>) -> u64
    decreases bytes.len(),
{
    if bytes.len() == 0 {
        0xcbf29ce484222325
    } else {
        (fnv1a(bytes.drop_last()) ^ (bytes.last() as u64)).wrapping_mul(0x100000001b3)
    }
}

/// The identity derived from a text.
pub open spec fn derived_id(value: Seq<char>) -> Seq<char> {
    "auto:"@ + text::hexadecimal(fnv1a(vstd::utf8::encode_utf8(value)) as nat, 16)
}

/// The identity made of an explicit id.
pub open spec fn explicit_id(id: Seq<char>) -> Seq<char> {
    "id:"@ + id
}

/// A character that an explicit id may hold.
pub open spec fn id_character(character: char) -> bool {
    ||| '0' <= character <= '9'
    ||| 'A' <= character <= 'Z'
    ||| 'a' <= character <= 'z'
    ||| character == '.'
    ||| character == '_'
    ||| character == '-'
}

/// An id that an item may be given: not empty, and of `id_character`s only.
pub open spec fn acceptable_id(id: Seq<char>) -> bool {
    id.len() > 0 && forall|i: int| 0 <= i < id.len() ==> id_character(#[trigger] id[i])
}

/// A text that can stand on a line of its own and is found again when the line is
/// trimmed: not empty, no white space anywhere.
pub open spec fn solid(value: Seq<char>) -> bool {
    value.len() > 0 && forall|i: int|
        0 <= i < value.len() ==> !text::white_space(#[trigger] value[i])
}

/// The identity derived from `value`: `auto:` and the 64-bit FNV-1a hash of its
/// UTF-8 bytes in sixteen hexadecimal digits.
pub fn stable_hash(value: &str) -> (id: String)
    ensures
        id@ == derived_id(value@),
{
    let bytes = value.as_bytes();
    let mut hash: u64 = 0xcbf29ce484222325;
    let mut next: usize = 0;
    while next < bytes.len()
        invariant
            next <= bytes@.len(),
            hash == fnv1a(bytes@.take(next as int)),
        decreases bytes@.len() - next,
    {
        proof {
            let longer = bytes@.take(next + 1);
            assert(longer.drop_last() == bytes@.take(next as int));
        }
        hash = (hash ^ (bytes[next] as u64)).wrapping_mul(0x100000001b3);
        next = next + 1;
    }
    assert(bytes@.take(next as int) == bytes@);
    let mut id = "auto:".to_owned();
    push_hexadecimal(&mut id, hash, 16);
    id
}

/// `value` may serve as an explicit id: letters, digits, `.`, `_` and `-` only,
/// at least one of them.
pub fn valid_explicit_id(value: &str) -> (valid: bool)
    ensures
        valid == acceptable_id(value@),
{
    let chars = chars_of(value);
    let mut next: usize = 0;
    while next < chars.len()
        invariant
            next <= chars@.len(),
            chars@ == value@,
            forall|i: int| 0 <= i < next ==> id_character(#[trigger] value@[i]),
        decreases chars@.len() - next,
    {
        let character = chars[next];
        let allowed = ('0' <= character && character <= '9') || ('A' <= character && character
            <= 'Z') || ('a' <= character && character <= 'z') || character == '.' || character
            == '_' || character == '-';
        if !allowed {
            assert(!id_character(value@[next as int]));
            return false;
        }
        next = next + 1;
    }
    chars.len() > 0
}

proof fn lemma_hexadecimal(value: nat, width: nat)
    ensures
        text::hexadecimal(value, width).len() == width,
        forall|i: int|
            0 <= i < width ==> {
                let shown = #[trigger] text::hexadecimal(value, width)[i];
                '0' <= shown <= '9' || 'a' <= shown <= 'f'
            },
    decreases width,
{
    if width > 0 {
        lemma_hexadecimal(value / 16, (width - 1) as nat);
        assert(value % 16 < 16);
    }
}

/// A derived identity is `auto:` and sixteen lowercase hexadecimal digits.
pub proof fn derived_ids_have_one_shape(value: Seq<char>)
    ensures
        derived_id(value).len() == 21,
        derived_id(value).take(5) == "auto:"@,
        forall|i: int|
            5 <= i < 21 ==> {
                let shown = #[trigger] derived_id(value)[i];
                '0' <= shown <= '9' || 'a' <= shown <= 'f'
            },
{
    reveal_strlit("auto:");
    let hash = fnv1a(vstd::utf8::encode_utf8(value)) as nat;
    lemma_hexadecimal(hash, 16);
    assert(derived_id(value).take(5) == "auto:"@);
    assert forall|i: int| 5 <= i < 21 implies {
        let shown = #[trigger] derived_id(value)[i];
        '0' <= shown <= '9' || 'a' <= shown <= 'f'
    } by {
        assert(derived_id(value)[i] == text::hexadecimal(hash, 16)[i - 5]);
    }
}

/// An explicit id never yields the identity that is derived from some text.
pub proof fn explicit_and_derived_ids_differ(id: Seq<char>, value: Seq<char>)
    ensures
        explicit_id(id) != derived_id(value),
{
    reveal_strlit("id:");
    reveal_strlit("auto:");
    assert(explicit_id(id)[0] == 'i');
    assert(derived_id(value)[0] == 'a');
}

/// Different explicit ids yield different identities.
pub proof fn explicit_ids_stay_apart(left: Seq<char>, right: Seq<char>)
    requires
        left != right,
    ensures
        explicit_id(left) != explicit_id(right),
{
    reveal_strlit("id:");
    if explicit_id(left) == explicit_id(right) {
        assert(left == explicit_id(left).skip(3));
        assert(right == explicit_id(right).skip(3));
    }
}

/// No identity of an item holds white space, so each can be stored on a line.
pub proof fn identities_are_solid(id: Seq<char>, value: Seq<char>)
    ensures
        acceptable_id(id) ==> solid(explicit_id(id)),
        solid(derived_id(value)),
{
    reveal_strlit("id:");
    reveal_strlit("auto:");
    derived_ids_have_one_shape(value);
    assert forall|i: int| 0 <= i < 21 implies !text::white_space(
        #[trigger] derived_id(value)[i],
    ) by {
        if i < 5 {
            assert(derived_id(value)[i] == "auto:"@[i]);
        }
    }
    if acceptable_id(id) {
        assert forall|i: int| 0 <= i < explicit_id(id).len() implies !text::white_space(
            #[trigger] explicit_id(id)[i],
        ) by {
            if i >= 3 {
                assert(explicit_id(id)[i] == id[i - 3]);
            }
        }
    }
}

/// Nothing has the offset basis of the 64-bit FNV-1a hash as its hash, and each byte
/// behind other bytes is mixed in and multiplied by the FNV prime.
pub proof fn each_byte_is_hashed_in_turn(bytes: Seq<u8>, last: u8)
    ensures
        fnv1a(Seq::empty()) == 14_695_981_039_346_656_037u64,
        fnv1a(bytes.push(last)) == (fnv1a(bytes) ^ (last as u64)).wrapping_mul(
            1_099_511_628_211u64,
        ),
{
    assert(bytes.push(last).drop_last() == bytes);
}

/// The digits of a derived identity stand for the hash of the UTF-8 bytes of the
/// text.
pub proof fn a_derived_identity_is_the_hash(value: Seq<char>)
    ensures
        derived_id(value).skip(5).fold_left(
            0,
            |read: int, shown: char|
                read * 16 + (if shown <= '9' {
                    shown as u32 - 48
                } else {
                    shown as u32 - 87
                }),
        ) == fnv1a(vstd::utf8::encode_utf8(value)),
{
    reveal_strlit("auto:");
    let hash = fnv1a(vstd::utf8::encode_utf8(value)) as nat;
    reveal_with_fuel(vstd::arithmetic::power::pow, 17);
    assert(vstd::arithmetic::power::pow(16, 16) == 0x1_0000_0000_0000_0000);
    text::hexadecimal_digits_stand_for_the_number(hash, 16);
    assert(derived_id(value).skip(5) == text::hexadecimal(hash, 16));
}

/// An explicit identity is `id:` and the id as it stands.
pub proof fn an_explicit_identity_is_the_id(id: Seq<char>)
    ensures
        explicit_id(id).take(3) == "id:"@,
        explicit_id(id).skip(3) == id,
{
    reveal_strlit("id:");
}

/// An id is accepted exactly when there is something in it and all of it is among the
/// ASCII letters and digits, `.`, `_` and `-`.
pub proof fn accepted_ids(id: Seq<char>)
    ensures
        acceptable_id(id) <==> id.len() > 0 && forall|i: int|
            0 <= i < id.len() ==> (text::ascii_alphanumeric(#[trigger] id[i]) || "._-"@.contains(
                id[i],
            )),
{
    reveal_strlit("._-");
    let marks = "._-"@;
    assert(marks[0] == '.' && marks[1] == '_' && marks[2] == '-');
    if acceptable_id(id) {
        assert forall|i: int| 0 <= i < id.len() implies (text::ascii_alphanumeric(#[trigger] id[i])
            || marks.contains(id[i])) by {
            assert(id_character(id[i]));
        }
    }
}

} // verus!

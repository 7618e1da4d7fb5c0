//! The members of a JSON object, for reading a payload member by member.
//!
//! Keys and values are read by the outside functions in [`primitives`]; what holds
//! them together, braces, colons, commas and blanks, is read here. A value that
//! nobody asks for is passed over unread, and a member that is given twice is no
//! member.

use vstd::prelude::*;
use vstd::slice::slice_subrange;

use crate::primitives;
use crate::text;

verus! {

/// A byte that may stand between the parts of an object.
pub open spec fn is_blank(byte: u8) -> bool {
    byte == 0x20 || byte == 0x0a || byte == 0x0d || byte == 0x09
}

/// What is left of some bytes after the blanks they begin with.
pub open spec fn unblanked(bytes: Seq<u8>) -> Seq<u8>
    decreases bytes.len(),
{
    if bytes.len() > 0 && is_blank(bytes.first()) {
        unblanked(bytes.drop_first())
    } else {
        bytes
    }
}

/// Some bytes begin, after blanks, with a given one.
pub open spec fn begins(bytes: Seq<u8>, byte: u8) -> bool {
    unblanked(bytes).len() > 0 && unblanked(bytes).first() == byte
}

/// What follows the byte that some bytes begin with after blanks.
pub open spec fn beyond(bytes: Seq<u8>) -> Seq<u8> {
    unblanked(bytes).drop_first()
}

/// The key that some bytes begin with, and the bytes from its value on.
pub open spec fn first_member(bytes: Seq<u8>) -> Option<(Seq<char>, Seq<u8>)> {
    match primitives::json_head_text(bytes) {
        Some((key, length)) => if begins(bytes.skip(length as int), 0x3a) {
            Some((key, beyond(bytes.skip(length as int))))
        } else {
            None
        },
        None => None,
    }
}

/// The members of an object from some key on, up to its closing brace and the blanks
/// behind it: each key, and the bytes from its value on.
pub open spec fn members_from(bytes: Seq<u8>) -> Option<Seq<(Seq<char>, Seq<u8>)>>
    decreases bytes.len(),
{
    match first_member(bytes) {
        None => None,
        Some((key, value)) => match primitives::json_head_end(value) {
            None => None,
            Some(length) => {
                let rest = value.skip(length as int);
                if begins(rest, 0x7d) {
                    if unblanked(beyond(rest)).len() == 0 {
                        Some(seq![(key, value)])
                    } else {
                        None
                    }
                } else if begins(rest, 0x2c) && beyond(rest).len() < bytes.len() {
                    match members_from(beyond(rest)) {
                        None => None,
                        Some(others) => Some(seq![(key, value)] + others),
                    }
                } else {
                    None
                }
            },
        },
    }
}

/// The members of the object that `json` holds, in order, if it holds one.
pub open spec fn members_of(json: Seq<u8>) -> Option<Seq<(Seq<char>, Seq<u8>)>> {
    if !begins(json, 0x7b) {
        None
    } else if begins(beyond(json), 0x7d) {
        if unblanked(beyond(beyond(json))).len() == 0 {
            Some(Seq::empty())
        } else {
            None
        }
    } else {
        members_from(beyond(json))
    }
}

/// The values that some members give to a key, in order.
pub open spec fn values_of(members: Seq<(Seq<char>, Seq<u8>)>, key: Seq<char>) -> Seq<Seq<u8>>
    decreases members.len(),
{
    if members.len() == 0 {
        Seq::empty()
    } else if members.last().0 == key {
        values_of(members.drop_last(), key).push(members.last().1)
    } else {
        values_of(members.drop_last(), key)
    }
}

/// The bytes from the value of a member on, if the object that `json` holds has that
/// member once.
pub open spec fn member(json: Seq<u8>, key: Seq<char>) -> Option<Seq<u8>> {
    match members_of(json) {
        None => None,
        Some(members) => if values_of(members, key).len() == 1 {
            Some(values_of(members, key)[0])
        } else {
            None
        },
    }
}

/// The member `key` of the object that `json` holds, if it is text.
pub open spec fn text_member(json: Seq<u8>, key: Seq<char>) -> Option<Seq<char>> {
    match member(json, key) {
        None => None,
        Some(value) => match primitives::json_head_text(value) {
            None => None,
            Some((text, _)) => Some(text),
        },
    }
}

/// The member `key` of the object that `json` holds, if it is an integer that fits
/// `u64`.
pub open spec fn unsigned_member(json: Seq<u8>, key: Seq<char>) -> Option<u64> {
    match member(json, key) {
        None => None,
        Some(value) => primitives::json_head_unsigned(value),
    }
}

/// The member `key` of the object that `json` holds, if it is an integer that fits
/// `i64`.
pub open spec fn signed_member(json: Seq<u8>, key: Seq<char>) -> Option<i64> {
    match member(json, key) {
        None => None,
        Some(value) => primitives::json_head_signed(value),
    }
}

/// Members by the place of their values.
pub open spec fn located(json: Seq<u8>, places: Seq<(String, usize)>) -> Seq<
    (Seq<char>, Seq<u8>),
> {
    places.map_values(|place: (String, usize)| (place.0@, json.skip(place.1 as int)))
}

/// Where the blanks from some place on end.
fn past_blanks(json: &[u8], at: usize) -> (next: usize)
    requires
        at <= json@.len(),
    ensures
        at <= next <= json@.len(),
        json@.skip(next as int) == unblanked(json@.skip(at as int)),
{
    let length: usize = json.len();
    let mut next: usize = at;
    while next < length && (json[next] == 0x20 || json[next] == 0x0a || json[next] == 0x0d
        || json[next] == 0x09)
        invariant
            length == json@.len(),
            at <= next <= length,
            unblanked(json@.skip(at as int)) == unblanked(json@.skip(next as int)),
        decreases length - next,
    {
        assert(json@.skip(next as int).drop_first() =~= json@.skip(next + 1));
        next = next + 1;
    }
    next
}

/// The place behind the given byte, if it comes next after blanks.
fn past_byte(json: &[u8], at: usize, byte: u8) -> (next: Option<usize>)
    requires
        at <= json@.len(),
    ensures
        match next {
            Some(next) => {
                &&& at < next <= json@.len()
                &&& begins(json@.skip(at as int), byte)
                &&& json@.skip(next as int) == beyond(json@.skip(at as int))
            },
            None => !begins(json@.skip(at as int), byte),
        },
{
    let found: usize = past_blanks(json, at);
    if found < json.len() && json[found] == byte {
        assert(json@.skip(found as int).drop_first() =~= json@.skip(found + 1));
        Some(found + 1)
    } else {
        None
    }
}

/// Whether nothing but blanks is left.
fn only_blanks(json: &[u8], at: usize) -> (only: bool)
    requires
        at <= json@.len(),
    ensures
        only == (unblanked(json@.skip(at as int)).len() == 0),
{
    past_blanks(json, at) == json.len()
}

/// The members of the object that `json` holds, in order, if it holds one: each key,
/// and the place of its value.
pub fn object_members(json: &[u8]) -> (members: Option<Vec<(String, usize)>>)
    ensures
        match members {
            Some(places) => {
                &&& members_of(json@) == Some(located(json@, places@))
                &&& forall|i: int| 0 <= i < places@.len() ==> (#[trigger] places@[i]).1 <= json@.len()
            },
            None => members_of(json@) is None,
        },
{
    assert(json@.skip(0) =~= json@);
    let length: usize = json.len();
    let mut places: Vec<(String, usize)> = Vec::new();
    let start: usize = match past_byte(json, 0, 0x7b) {
        Some(start) => start,
        None => return None,
    };
    if let Some(end) = past_byte(json, start, 0x7d) {
        if only_blanks(json, end) {
            assert(located(json@, places@) =~= Seq::empty());
            return Some(places);
        }
        return None;
    }
    let mut at: usize = start;
    assert(members_of(json@) == members_from(json@.skip(at as int)));
    loop
        invariant
            length == json@.len(),
            at <= length,
            forall|i: int| 0 <= i < places@.len() ==> (#[trigger] places@[i]).1 <= json@.len(),
            members_of(json@) == match members_from(json@.skip(at as int)) {
                None => None,
                Some(others) => Some(located(json@, places@) + others),
            },
        decreases length - at,
    {
        let ghost before = places@;
        let (key, key_length) = match primitives::json_read_head_text(
            slice_subrange(json, at, length),
        ) {
            Some(head) => head,
            None => {
                assert(json@.subrange(at as int, length as int) =~= json@.skip(at as int));
                return None;
            },
        };
        assert(json@.subrange(at as int, length as int) =~= json@.skip(at as int));
        let behind: usize = at + key_length;
        assert(json@.skip(at as int).skip(key_length as int) =~= json@.skip(behind as int));
        let value: usize = match past_byte(json, behind, 0x3a) {
            Some(value) => value,
            None => return None,
        };
        assert(first_member(json@.skip(at as int)) == Some((key@, json@.skip(value as int))));
        let value_length: usize = match primitives::json_read_head_end(
            slice_subrange(json, value, length),
        ) {
            Some(value_length) => value_length,
            None => {
                assert(json@.subrange(value as int, length as int) =~= json@.skip(value as int));
                return None;
            },
        };
        assert(json@.subrange(value as int, length as int) =~= json@.skip(value as int));
        let rest: usize = value + value_length;
        assert(json@.skip(value as int).skip(value_length as int) =~= json@.skip(rest as int));
        places.push((key, value));
        assert(located(json@, places@) =~= located(json@, before).push(
            (key@, json@.skip(value as int)),
        ));
        if let Some(end) = past_byte(json, rest, 0x7d) {
            if only_blanks(json, end) {
                assert(located(json@, before) + seq![(key@, json@.skip(value as int))] =~= located(
                    json@,
                    places@,
                ));
                return Some(places);
            }
            return None;
        }
        let next: usize = match past_byte(json, rest, 0x2c) {
            Some(next) => next,
            None => return None,
        };
        proof {
            if let Some(others) = members_from(json@.skip(next as int)) {
                assert(located(json@, before) + (seq![(key@, json@.skip(value as int))] + others)
                    =~= located(json@, places@) + others);
            }
        }
        at = next;
    }
}

/// The place of the value of a member, if the object has that member once.
fn find_member(json: &[u8], key: &str) -> (place: Option<usize>)
    ensures
        match place {
            Some(place) => place <= json@.len() && member(json@, key@) == Some(
                json@.skip(place as int),
            ),
            None => member(json@, key@) is None,
        },
{
    let places = match object_members(json) {
        Some(places) => places,
        None => return None,
    };
    let ghost members = located(json@, places@);
    let mut found: Option<usize> = None;
    let mut index: usize = 0;
    assert(members.take(0) =~= Seq::empty());
    while index < places.len()
        invariant
            index <= places@.len(),
            members == located(json@, places@),
            members_of(json@) == Some(members),
            forall|i: int| 0 <= i < places@.len() ==> (#[trigger] places@[i]).1 <= json@.len(),
            match found {
                None => values_of(members.take(index as int), key@).len() == 0,
                Some(place) => place <= json@.len() && values_of(
                    members.take(index as int),
                    key@,
                ) == seq![json@.skip(place as int)],
            },
        decreases places@.len() - index,
    {
        let place: usize = places[index].1;
        proof {
            assert(members.take(index + 1).drop_last() =~= members.take(index as int));
            assert(members[index as int] == (places@[index as int].0@, json@.skip(place as int)));
            assert(members.take(index + 1).last() == members[index as int]);
        }
        if text::same_text(places[index].0.as_str(), key) {
            if found.is_some() {
                proof {
                    lemma_values_grow(members, key@, index + 1);
                }
                return None;
            }
            found = Some(place);
            assert(values_of(members.take(index + 1), key@) =~= seq![json@.skip(place as int)]);
        }
        index = index + 1;
    }
    assert(members.take(index as int) =~= members);
    found
}

proof fn lemma_values_grow(members: Seq<(Seq<char>, Seq<u8>)>, key: Seq<char>, count: int)
    requires
        0 <= count <= members.len(),
    ensures
        values_of(members.take(count), key).len() <= values_of(members, key).len(),
    decreases members.len(),
{
    if count < members.len() {
        lemma_values_grow(members.drop_last(), key, count);
        assert(members.drop_last().take(count) =~= members.take(count));
    } else {
        assert(members.take(count) =~= members);
    }
}

/// The member `key` of the object that `json` holds, if it is text.
pub fn read_text(json: &[u8], key: &str) -> (value: Option<String>)
    ensures
        match value {
            Some(text) => text_member(json@, key@) == Some(text@),
            None => text_member(json@, key@) is None,
        },
{
    let place: usize = match find_member(json, key) {
        Some(place) => place,
        None => return None,
    };
    let rest = slice_subrange(json, place, json.len());
    assert(rest@ =~= json@.skip(place as int));
    match primitives::json_read_head_text(rest) {
        Some((text, _)) => Some(text),
        None => None,
    }
}

/// The member `key` of the object that `json` holds, if it is an integer that fits
/// `u64`.
pub fn read_unsigned(json: &[u8], key: &str) -> (value: Option<u64>)
    ensures
        value == unsigned_member(json@, key@),
{
    let place: usize = match find_member(json, key) {
        Some(place) => place,
        None => return None,
    };
    let rest = slice_subrange(json, place, json.len());
    assert(rest@ =~= json@.skip(place as int));
    primitives::json_read_head_unsigned(rest)
}

/// The member `key` of the object that `json` holds, if it is an integer that fits
/// `i64`.
pub fn read_signed(json: &[u8], key: &str) -> (value: Option<i64>)
    ensures
        value == signed_member(json@, key@),
{
    let place: usize = match find_member(json, key) {
        Some(place) => place,
        None => return None,
    };
    let rest = slice_subrange(json, place, json.len());
    assert(rest@ =~= json@.skip(place as int));
    primitives::json_read_head_signed(rest)
}

/// A member that is given twice is no member: none of its values counts.
pub proof fn lemma_repeated_members_do_not_count(
    json: Seq<u8>,
    members: Seq<(Seq<char>, Seq<u8>)>,
    first: int,
    second: int,
)
    requires
        members_of(json) == Some(members),
        0 <= first < second < members.len(),
        members[first].0 == members[second].0,
    ensures
        member(json, members[first].0) is None,
        text_member(json, members[first].0) is None,
        unsigned_member(json, members[first].0) is None,
        signed_member(json, members[first].0) is None,
{
    let key = members[first].0;
    let upto = members.take(second + 1);
    assert(upto.drop_last() =~= members.take(second));
    assert(upto.last() == members[second]);
    let head = members.take(first + 1);
    assert(head.last() == members[first]);
    lemma_values_grow(members.take(second), key, first + 1);
    assert(members.take(second).take(first + 1) =~= head);
    lemma_values_grow(members, key, second + 1);
}

/// Past the blanks there are none at the front: `count` blanks were there, and what
/// follows them is left.
pub open spec fn leaves(bytes: Seq<u8>, count: int, rest: Seq<u8>) -> bool {
    &&& 0 <= count <= bytes.len()
    &&& rest == bytes.skip(count)
    &&& forall|i: int|
        0 <= i < count ==> #[trigger] bytes[i] == 0x20 || bytes[i] == 0x0a || bytes[i] == 0x0d
            || bytes[i] == 0x09
    &&& count < bytes.len() ==> bytes[count] != 0x20 && bytes[count] != 0x0a && bytes[count] != 0x0d
        && bytes[count] != 0x09
}

/// Blanks are passed over, all of them and nothing else.
pub proof fn lemma_blanks_are_passed_over(bytes: Seq<u8>)
    ensures
        exists|count: int| #[trigger] leaves(bytes, count, unblanked(bytes)),
    decreases bytes.len(),
{
    if bytes.len() > 0 && is_blank(bytes.first()) {
        let tail = bytes.drop_first();
        lemma_blanks_are_passed_over(tail);
        let count = choose|count: int| #[trigger] leaves(tail, count, unblanked(tail));
        assert(bytes.skip(count + 1) =~= tail.skip(count));
        assert forall|i: int| 0 <= i < count + 1 implies #[trigger] bytes[i] == 0x20 || bytes[i]
            == 0x0a || bytes[i] == 0x0d || bytes[i] == 0x09 by {
            if i > 0 {
                assert(tail[i - 1] == bytes[i]);
            }
        }
        if count < tail.len() {
            assert(tail[count] == bytes[count + 1]);
        }
        assert(leaves(bytes, count + 1, unblanked(bytes)));
    } else {
        assert(bytes.skip(0) =~= bytes);
        assert(leaves(bytes, 0, unblanked(bytes)));
    }
}

/// A byte that is no blank comes next after any number of blanks, and what is beyond it
/// is what follows it.
pub proof fn lemma_next_byte(blanks: Seq<u8>, byte: u8, rest: Seq<u8>)
    requires
        forall|i: int|
            0 <= i < blanks.len() ==> #[trigger] blanks[i] == 0x20 || blanks[i] == 0x0a || blanks[i]
                == 0x0d || blanks[i] == 0x09,
        byte != 0x20 && byte != 0x0a && byte != 0x0d && byte != 0x09,
    ensures
        begins(blanks + seq![byte] + rest, byte),
        beyond(blanks + seq![byte] + rest) == rest,
        forall|other: u8| #[trigger] begins(blanks + seq![byte] + rest, other) ==> other == byte,
    decreases blanks.len(),
{
    let bytes = blanks + seq![byte] + rest;
    if blanks.len() > 0 {
        let fewer = blanks.drop_first();
        assert forall|i: int| 0 <= i < fewer.len() implies #[trigger] fewer[i] == 0x20 || fewer[i]
            == 0x0a || fewer[i] == 0x0d || fewer[i] == 0x09 by {
            assert(fewer[i] == blanks[i + 1]);
        }
        lemma_next_byte(fewer, byte, rest);
        assert(bytes.drop_first() =~= fewer + seq![byte] + rest);
        assert(bytes.first() == blanks[0]);
        assert(unblanked(bytes) == unblanked(fewer + seq![byte] + rest));
    } else {
        assert(bytes.first() == byte);
        assert(bytes.drop_first() =~= rest);
    }
}

/// An object is read member by member: a key, a colon, a value, and then a comma and the
/// other members, or the closing brace and nothing but blanks.
pub proof fn lemma_one_member_more(
    bytes: Seq<u8>,
    key: Seq<char>,
    key_length: nat,
    value_length: nat,
)
    requires
        primitives::json_head_text(bytes) == Some((key, key_length)),
        begins(bytes.skip(key_length as int), 0x3a),
        primitives::json_head_end(beyond(bytes.skip(key_length as int))) == Some(value_length),
    ensures
        ({
            let value = beyond(bytes.skip(key_length as int));
            let rest = value.skip(value_length as int);
            &&& begins(rest, 0x7d) && unblanked(beyond(rest)).len() == 0 ==> members_from(bytes)
                == Some(seq![(key, value)])
            &&& begins(rest, 0x7d) && unblanked(beyond(rest)).len() > 0 ==> members_from(
                bytes,
            ) is None
            &&& begins(rest, 0x2c) && beyond(rest).len() < bytes.len() ==> match members_from(
                beyond(rest),
            ) {
                Some(others) => members_from(bytes) == Some(seq![(key, value)] + others),
                None => members_from(bytes) is None,
            }
            &&& !begins(rest, 0x7d) && !begins(rest, 0x2c) ==> members_from(bytes) is None
        }),
{
}

/// What does not begin with a key and a colon, or has no value behind them, holds no
/// members.
pub proof fn lemma_no_member(bytes: Seq<u8>)
    ensures
        primitives::json_head_text(bytes) is None ==> members_from(bytes) is None,
        primitives::json_head_text(bytes) matches Some(head) ==> !begins(
            bytes.skip(head.1 as int),
            0x3a,
        ) ==> members_from(bytes) is None,
        primitives::json_head_text(bytes) matches Some(head) ==> primitives::json_head_end(
            beyond(bytes.skip(head.1 as int)),
        ) is None ==> members_from(bytes) is None,
{
}

/// An object is an opening brace and its members, or the closing brace and nothing but
/// blanks.
pub proof fn lemma_objects(json: Seq<u8>)
    ensures
        !begins(json, 0x7b) ==> members_of(json) is None,
        begins(json, 0x7b) && begins(beyond(json), 0x7d) && unblanked(beyond(beyond(json))).len()
            == 0 ==> members_of(json) == Some(Seq::<(Seq<char>, Seq<u8>)>::empty()),
        begins(json, 0x7b) && begins(beyond(json), 0x7d) && unblanked(beyond(beyond(json))).len()
            > 0 ==> members_of(json) is None,
        begins(json, 0x7b) && !begins(beyond(json), 0x7d) ==> members_of(json) == members_from(
            beyond(json),
        ),
{
}

proof fn lemma_no_values(members: Seq<(Seq<char>, Seq<u8>)>, key: Seq<char>)
    ensures
        values_of(members, key).len() == 0 <==> (forall|i: int|
            0 <= i < members.len() ==> (#[trigger] members[i]).0 != key),
    decreases members.len(),
{
    if members.len() > 0 {
        let before = members.drop_last();
        lemma_no_values(before, key);
        if forall|i: int| 0 <= i < members.len() ==> (#[trigger] members[i]).0 != key {
            assert(members[members.len() - 1].0 != key);
            assert forall|i: int| 0 <= i < before.len() implies (#[trigger] before[i]).0 != key by {
                assert(before[i] == members[i]);
            }
        }
        if values_of(members, key).len() == 0 {
            assert forall|i: int| 0 <= i < members.len() implies (#[trigger] members[i]).0 != key by {
                if i < before.len() {
                    assert(before[i] == members[i]);
                }
            }
        }
    }
}

proof fn lemma_one_value(members: Seq<(Seq<char>, Seq<u8>)>, key: Seq<char>, index: int)
    requires
        0 <= index < members.len(),
        members[index].0 == key,
        forall|i: int|
            0 <= i < members.len() && i != index ==> (#[trigger] members[i]).0 != key,
    ensures
        values_of(members, key) == seq![members[index].1],
    decreases members.len(),
{
    let before = members.drop_last();
    if index == members.len() - 1 {
        lemma_no_values(before, key);
        assert(values_of(before, key) =~= Seq::empty());
        assert(values_of(members, key) =~= seq![members[index].1]);
    } else {
        assert forall|i: int| 0 <= i < before.len() && i != index implies (#[trigger] before[i]).0
            != key by {
            assert(before[i] == members[i]);
        }
        lemma_one_value(before, key, index);
        assert(members[members.len() - 1].0 != key);
    }
}

/// A member is found wherever it stands among the others, if no other has its key; a key
/// that no member has is not found.
pub proof fn lemma_members_are_found(
    json: Seq<u8>,
    members: Seq<(Seq<char>, Seq<u8>)>,
    key: Seq<char>,
    index: int,
)
    requires
        members_of(json) == Some(members),
    ensures
        0 <= index < members.len() && members[index].0 == key && (forall|i: int|
            0 <= i < members.len() && i != index ==> (#[trigger] members[i]).0 != key) ==> {
            let value = members[index].1;
            &&& member(json, key) == Some(value)
            &&& unsigned_member(json, key) == primitives::json_head_unsigned(value)
            &&& signed_member(json, key) == primitives::json_head_signed(value)
            &&& match primitives::json_head_text(value) {
                Some(head) => text_member(json, key) == Some(head.0),
                None => text_member(json, key) is None,
            }
        },
        (forall|i: int| 0 <= i < members.len() ==> (#[trigger] members[i]).0 != key) ==> {
            &&& member(json, key) is None
            &&& text_member(json, key) is None
            &&& unsigned_member(json, key) is None
            &&& signed_member(json, key) is None
        },
{
    if 0 <= index < members.len() && members[index].0 == key && (forall|i: int|
        0 <= i < members.len() && i != index ==> (#[trigger] members[i]).0 != key) {
        lemma_one_value(members, key, index);
    }
    lemma_no_values(members, key);
}

/// What holds no object has no members.
pub proof fn lemma_no_object(json: Seq<u8>, key: Seq<char>)
    requires
        members_of(json) is None,
    ensures
        member(json, key) is None,
        text_member(json, key) is None,
        unsigned_member(json, key) is None,
        signed_member(json, key) is None,
{
}

/// Where nothing but blanks is left, nothing comes next.
pub proof fn lemma_nothing_comes_next(blanks: Seq<u8>, byte: u8)
    requires
        forall|i: int|
            0 <= i < blanks.len() ==> #[trigger] blanks[i] == 0x20 || blanks[i] == 0x0a || blanks[i]
                == 0x0d || blanks[i] == 0x09,
    ensures
        unblanked(blanks).len() == 0,
        !begins(blanks, byte),
    decreases blanks.len(),
{
    if blanks.len() > 0 {
        let fewer = blanks.drop_first();
        assert forall|i: int| 0 <= i < fewer.len() implies #[trigger] fewer[i] == 0x20 || fewer[i]
            == 0x0a || fewer[i] == 0x0d || fewer[i] == 0x09 by {
            assert(fewer[i] == blanks[i + 1]);
        }
        lemma_nothing_comes_next(fewer, byte);
        assert(blanks.first() == blanks[0]);
    }
}

/// The place of a member is where its value begins.
pub proof fn lemma_places(json: Seq<u8>, places: Seq<(String, usize)>, index: int)
    ensures
        located(json, places).len() == places.len(),
        0 <= index < places.len() ==> located(json, places)[index].0 == places[index].0@
            && located(json, places)[index].1 == json.skip(places[index].1 as int),
{
}

} // verus!

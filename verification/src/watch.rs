//! The pre-shared key of the agents.

use vstd::prelude::*;

use crate::digest::{hex_encode, hex_text, random_bytes};

verus! {

/// Minimum length of the pre-shared key.
pub const MIN_PSK_BYTES: usize = 16;

/// Whether a byte is ASCII white space.
pub open spec fn is_ascii_white(b: u8) -> bool {
    b == 0x20 || b == 0x09 || b == 0x0a || b == 0x0c || b == 0x0d
}

/// Bytes without ASCII white space at the start.
pub open spec fn trim_front(bytes: Seq<u8>) -> Seq<u8>
    decreases bytes.len(),
{
    if bytes.len() > 0 && is_ascii_white(bytes[0]) {
        trim_front(bytes.drop_first())
    } else {
        bytes
    }
}

/// Bytes without ASCII white space at the end.
pub open spec fn trim_back(bytes: Seq<u8>) -> Seq<u8>
    decreases bytes.len(),
{
    if bytes.len() > 0 && is_ascii_white(bytes.last()) {
        trim_back(bytes.drop_last())
    } else {
        bytes
    }
}

/// The key that a file holds: its bytes without surrounding white space, if they are enough.
pub open spec fn key_in(raw: Seq<u8>) -> Option<Seq<u8>> {
    let key = trim_back(trim_front(raw));
    if key.len() >= MIN_PSK_BYTES {
        Some(key)
    } else {
        None
    }
}

/// Whether a byte is ASCII white space.
fn is_white(b: u8) -> (white: bool)
    ensures
        white == is_ascii_white(b),
{
    b == 0x20 || b == 0x09 || b == 0x0a || b == 0x0c || b == 0x0d
}

/// The pre-shared key in the bytes of its file, surrounding whitespace trimmed; `None` if it is
/// too short.
pub fn parse_psk(raw: &[u8]) -> (key: Option<Vec<u8>>)
    ensures
        match key {
            Some(k) => key_in(raw@) == Some(k@),
            None => key_in(raw@) is None,
        },
{
    let mut from: usize = 0;
    assert(raw@.skip(0) =~= raw@);
    while from < raw.len() && is_white(raw[from])
        invariant
            from <= raw@.len(),
            trim_front(raw@) == trim_front(raw@.skip(from as int)),
        decreases raw.len() - from,
    {
        assert(raw@.skip(from as int).drop_first() =~= raw@.skip(from + 1));
        from += 1;
    }
    let ghost rest = raw@.skip(from as int);
    assert(trim_front(rest) == rest) by {
        if rest.len() > 0 {
            assert(rest[0] == raw@[from as int]);
        }
    }
    let mut to: usize = raw.len();
    assert(rest =~= raw@.subrange(from as int, to as int));
    while to > from && is_white(raw[to - 1])
        invariant
            from <= to <= raw@.len(),
            trim_back(rest) == trim_back(raw@.subrange(from as int, to as int)),
        decreases to,
    {
        assert(raw@.subrange(from as int, to as int).last() == raw@[to - 1]);
        assert(raw@.subrange(from as int, to as int).drop_last() =~= raw@.subrange(
            from as int,
            to - 1,
        ));
        to -= 1;
    }
    let ghost kept = raw@.subrange(from as int, to as int);
    assert(trim_back(kept) == kept) by {
        if to > from {
            assert(kept.last() == raw@[to - 1]);
        }
    }
    if to - from < MIN_PSK_BYTES {
        return None;
    }
    let mut key: Vec<u8> = Vec::new();
    for i in from..to
        invariant
            from <= to <= raw@.len(),
            key@ == raw@.subrange(from as int, i as int),
    {
        key.push(raw[i]);
        assert(key@ =~= raw@.subrange(from as int, i + 1));
    }
    Some(key)
}

/// What is said of a key that is too short.
pub fn short_psk_message(path: &str) -> (message: String)
    ensures
        message@ == "pre-shared key "@ + path@ + " is shorter than 16 bytes"@,
{
    "pre-shared key ".to_string().concat(path).concat(" is shorter than 16 bytes")
}

/// The text of a pre-shared key.
pub fn psk_text(bytes: &[u8]) -> (key: String)
    ensures
        key@ == hex_text(bytes@),
{
    hex_encode(bytes)
}

/// A new random pre-shared key: the text of 32 bytes, any of which may come up.
pub fn generate_psk() -> (key: String)
    ensures
        exists|bytes: Seq<u8>| bytes.len() == 32 && key@ == #[trigger] hex_text(bytes),
{
    let bytes: [u8; 32] = random_bytes::<32>();
    let key = psk_text(&bytes);
    assert(bytes@.len() == 32 && key@ == hex_text(bytes@));
    key
}

/// A key is what a file holds without the white space around it, if that is at least sixteen bytes:
/// with too few bytes there is no key, and no other byte is lost.
pub proof fn law_keys_are_long_and_kept_whole(front: Seq<u8>, key: Seq<u8>, back: Seq<u8>)
    requires
        forall|i: int| 0 <= i < front.len() ==> is_ascii_white(#[trigger] front[i]),
        forall|i: int| 0 <= i < back.len() ==> is_ascii_white(#[trigger] back[i]),
        key.len() > 0,
        !is_ascii_white(key[0]),
        !is_ascii_white(key.last()),
    ensures
        key_in(front + key + back) == (if key.len() >= 16 {
            Some(key)
        } else {
            None
        }),
{
    lemma_trim_front(front, key + back);
    assert(front + key + back =~= front + (key + back));
    assert((key + back)[0] == key[0]);
    lemma_trim_back(key, back);
}

/// White space at the start is dropped.
proof fn lemma_trim_front(front: Seq<u8>, rest: Seq<u8>)
    requires
        forall|i: int| 0 <= i < front.len() ==> is_ascii_white(#[trigger] front[i]),
        rest.len() > 0,
        !is_ascii_white(rest[0]),
    ensures
        trim_front(front + rest) == rest,
    decreases front.len(),
{
    let all = front + rest;
    if front.len() > 0 {
        assert(all[0] == front[0]);
        let left = front.drop_first();
        assert forall|i: int| 0 <= i < left.len() implies is_ascii_white(#[trigger] left[i]) by {
            assert(left[i] == front[i + 1]);
        }
        assert(all.drop_first() =~= left + rest);
        lemma_trim_front(left, rest);
    } else {
        assert(all =~= rest);
    }
}

/// White space at the end is dropped.
proof fn lemma_trim_back(rest: Seq<u8>, back: Seq<u8>)
    requires
        forall|i: int| 0 <= i < back.len() ==> is_ascii_white(#[trigger] back[i]),
        rest.len() > 0,
        !is_ascii_white(rest.last()),
    ensures
        trim_back(rest + back) == rest,
    decreases back.len(),
{
    let all = rest + back;
    if back.len() > 0 {
        assert(all.last() == back[back.len() - 1]);
        let left = back.drop_last();
        assert forall|i: int| 0 <= i < left.len() implies is_ascii_white(#[trigger] left[i]) by {
            assert(left[i] == back[i]);
        }
        assert(all.drop_last() =~= rest + left);
        lemma_trim_back(rest, left);
    } else {
        assert(all =~= rest);
    }
}

/// A file that holds nothing but white space has no key.
pub proof fn law_blank_files_have_no_key(raw: Seq<u8>)
    requires
        forall|i: int| 0 <= i < raw.len() ==> is_ascii_white(#[trigger] raw[i]),
    ensures
        key_in(raw) is None,
    decreases raw.len(),
{
    if raw.len() > 0 {
        let left = raw.drop_first();
        assert forall|i: int| 0 <= i < left.len() implies is_ascii_white(#[trigger] left[i]) by {
            assert(left[i] == raw[i + 1]);
        }
        law_blank_files_have_no_key(left);
        assert(is_ascii_white(raw[0]));
    }
}

/// The white space around a key is space, tab, line feed, form feed and carriage return.
pub proof fn law_white_space_is_ascii(b: u8)
    ensures
        is_ascii_white(b) <==> b == 32 || b == 9 || b == 10 || b == 12 || b == 13,
{
}

} // verus!

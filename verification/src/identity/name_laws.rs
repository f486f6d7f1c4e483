//! What the names, slugs, label values and ids of devices are made of.

use vstd::prelude::*;
use vstd::utf8::encode_utf8;

use super::fingerprint::{
    dashed, hash_input, joined_name, texts_of, Fingerprint, IdentitySource,
};
use super::laws::{single_dashes, slug_chars, valid_name};
use super::slug::{
    all_hex, collapsed, cut, is_alphanumeric, is_slug_char, label_char, label_of, lower_char,
    normalized_id, slug, slug_char, without_hex_prefix,
};
use super::tier_laws::has_serial;
use crate::digest::{hex_text, sha256_of};
use crate::text::{digit_value, digits_value, is_white, lemma_blank_text, trim_end, trim_start, trimmed};

verus! {

/// Some texts in UTF-8, each after a zero byte.
pub open spec fn after_zeros(texts: Seq<Seq<char>>) -> Seq<u8>
    decreases texts.len(),
{
    if texts.len() == 0 {
        Seq::empty()
    } else {
        seq![0u8] + encode_utf8(texts[0]) + after_zeros(texts.drop_first())
    }
}

/// Eight hexadecimal digits of the SHA-256 hash of a tag and some texts, each after a zero byte.
pub open spec fn digest_of(tag: Seq<char>, texts: Seq<Seq<char>>) -> Seq<char> {
    hex_text(sha256_of(encode_utf8(tag) + after_zeros(texts)).take(4))
}

/// What a hash covers does not depend on the end from which its parts are counted.
proof fn lemma_after_zeros(texts: Seq<Seq<char>>, last: Seq<char>)
    ensures
        after_zeros(texts.push(last)) == after_zeros(texts) + (seq![0u8] + encode_utf8(last)),
    decreases texts.len(),
{
    let all = texts.push(last);
    if texts.len() == 0 {
        reveal_with_fuel(after_zeros, 2);
        assert(all.drop_first() =~= Seq::empty());
        assert(after_zeros(all) =~= after_zeros(texts) + (seq![0u8] + encode_utf8(last)));
    } else {
        lemma_after_zeros(texts.drop_first(), last);
        assert(all.drop_first() =~= texts.drop_first().push(last));
        assert(after_zeros(all) =~= after_zeros(texts) + (seq![0u8] + encode_utf8(last)));
    }
}

/// What a hash covers is the tag of its tier and its parts, each after a zero byte.
proof fn lemma_hash_input(tier: IdentitySource, parts: Seq<Seq<char>>)
    ensures
        hash_input(tier, parts) == encode_utf8(tier.tag_text()) + after_zeros(parts),
    decreases parts.len(),
{
    if parts.len() == 0 {
        assert(hash_input(tier, parts) =~= encode_utf8(tier.tag_text()) + after_zeros(parts));
    } else {
        let rest = parts.drop_last();
        lemma_hash_input(tier, rest);
        lemma_after_zeros(rest, parts.last());
        assert(rest.push(parts.last()) =~= parts);
        assert(hash_input(tier, parts) =~= encode_utf8(tier.tag_text()) + after_zeros(parts));
    }
}

/// A part of a name: nothing, or the part after a `-`.
pub open spec fn name_part(text: Seq<char>) -> Seq<char> {
    if text.len() == 0 {
        Seq::empty()
    } else {
        "-"@ + text
    }
}

/// The text of an attribute, empty if it is absent.
pub open spec fn attribute(text: Option<String>) -> Seq<char> {
    match text {
        Some(t) => t@,
        None => Seq::empty(),
    }
}

/// A name with one readable part.
proof fn lemma_one_part(prefix: Seq<char>, part: Seq<char>, hash: Seq<char>)
    ensures
        joined_name(prefix, seq![part], hash) == prefix + name_part(part) + "-"@ + hash,
{
    reveal_with_fuel(dashed, 2);
    assert(seq![part].drop_last() =~= Seq::empty());
    assert(dashed(seq![part]) =~= name_part(part));
}

/// The name of a device in a portable tier starts with `usb`, its vendor and its product id. A
/// serial number that is its own slug then makes the name as it is; else follow the slug of the
/// serial number, or without one of the product or manufacturer, and a hash that covers the tier and
/// every attribute that the tier goes by.
pub proof fn law_names_cover_the_attributes_of_their_tier(fp: Fingerprint)
    ensures
        ({
            let start = "usb-"@ + slug(fp.vendor_id@) + "-"@ + slug(fp.product_id@);
            let ids = seq![fp.vendor_id@, fp.product_id@];
            let descriptor = seq![
                attribute(fp.bcd_device),
                attribute(fp.manufacturer),
                attribute(fp.product),
            ];
            let label = match (fp.product, fp.manufacturer) {
                (Some(p), _) => p@,
                (None, Some(m)) => m@,
                (None, None) => Seq::empty(),
            };
            &&& has_serial(fp) ==> {
                let serial = fp.serial.unwrap()@;
                &&& fp.name_in(IdentitySource::Serial) == Some(
                    if slug(serial) == serial {
                        start + "-"@ + serial
                    } else {
                        start + name_part(slug(serial)) + "-"@ + digest_of(
                            "serial"@,
                            ids.push(serial),
                        )
                    },
                )
                &&& fp.name_in(IdentitySource::SerialDescriptor) == Some(
                    start + name_part(slug(serial)) + "-"@ + digest_of(
                        "serial+descriptor"@,
                        ids.push(serial) + descriptor,
                    ),
                )
            }
            &&& fp.name_in(IdentitySource::Descriptor) == Some(
                start + name_part(slug(label)) + "-"@ + digest_of(
                    "descriptor"@,
                    ids + descriptor,
                ),
            )
        }),
{
    if let Some(s) = fp.serial {
        lemma_blank_text(s@);
    }
    let ids = seq![fp.vendor_id@, fp.product_id@];
    let descriptor = seq![
        attribute(fp.bcd_device),
        attribute(fp.manufacturer),
        attribute(fp.product),
    ];
    if has_serial(fp) {
        let serial = fp.serial.unwrap()@;
        let a = fp.key_of(IdentitySource::Serial).unwrap();
        assert(texts_of(a) =~= ids.push(serial));
        lemma_hash_input(IdentitySource::Serial, texts_of(a));
        let b = fp.key_of(IdentitySource::SerialDescriptor).unwrap();
        assert(texts_of(b) =~= ids.push(serial) + descriptor);
        lemma_hash_input(IdentitySource::SerialDescriptor, texts_of(b));
        let h = digest_of("serial"@, ids.push(serial));
        let g = digest_of("serial+descriptor"@, ids.push(serial) + descriptor);
        lemma_one_part(fp.prefix(), slug(serial), h);
        lemma_one_part(fp.prefix(), slug(serial), g);
    }
    let c = fp.key_of(IdentitySource::Descriptor).unwrap();
    assert(texts_of(c) =~= ids + descriptor);
    lemma_hash_input(IdentitySource::Descriptor, texts_of(c));
    lemma_one_part(fp.prefix(), slug(fp.label()), digest_of("descriptor"@, ids + descriptor));
}

/// The name of a device after its port holds the ids of the device, the node and the port, and a
/// hash that covers all of them.
pub proof fn law_port_names_cover_node_and_port(
    fp: Fingerprint,
    node: Seq<char>,
    port: Seq<char>,
)
    ensures
        fp.name_at(node, port) == "usb-"@ + slug(fp.vendor_id@) + "-"@ + slug(fp.product_id@)
            + name_part(slug(node)) + name_part(slug(port)) + "-"@ + digest_of(
            "port"@,
            seq![fp.vendor_id@, fp.product_id@, node, port],
        ),
{
    let texts = seq![fp.vendor_id@, fp.product_id@, node, port];
    lemma_hash_input(IdentitySource::PortPath, texts);
    let parts = seq![slug(node), slug(port)];
    reveal_with_fuel(dashed, 3);
    assert(parts.drop_last() =~= seq![slug(node)]);
    assert(seq![slug(node)].drop_last() =~= Seq::empty());
    assert(dashed(parts) =~= name_part(slug(node)) + name_part(slug(port)));
    assert(fp.name_at(node, port) =~= fp.prefix() + name_part(slug(node)) + name_part(slug(port))
        + "-"@ + digest_of("port"@, texts));
}

/// The slug characters of two texts are those of the first, and those of the second as they go on
/// from it.
proof fn lemma_collapsed_same(a: Seq<char>, b: Seq<char>, rest: Seq<char>)
    requires
        collapsed(a) == collapsed(b),
    ensures
        collapsed(a + rest) == collapsed(b + rest),
    decreases rest.len(),
{
    if rest.len() == 0 {
        assert(a + rest =~= a);
        assert(b + rest =~= b);
    } else {
        lemma_collapsed_same(a, b, rest.drop_last());
        assert((a + rest).drop_last() =~= a + rest.drop_last());
        assert((b + rest).drop_last() =~= b + rest.drop_last());
    }
}

/// The slug characters of a text are those of its slug characters.
proof fn lemma_collapsed_map(s: Seq<char>)
    ensures
        collapsed(s.map_values(|c: char| slug_char(c))) == collapsed(s),
    decreases s.len(),
{
    let t = s.map_values(|c: char| slug_char(c));
    if s.len() > 0 {
        lemma_collapsed_map(s.drop_last());
        assert(t.drop_last() =~= s.drop_last().map_values(|c: char| slug_char(c)));
        assert(slug_char(slug_char(s.last())) == slug_char(s.last()));
    } else {
        assert(t =~= s);
    }
}

/// A lower case letter or a digit stands for itself in a slug, an upper case letter for the lower
/// case one, and every other character is a `-`.
pub proof fn law_slug_characters(c: char)
    ensures
        'a' <= c <= 'z' || '0' <= c <= '9' ==> slug_char(c) == c,
        'A' <= c <= 'Z' ==> slug_char(c) as u32 == c as u32 + 32,
        !('a' <= c <= 'z' || '0' <= c <= '9' || 'A' <= c <= 'Z') ==> slug_char(c) == '-',
{
}

/// A slug does not tell upper from lower case, nor one other character from another, nor one from a
/// run of them; and it does not begin with one.
pub proof fn law_slugs_fold_case_and_other_characters(a: Seq<char>, b: Seq<char>, c: char, d: char)
    requires
        slug_char(c) == '-',
        slug_char(d) == '-',
    ensures
        slug(a.map_values(|x: char| slug_char(x))) == slug(a),
        slug(seq![c] + a) == slug(a),
        slug(a + seq![c, d] + b) == slug(a + seq![c] + b),
{
    lemma_collapsed_map(a);
    let none = Seq::<char>::empty();
    reveal_with_fuel(collapsed, 2);
    assert(seq![c].drop_last() =~= none);
    assert(collapsed(seq![c]) == collapsed(none));
    lemma_collapsed_same(seq![c], none, a);
    assert(none + a =~= a);
    let one = a + seq![c];
    let two = a + seq![c, d];
    assert(two.drop_last() =~= one);
    assert(one.drop_last() =~= a);
    assert(two.last() == d);
    assert(one.last() == c);
    assert(collapsed(one) == collapsed(two));
    lemma_collapsed_same(two, one, b);
}

/// A text that is made like a slug but is longer is cut to forty characters, or to thirty-nine if a
/// `-` would be the last.
pub proof fn law_long_slugs_are_cut(s: Seq<char>)
    requires
        slug_chars(s),
        single_dashes(s),
        s.len() > 40,
        s[0] != '-',
    ensures
        slug(s) == if s[39] == '-' {
            s.take(39)
        } else {
            s.take(40)
        },
{
    super::laws::lemma_collapsed_as_is(s);
    let dash = |c: char| c == '-';
    let full = s.take(40);
    assert(cut(collapsed(s), 40) == full);
    assert(full.last() == s[39]);
    if s[39] == '-' {
        assert(s[38] != '-');
        let less = full.drop_last();
        assert(less =~= s.take(39));
        assert(less.last() == s[38]);
        assert(trim_end(full, dash) == trim_end(less, dash));
        assert(trim_end(less, dash) == less);
    } else {
        assert(trim_end(full, dash) == full);
    }
}

/// Trimming a text keeps what lies between the first and the last character that is not dropped.
proof fn lemma_trim_both(s: Seq<char>, drop: spec_fn(char) -> bool) -> (from: int)
    ensures
        ({
            let v = trim_start(trim_end(s, drop), drop);
            &&& 0 <= from
            &&& from + v.len() <= s.len()
            &&& forall|i: int| 0 <= i < v.len() ==> (#[trigger] v[i]) == s[from + i]
            &&& forall|i: int|
                (0 <= i < from || from + v.len() <= i < s.len()) ==> drop(#[trigger] s[i])
        }),
{
    let e = trim_end(s, drop);
    lemma_trimmed_end(s, drop);
    let from = lemma_trimmed_front(e, drop);
    let v = trim_start(e, drop);
    assert forall|i: int| 0 <= i < e.len() implies e[i] == #[trigger] s[i] by {}
    assert forall|i: int| 0 <= i < v.len() implies (#[trigger] v[i]) == s[from + i] by {
        assert(v[i] == e[from + i]);
    }
    assert forall|i: int| (0 <= i < from || from + v.len() <= i < s.len()) implies drop(
        #[trigger] s[i],
    ) by {
        if i < from {
            assert(drop(e[i]));
        }
    }
    from
}

/// Trimming the end of a text keeps a start, and drops only what is to be dropped.
proof fn lemma_trimmed_end(s: Seq<char>, drop: spec_fn(char) -> bool)
    ensures
        trim_end(s, drop).is_prefix_of(s),
        forall|i: int| trim_end(s, drop).len() <= i < s.len() ==> drop(#[trigger] s[i]),
    decreases s.len(),
{
    if s.len() > 0 && drop(s.last()) {
        let rest = s.drop_last();
        lemma_trimmed_end(rest, drop);
        assert forall|i: int| trim_end(s, drop).len() <= i < s.len() implies drop(#[trigger] s[i]) by {
            if i < rest.len() {
                assert(s[i] == rest[i]);
            }
        }
    }
}

/// Trimming the start of a text keeps an end, and drops only what is to be dropped.
proof fn lemma_trimmed_front(s: Seq<char>, drop: spec_fn(char) -> bool) -> (from: int)
    ensures
        0 <= from,
        from + trim_start(s, drop).len() == s.len(),
        forall|i: int|
            0 <= i < trim_start(s, drop).len() ==> (#[trigger] trim_start(s, drop)[i]) == s[from
                + i],
        forall|i: int| 0 <= i < from ==> drop(#[trigger] s[i]),
    decreases s.len(),
{
    if s.len() > 0 && drop(s[0]) {
        let rest = s.drop_first();
        let n = lemma_trimmed_front(rest, drop);
        assert forall|i: int| 0 <= i < n + 1 implies drop(#[trigger] s[i]) by {
            if i > 0 {
                assert(s[i] == rest[i - 1]);
            }
        }
        n + 1
    } else {
        0
    }
}

/// A label value is a run of the first 63 characters of a text, from the first letter or digit to
/// the last, with `-` for every character that is neither one of these nor `-`, `_` or `.`.
pub proof fn law_label_values_come_from_the_text(s: Seq<char>)
    ensures
        label_of(s) matches Some(v) ==> exists|from: int| #[trigger] is_run(s, v, from),
{
    let other = |c: char| !is_alphanumeric(c);
    let full = cut(s, 63).map_values(|c: char| label_char(c));
    let from = lemma_trim_both(full, other);
    let v = trim_start(trim_end(full, other), other);
    assert(full.len() <= 63 && full.len() <= s.len());
    if let Some(w) = label_of(s) {
        assert(w =~= v);
    }
    if v.len() > 0 {
        assert forall|i: int| 0 <= i < v.len() implies (#[trigger] v[i]) == label_char(
            s[from + i],
        ) by {
            assert(full[from + i] == label_char(s[from + i]));
        }
        assert forall|i: int|
            (0 <= i < from || from + v.len() <= i < s.len()) && i < 63 implies !is_alphanumeric(
            #[trigger] s[i],
        ) by {
            assert(full[i] == label_char(s[i]));
            assert(other(full[i]));
        }
        assert(is_run(s, v, from));
    }
}

/// Whether a label value is a run of the first 63 characters of a text, character by character, and
/// no letter or digit of them is left out.
pub open spec fn is_run(s: Seq<char>, v: Seq<char>, from: int) -> bool {
    &&& 0 <= from
    &&& from + v.len() <= s.len()
    &&& from + v.len() <= 63
    &&& forall|i: int|
        (0 <= i < from || from + v.len() <= i < s.len()) && i < 63 ==> !is_alphanumeric(
            #[trigger] s[i],
        )
    &&& forall|i: int|
        0 <= i < v.len() ==> (#[trigger] v[i]) == if is_alphanumeric(s[from + i]) || s[from + i]
            == '-' || s[from + i] == '_' || s[from + i] == '.' {
            s[from + i]
        } else {
            '-'
        }
}

/// Letters and digits are those of ASCII.
pub proof fn law_letters_and_digits_are_ascii(c: char)
    ensures
        is_alphanumeric(c) <==> 'a' <= c <= 'z' || 'A' <= c <= 'Z' || '0' <= c <= '9',
{
}

/// White space around a text is dropped.
proof fn lemma_trimmed_between(front: Seq<char>, s: Seq<char>, back: Seq<char>)
    requires
        forall|i: int| 0 <= i < front.len() ==> is_white(#[trigger] front[i]),
        forall|i: int| 0 <= i < back.len() ==> is_white(#[trigger] back[i]),
        s.len() > 0,
        !is_white(s[0]),
        !is_white(s.last()),
    ensures
        trimmed(front + s + back) == s,
{
    let white = |c: char| is_white(c);
    lemma_drop_front(front, s + back, white);
    assert(front + s + back =~= front + (s + back));
    lemma_drop_back(s, back, white);
}

/// What is to be dropped at the start is dropped.
pub proof fn lemma_drop_front(front: Seq<char>, rest: Seq<char>, drop: spec_fn(char) -> bool)
    requires
        forall|i: int| 0 <= i < front.len() ==> drop(#[trigger] front[i]),
        rest.len() > 0,
        !drop(rest[0]),
    ensures
        trim_start(front + rest, drop) == rest,
    decreases front.len(),
{
    let all = front + rest;
    if front.len() > 0 {
        assert(all[0] == front[0]);
        let left = front.drop_first();
        assert forall|i: int| 0 <= i < left.len() implies drop(#[trigger] left[i]) by {
            assert(left[i] == front[i + 1]);
        }
        assert(all.drop_first() =~= left + rest);
        lemma_drop_front(left, rest, drop);
    } else {
        assert(all =~= rest);
    }
}

/// What is to be dropped at the end is dropped.
pub proof fn lemma_drop_back(rest: Seq<char>, back: Seq<char>, drop: spec_fn(char) -> bool)
    requires
        forall|i: int| 0 <= i < back.len() ==> drop(#[trigger] back[i]),
        rest.len() > 0,
        !drop(rest.last()),
    ensures
        trim_end(rest + back, drop) == rest,
    decreases back.len(),
{
    let all = rest + back;
    if back.len() > 0 {
        assert(all.last() == back[back.len() - 1]);
        let left = back.drop_last();
        assert forall|i: int| 0 <= i < left.len() implies drop(#[trigger] left[i]) by {
            assert(left[i] == back[i]);
        }
        assert(all.drop_last() =~= rest + left);
        lemma_drop_back(rest, left, drop);
    } else {
        assert(all =~= rest);
    }
}

/// The number that hexadecimal digits stand for does not depend on their case.
proof fn lemma_lower_value(s: Seq<char>, t: Seq<char>)
    requires
        all_hex(s),
        t.len() == s.len(),
        forall|i: int| 0 <= i < s.len() ==> (#[trigger] t[i]) == lower_char(s[i]),
    ensures
        digits_value(t, 16) == digits_value(s, 16),
        digits_value(s, 16) is Some,
    decreases s.len(),
{
    if s.len() > 0 {
        let (a, b) = (s.drop_last(), t.drop_last());
        assert forall|i: int| 0 <= i < a.len() implies digit_value(#[trigger] a[i], 16) is Some
            && b[i] == lower_char(a[i]) by {
            assert(a[i] == s[i] && b[i] == t[i]);
        }
        lemma_lower_value(a, b);
        let last = s[s.len() - 1];
        assert(digit_value(last, 16) is Some);
        assert(t[t.len() - 1] == lower_char(last));
        assert(digit_value(lower_char(last), 16) == digit_value(last, 16));
    }
}

/// Zeros before digits do not change the number they stand for.
proof fn lemma_padded_value(zeros: Seq<char>, s: Seq<char>)
    requires
        forall|i: int| 0 <= i < zeros.len() ==> (#[trigger] zeros[i]) == '0',
        digits_value(s, 16) is Some,
    ensures
        digits_value(zeros + s, 16) == digits_value(s, 16),
    decreases zeros.len() + s.len(),
{
    let all = zeros + s;
    if s.len() > 0 {
        assert(all.drop_last() =~= zeros + s.drop_last());
        lemma_padded_value(zeros, s.drop_last());
        assert(all.last() == s.last());
    } else if zeros.len() > 0 {
        let rest = zeros.drop_last();
        assert forall|i: int| 0 <= i < rest.len() implies (#[trigger] rest[i]) == '0' by {
            assert(rest[i] == zeros[i]);
        }
        assert(all =~= zeros);
        assert(rest + s =~= rest);
        lemma_padded_value(rest, s);
        assert(zeros[zeros.len() - 1] == '0');
        assert(digit_value('0', 16) == Some(0int));
    } else {
        assert(all =~= s);
    }
}

/// A USB id is one to four hexadecimal digits, perhaps after `0x` and with white space around. Its
/// normal form has four lower case digits and stands for the same number. More or other characters
/// are no id.
pub proof fn law_ids_keep_their_number(
    front: Seq<char>,
    prefix: Seq<char>,
    hex: Seq<char>,
    back: Seq<char>,
)
    requires
        forall|i: int| 0 <= i < front.len() ==> is_white(#[trigger] front[i]),
        forall|i: int| 0 <= i < back.len() ==> is_white(#[trigger] back[i]),
        prefix == seq!['0', 'x'] || prefix == seq!['0', 'X'] || (prefix.len() == 0 && !(hex.len()
            >= 2 && hex[0] == '0' && (hex[1] == 'x' || hex[1] == 'X'))),
        hex.len() > 0,
        !is_white(hex[0]),
        !is_white(hex.last()),
    ensures
        match normalized_id(front + prefix + hex + back) {
            Some(n) => {
                &&& n.len() == 4
                &&& hex.len() <= 4
                &&& digits_value(hex, 16) is Some
                &&& digits_value(n, 16) == digits_value(hex, 16)
                &&& forall|i: int|
                    0 <= i < 4 ==> '0' <= #[trigger] n[i] <= '9' || 'a' <= n[i] <= 'f'
            },
            None => hex.len() > 4 || exists|i: int|
                0 <= i < hex.len() && digit_value(#[trigger] hex[i], 16) is None,
        },
{
    let core = prefix + hex;
    assert(!is_white('0'));
    assert(core.last() == hex.last());
    if prefix.len() > 0 {
        assert(core[0] == '0');
    } else {
        assert(core =~= hex);
    }
    assert(front + prefix + hex + back =~= front + core + back);
    lemma_trimmed_between(front, core, back);
    if prefix.len() > 0 {
        assert(core.skip(2) =~= hex);
        assert(core[1] == prefix[1]);
    }
    assert(without_hex_prefix(core) == hex);
    if let Some(n) = normalized_id(front + prefix + hex + back) {
        let low = hex.map_values(|c: char| lower_char(c));
        let zeros = Seq::new((4 - hex.len()) as nat, |i: int| '0');
        assert(n =~= zeros + low);
        lemma_lower_value(hex, low);
        lemma_padded_value(zeros, low);
        assert forall|i: int| 0 <= i < 4 implies '0' <= #[trigger] n[i] <= '9' || 'a' <= n[i]
            <= 'f' by {
            if i >= 4 - hex.len() {
                assert(digit_value(hex[i - (4 - hex.len())], 16) is Some);
            }
        }
    }
}

/// Whether a character is a lower case letter, a digit or `-`.
pub open spec fn is_name_char(c: char) -> bool {
    'a' <= c <= 'z' || '0' <= c <= '9' || c == '-'
}

/// Whether a text can name a Kubernetes object: up to 253 lower case letters, digits and `-`, with a
/// letter or digit at either end.
pub open spec fn can_name_an_object(s: Seq<char>) -> bool {
    &&& 0 < s.len() <= 253
    &&& forall|i: int| 0 <= i < s.len() ==> is_name_char(#[trigger] s[i])
    &&& s[0] != '-'
    &&& s.last() != '-'
}

/// What every name is held to is just what lets it name an object.
pub proof fn law_valid_names_can_name_objects(s: Seq<char>)
    ensures
        valid_name(s) <==> can_name_an_object(s),
{
    if valid_name(s) {
        assert forall|i: int| 0 <= i < s.len() implies is_name_char(#[trigger] s[i]) by {
            lemma_name_char(s[i]);
            assert(is_slug_char(s[i]) || s[i] == '-');
        }
    }
    if can_name_an_object(s) {
        assert forall|i: int| 0 <= i < s.len() implies is_slug_char(#[trigger] s[i]) || s[i]
            == '-' by {
            lemma_name_char(s[i]);
            assert(is_name_char(s[i]));
        }
    }
}

/// The characters of a name are those of a slug and `-`.
proof fn lemma_name_char(c: char)
    ensures
        is_name_char(c) <==> is_slug_char(c) || c == '-',
{
}

} // verus!

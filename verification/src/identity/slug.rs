//! Names and labels made of the few characters that Kubernetes accepts.

use vstd::prelude::*;

use crate::text::{
    chars_of, digit_value, string_of, string_of_range, trim, trim_end, trim_start, trimmed,
};

verus! {


/// Maximum length of the human-readable slug derived from a serial number or port path.
pub const MAX_SLUG_LEN: usize = 40;

/// Whether a character may stand in a slug as it is.
pub open spec fn is_slug_char(c: char) -> bool {
    let n = c as u32;
    97 <= n <= 122 || 48 <= n <= 57
}

/// The character of a slug that stands for a character of the input.
pub open spec fn slug_char(c: char) -> char {
    let n = c as u32;
    if is_slug_char(c) {
        c
    } else if 65 <= n <= 90 {
        (n + 32) as char
    } else {
        '-'
    }
}

/// The slug characters of a text, with runs of `-` collapsed to one and none at the start.
pub open spec fn collapsed(s: Seq<char>) -> Seq<char>
    decreases s.len(),
{
    if s.len() == 0 {
        Seq::empty()
    } else {
        let out = collapsed(s.drop_last());
        let c = slug_char(s.last());
        if c == '-' && (out.len() == 0 || out.last() == '-') {
            out
        } else {
            out.push(c)
        }
    }
}

/// `s` cut to at most `n` characters.
pub open spec fn cut(s: Seq<char>, n: int) -> Seq<char> {
    if s.len() <= n {
        s
    } else {
        s.take(n)
    }
}

/// The slug of a text: lower case, runs of other characters collapsed, truncated and trimmed.
pub open spec fn slug(s: Seq<char>) -> Seq<char> {
    trim_end(cut(collapsed(s), MAX_SLUG_LEN as int), |c: char| c == '-')
}

/// The slug characters of a start of a text are a start of its slug characters.
proof fn lemma_collapsed_prefix(s: Seq<char>, n: int)
    requires
        0 <= n <= s.len(),
    ensures
        collapsed(s.take(n)).is_prefix_of(collapsed(s)),
    decreases s.len() - n,
{
    if n < s.len() {
        lemma_collapsed_prefix(s, n + 1);
        let next = s.take(n + 1);
        assert(next.drop_last() =~= s.take(n));
        assert(collapsed(s.take(n)).is_prefix_of(collapsed(next)));
    } else {
        assert(s.take(n) =~= s);
    }
}

/// Lowercase `[a-z0-9-]` slug, runs of other characters collapsed to one `-`, trimmed and truncated.
pub fn slugify(input: &str) -> (out: String)
    ensures
        out@ == slug(input@),
{
    let v = chars_of(input);
    let ghost s = input@;
    let mut out: Vec<char> = Vec::new();
    let mut i: usize = 0;
    assert(s.take(0) =~= Seq::<char>::empty());
    while i < v.len() && out.len() < MAX_SLUG_LEN
        invariant
            v@ == s,
            i <= v.len(),
            out@ == collapsed(s.take(i as int)),
            out.len() <= MAX_SLUG_LEN,
        decreases v.len() - i,
    {
        let n: u32 = v[i] as u32;
        let mapped: char = if (97 <= n && n <= 122) || (48 <= n && n <= 57) {
            v[i]
        } else if 65 <= n && n <= 90 {
            (n as u8 + 32) as char
        } else {
            '-'
        };
        assert(s.take(i + 1).drop_last() =~= s.take(i as int));
        assert(s.take(i + 1).last() == v@[i as int]);
        assert(mapped == slug_char(v@[i as int]));
        i += 1;
        if mapped == '-' && (out.len() == 0 || out[out.len() - 1] == '-') {
            continue ;
        }
        out.push(mapped);
    }
    proof {
        lemma_collapsed_prefix(s, i as int);
        if i == v.len() {
            assert(s.take(i as int) =~= s);
        }
        assert(out@ =~= cut(collapsed(s), MAX_SLUG_LEN as int));
    }
    let ghost full = out@;
    let ghost dash = |c: char| c == '-';
    while out.len() > 0 && out[out.len() - 1] == '-'
        invariant
            dash == (|c: char| c == '-'),
            trim_end(full, dash) == trim_end(out@, dash),
        decreases out.len(),
    {
        let ghost before = out@;
        out.pop();
        assert(out@ =~= before.drop_last());
    }
    string_of(out.as_slice())
}

/// Whether a character is an ASCII letter or digit.
pub open spec fn is_alphanumeric(c: char) -> bool {
    let n = c as u32;
    97 <= n <= 122 || 48 <= n <= 57 || 65 <= n <= 90
}

/// Whether a character is an ASCII letter or digit.
fn is_ascii_alphanumeric(c: char) -> (yes: bool)
    ensures
        yes == is_alphanumeric(c),
{
    let n: u32 = c as u32;
    (97 <= n && n <= 122) || (48 <= n && n <= 57) || (65 <= n && n <= 90)
}

/// Maximum length of a Kubernetes label value.
pub const MAX_LABEL_LEN: usize = 63;

/// The character of a label value that stands for a character of the input.
pub open spec fn label_char(c: char) -> char {
    if is_alphanumeric(c) || c == '-' || c == '_' || c == '.' {
        c
    } else {
        '-'
    }
}

/// The label value of a text: other characters replaced by `-`, truncated, and cut to start and
/// end with a letter or digit.
pub open spec fn label_of(s: Seq<char>) -> Option<Seq<char>> {
    let full = cut(s, MAX_LABEL_LEN as int).map_values(|c: char| label_char(c));
    let cut_end = trim_end(full, |c: char| !is_alphanumeric(c));
    let value = trim_start(cut_end, |c: char| !is_alphanumeric(c));
    if value.len() > 0 {
        Some(value)
    } else {
        None
    }
}

/// Converts an arbitrary string into a valid label value (<= 63 chars), or `None` if nothing remains.
pub fn label_value(input: &str) -> (value: Option<String>)
    ensures
        value.deep_view() == label_of(input@),
{
    let v = chars_of(input);
    let ghost s = input@;
    let ghost other = |c: char| !is_alphanumeric(c);
    let n: usize = if v.len() <= MAX_LABEL_LEN {
        v.len()
    } else {
        MAX_LABEL_LEN
    };
    let mut out: Vec<char> = Vec::new();
    let ghost full = cut(s, MAX_LABEL_LEN as int).map_values(|c: char| label_char(c));
    for i in 0..n
        invariant
            v@ == s,
            n <= v.len(),
            n == cut(s, MAX_LABEL_LEN as int).len(),
            full == cut(s, MAX_LABEL_LEN as int).map_values(|c: char| label_char(c)),
            out@ == full.take(i as int),
    {
        let c = v[i];
        let mapped = if is_ascii_alphanumeric(c) || c == '-' || c == '_' || c == '.' {
            c
        } else {
            '-'
        };
        assert(full[i as int] == mapped);
        out.push(mapped);
        assert(out@ =~= full.take(i + 1));
    }
    assert(out@ =~= full);
    while out.len() > 0 && !is_ascii_alphanumeric(out[out.len() - 1])
        invariant
            other == (|c: char| !is_alphanumeric(c)),
            trim_end(full, other) == trim_end(out@, other),
        decreases out.len(),
    {
        let ghost before = out@;
        out.pop();
        assert(out@ =~= before.drop_last());
    }
    let ghost cut_end = out@;
    let mut start: usize = 0;
    assert(out@.skip(0) =~= out@);
    while start < out.len() && !is_ascii_alphanumeric(out[start])
        invariant
            other == (|c: char| !is_alphanumeric(c)),
            out@ == cut_end,
            start <= out.len(),
            trim_start(cut_end, other) == trim_start(cut_end.skip(start as int), other),
        decreases out.len() - start,
    {
        assert(cut_end.skip(start as int).drop_first() =~= cut_end.skip(start + 1));
        start += 1;
    }
    let ghost value = cut_end.skip(start as int);
    assert(trim_start(value, other) == value);
    if start == out.len() {
        return None;
    }
    let text = string_of_range(out.as_slice(), start, out.len());
    assert(text@ =~= value);
    Some(text)
}

/// The lower case form of an ASCII letter.
pub open spec fn lower_char(c: char) -> char {
    let n = c as u32;
    if 65 <= n <= 90 {
        (n + 32) as char
    } else {
        c
    }
}

/// A text without a `0x` or `0X` at its start.
pub open spec fn without_hex_prefix(s: Seq<char>) -> Seq<char> {
    if s.len() >= 2 && s[0] == '0' && (s[1] == 'x' || s[1] == 'X') {
        s.skip(2)
    } else {
        s
    }
}

/// Whether every character is a hexadecimal digit.
pub open spec fn all_hex(s: Seq<char>) -> bool {
    forall|i: int| 0 <= i < s.len() ==> digit_value(#[trigger] s[i], 16) is Some
}

/// The normal form of a USB id: one to four hexadecimal digits after an optional `0x`, in lower
/// case and padded with zeros to four digits.
pub open spec fn normalized_id(id: Seq<char>) -> Option<Seq<char>> {
    let hex = without_hex_prefix(trimmed(id));
    if 1 <= hex.len() <= 4 && all_hex(hex) {
        Some(
            Seq::new(
                4,
                |i: int|
                    if i < 4 - hex.len() {
                        '0'
                    } else {
                        lower_char(hex[i - (4 - hex.len())])
                    },
            ),
        )
    } else {
        None
    }
}

/// Normalizes a USB vendor/product id: lowercase hex, `0x` prefix stripped, zero-padded to 4 digits.
pub fn normalize_usb_id(id: &str) -> (normal: Option<String>)
    ensures
        normal.deep_view() == normalized_id(id@),
{
    let t = trim(id);
    let v = chars_of(&t);
    let from: usize = if v.len() >= 2 && v[0] == '0' && (v[1] == 'x' || v[1] == 'X') {
        2
    } else {
        0
    };
    let ghost hex = without_hex_prefix(trimmed(id@));
    assert(hex =~= v@.skip(from as int));
    let n: usize = v.len() - from;
    if n == 0 || n > 4 {
        return None;
    }
    let mut out: Vec<char> = Vec::new();
    for k in 0..4 - n
        invariant
            1 <= n <= 4,
            out.len() == k,
            forall|j: int| 0 <= j < k ==> out@[j] == '0',
    {
        out.push('0');
    }
    for i in 0..n
        invariant
            1 <= n <= 4,
            v.len() == from + n,
            hex == v@.skip(from as int),
            hex == without_hex_prefix(trimmed(id@)),
            out.len() == 4 - n + i,
            forall|j: int| 0 <= j < 4 - n ==> out@[j] == '0',
            forall|j: int| 0 <= j < i ==> digit_value(#[trigger] hex[j], 16) is Some,
            forall|j: int| 0 <= j < i ==> out@[4 - n + j] == lower_char(hex[j]),
    {
        let c = v[from + i];
        let k: u32 = c as u32;
        assert(c == hex[i as int]);
        let lower = if 65 <= k && k <= 70 {
            (k as u8 + 32) as char
        } else if (48 <= k && k <= 57) || (97 <= k && k <= 102) {
            c
        } else {
            assert(digit_value(hex[i as int], 16) is None);
            return None;
        };
        out.push(lower);
    }
    let text = string_of(out.as_slice());
    assert(all_hex(hex));
    let ghost expected = normalized_id(id@).unwrap();
    assert forall|j: int| 0 <= j < 4 implies text@[j] == expected[j] by {
        if j >= 4 - n {
            assert(out@[4 - n + (j - (4 - n))] == lower_char(hex[j - (4 - n)]));
        }
    }
    assert(text@ =~= expected);
    Some(text)
}

} // verus!

//! Text as a sequence of characters: comparison, trimming, searching and number formatting.

use vstd::prelude::*;

verus! {

/// `String::push` appends the character to the end of the string.
pub assume_specification[ String::push ](s: &mut String, c: char)
    ensures
        final(s)@ == old(s)@.push(c),
;

/// The characters of a string.
pub fn chars_of(s: &str) -> (v: Vec<char>)
    ensures
        v@ == s@,
{
    let mut v: Vec<char> = Vec::new();
    for c in it: s.chars()
        invariant
            v@ == s@.take(it.index()),
            it.seq() == s@,
    {
        v.push(c);
    }
    v
}

/// The string made of the given characters.
pub fn string_of(v: &[char]) -> (s: String)
    ensures
        s@ == v@,
{
    let mut s = String::new();
    for i in 0..v.len()
        invariant
            s@ == v@.take(i as int),
    {
        s.push(v[i]);
    }
    s
}

/// The string made of the characters `from..to` of `v`.
pub fn string_of_range(v: &[char], from: usize, to: usize) -> (s: String)
    requires
        from <= to <= v@.len(),
    ensures
        s@ == v@.subrange(from as int, to as int),
{
    let mut s = String::new();
    for i in from..to
        invariant
            from <= to <= v@.len(),
            s@ == v@.subrange(from as int, i as int),
    {
        s.push(v[i]);
        assert(v@.subrange(from as int, i as int).push(v@[i as int]) =~= v@.subrange(
            from as int,
            i + 1,
        ));
    }
    s
}

/// Whether two strings hold the same characters.
pub fn text_eq(a: &str, b: &str) -> (same: bool)
    ensures
        same == (a@ == b@),
{
    let x = chars_of(a);
    let y = chars_of(b);
    if x.len() != y.len() {
        return false;
    }
    for i in 0..x.len()
        invariant
            x@ == a@,
            y@ == b@,
            x.len() == y.len(),
            forall|j: int| 0 <= j < i ==> x@[j] == y@[j],
    {
        if x[i] != y[i] {
            assert(a@[i as int] != b@[i as int]);
            return false;
        }
    }
    assert(x@ =~= y@);
    true
}

/// Whether two optional strings are both absent or hold the same characters.
pub fn opt_eq(a: &Option<String>, b: &Option<String>) -> (same: bool)
    ensures
        same == (a.deep_view() == b.deep_view()),
{
    match (a, b) {
        (Some(x), Some(y)) => text_eq(x, y),
        (None, None) => true,
        _ => false,
    }
}

/// Whether an optional string is present and holds the characters of `b`.
pub fn opt_is(a: &Option<String>, b: &str) -> (same: bool)
    ensures
        same == (a.deep_view() == Some(b@)),
{
    match a {
        Some(x) => text_eq(x, b),
        None => false,
    }
}

/// Whether `list` holds a string with the characters of `x`.
pub fn list_contains(list: &[String], x: &str) -> (found: bool)
    ensures
        found == list.deep_view().contains(x@),
{
    for i in 0..list.len()
        invariant
            forall|j: int| 0 <= j < i ==> list@[j]@ != x@,
    {
        if text_eq(&list[i], x) {
            assert(list.deep_view()[i as int] == x@);
            return true;
        }
    }
    assert forall|j: int| 0 <= j < list.deep_view().len() implies list.deep_view()[j] != x@ by {
        assert(list.deep_view()[j] == list@[j]@);
    }
    false
}

/// Lexicographic order of two texts by character code.
pub open spec fn text_lt(a: Seq<char>, b: Seq<char>) -> bool
    decreases a.len(),
{
    if b.len() == 0 {
        false
    } else if a.len() == 0 {
        true
    } else if a[0] != b[0] {
        (a[0] as u32) < (b[0] as u32)
    } else {
        text_lt(a.drop_first(), b.drop_first())
    }
}

/// Whether `a` comes strictly before `b` in lexicographic order.
pub fn text_less(a: &str, b: &str) -> (less: bool)
    ensures
        less == text_lt(a@, b@),
{
    let x = chars_of(a);
    let y = chars_of(b);
    let mut i: usize = 0;
    assert(a@.skip(0) =~= a@);
    assert(b@.skip(0) =~= b@);
    while i < x.len() && i < y.len()
        invariant
            x@ == a@,
            y@ == b@,
            i <= x.len(),
            i <= y.len(),
            text_lt(a@, b@) == text_lt(a@.skip(i as int), b@.skip(i as int)),
        decreases x.len() - i,
    {
        if x[i] != y[i] {
            return (x[i] as u32) < (y[i] as u32);
        }
        assert(a@.skip(i as int).drop_first() =~= a@.skip(i + 1));
        assert(b@.skip(i as int).drop_first() =~= b@.skip(i + 1));
        i += 1;
    }
    i < y.len()
}

/// Lexicographic order is a strict total order.
pub proof fn lemma_text_lt_total(a: Seq<char>, b: Seq<char>)
    ensures
        !text_lt(a, a),
        text_lt(a, b) ==> !text_lt(b, a),
        a == b || text_lt(a, b) || text_lt(b, a),
    decreases a.len(),
{
    if a.len() > 0 {
        lemma_text_lt_total(a.drop_first(), a.drop_first());
        if b.len() > 0 {
            lemma_text_lt_total(a.drop_first(), b.drop_first());
            if a[0] as u32 == b[0] as u32 {
                vstd::utf8::char_u32_cast(a[0], a[0] as u32);
                vstd::utf8::char_u32_cast(b[0], a[0] as u32);
            }
            if a[0] == b[0] && a.drop_first() == b.drop_first() {
                assert(a =~= seq![a[0]] + a.drop_first());
                assert(b =~= seq![a[0]] + a.drop_first());
            }
        }
    } else if b.len() == 0 {
        assert(a =~= b);
    }
}

/// Lexicographic order is transitive.
pub proof fn lemma_text_lt_transitive(a: Seq<char>, b: Seq<char>, c: Seq<char>)
    requires
        text_lt(a, b),
        text_lt(b, c),
    ensures
        text_lt(a, c),
    decreases a.len(),
{
    if a.len() > 0 && b.len() > 0 && c.len() > 0 && a[0] == b[0] && b[0] == c[0] {
        lemma_text_lt_transitive(a.drop_first(), b.drop_first(), c.drop_first());
    }
}

/// Whether a character is white space (the Unicode property `White_Space`).
pub open spec fn is_white(c: char) -> bool {
    let n = c as u32;
    ||| 0x9 <= n <= 0xd
    ||| n == 0x20
    ||| n == 0x85
    ||| n == 0xa0
    ||| n == 0x1680
    ||| 0x2000 <= n <= 0x200a
    ||| n == 0x2028
    ||| n == 0x2029
    ||| n == 0x202f
    ||| n == 0x205f
    ||| n == 0x3000
}

/// Whether a character is white space.
pub fn is_whitespace(c: char) -> (white: bool)
    ensures
        white == is_white(c),
{
    let n: u32 = c as u32;
    (0x9 <= n && n <= 0xd) || n == 0x20 || n == 0x85 || n == 0xa0 || n == 0x1680 || (0x2000 <= n
        && n <= 0x200a) || n == 0x2028 || n == 0x2029 || n == 0x202f || n == 0x205f || n == 0x3000
}

/// `s` without the characters at its start that satisfy `drop`.
pub open spec fn trim_start(s: Seq<char>, drop: spec_fn(char) -> bool) -> Seq<char>
    decreases s.len(),
{
    if s.len() > 0 && drop(s[0]) {
        trim_start(s.drop_first(), drop)
    } else {
        s
    }
}

/// `s` without the characters at its end that satisfy `drop`.
pub open spec fn trim_end(s: Seq<char>, drop: spec_fn(char) -> bool) -> Seq<char>
    decreases s.len(),
{
    if s.len() > 0 && drop(s.last()) {
        trim_end(s.drop_last(), drop)
    } else {
        s
    }
}

/// `s` without white space at either end.
pub open spec fn trimmed(s: Seq<char>) -> Seq<char> {
    trim_end(trim_start(s, |c: char| is_white(c)), |c: char| is_white(c))
}

/// Trimming leaves nothing of a text just if all of it is white space.
pub proof fn lemma_blank_text(s: Seq<char>)
    ensures
        trimmed(s).len() > 0 <==> exists|i: int| 0 <= i < s.len() && !is_white(#[trigger] s[i]),
    decreases s.len(),
{
    let white = |c: char| is_white(c);
    if s.len() > 0 {
        if white(s[0]) {
            let rest = s.drop_first();
            lemma_blank_text(rest);
            assert(trimmed(s) == trimmed(rest));
            if exists|i: int| 0 <= i < s.len() && !is_white(#[trigger] s[i]) {
                let i = choose|i: int| 0 <= i < s.len() && !is_white(#[trigger] s[i]);
                assert(rest[i - 1] == s[i]);
            }
            if exists|i: int| 0 <= i < rest.len() && !is_white(#[trigger] rest[i]) {
                let i = choose|i: int| 0 <= i < rest.len() && !is_white(#[trigger] rest[i]);
                assert(s[i + 1] == rest[i]);
            }
        } else {
            assert(trim_start(s, white) == s);
            lemma_trimmed_start(s, white);
            assert(!is_white(s[0]));
        }
    }
}

/// Trimming the end of a text keeps a start that is not to be dropped.
proof fn lemma_trimmed_start(s: Seq<char>, drop: spec_fn(char) -> bool)
    requires
        s.len() > 0,
        !drop(s[0]),
    ensures
        trim_end(s, drop).len() > 0,
    decreases s.len(),
{
    if drop(s.last()) {
        assert(s.drop_last()[0] == s[0]);
        lemma_trimmed_start(s.drop_last(), drop);
    }
}

/// The given text without white space at either end.
pub fn trim(s: &str) -> (t: String)
    ensures
        t@ == trimmed(s@),
{
    let v = chars_of(s);
    let ghost white = |c: char| is_white(c);
    let mut from: usize = 0;
    assert(v@.skip(0) =~= v@);
    while from < v.len() && is_whitespace(v[from])
        invariant
            white == (|c: char| is_white(c)),
            from <= v.len(),
            trim_start(v@, white) == trim_start(v@.skip(from as int), white),
        decreases v.len() - from,
    {
        assert(v@.skip(from as int).drop_first() =~= v@.skip(from + 1));
        from += 1;
    }
    let ghost rest = v@.skip(from as int);
    assert(trim_start(rest, white) == rest) by {
        if rest.len() > 0 {
            assert(rest[0] == v@[from as int]);
        }
    }
    let mut to: usize = v.len();
    assert(rest =~= v@.subrange(from as int, to as int));
    while to > from && is_whitespace(v[to - 1])
        invariant
            white == (|c: char| is_white(c)),
            from <= to <= v.len(),
            trim_end(rest, white) == trim_end(v@.subrange(from as int, to as int), white),
        decreases to,
    {
        assert(v@.subrange(from as int, to as int).last() == v@[to - 1]);
        assert(v@.subrange(from as int, to as int).drop_last() =~= v@.subrange(
            from as int,
            to - 1,
        ));
        to -= 1;
    }
    assert(trim_end(v@.subrange(from as int, to as int), white) == v@.subrange(
        from as int,
        to as int,
    )) by {
        if to > from {
            assert(v@.subrange(from as int, to as int).last() == v@[to - 1]);
        }
    }
    string_of_range(v.as_slice(), from, to)
}

/// The index of the first `c` in `s`, or the length of `s` if there is none.
pub open spec fn first_index(s: Seq<char>, c: char) -> int
    decreases s.len(),
{
    if s.len() == 0 || s[0] == c {
        0
    } else {
        1 + first_index(s.drop_first(), c)
    }
}

/// `first_index` is the least index that holds `c`.
pub proof fn lemma_first_index(s: Seq<char>, c: char)
    ensures
        0 <= first_index(s, c) <= s.len(),
        forall|j: int| 0 <= j < first_index(s, c) ==> s[j] != c,
        first_index(s, c) < s.len() ==> s[first_index(s, c)] == c,
        first_index(s, c) < s.len() <==> s.contains(c),
    decreases s.len(),
{
    if s.len() > 0 && s[0] != c {
        let rest = s.drop_first();
        lemma_first_index(rest, c);
        assert forall|j: int| 0 <= j < first_index(s, c) implies s[j] != c by {
            if j > 0 {
                assert(s[j] == rest[j - 1]);
            }
        }
        if s.contains(c) {
            let j = choose|j: int| 0 <= j < s.len() && s[j] == c;
            assert(rest[j - 1] == c);
        }
    } else if s.len() > 0 {
        assert(s.contains(s[0]));
    }
}

/// The index of the first `c` in `v`, or the length of `v`.
pub fn find_char(v: &[char], c: char) -> (at: usize)
    ensures
        at as int == first_index(v@, c),
        at <= v@.len(),
{
    let mut i: usize = 0;
    assert(v@.skip(0) =~= v@);
    while i < v.len() && v[i] != c
        invariant
            i <= v.len(),
            first_index(v@, c) == i + first_index(v@.skip(i as int), c),
        decreases v.len() - i,
    {
        assert(v@.skip(i as int).drop_first() =~= v@.skip(i + 1));
        i += 1;
    }
    i
}

/// The text before and after the first `c`, if `s` holds one.
pub open spec fn split_at_first(s: Seq<char>, c: char) -> Option<(Seq<char>, Seq<char>)> {
    let i = first_index(s, c);
    if i < s.len() {
        Some((s.take(i), s.skip(i + 1)))
    } else {
        None
    }
}

/// Splits a text at the first `c`.
pub fn split_once(s: &str, c: char) -> (parts: Option<(String, String)>)
    ensures
        match parts {
            Some((a, b)) => split_at_first(s@, c) == Some((a@, b@)),
            None => split_at_first(s@, c) is None,
        },
{
    let v = chars_of(s);
    let i = find_char(v.as_slice(), c);
    if i < v.len() {
        let a = string_of_range(v.as_slice(), 0, i);
        let b = string_of_range(v.as_slice(), i + 1, v.len());
        assert(a@ =~= s@.take(i as int));
        assert(b@ =~= s@.skip(i + 1));
        Some((a, b))
    } else {
        None
    }
}

/// Whether `part` stands in `s` at index `at`.
pub open spec fn occurs_at(s: Seq<char>, part: Seq<char>, at: int) -> bool {
    0 <= at && at + part.len() <= s.len() && s.subrange(at, at + part.len()) == part
}

/// Whether `part` stands somewhere in `s`.
pub open spec fn occurs_in(s: Seq<char>, part: Seq<char>) -> bool {
    exists|at: int| occurs_at(s, part, at)
}

/// Whether `v` holds `part` at index `at`.
fn holds_at(v: &[char], part: &[char], at: usize) -> (found: bool)
    requires
        at <= v@.len(),
    ensures
        found == occurs_at(v@, part@, at as int),
{
    if part.len() > v.len() - at {
        return false;
    }
    let end: usize = at + part.len();
    for i in 0..part.len()
        invariant
            at + part@.len() == end,
            end <= v@.len(),
            forall|j: int| 0 <= j < i ==> v@[at + j] == part@[j],
    {
        if v[at + i] != part[i] {
            assert(v@.subrange(at as int, at + part@.len())[i as int] != part@[i as int]);
            return false;
        }
    }
    assert(v@.subrange(at as int, at + part@.len()) =~= part@);
    true
}

/// Whether `part` stands somewhere in `s`.
pub fn text_contains(s: &str, part: &str) -> (found: bool)
    ensures
        found == occurs_in(s@, part@),
{
    let v = chars_of(s);
    let p = chars_of(part);
    for i in 0..v.len()
        invariant
            v@ == s@,
            p@ == part@,
            forall|j: int| 0 <= j < i ==> !occurs_at(s@, part@, j),
    {
        if holds_at(v.as_slice(), p.as_slice(), i) {
            assert(occurs_at(s@, part@, i as int));
            return true;
        }
    }
    let found = holds_at(v.as_slice(), p.as_slice(), v.len());
    assert(found ==> occurs_at(s@, part@, v@.len() as int));
    found
}

/// Whether `part` stands at the start of `s`.
pub fn text_starts_with(s: &str, part: &str) -> (found: bool)
    ensures
        found == part@.is_prefix_of(s@),
{
    let v = chars_of(s);
    let p = chars_of(part);
    let found = holds_at(v.as_slice(), p.as_slice(), 0);
    assert(found == part@.is_prefix_of(s@)) by {
        if part@.len() <= s@.len() {
            assert(s@.subrange(0, part@.len() as int) == s@.take(part@.len() as int));
        }
    }
    found
}

/// The decimal digits of a number, without leading zeros.
pub open spec fn decimal(n: nat) -> Seq<char>
    decreases n,
{
    if n < 10 {
        seq![digit_char(n)]
    } else {
        decimal(n / 10).push(digit_char(n % 10))
    }
}

/// The digit for a number below sixteen, in lower case.
pub open spec fn digit_char(d: nat) -> char {
    if d < 10 {
        (48 + d) as char
    } else {
        (87 + d) as char
    }
}

/// The decimal text of an integer, with a minus sign if it is negative.
pub open spec fn decimal_int(n: int) -> Seq<char> {
    if n < 0 {
        seq!['-'] + decimal((-n) as nat)
    } else {
        decimal(n as nat)
    }
}

/// The digit character of a number below sixteen.
pub fn digit(d: u8) -> (c: char)
    requires
        d < 16,
    ensures
        c == digit_char(d as nat),
{
    if d < 10 {
        (48 + d) as char
    } else {
        (87 + d) as char
    }
}

/// The decimal text of an unsigned number.
pub fn decimal_u64(n: u64) -> (s: String)
    ensures
        s@ == decimal(n as nat),
    decreases n,
{
    let last = digit((n % 10) as u8);
    let mut s = if n < 10 {
        String::new()
    } else {
        decimal_u64(n / 10)
    };
    s.push(last);
    assert(s@ =~= decimal(n as nat));
    s
}

/// The decimal text of a signed number.
pub fn decimal_i64(n: i64) -> (s: String)
    ensures
        s@ == decimal_int(n as int),
{
    if n < 0 {
        let magnitude: u64 = if n == i64::MIN {
            0x8000_0000_0000_0000u64
        } else {
            (-n) as u64
        };
        let digits = decimal_u64(magnitude);
        let mut s = String::new();
        s.push('-');
        let r = s.concat(&digits);
        assert(r@ =~= seq!['-'] + digits@);
        r
    } else {
        decimal_u64(n as u64)
    }
}

/// The value of a digit in the given radix, for a radix of at most sixteen.
pub open spec fn digit_value(c: char, radix: int) -> Option<int> {
    let n = c as u32;
    let v: int = if 48 <= n <= 57 {
        n - 48
    } else if 97 <= n <= 102 {
        n - 87
    } else if 65 <= n <= 70 {
        n - 55
    } else {
        16
    };
    if v < radix {
        Some(v)
    } else {
        None
    }
}

/// The number that a non-empty run of digits stands for, if every character is a digit.
pub open spec fn digits_value(s: Seq<char>, radix: int) -> Option<int>
    decreases s.len(),
{
    if s.len() == 0 {
        Some(0)
    } else {
        match (digits_value(s.drop_last(), radix), digit_value(s.last(), radix)) {
            (Some(high), Some(low)) => Some(high * radix + low),
            _ => None,
        }
    }
}

/// The number a text stands for: digits after an optional plus sign, at most `max`.
pub open spec fn parsed_number(s: Seq<char>, radix: int, max: int) -> Option<int> {
    let digits = if s.len() > 0 && s[0] == '+' {
        s.drop_first()
    } else {
        s
    };
    if digits.len() == 0 {
        None
    } else {
        match digits_value(digits, radix) {
            Some(n) => if n <= max {
                Some(n)
            } else {
                None
            },
            None => None,
        }
    }
}

/// A run of digits never stands for a negative number, and a longer one for no smaller number.
proof fn lemma_digits_value_grows(s: Seq<char>, n: int, radix: int)
    requires
        0 <= n <= s.len(),
        radix == 10 || radix == 16,
    ensures
        digits_value(s, radix) matches Some(v) ==> {
            &&& v >= 0
            &&& digits_value(s.take(n), radix) matches Some(w) && 0 <= w <= v
        },
    decreases s.len(),
{
    if s.len() > 0 {
        if n < s.len() {
            lemma_digits_value_grows(s.drop_last(), n, radix);
            assert(s.drop_last().take(n) =~= s.take(n));
        } else {
            lemma_digits_value_grows(s.drop_last(), s.len() - 1, radix);
            assert(s.take(n) =~= s);
        }
    } else {
        assert(s.take(n) =~= s);
    }
}

/// Reads a number of at most `max`, written in the given radix after an optional plus sign.
pub fn parse_number(s: &str, radix: u32, max: u32) -> (n: Option<u32>)
    requires
        radix == 10 || radix == 16,
    ensures
        match n {
            Some(v) => parsed_number(s@, radix as int, max as int) == Some(v as int),
            None => parsed_number(s@, radix as int, max as int) is None,
        },
{
    let v = chars_of(s);
    let from: usize = if v.len() > 0 && v[0] == '+' {
        1
    } else {
        0
    };
    let ghost digits = v@.skip(from as int);
    assert(digits =~= if s@.len() > 0 && s@[0] == '+' {
        s@.drop_first()
    } else {
        s@
    });
    if from == v.len() {
        return None;
    }
    let mut value: u32 = 0;
    for i in from..v.len()
        invariant
            radix == 10 || radix == 16,
            v@ == s@,
            from <= v.len(),
            digits == v@.skip(from as int),
            value <= max,
            digits == (if s@.len() > 0 && s@[0] == '+' {
                s@.drop_first()
            } else {
                s@
            }),
            digits_value(digits.take(i - from), radix as int) == Some(value as int),
    {
        let ghost next = digits.take(i + 1 - from);
        assert(next.drop_last() =~= digits.take(i - from));
        assert(next.last() == v@[i as int]);
        let c: u32 = v[i] as u32;
        let d: u32 = if 48 <= c && c <= 57 {
            c - 48
        } else if 97 <= c && c <= 102 {
            c - 87
        } else if 65 <= c && c <= 70 {
            c - 55
        } else {
            16
        };
        assert(value * radix <= 0xffff_ffff * 16) by (nonlinear_arith)
            requires
                value <= 0xffff_ffff,
                radix <= 16,
        ;
        let total: u64 = value as u64 * radix as u64 + d as u64;
        proof {
            lemma_digits_value_grows(digits, i + 1 - from, radix as int);
        }
        if d >= radix || total > max as u64 {
            return None;
        }
        value = total as u32;
    }
    assert(digits.take(digits.len() as int) =~= digits);
    Some(value)
}

/// The parts in order, with `sep` between neighbours.
pub open spec fn joined(parts: Seq<Seq<char>>, sep: Seq<char>) -> Seq<char>
    decreases parts.len(),
{
    if parts.len() == 0 {
        Seq::empty()
    } else if parts.len() == 1 {
        parts[0]
    } else {
        joined(parts.drop_last(), sep) + sep + parts.last()
    }
}

/// Joins texts with a separator.
pub fn join(parts: &[String], sep: &str) -> (s: String)
    ensures
        s@ == joined(parts.deep_view(), sep@),
{
    let mut s = String::new();
    for i in 0..parts.len()
        invariant
            s@ == joined(parts.deep_view().take(i as int), sep@),
    {
        let ghost next = parts.deep_view().take(i + 1);
        assert(next.drop_last() =~= parts.deep_view().take(i as int));
        assert(next.last() == parts@[i as int]@);
        if i > 0 {
            s = s.concat(sep);
        }
        let ghost before = s@;
        s = s.concat(&parts[i]);
        assert(i == 0 ==> s@ =~= next[0]);
    }
    assert(parts.deep_view().take(parts.deep_view().len() as int) =~= parts.deep_view());
    s
}

/// The digits of a number stand for it.
pub proof fn lemma_decimal(n: nat)
    ensures
        decimal(n).len() > 0,
        digits_value(decimal(n), 10) == Some(n as int),
        decimal(n)[0] != '-',
    decreases n,
{
    let d = decimal(n);
    if n < 10 {
        assert(d.drop_last() =~= Seq::empty());
        assert(digits_value(d.drop_last(), 10) == Some(0int));
        assert(digit_value(digit_char(n), 10) == Some(n as int));
    } else {
        lemma_decimal(n / 10);
        assert(d.drop_last() =~= decimal(n / 10));
        assert(digit_value(digit_char(n % 10), 10) == Some((n % 10) as int));
        assert(d[0] == decimal(n / 10)[0]);
    }
}

/// Different numbers have different texts.
pub proof fn lemma_decimal_int_injective(a: int, b: int)
    requires
        decimal_int(a) == decimal_int(b),
    ensures
        a == b,
{
    let (x, y) = (if a < 0 {
        (-a) as nat
    } else {
        a as nat
    }, if b < 0 {
        (-b) as nat
    } else {
        b as nat
    });
    lemma_decimal(x);
    lemma_decimal(y);
    if a < 0 && b < 0 {
        assert(decimal_int(a).skip(1) =~= decimal(x));
        assert(decimal_int(b).skip(1) =~= decimal(y));
    } else if a < 0 {
        assert(decimal_int(a)[0] == '-');
    } else if b < 0 {
        assert(decimal_int(b)[0] == '-');
    }
}

/// The quoted form of a text that `Debug` writes.
pub uninterp spec fn debug_text(text: Seq<char>) -> Seq<char>;

/// The `Debug` form of a `str`, as `format!` writes it: the text between quotes, with some
/// characters escaped. Which ones are is not stated.
#[verifier::external_body]
pub(crate) fn quote(text: &str) -> (quoted: String)
    ensures
        quoted@ == debug_text(text@),
{
    format!("{:?}", text)
}

/// Texts are ordered like words in a dictionary, by the codes of their characters: by the first
/// character in which they differ, and a text before those that go on from it.
pub proof fn law_texts_are_ordered_by_their_first_difference(a: Seq<char>, b: Seq<char>, i: int)
    requires
        0 <= i <= a.len(),
        0 <= i <= b.len(),
        a.take(i) == b.take(i),
    ensures
        i < a.len() && i < b.len() && a[i] != b[i] ==> (text_lt(a, b) <==> (a[i] as u32) < (
        b[i] as u32)),
        i == a.len() ==> (text_lt(a, b) <==> a.len() < b.len()),
        i == b.len() ==> !text_lt(a, b),
    decreases i,
{
    if i > 0 {
        assert(a.take(i)[0] == a[0] && b.take(i)[0] == b[0]);
        let (x, y) = (a.drop_first(), b.drop_first());
        assert(x.take(i - 1) =~= a.take(i).drop_first());
        assert(y.take(i - 1) =~= b.take(i).drop_first());
        law_texts_are_ordered_by_their_first_difference(x, y, i - 1);
    }
}

/// Joined texts stand one after the other with the separator between them.
pub proof fn law_joined_texts_stand_in_order(parts: Seq<Seq<char>>, sep: Seq<char>, part: Seq<char>)
    ensures
        joined(Seq::empty(), sep) == Seq::<char>::empty(),
        joined(seq![part], sep) == part,
        parts.len() > 0 ==> joined(parts.push(part), sep) == joined(parts, sep) + sep + part,
{
    assert(parts.push(part).drop_last() =~= parts);
}

/// A number starts with a digit if it is one.
proof fn lemma_first_digit(s: Seq<char>, radix: int)
    requires
        s.len() > 0,
        digits_value(s, radix) is Some,
    ensures
        digit_value(s[0], radix) is Some,
    decreases s.len(),
{
    if s.len() > 1 {
        lemma_first_digit(s.drop_last(), radix);
        assert(s.drop_last()[0] == s[0]);
    } else {
        assert(s[0] == s.last());
    }
}

/// A number that is written is read back, as long as it is not above the limit; a plus sign before
/// it does not matter.
pub proof fn law_numbers_are_read_back(n: nat, max: int)
    ensures
        parsed_number(decimal(n), 10, max) == (if n <= max {
            Some(n as int)
        } else {
            None
        }),
        parsed_number(seq!['+'] + decimal(n), 10, max) == parsed_number(decimal(n), 10, max),
        parsed_number(Seq::empty(), 10, max) is None,
{
    lemma_decimal(n);
    lemma_first_digit(decimal(n), 10);
    assert(digit_value('+', 10) is None);
    assert((seq!['+'] + decimal(n)).drop_first() =~= decimal(n));
}

/// A digit is worth as much as its place in the order of digits, letters of either case going on
/// from nine; nothing else is a digit.
pub proof fn law_digits_have_their_value(c: char)
    ensures
        digit_value(c, 16) matches Some(v) ==> 0 <= v < 16,
        '0' <= c <= '9' ==> digit_value(c, 16) == Some(c as u32 - 48) && digit_value(c, 10) == Some(
            c as u32 - 48,
        ),
        'a' <= c <= 'f' ==> digit_value(c, 16) == Some(c as u32 - 87) && digit_value(c, 10) is None,
        'A' <= c <= 'F' ==> digit_value(c, 16) == Some(c as u32 - 55) && digit_value(c, 10) is None,
        !('0' <= c <= '9' || 'a' <= c <= 'f' || 'A' <= c <= 'F') ==> digit_value(c, 16) is None,
{
}

/// White space is what Unicode says it is.
pub proof fn law_white_space_is_that_of_unicode(c: char)
    ensures
        is_white(c) <==> {
            ||| '\u{9}' <= c <= '\u{d}'
            ||| c == ' '
            ||| c == '\u{85}'
            ||| c == '\u{a0}'
            ||| c == '\u{1680}'
            ||| '\u{2000}' <= c <= '\u{200a}'
            ||| c == '\u{2028}'
            ||| c == '\u{2029}'
            ||| c == '\u{202f}'
            ||| c == '\u{205f}'
            ||| c == '\u{3000}'
        },
{
}

} // verus!

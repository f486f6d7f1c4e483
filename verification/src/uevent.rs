//! Kernel uevents (`NETLINK_KOBJECT_UEVENT`), used to react to USB hotplug immediately.
//!
//! Kernel uevents are broadcast to every network namespace owned by the initial user namespace,
//! so this works from a regular (non host-network) pod as long as it does not use `hostUsers: false`.

use vstd::prelude::*;
use vstd::utf8::{
    char_u32_cast, decode_utf8, encode_scalar, encode_utf8, encode_utf8_decode_utf8,
    encode_utf8_valid_utf8, valid_utf8,
};

use crate::table::{keys_of, lemma_map_of_dom, map_of, Table};
use crate::text::{first_index, lemma_first_index, split_at_first, split_once, text_eq};

verus! {

/// A parsed kernel uevent, e.g. `add@/devices/pci0000:00/0000:00:10.0/usb3/3-3`.
#[derive(Debug)]
pub struct Uevent {
    pub action: String,
    pub devpath: String,
    pub vars: Table<String, String>,
}

/// What a [`Uevent`] holds.
pub struct UeventView {
    pub action: Seq<char>,
    pub devpath: Seq<char>,
    pub vars: Map<Seq<char>, Seq<char>>,
}

/// What variables hold.
pub open spec fn var_views(vars: Map<Seq<char>, String>) -> Map<Seq<char>, Seq<char>> {
    vars.map_values(|v: String| v@)
}

impl View for Uevent {
    type V = UeventView;

    open spec fn view(&self) -> UeventView {
        UeventView {
            action: self.action@,
            devpath: self.devpath@,
            vars: var_views(self.vars@),
        }
    }
}

impl Clone for Uevent {
    fn clone(&self) -> (r: Self)
        ensures
            r@ == self@,
    {
        let ghost all = self.vars.items();
        let mut vars: Table<String, String> = Table::new();
        let n = self.vars.len();
        assert(var_views(vars@) =~= var_views(map_of(all.take(0))));
        for i in 0..n
            invariant
                all == self.vars.items(),
                n == all.len(),
                var_views(vars@) == var_views(map_of(all.take(i as int))),
        {
            let (name, value) = self.vars.entry(i);
            let ghost before = vars@;
            let ghost head = map_of(all.take(i as int));
            vars.insert(name.clone(), value.clone());
            assert(all.take(i + 1).drop_last() =~= all.take(i as int));
            assert(all.take(i + 1).last() == all[i as int]);
            assert(var_views(vars@) =~= var_views(before).insert(name@, value@));
            assert(var_views(head.insert(name@, *value)) =~= var_views(head).insert(
                name@,
                value@,
            ));
        }
        proof {
            assert(all.take(n as int) =~= all);
            self.vars.lemma_items();
        }
        Uevent { action: self.action.clone(), devpath: self.devpath.clone(), vars }
    }
}

/// Whether some variables are among others with the same values.
pub open spec fn vars_among(
    a: Map<Seq<char>, Seq<char>>,
    b: Map<Seq<char>, Seq<char>>,
) -> bool {
    forall|name: Seq<char>| #[trigger]
        a.contains_key(name) ==> b.contains_key(name) && a[name] == b[name]
}

/// Whether some variables are among others with the same values.
fn includes_vars(a: &Table<String, String>, b: &Table<String, String>) -> (r: bool)
    ensures
        r == vars_among(var_views(a@), var_views(b@)),
{
    let ghost (x, y) = (var_views(a@), var_views(b@));
    let ghost keys = keys_of(a.items());
    let n = a.len();
    for i in 0..n
        invariant
            n == a.items().len(),
            keys == keys_of(a.items()),
            x == var_views(a@),
            y == var_views(b@),
            forall|j: int|
                0 <= j < i ==> y.contains_key(#[trigger] keys[j]) && x[keys[j]] == y[keys[j]],
    {
        let (name, value) = a.entry(i);
        assert(keys[i as int] == name@);
        assert(x.contains_key(name@) && x[name@] == value@);
        let same = match b.get(name) {
            Some(other) => text_eq(value, other),
            None => false,
        };
        if !same {
            return false;
        }
    }
    proof {
        a.lemma_items();
        lemma_map_of_dom(a.items());
        assert forall|name: Seq<char>| #[trigger] x.contains_key(name) implies y.contains_key(name)
            && x[name] == y[name] by {
            assert(keys.contains(name));
            let j = choose|j: int| 0 <= j < keys.len() && keys[j] == name;
            assert(y.contains_key(keys[j]));
        }
    }
    true
}

impl vstd::std_specs::cmp::PartialEqSpecImpl for Uevent {
    open spec fn obeys_eq_spec() -> bool {
        true
    }

    open spec fn eq_spec(&self, other: &Uevent) -> bool {
        self@ == other@
    }
}

impl PartialEq for Uevent {
    fn eq(&self, other: &Uevent) -> (same: bool) {
        let ghost (x, y) = (self@.vars, other@.vars);
        let vars = includes_vars(&self.vars, &other.vars) && includes_vars(
            &other.vars,
            &self.vars,
        );
        assert(vars == (x == y)) by {
            if vars {
                assert(x =~= y);
            }
        }
        text_eq(&self.action, &other.action) && text_eq(&self.devpath, &other.devpath) && vars
    }
}

impl Eq for Uevent {

}

impl UeventView {
    /// Whether the event can change the set of USB devices or their descriptors: it is about the
    /// `usb` subsystem and not about something other than a device.
    pub open spec fn affects_devices(self) -> bool {
        self.vars.get("SUBSYSTEM"@) == Some("usb"@) && (self.vars.get("DEVTYPE"@) is None
            || self.vars.get("DEVTYPE"@) == Some("usb_device"@))
    }
}

impl Uevent {
    /// The value of a variable.
    pub fn var(&self, name: &str) -> (value: Option<&str>)
        ensures
            value.deep_view() == self@.vars.get(name@),
    {
        let key = name.to_string();
        match self.vars.get(&key) {
            Some(v) => Some(v.as_str()),
            None => None,
        }
    }

    /// The subsystem that the event is about.
    pub fn subsystem(&self) -> (name: Option<&str>)
        ensures
            name.deep_view() == self@.vars.get("SUBSYSTEM"@),
    {
        self.var("SUBSYSTEM")
    }

    /// Whether this event can change the set of USB devices or their descriptors.
    pub fn affects_usb_devices(&self) -> (affects: bool)
        ensures
            affects == self@.affects_devices(),
    {
        let usb = match self.subsystem() {
            Some(s) => text_eq(s, "usb"),
            None => false,
        };
        usb && match self.var("DEVTYPE") {
            Some(t) => text_eq(t, "usb_device"),
            None => true,
        }
    }
}

/// `std::str::from_utf8`: succeeds for UTF-8, with the text that it encodes.
#[verifier::external_body]
fn from_utf8(bytes: &[u8]) -> (text: Option<String>)
    ensures
        match text {
            Some(t) => valid_utf8(bytes@) && t@ == decode_utf8(bytes@),
            None => !valid_utf8(bytes@),
        },
{
    std::str::from_utf8(bytes).ok().map(String::from)
}

/// The index of the first zero at or after `from`, or the length of the buffer.
pub open spec fn zero_from(buf: Seq<u8>, from: int) -> int
    decreases buf.len() - from,
{
    if from < 0 || from >= buf.len() || buf[from] == 0 {
        from
    } else {
        zero_from(buf, from + 1)
    }
}

/// The runs of bytes between zeros, from an index on, that are not empty.
pub open spec fn fields_from(buf: Seq<u8>, from: int) -> Seq<Seq<u8>>
    decreases buf.len() - from,
{
    if from < 0 || from >= buf.len() {
        Seq::empty()
    } else if buf[from] == 0 {
        fields_from(buf, from + 1)
    } else {
        let end = zero_from(buf, from);
        if from < end <= buf.len() {
            seq![buf.subrange(from, end)] + fields_from(buf, end)
        } else {
            Seq::empty()
        }
    }
}

/// The variables among some fields: those that are UTF-8 and hold a `=`. A later one replaces an
/// earlier one with its name.
pub open spec fn vars_of(fields: Seq<Seq<u8>>) -> Map<Seq<char>, Seq<char>>
    decreases fields.len(),
{
    if fields.len() == 0 {
        Map::empty()
    } else {
        let rest = vars_of(fields.drop_last());
        if valid_utf8(fields.last()) {
            match split_at_first(decode_utf8(fields.last()), '=') {
                Some((name, value)) => rest.insert(name, value),
                None => rest,
            }
        } else {
            rest
        }
    }
}

/// The event that a datagram stands for: fields between zeros, the first of which is UTF-8 and
/// holds action and path around a `@`.
pub open spec fn event_of(buf: Seq<u8>) -> Option<UeventView> {
    let fields = fields_from(buf, 0);
    if fields.len() == 0 || !valid_utf8(fields[0]) {
        None
    } else {
        match split_at_first(decode_utf8(fields[0]), '@') {
            Some((action, devpath)) => Some(
                UeventView { action, devpath, vars: vars_of(fields.drop_first()) },
            ),
            None => None,
        }
    }
}

/// What some byte runs hold.
spec fn run_views(runs: Seq<Vec<u8>>) -> Seq<Seq<u8>> {
    runs.map_values(|r: Vec<u8>| r@)
}

/// The runs of bytes between zeros that are not empty.
fn split_fields(buf: &[u8]) -> (fields: Vec<Vec<u8>>)
    ensures
        run_views(fields@) == fields_from(buf@, 0),
{
    let mut fields: Vec<Vec<u8>> = Vec::new();
    let mut i: usize = 0;
    assert(run_views(fields@) + fields_from(buf@, 0) =~= fields_from(buf@, 0));
    while i < buf.len()
        invariant
            i <= buf@.len(),
            run_views(fields@) + fields_from(buf@, i as int) == fields_from(buf@, 0),
        decreases buf.len() - i,
    {
        if buf[i] == 0 {
            i += 1;
        } else {
            let mut run: Vec<u8> = Vec::new();
            let mut j: usize = i;
            assert(run@ =~= buf@.subrange(i as int, j as int));
            while j < buf.len() && buf[j] != 0
                invariant
                    i <= j <= buf@.len(),
                    run@ == buf@.subrange(i as int, j as int),
                    zero_from(buf@, i as int) == zero_from(buf@, j as int),
                decreases buf.len() - j,
            {
                run.push(buf[j]);
                assert(run@ =~= buf@.subrange(i as int, j + 1));
                j += 1;
            }
            let ghost before = fields@;
            fields.push(run);
            assert(run_views(fields@) =~= run_views(before).push(run@));
            assert(run_views(before) + (seq![run@] + fields_from(buf@, j as int)) =~= run_views(
                fields@,
            ) + fields_from(buf@, j as int));
            i = j;
        }
    }
    assert(run_views(fields@) + Seq::<Seq<u8>>::empty() =~= run_views(fields@));
    fields
}

/// Parses a raw kernel uevent datagram (`ACTION@DEVPATH\0KEY=VALUE\0...`).
///
/// Messages from udevd (prefixed with `libudev\0`) are rejected; only kernel events are used.
pub fn parse(buf: &[u8]) -> (event: Option<Uevent>)
    ensures
        match event {
            Some(e) => event_of(buf@) == Some(e@),
            None => event_of(buf@) is None,
        },
{
    let fields = split_fields(buf);
    let ghost all = run_views(fields@);
    if fields.len() == 0 {
        return None;
    }
    let header = match from_utf8(fields[0].as_slice()) {
        Some(header) => header,
        None => return None,
    };
    let (action, devpath) = match split_once(&header, '@') {
        Some(parts) => parts,
        None => return None,
    };
    let ghost rest = all.drop_first();
    let mut vars: Table<String, String> = Table::new();
    assert(var_views(vars@) =~= Map::empty());
    assert(rest.take(0) =~= Seq::empty());
    for i in 1..fields.len()
        invariant
            1 <= fields@.len(),
            all == run_views(fields@),
            rest == all.drop_first(),
            var_views(vars@) == vars_of(rest.take(i - 1)),
    {
        assert(rest.take(i as int).drop_last() =~= rest.take(i - 1));
        assert(rest.take(i as int).last() == fields@[i as int]@);
        if let Some(field) = from_utf8(fields[i].as_slice()) {
            if let Some((name, value)) = split_once(&field, '=') {
                let ghost before = vars@;
                vars.insert(name, value);
                assert(var_views(vars@) =~= var_views(before).insert(name@, value@));
            }
        }
    }
    assert(rest.take(rest.len() as int) =~= rest);
    Some(Uevent { action, devpath, vars })
}

/// Texts in UTF-8, each followed by a zero.
pub open spec fn zero_terminated(texts: Seq<Seq<char>>) -> Seq<u8>
    decreases texts.len(),
{
    if texts.len() == 0 {
        Seq::empty()
    } else {
        encode_utf8(texts[0]).push(0) + zero_terminated(texts.drop_first())
    }
}

/// A variable as a datagram holds it.
pub open spec fn assignment(var: (Seq<char>, Seq<char>)) -> Seq<char> {
    var.0.push('=') + var.1
}

/// The datagram that the kernel sends about an action on a device path.
pub open spec fn kernel_datagram(
    action: Seq<char>,
    devpath: Seq<char>,
    vars: Seq<(Seq<char>, Seq<char>)>,
) -> Seq<u8> {
    zero_terminated(
        seq![action.push('@') + devpath] + vars.map_values(
            |v: (Seq<char>, Seq<char>)| assignment(v),
        ),
    )
}

/// Variables by their name. A later one replaces an earlier one.
pub open spec fn last_values(vars: Seq<(Seq<char>, Seq<char>)>) -> Map<Seq<char>, Seq<char>>
    decreases vars.len(),
{
    if vars.len() == 0 {
        Map::empty()
    } else {
        last_values(vars.drop_last()).insert(vars.last().0, vars.last().1)
    }
}

/// The encoding of a character other than NUL has no zero byte.
proof fn lemma_scalar_has_no_zero(c: u32)
    requires
        c != 0,
    ensures
        encode_scalar(c).len() > 0,
        !encode_scalar(c).contains(0),
{
    assert(c <= 0x7f ==> (c & 0x7F) as u8 != 0u8) by (bit_vector)
        requires
            c != 0,
    ;
    assert(forall|b: u8| #[trigger] (0xC0u8 | b) != 0) by (bit_vector);
    assert(forall|b: u8| #[trigger] (0xE0u8 | b) != 0) by (bit_vector);
    assert(forall|b: u8| #[trigger] (0xF0u8 | b) != 0) by (bit_vector);
    assert(forall|b: u8| #[trigger] (0x80u8 | b) != 0) by (bit_vector);
}

/// The encoding of a text without NUL has no zero byte.
proof fn lemma_text_has_no_zero(text: Seq<char>)
    requires
        !text.contains('\0'),
    ensures
        !encode_utf8(text).contains(0),
        text.len() > 0 ==> encode_utf8(text).len() > 0,
    decreases text.len(),
{
    if text.len() > 0 {
        let rest = text.drop_first();
        assert(text.contains(text[0]));
        assert forall|i: int| 0 <= i < rest.len() implies rest[i] != '\0' by {
            assert(text.contains(text[i + 1]));
        }
        lemma_text_has_no_zero(rest);
        char_u32_cast(text[0], text[0] as u32);
        lemma_scalar_has_no_zero(text[0] as u32);
        let head = encode_scalar(text[0] as u32);
        let tail = encode_utf8(rest);
        assert forall|i: int| 0 <= i < (head + tail).len() implies (head + tail)[i] != 0 by {
            if i < head.len() {
                assert(head.contains(head[i]));
            } else {
                assert(tail.contains(tail[i - head.len()]));
            }
        }
    }
}

/// A run of bytes other than zero ends at the zero behind it.
proof fn lemma_zero_from(buf: Seq<u8>, from: int, end: int)
    requires
        0 <= from <= end < buf.len(),
        buf[end] == 0,
        forall|i: int| from <= i < end ==> buf[i] != 0,
    ensures
        zero_from(buf, from) == end,
    decreases end - from,
{
    if from < end {
        lemma_zero_from(buf, from + 1, end);
    }
}

/// A text that is followed by a zero is the first field, and the others stand behind it.
proof fn lemma_first_field(before: Seq<u8>, text: Seq<char>, rest: Seq<u8>)
    requires
        text.len() > 0,
        !text.contains('\0'),
    ensures
        ({
            let buf = before + (encode_utf8(text).push(0) + rest);
            let behind = before.len() + encode_utf8(text).len() + 1;
            fields_from(buf, before.len() as int) == seq![encode_utf8(text)] + fields_from(
                buf,
                behind as int,
            )
        }),
{
    let bytes = encode_utf8(text);
    let buf = before + (bytes.push(0) + rest);
    let from = before.len() as int;
    let end = from + bytes.len();
    lemma_text_has_no_zero(text);
    assert forall|i: int| from <= i < end implies buf[i] != 0 by {
        assert(buf[i] == bytes[i - from]);
        assert(bytes.contains(bytes[i - from]));
    }
    lemma_zero_from(buf, from, end);
    assert(buf.subrange(from, end) =~= bytes);
    assert(fields_from(buf, end) == fields_from(buf, end + 1));
}

/// The fields of terminated texts are those texts.
proof fn lemma_fields_of_texts(before: Seq<u8>, texts: Seq<Seq<char>>)
    requires
        forall|i: int| 0 <= i < texts.len() ==> (#[trigger] texts[i]).len() > 0,
        forall|i: int| 0 <= i < texts.len() ==> !(#[trigger] texts[i]).contains('\0'),
    ensures
        fields_from(before + zero_terminated(texts), before.len() as int) == texts.map_values(
            |t: Seq<char>| encode_utf8(t),
        ),
    decreases texts.len(),
{
    if texts.len() > 0 {
        let bytes = encode_utf8(texts[0]);
        let rest = texts.drop_first();
        lemma_first_field(before, texts[0], zero_terminated(rest));
        lemma_fields_of_texts(before + bytes.push(0), rest);
        assert((before + bytes.push(0)) + zero_terminated(rest) =~= before + zero_terminated(texts));
        assert(texts.map_values(|t: Seq<char>| encode_utf8(t)) =~= seq![bytes] + rest.map_values(
            |t: Seq<char>| encode_utf8(t),
        ));
    } else {
        assert(before + zero_terminated(texts) =~= before);
    }
}

/// A text splits at a character where the part before has none.
proof fn lemma_split_at_first(a: Seq<char>, c: char, b: Seq<char>)
    requires
        !a.contains(c),
    ensures
        split_at_first(a.push(c) + b, c) == Some((a, b)),
{
    let s = a.push(c) + b;
    lemma_first_index(s, c);
    let i = first_index(s, c);
    assert(s[a.len() as int] == c);
    assert(s.contains(c));
    if i < a.len() {
        assert(a.contains(a[i]));
    }
    assert(s.take(i) =~= a);
    assert(s.skip(i + 1) =~= b);
}

/// The variables of encoded assignments are those that were assigned.
proof fn lemma_vars_of_assignments(vars: Seq<(Seq<char>, Seq<char>)>)
    requires
        forall|i: int| 0 <= i < vars.len() ==> !(#[trigger] vars[i]).0.contains('='),
    ensures
        vars_of(vars.map_values(|v: (Seq<char>, Seq<char>)| encode_utf8(assignment(v))))
            == last_values(vars),
    decreases vars.len(),
{
    let fields = vars.map_values(|v: (Seq<char>, Seq<char>)| encode_utf8(assignment(v)));
    if vars.len() > 0 {
        let (name, value) = vars.last();
        assert(!vars[vars.len() - 1].0.contains('='));
        lemma_vars_of_assignments(vars.drop_last());
        assert(fields.drop_last() =~= vars.drop_last().map_values(
            |v: (Seq<char>, Seq<char>)| encode_utf8(assignment(v)),
        ));
        encode_utf8_valid_utf8(assignment((name, value)));
        encode_utf8_decode_utf8(assignment((name, value)));
        lemma_split_at_first(name, '=', value);
    }
}

/// What the kernel writes is read back: the action, the device path and the last value of each
/// variable.
pub proof fn law_kernel_events_are_read_back(
    action: Seq<char>,
    devpath: Seq<char>,
    vars: Seq<(Seq<char>, Seq<char>)>,
)
    requires
        !action.contains('@'),
        !action.contains('\0'),
        !devpath.contains('\0'),
        forall|i: int|
            0 <= i < vars.len() ==> {
                &&& !(#[trigger] vars[i]).0.contains('=')
                &&& !vars[i].0.contains('\0')
                &&& !vars[i].1.contains('\0')
            },
    ensures
        event_of(kernel_datagram(action, devpath, vars)) == Some(
            (UeventView { action, devpath, vars: last_values(vars) }),
        ),
{
    let header = action.push('@') + devpath;
    let assignments = vars.map_values(|v: (Seq<char>, Seq<char>)| assignment(v));
    let texts = seq![header] + assignments;
    assert forall|i: int| 0 <= i < texts.len() implies (#[trigger] texts[i]).len() > 0
        && !texts[i].contains('\0') by {
        let (a, c, b) = if i == 0 {
            (action, '@', devpath)
        } else {
            (vars[i - 1].0, '=', vars[i - 1].1)
        };
        assert(texts[i] == a.push(c) + b);
        assert forall|j: int| 0 <= j < texts[i].len() implies texts[i][j] != '\0' by {
            if j < a.len() {
                assert(a.contains(a[j]));
            } else if j > a.len() {
                assert(b.contains(b[j - a.len() - 1]));
            }
        }
    }
    lemma_fields_of_texts(Seq::empty(), texts);
    assert(Seq::<u8>::empty() + zero_terminated(texts) =~= kernel_datagram(action, devpath, vars));
    let fields = fields_from(kernel_datagram(action, devpath, vars), 0);
    assert(fields[0] == encode_utf8(header));
    assert(fields.drop_first() =~= vars.map_values(
        |v: (Seq<char>, Seq<char>)| encode_utf8(assignment(v)),
    ));
    encode_utf8_valid_utf8(header);
    encode_utf8_decode_utf8(header);
    lemma_split_at_first(action, '@', devpath);
    lemma_vars_of_assignments(vars);
}

/// Messages from udevd are rejected, whatever follows their prefix.
pub proof fn law_udev_messages_are_rejected(rest: Seq<u8>)
    ensures
        event_of(encode_utf8("libudev"@).push(0) + rest) is None,
{
    let prefix = "libudev"@;
    reveal_strlit("libudev");
    let buf = encode_utf8(prefix).push(0) + rest;
    lemma_first_field(Seq::empty(), prefix, rest);
    assert(Seq::<u8>::empty() + buf =~= buf);
    assert(fields_from(buf, 0)[0] == encode_utf8(prefix));
    encode_utf8_decode_utf8(prefix);
    lemma_first_index(prefix, '@');
}

/// Time to let a burst of uevents (and late descriptor attributes) settle before rescanning, in
/// milliseconds.
pub const SETTLE_MILLIS: u64 = 500;

/// Longest time for which a burst postpones a rescan, in milliseconds: four settle periods.
pub const MAX_SETTLE_MILLIS: u64 = 4 * SETTLE_MILLIS;

/// How far the wait for a USB event is.
#[derive(Clone, Copy, Debug, PartialEq, Eq, Structural)]
pub enum WaitStage {
    /// No USB event came yet.
    Waiting,
    /// One came, and the rest of the burst is swallowed.
    Settling,
    /// It is time to rescan.
    Over,
}

/// What a wait for a datagram came to.
#[derive(Clone, Copy, Debug, PartialEq, Eq, Structural)]
pub enum WaitEvent {
    /// A datagram came; it may be about something that affects USB devices.
    Received { affects_usb: bool },
    /// Receiving failed, e.g. because events were dropped.
    Failed,
    /// Nothing came in time.
    Silent,
}

impl WaitStage {
    /// What follows from an event, given how long a burst has been settling.
    pub open spec fn next(self, event: WaitEvent, settling_millis: int) -> WaitStage {
        match (self, event) {
            (WaitStage::Waiting, WaitEvent::Received { affects_usb }) => if affects_usb {
                WaitStage::Settling
            } else {
                WaitStage::Waiting
            },
            (WaitStage::Waiting, WaitEvent::Failed) => WaitStage::Settling,
            (WaitStage::Settling, WaitEvent::Received { .. }) => if settling_millis
                < MAX_SETTLE_MILLIS {
                WaitStage::Settling
            } else {
                WaitStage::Over
            },
            _ => WaitStage::Over,
        }
    }

    /// Decides what follows from an event. A USB event, or the loss of events, starts the settling;
    /// other datagrams are passed over. The settling ends once nothing more comes, but never goes on
    /// indefinitely.
    pub fn after(self, event: WaitEvent, settling_millis: u128) -> (stage: WaitStage)
        ensures
            stage == self.next(event, settling_millis as int),
    {
        match (self, event) {
            (WaitStage::Waiting, WaitEvent::Received { affects_usb }) => if affects_usb {
                WaitStage::Settling
            } else {
                WaitStage::Waiting
            },
            (WaitStage::Waiting, WaitEvent::Failed) => WaitStage::Settling,
            (WaitStage::Settling, WaitEvent::Received { .. }) => if settling_millis
                < MAX_SETTLE_MILLIS as u128 {
                WaitStage::Settling
            } else {
                WaitStage::Over
            },
            _ => WaitStage::Over,
        }
    }
}

/// A burst of uevents does not postpone a rescan indefinitely: after four settle periods whatever
/// comes ends the wait, and a wait that settles never starts over.
pub proof fn law_bursts_end(event: WaitEvent, settling_millis: int)
    ensures
        settling_millis >= 4 * SETTLE_MILLIS ==> WaitStage::Settling.next(event, settling_millis)
            == WaitStage::Over,
        WaitStage::Settling.next(event, settling_millis) != WaitStage::Waiting,
{
}

/// An event affects USB devices exactly if it is about the `usb` subsystem, and about a device
/// rather than one of its interfaces.
pub proof fn law_device_events_matter(e: UeventView)
    ensures
        e.affects_devices() <==> {
            &&& e.vars.contains_key("SUBSYSTEM"@) && e.vars["SUBSYSTEM"@] == "usb"@
            &&& e.vars.contains_key("DEVTYPE"@) ==> e.vars["DEVTYPE"@] == "usb_device"@
        },
{
}

/// A wait goes on until an event that affects USB devices comes, or receiving fails and events may
/// have been missed: then the burst settles. It is over when nothing comes any more, or the burst
/// has gone on for two seconds.
pub proof fn law_waits_end_after_the_burst(event: WaitEvent, settling_millis: int)
    ensures
        ({
            let first = WaitStage::Waiting.next(event, settling_millis);
            let later = WaitStage::Settling.next(event, settling_millis);
            &&& event matches WaitEvent::Received { affects_usb } ==> first == if affects_usb {
                WaitStage::Settling
            } else {
                WaitStage::Waiting
            }
            &&& event is Failed ==> first == WaitStage::Settling
            &&& event is Silent ==> first == WaitStage::Over
            &&& later == WaitStage::Settling <==> event is Received && settling_millis < 2000
            &&& later != WaitStage::Settling ==> later == WaitStage::Over
        }),
{
}

/// A variable of an event is the last field that is UTF-8 and has its name before the first `=`;
/// other fields are skipped.
pub proof fn law_other_fields_are_skipped(
    fields: Seq<Seq<u8>>,
    field: Seq<u8>,
    name: Seq<char>,
    value: Seq<char>,
)
    ensures
        !valid_utf8(field) ==> vars_of(fields.push(field)) == vars_of(fields),
        valid_utf8(field) && !decode_utf8(field).contains('=') ==> vars_of(fields.push(field))
            == vars_of(fields),
        valid_utf8(field) && decode_utf8(field) == name.push('=') + value && !name.contains('=')
            ==> vars_of(fields.push(field)) == vars_of(fields).insert(name, value),
{
    assert(fields.push(field).drop_last() =~= fields);
    if valid_utf8(field) {
        let text = decode_utf8(field);
        crate::text::lemma_first_index(text, '=');
        if text == name.push('=') + value && !name.contains('=') {
            assert(text[name.len() as int] == '=');
            let i = crate::text::first_index(text, '=');
            if i < name.len() {
                assert(text[i] == name[i]);
            }
            assert(i == name.len());
            assert(text.take(i) =~= name);
            assert(text.skip(i + 1) =~= value);
        }
    }
}

/// A datagram whose first field has no `@`, or is not UTF-8, is no event; nor is an empty one.
pub proof fn law_other_datagrams_are_no_events(buf: Seq<u8>)
    ensures
        ({
            let fields = fields_from(buf, 0);
            fields.len() == 0 || !valid_utf8(fields[0]) || !decode_utf8(fields[0]).contains('@')
                ==> event_of(buf) is None
        }),
        event_of(Seq::empty()) is None,
{
    let fields = fields_from(buf, 0);
    if fields.len() > 0 && valid_utf8(fields[0]) {
        crate::text::lemma_first_index(decode_utf8(fields[0]), '@');
    }
}

} // verus!

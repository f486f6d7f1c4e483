//! What holds of the names of all devices.

use vstd::prelude::*;

use super::assign::{
    ambiguous_in_cluster, ambiguous_locally, assigned, choice, decided, holder_of, instance_of,
    kept, loses_tie, tier_decision, AssignContext, AssignmentView, DecisionView, Decisions,
    InstanceKeyView, KnownDevice,
};
use super::fingerprint::{
    dashed, fingerprint_of, is_hex_char, joined_name, Fingerprint, IdentitySource,
};
use super::slug::{
    all_hex, collapsed, cut, is_alphanumeric, is_slug_char, label_char, label_of, lower_char,
    normalized_id, slug, slug_char, without_hex_prefix, MAX_LABEL_LEN, MAX_SLUG_LEN,
};
use crate::digest::hex_text;
use crate::sysfs::UsbDeviceInfo;
use crate::text::{
    digit_char, digit_value, is_white, lemma_text_lt_total, trim_end, trim_start, trimmed,
};

verus! {

/// Whether every character is a lower case letter, a digit or `-`.
pub open spec fn slug_chars(s: Seq<char>) -> bool {
    forall|i: int| 0 <= i < s.len() ==> is_slug_char(#[trigger] s[i]) || s[i] == '-'
}

/// Whether a text can name a Kubernetes object: lower case letters, digits and `-`, no `-` at
/// either end, at most 253 characters.
pub open spec fn valid_name(s: Seq<char>) -> bool {
    &&& 0 < s.len() <= 253
    &&& slug_chars(s)
    &&& s[0] != '-'
    &&& s.last() != '-'
}

/// Trimming keeps a start of the text, and leaves nothing at its end that is to be dropped.
proof fn lemma_trim_end(s: Seq<char>, drop: spec_fn(char) -> bool)
    ensures
        trim_end(s, drop).is_prefix_of(s),
        trim_end(s, drop).len() > 0 ==> !drop(trim_end(s, drop).last()),
    decreases s.len(),
{
    if s.len() > 0 && drop(s.last()) {
        lemma_trim_end(s.drop_last(), drop);
    }
}

/// Trimming keeps an end of the text, and leaves nothing at its start that is to be dropped.
proof fn lemma_trim_start(s: Seq<char>, drop: spec_fn(char) -> bool)
    ensures
        trim_start(s, drop).is_suffix_of(s),
        trim_start(s, drop).len() > 0 ==> !drop(trim_start(s, drop)[0]),
    decreases s.len(),
{
    if s.len() > 0 && drop(s[0]) {
        lemma_trim_start(s.drop_first(), drop);
        let t = trim_start(s, drop);
        let r = s.drop_first();
        assert(t =~= r.subrange(r.len() - t.len(), r.len() as int));
        assert(t =~= s.subrange(s.len() - t.len(), s.len() as int));
    } else {
        assert(s =~= s.subrange(0, s.len() as int));
    }
}

/// The slug characters of a text are slug characters, do not start with `-`, and have no two in a
/// row.
proof fn lemma_collapsed(s: Seq<char>)
    ensures
        slug_chars(collapsed(s)),
        single_dashes(collapsed(s)),
        collapsed(s).len() > 0 ==> collapsed(s)[0] != '-',
    decreases s.len(),
{
    if s.len() > 0 {
        lemma_collapsed(s.drop_last());
        let n = s.last() as u32;
        assert(is_slug_char(slug_char(s.last())) || slug_char(s.last()) == '-');
    }
}

/// Whether a text has no two `-` in a row.
pub open spec fn single_dashes(s: Seq<char>) -> bool {
    forall|i: int, j: int|
        0 <= i && j == i + 1 && j < s.len() && (#[trigger] s[i]) == '-' ==> (#[trigger] s[j]) != '-'
}

/// The shape of a slug: at most 40 characters, each a lower case letter, a digit or `-`, no `-` at
/// either end and no two in a row.
pub open spec fn slug_shape(s: Seq<char>) -> bool {
    &&& s.len() <= MAX_SLUG_LEN
    &&& slug_chars(s)
    &&& single_dashes(s)
    &&& s.len() > 0 ==> s[0] != '-' && s.last() != '-'
}

/// A text of slug characters without a `-` at its start or two in a row is as it is.
pub proof fn lemma_collapsed_as_is(s: Seq<char>)
    requires
        slug_chars(s),
        single_dashes(s),
        s.len() > 0 ==> s[0] != '-',
    ensures
        collapsed(s) == s,
    decreases s.len(),
{
    if s.len() > 0 {
        let rest = s.drop_last();
        assert forall|i: int| 0 <= i < rest.len() implies is_slug_char(#[trigger] rest[i])
            || rest[i] == '-' by {
            assert(s[i] == rest[i]);
        }
        assert forall|i: int, j: int|
            0 <= i && j == i + 1 && j < rest.len() && (#[trigger] rest[i]) == '-' implies (
        #[trigger] rest[j]) != '-' by {
            assert(s[i] == rest[i] && s[j] == rest[j]);
        }
        lemma_collapsed_as_is(rest);
        let c = s[s.len() - 1];
        assert(is_slug_char(c) || c == '-');
        assert(slug_char(c) == c);
        if rest.len() > 0 {
            assert(rest.last() == s[s.len() - 2]);
        }
        assert(rest.push(c) =~= s);
    }
}

/// A slug has the shape of a slug: at most 40 characters, each a lower case letter, a digit or `-`,
/// no `-` at either end and no two in a row.
pub proof fn law_slug_is_readable(s: Seq<char>)
    ensures
        slug_shape(slug(s)),
{
    lemma_collapsed(s);
    let full = cut(collapsed(s), MAX_SLUG_LEN as int);
    let dash = |c: char| c == '-';
    lemma_trim_end(full, dash);
    let r = trim_end(full, dash);
    assert forall|i: int| 0 <= i < r.len() implies is_slug_char(#[trigger] r[i]) || r[i]
        == '-' by {
        assert(r[i] == full[i]);
        assert(full[i] == collapsed(s)[i]);
    }
    if r.len() > 0 {
        assert(r[0] == full[0]);
        assert(full[0] == collapsed(s)[0]);
    }
    assert forall|i: int, j: int|
        0 <= i && j == i + 1 && j < r.len() && (#[trigger] r[i]) == '-' implies (#[trigger] r[j])
        != '-' by {
        assert(r[i] == full[i] && r[j] == full[j]);
        assert(full[i] == collapsed(s)[i] && full[j] == collapsed(s)[j]);
    }
}

/// A text that has the shape of a slug is its own slug; so is every slug.
pub proof fn law_slugs_are_kept(s: Seq<char>)
    ensures
        slug_shape(s) ==> slug(s) == s,
        slug(slug(s)) == slug(s),
{
    law_slug_is_readable(s);
    if slug_shape(s) {
        lemma_collapsed_as_is(s);
    }
    lemma_collapsed_as_is(slug(s));
}

/// Joining texts of slug characters gives slug characters.
proof fn lemma_slug_chars_join(a: Seq<char>, b: Seq<char>)
    requires
        slug_chars(a),
        slug_chars(b),
    ensures
        slug_chars(a + b),
{
    let s = a + b;
    assert forall|i: int| 0 <= i < s.len() implies is_slug_char(#[trigger] s[i]) || s[i]
        == '-' by {
        if i < a.len() {
            assert(s[i] == a[i]);
        } else {
            assert(s[i] == b[i - a.len()]);
        }
    }
}

/// The start of every name is made of slug characters.
proof fn lemma_prefix(fp: Fingerprint)
    ensures
        slug_chars(fp.prefix()),
        4 <= fp.prefix().len() <= 85,
        fp.prefix()[0] == 'u',
{
    reveal_strlit("usb-");
    reveal_strlit("-");
    law_slug_is_readable(fp.vendor_id@);
    law_slug_is_readable(fp.product_id@);
    assert(slug_chars("usb-"@));
    assert(slug_chars("-"@));
    lemma_slug_chars_join("usb-"@, slug(fp.vendor_id@));
    lemma_slug_chars_join("usb-"@ + slug(fp.vendor_id@), "-"@);
    lemma_slug_chars_join("usb-"@ + slug(fp.vendor_id@) + "-"@, slug(fp.product_id@));
}

/// Hexadecimal text is made of lower case hexadecimal digits.
pub proof fn lemma_hex_chars(data: Seq<u8>)
    ensures
        forall|i: int| 0 <= i < hex_text(data).len() ==> is_hex_char(#[trigger] hex_text(data)[i]),
{
    assert forall|i: int| 0 <= i < hex_text(data).len() implies is_hex_char(
        #[trigger] hex_text(data)[i],
    ) by {
        let b = data[i / 2];
        assert(is_hex_char(digit_char((b / 16) as nat)));
        assert(is_hex_char(digit_char((b % 16) as nat)));
    }
}

/// The dashed parts of a name are made of slug characters.
proof fn lemma_dashed(parts: Seq<Seq<char>>)
    requires
        forall|i: int|
            0 <= i < parts.len() ==> slug_chars(#[trigger] parts[i]) && parts[i].len()
                <= MAX_SLUG_LEN,
    ensures
        slug_chars(dashed(parts)),
        dashed(parts).len() <= 41 * parts.len(),
    decreases parts.len(),
{
    reveal_strlit("-");
    if parts.len() > 0 {
        let rest = parts.drop_last();
        lemma_dashed(rest);
        assert(slug_chars("-"@));
        lemma_slug_chars_join(dashed(rest), "-"@);
        lemma_slug_chars_join(dashed(rest) + "-"@, parts.last());
    }
}

/// A name made of the start of a device's names, at most two slugs and a hash can name an object.
pub proof fn lemma_joined_name_valid(fp: Fingerprint, texts: Seq<Seq<char>>, hash: Seq<char>)
    requires
        texts.len() <= 2,
        0 < hash.len() <= 16,
        forall|i: int| 0 <= i < hash.len() ==> is_hex_char(#[trigger] hash[i]),
    ensures
        valid_name(joined_name(fp.prefix(), texts.map_values(|t: Seq<char>| slug(t)), hash)),
{
    reveal_strlit("-");
    let parts = texts.map_values(|t: Seq<char>| slug(t));
    assert forall|i: int| 0 <= i < parts.len() implies slug_chars(#[trigger] parts[i])
        && parts[i].len() <= MAX_SLUG_LEN by {
        law_slug_is_readable(texts[i]);
    }
    lemma_prefix(fp);
    lemma_dashed(parts);
    lemma_slug_chars_join(fp.prefix(), dashed(parts));
    assert(slug_chars("-"@));
    lemma_slug_chars_join(fp.prefix() + dashed(parts), "-"@);
    lemma_slug_chars_join(fp.prefix() + dashed(parts) + "-"@, hash);
    let name = joined_name(fp.prefix(), parts, hash);
    assert(name.last() == hash.last());
    assert(is_hex_char(hash[hash.len() - 1]));
    assert(name[0] == fp.prefix()[0]);
}

/// A name that ends with a slug as it is can name an object.
pub proof fn lemma_plain_name_valid(fp: Fingerprint, text: Seq<char>)
    requires
        slug(text).len() > 0,
    ensures
        valid_name(fp.prefix() + "-"@ + slug(text)),
{
    reveal_strlit("-");
    lemma_prefix(fp);
    law_slug_is_readable(text);
    assert(slug_chars("-"@));
    lemma_slug_chars_join(fp.prefix(), "-"@);
    lemma_slug_chars_join(fp.prefix() + "-"@, slug(text));
    let name = fp.prefix() + "-"@ + slug(text);
    assert(name.last() == slug(text).last());
    assert(name[0] == fp.prefix()[0]);
}

/// Whether `key` is the instance of one of the devices before index `n`.
spec fn is_local(local: Seq<UsbDeviceInfo>, n: int, key: InstanceKeyView) -> bool {
    exists|i: int| 0 <= i < n && #[trigger] instance_of(local[i])@ == key
}

/// The names kept are those of local devices.
proof fn lemma_kept_dom(
    ctx: AssignContext<'_>,
    local: Seq<UsbDeviceInfo>,
    n: int,
    key: InstanceKeyView,
)
    requires
        0 <= n <= local.len(),
        kept(ctx, local, n).decisions.contains_key(key),
    ensures
        is_local(local, local.len() as int, key),
    decreases n,
{
    if n > 0 {
        if instance_of(local[n - 1])@ != key {
            lemma_kept_dom(ctx, local, n - 1, key);
        }
    }
}

/// Decisions are about local devices, and the decided devices so far have one.
proof fn lemma_decided_dom(
    ctx: AssignContext<'_>,
    local: Seq<UsbDeviceInfo>,
    n: int,
    key: InstanceKeyView,
)
    requires
        0 <= n <= local.len(),
    ensures
        decided(ctx, local, n).decisions.contains_key(key) ==> is_local(
            local,
            local.len() as int,
            key,
        ),
        is_local(local, n, key) ==> decided(ctx, local, n).decisions.contains_key(key),
    decreases n,
{
    if n > 0 {
        lemma_decided_dom(ctx, local, n - 1, key);
        let last = instance_of(local[n - 1])@;
        if last != key && is_local(local, n, key) {
            assert(is_local(local, n - 1, key));
        }
    } else if kept(ctx, local, local.len() as int).decisions.contains_key(key) {
        lemma_kept_dom(ctx, local, local.len() as int, key);
    }
}

/// Every device that is plugged in gets a decision, and no other device does.
pub proof fn law_every_device_is_decided(
    ctx: AssignContext<'_>,
    local: Seq<UsbDeviceInfo>,
    key: InstanceKeyView,
)
    ensures
        assigned(ctx, local).contains_key(key) <==> exists|i: int|
            0 <= i < local.len() && #[trigger] instance_of(local[i])@ == key,
{
    lemma_decided_dom(ctx, local, local.len() as int, key);
    assert(is_local(local, local.len() as int, key) <==> exists|i: int|
        0 <= i < local.len() && #[trigger] instance_of(local[i])@ == key);
}

/// Decisions made do not change later.
pub proof fn lemma_decided_stays(
    ctx: AssignContext<'_>,
    local: Seq<UsbDeviceInfo>,
    n: int,
    m: int,
    key: InstanceKeyView,
)
    requires
        0 <= n <= m,
        decided(ctx, local, n).decisions.contains_key(key),
    ensures
        decided(ctx, local, m).decisions.contains_key(key),
        decided(ctx, local, m).decisions[key] == decided(ctx, local, n).decisions[key],
    decreases m,
{
    if n < m {
        lemma_decided_stays(ctx, local, n, m - 1, key);
    }
}

/// Whether an instance has an earlier name that no other instance has that is plugged in.
pub open spec fn has_own_name(
    ctx: AssignContext<'_>,
    local: Seq<UsbDeviceInfo>,
    key: InstanceKeyView,
) -> bool {
    &&& ctx.sticky@.contains_key(key)
    &&& forall|i: int|
        0 <= i < local.len() && ctx.sticky@.contains_key(#[trigger] instance_of(local[i])@)
            && ctx.sticky@[instance_of(local[i])@].name@ == ctx.sticky@[key].name@
            ==> instance_of(local[i])@ == key
}

/// An earlier name that no other instance has that is plugged in is kept by its instance, if at
/// all; and it is kept if the instance is there and loses no tie.
proof fn lemma_own_name_kept(
    ctx: AssignContext<'_>,
    local: Seq<UsbDeviceInfo>,
    n: int,
    key: InstanceKeyView,
)
    requires
        has_own_name(ctx, local, key),
        0 <= n <= local.len(),
    ensures
        kept(ctx, local, n).decisions.contains_key(key) ==> kept(ctx, local, n).decisions[key]
            == DecisionView::Assigned(ctx.sticky@[key]@),
        kept(ctx, local, n).taken.contains(ctx.sticky@[key].name@) ==> kept(
            ctx,
            local,
            n,
        ).decisions.contains_key(key),
        is_local(local, n, key) && !loses_tie(ctx.known@, ctx.node@, ctx.sticky@[key].name@)
            ==> kept(ctx, local, n).decisions.contains_key(key),
    decreases n,
{
    if n > 0 {
        lemma_own_name_kept(ctx, local, n - 1, key);
        let k = instance_of(local[n - 1])@;
        if k != key && is_local(local, n, key) {
            assert(is_local(local, n - 1, key));
        }
        if ctx.sticky@.contains_key(k) && ctx.sticky@[k].name@ == ctx.sticky@[key].name@ {
            assert(k == key);
        }
    }
}

/// A device that stays plugged in keeps its name, whatever else is plugged in or known, unless a
/// node with a smaller name holds the same name, or another device that is plugged in has it too.
pub proof fn law_assignment_is_sticky(
    ctx: AssignContext<'_>,
    local: Seq<UsbDeviceInfo>,
    i: int,
)
    requires
        0 <= i < local.len(),
        has_own_name(ctx, local, instance_of(local[i])@),
        !loses_tie(ctx.known@, ctx.node@, ctx.sticky@[instance_of(local[i])@].name@),
    ensures
        assigned(ctx, local).contains_key(instance_of(local[i])@),
        assigned(ctx, local)[instance_of(local[i])@] == DecisionView::Assigned(
            ctx.sticky@[instance_of(local[i])@]@,
        ),
{
    let n = local.len() as int;
    let key = instance_of(local[i])@;
    lemma_own_name_kept(ctx, local, n, key);
    assert(is_local(local, n, key));
    lemma_decided_stays(ctx, local, 0, n, key);
}

/// Of two nodes that hold the same name, exactly one yields it.
pub proof fn law_one_of_two_nodes_yields(
    known_a: Seq<KnownDevice>,
    node_a: Seq<char>,
    known_b: Seq<KnownDevice>,
    node_b: Seq<char>,
    name: Seq<char>,
)
    requires
        node_a != node_b,
        holder_of(known_a, name) == Some(node_b),
        holder_of(known_b, name) == Some(node_a),
    ensures
        loses_tie(known_a, node_a, name) <==> !loses_tie(known_b, node_b, name),
{
    lemma_text_lt_total(node_a, node_b);
}

/// Whether a decision assigns a name of a portable tier.
pub open spec fn is_portable(d: DecisionView) -> bool {
    d matches DecisionView::Assigned(a) && a.source != IdentitySource::PortPath
}

/// The names in use, and how they are told apart.
spec fn told_apart(p: super::assign::Progress) -> bool {
    &&& forall|k: InstanceKeyView| #[trigger]
        p.decisions.contains_key(k) ==> (p.decisions[k] matches DecisionView::Assigned(a)
            ==> p.taken.contains(a.name))
    &&& forall|j: InstanceKeyView, k: InstanceKeyView|
        #![trigger p.decisions.contains_key(j), p.decisions.contains_key(k)]
        p.decisions.contains_key(j) && p.decisions.contains_key(k) && j != k && is_portable(
            p.decisions[j],
        ) && is_portable(p.decisions[k]) ==> p.decisions[j]->0.name != p.decisions[k]->0.name
}

/// The names kept are told apart.
proof fn lemma_kept_told_apart(ctx: AssignContext<'_>, local: Seq<UsbDeviceInfo>, n: int)
    ensures
        told_apart(kept(ctx, local, n)),
    decreases n,
{
    if n > 0 {
        lemma_kept_told_apart(ctx, local, n - 1);
        let p = kept(ctx, local, n - 1);
        let q = kept(ctx, local, n);
        let key = instance_of(local[n - 1])@;
        assert forall|j: InstanceKeyView, k: InstanceKeyView|
            #![trigger q.decisions.contains_key(j), q.decisions.contains_key(k)]
            q.decisions.contains_key(j) && q.decisions.contains_key(k) && j != k && is_portable(
                q.decisions[j],
            ) && is_portable(q.decisions[k]) implies q.decisions[j]->0.name
            != q.decisions[k]->0.name by {
            assert(j != key ==> p.decisions.contains_key(j));
            assert(k != key ==> p.decisions.contains_key(k));
        }
    }
}

/// The names decided are told apart.
proof fn lemma_decided_told_apart(ctx: AssignContext<'_>, local: Seq<UsbDeviceInfo>, n: int)
    ensures
        told_apart(decided(ctx, local, n)),
    decreases n,
{
    if n > 0 {
        lemma_decided_told_apart(ctx, local, n - 1);
        let p = decided(ctx, local, n - 1);
        let q = decided(ctx, local, n);
        let key = instance_of(local[n - 1])@;
        if !p.decisions.contains_key(key) {
            let d = choice(ctx, local, p.taken, key, fingerprint_of(local[n - 1]));
            assert(is_portable(d) ==> !p.taken.contains(d->0.name));
            assert forall|j: InstanceKeyView, k: InstanceKeyView|
                #![trigger q.decisions.contains_key(j), q.decisions.contains_key(k)]
                q.decisions.contains_key(j) && q.decisions.contains_key(k) && j != k
                    && is_portable(q.decisions[j]) && is_portable(
                    q.decisions[k],
                ) implies q.decisions[j]->0.name != q.decisions[k]->0.name by {
                assert(j != key ==> p.decisions.contains_key(j));
                assert(k != key ==> p.decisions.contains_key(k));
            }
        }
    } else {
        lemma_kept_told_apart(ctx, local, local.len() as int);
    }
}

/// Two devices of a node never share a portable name.
pub proof fn law_portable_names_are_unique(
    ctx: AssignContext<'_>,
    local: Seq<UsbDeviceInfo>,
    a: InstanceKeyView,
    b: InstanceKeyView,
)
    requires
        a != b,
        assigned(ctx, local).contains_key(a),
        assigned(ctx, local).contains_key(b),
        is_portable(assigned(ctx, local)[a]),
        is_portable(assigned(ctx, local)[b]),
    ensures
        assigned(ctx, local)[a]->0.name != assigned(ctx, local)[b]->0.name,
{
    lemma_decided_told_apart(ctx, local, local.len() as int);
}

/// A new portable assignment has the device's name in its tier.
proof fn lemma_decided_unambiguous(
    ctx: AssignContext<'_>,
    local: Seq<UsbDeviceInfo>,
    n: int,
    key: InstanceKeyView,
) -> (i: int)
    requires
        0 <= n <= local.len(),
        decided(ctx, local, n).decisions.contains_key(key),
        !ctx.sticky@.contains_key(key),
        is_portable(decided(ctx, local, n).decisions[key]),
    ensures
        0 <= i < local.len(),
        instance_of(local[i])@ == key,
        ({
            let a = decided(ctx, local, n).decisions[key]->0;
            let fp = fingerprint_of(local[i]);
            &&& fp.name_in(a.source) == Some(a.name)
            &&& !ambiguous_locally(local, key, fp, a.source)
            &&& !ambiguous_in_cluster(ctx.known@, a.name, fp, a.source)
        }),
    decreases n,
{
    if n == 0 {
        lemma_not_kept(ctx, local, local.len() as int, key);
        0
    } else if decided(ctx, local, n - 1).decisions.contains_key(key) {
        lemma_decided_unambiguous(ctx, local, n - 1, key)
    } else {
        n - 1
    }
}

/// A device without an earlier name keeps none.
proof fn lemma_not_kept(
    ctx: AssignContext<'_>,
    local: Seq<UsbDeviceInfo>,
    n: int,
    key: InstanceKeyView,
)
    requires
        !ctx.sticky@.contains_key(key),
    ensures
        !kept(ctx, local, n).decisions.contains_key(key),
    decreases n,
{
    if n > 0 {
        lemma_not_kept(ctx, local, n - 1, key);
    }
}

/// A newly plugged-in device never gets a name of a portable tier whose attributes it shares with
/// another device of the node, or with a device that is known under another name.
pub proof fn law_lookalikes_are_never_confused(
    ctx: AssignContext<'_>,
    local: Seq<UsbDeviceInfo>,
    key: InstanceKeyView,
)
    requires
        assigned(ctx, local).contains_key(key),
        !ctx.sticky@.contains_key(key),
        is_portable(assigned(ctx, local)[key]),
    ensures
        exists|i: int|
            0 <= i < local.len() && (#[trigger] instance_of(local[i])@) == key && {
                let a = assigned(ctx, local)[key]->0;
                let fp = fingerprint_of(local[i]);
                &&& fp.name_in(a.source) == Some(a.name)
                &&& !ambiguous_locally(local, key, fp, a.source)
                &&& !ambiguous_in_cluster(ctx.known@, a.name, fp, a.source)
            },
{
    let i = lemma_decided_unambiguous(ctx, local, local.len() as int, key);
    assert(instance_of(local[i])@ == key);
}

/// Fingerprints with the same texts have the same attributes and names in every tier.
proof fn lemma_same_fingerprint(a: Fingerprint, b: Fingerprint, tier: IdentitySource)
    requires
        a.same_as(b),
    ensures
        a.key_of(tier) == b.key_of(tier),
        a.name_in(tier) == b.name_in(tier),
{
    assert(a.serial.deep_view() == b.serial.deep_view());
    assert(a.serial_text() == b.serial_text());
    assert(a.descriptor() =~= b.descriptor());
    assert(a.ids() =~= b.ids());
    assert(a.key_of(tier) == b.key_of(tier));
    assert(a.product.deep_view() == b.product.deep_view());
    assert(a.manufacturer.deep_view() == b.manufacturer.deep_view());
    assert(a.label() == b.label());
}

/// Whether an instance is assigned a name.
pub open spec fn has_name(
    decisions: Decisions,
    key: InstanceKeyView,
    name: Seq<char>,
) -> bool {
    decisions.contains_key(key) && (decisions[key] matches DecisionView::Assigned(a) && a.name
        == name)
}

/// A name that is kept is that of an instance.
proof fn lemma_kept_taken(
    ctx: AssignContext<'_>,
    local: Seq<UsbDeviceInfo>,
    n: int,
    name: Seq<char>,
) -> (key: InstanceKeyView)
    requires
        kept(ctx, local, n).taken.contains(name),
    ensures
        has_name(kept(ctx, local, n).decisions, key, name),
    decreases n,
{
    let p = kept(ctx, local, n - 1);
    let last = instance_of(local[n - 1])@;
    if p.taken.contains(name) {
        let k = lemma_kept_taken(ctx, local, n - 1, name);
        if k == last {
            lemma_kept_from_sticky(ctx, local, n - 1, k);
        }
        k
    } else {
        last
    }
}

/// What is kept are earlier assignments.
proof fn lemma_kept_from_sticky(
    ctx: AssignContext<'_>,
    local: Seq<UsbDeviceInfo>,
    n: int,
    key: InstanceKeyView,
)
    requires
        kept(ctx, local, n).decisions.contains_key(key),
    ensures
        ctx.sticky@.contains_key(key),
        kept(ctx, local, n).decisions[key] == DecisionView::Assigned(ctx.sticky@[key]@),
    decreases n,
{
    if n > 0 && instance_of(local[n - 1])@ != key {
        lemma_kept_from_sticky(ctx, local, n - 1, key);
    } else if n > 0 && kept(ctx, local, n - 1).decisions.contains_key(key) {
        lemma_kept_from_sticky(ctx, local, n - 1, key);
    }
}

/// A name that is taken is that of an instance.
pub proof fn lemma_decided_taken(
    ctx: AssignContext<'_>,
    local: Seq<UsbDeviceInfo>,
    n: int,
    name: Seq<char>,
) -> (key: InstanceKeyView)
    requires
        decided(ctx, local, n).taken.contains(name),
    ensures
        has_name(decided(ctx, local, n).decisions, key, name),
    decreases n,
{
    if n <= 0 {
        lemma_kept_taken(ctx, local, local.len() as int, name)
    } else if decided(ctx, local, n - 1).taken.contains(name) {
        lemma_decided_taken(ctx, local, n - 1, name)
    } else {
        instance_of(local[n - 1])@
    }
}

/// A device that the cluster knows under a name of a portable tier gets that name wherever it is
/// plugged in, whatever else is: as long as no other device shares the attributes that the name
/// is made of, no other node holds the name, and no other device of the node has it.
pub proof fn law_identity_follows_the_device(
    ctx: AssignContext<'_>,
    local: Seq<UsbDeviceInfo>,
    i: int,
    own: int,
    tier: IdentitySource,
)
    requires
        0 <= i < local.len(),
        forall|j: int| 0 <= j < i ==> (#[trigger] instance_of(local[j])@) != instance_of(local[i])@,
        !ctx.sticky@.contains_key(instance_of(local[i])@),
        0 <= own < ctx.known@.len(),
        ctx.known@[own].fingerprint.same_as(fingerprint_of(local[i])),
        fingerprint_of(local[i]).name_in(tier) == Some(ctx.known@[own].name@),
        !ambiguous_locally(
            local,
            instance_of(local[i])@,
            fingerprint_of(local[i]),
            tier,
        ),
        !ambiguous_in_cluster(
            ctx.known@,
            ctx.known@[own].name@,
            fingerprint_of(local[i]),
            tier,
        ),
        holder_of(ctx.known@, ctx.known@[own].name@) matches Some(node) ==> node == ctx.node@,
        forall|k: InstanceKeyView|
            k != instance_of(local[i])@ ==> !#[trigger] has_name(
                assigned(ctx, local),
                k,
                ctx.known@[own].name@,
            ),
    ensures
        has_name(assigned(ctx, local), instance_of(local[i])@, ctx.known@[own].name@),
        is_portable(assigned(ctx, local)[instance_of(local[i])@]),
{
    let key = instance_of(local[i])@;
    let fp = fingerprint_of(local[i]);
    let device = ctx.known@[own];
    let name = device.name@;
    let n = local.len() as int;
    let p = decided(ctx, local, i);
    // Nothing was decided about the device before it is its turn.
    if p.decisions.contains_key(key) {
        lemma_undecided(ctx, local, i, key);
    }
    // Nobody has its name by then.
    if p.taken.contains(name) {
        let k = lemma_decided_taken(ctx, local, i, name);
        lemma_decided_stays(ctx, local, i, n, k);
        assert(has_name(assigned(ctx, local), k, name));
    }
    // A tier in which the device has another name is ambiguous: the object of the device itself
    // shares its attributes.
    assert forall|t: IdentitySource| (#[trigger] fp.name_in(t)) matches Some(other) && other
        != name implies tier_decision(ctx, local, p.taken, key, fp, t) is None by {
        let other = fp.name_in(t).unwrap();
        lemma_same_fingerprint(device.fingerprint, fp, t);
        assert(ctx.known@[own].name@ != other);
        assert(ambiguous_in_cluster(ctx.known@, other, fp, t));
    }
    let d = choice(ctx, local, p.taken, key, fp);
    assert(tier_decision(ctx, local, p.taken, key, fp, tier) == Some(
        DecisionView::Assigned(AssignmentView { name, source: tier }),
    ));
    assert(decided(ctx, local, i + 1).decisions[key] == d);
    lemma_decided_stays(ctx, local, i + 1, n, key);
}

/// A device without an earlier name is undecided until it is its turn.
pub proof fn lemma_undecided(
    ctx: AssignContext<'_>,
    local: Seq<UsbDeviceInfo>,
    n: int,
    key: InstanceKeyView,
)
    requires
        0 <= n <= local.len(),
        !ctx.sticky@.contains_key(key),
        forall|j: int| 0 <= j < n ==> (#[trigger] instance_of(local[j])@) != key,
    ensures
        !decided(ctx, local, n).decisions.contains_key(key),
    decreases n,
{
    if n > 0 {
        lemma_undecided(ctx, local, n - 1, key);
        assert(instance_of(local[n - 1])@ != key);
    } else {
        lemma_not_kept(ctx, local, local.len() as int, key);
    }
}

/// Two devices of one model whose serial numbers have the same slug, one of them being that slug,
/// have different names; so do two whose serial numbers are different slugs.
pub proof fn law_lossy_serials_do_not_collide(a: Fingerprint, b: Fingerprint)
    requires
        a.vendor_id@ == b.vendor_id@,
        a.product_id@ == b.product_id@,
        a.serial_text() is Some,
        b.serial_text() is Some,
        a.serial_text() != b.serial_text(),
        slug(a.serial_text().unwrap()) == a.serial_text().unwrap(),
        slug(b.serial_text().unwrap()) == b.serial_text().unwrap() || slug(
            b.serial_text().unwrap(),
        ) == a.serial_text().unwrap(),
    ensures
        a.name_in(IdentitySource::Serial) is Some,
        b.name_in(IdentitySource::Serial) is Some,
        a.name_in(IdentitySource::Serial) != b.name_in(IdentitySource::Serial),
{
    reveal_strlit("-");
    let s = a.serial_text().unwrap();
    let t = b.serial_text().unwrap();
    lemma_blank(s, a);
    lemma_blank(t, b);
    let p = a.prefix() + "-"@;
    assert(a.prefix() == b.prefix());
    assert(a.name_in(IdentitySource::Serial) == Some(p + s));
    if slug(t) == t {
        let m = p + s;
        let n = p + t;
        if m == n {
            assert(m.skip(p.len() as int) =~= s);
            assert(n.skip(p.len() as int) =~= t);
        }
    } else {
        let parts = seq![s];
        assert(parts.drop_last() =~= Seq::<Seq<char>>::empty());
        assert(dashed(Seq::<Seq<char>>::empty()) =~= Seq::<char>::empty());
        assert(dashed(parts) =~= "-"@ + s);
        assert(b.name_in(IdentitySource::Serial).unwrap().len() > (p + s).len());
    }
}

/// A serial number that counts is not empty.
proof fn lemma_blank(s: Seq<char>, fp: Fingerprint)
    requires
        fp.serial_text() == Some(s),
    ensures
        s.len() > 0,
{
    let white = |c: char| is_white(c);
    if s.len() == 0 {
        assert(trim_start(s, white) == s);
        assert(trim_end(s, white) == s);
    }
}

/// Two ports of a node whose slugs differ give a device different names, for hashes of one length.
pub proof fn law_ports_are_told_apart(
    fp: Fingerprint,
    node: Seq<char>,
    port_a: Seq<char>,
    port_b: Seq<char>,
    hash_a: Seq<char>,
    hash_b: Seq<char>,
)
    requires
        slug(port_a) != slug(port_b),
        hash_a.len() == hash_b.len(),
    ensures
        joined_name(fp.prefix(), seq![slug(node), slug(port_a)], hash_a) != joined_name(
            fp.prefix(),
            seq![slug(node), slug(port_b)],
            hash_b,
        ),
{
    reveal_strlit("-");
    let pa = seq![slug(node), slug(port_a)];
    let pb = seq![slug(node), slug(port_b)];
    assert(pa.drop_last() =~= seq![slug(node)]);
    assert(pb.drop_last() =~= seq![slug(node)]);
    let head = fp.prefix() + dashed(seq![slug(node)]);
    let ma = joined_name(fp.prefix(), pa, hash_a);
    let mb = joined_name(fp.prefix(), pb, hash_b);
    let ta = dashed(pa).skip(dashed(seq![slug(node)]).len() as int);
    let tb = dashed(pb).skip(dashed(seq![slug(node)]).len() as int);
    assert(ta =~= if slug(port_a).len() == 0 {
        Seq::<char>::empty()
    } else {
        "-"@ + slug(port_a)
    });
    assert(tb =~= if slug(port_b).len() == 0 {
        Seq::<char>::empty()
    } else {
        "-"@ + slug(port_b)
    });
    if ma == mb {
        let from = head.len() as int;
        let to = ma.len() - hash_a.len() - 1;
        assert(ma.subrange(from, to) =~= ta);
        assert(mb.subrange(from, to) =~= tb);
        if slug(port_a).len() > 0 && slug(port_b).len() > 0 {
            assert(ta.skip(1) =~= slug(port_a));
            assert(tb.skip(1) =~= slug(port_b));
        } else {
            assert(slug(port_a) =~= slug(port_b));
        }
    }
}

/// The shape of a label value: one to 63 characters, each a letter, a digit, `-`, `_` or `.`, the
/// first and the last a letter or digit.
pub open spec fn label_shape(v: Seq<char>) -> bool {
    &&& 0 < v.len() <= MAX_LABEL_LEN
    &&& is_alphanumeric(v[0])
    &&& is_alphanumeric(v.last())
    &&& forall|i: int|
        0 <= i < v.len() ==> is_alphanumeric(#[trigger] v[i]) || v[i] == '-' || v[i] == '_' || v[i]
            == '.'
}

/// A label value has the shape of one, and there is none exactly when none of the first 63
/// characters of the text is a letter or digit.
pub proof fn law_label_value_is_valid(s: Seq<char>)
    ensures
        label_of(s) matches Some(v) ==> label_shape(v),
        label_of(s) is None <==> forall|i: int|
            0 <= i < s.len() && i < MAX_LABEL_LEN ==> !is_alphanumeric(#[trigger] s[i]),
{
    let other = |c: char| !is_alphanumeric(c);
    let full = cut(s, MAX_LABEL_LEN as int).map_values(|c: char| label_char(c));
    let cut_end = trim_end(full, other);
    let v = trim_start(cut_end, other);
    lemma_trim_end(full, other);
    lemma_trim_start(cut_end, other);
    if v.len() > 0 {
        let skipped = cut_end.len() - v.len();
        assert(v =~= cut_end.subrange(skipped, cut_end.len() as int));
        assert(v.last() == cut_end.last());
        assert forall|i: int| 0 <= i < v.len() implies is_alphanumeric(#[trigger] v[i]) || v[i]
            == '-' || v[i] == '_' || v[i] == '.' by {
            assert(v[i] == cut_end[skipped + i]);
            assert(cut_end[skipped + i] == full[skipped + i]);
        }
        assert(v[0] == full[skipped]);
        assert(full[skipped] == label_char(s[skipped]));
        assert(is_alphanumeric(s[skipped]));
    } else {
        assert forall|i: int| 0 <= i < s.len() && i < MAX_LABEL_LEN implies !is_alphanumeric(
            #[trigger] s[i],
        ) by {
            lemma_all_dropped(full, other);
            assert(full[i] == label_char(s[i]));
            assert(other(full[i]));
        }
    }
}

/// If trimming a text at both ends leaves nothing, all of it was to be dropped.
proof fn lemma_all_dropped(s: Seq<char>, drop: spec_fn(char) -> bool)
    requires
        trim_start(trim_end(s, drop), drop).len() == 0,
    ensures
        forall|i: int| 0 <= i < s.len() ==> drop(#[trigger] s[i]),
    decreases s.len(),
{
    if s.len() > 0 {
        if drop(s.last()) {
            let rest = s.drop_last();
            lemma_all_dropped(rest, drop);
            assert forall|i: int| 0 <= i < s.len() implies drop(#[trigger] s[i]) by {
                if i < rest.len() {
                    assert(s[i] == rest[i]);
                }
            }
        } else {
            lemma_trim_stops(s, drop);
        }
    }
}

/// Trimming a text at its start leaves a last character that is not to be dropped.
proof fn lemma_trim_stops(s: Seq<char>, drop: spec_fn(char) -> bool)
    requires
        s.len() > 0,
        !drop(s.last()),
    ensures
        trim_start(s, drop).len() > 0,
    decreases s.len(),
{
    if drop(s[0]) {
        assert(s.drop_first().last() == s.last());
        lemma_trim_stops(s.drop_first(), drop);
    }
}

/// A text that has the shape of a label value is its own label value; so is every label value.
pub proof fn law_label_values_are_kept(s: Seq<char>)
    ensures
        label_shape(s) ==> label_of(s) == Some(s),
        label_of(s) matches Some(v) ==> label_of(v) == Some(v),
{
    law_label_value_is_valid(s);
    if label_shape(s) {
        lemma_label_as_is(s);
    }
    if let Some(v) = label_of(s) {
        lemma_label_as_is(v);
    }
}

/// A text that has the shape of a label value is its own label value.
proof fn lemma_label_as_is(v: Seq<char>)
    requires
        label_shape(v),
    ensures
        label_of(v) == Some(v),
{
    let other = |c: char| !is_alphanumeric(c);
    let full = cut(v, MAX_LABEL_LEN as int).map_values(|c: char| label_char(c));
    assert(full =~= v);
    assert(!other(v.last()));
    assert(trim_end(v, other) == v);
    assert(!other(v[0]));
    assert(trim_start(v, other) == v);
}

/// Normalizing a USB id that is normal leaves it as it is, and a normal id is four lower case
/// hexadecimal digits.
pub proof fn law_normalized_id_is_normal(id: Seq<char>)
    ensures
        normalized_id(id) matches Some(n) ==> {
            &&& n.len() == 4
            &&& all_hex(n)
            &&& slug_chars(n)
            &&& normalized_id(n) == Some(n)
        },
{
    if let Some(n) = normalized_id(id) {
        let hex = without_hex_prefix(trimmed(id));
        assert forall|i: int| 0 <= i < 4 implies digit_value(#[trigger] n[i], 16) is Some
            && is_slug_char(n[i]) && lower_char(n[i]) == n[i] && !is_white(n[i]) && n[i] != 'x'
            && n[i] != 'X' by {
            if i >= 4 - hex.len() {
                assert(digit_value(hex[i - (4 - hex.len())], 16) is Some);
            }
        }
        let white = |c: char| is_white(c);
        assert(!white(n[0]));
        assert(trim_start(n, white) == n);
        assert(!white(n[3]));
        assert(trim_end(n, white) == n);
        assert(trimmed(n) == n);
        assert(n[1] != 'x');
        assert(without_hex_prefix(n) == n);
        assert(normalized_id(n).unwrap() =~= n);
    }
}

} // verus!

//! What the names of the devices on a node depend on.

use vstd::prelude::*;

use super::assign::{
    ambiguous_in_cluster, assigned, choice, decided, holder_of, kept, known_named, loses_tie,
    may_wait, tier_decision, AssignContext, Assignment, AssignmentView, InstanceKeyView, KnownDevice,
};
use super::fingerprint::{fingerprint_of, Fingerprint, IdentitySource};
use crate::sysfs::UsbDeviceInfo;
use crate::table::key_set;

verus! {

/// Whether two known devices hold the same.
pub open spec fn same_device(a: KnownDevice, b: KnownDevice) -> bool {
    &&& a.name@ == b.name@
    &&& a.fingerprint.same_as(b.fingerprint)
    &&& a.present_on.deep_view() == b.present_on.deep_view()
}

/// Whether two lists of known devices hold the same.
pub open spec fn same_known(a: Seq<KnownDevice>, b: Seq<KnownDevice>) -> bool {
    &&& a.len() == b.len()
    &&& forall|i: int| 0 <= i < a.len() ==> same_device(#[trigger] a[i], #[trigger] b[i])
}

/// What the assignments of a table hold.
pub open spec fn assignment_views(m: Map<InstanceKeyView, Assignment>) -> Map<
    InstanceKeyView,
    AssignmentView,
> {
    m.map_values(|a: Assignment| a@)
}

/// Whether two contexts hold the same.
pub open spec fn same_context(a: AssignContext<'_>, b: AssignContext<'_>) -> bool {
    &&& a.node@ == b.node@
    &&& assignment_views(a.sticky@) == assignment_views(b.sticky@)
    &&& same_known(a.known@, b.known@)
    &&& key_set(a.may_defer@) == key_set(b.may_defer@)
}

/// The attributes that a tier compares are the same for fingerprints that hold the same.
proof fn lemma_same_key(a: Fingerprint, b: Fingerprint, tier: IdentitySource)
    requires
        a.same_as(b),
    ensures
        a.key_of(tier) == b.key_of(tier),
{
    assert(a.ids() == b.ids());
    assert(a.descriptor() == b.descriptor());
    assert(a.serial_text() == b.serial_text());
}

/// The node that holds a name is the same for lists that hold the same.
proof fn lemma_same_holder(a: Seq<KnownDevice>, b: Seq<KnownDevice>, name: Seq<char>)
    requires
        same_known(a, b),
    ensures
        holder_of(a, name) == holder_of(b, name),
    decreases a.len(),
{
    if a.len() > 0 {
        assert(same_device(a[a.len() - 1], b[b.len() - 1]));
        let x = a.drop_last();
        let y = b.drop_last();
        assert forall|i: int| 0 <= i < x.len() implies same_device(#[trigger] x[i], #[trigger] y[i]) by {
            assert(same_device(a[i], b[i]));
        }
        lemma_same_holder(x, y, name);
        assert(known_named(a, name) == if a.last().name@ == name {
            Some(a.last())
        } else {
            known_named(x, name)
        });
    }
}

/// What a tier decides is the same in contexts that hold the same.
proof fn lemma_same_tier(
    a: AssignContext<'_>,
    b: AssignContext<'_>,
    local: Seq<UsbDeviceInfo>,
    taken: Set<Seq<char>>,
    key: InstanceKeyView,
    fp: Fingerprint,
    tier: IdentitySource,
)
    requires
        same_context(a, b),
    ensures
        tier_decision(a, local, taken, key, fp, tier) == tier_decision(
            b,
            local,
            taken,
            key,
            fp,
            tier,
        ),
{
    if let Some(name) = fp.name_in(tier) {
        lemma_same_holder(a.known@, b.known@, name);
        assert(may_wait(a, key) == key_set(a.may_defer@).contains(key));
        assert(may_wait(b, key) == key_set(b.may_defer@).contains(key));
        if ambiguous_in_cluster(a.known@, name, fp, tier) {
            let i = choose|i: int|
                0 <= i < a.known@.len() && (#[trigger] a.known@[i]).name@ != name
                    && a.known@[i].fingerprint.key_of(tier) == fp.key_of(tier);
            assert(same_device(a.known@[i], b.known@[i]));
            lemma_same_key(a.known@[i].fingerprint, b.known@[i].fingerprint, tier);
        }
        if ambiguous_in_cluster(b.known@, name, fp, tier) {
            let i = choose|i: int|
                0 <= i < b.known@.len() && (#[trigger] b.known@[i]).name@ != name
                    && b.known@[i].fingerprint.key_of(tier) == fp.key_of(tier);
            assert(same_device(a.known@[i], b.known@[i]));
            lemma_same_key(a.known@[i].fingerprint, b.known@[i].fingerprint, tier);
        }
    }
}

/// Which earlier names are kept is the same in contexts that hold the same.
proof fn lemma_same_kept(
    a: AssignContext<'_>,
    b: AssignContext<'_>,
    local: Seq<UsbDeviceInfo>,
    n: int,
)
    requires
        same_context(a, b),
    ensures
        kept(a, local, n) == kept(b, local, n),
    decreases n,
{
    if n > 0 {
        lemma_same_kept(a, b, local, n - 1);
        let key = super::assign::instance_of(local[n - 1])@;
        assert(assignment_views(a.sticky@).contains_key(key) == a.sticky@.contains_key(key));
        assert(assignment_views(b.sticky@).contains_key(key) == b.sticky@.contains_key(key));
        if a.sticky@.contains_key(key) {
            let x = a.sticky@[key];
            let y = b.sticky@[key];
            assert(assignment_views(a.sticky@)[key] == x@);
            assert(assignment_views(b.sticky@)[key] == y@);
            lemma_same_holder(a.known@, b.known@, x.name@);
            assert(loses_tie(a.known@, a.node@, x.name@) == loses_tie(b.known@, b.node@, y.name@));
        }
    }
}

/// The decisions are the same in contexts that hold the same.
proof fn lemma_same_decided(
    a: AssignContext<'_>,
    b: AssignContext<'_>,
    local: Seq<UsbDeviceInfo>,
    n: int,
)
    requires
        same_context(a, b),
    ensures
        decided(a, local, n) == decided(b, local, n),
    decreases n,
{
    if n > 0 {
        lemma_same_decided(a, b, local, n - 1);
        let p = decided(a, local, n - 1);
        let key = super::assign::instance_of(local[n - 1])@;
        let fp = fingerprint_of(local[n - 1]);
        lemma_same_tier(a, b, local, p.taken, key, fp, IdentitySource::Serial);
        lemma_same_tier(a, b, local, p.taken, key, fp, IdentitySource::SerialDescriptor);
        lemma_same_tier(a, b, local, p.taken, key, fp, IdentitySource::Descriptor);
        assert(choice(a, local, p.taken, key, fp) == choice(b, local, p.taken, key, fp));
    } else {
        lemma_same_kept(a, b, local, local.len() as int);
    }
}

/// The names of the devices depend only on what the context holds: the node, the earlier
/// assignments, the known devices and the instances that may wait.
pub proof fn law_names_depend_on_the_context(
    a: AssignContext<'_>,
    b: AssignContext<'_>,
    local: Seq<UsbDeviceInfo>,
)
    requires
        same_context(a, b),
    ensures
        assigned(a, local) == assigned(b, local),
{
    lemma_same_decided(a, b, local, local.len() as int);
}

} // verus!

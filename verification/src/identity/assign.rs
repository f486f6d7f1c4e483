//! Which name each plugged-in device gets.

use vstd::prelude::*;

use super::laws::valid_name;
use super::fingerprint::{fingerprint_of, Fingerprint, IdentitySource};
use crate::sysfs::UsbDeviceInfo;
use crate::table::{contains_key, Table, TableKey};
use crate::text::{list_contains, text_eq, text_less, text_lt};

verus! {

/// Identifies one enumeration of a device on this node. The kernel assigns a fresh device number
/// on every (re-)enumeration, so a replugged device is a new instance.
#[derive(Debug, PartialEq, Eq, Hash, PartialOrd, Ord)]
pub struct InstanceKey {
    pub port_path: String,
    pub bus_num: u32,
    pub dev_num: u32,
}

/// What an [`InstanceKey`] holds.
pub struct InstanceKeyView {
    pub port_path: Seq<char>,
    pub bus_num: u32,
    pub dev_num: u32,
}

impl View for InstanceKey {
    type V = InstanceKeyView;

    open spec fn view(&self) -> InstanceKeyView {
        InstanceKeyView {
            port_path: self.port_path@,
            bus_num: self.bus_num,
            dev_num: self.dev_num,
        }
    }
}

impl TableKey for InstanceKey {
    fn same_key(&self, other: &Self) -> (same: bool) {
        self.bus_num == other.bus_num && self.dev_num == other.dev_num && text_eq(
            &self.port_path,
            &other.port_path,
        )
    }
}

impl Clone for InstanceKey {
    fn clone(&self) -> (r: Self)
        ensures
            r == *self,
    {
        InstanceKey {
            port_path: self.port_path.clone(),
            bus_num: self.bus_num,
            dev_num: self.dev_num,
        }
    }
}

/// The instance that a plugged-in device is.
pub open spec fn instance_of(d: UsbDeviceInfo) -> InstanceKey {
    InstanceKey { port_path: d.port_path, bus_num: d.bus_num, dev_num: d.dev_num }
}

impl vstd::std_specs::convert::FromSpecImpl<&UsbDeviceInfo> for InstanceKey {
    open spec fn obeys_from_spec() -> bool {
        true
    }

    open spec fn from_spec(d: &UsbDeviceInfo) -> Self {
        instance_of(*d)
    }
}

impl From<&UsbDeviceInfo> for InstanceKey {
    fn from(d: &UsbDeviceInfo) -> (key: Self) {
        InstanceKey { port_path: d.port_path.clone(), bus_num: d.bus_num, dev_num: d.dev_num }
    }
}

/// The name of a device and the tier it comes from.
#[derive(Debug, PartialEq, Eq)]
pub struct Assignment {
    pub name: String,
    pub source: IdentitySource,
}

/// What an [`Assignment`] holds.
pub struct AssignmentView {
    pub name: Seq<char>,
    pub source: IdentitySource,
}

impl View for Assignment {
    type V = AssignmentView;

    open spec fn view(&self) -> AssignmentView {
        AssignmentView { name: self.name@, source: self.source }
    }
}

impl Clone for Assignment {
    fn clone(&self) -> (r: Self)
        ensures
            r == *self,
    {
        Assignment { name: self.name.clone(), source: self.source }
    }
}

impl Assignment {
    /// Whether two assignments give the same name from the same tier.
    pub fn same(&self, other: &Assignment) -> (same: bool)
        ensures
            same == (self@ == other@),
    {
        self.source == other.source && text_eq(&self.name, &other.name)
    }
}

/// A device already known to the cluster (a `UsbDevice` object).
#[derive(Clone, Debug)]
pub struct KnownDevice {
    pub name: String,
    pub fingerprint: Fingerprint,
    /// Node the device is currently plugged into according to a fresh heartbeat.
    pub present_on: Option<String>,
}

/// What was decided about the name of a device.
#[derive(Clone, Debug, PartialEq, Eq)]
pub enum Decision {
    Assigned(Assignment),
    /// The preferred identity is still held by another node, which may simply not have noticed the
    /// device being unplugged yet (the device is being moved). Retry later instead of falling back.
    Deferred { name: String, held_by: String },
}

/// What a [`Decision`] holds.
pub enum DecisionView {
    Assigned(AssignmentView),
    Deferred { name: Seq<char>, held_by: Seq<char> },
}

impl View for Decision {
    type V = DecisionView;

    open spec fn view(&self) -> DecisionView {
        match self {
            Decision::Assigned(a) => DecisionView::Assigned(a@),
            Decision::Deferred { name, held_by } => DecisionView::Deferred {
                name: name@,
                held_by: held_by@,
            },
        }
    }
}

/// What the names of the devices on a node depend on besides the devices.
pub struct AssignContext<'a> {
    pub node: &'a str,
    /// Assignments made earlier for devices that are still plugged in.
    pub sticky: &'a Table<InstanceKey, Assignment>,
    pub known: &'a [KnownDevice],
    /// Instances that may still wait for another node to release their preferred identity.
    pub may_defer: &'a [InstanceKey],
}

/// Decisions by instance.
pub type Decisions = Map<InstanceKeyView, DecisionView>;

/// The last known device with a name.
pub open spec fn known_named(known: Seq<KnownDevice>, name: Seq<char>) -> Option<KnownDevice>
    decreases known.len(),
{
    if known.len() == 0 {
        None
    } else if known.last().name@ == name {
        Some(known.last())
    } else {
        known_named(known.drop_last(), name)
    }
}

/// The node on which the device with a name is present.
pub open spec fn holder_of(known: Seq<KnownDevice>, name: Seq<char>) -> Option<Seq<char>> {
    match known_named(known, name) {
        Some(k) => k.present_on.deep_view(),
        None => None,
    }
}

/// Whether a node with a smaller name holds the same device name.
pub open spec fn loses_tie(known: Seq<KnownDevice>, node: Seq<char>, name: Seq<char>) -> bool {
    match holder_of(known, name) {
        Some(other) => text_lt(other, node),
        None => false,
    }
}

/// Whether another local instance has the same attributes in a tier.
pub open spec fn ambiguous_locally(
    local: Seq<UsbDeviceInfo>,
    key: InstanceKeyView,
    fp: Fingerprint,
    tier: IdentitySource,
) -> bool {
    exists|i: int|
        0 <= i < local.len() && (#[trigger] instance_of(local[i])@) != key && fingerprint_of(
            local[i],
        ).key_of(tier) == fp.key_of(tier)
}

/// Whether a device known under another name has the same attributes in a tier.
pub open spec fn ambiguous_in_cluster(
    known: Seq<KnownDevice>,
    name: Seq<char>,
    fp: Fingerprint,
    tier: IdentitySource,
) -> bool {
    exists|i: int|
        0 <= i < known.len() && (#[trigger] known[i]).name@ != name && known[i].fingerprint.key_of(
            tier,
        ) == fp.key_of(tier)
}

/// Whether an instance is among those that may wait.
pub open spec fn may_wait(ctx: AssignContext<'_>, key: InstanceKeyView) -> bool {
    exists|i: int| 0 <= i < ctx.may_defer@.len() && (#[trigger] ctx.may_defer@[i])@ == key
}

/// What a portable tier decides for a device; `None` if the device has to use another tier.
pub open spec fn tier_decision(
    ctx: AssignContext<'_>,
    local: Seq<UsbDeviceInfo>,
    taken: Set<Seq<char>>,
    key: InstanceKeyView,
    fp: Fingerprint,
    tier: IdentitySource,
) -> Option<DecisionView> {
    match fp.name_in(tier) {
        None => None,
        Some(name) => {
            if ambiguous_locally(local, key, fp, tier) || ambiguous_in_cluster(
                ctx.known@,
                name,
                fp,
                tier,
            ) || taken.contains(name) {
                None
            } else {
                match holder_of(ctx.known@, name) {
                    Some(held_by) => if held_by == ctx.node@ {
                        Some(DecisionView::Assigned(AssignmentView { name, source: tier }))
                    } else if may_wait(ctx, key) {
                        Some(DecisionView::Deferred { name, held_by })
                    } else {
                        None
                    },
                    None => Some(DecisionView::Assigned(AssignmentView { name, source: tier })),
                }
            }
        },
    }
}

/// The decision for a device that keeps no earlier name: the first portable tier that decides,
/// else its port.
pub open spec fn choice(
    ctx: AssignContext<'_>,
    local: Seq<UsbDeviceInfo>,
    taken: Set<Seq<char>>,
    key: InstanceKeyView,
    fp: Fingerprint,
) -> DecisionView {
    match tier_decision(ctx, local, taken, key, fp, IdentitySource::Serial) {
        Some(d) => d,
        None => match tier_decision(
            ctx,
            local,
            taken,
            key,
            fp,
            IdentitySource::SerialDescriptor,
        ) {
            Some(d) => d,
            None => match tier_decision(ctx, local, taken, key, fp, IdentitySource::Descriptor) {
                Some(d) => d,
                None => DecisionView::Assigned(
                    AssignmentView {
                        name: fp.name_at(ctx.node@, key.port_path),
                        source: IdentitySource::PortPath,
                    },
                ),
            },
        },
    }
}

/// Decisions so far and the names they use up.
pub struct Progress {
    pub decisions: Decisions,
    pub taken: Set<Seq<char>>,
}

/// After the first `n` devices had the chance to keep their earlier names.
pub open spec fn kept(ctx: AssignContext<'_>, local: Seq<UsbDeviceInfo>, n: int) -> Progress
    decreases n,
{
    if n <= 0 {
        Progress { decisions: Map::empty(), taken: Set::empty() }
    } else {
        let p = kept(ctx, local, n - 1);
        let key = instance_of(local[n - 1])@;
        if ctx.sticky@.contains_key(key) {
            let a = ctx.sticky@[key];
            if !loses_tie(ctx.known@, ctx.node@, a.name@) && !p.taken.contains(a.name@) {
                Progress {
                    decisions: p.decisions.insert(key, DecisionView::Assigned(a@)),
                    taken: p.taken.insert(a.name@),
                }
            } else {
                p
            }
        } else {
            p
        }
    }
}

/// After, in addition, the first `n` devices got a decision.
pub open spec fn decided(ctx: AssignContext<'_>, local: Seq<UsbDeviceInfo>, n: int) -> Progress
    decreases n,
{
    if n <= 0 {
        kept(ctx, local, local.len() as int)
    } else {
        let p = decided(ctx, local, n - 1);
        let key = instance_of(local[n - 1])@;
        if p.decisions.contains_key(key) {
            p
        } else {
            let d = choice(ctx, local, p.taken, key, fingerprint_of(local[n - 1]));
            Progress {
                decisions: p.decisions.insert(key, d),
                taken: match d {
                    DecisionView::Assigned(a) => p.taken.insert(a.name),
                    _ => p.taken,
                },
            }
        }
    }
}

/// The decisions for all devices plugged into a node.
pub open spec fn assigned(ctx: AssignContext<'_>, local: Seq<UsbDeviceInfo>) -> Decisions {
    decided(ctx, local, local.len() as int).decisions
}

/// Whether every name that was assigned can name an object.
pub open spec fn names_valid(decisions: Decisions) -> bool {
    forall|k: InstanceKeyView| #[trigger]
        decisions.contains_key(k) ==> (decisions[k] matches DecisionView::Assigned(a) ==> valid_name(
            a.name,
        ))
}

/// Whether every earlier name can name an object.
pub open spec fn sticky_valid(ctx: AssignContext<'_>) -> bool {
    forall|k: InstanceKeyView| #[trigger]
        ctx.sticky@.contains_key(k) ==> valid_name(ctx.sticky@[k].name@)
}

/// What the decisions of a table hold.
pub open spec fn decision_views(m: Map<InstanceKeyView, Decision>) -> Decisions {
    m.map_values(|d: Decision| d@)
}

/// The node on which the device with a name is present.
fn find_holder<'a>(known: &'a [KnownDevice], name: &str) -> (holder: Option<&'a str>)
    ensures
        holder.deep_view() == holder_of(known@, name@),
{
    let mut i: usize = known.len();
    assert(known@.take(i as int) =~= known@);
    while i > 0
        invariant
            i <= known@.len(),
            known_named(known@, name@) == known_named(known@.take(i as int), name@),
        decreases i,
    {
        let k = &known[i - 1];
        assert(known@.take(i as int).last() == *k);
        assert(known@.take(i as int).drop_last() =~= known@.take(i - 1));
        if text_eq(&k.name, name) {
            return match &k.present_on {
                Some(node) => Some(node.as_str()),
                None => None,
            };
        }
        i -= 1;
    }
    None
}

/// Whether two attribute tuples are the same.
fn same_tier_key(a: &Option<Vec<Option<String>>>, b: &Option<Vec<Option<String>>>) -> (same: bool)
    ensures
        same == (a.deep_view() == b.deep_view()),
{
    match (a, b) {
        (None, None) => true,
        (Some(x), Some(y)) => {
            if x.len() != y.len() {
                assert(x.deep_view().len() != y.deep_view().len());
                return false;
            }
            for i in 0..x.len()
                invariant
                    x.len() == y.len(),
                    a.deep_view() == Some(x.deep_view()),
                    b.deep_view() == Some(y.deep_view()),
                    forall|j: int| 0 <= j < i ==> x.deep_view()[j] == y.deep_view()[j],
            {
                if !crate::text::opt_eq(&x[i], &y[i]) {
                    assert(x.deep_view()[i as int] == x@[i as int].deep_view());
                    assert(y.deep_view()[i as int] == y@[i as int].deep_view());
                    return false;
                }
            }
            assert(x.deep_view() =~= y.deep_view());
            true
        },
        _ => false,
    }
}

/// What a portable tier decides for a device.
fn decide_tier(
    ctx: &AssignContext,
    local: &[UsbDeviceInfo],
    taken: &Vec<String>,
    key: &InstanceKey,
    fp: &Fingerprint,
    tier: IdentitySource,
) -> (decision: Option<Decision>)
    ensures
        match decision {
            Some(d) => tier_decision(
                *ctx,
                local@,
                taken.deep_view().to_set(),
                key@,
                *fp,
                tier,
            ) == Some(d@),
            None => tier_decision(*ctx, local@, taken.deep_view().to_set(), key@, *fp, tier)
                is None,
        },
        decision matches Some(Decision::Assigned(a)) ==> valid_name(a.name@),
{
    let name = match fp.portable_name(tier) {
        Some(name) => name,
        None => return None,
    };
    let tier_key = fp.tier_key(tier);
    for i in 0..local.len()
        invariant
            tier_key.deep_view() == fp.key_of(tier),
            fp.name_in(tier) == Some(name@),
            valid_name(name@),
            forall|j: int|
                0 <= j < i ==> !((#[trigger] instance_of(local@[j])@) != key@ && fingerprint_of(
                    local@[j],
                ).key_of(tier) == fp.key_of(tier)),
    {
        let other = InstanceKey::from(&local[i]);
        assert(other@ == instance_of(local@[i as int])@);
        if !other.same_key(key) {
            let other_fp = Fingerprint::from(&local[i]);
            if same_tier_key(&other_fp.tier_key(tier), &tier_key) {
                assert(ambiguous_locally(local@, key@, *fp, tier));
                return None;
            }
        }
    }
    assert(!ambiguous_locally(local@, key@, *fp, tier));
    for i in 0..ctx.known.len()
        invariant
            tier_key.deep_view() == fp.key_of(tier),
            fp.name_in(tier) == Some(name@),
            valid_name(name@),
            forall|j: int|
                0 <= j < i ==> !((#[trigger] ctx.known@[j]).name@ != name@
                    && ctx.known@[j].fingerprint.key_of(tier) == fp.key_of(tier)),
    {
        let k = &ctx.known[i];
        if !text_eq(&k.name, &name) && same_tier_key(&k.fingerprint.tier_key(tier), &tier_key) {
            assert(ambiguous_in_cluster(ctx.known@, name@, *fp, tier));
            return None;
        }
    }
    assert(!ambiguous_in_cluster(ctx.known@, name@, *fp, tier));
    if list_contains(taken.as_slice(), &name) {
        return None;
    }
    match find_holder(ctx.known, &name) {
        Some(held_by) => {
            if text_eq(held_by, ctx.node) {
                Some(Decision::Assigned(Assignment { name, source: tier }))
            } else if contains_key(ctx.may_defer, key) {
                Some(Decision::Deferred { name, held_by: held_by.to_string() })
            } else {
                None
            }
        },
        None => Some(Decision::Assigned(Assignment { name, source: tier })),
    }
}

/// The decision for a device that keeps no earlier name.
pub fn choose_identity(
    ctx: &AssignContext,
    local: &[UsbDeviceInfo],
    taken: &Vec<String>,
    key: &InstanceKey,
    fp: &Fingerprint,
) -> (decision: Decision)
    ensures
        decision@ == choice(*ctx, local@, taken.deep_view().to_set(), key@, *fp),
        decision matches Decision::Assigned(a) ==> valid_name(a.name@),
{
    for i in 0..3
        invariant
            i >= 1 ==> tier_decision(
                *ctx,
                local@,
                taken.deep_view().to_set(),
                key@,
                *fp,
                IdentitySource::Serial,
            ) is None,
            i >= 2 ==> tier_decision(
                *ctx,
                local@,
                taken.deep_view().to_set(),
                key@,
                *fp,
                IdentitySource::SerialDescriptor,
            ) is None,
            i >= 3 ==> tier_decision(
                *ctx,
                local@,
                taken.deep_view().to_set(),
                key@,
                *fp,
                IdentitySource::Descriptor,
            ) is None,
    {
        match decide_tier(ctx, local, taken, key, fp, IdentitySource::ORDER[i]) {
            Some(d) => return d,
            None => {},
        }
    }
    Decision::Assigned(
        Assignment {
            name: fp.port_name(ctx.node, &key.port_path),
            source: IdentitySource::PortPath,
        },
    )
}

/// Assigns identities to all devices currently plugged into this node.
pub fn assign(ctx: &AssignContext, local: &[UsbDeviceInfo]) -> (decisions: Table<
    InstanceKey,
    Decision,
>)
    ensures
        decision_views(decisions@) == assigned(*ctx, local@),
        sticky_valid(*ctx) ==> names_valid(assigned(*ctx, local@)),
{
    let mut decisions: Table<InstanceKey, Decision> = Table::new();
    let mut taken: Vec<String> = Vec::new();
    assert(decision_views(decisions@) =~= Map::empty());
    assert(taken.deep_view().to_set() =~= Set::empty());
    // Keep existing assignments, unless another node holds the same name and wins the tie-break
    // (two identical devices were plugged into two nodes at the same moment).
    for i in 0..local.len()
        invariant
            decision_views(decisions@) == kept(*ctx, local@, i as int).decisions,
            taken.deep_view().to_set() == kept(*ctx, local@, i as int).taken,
            sticky_valid(*ctx) ==> names_valid(kept(*ctx, local@, i as int).decisions),
    {
        let key = InstanceKey::from(&local[i]);
        if let Some(a) = ctx.sticky.get(&key) {
            let lost_tie = match find_holder(ctx.known, &a.name) {
                Some(other) => text_less(other, ctx.node),
                None => false,
            };
            if !lost_tie && !list_contains(taken.as_slice(), &a.name) {
                let d = Decision::Assigned(a.clone());
                let ghost before = decisions@;
                decisions.insert(key, d);
                proof {
                    lemma_insert_view(before, key@, d);
                    lemma_push_taken(taken, a.name);
                }
                taken.push(a.name.clone());
            }
        }
    }
    for i in 0..local.len()
        invariant
            decision_views(decisions@) == decided(*ctx, local@, i as int).decisions,
            taken.deep_view().to_set() == decided(*ctx, local@, i as int).taken,
            sticky_valid(*ctx) ==> names_valid(decided(*ctx, local@, i as int).decisions),
    {
        let key = InstanceKey::from(&local[i]);
        if !decisions.contains_key(&key) {
            let fp = Fingerprint::from(&local[i]);
            let d = choose_identity(ctx, local, &taken, &key, &fp);
            if let Decision::Assigned(a) = &d {
                proof {
                    lemma_push_taken(taken, a.name);
                }
                taken.push(a.name.clone());
            }
            let ghost before = decisions@;
            decisions.insert(key, d);
            proof {
                lemma_insert_view(before, key@, d);
            }
        }
    }
    decisions
}

/// Inserting a decision inserts what it holds.
proof fn lemma_insert_view(m: Map<InstanceKeyView, Decision>, k: InstanceKeyView, d: Decision)
    ensures
        decision_views(m.insert(k, d)) == decision_views(m).insert(k, d@),
{
    assert(decision_views(m.insert(k, d)) =~= decision_views(m).insert(k, d@));
}

/// Adding a name to the list of taken names adds it to their set.
proof fn lemma_push_taken(taken: Vec<String>, name: String)
    ensures
        forall|after: Vec<String>| #[trigger]
            after@ == taken@.push(name) ==> after.deep_view().to_set()
                == taken.deep_view().to_set().insert(name@),
{
    assert forall|after: Vec<String>| #[trigger] after@ == taken@.push(name) implies after.deep_view().to_set()
        == taken.deep_view().to_set().insert(name@) by {
        let a = after.deep_view();
        let t = taken.deep_view();
        assert(a =~= t.push(name@));
        assert forall|x: Seq<char>| #[trigger] a.to_set().contains(x) <==> t.to_set().insert(
            name@,
        ).contains(x) by {
            if a.contains(x) {
                let i = choose|i: int| 0 <= i < a.len() && a[i] == x;
                if i < t.len() {
                    assert(t[i] == x);
                }
            }
            if t.contains(x) {
                let i = choose|i: int| 0 <= i < t.len() && t[i] == x;
                assert(a[i] == x);
            }
            if x == name@ {
                assert(a[t.len() as int] == x);
            }
        }
        assert(a.to_set() =~= t.to_set().insert(name@));
    }
}

} // verus!

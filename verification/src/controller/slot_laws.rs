//! What holds of the slots of all claims.

use vstd::prelude::*;

use super::slots::{
    all_free, allocate_vm, allocate_vms, allocated, fill, fills, full_message, highest_free,
    in_range, insert_vm, keep, keeps, key_lt, pin, pinned_message, pins, range_message,
    requests_for, unassigned, vms_of, Allocation, RequestView, SlotResult, VmKey,
};
use crate::kubevirt::USBREDIR_SLOTS;
use crate::text::{decimal_int, lemma_text_lt_total, lemma_text_lt_transitive, text_lt};

verus! {

/// Whether no two requests have the same uid.
pub open spec fn distinct_uids(requests: Seq<RequestView>) -> bool {
    forall|i: int, j: int|
        0 <= i < j < requests.len() ==> (#[trigger] requests[i]).uid != (#[trigger] requests[j]).uid
}

/// Whether a request has a uid.
spec fn has_uid(requests: Seq<RequestView>, uid: Seq<char>) -> bool {
    exists|i: int| 0 <= i < requests.len() && (#[trigger] requests[i]).uid == uid
}

/// Whether the slots given out are those in use, each to one claim.
#[verifier::opaque]
spec fn sound(a: Allocation) -> bool {
    &&& a.used.len() == USBREDIR_SLOTS
    &&& forall|u: Seq<char>| #[trigger]
        a.slots.contains_key(u) ==> (a.slots[u] matches Ok(s) ==> in_range(s)
            && a.used[s as int] is Some)
    &&& forall|u: Seq<char>, v: Seq<char>|
        #![trigger a.slots.contains_key(u), a.slots.contains_key(v)]
        a.slots.contains_key(u) && a.slots.contains_key(v) && u != v && a.slots[u] is Ok
            && a.slots[v] is Ok ==> a.slots[u] != a.slots[v]
    &&& forall|s: int|
        0 <= s < USBREDIR_SLOTS && (#[trigger] a.used[s]) is Some ==> is_given(a, s as i32)
}

/// Whether a claim has a slot.
spec fn is_given(a: Allocation, slot: i32) -> bool {
    exists|u: Seq<char>| #[trigger] a.slots.contains_key(u) && a.slots[u] == Ok::<i32, Seq<char>>(slot)
}

/// Giving a free slot to a new claim keeps an allocation sound.
proof fn lemma_give(a: Allocation, r: RequestView, slot: i32)
    requires
        sound(a),
        !a.slots.contains_key(r.uid),
        in_range(slot),
        a.used[slot as int] is None,
    ensures
        sound(a.give(r, slot)),
        a.used.len() == USBREDIR_SLOTS,
{
    reveal(sound);
    let b = a.give(r, slot);
    assert forall|s: int|
        0 <= s < USBREDIR_SLOTS && (#[trigger] b.used[s]) is Some implies is_given(b, s as i32) by {
        if s == slot {
            assert(b.slots.contains_key(r.uid));
        } else {
            assert(a.used[s] is Some);
            let u = choose|u: Seq<char>| #[trigger]
                a.slots.contains_key(u) && a.slots[u] == Ok::<i32, Seq<char>>(s as i32);
            assert(b.slots.contains_key(u));
        }
    }
    assert forall|u: Seq<char>, v: Seq<char>|
        #![trigger b.slots.contains_key(u), b.slots.contains_key(v)]
        b.slots.contains_key(u) && b.slots.contains_key(v) && u != v && b.slots[u] is Ok
            && b.slots[v] is Ok implies b.slots[u] != b.slots[v] by {
        assert(u != r.uid ==> a.slots.contains_key(u));
        assert(v != r.uid ==> a.slots.contains_key(v));
    }
    assert forall|u: Seq<char>| #[trigger] b.slots.contains_key(u) implies (b.slots[u] matches Ok(s)
        ==> in_range(s) && b.used[s as int] is Some) by {
        assert(u != r.uid ==> a.slots.contains_key(u));
    }
}

/// Refusing a new claim keeps an allocation sound.
proof fn lemma_refuse(a: Allocation, r: RequestView, why: Seq<char>)
    requires
        sound(a),
        !a.slots.contains_key(r.uid),
    ensures
        sound(a.refuse(r, why)),
        a.used.len() == USBREDIR_SLOTS,
{
    reveal(sound);
    let b = a.refuse(r, why);
    assert forall|s: int|
        0 <= s < USBREDIR_SLOTS && (#[trigger] b.used[s]) is Some implies is_given(b, s as i32) by {
        assert(a.used[s] is Some);
        let u = choose|u: Seq<char>| #[trigger]
            a.slots.contains_key(u) && a.slots[u] == Ok::<i32, Seq<char>>(s as i32);
        assert(b.slots.contains_key(u));
    }
    assert forall|u: Seq<char>, v: Seq<char>|
        #![trigger b.slots.contains_key(u), b.slots.contains_key(v)]
        b.slots.contains_key(u) && b.slots.contains_key(v) && u != v && b.slots[u] is Ok
            && b.slots[v] is Ok implies b.slots[u] != b.slots[v] by {
        assert(a.slots.contains_key(u));
        assert(a.slots.contains_key(v));
    }
    assert forall|u: Seq<char>| #[trigger] b.slots.contains_key(u) implies (b.slots[u] matches Ok(s)
        ==> in_range(s) && b.used[s as int] is Some) by {
        assert(u != r.uid ==> a.slots.contains_key(u));
    }
}

/// No slots given out.
spec fn fresh() -> Allocation {
    Allocation { slots: Map::empty(), used: all_free() }
}

/// Whether a request among the first `n` pins a slot.
spec fn pinned_before(g: Seq<RequestView>, n: int, slot: i32) -> bool {
    exists|i: int| 0 <= i < n && (#[trigger] g[i]).pinned == Some(slot)
}

/// Whether a request among the first `n` that pins no slot had a slot.
spec fn had_before(g: Seq<RequestView>, n: int, slot: i32) -> bool {
    exists|i: int| 0 <= i < n && (#[trigger] g[i]).pinned is None && g[i].previous == Some(slot)
}

/// What holds after the pins of the first `n` requests of a VM.
proof fn lemma_pins(g: Seq<RequestView>, n: int)
    requires
        distinct_uids(g),
        0 <= n <= g.len(),
    ensures
        sound(pins(fresh(), g.take(n))),
        forall|i: int|
            0 <= i < g.len() ==> (pins(fresh(), g.take(n)).slots.contains_key(
                (#[trigger] g[i]).uid,
            ) <==> i < n && g[i].pinned is Some),
        forall|s: i32|
            #![trigger pinned_before(g, n, s)]
            in_range(s) ==> (pins(fresh(), g.take(n)).used[s as int] is Some <==> pinned_before(
                g,
                n,
                s,
            )),
        forall|i: int|
            0 <= i < n && ((#[trigger] g[i]).pinned matches Some(s) && in_range(s)
                && !pinned_before(g, i, s)) ==> pins(fresh(), g.take(n)).slots[g[i].uid] == Ok::<
                i32,
                Seq<char>,
            >(g[i].pinned.unwrap()),
    decreases n,
{
    let b = pins(fresh(), g.take(n));
    if n == 0 {
        reveal(sound);
        assert(g.take(0) =~= Seq::empty());
    } else {
        lemma_pins(g, n - 1);
        let a = pins(fresh(), g.take(n - 1));
        let r = g[n - 1];
        assert(g.take(n).drop_last() =~= g.take(n - 1));
        assert(g.take(n).last() == r);
        assert(b == pin(a, r));
        assert(!a.slots.contains_key(g[n - 1].uid));
        if let Some(slot) = r.pinned {
            if !in_range(slot) {
                lemma_refuse(a, r, range_message());
            } else if let Some(owner) = a.used[slot as int] {
                lemma_refuse(a, r, pinned_message(slot, owner));
            } else {
                lemma_give(a, r, slot);
            }
        }
        assert forall|s: i32|
            #![trigger pinned_before(g, n, s)]
            in_range(s) implies (b.used[s as int] is Some <==> pinned_before(g, n, s)) by {
            assert(pinned_before(g, n, s) <==> pinned_before(g, n - 1, s) || r.pinned == Some(s))
                by {
                if r.pinned == Some(s) {
                    assert(g[n - 1].pinned == Some(s));
                }
            }
        }
        assert forall|i: int|
            0 <= i < n && ((#[trigger] g[i]).pinned matches Some(s) && in_range(s)
                && !pinned_before(g, i, s)) implies b.slots[g[i].uid] == Ok::<i32, Seq<char>>(
            g[i].pinned.unwrap(),
        ) by {
            if i < n - 1 {
                assert(g[i].uid != g[n - 1].uid);
            } else {
                assert(!pinned_before(g, n - 1, r.pinned.unwrap()));
            }
        }
    }
}

/// What holds after the first `n` requests of a VM had the chance to keep their slots.
spec fn kept_state(g: Seq<RequestView>, p: Allocation, a: Allocation, n: int) -> bool {
    &&& sound(a)
    &&& a.used.len() == USBREDIR_SLOTS
    &&& forall|i: int|
        0 <= i < g.len() && (#[trigger] g[i]).pinned is Some ==> a.slots.contains_key(g[i].uid)
            && a.slots[g[i].uid] == p.slots[g[i].uid]
    &&& forall|i: int|
        0 <= i < g.len() && (#[trigger] g[i]).pinned is None && a.slots.contains_key(g[i].uid)
            ==> i < n && g[i].previous is Some && a.slots[g[i].uid] == Ok::<i32, Seq<char>>(
            g[i].previous.unwrap(),
        )
    &&& forall|s: i32| in_range(s) ==> #[trigger] used_rightly(g, a, n, s)
    &&& forall|i: int|
        0 <= i < n && #[trigger] keeps_own(g, i) ==> a.slots.contains_key(g[i].uid)
}

/// Whether a slot is in use if a request pins it or one among the first `n` had it.
spec fn used_rightly(g: Seq<RequestView>, a: Allocation, n: int, s: i32) -> bool {
    a.used[s as int] is Some <==> (pinned_before(g, g.len() as int, s) || had_before(g, n, s))
}

/// Whether a request pins no slot and had one that is pinned by no request and was had by no
/// older one.
spec fn keeps_own(g: Seq<RequestView>, i: int) -> bool {
    &&& g[i].pinned is None
    &&& g[i].previous matches Some(s) && in_range(s) && !pinned_before(g, g.len() as int, s)
        && !had_before(g, i, s)
}

/// The state before any request had the chance to keep its slot.
proof fn lemma_kept_start(g: Seq<RequestView>)
    requires
        distinct_uids(g),
    ensures
        kept_state(g, pins(fresh(), g), pins(fresh(), g), 0),
{
    let p = pins(fresh(), g);
    assert(g.take(g.len() as int) =~= g);
    lemma_pins(g, g.len() as int);
    assert(p.used.len() == USBREDIR_SLOTS) by {
        reveal(sound);
    }
    assert forall|s: i32| in_range(s) implies #[trigger] used_rightly(g, p, 0, s) by {
        assert(!had_before(g, 0, s));
        assert(pinned_before(g, g.len() as int, s) || !pinned_before(g, g.len() as int, s));
    }
}

/// The state after one more request had the chance to keep its slot.
proof fn lemma_kept_step(g: Seq<RequestView>, p: Allocation, a: Allocation, n: int)
    requires
        distinct_uids(g),
        0 < n <= g.len(),
        kept_state(g, p, a, n - 1),
    ensures
        kept_state(g, p, keep(a, g[n - 1]), n),
{
    let r = g[n - 1];
    let b = keep(a, r);
    let kept = r.pinned is None && (r.previous matches Some(s) && in_range(s) && a.used[s as int]
        is None);
    if kept {
        assert(!a.slots.contains_key(g[n - 1].uid));
        lemma_give(a, r, r.previous.unwrap());
    }
    assert(sound(b));
    assert forall|i: int| 0 <= i < g.len() && i != n - 1 implies (#[trigger] g[i]).uid
        != r.uid by {
        if i < n - 1 {
            assert(g[i].uid != g[n - 1].uid);
        } else {
            assert(g[n - 1].uid != g[i].uid);
        }
    }
    assert forall|i: int| 0 <= i < g.len() && (#[trigger] g[i]).pinned is Some implies
        b.slots.contains_key(g[i].uid) && b.slots[g[i].uid] == p.slots[g[i].uid] by {}
    assert forall|i: int|
        0 <= i < g.len() && (#[trigger] g[i]).pinned is None && b.slots.contains_key(
            g[i].uid,
        ) implies i < n && g[i].previous is Some && b.slots[g[i].uid] == Ok::<i32, Seq<char>>(
        g[i].previous.unwrap(),
    ) by {
        assert(a.slots.contains_key(g[i].uid) || i == n - 1);
    }
    assert forall|s: i32| in_range(s) implies #[trigger] used_rightly(g, b, n, s) by {
        assert(used_rightly(g, a, n - 1, s));
        if r.pinned is None && r.previous == Some(s) {
            assert(g[n - 1].pinned is None);
            assert(had_before(g, n, s));
        } else if had_before(g, n, s) {
            let i = choose|i: int|
                0 <= i < n && (#[trigger] g[i]).pinned is None && g[i].previous == Some(s);
            assert(g[i].pinned is None);
            assert(i < n - 1);
        }
        if had_before(g, n - 1, s) {
            let i = choose|i: int|
                0 <= i < n - 1 && (#[trigger] g[i]).pinned is None && g[i].previous == Some(s);
            assert(g[i].pinned is None);
            assert(had_before(g, n, s));
        }
    }
    assert forall|i: int| 0 <= i < n && #[trigger] keeps_own(g, i) implies b.slots.contains_key(
        g[i].uid,
    ) by {
        if i == n - 1 {
            assert(used_rightly(g, a, n - 1, r.previous.unwrap()));
        }
    }
}

/// What holds after the first `n` requests of a VM had the chance to keep their slots.
proof fn lemma_keeps(g: Seq<RequestView>, n: int)
    requires
        distinct_uids(g),
        0 <= n <= g.len(),
    ensures
        kept_state(g, pins(fresh(), g), keeps(pins(fresh(), g), g.take(n)), n),
    decreases n,
{
    let p = pins(fresh(), g);
    if n == 0 {
        assert(g.take(0) =~= Seq::empty());
        lemma_kept_start(g);
    } else {
        lemma_keeps(g, n - 1);
        assert(g.take(n).drop_last() =~= g.take(n - 1));
        assert(g.take(n).last() == g[n - 1]);
        lemma_kept_step(g, p, keeps(p, g.take(n - 1)), n);
    }
}

/// The requests without a result keep their order and are those without a result.
proof fn lemma_unassigned(g: Seq<RequestView>, slots: Map<Seq<char>, SlotResult>)
    requires
        distinct_uids(g),
    ensures
        distinct_uids(unassigned(g, slots)),
        forall|k: int|
            0 <= k < unassigned(g, slots).len() ==> !slots.contains_key(
                (#[trigger] unassigned(g, slots)[k]).uid,
            ) && g.contains(unassigned(g, slots)[k]),
        forall|i: int|
            0 <= i < g.len() && !slots.contains_key((#[trigger] g[i]).uid) ==> unassigned(
                g,
                slots,
            ).contains(g[i]),
    decreases g.len(),
{
    if g.len() > 0 {
        let rest = g.drop_last();
        let r = g.last();
        assert(distinct_uids(rest)) by {
            assert forall|i: int, j: int| 0 <= i < j < rest.len() implies (#[trigger] rest[i]).uid
                != (#[trigger] rest[j]).uid by {
                assert(g[i].uid != g[j].uid);
            }
        }
        lemma_unassigned(rest, slots);
        let u = unassigned(rest, slots);
        let v = unassigned(g, slots);
        assert forall|k: int| 0 <= k < u.len() implies (#[trigger] u[k]).uid != r.uid && g.contains(
            u[k],
        ) by {
            assert(rest.contains(u[k]));
            let i = choose|i: int| 0 <= i < rest.len() && rest[i] == u[k];
            assert(g[i] == u[k]);
            assert(g[i].uid != g[g.len() - 1].uid);
        }
        assert(g.contains(r)) by {
            assert(g[g.len() - 1] == r);
        }
        assert forall|i: int, j: int| 0 <= i < j < v.len() implies (#[trigger] v[i]).uid != (
        #[trigger] v[j]).uid by {
            if j < u.len() {
                assert(u[i].uid != u[j].uid);
            } else {
                assert(u[i].uid != r.uid);
            }
        }
        assert forall|k: int| 0 <= k < v.len() implies !slots.contains_key((#[trigger] v[k]).uid)
            && g.contains(v[k]) by {
            if k < u.len() {
                assert(v[k] == u[k]);
            }
        }
        assert forall|i: int| 0 <= i < g.len() && !slots.contains_key(
            (#[trigger] g[i]).uid,
        ) implies v.contains(g[i]) by {
            if i < rest.len() {
                assert(rest[i] == g[i]);
                let k = choose|k: int| 0 <= k < u.len() && u[k] == g[i];
                assert(v[k] == g[i]);
            } else {
                assert(v[u.len() as int] == r);
            }
        }
    }
}

/// A slot that is free is found, and those above it are in use.
proof fn lemma_highest_free(used: Seq<Option<Seq<char>>>, n: int)
    ensures
        match highest_free(used, n) {
            Some(s) => 0 <= s < n && used[s] is None && forall|t: int|
                s < t < n ==> (#[trigger] used[t]) is Some,
            None => forall|t: int| 0 <= t < n ==> (#[trigger] used[t]) is Some,
        },
    decreases n,
{
    if n > 0 {
        lemma_highest_free(used, n - 1);
    }
}

/// Whether a slot, and every one above it, is in use.
spec fn above_used(a: Allocation, slot: int) -> bool {
    forall|t: int| slot < t < USBREDIR_SLOTS ==> (#[trigger] a.used[t]) is Some
}

/// What holds after the first `n` requests without a slot were filled in.
proof fn lemma_fills(a: Allocation, u: Seq<RequestView>, n: int)
    requires
        sound(a),
        distinct_uids(u),
        forall|k: int| 0 <= k < u.len() ==> !a.slots.contains_key((#[trigger] u[k]).uid),
        0 <= n <= u.len(),
    ensures
        ({
            let b = fills(a, u.take(n));
            &&& sound(b)
            &&& forall|v: Seq<char>| #[trigger]
                a.slots.contains_key(v) ==> b.slots.contains_key(v) && b.slots[v] == a.slots[v]
            &&& forall|k: int|
                0 <= k < u.len() ==> (b.slots.contains_key((#[trigger] u[k]).uid) <==> k < n)
            &&& forall|t: int|
                0 <= t < USBREDIR_SLOTS && (#[trigger] a.used[t]) is Some ==> b.used[t] is Some
            &&& forall|k: int|
                0 <= k < n ==> match b.slots[(#[trigger] u[k]).uid] {
                    Ok(s) => above_used(b, s as int),
                    Err(why) => why == full_message() && above_used(b, -1),
                }
            &&& forall|v: Seq<char>| #[trigger]
                b.slots.contains_key(v) ==> a.slots.contains_key(v) || has_uid(u, v)
        }),
    decreases n,
{
    if n == 0 {
        assert(u.take(0) =~= Seq::empty());
    } else {
        lemma_fills(a, u, n - 1);
        let c = fills(a, u.take(n - 1));
        let b = fills(a, u.take(n));
        let r = u[n - 1];
        assert(u.take(n).drop_last() =~= u.take(n - 1));
        assert(u.take(n).last() == r);
        assert(b == fill(c, r));
        assert(!c.slots.contains_key(u[n - 1].uid));
        lemma_highest_free(c.used, USBREDIR_SLOTS as int);
        assert(has_uid(u, r.uid));
        match highest_free(c.used, USBREDIR_SLOTS as int) {
            Some(s) => {
                lemma_give(c, r, s as i32);
            },
            None => {
                lemma_refuse(c, r, full_message());
            },
        }
        assert forall|k: int| 0 <= k < u.len() && k != n - 1 implies (#[trigger] u[k]).uid
            != r.uid by {
            if k < n - 1 {
                assert(u[k].uid != u[n - 1].uid);
            } else {
                assert(u[n - 1].uid != u[k].uid);
            }
        }
        assert forall|k: int| 0 <= k < n implies match b.slots[(#[trigger] u[k]).uid] {
            Ok(s) => above_used(b, s as int),
            Err(why) => why == full_message() && above_used(b, -1),
        } by {
            if k < n - 1 {
                assert(b.slots[u[k].uid] == c.slots[u[k].uid]);
                match c.slots[u[k].uid] {
                    Ok(s) => {
                        assert forall|t: int| s < t < USBREDIR_SLOTS implies (#[trigger] b.used[t])
                            is Some by {
                            assert(c.used[t] is Some);
                        }
                    },
                    Err(_) => {
                        assert forall|t: int| -1 < t < USBREDIR_SLOTS implies (#[trigger] b.used[t])
                            is Some by {
                            assert(c.used[t] is Some);
                        }
                    },
                }
            }
        }
        assert forall|t: int| 0 <= t < USBREDIR_SLOTS && (#[trigger] a.used[t]) is Some implies
            b.used[t] is Some by {
            assert(c.used[t] is Some);
        }
        assert forall|v: Seq<char>| #[trigger] b.slots.contains_key(v) implies a.slots.contains_key(
            v,
        ) || has_uid(u, v) by {
            assert(v != r.uid ==> c.slots.contains_key(v));
        }
        assert forall|v: Seq<char>| #[trigger] a.slots.contains_key(v) implies b.slots.contains_key(
            v,
        ) && b.slots[v] == a.slots[v] by {
            assert(c.slots.contains_key(v));
        }
    }
}

/// Whether `a` is `b` on top of the results `slots` of other claims.
spec fn on_top(slots: Map<Seq<char>, SlotResult>, a: Allocation, b: Allocation) -> bool {
    a.used == b.used && a.slots == slots.union_prefer_right(b.slots)
}

/// Inserting on top of other results.
proof fn lemma_insert_on_top(
    slots: Map<Seq<char>, SlotResult>,
    m: Map<Seq<char>, SlotResult>,
    k: Seq<char>,
    v: SlotResult,
)
    ensures
        slots.union_prefer_right(m).insert(k, v) == slots.union_prefer_right(m.insert(k, v)),
{
    assert(slots.union_prefer_right(m).insert(k, v) =~= slots.union_prefer_right(m.insert(k, v)));
}

/// The steps for a VM do not depend on the results of other claims.
proof fn lemma_steps_on_top(
    slots: Map<Seq<char>, SlotResult>,
    a: Allocation,
    b: Allocation,
    g: Seq<RequestView>,
)
    requires
        on_top(slots, a, b),
    ensures
        on_top(slots, pins(a, g), pins(b, g)),
        on_top(slots, keeps(a, g), keeps(b, g)),
        on_top(slots, fills(a, g), fills(b, g)),
    decreases g.len(),
{
    if g.len() > 0 {
        lemma_steps_on_top(slots, a, b, g.drop_last());
        let r = g.last();
        let pb = pins(b, g.drop_last());
        match r.pinned {
            Some(slot) => {
                lemma_insert_on_top(slots, pb.slots, r.uid, Ok(slot));
                lemma_insert_on_top(slots, pb.slots, r.uid, Err(range_message()));
                if in_range(slot) {
                    if let Some(owner) = pb.used[slot as int] {
                        lemma_insert_on_top(
                            slots,
                            pb.slots,
                            r.uid,
                            Err(pinned_message(slot, owner)),
                        );
                    }
                }
            },
            None => {},
        }
        let kb = keeps(b, g.drop_last());
        if let Some(slot) = r.previous {
            lemma_insert_on_top(slots, kb.slots, r.uid, Ok(slot));
        }
        let fb = fills(b, g.drop_last());
        match highest_free(fb.used, USBREDIR_SLOTS as int) {
            Some(slot) => {
                lemma_insert_on_top(slots, fb.slots, r.uid, Ok(slot as i32));
            },
            None => {
                lemma_insert_on_top(slots, fb.slots, r.uid, Err(full_message()));
            },
        }
    }
}

/// Which requests of a VM have no result does not depend on other claims.
proof fn lemma_unassigned_on_top(
    slots: Map<Seq<char>, SlotResult>,
    m: Map<Seq<char>, SlotResult>,
    g: Seq<RequestView>,
)
    requires
        forall|i: int| 0 <= i < g.len() ==> !slots.contains_key((#[trigger] g[i]).uid),
    ensures
        unassigned(g, slots.union_prefer_right(m)) == unassigned(g, m),
    decreases g.len(),
{
    if g.len() > 0 {
        let rest = g.drop_last();
        assert forall|i: int| 0 <= i < rest.len() implies !slots.contains_key(
            (#[trigger] rest[i]).uid,
        ) by {
            assert(rest[i] == g[i]);
        }
        lemma_unassigned_on_top(slots, m, rest);
        assert(g[g.len() - 1] == g.last());
    }
}

/// The slots of a VM do not depend on the results of other claims.
proof fn lemma_vm_on_top(slots: Map<Seq<char>, SlotResult>, g: Seq<RequestView>)
    requires
        forall|i: int| 0 <= i < g.len() ==> !slots.contains_key((#[trigger] g[i]).uid),
    ensures
        allocate_vm(slots, g).slots == slots.union_prefer_right(
            allocate_vm(Map::empty(), g).slots,
        ),
{
    let a = Allocation { slots, used: all_free() };
    let b = fresh();
    assert(slots.union_prefer_right(Map::empty()) =~= slots);
    lemma_steps_on_top(slots, a, b, g);
    let pa = pins(a, g);
    let pb = pins(b, g);
    lemma_steps_on_top(slots, pa, pb, g);
    let ka = keeps(pa, g);
    let kb = keeps(pb, g);
    lemma_unassigned_on_top(slots, kb.slots, g);
    lemma_steps_on_top(slots, ka, kb, unassigned(g, kb.slots));
}

/// Results are only about the requests.
proof fn lemma_steps_dom(a: Allocation, g: Seq<RequestView>, u: Seq<char>)
    ensures
        pins(a, g).slots.contains_key(u) ==> a.slots.contains_key(u) || has_uid(g, u),
        keeps(a, g).slots.contains_key(u) ==> a.slots.contains_key(u) || has_uid(g, u),
        fills(a, g).slots.contains_key(u) ==> a.slots.contains_key(u) || has_uid(g, u),
    decreases g.len(),
{
    if g.len() > 0 {
        lemma_steps_dom(a, g.drop_last(), u);
        if has_uid(g.drop_last(), u) {
            let i = choose|i: int|
                0 <= i < g.drop_last().len() && (#[trigger] g.drop_last()[i]).uid == u;
            assert(g[i].uid == u);
        }
        if g.last().uid == u {
            assert(g[g.len() - 1].uid == u);
        }
    }
}

/// The results of a VM are about its requests, and each of them has one.
proof fn lemma_vm_dom(g: Seq<RequestView>, u: Seq<char>)
    requires
        distinct_uids(g),
    ensures
        allocate_vm(Map::empty(), g).slots.contains_key(u) <==> has_uid(g, u),
{
    let p = pins(fresh(), g);
    let k = keeps(p, g);
    let left = unassigned(g, k.slots);
    lemma_steps_dom(fresh(), g, u);
    lemma_steps_dom(p, g, u);
    lemma_unassigned(g, k.slots);
    assert(g.take(g.len() as int) =~= g);
    lemma_keeps(g, g.len() as int);
    assert(left.take(left.len() as int) =~= left);
    lemma_fills(k, left, left.len() as int);
    let b = fills(k, left);
    if b.slots.contains_key(u) && !k.slots.contains_key(u) {
        assert(has_uid(left, u));
        let i = choose|i: int| 0 <= i < left.len() && (#[trigger] left[i]).uid == u;
        assert(g.contains(left[i]));
        let j = choose|j: int| 0 <= j < g.len() && g[j] == left[i];
        assert(g[j].uid == u);
    }
    if has_uid(g, u) && !k.slots.contains_key(u) {
        let i = choose|i: int| 0 <= i < g.len() && (#[trigger] g[i]).uid == u;
        assert(left.contains(g[i]));
        let j = choose|j: int| 0 <= j < left.len() && left[j] == g[i];
        assert(b.slots.contains_key(left[j].uid));
    }
}

/// The requests for a VM are those of the list that name it.
proof fn lemma_requests_for(requests: Seq<RequestView>, vm: VmKey)
    ensures
        forall|r: RequestView| #[trigger]
            requests_for(requests, vm).contains(r) <==> requests.contains(r) && r.vm == vm,
    decreases requests.len(),
{
    if requests.len() > 0 {
        let rest = requests.drop_last();
        lemma_requests_for(rest, vm);
        let g = requests_for(requests, vm);
        let h = requests_for(rest, vm);
        assert forall|r: RequestView| #[trigger]
            g.contains(r) <==> requests.contains(r) && r.vm == vm by {
            assert(h.contains(r) <==> rest.contains(r) && r.vm == vm);
            if g.contains(r) {
                let i = choose|i: int| 0 <= i < g.len() && g[i] == r;
                if i < h.len() {
                    assert(h[i] == r);
                    let j = choose|j: int| 0 <= j < rest.len() && rest[j] == r;
                    assert(requests[j] == r);
                } else {
                    assert(requests[requests.len() - 1] == r);
                }
            }
            if requests.contains(r) && r.vm == vm {
                let i = choose|i: int| 0 <= i < requests.len() && requests[i] == r;
                if i < rest.len() {
                    assert(rest[i] == r);
                    let j = choose|j: int| 0 <= j < h.len() && h[j] == r;
                    assert(g[j] == r);
                } else {
                    assert(g[h.len() as int] == r);
                }
            }
        }
    }
}

/// The older requests for a VM come first among those for it.
proof fn lemma_requests_prefix(requests: Seq<RequestView>, vm: VmKey, n: int)
    requires
        0 <= n <= requests.len(),
    ensures
        requests_for(requests.take(n), vm).is_prefix_of(requests_for(requests, vm)),
    decreases requests.len() - n,
{
    if n < requests.len() {
        lemma_requests_prefix(requests, vm, n + 1);
        assert(requests.take(n + 1).drop_last() =~= requests.take(n));
        let g = requests_for(requests.take(n + 1), vm);
        assert(requests_for(requests.take(n), vm).is_prefix_of(g));
    } else {
        assert(requests.take(n) =~= requests);
    }
}

/// The requests for a VM have distinct uids.
proof fn lemma_requests_distinct(requests: Seq<RequestView>, vm: VmKey)
    requires
        distinct_uids(requests),
    ensures
        distinct_uids(requests_for(requests, vm)),
    decreases requests.len(),
{
    if requests.len() > 0 {
        let rest = requests.drop_last();
        assert forall|i: int, j: int| 0 <= i < j < rest.len() implies (#[trigger] rest[i]).uid != (
        #[trigger] rest[j]).uid by {
            assert(requests[i].uid != requests[j].uid);
        }
        lemma_requests_distinct(rest, vm);
        lemma_requests_for(rest, vm);
        let h = requests_for(rest, vm);
        let g = requests_for(requests, vm);
        assert forall|i: int, j: int| 0 <= i < j < g.len() implies (#[trigger] g[i]).uid != (
        #[trigger] g[j]).uid by {
            if j < h.len() {
                assert(h[i].uid != h[j].uid);
            } else {
                assert(h[i] == g[i]);
                assert(h.contains(h[i]));
                let k = choose|k: int| 0 <= k < rest.len() && rest[k] == h[i];
                assert(requests[k].uid != requests[requests.len() - 1].uid);
            }
        }
    }
}

/// Two requests with one uid are the same.
proof fn lemma_same_uid(requests: Seq<RequestView>, a: RequestView, b: RequestView)
    requires
        distinct_uids(requests),
        requests.contains(a),
        requests.contains(b),
        a.uid == b.uid,
    ensures
        a == b,
{
    let i = choose|i: int| 0 <= i < requests.len() && requests[i] == a;
    let j = choose|j: int| 0 <= j < requests.len() && requests[j] == b;
    if i < j {
        assert(requests[i].uid != requests[j].uid);
    } else if j < i {
        assert(requests[j].uid != requests[i].uid);
    }
}

/// Results after some VMs are about requests for them.
proof fn lemma_vms_dom(requests: Seq<RequestView>, vms: Seq<VmKey>, u: Seq<char>)
    requires
        distinct_uids(requests),
        vms.no_duplicates(),
    ensures
        allocate_vms(requests, vms).contains_key(u) ==> exists|r: RequestView| #[trigger]
            requests.contains(r) && r.uid == u && vms.contains(r.vm),
    decreases vms.len(), 1int,
{
    if vms.len() > 0 {
        let rest = vms.drop_last();
        lemma_vms_dom(requests, rest, u);
        let before = allocate_vms(requests, rest);
        let g = requests_for(requests, vms.last());
        lemma_requests_distinct(requests, vms.last());
        lemma_requests_for(requests, vms.last());
        lemma_group_apart(requests, vms);
        lemma_vm_on_top(before, g);
        lemma_vm_dom(g, u);
        if before.contains_key(u) {
            let r = choose|r: RequestView| #[trigger]
                requests.contains(r) && r.uid == u && rest.contains(r.vm);
            let i = choose|i: int| 0 <= i < rest.len() && rest[i] == r.vm;
            assert(vms[i] == r.vm);
            assert(requests.contains(r) && r.uid == u && vms.contains(r.vm));
        } else if allocate_vms(requests, vms).contains_key(u) {
            let i = choose|i: int| 0 <= i < g.len() && (#[trigger] g[i]).uid == u;
            assert(g.contains(g[i]));
            assert(vms[vms.len() - 1] == g[i].vm);
            assert(requests.contains(g[i]) && g[i].uid == u && vms.contains(g[i].vm));
        }
    }
}

/// The requests for the last of some VMs have no result after the others.
proof fn lemma_group_apart(requests: Seq<RequestView>, vms: Seq<VmKey>)
    requires
        distinct_uids(requests),
        vms.no_duplicates(),
        vms.len() > 0,
    ensures
        forall|i: int|
            0 <= i < requests_for(requests, vms.last()).len() ==> !allocate_vms(
                requests,
                vms.drop_last(),
            ).contains_key((#[trigger] requests_for(requests, vms.last())[i]).uid),
    decreases vms.len(), 0int,
{
    let g = requests_for(requests, vms.last());
    let rest = vms.drop_last();
    lemma_requests_for(requests, vms.last());
    assert forall|i: int| 0 <= i < g.len() implies !allocate_vms(requests, rest).contains_key(
        (#[trigger] g[i]).uid,
    ) by {
        assert(g.contains(g[i]));
        assert(rest.no_duplicates());
        lemma_vms_dom(requests, rest, g[i].uid);
        if allocate_vms(requests, rest).contains_key(g[i].uid) {
            let r = choose|r: RequestView| #[trigger]
                requests.contains(r) && r.uid == g[i].uid && rest.contains(r.vm);
            lemma_same_uid(requests, r, g[i]);
            let k = choose|k: int| 0 <= k < rest.len() && rest[k] == r.vm;
            assert(vms[k] == vms[vms.len() - 1]);
        }
    }
}

/// The order of VMs is a strict total order.
pub proof fn lemma_key_lt(a: VmKey, b: VmKey, c: VmKey)
    ensures
        !key_lt(a, a),
        a == b || key_lt(a, b) || key_lt(b, a),
        key_lt(a, b) && key_lt(b, c) ==> key_lt(a, c),
{
    lemma_text_lt_total(a.0, b.0);
    lemma_text_lt_total(a.1, b.1);
    lemma_text_lt_total(a.0, a.0);
    lemma_text_lt_total(a.1, a.1);
    if text_lt(a.0, b.0) && text_lt(b.0, c.0) {
        lemma_text_lt_transitive(a.0, b.0, c.0);
    }
    if text_lt(a.1, b.1) && text_lt(b.1, c.1) {
        lemma_text_lt_transitive(a.1, b.1, c.1);
    }
}

/// Whether VMs are in strict order.
spec fn vms_sorted(vms: Seq<VmKey>) -> bool {
    forall|i: int, j: int| 0 <= i < j < vms.len() ==> key_lt(#[trigger] vms[i], #[trigger] vms[j])
}

/// Adding a VM keeps VMs in strict order and adds just that VM.
proof fn lemma_insert_vm(vms: Seq<VmKey>, vm: VmKey)
    requires
        vms_sorted(vms),
    ensures
        vms_sorted(insert_vm(vms, vm)),
        forall|k: VmKey| #[trigger]
            insert_vm(vms, vm).contains(k) <==> k == vm || vms.contains(k),
    decreases vms.len(),
{
    let after = insert_vm(vms, vm);
    if vms.len() == 0 {
        assert(after[0] == vm);
    } else {
        let rest = vms.drop_first();
        lemma_key_lt(vm, vms[0], vm);
        assert forall|i: int, j: int| 0 <= i < j < rest.len() implies key_lt(
            #[trigger] rest[i],
            #[trigger] rest[j],
        ) by {
            assert(rest[i] == vms[i + 1]);
            assert(rest[j] == vms[j + 1]);
        }
        if vms[0] == vm {
            assert(vms.contains(vms[0]));
        } else if key_lt(vm, vms[0]) {
            assert forall|j: int| 1 <= j < after.len() implies key_lt(vm, #[trigger] after[j])
                && after[j] == vms[j - 1] by {
                assert(after[j] == vms[j - 1]);
                if j > 1 {
                    lemma_key_lt(vm, vms[0], vms[j - 1]);
                }
            }
            assert forall|k: VmKey| #[trigger] after.contains(k) <==> k == vm || vms.contains(
                k,
            ) by {
                assert(after[0] == vm);
                if vms.contains(k) {
                    let i = choose|i: int| 0 <= i < vms.len() && vms[i] == k;
                    assert(after[i + 1] == k);
                }
            }
        } else {
            lemma_insert_vm(rest, vm);
            let tail = insert_vm(rest, vm);
            assert(after =~= seq![vms[0]] + tail);
            assert forall|k: VmKey| #[trigger] rest.contains(k) implies vms.contains(k)
                && key_lt(vms[0], k) by {
                let i = choose|i: int| 0 <= i < rest.len() && rest[i] == k;
                assert(vms[i + 1] == k);
            }
            assert forall|j: int| 1 <= j < after.len() implies key_lt(
                vms[0],
                #[trigger] after[j],
            ) by {
                assert(after[j] == tail[j - 1]);
                assert(tail.contains(tail[j - 1]));
            }
            assert forall|i: int, j: int| 0 <= i < j < after.len() implies key_lt(
                #[trigger] after[i],
                #[trigger] after[j],
            ) by {
                if i > 0 {
                    assert(after[i] == tail[i - 1]);
                    assert(after[j] == tail[j - 1]);
                }
            }
            assert forall|k: VmKey| #[trigger] after.contains(k) <==> k == vm || vms.contains(
                k,
            ) by {
                assert(tail.contains(k) <==> k == vm || rest.contains(k));
                if after.contains(k) {
                    let i = choose|i: int| 0 <= i < after.len() && after[i] == k;
                    if i == 0 {
                        assert(vms[0] == k);
                    } else {
                        assert(tail[i - 1] == k);
                    }
                }
                if tail.contains(k) {
                    let i = choose|i: int| 0 <= i < tail.len() && tail[i] == k;
                    assert(after[i + 1] == k);
                }
                if vms.contains(k) {
                    let i = choose|i: int| 0 <= i < vms.len() && vms[i] == k;
                    if i == 0 {
                        assert(after[0] == k);
                    } else {
                        assert(rest[i - 1] == k);
                    }
                }
            }
        }
    }
}

/// The VMs of some requests are in strict order, and are those the requests name.
proof fn lemma_vms_of(requests: Seq<RequestView>)
    ensures
        vms_sorted(vms_of(requests)),
        forall|i: int| 0 <= i < requests.len() ==> vms_of(requests).contains((#[trigger] requests[i]).vm),
    decreases requests.len(),
{
    if requests.len() > 0 {
        let rest = requests.drop_last();
        lemma_vms_of(rest);
        lemma_insert_vm(vms_of(rest), requests.last().vm);
        assert forall|i: int| 0 <= i < requests.len() implies vms_of(requests).contains(
            (#[trigger] requests[i]).vm,
        ) by {
            if i < rest.len() {
                assert(rest[i] == requests[i]);
            }
        }
    }
}

/// After some VMs, a request for one of them has the result that the requests for that VM alone
/// give it.
proof fn lemma_vms_apart(requests: Seq<RequestView>, vms: Seq<VmKey>, r: RequestView)
    requires
        distinct_uids(requests),
        vms.no_duplicates(),
        requests.contains(r),
        vms.contains(r.vm),
    ensures
        allocate_vms(requests, vms).contains_key(r.uid),
        allocate_vms(requests, vms)[r.uid] == allocate_vm(
            Map::empty(),
            requests_for(requests, r.vm),
        ).slots[r.uid],
    decreases vms.len(),
{
    let rest = vms.drop_last();
    let before = allocate_vms(requests, rest);
    let g = requests_for(requests, vms.last());
    lemma_requests_distinct(requests, vms.last());
    lemma_requests_for(requests, vms.last());
    lemma_group_apart(requests, vms);
    lemma_vm_on_top(before, g);
    lemma_vm_dom(g, r.uid);
    if vms.last() == r.vm {
        assert(g.contains(r));
        let i = choose|i: int| 0 <= i < g.len() && g[i] == r;
        assert(g[i].uid == r.uid);
        assert(has_uid(g, r.uid));
    } else {
        let i = choose|i: int| 0 <= i < vms.len() && vms[i] == r.vm;
        assert(rest[i] == r.vm);
        lemma_vms_apart(requests, rest, r);
        if has_uid(g, r.uid) {
            let j = choose|j: int| 0 <= j < g.len() && (#[trigger] g[j]).uid == r.uid;
            assert(g.contains(g[j]));
            lemma_same_uid(requests, g[j], r);
        }
    }
}

/// The slot of a claim depends only on the claims of its VM, and every claim has a slot or a
/// reason why not.
pub proof fn law_vms_do_not_affect_each_other(requests: Seq<RequestView>, i: int)
    requires
        distinct_uids(requests),
        0 <= i < requests.len(),
    ensures
        allocated(requests).contains_key(requests[i].uid),
        allocated(requests)[requests[i].uid] == allocate_vm(
            Map::empty(),
            requests_for(requests, requests[i].vm),
        ).slots[requests[i].uid],
{
    lemma_vms_of(requests);
    let vms = vms_of(requests);
    assert forall|a: int, b: int| 0 <= a < vms.len() && 0 <= b < vms.len() && a != b implies vms[a]
        != vms[b] by {
        lemma_key_lt(vms[a], vms[a], vms[a]);
        if a < b {
            assert(key_lt(vms[a], vms[b]));
        } else {
            assert(key_lt(vms[b], vms[a]));
        }
    }
    assert(requests.contains(requests[i]));
    lemma_vms_apart(requests, vms, requests[i]);
}

/// The index of a request among those for its VM, older requests coming first.
proof fn lemma_position(requests: Seq<RequestView>, i: int) -> (k: int)
    requires
        0 <= i < requests.len(),
    ensures
        ({
            let g = requests_for(requests, requests[i].vm);
            &&& 0 <= k < g.len()
            &&& g[k] == requests[i]
            &&& g.take(k) == requests_for(requests.take(i), requests[i].vm)
        }),
{
    let vm = requests[i].vm;
    let g = requests_for(requests, vm);
    let h = requests_for(requests.take(i), vm);
    let h1 = requests_for(requests.take(i + 1), vm);
    assert(requests.take(i + 1).drop_last() =~= requests.take(i));
    assert(requests.take(i + 1).last() == requests[i]);
    lemma_requests_prefix(requests, vm, i + 1);
    assert(h1 == h.push(requests[i]));
    let k = h.len() as int;
    assert(g[k] == h1[k]);
    assert(g.take(k) =~= h);
    k
}

/// What holds of all slots of one VM.
proof fn lemma_vm_sound(g: Seq<RequestView>)
    requires
        distinct_uids(g),
    ensures
        sound(allocate_vm(Map::empty(), g)),
{
    let p = pins(fresh(), g);
    let k = keeps(p, g);
    let left = unassigned(g, k.slots);
    lemma_unassigned(g, k.slots);
    assert(g.take(g.len() as int) =~= g);
    lemma_keeps(g, g.len() as int);
    assert(left.take(left.len() as int) =~= left);
    lemma_fills(k, left, left.len() as int);
}

/// Two claims of one VM never share a slot, and every slot given out exists.
pub proof fn law_slots_are_exclusive(requests: Seq<RequestView>, i: int, j: int)
    requires
        distinct_uids(requests),
        0 <= i < requests.len(),
        0 <= j < requests.len(),
        i != j,
        requests[i].vm == requests[j].vm,
    ensures
        allocated(requests)[requests[i].uid] matches Ok(slot) ==> {
            &&& in_range(slot)
            &&& allocated(requests)[requests[j].uid] != Ok::<i32, Seq<char>>(slot)
        },
{
    law_vms_do_not_affect_each_other(requests, i);
    law_vms_do_not_affect_each_other(requests, j);
    let g = requests_for(requests, requests[i].vm);
    lemma_requests_distinct(requests, requests[i].vm);
    lemma_vm_sound(g);
    lemma_in_group(requests, i);
    lemma_in_group(requests, j);
    lemma_vm_dom(g, requests[i].uid);
    lemma_vm_dom(g, requests[j].uid);
    assert(requests[i].uid != requests[j].uid) by {
        if i < j {
            assert(requests[i].uid != requests[j].uid);
        } else {
            assert(requests[j].uid != requests[i].uid);
        }
    }
    reveal(sound);
    let a = allocate_vm(Map::empty(), g);
    assert(a.slots.contains_key(requests[i].uid));
    assert(a.slots.contains_key(requests[j].uid));
}

/// A request is among those for its VM.
proof fn lemma_in_group(requests: Seq<RequestView>, i: int)
    requires
        0 <= i < requests.len(),
    ensures
        has_uid(requests_for(requests, requests[i].vm), requests[i].uid),
{
    let k = lemma_position(requests, i);
    assert(requests_for(requests, requests[i].vm)[k].uid == requests[i].uid);
}

/// Whether an older claim of the same VM pins a slot.
pub open spec fn pinned_earlier(requests: Seq<RequestView>, i: int, slot: i32) -> bool {
    exists|j: int|
        0 <= j < i && (#[trigger] requests[j]).vm == requests[i].vm && requests[j].pinned == Some(
            slot,
        )
}

/// Whether a claim of a VM pins a slot.
pub open spec fn pinned_for(requests: Seq<RequestView>, vm: VmKey, slot: i32) -> bool {
    exists|j: int|
        0 <= j < requests.len() && (#[trigger] requests[j]).vm == vm && requests[j].pinned == Some(
            slot,
        )
}

/// Whether an older claim of the same VM that pins no slot had a slot.
pub open spec fn had_earlier(requests: Seq<RequestView>, i: int, slot: i32) -> bool {
    exists|j: int|
        0 <= j < i && (#[trigger] requests[j]).vm == requests[i].vm && requests[j].pinned is None
            && requests[j].previous == Some(slot)
}

/// What the requests for a VM pin or had is what the requests of the list for it do.
proof fn lemma_group_has(requests: Seq<RequestView>, vm: VmKey, slot: i32)
    ensures
        ({
            let g = requests_for(requests, vm);
            &&& pinned_before(g, g.len() as int, slot) <==> exists|j: int|
                0 <= j < requests.len() && (#[trigger] requests[j]).vm == vm && requests[j].pinned
                    == Some(slot)
            &&& had_before(g, g.len() as int, slot) <==> exists|j: int|
                0 <= j < requests.len() && (#[trigger] requests[j]).vm == vm && requests[j].pinned
                    is None && requests[j].previous == Some(slot)
        }),
{
    let g = requests_for(requests, vm);
    lemma_requests_for(requests, vm);
    if pinned_before(g, g.len() as int, slot) {
        let k = choose|k: int| 0 <= k < g.len() && (#[trigger] g[k]).pinned == Some(slot);
        assert(g.contains(g[k]));
        let j = choose|j: int| 0 <= j < requests.len() && requests[j] == g[k];
        assert(requests[j].vm == vm);
    }
    if exists|j: int|
        0 <= j < requests.len() && (#[trigger] requests[j]).vm == vm && requests[j].pinned == Some(
            slot,
        ) {
        let j = choose|j: int|
            0 <= j < requests.len() && (#[trigger] requests[j]).vm == vm && requests[j].pinned
                == Some(slot);
        assert(requests.contains(requests[j]));
        assert(g.contains(requests[j]));
        let k = choose|k: int| 0 <= k < g.len() && g[k] == requests[j];
        assert(g[k].pinned == Some(slot));
    }
    if had_before(g, g.len() as int, slot) {
        let k = choose|k: int|
            0 <= k < g.len() && (#[trigger] g[k]).pinned is None && g[k].previous == Some(slot);
        assert(g.contains(g[k]));
        let j = choose|j: int| 0 <= j < requests.len() && requests[j] == g[k];
        assert(requests[j].vm == vm);
    }
    if exists|j: int|
        0 <= j < requests.len() && (#[trigger] requests[j]).vm == vm && requests[j].pinned is None
            && requests[j].previous == Some(slot) {
        let j = choose|j: int|
            0 <= j < requests.len() && (#[trigger] requests[j]).vm == vm && requests[j].pinned
                is None && requests[j].previous == Some(slot);
        assert(requests.contains(requests[j]));
        assert(g.contains(requests[j]));
        let k = choose|k: int| 0 <= k < g.len() && g[k] == requests[j];
        assert(g[k].pinned is None);
    }
}

/// What older requests for a VM pin or had is what comes before a request among those for it.
proof fn lemma_group_had_earlier(requests: Seq<RequestView>, i: int, k: int, slot: i32)
    requires
        0 <= i < requests.len(),
        0 <= k <= requests_for(requests, requests[i].vm).len(),
        requests_for(requests, requests[i].vm).take(k) == requests_for(
            requests.take(i),
            requests[i].vm,
        ),
    ensures
        pinned_before(requests_for(requests, requests[i].vm), k, slot) <==> pinned_earlier(
            requests,
            i,
            slot,
        ),
        had_before(requests_for(requests, requests[i].vm), k, slot) <==> had_earlier(
            requests,
            i,
            slot,
        ),
{
    let vm = requests[i].vm;
    let g = requests_for(requests, vm);
    let older = requests.take(i);
    lemma_group_has(older, vm, slot);
    let h = g.take(k);
    if pinned_before(g, k, slot) {
        let l = choose|l: int| 0 <= l < k && (#[trigger] g[l]).pinned == Some(slot);
        assert(h[l].pinned == Some(slot));
        let j = choose|j: int|
            0 <= j < older.len() && (#[trigger] older[j]).vm == vm && older[j].pinned == Some(slot);
        assert(requests[j].vm == vm);
    }
    if pinned_earlier(requests, i, slot) {
        let j = choose|j: int|
            0 <= j < i && (#[trigger] requests[j]).vm == vm && requests[j].pinned == Some(slot);
        assert(older[j].vm == vm);
        let l = choose|l: int| 0 <= l < h.len() && (#[trigger] h[l]).pinned == Some(slot);
        assert(g[l].pinned == Some(slot));
    }
    if had_before(g, k, slot) {
        let l = choose|l: int|
            0 <= l < k && (#[trigger] g[l]).pinned is None && g[l].previous == Some(slot);
        assert(h[l].pinned is None);
        let j = choose|j: int|
            0 <= j < older.len() && (#[trigger] older[j]).vm == vm && older[j].pinned is None
                && older[j].previous == Some(slot);
        assert(requests[j].vm == vm);
    }
    if had_earlier(requests, i, slot) {
        let j = choose|j: int|
            0 <= j < i && (#[trigger] requests[j]).vm == vm && requests[j].pinned is None
                && requests[j].previous == Some(slot);
        assert(older[j].vm == vm);
        let l = choose|l: int|
            0 <= l < h.len() && (#[trigger] h[l]).pinned is None && h[l].previous == Some(slot);
        assert(g[l].pinned is None);
    }
}

/// Pinned slots win: a claim gets the slot it pins, unless an older claim of its VM pins the same.
pub proof fn law_pins_win(requests: Seq<RequestView>, i: int, slot: i32)
    requires
        distinct_uids(requests),
        0 <= i < requests.len(),
        requests[i].pinned == Some(slot),
        in_range(slot),
        !pinned_earlier(requests, i, slot),
    ensures
        allocated(requests)[requests[i].uid] == Ok::<i32, Seq<char>>(slot),
{
    law_vms_do_not_affect_each_other(requests, i);
    let g = requests_for(requests, requests[i].vm);
    lemma_requests_distinct(requests, requests[i].vm);
    let k = lemma_position(requests, i);
    lemma_group_had_earlier(requests, i, k, slot);
    let n = g.len() as int;
    assert(g.take(n) =~= g);
    lemma_pins(g, n);
    lemma_keeps(g, n);
    let p = pins(fresh(), g);
    let a = keeps(p, g);
    assert(g[k].pinned matches Some(s) && in_range(s) && !pinned_before(g, k, s));
    assert(p.slots[g[k].uid] == Ok::<i32, Seq<char>>(slot));
    assert(a.slots.contains_key(g[k].uid) && a.slots[g[k].uid] == p.slots[g[k].uid]);
    let left = unassigned(g, a.slots);
    lemma_unassigned(g, a.slots);
    assert(left.take(left.len() as int) =~= left);
    lemma_fills(a, left, left.len() as int);
}

/// A claim that pins no slot keeps the one it had, unless a claim of its VM pins that slot or an
/// older one had the same.
pub proof fn law_slots_are_kept(requests: Seq<RequestView>, i: int, slot: i32)
    requires
        distinct_uids(requests),
        0 <= i < requests.len(),
        requests[i].pinned is None,
        requests[i].previous == Some(slot),
        in_range(slot),
        !pinned_for(requests, requests[i].vm, slot),
        !had_earlier(requests, i, slot),
    ensures
        allocated(requests)[requests[i].uid] == Ok::<i32, Seq<char>>(slot),
{
    law_vms_do_not_affect_each_other(requests, i);
    let vm = requests[i].vm;
    let g = requests_for(requests, vm);
    lemma_requests_distinct(requests, vm);
    let k = lemma_position(requests, i);
    lemma_group_had_earlier(requests, i, k, slot);
    lemma_group_has(requests, vm, slot);
    let n = g.len() as int;
    assert(g.take(n) =~= g);
    lemma_keeps(g, n);
    let a = keeps(pins(fresh(), g), g);
    assert(keeps_own(g, k));
    assert(a.slots.contains_key(g[k].uid));
    let left = unassigned(g, a.slots);
    lemma_unassigned(g, a.slots);
    assert(left.take(left.len() as int) =~= left);
    lemma_fills(a, left, left.len() as int);
}

/// Whether a claim of a VM has a slot.
pub open spec fn slot_taken(requests: Seq<RequestView>, vm: VmKey, slot: i32) -> bool {
    exists|j: int|
        0 <= j < requests.len() && (#[trigger] requests[j]).vm == vm && allocated(
            requests,
        )[requests[j].uid] == Ok::<i32, Seq<char>>(slot)
}

/// A slot in use is the slot of a claim of the VM.
proof fn lemma_used_is_taken(requests: Seq<RequestView>, vm: VmKey, slot: i32)
    requires
        distinct_uids(requests),
        in_range(slot),
        allocate_vm(Map::empty(), requests_for(requests, vm)).used[slot as int] is Some,
    ensures
        slot_taken(requests, vm, slot),
{
    let g = requests_for(requests, vm);
    let a = allocate_vm(Map::empty(), g);
    lemma_requests_distinct(requests, vm);
    lemma_vm_sound(g);
    assert(is_given(a, slot)) by {
        reveal(sound);
        assert(a.used[slot as int] is Some);
    }
    let u = choose|u: Seq<char>| #[trigger]
        a.slots.contains_key(u) && a.slots[u] == Ok::<i32, Seq<char>>(slot);
    lemma_vm_dom(g, u);
    let k = choose|k: int| 0 <= k < g.len() && (#[trigger] g[k]).uid == u;
    lemma_requests_for(requests, vm);
    assert(g.contains(g[k]));
    let j = choose|j: int| 0 <= j < requests.len() && requests[j] == g[k];
    law_vms_do_not_affect_each_other(requests, j);
    assert(requests[j].vm == vm);
}

/// A claim that neither pins its slot nor had it gets the highest free one: every slot above it is
/// that of another claim of its VM. It gets none only if all slots are.
pub proof fn law_highest_free_slot(requests: Seq<RequestView>, i: int)
    requires
        distinct_uids(requests),
        0 <= i < requests.len(),
        requests[i].pinned is None,
    ensures
        match allocated(requests)[requests[i].uid] {
            Ok(slot) => requests[i].previous != Some(slot) ==> forall|t: i32|
                slot < t < USBREDIR_SLOTS ==> #[trigger] slot_taken(requests, requests[i].vm, t),
            Err(why) => why == full_message() && forall|t: i32|
                0 <= t < USBREDIR_SLOTS ==> #[trigger] slot_taken(requests, requests[i].vm, t),
        },
{
    law_vms_do_not_affect_each_other(requests, i);
    let vm = requests[i].vm;
    let g = requests_for(requests, vm);
    lemma_requests_distinct(requests, vm);
    let k = lemma_position(requests, i);
    let n = g.len() as int;
    assert(g.take(n) =~= g);
    lemma_keeps(g, n);
    let a = keeps(pins(fresh(), g), g);
    let left = unassigned(g, a.slots);
    lemma_unassigned(g, a.slots);
    assert(left.take(left.len() as int) =~= left);
    lemma_fills(a, left, left.len() as int);
    let b = fills(a, left);
    let r = requests[i];
    assert(g[k].pinned is None);
    if !a.slots.contains_key(g[k].uid) {
        assert(left.contains(g[k]));
        let l = choose|l: int| 0 <= l < left.len() && left[l] == g[k];
        assert(b.slots.contains_key(left[l].uid));
        match b.slots[r.uid] {
            Ok(slot) => {
                assert(above_used(b, slot as int));
                assert forall|t: i32| slot < t < USBREDIR_SLOTS implies #[trigger] slot_taken(
                    requests,
                    vm,
                    t,
                ) by {
                    assert(in_range(slot)) by {
                        reveal(sound);
                        assert(b.slots.contains_key(r.uid));
                    }
                    assert(b.used[t as int] is Some);
                    lemma_used_is_taken(requests, vm, t);
                }
            },
            Err(_) => {
                assert(above_used(b, -1));
                assert forall|t: i32| 0 <= t < USBREDIR_SLOTS implies #[trigger] slot_taken(
                    requests,
                    vm,
                    t,
                ) by {
                    assert(b.used[t as int] is Some);
                    lemma_used_is_taken(requests, vm, t);
                }
            },
        }
    }
}

/// A request of a claim that has what it was given.
pub open spec fn settled_request(
    r: RequestView,
    slots: Map<Seq<char>, SlotResult>,
) -> RequestView {
    RequestView {
        previous: match slots[r.uid] {
            Ok(slot) => Some(slot),
            Err(_) => None,
        },
        ..r
    }
}

/// The same requests once each claim has what it was given.
pub open spec fn settled(
    requests: Seq<RequestView>,
    slots: Map<Seq<char>, SlotResult>,
) -> Seq<RequestView> {
    requests.map_values(|r: RequestView| settled_request(r, slots))
}

/// What the claims had does not matter for the pins of a VM.
proof fn lemma_pins_settled(
    requests: Seq<RequestView>,
    slots: Map<Seq<char>, SlotResult>,
    vm: VmKey,
)
    ensures
        pins(fresh(), requests_for(settled(requests, slots), vm)) == pins(
            fresh(),
            requests_for(requests, vm),
        ),
    decreases requests.len(),
{
    let after = settled(requests, slots);
    if requests.len() > 0 {
        let rest = requests.drop_last();
        lemma_pins_settled(rest, slots, vm);
        assert(after.drop_last() =~= settled(rest, slots));
        assert(after.last() == settled_request(requests.last(), slots));
        if requests.last().vm == vm {
            let g = requests_for(rest, vm);
            let h = requests_for(settled(rest, slots), vm);
            assert(g.push(requests.last()).drop_last() =~= g);
            assert(h.push(after.last()).drop_last() =~= h);
            assert(pin(pins(fresh(), g), requests.last()) == pin(pins(fresh(), g), after.last()));
        }
    }
}

/// A claim that pins a slot has what came of the pins.
proof fn lemma_pinned_result(requests: Seq<RequestView>, i: int)
    requires
        distinct_uids(requests),
        0 <= i < requests.len(),
        requests[i].pinned is Some,
    ensures
        allocated(requests)[requests[i].uid] == pins(
            fresh(),
            requests_for(requests, requests[i].vm),
        ).slots[requests[i].uid],
{
    law_vms_do_not_affect_each_other(requests, i);
    let g = requests_for(requests, requests[i].vm);
    lemma_requests_distinct(requests, requests[i].vm);
    let k = lemma_position(requests, i);
    let n = g.len() as int;
    assert(g.take(n) =~= g);
    lemma_keeps(g, n);
    let p = pins(fresh(), g);
    let a = keeps(p, g);
    assert(a.slots.contains_key(g[k].uid) && a.slots[g[k].uid] == p.slots[g[k].uid]);
    let left = unassigned(g, a.slots);
    lemma_unassigned(g, a.slots);
    assert(left.take(left.len() as int) =~= left);
    lemma_fills(a, left, left.len() as int);
}

/// The oldest claim of a VM that pins a slot.
proof fn lemma_oldest_pin(requests: Seq<RequestView>, j: int, slot: i32) -> (first: int)
    requires
        0 <= j < requests.len(),
        requests[j].pinned == Some(slot),
    ensures
        0 <= first <= j,
        requests[first].vm == requests[j].vm,
        requests[first].pinned == Some(slot),
        !pinned_earlier(requests, first, slot),
    decreases j,
{
    if pinned_earlier(requests, j, slot) {
        let k = choose|k: int|
            0 <= k < j && (#[trigger] requests[k]).vm == requests[j].vm && requests[k].pinned
                == Some(slot);
        lemma_oldest_pin(requests, k, slot)
    } else {
        j
    }
}

/// A claim with a slot keeps it once each claim has what it was given.
proof fn lemma_given_slots_settle(requests: Seq<RequestView>, i: int)
    requires
        distinct_uids(requests),
        0 <= i < requests.len(),
        requests[i].pinned is Some || allocated(requests)[requests[i].uid] is Ok,
    ensures
        distinct_uids(settled(requests, allocated(requests))),
        allocated(settled(requests, allocated(requests)))[requests[i].uid] == allocated(
            requests,
        )[requests[i].uid],
{
    let slots = allocated(requests);
    let after = settled(requests, slots);
    assert forall|a: int, b: int| 0 <= a < b < after.len() implies (#[trigger] after[a]).uid != (
    #[trigger] after[b]).uid by {
        assert(requests[a].uid != requests[b].uid);
    }
    assert(after[i] == settled_request(requests[i], slots));
    if requests[i].pinned is Some {
        lemma_pinned_result(requests, i);
        lemma_pinned_result(after, i);
        lemma_pins_settled(requests, slots, requests[i].vm);
    } else {
        let slot = slots[requests[i].uid]->Ok_0;
        let vm = requests[i].vm;
        assert(in_range(slot)) by {
            lemma_slot_exists(requests, i);
        }
        if pinned_for(after, vm, slot) {
            let j = choose|j: int|
                0 <= j < after.len() && (#[trigger] after[j]).vm == vm && after[j].pinned == Some(
                    slot,
                );
            assert(requests[j].vm == vm && requests[j].pinned == Some(slot));
            let first = lemma_oldest_pin(requests, j, slot);
            law_pins_win(requests, first, slot);
            law_slots_are_exclusive(requests, first, i);
        }
        if had_earlier(after, i, slot) {
            let j = choose|j: int|
                0 <= j < i && (#[trigger] after[j]).vm == vm && after[j].pinned is None
                    && after[j].previous == Some(slot);
            assert(after[j] == settled_request(requests[j], slots));
            law_slots_are_exclusive(requests, i, j);
        }
        law_slots_are_kept(after, i, slot);
    }
}

/// A slot that was given out exists.
proof fn lemma_slot_exists(requests: Seq<RequestView>, i: int)
    requires
        distinct_uids(requests),
        0 <= i < requests.len(),
    ensures
        allocated(requests)[requests[i].uid] matches Ok(slot) ==> in_range(slot),
{
    law_vms_do_not_affect_each_other(requests, i);
    let g = requests_for(requests, requests[i].vm);
    lemma_requests_distinct(requests, requests[i].vm);
    lemma_vm_sound(g);
    lemma_in_group(requests, i);
    lemma_vm_dom(g, requests[i].uid);
    reveal(sound);
    assert(allocate_vm(Map::empty(), g).slots.contains_key(requests[i].uid));
}

/// Slots settle: once each claim has what it was given, the same claims are given the same again.
pub proof fn law_slots_settle(requests: Seq<RequestView>, i: int)
    requires
        distinct_uids(requests),
        0 <= i < requests.len(),
    ensures
        allocated(settled(requests, allocated(requests)))[requests[i].uid] == allocated(
            requests,
        )[requests[i].uid],
{
    let slots = allocated(requests);
    let after = settled(requests, slots);
    if requests[i].pinned is Some || slots[requests[i].uid] is Ok {
        lemma_given_slots_settle(requests, i);
    } else {
        let vm = requests[i].vm;
        law_highest_free_slot(requests, i);
        assert forall|a: int, b: int| 0 <= a < b < after.len() implies (#[trigger] after[a]).uid
            != (#[trigger] after[b]).uid by {
            assert(requests[a].uid != requests[b].uid);
        }
        assert(after[i] == settled_request(requests[i], slots));
        law_highest_free_slot(after, i);
        if let Ok(slot) = allocated(after)[requests[i].uid] {
            lemma_slot_exists(after, i);
            assert(slot_taken(requests, vm, slot));
            let j = choose|j: int|
                0 <= j < requests.len() && (#[trigger] requests[j]).vm == vm
                    && slots[requests[j].uid] == Ok::<i32, Seq<char>>(slot);
            lemma_given_slots_settle(requests, j);
            assert(after[j] == settled_request(requests[j], slots));
            law_slots_are_exclusive(after, i, j);
        }
    }
}

/// Whether a request is the first of some that pins a slot.
spec fn first_pin(g: Seq<RequestView>, n: int, slot: i32, j: int) -> bool {
    0 <= j < n && g[j].pinned == Some(slot) && !pinned_before(g, j, slot)
}

/// What the first `n` requests of a VM that pin a slot are told: who has a slot is the first that
/// pins it, and the others are refused.
proof fn lemma_pins_told(g: Seq<RequestView>, n: int)
    requires
        distinct_uids(g),
        0 <= n <= g.len(),
    ensures
        ({
            let a = pins(fresh(), g.take(n));
            &&& forall|slot: i32, j: int| #[trigger]
                first_pin(g, n, slot, j) && in_range(slot) ==> a.used[slot as int] == Some(
                    g[j].name,
                )
            &&& forall|i: int|
                0 <= i < n ==> ((#[trigger] g[i]).pinned matches Some(slot) ==> !in_range(slot)
                    ==> a.slots[g[i].uid] == Err::<i32, Seq<char>>(range_message()))
            &&& forall|i: int, slot: i32, j: int| #[trigger]
                refused_pin(g, n, i, slot, j) ==> a.slots[g[i].uid] == Err::<i32, Seq<char>>(
                    pinned_message(slot, g[j].name),
                )
        }),
    decreases n,
{
    if n == 0 {
        assert(g.take(0) =~= Seq::empty());
    } else {
        lemma_pins_told(g, n - 1);
        lemma_pins(g, n - 1);
        let a = pins(fresh(), g.take(n - 1));
        let b = pins(fresh(), g.take(n));
        let r = g[n - 1];
        assert(g.take(n).drop_last() =~= g.take(n - 1));
        assert(g.take(n).last() == r);
        assert(b == pin(a, r));
        assert(a.used.len() == USBREDIR_SLOTS) by {
            reveal(sound);
        }
        assert forall|slot: i32, j: int| #[trigger]
            first_pin(g, n, slot, j) && in_range(slot) implies b.used[slot as int] == Some(
            g[j].name,
        ) by {
            assert(pinned_before(g, n - 1, slot) || !pinned_before(g, n - 1, slot));
            if j < n - 1 {
                assert(first_pin(g, n - 1, slot, j));
                assert(a.used[slot as int] == Some(g[j].name));
            }
        }
        assert forall|i: int| 0 <= i < n implies ((#[trigger] g[i]).pinned matches Some(slot)
            ==> !in_range(slot) ==> b.slots[g[i].uid] == Err::<i32, Seq<char>>(range_message())) by {
            if i < n - 1 {
                assert(g[i].uid != g[n - 1].uid);
            }
        }
        assert forall|i: int, slot: i32, j: int| #[trigger]
            refused_pin(g, n, i, slot, j) implies b.slots[g[i].uid] == Err::<i32, Seq<char>>(
            pinned_message(slot, g[j].name),
        ) by {
            if i < n - 1 {
                assert(g[i].uid != g[n - 1].uid);
                assert(refused_pin(g, n - 1, i, slot, j));
            } else {
                assert(first_pin(g, n - 1, slot, j));
            }
        }
    }
}

/// Whether a request among the first `n` pins a slot that another pins before it.
spec fn refused_pin(g: Seq<RequestView>, n: int, i: int, slot: i32, j: int) -> bool {
    &&& 0 <= i < n
    &&& g[i].pinned == Some(slot)
    &&& in_range(slot)
    &&& first_pin(g, i, slot, j)
}

/// What a request that pins a slot is told in the end is what it was told first.
proof fn lemma_pins_stay(requests: Seq<RequestView>, i: int, k: int)
    requires
        distinct_uids(requests),
        0 <= i < requests.len(),
        0 <= k < requests_for(requests, requests[i].vm).len(),
        requests_for(requests, requests[i].vm)[k] == requests[i],
        requests[i].pinned is Some,
    ensures
        allocated(requests)[requests[i].uid] == pins(
            fresh(),
            requests_for(requests, requests[i].vm),
        ).slots[requests[i].uid],
{
    law_vms_do_not_affect_each_other(requests, i);
    let g = requests_for(requests, requests[i].vm);
    lemma_requests_distinct(requests, requests[i].vm);
    let n = g.len() as int;
    assert(g.take(n) =~= g);
    lemma_keeps(g, n);
    let a = keeps(pins(fresh(), g), g);
    assert(a.slots.contains_key(g[k].uid));
    let left = unassigned(g, a.slots);
    lemma_unassigned(g, a.slots);
    assert(left.take(left.len() as int) =~= left);
    lemma_fills(a, left, left.len() as int);
}

/// A VM has four slots, from 0 to 3: a claim that pins another one is refused.
pub proof fn law_pins_outside_the_slots_are_refused(requests: Seq<RequestView>, i: int, slot: i32)
    requires
        distinct_uids(requests),
        0 <= i < requests.len(),
        requests[i].pinned == Some(slot),
        slot < 0 || slot > 3,
    ensures
        allocated(requests)[requests[i].uid] == Err::<i32, Seq<char>>(
            "spec.slot must be between 0 and "@ + decimal_int(3),
        ),
{
    let g = requests_for(requests, requests[i].vm);
    lemma_requests_distinct(requests, requests[i].vm);
    let k = lemma_position(requests, i);
    lemma_pins_stay(requests, i, k);
    assert(g.take(g.len() as int) =~= g);
    lemma_pins_told(g, g.len() as int);
    assert(g[k].pinned == Some(slot));
}

/// A claim that pins a slot from 0 to 3 gets it, unless an older claim of its VM pins the same: then
/// it is refused, and told which claim pins the slot.
pub proof fn law_the_oldest_pin_wins(requests: Seq<RequestView>, i: int, j: int, slot: i32)
    requires
        distinct_uids(requests),
        0 <= j <= i < requests.len(),
        requests[i].vm == requests[j].vm,
        requests[i].pinned == Some(slot),
        requests[j].pinned == Some(slot),
        0 <= slot <= 3,
        forall|l: int|
            0 <= l < j && (#[trigger] requests[l]).vm == requests[i].vm ==> requests[l].pinned
                != Some(slot),
    ensures
        allocated(requests)[requests[j].uid] == Ok::<i32, Seq<char>>(slot),
        i != j ==> allocated(requests)[requests[i].uid] == Err::<i32, Seq<char>>(
            "slot "@ + decimal_int(slot as int) + " is already pinned by claim "@
                + requests[j].name,
        ),
{
    law_pins_win(requests, j, slot);
    if i != j {
        let vm = requests[i].vm;
        let g = requests_for(requests, vm);
        lemma_requests_distinct(requests, vm);
        let ki = lemma_position(requests, i);
        let kj = lemma_position(requests, j);
        lemma_pins_stay(requests, i, ki);
        assert(g.take(g.len() as int) =~= g);
        lemma_pins_told(g, g.len() as int);
        lemma_group_had_earlier(requests, j, kj, slot);
        lemma_earlier_in_group(requests, j, i, kj, ki);
        assert(first_pin(g, ki, slot, kj));
        assert(refused_pin(g, g.len() as int, ki, slot, kj));
    }
}

/// An older request of a VM comes before a younger one among the requests for it.
proof fn lemma_earlier_in_group(requests: Seq<RequestView>, i: int, j: int, ki: int, kj: int)
    requires
        distinct_uids(requests),
        0 <= i < j < requests.len(),
        requests[i].vm == requests[j].vm,
        ({
            let g = requests_for(requests, requests[i].vm);
            &&& 0 <= ki < g.len()
            &&& 0 <= kj < g.len()
            &&& g[ki] == requests[i]
            &&& g[kj] == requests[j]
            &&& g.take(kj) == requests_for(requests.take(j), requests[j].vm)
        }),
    ensures
        ki < kj,
{
    let vm = requests[i].vm;
    let g = requests_for(requests, vm);
    let older = requests.take(j);
    lemma_requests_for(older, vm);
    lemma_requests_distinct(requests, vm);
    assert(older[i] == requests[i]);
    assert(older.contains(requests[i]));
    assert(requests_for(older, vm).contains(requests[i]));
    let l = choose|l: int| 0 <= l < g.take(kj).len() && g.take(kj)[l] == requests[i];
    assert(g[l] == requests[i]);
    if l != ki {
        assert(g[l].uid == g[ki].uid);
    }
}

/// Of the requests that get what is free, each gets a higher slot than those behind it, and none
/// gets one if one before it got none.
proof fn lemma_fills_order(a: Allocation, u: Seq<RequestView>, n: int)
    requires
        sound(a),
        distinct_uids(u),
        forall|k: int| 0 <= k < u.len() ==> !a.slots.contains_key((#[trigger] u[k]).uid),
        0 <= n <= u.len(),
    ensures
        ({
            let b = fills(a, u.take(n));
            forall|k: int, l: int|
                #![trigger u[k], u[l]]
                0 <= k < l < n ==> match (b.slots[u[k].uid], b.slots[u[l].uid]) {
                    (Ok(s), Ok(t)) => t < s,
                    (Ok(_), Err(_)) => true,
                    (Err(_), r) => r is Err,
                }
        }),
    decreases n,
{
    if n == 0 {
        assert(u.take(0) =~= Seq::empty());
    } else {
        lemma_fills_order(a, u, n - 1);
        lemma_fills(a, u, n - 1);
        let c = fills(a, u.take(n - 1));
        let b = fills(a, u.take(n));
        let r = u[n - 1];
        assert(u.take(n).drop_last() =~= u.take(n - 1));
        assert(u.take(n).last() == r);
        assert(b == fill(c, r));
        lemma_highest_free(c.used, USBREDIR_SLOTS as int);
        assert forall|k: int, l: int|
            #![trigger u[k], u[l]]
            0 <= k < l < n implies match (b.slots[u[k].uid], b.slots[u[l].uid]) {
            (Ok(s), Ok(t)) => t < s,
            (Ok(_), Err(_)) => true,
            (Err(_), r) => r is Err,
        } by {
            assert(u[k].uid != u[n - 1].uid);
            if l == n - 1 {
                match c.slots[u[k].uid] {
                    Ok(s) => {
                        lemma_given_is_used(c, u[k].uid, s);
                        assert(above_used(c, s as int));
                    },
                    Err(_) => {
                        assert(above_used(c, -1));
                    },
                }
            } else {
                assert(u[l].uid != u[n - 1].uid);
            }
        }
    }
}

/// A slot that was given out is in use.
proof fn lemma_given_is_used(a: Allocation, uid: Seq<char>, slot: i32)
    requires
        sound(a),
        a.slots.contains_key(uid),
        a.slots[uid] == Ok::<i32, Seq<char>>(slot),
    ensures
        in_range(slot),
        a.used[slot as int] is Some,
{
    reveal(sound);
}

/// The requests without a result are in the order in which they came.
proof fn lemma_unassigned_order(
    g: Seq<RequestView>,
    slots: Map<Seq<char>, SlotResult>,
    i: int,
    j: int,
) -> (kl: (int, int))
    requires
        0 <= i < j < g.len(),
        !slots.contains_key(g[i].uid),
        !slots.contains_key(g[j].uid),
    ensures
        0 <= kl.0 < kl.1 < unassigned(g, slots).len(),
        unassigned(g, slots)[kl.0] == g[i],
        unassigned(g, slots)[kl.1] == g[j],
    decreases g.len(),
{
    let rest = g.drop_last();
    assert(rest[i] == g[i]);
    if j == g.len() - 1 {
        let k = lemma_unassigned_has(rest, slots, i);
        (k, unassigned(rest, slots).len() as int)
    } else {
        assert(rest[j] == g[j]);
        lemma_unassigned_order(rest, slots, i, j)
    }
}

/// A request without a result is among those.
proof fn lemma_unassigned_has(
    g: Seq<RequestView>,
    slots: Map<Seq<char>, SlotResult>,
    i: int,
) -> (k: int)
    requires
        0 <= i < g.len(),
        !slots.contains_key(g[i].uid),
    ensures
        0 <= k < unassigned(g, slots).len(),
        unassigned(g, slots)[k] == g[i],
    decreases g.len(),
{
    let rest = g.drop_last();
    if i == g.len() - 1 {
        unassigned(rest, slots).len() as int
    } else {
        assert(rest[i] == g[i]);
        lemma_unassigned_has(rest, slots, i)
    }
}

/// Older claims come first: of two claims of a VM that neither pin a slot nor had one, the older
/// gets the higher slot, and the younger gets none if the older gets none.
pub proof fn law_older_claims_get_higher_slots(requests: Seq<RequestView>, i: int, j: int)
    requires
        distinct_uids(requests),
        0 <= i < j < requests.len(),
        requests[i].vm == requests[j].vm,
        requests[i].pinned is None,
        requests[i].previous is None,
        requests[j].pinned is None,
        requests[j].previous is None,
    ensures
        match (allocated(requests)[requests[i].uid], allocated(requests)[requests[j].uid]) {
            (Ok(s), Ok(t)) => t < s,
            (Ok(_), Err(_)) => true,
            (Err(_), r) => r is Err,
        },
{
    law_vms_do_not_affect_each_other(requests, i);
    law_vms_do_not_affect_each_other(requests, j);
    let vm = requests[i].vm;
    let g = requests_for(requests, vm);
    lemma_requests_distinct(requests, vm);
    let ki = lemma_position(requests, i);
    let kj = lemma_position(requests, j);
    lemma_earlier_in_group(requests, i, j, ki, kj);
    let n = g.len() as int;
    assert(g.take(n) =~= g);
    lemma_keeps(g, n);
    let a = keeps(pins(fresh(), g), g);
    assert(g[ki].pinned is None && g[kj].pinned is None);
    let left = unassigned(g, a.slots);
    lemma_unassigned(g, a.slots);
    let (k, l) = lemma_unassigned_order(g, a.slots, ki, kj);
    assert(left.take(left.len() as int) =~= left);
    lemma_fills_order(a, left, left.len() as int);
    assert(left[k] == requests[i] && left[l] == requests[j]);
}

/// A claim that pins no slot and gets none is told that all four are in use.
pub proof fn law_full_vms_are_told_so(requests: Seq<RequestView>, i: int)
    requires
        distinct_uids(requests),
        0 <= i < requests.len(),
        requests[i].pinned is None,
    ensures
        allocated(requests)[requests[i].uid] matches Err(why) ==> why == "all "@ + decimal_int(4)
            + " usbredir slots of the VM are in use"@,
        allocated(requests)[requests[i].uid] matches Ok(slot) ==> 0 <= slot <= 3,
{
    law_highest_free_slot(requests, i);
    lemma_slot_exists(requests, i);
}

} // verus!

//! What publishing, subscribing and unsubscribing guarantee together.
use vstd::prelude::*;
use crate::buffer::keys_of;
use crate::engine::{
    is_subscribed, kit_of, measurements_of, publish_step, subscribe_step, subscriptions_of,
    unsubscribe_step, view_wf, EngineView, Notification,
};
use crate::measurement::{key_of, PeripheralQuantityType, RawMeasurement};
use crate::registry::SubscriptionId;

verus! {

/// A sink that subscribed to a kit after one publish to a channel receives
/// the next publish to that channel.
pub proof fn lemma_no_missed_update<S>(
    e0: EngineView<S>,
    kit: Seq<char>,
    v1: RawMeasurement,
    e1: EngineView<S>,
    n1: Seq<Notification>,
    sink: S,
    e2: EngineView<S>,
    id: SubscriptionId,
    replay: Seq<Notification>,
    v2: RawMeasurement,
    e3: EngineView<S>,
    n3: Seq<Notification>,
)
    requires
        key_of(v1) == key_of(v2),
        publish_step(e0, kit, v1, e1, n1),
        subscribe_step(e1, kit, sink, e2, id, replay),
        publish_step(e2, kit, v2, e3, n3),
    ensures
        exists|i: int| 0 <= i < n3.len() && n3[i] == (Notification { subscription: id, measurement: v2 }),
{
    assert(kit_of(e2, kit).subscribers.contains_key(id));
    let subs = subscriptions_of(n3);
    assert(subs.to_set().contains(id));
    let i = subs.index_of(id);
    assert(n3[i].subscription == id);
    assert(n3[i].measurement == v2);
}

/// A sink that subscribes right after a publish gets exactly one replayed
/// value for that channel, and it is the published one.
pub proof fn lemma_replay_is_latest<S>(
    e0: EngineView<S>,
    kit: Seq<char>,
    v: RawMeasurement,
    e1: EngineView<S>,
    n1: Seq<Notification>,
    sink: S,
    e2: EngineView<S>,
    id: SubscriptionId,
    replay: Seq<Notification>,
)
    requires
        publish_step(e0, kit, v, e1, n1),
        subscribe_step(e1, kit, sink, e2, id, replay),
    ensures
        exists|i: int| 0 <= i < replay.len() && replay[i] == (Notification { subscription: id, measurement: v }),
        forall|i: int, j: int|
            0 <= i < replay.len() && 0 <= j < replay.len() && key_of(replay[i].measurement) == key_of(v)
                && key_of(replay[j].measurement) == key_of(v) ==> i == j,
        forall|i: int|
            0 <= i < replay.len() && key_of(replay[i].measurement) == key_of(v) ==> replay[i].measurement == v,
{
    let latest = kit_of(e1, kit).latest;
    let ms = measurements_of(replay);
    assert(latest.contains_key(key_of(v)) && latest[key_of(v)] == v);
    assert(keys_of(ms).contains(key_of(v)));
    let i = keys_of(ms).index_of(key_of(v));
    assert(latest.contains_key(key_of(ms[i])));
    assert(replay[i].subscription == id);
    assert(replay[i].measurement == ms[i]);
    assert forall|a: int, b: int|
        0 <= a < replay.len() && 0 <= b < replay.len() && key_of(replay[a].measurement) == key_of(v)
            && key_of(replay[b].measurement) == key_of(v) implies a == b by {
        assert(keys_of(ms)[a] == keys_of(ms)[b]);
    }
    assert forall|a: int|
        0 <= a < replay.len() && key_of(replay[a].measurement) == key_of(v) implies replay[a].measurement
        == v by {
        assert(ms[a] == replay[a].measurement);
        assert(latest.contains_key(key_of(ms[a])));
    }
}

/// After two publishes to one channel, a sink that subscribes is replayed the
/// second value for that channel and never the first.
pub proof fn lemma_latest_supersedes<S>(
    e0: EngineView<S>,
    kit: Seq<char>,
    v1: RawMeasurement,
    e1: EngineView<S>,
    n1: Seq<Notification>,
    v2: RawMeasurement,
    e2: EngineView<S>,
    n2: Seq<Notification>,
    sink: S,
    e3: EngineView<S>,
    id: SubscriptionId,
    replay: Seq<Notification>,
)
    requires
        key_of(v1) == key_of(v2),
        publish_step(e0, kit, v1, e1, n1),
        publish_step(e1, kit, v2, e2, n2),
        subscribe_step(e2, kit, sink, e3, id, replay),
    ensures
        exists|i: int| 0 <= i < replay.len() && replay[i] == (Notification { subscription: id, measurement: v2 }),
        forall|i: int|
            0 <= i < replay.len() && key_of(replay[i].measurement) == key_of(v2) ==> replay[i].measurement == v2,
        v1 != v2 ==> forall|i: int| 0 <= i < replay.len() ==> replay[i].measurement != v1,
{
    lemma_replay_is_latest(e1, kit, v2, e2, n2, sink, e3, id, replay);
}

/// A publish notifies only of the published measurement, and leaves the
/// latest value of every other channel as it was.
pub proof fn lemma_independent_keys<S>(
    e0: EngineView<S>,
    kit: Seq<char>,
    m: RawMeasurement,
    e1: EngineView<S>,
    ns: Seq<Notification>,
    other: PeripheralQuantityType,
)
    requires
        publish_step(e0, kit, m, e1, ns),
        other != key_of(m),
    ensures
        forall|i: int| 0 <= i < ns.len() ==> key_of(#[trigger] ns[i].measurement) == key_of(m),
        kit_of(e1, kit).latest.contains_key(other) == kit_of(e0, kit).latest.contains_key(other),
        kit_of(e0, kit).latest.contains_key(other) ==> kit_of(e1, kit).latest[other] == kit_of(
            e0,
            kit,
        ).latest[other],
{
}

/// Unsubscribing twice under one identifier does what unsubscribing once does.
pub proof fn lemma_unsubscribe_twice<S>(
    e0: EngineView<S>,
    id: SubscriptionId,
    e1: EngineView<S>,
    e2: EngineView<S>,
)
    requires
        unsubscribe_step(e0, id, e1),
        unsubscribe_step(e1, id, e2),
    ensures
        e2 == e1,
{
    assert forall|k: Seq<char>| #[trigger] e1.kits.contains_key(k) implies e1.kits[k].subscribers.remove(
        id,
    ) =~= e1.kits[k].subscribers by {}
    assert(e2.kits =~= e1.kits);
}

/// Unsubscribing an identifier under which nothing is subscribed changes nothing.
pub proof fn lemma_unsubscribe_unknown<S>(e0: EngineView<S>, id: SubscriptionId, e1: EngineView<S>)
    requires
        !is_subscribed(e0, id),
        unsubscribe_step(e0, id, e1),
    ensures
        e1 == e0,
{
    assert forall|k: Seq<char>| #[trigger] e0.kits.contains_key(k) implies e0.kits[k].subscribers.remove(
        id,
    ) =~= e0.kits[k].subscribers by {
        if e0.kits[k].subscribers.contains_key(id) {
            assert(is_subscribed(e0, id));
        }
    }
    assert(e1.kits =~= e0.kits);
}

/// Unsubscribing one identifier leaves every other subscription, and every
/// latest value, as it was.
pub proof fn lemma_unsubscribe_keeps_others<S>(
    e0: EngineView<S>,
    id: SubscriptionId,
    e1: EngineView<S>,
    kit: Seq<char>,
    other: SubscriptionId,
)
    requires
        unsubscribe_step(e0, id, e1),
        other != id,
    ensures
        kit_of(e1, kit).subscribers.contains_key(other) == kit_of(e0, kit).subscribers.contains_key(
            other,
        ),
        kit_of(e0, kit).subscribers.contains_key(other) ==> kit_of(e1, kit).subscribers[other]
            == kit_of(e0, kit).subscribers[other],
        kit_of(e1, kit).latest == kit_of(e0, kit).latest,
{
}

/// A publish to one kit notifies no subscription of another kit.
pub proof fn lemma_cross_kit_isolation<S>(
    e0: EngineView<S>,
    kit: Seq<char>,
    m: RawMeasurement,
    e1: EngineView<S>,
    ns: Seq<Notification>,
    other_kit: Seq<char>,
)
    requires
        view_wf(e0),
        publish_step(e0, kit, m, e1, ns),
        other_kit != kit,
    ensures
        forall|i: int|
            0 <= i < ns.len() ==> !kit_of(e0, other_kit).subscribers.contains_key(
                #[trigger] ns[i].subscription,
            ),
{
    assert forall|i: int| 0 <= i < ns.len() implies !kit_of(e0, other_kit).subscribers.contains_key(
        #[trigger] ns[i].subscription,
    ) by {
        let x = ns[i].subscription;
        assert(subscriptions_of(ns)[i] == x);
        assert(subscriptions_of(ns).to_set().contains(x));
        assert(kit_of(e0, kit).subscribers.contains_key(x));
        if e0.kits.contains_key(other_kit) && e0.kits[other_kit].subscribers.contains_key(x) {
            assert(e0.kits.contains_key(kit));
            assert(e0.kits[kit].subscribers.contains_key(x));
        }
    }
}

/// A publish makes exactly one notification for each subscription of its
/// kit, whatever later becomes of them.
pub proof fn lemma_fanout_count<S>(
    e0: EngineView<S>,
    kit: Seq<char>,
    m: RawMeasurement,
    e1: EngineView<S>,
    ns: Seq<Notification>,
)
    requires
        view_wf(e0),
        publish_step(e0, kit, m, e1, ns),
    ensures
        ns.len() == kit_of(e0, kit).subscribers.len(),
        forall|i: int| 0 <= i < ns.len() ==> kit_of(e0, kit).subscribers.contains_key(
            #[trigger] ns[i].subscription,
        ),
{
    let subs = subscriptions_of(ns);
    subs.unique_seq_to_set();
    assert forall|i: int| 0 <= i < ns.len() implies kit_of(e0, kit).subscribers.contains_key(
        #[trigger] ns[i].subscription,
    ) by {
        assert(subs[i] == ns[i].subscription);
        assert(subs.to_set().contains(subs[i]));
    }
}

} // verus!

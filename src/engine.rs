//! Which sinks follow which kit, the latest measurement of each channel of
//! each kit, and the deliveries that publishing and subscribing call for.
//!
//! The engine performs no delivery itself: each operation returns the
//! notifications to make, and the caller hands them to the sinks, outside
//! whatever lock guards the engine.
use vstd::prelude::*;
use crate::buffer::{lists_exactly, LatestValues};
use crate::measurement::{key_of, PeripheralQuantityType, RawMeasurement};
use crate::registry::{Subscribers, SubscriptionId};

verus! {

/// One delivery to make: `measurement` to the sink registered under `subscription`.
#[derive(Clone, Copy, Debug, PartialEq, Eq, Structural)]
pub struct Notification {
    pub subscription: SubscriptionId,
    pub measurement: RawMeasurement,
}

/// What the engine holds for one kit.
pub struct KitView<S> {
    pub subscribers: Map<SubscriptionId, S>,
    pub latest: Map<PeripheralQuantityType, RawMeasurement>,
}

/// What the engine holds: the state of each kit met so far, by serial, and
/// the identifier that the next subscription gets.
pub struct EngineView<S> {
    pub kits: Map<Seq<char>, KitView<S>>,
    pub next_id: SubscriptionId,
}

/// The state of a kit that nothing has happened to yet.
pub open spec fn empty_kit<S>() -> KitView<S> {
    KitView { subscribers: Map::empty(), latest: Map::empty() }
}

/// The state of `kit`; a kit not met so far has the empty state.
pub open spec fn kit_of<S>(e: EngineView<S>, kit: Seq<char>) -> KitView<S> {
    if e.kits.contains_key(kit) {
        e.kits[kit]
    } else {
        empty_kit()
    }
}

/// The subscriptions that a sequence of notifications goes to, in order.
pub open spec fn subscriptions_of(ns: Seq<Notification>) -> Seq<SubscriptionId> {
    ns.map_values(|n: Notification| n.subscription)
}

/// The measurements that a sequence of notifications carries, in order.
pub open spec fn measurements_of(ns: Seq<Notification>) -> Seq<RawMeasurement> {
    ns.map_values(|n: Notification| n.measurement)
}

/// `ns` carries `m` once to each subscription of `ids`, and to nothing else.
pub open spec fn is_fanout(ns: Seq<Notification>, ids: Set<SubscriptionId>, m: RawMeasurement) -> bool {
    &&& subscriptions_of(ns).no_duplicates()
    &&& subscriptions_of(ns).to_set() == ids
    &&& forall|i: int| 0 <= i < ns.len() ==> #[trigger] ns[i].measurement == m
}

/// `ns` carries each measurement of `latest` once to subscription `id`, and
/// nothing else.
pub open spec fn is_replay(
    ns: Seq<Notification>,
    id: SubscriptionId,
    latest: Map<PeripheralQuantityType, RawMeasurement>,
) -> bool {
    &&& forall|i: int| 0 <= i < ns.len() ==> #[trigger] ns[i].subscription == id
    &&& lists_exactly(measurements_of(ns), latest)
}

/// Publishing `m` to `kit` takes `pre` to `post` and calls for the
/// notifications `ns`: `m` replaces the latest value of its channel, and goes
/// to every subscription of the kit.
pub open spec fn publish_step<S>(
    pre: EngineView<S>,
    kit: Seq<char>,
    m: RawMeasurement,
    post: EngineView<S>,
    ns: Seq<Notification>,
) -> bool {
    let k = kit_of(pre, kit);
    &&& post.next_id == pre.next_id
    &&& post.kits == pre.kits.insert(
        kit,
        KitView { subscribers: k.subscribers, latest: k.latest.insert(key_of(m), m) },
    )
    &&& is_fanout(ns, k.subscribers.dom(), m)
}

/// Subscribing `sink` to `kit` takes `pre` to `post`, registers it under
/// `id`, and calls for the notifications `ns`: the kit's latest values, each
/// once, to the new subscription.
pub open spec fn subscribe_step<S>(
    pre: EngineView<S>,
    kit: Seq<char>,
    sink: S,
    post: EngineView<S>,
    id: SubscriptionId,
    ns: Seq<Notification>,
) -> bool {
    let k = kit_of(pre, kit);
    &&& id == pre.next_id
    &&& post.next_id == id + 1
    &&& post.kits == pre.kits.insert(
        kit,
        KitView { subscribers: k.subscribers.insert(id, sink), latest: k.latest },
    )
    &&& is_replay(ns, id, k.latest)
}

/// Every kit of `kits`, with subscription `id` taken out.
pub open spec fn without_subscription<S>(
    kits: Map<Seq<char>, KitView<S>>,
    id: SubscriptionId,
) -> Map<Seq<char>, KitView<S>> {
    kits.map_values(|k: KitView<S>| KitView { subscribers: k.subscribers.remove(id), latest: k.latest })
}

/// Unsubscribing `id` takes `pre` to `post`.
pub open spec fn unsubscribe_step<S>(pre: EngineView<S>, id: SubscriptionId, post: EngineView<S>) -> bool {
    &&& post.next_id == pre.next_id
    &&& post.kits == without_subscription(pre.kits, id)
}

/// Some kit has a subscription under `id`.
pub open spec fn is_subscribed<S>(e: EngineView<S>, id: SubscriptionId) -> bool {
    exists|k: Seq<char>| e.kits.contains_key(k) && #[trigger] e.kits[k].subscribers.contains_key(id)
}

/// A kit's state is finite, its identifiers were handed out already, and
/// each latest value sits under its own channel.
pub open spec fn kit_view_wf<S>(k: KitView<S>, next_id: SubscriptionId) -> bool {
    &&& k.subscribers.dom().finite()
    &&& k.latest.dom().finite()
    &&& forall|id: SubscriptionId| #[trigger] k.subscribers.contains_key(id) ==> id < next_id
    &&& forall|key: PeripheralQuantityType| #[trigger]
        k.latest.contains_key(key) ==> key_of(k.latest[key]) == key
}

/// Every kit is well formed, and no identifier belongs to two kits.
pub open spec fn view_wf<S>(e: EngineView<S>) -> bool {
    &&& forall|k: Seq<char>| #[trigger] e.kits.contains_key(k) ==> kit_view_wf(e.kits[k], e.next_id)
    &&& forall|k1: Seq<char>, k2: Seq<char>, id: SubscriptionId|
        e.kits.contains_key(k1) && e.kits.contains_key(k2) && #[trigger] e.kits[k1].subscribers.contains_key(id)
            && #[trigger] e.kits[k2].subscribers.contains_key(id) ==> k1 == k2
}

struct KitState<S> {
    serial: String,
    subscribers: Subscribers<S>,
    latest: LatestValues,
}

/// `e` is well formed, and `model` holds its state under its serial.
spec fn state_matches<S>(
    model: Map<Seq<char>, KitView<S>>,
    e: KitState<S>,
    next_id: SubscriptionId,
) -> bool {
    &&& e.subscribers.wf()
    &&& e.latest.wf()
    &&& e.subscribers.next_free() <= next_id
    &&& model.contains_key(e.serial@)
    &&& model[e.serial@] == (KitView { subscribers: e.subscribers@, latest: e.latest@ })
}

/// The subscription registry and publish/notify engine for raw measurements.
pub struct PubSubEngine<S> {
    kits: Vec<KitState<S>>,
    next_id: SubscriptionId,
    model: Ghost<Map<Seq<char>, KitView<S>>>,
}

impl<S> View for PubSubEngine<S> {
    type V = EngineView<S>;

    closed spec fn view(&self) -> EngineView<S> {
        EngineView { kits: self.model@, next_id: self.next_id }
    }
}

impl<S> PubSubEngine<S> {
    closed spec fn kit_ok(&self, i: int) -> bool {
        state_matches(self.model@, self.kits@[i], self.next_id)
    }

    pub closed spec fn inv(&self) -> bool {
        &&& forall|i: int, j: int|
            0 <= i < j < self.kits@.len() ==> self.kits@[i].serial@ != self.kits@[j].serial@
        &&& forall|i: int| 0 <= i < self.kits@.len() ==> #[trigger] self.kit_ok(i)
        &&& forall|k: Seq<char>| #[trigger]
            self.model@.contains_key(k) ==> exists|i: int|
                0 <= i < self.kits@.len() && self.kits@[i].serial@ == k
    }

    pub open spec fn wf(&self) -> bool {
        &&& self.inv()
        &&& view_wf(self@)
    }

    /// An engine that has met no kit.
    pub fn new() -> (r: Self)
        ensures
            r.wf(),
            r@.kits == Map::<Seq<char>, KitView<S>>::empty(),
            r@.next_id == 0,
    {
        PubSubEngine { kits: Vec::new(), next_id: 0, model: Ghost(Map::empty()) }
    }

    /// The identifier that the next subscription gets.
    pub fn next_id(&self) -> (r: SubscriptionId)
        ensures
            r == self@.next_id,
    {
        self.next_id
    }

    /// Whether another subscription can still get an identifier.
    pub fn has_free_id(&self) -> (r: bool)
        ensures
            r == (self@.next_id < u64::MAX),
    {
        self.next_id < u64::MAX
    }

    /// Position of the state of `kit`, if the kit was met.
    fn find_kit(&self, kit: &String) -> (r: Option<usize>)
        requires
            self.wf(),
        ensures
            r is Some <==> self@.kits.contains_key(kit@),
            r matches Some(i) ==> i < self.kits@.len() && self.kits@[i as int].serial@ == kit@,
    {
        let mut i: usize = 0;
        while i < self.kits.len()
            invariant
                self.wf(),
                i <= self.kits@.len(),
                forall|j: int| 0 <= j < i ==> self.kits@[j].serial@ != kit@,
            decreases self.kits@.len() - i,
        {
            if self.kits[i].serial == *kit {
                proof {
                    assert(self.kit_ok(i as int));
                }
                return Some(i);
            }
            i = i + 1;
        }
        proof {
            if self@.kits.contains_key(kit@) {
                assert(self.model@.contains_key(kit@));
            }
        }
        None
    }

    /// Position of the state of `kit`, which is created empty if the kit was
    /// not met so far.
    fn kit_index(&mut self, kit: String) -> (i: usize)
        requires
            old(self).wf(),
        ensures
            final(self).wf(),
            final(self)@.next_id == old(self)@.next_id,
            final(self)@.kits == old(self)@.kits.insert(kit@, kit_of(old(self)@, kit@)),
            i < final(self).kits@.len(),
            final(self).kits@[i as int].serial@ == kit@,
    {
        match self.find_kit(&kit) {
            Some(i) => {
                proof {
                    assert(self.model@.insert(kit@, self.model@[kit@]) =~= self.model@);
                }
                i
            },
            None => {
                let ghost serial = kit@;
                let ghost old_kits = self.kits@;
                let subscribers = Subscribers::new();
                let latest = LatestValues::new();
                self.kits.push(KitState { serial: kit, subscribers, latest });
                self.model = Ghost(self.model@.insert(serial, empty_kit()));
                let i = self.kits.len() - 1;
                proof {
                    assert(subscribers@ =~= empty_kit::<S>().subscribers);
                    assert(latest@ =~= empty_kit::<S>().latest);
                    assert forall|j: int| 0 <= j < self.kits@.len() implies #[trigger] self.kit_ok(
                        j,
                    ) by {
                        if j < i {
                            assert(old(self).kit_ok(j));
                            assert(old_kits[j].serial@ != serial);
                        }
                    }
                    assert forall|k: Seq<char>| #[trigger]
                        self.model@.contains_key(k) implies exists|j: int|
                        0 <= j < self.kits@.len() && self.kits@[j].serial@ == k by {
                        if k == serial {
                            assert(self.kits@[i as int].serial@ == k);
                        } else {
                            assert(old(self).model@.contains_key(k));
                            let j = choose|j: int|
                                0 <= j < old_kits.len() && old_kits[j].serial@ == k;
                            assert(self.kits@[j].serial@ == k);
                        }
                    }
                    assert forall|a: int, b: int|
                        0 <= a < b < self.kits@.len() implies self.kits@[a].serial@
                        != self.kits@[b].serial@ by {
                        if b == i {
                            assert(old(self).kit_ok(a));
                        }
                    }
                }
                i
            },
        }
    }

    /// Publishes `m` to `kit`: stores it as the latest value of its channel
    /// and returns one notification of it for each subscription of the kit.
    /// A kit not met so far is created, with no subscription.
    pub fn publish_raw_measurement(&mut self, kit_serial: String, m: RawMeasurement) -> (ns: Vec<
        Notification,
    >)
        requires
            old(self).wf(),
        ensures
            final(self).wf(),
            publish_step(old(self)@, kit_serial@, m, final(self)@, ns@),
    {
        let ghost serial = kit_serial@;
        let ghost k = kit_of(old(self)@, serial);
        let i = self.kit_index(kit_serial);
        let ghost mid = self.model@;
        let ghost mid_kits = self.kits@;
        proof {
            assert(self.kit_ok(i as int));
            assert(mid[serial] == k);
            assert forall|j: int| 0 <= j < mid_kits.len() && j != i implies mid_kits[j].serial@
                != serial && #[trigger] state_matches(mid, mid_kits[j], self.next_id) by {
                assert(self.kit_ok(j));
            }
        }
        let ids = self.kits[i].subscribers.ids();
        self.kits[i].latest.upsert(m);
        proof {
            assert(self.kits@[i as int].subscribers == mid_kits[i as int].subscribers);
            assert(self.kits@[i as int].serial == mid_kits[i as int].serial);
        }
        let ghost new_kit = KitView { subscribers: k.subscribers, latest: k.latest.insert(key_of(m), m) };
        self.model = Ghost(self.model@.insert(serial, new_kit));
        proof {
            assert forall|j: int| 0 <= j < self.kits@.len() implies #[trigger] self.kit_ok(j) by {
                if j != i {
                    assert(mid_kits[j] == self.kits@[j]);
                    assert(state_matches(mid, mid_kits[j], self.next_id));
                }
            }
            assert forall|kk: Seq<char>| #[trigger]
                self.model@.contains_key(kk) implies exists|j: int|
                0 <= j < self.kits@.len() && self.kits@[j].serial@ == kk by {
                if kk == serial {
                    assert(self.kits@[i as int].serial@ == kk);
                } else {
                    assert(mid.contains_key(kk));
                    let j = choose|j: int| 0 <= j < mid_kits.len() && mid_kits[j].serial@ == kk;
                    assert(self.kits@[j].serial@ == kk);
                }
            }
            assert forall|a: int, b: int|
                0 <= a < b < self.kits@.len() implies self.kits@[a].serial@ != self.kits@[b].serial@ by {
                assert(self.kits@[a].serial == mid_kits[a].serial);
                assert(self.kits@[b].serial == mid_kits[b].serial);
            }
            assert forall|kk: Seq<char>| #[trigger] self@.kits.contains_key(kk) implies kit_view_wf(
                self@.kits[kk],
                self@.next_id,
            ) by {
                if kk != serial {
                    assert(mid.contains_key(kk));
                }
            }
        }
        let mut ns: Vec<Notification> = Vec::new();
        let mut j: usize = 0;
        while j < ids.len()
            invariant
                j <= ids@.len(),
                ns@.len() == j,
                forall|t: int|
                    0 <= t < j ==> #[trigger] ns@[t] == (Notification {
                        subscription: ids@[t],
                        measurement: m,
                    }),
            decreases ids@.len() - j,
        {
            ns.push(Notification { subscription: ids[j], measurement: m });
            j = j + 1;
        }
        proof {
            assert(subscriptions_of(ns@) =~= ids@);
            assert(ids@.to_set() == k.subscribers.dom());
            assert(self.model@ =~= old(self).model@.insert(serial, new_kit));
            assert forall|t: int| 0 <= t < ns@.len() implies #[trigger] ns@[t].measurement == m by {
                assert(ns@[t] == (Notification { subscription: ids@[t], measurement: m }));
            }
        }
        ns
    }

    /// Subscribes `sink` to `kit`: registers it under a fresh identifier and
    /// returns that identifier with one notification of each latest value of
    /// the kit to the new subscription. A kit not met so far is created.
    pub fn add_raw_measurement_subscriber(&mut self, kit_serial: String, sink: S) -> (r: (
        SubscriptionId,
        Vec<Notification>,
    ))
        requires
            old(self).wf(),
            old(self)@.next_id < u64::MAX,
        ensures
            final(self).wf(),
            subscribe_step(old(self)@, kit_serial@, sink, final(self)@, r.0, r.1@),
    {
        let ghost serial = kit_serial@;
        let ghost sink_v = sink;
        let ghost k = kit_of(old(self)@, serial);
        let i = self.kit_index(kit_serial);
        let ghost mid = self.model@;
        let ghost mid_kits = self.kits@;
        let ghost old_next = self.next_id;
        proof {
            assert(self.kit_ok(i as int));
            assert(mid[serial] == k);
            assert forall|j: int| 0 <= j < mid_kits.len() && j != i implies mid_kits[j].serial@
                != serial && #[trigger] state_matches(mid, mid_kits[j], self.next_id) by {
                assert(self.kit_ok(j));
            }
        }
        let floor = self.next_id;
        self.kits[i].subscribers.reserve_below(floor);
        let id = self.kits[i].subscribers.add(sink);
        self.next_id = id + 1;
        let replay = self.kits[i].latest.snapshot();
        let ghost new_kit = KitView { subscribers: k.subscribers.insert(id, sink_v), latest: k.latest };
        self.model = Ghost(self.model@.insert(serial, new_kit));
        proof {
            assert(id == old_next);
            assert(self.kits@[i as int].latest == mid_kits[i as int].latest);
            assert(self.kits@[i as int].serial == mid_kits[i as int].serial);
            assert forall|j: int| 0 <= j < self.kits@.len() implies #[trigger] self.kit_ok(j) by {
                if j != i {
                    assert(mid_kits[j] == self.kits@[j]);
                    assert(state_matches(mid, mid_kits[j], old_next));
                }
            }
            assert forall|kk: Seq<char>| #[trigger]
                self.model@.contains_key(kk) implies exists|j: int|
                0 <= j < self.kits@.len() && self.kits@[j].serial@ == kk by {
                if kk == serial {
                    assert(self.kits@[i as int].serial@ == kk);
                } else {
                    assert(mid.contains_key(kk));
                    let j = choose|j: int| 0 <= j < mid_kits.len() && mid_kits[j].serial@ == kk;
                    assert(self.kits@[j].serial@ == kk);
                }
            }
            assert forall|a: int, b: int|
                0 <= a < b < self.kits@.len() implies self.kits@[a].serial@ != self.kits@[b].serial@ by {
                assert(self.kits@[a].serial == mid_kits[a].serial);
                assert(self.kits@[b].serial == mid_kits[b].serial);
            }
            assert forall|kk: Seq<char>| #[trigger] self@.kits.contains_key(kk) implies kit_view_wf(
                self@.kits[kk],
                self@.next_id,
            ) by {
                if kk != serial {
                    assert(mid.contains_key(kk));
                    assert(kit_view_wf(mid[kk], old_next));
                }
            }
            assert forall|k1: Seq<char>, k2: Seq<char>, x: SubscriptionId|
                self@.kits.contains_key(k1) && self@.kits.contains_key(k2)
                    && #[trigger] self@.kits[k1].subscribers.contains_key(x)
                    && #[trigger] self@.kits[k2].subscribers.contains_key(x) implies k1 == k2 by {
                if x == id {
                    if k1 != serial {
                        assert(mid.contains_key(k1));
                        assert(kit_view_wf(mid[k1], old_next));
                    }
                    if k2 != serial {
                        assert(mid.contains_key(k2));
                        assert(kit_view_wf(mid[k2], old_next));
                    }
                } else {
                    assert(mid.contains_key(k1) && mid[k1].subscribers.contains_key(x));
                    assert(mid.contains_key(k2) && mid[k2].subscribers.contains_key(x));
                }
            }
        }
        let mut ns: Vec<Notification> = Vec::new();
        let mut j: usize = 0;
        while j < replay.len()
            invariant
                j <= replay@.len(),
                ns@.len() == j,
                forall|t: int|
                    0 <= t < j ==> #[trigger] ns@[t] == (Notification {
                        subscription: id,
                        measurement: replay@[t],
                    }),
            decreases replay@.len() - j,
        {
            ns.push(Notification { subscription: id, measurement: replay[j] });
            j = j + 1;
        }
        proof {
            assert(measurements_of(ns@) =~= replay@);
            assert forall|t: int| 0 <= t < ns@.len() implies #[trigger] ns@[t].subscription == id by {
                assert(ns@[t] == (Notification { subscription: id, measurement: replay@[t] }));
            }
            assert(self.model@ =~= old(self).model@.insert(serial, new_kit));
        }
        (id, ns)
    }

    /// Position of the kit that has a subscription under `id`, if any.
    fn find_subscriber(&self, id: SubscriptionId) -> (r: Option<usize>)
        requires
            self.wf(),
        ensures
            r is Some <==> is_subscribed(self@, id),
            r matches Some(i) ==> i < self.kits@.len() && self.kits@[i as int].subscribers@.contains_key(
                id,
            ),
    {
        let mut i: usize = 0;
        while i < self.kits.len()
            invariant
                self.wf(),
                i <= self.kits@.len(),
                forall|j: int| 0 <= j < i ==> !self.kits@[j].subscribers@.contains_key(id),
            decreases self.kits@.len() - i,
        {
            proof {
                assert(self.kit_ok(i as int));
            }
            if self.kits[i].subscribers.get(id).is_some() {
                proof {
                    let kk = self.kits@[i as int].serial@;
                    assert(self@.kits.contains_key(kk) && self@.kits[kk].subscribers.contains_key(id));
                }
                return Some(i);
            }
            i = i + 1;
        }
        proof {
            if is_subscribed(self@, id) {
                let kk = choose|kk: Seq<char>|
                    self@.kits.contains_key(kk) && #[trigger] self@.kits[kk].subscribers.contains_key(id);
                let j = choose|j: int| 0 <= j < self.kits@.len() && self.kits@[j].serial@ == kk;
                assert(self.kit_ok(j));
            }
        }
        None
    }

    /// The sink subscribed under `id`, if it is still subscribed.
    pub fn sink(&self, id: SubscriptionId) -> (r: Option<&S>)
        requires
            self.wf(),
        ensures
            r is Some <==> is_subscribed(self@, id),
            r matches Some(s) ==> exists|k: Seq<char>|
                self@.kits.contains_key(k) && #[trigger] self@.kits[k].subscribers.contains_key(id)
                    && self@.kits[k].subscribers[id] == *s,
    {
        match self.find_subscriber(id) {
            Some(i) => {
                proof {
                    assert(self.kit_ok(i as int));
                    let kk = self.kits@[i as int].serial@;
                    assert(self@.kits.contains_key(kk) && self@.kits[kk].subscribers.contains_key(id));
                }
                self.kits[i].subscribers.get(id)
            },
            None => None,
        }
    }

    /// Unsubscribes `id`. Does nothing where nothing is subscribed under
    /// `id`; returns whether something was.
    pub fn remove_raw_measurement_subscriber(&mut self, id: SubscriptionId) -> (r: bool)
        requires
            old(self).wf(),
        ensures
            final(self).wf(),
            unsubscribe_step(old(self)@, id, final(self)@),
            r == is_subscribed(old(self)@, id),
    {
        let ghost pre = self.model@;
        match self.find_subscriber(id) {
            Some(i) => {
                let ghost old_kits = self.kits@;
                let ghost serial = old_kits[i as int].serial@;
                proof {
                    assert(self.kit_ok(i as int));
                    assert forall|j: int| 0 <= j < old_kits.len() && j != i implies old_kits[j].serial@
                        != serial && #[trigger] state_matches(pre, old_kits[j], self.next_id) by {
                        assert(self.kit_ok(j));
                    }
                }
                let _ = self.kits[i].subscribers.remove(id);
                let ghost k = pre[serial];
                let ghost new_kit = KitView { subscribers: k.subscribers.remove(id), latest: k.latest };
                self.model = Ghost(self.model@.insert(serial, new_kit));
                proof {
                    assert(self.kits@[i as int].latest == old_kits[i as int].latest);
                    assert(self.kits@[i as int].serial == old_kits[i as int].serial);
                    assert forall|j: int| 0 <= j < self.kits@.len() implies #[trigger] self.kit_ok(j) by {
                        if j != i {
                            assert(old_kits[j] == self.kits@[j]);
                            assert(state_matches(pre, old_kits[j], self.next_id));
                        }
                    }
                    assert forall|kk: Seq<char>| #[trigger]
                        self.model@.contains_key(kk) implies exists|j: int|
                        0 <= j < self.kits@.len() && self.kits@[j].serial@ == kk by {
                        let j = choose|j: int| 0 <= j < old_kits.len() && old_kits[j].serial@ == kk;
                        assert(self.kits@[j].serial@ == kk);
                    }
                    assert forall|a: int, b: int|
                        0 <= a < b < self.kits@.len() implies self.kits@[a].serial@
                        != self.kits@[b].serial@ by {
                        assert(self.kits@[a].serial == old_kits[a].serial);
                        assert(self.kits@[b].serial == old_kits[b].serial);
                    }
                    assert forall|kk: Seq<char>| #[trigger] pre.contains_key(kk) && kk != serial implies !pre[kk].subscribers.contains_key(id) by {
                    }
                    assert forall|kk: Seq<char>| #[trigger] pre.contains_key(kk) && kk != serial implies pre[kk].subscribers.remove(id) =~= pre[kk].subscribers by {
                    }
                    assert(self.model@ =~= without_subscription(pre, id));
                }
                true
            },
            None => {
                proof {
                    assert forall|kk: Seq<char>| #[trigger] pre.contains_key(kk) implies pre[kk].subscribers.remove(id) =~= pre[kk].subscribers by {
                        if pre[kk].subscribers.contains_key(id) {
                            assert(self@.kits[kk].subscribers.contains_key(id));
                        }
                    }
                    assert(self.model@ =~= without_subscription(pre, id));
                }
                false
            },
        }
    }
}

} // verus!

//! Routing subscriptions from publishers to sessions, by traffic kind.
//!
//! A publisher's subscribers are kept per user, each tagged with the
//! kinds of traffic wanted. The map is an association list keyed by
//! the publisher's user; lookups go by the first entry with the key.

use vstd::prelude::*;

use crate::messages::UserId;
use crate::sessions::SessionId;

verus! {

broadcast use vstd::seq_lib::lemma_seq_contains_after_push;

/// A kind of traffic transported over a connection, or a union of
/// kinds.
#[derive(Debug, Clone, Copy, PartialEq, Eq, Structural)]
pub struct ContentKind {
    pub audio: bool,
    pub video: bool,
    pub data: bool,
}

impl ContentKind {
    /// Audio traffic.
    pub fn audio() -> (r: ContentKind)
        ensures
            r == (ContentKind { audio: true, video: false, data: false }),
    {
        ContentKind { audio: true, video: false, data: false }
    }

    /// Video traffic.
    pub fn video() -> (r: ContentKind)
        ensures
            r == (ContentKind { audio: false, video: true, data: false }),
    {
        ContentKind { audio: false, video: true, data: false }
    }

    /// Data-channel traffic.
    pub fn data() -> (r: ContentKind)
        ensures
            r == (ContentKind { audio: false, video: false, data: true }),
    {
        ContentKind { audio: false, video: false, data: true }
    }

    /// Whether this union carries every kind of the other.
    pub open spec fn spec_contains(self, other: ContentKind) -> bool {
        &&& other.audio ==> self.audio
        &&& other.video ==> self.video
        &&& other.data ==> self.data
    }

    /// Whether this union carries every kind of the other.
    pub fn contains(&self, other: ContentKind) -> (r: bool)
        ensures
            r == self.spec_contains(other),
    {
        (!other.audio || self.audio) && (!other.video || self.video) && (!other.data
            || self.data)
    }
}

/// One routing entry: traffic of the given kinds goes to the session.
#[derive(Debug, Clone, Copy, PartialEq, Eq, Structural)]
pub struct Subscription {
    /// The subscriber to this traffic.
    pub sess: SessionId,
    /// The kind or kinds of traffic subscribed to.
    pub kind: ContentKind,
}

impl Subscription {
    /// Subscribe a session to the given kinds of traffic.
    pub fn new(sess: SessionId, kind: ContentKind) -> (r: Self)
        ensures
            r == (Subscription { sess, kind }),
    {
        Subscription { sess, kind }
    }
}

/// A map from publishers to their subscriptions.
#[derive(Debug)]
pub struct SubscriptionMap {
    pub entries: Vec<(UserId, Vec<Subscription>)>,
}

/// The position of the first entry for a publisher.
pub open spec fn spec_entry_at(entries: Seq<(UserId, Vec<Subscription>)>, u: Seq<char>) -> Option<
    int,
>
    decreases entries.len(),
{
    if entries.len() == 0 {
        Option::None
    } else if entries[0].0@ == u {
        Option::Some(0)
    } else {
        match spec_entry_at(entries.drop_first(), u) {
            Option::Some(i) => Option::Some(i + 1),
            Option::None => Option::None,
        }
    }
}

/// What the position found by [`spec_entry_at`] satisfies.
pub proof fn lemma_entry_at_props(entries: Seq<(UserId, Vec<Subscription>)>, u: Seq<char>)
    ensures
        match spec_entry_at(entries, u) {
            Option::Some(i) => 0 <= i < entries.len() && entries[i].0@ == u,
            Option::None => forall|j: int| 0 <= j < entries.len() ==> entries[j].0@ != u,
        },
    decreases entries.len(),
{
    if entries.len() == 0 {
    } else if entries[0].0@ == u {
    } else {
        lemma_entry_at_props(entries.drop_first(), u);
        assert(forall|j: int|
            0 <= j < entries.len() - 1 ==> #[trigger] entries.drop_first()[j].0@ == entries[j
                + 1].0@);
        if spec_entry_at(entries.drop_first(), u) is None {
            assert forall|j: int| 0 <= j < entries.len() implies entries[j].0@ != u by {
                if j > 0 {
                    assert(entries.drop_first()[j - 1].0@ != u);
                }
            }
        }
    }
}

/// The subscriptions recorded for a publisher.
pub open spec fn subs_of(m: SubscriptionMap, u: Seq<char>) -> Seq<Subscription> {
    match spec_entry_at(m.entries@, u) {
        Option::Some(i) => m.entries@[i].1@,
        Option::None => Seq::<Subscription>::empty(),
    }
}

impl SubscriptionMap {
    /// An empty map.
    pub fn new() -> (m: SubscriptionMap)
        ensures
            m.entries@.len() == 0,
            forall|u: Seq<char>| #[trigger] subs_of(m, u) == Seq::<Subscription>::empty(),
    {
        let m = SubscriptionMap { entries: Vec::new() };
        proof {
            assert forall|u: Seq<char>| #[trigger] subs_of(m, u) == Seq::<
                Subscription,
            >::empty() by {}
        }
        m
    }

    /// The position of the entry for a publisher.
    fn find(&self, u: &UserId) -> (r: Option<usize>)
        ensures
            match r {
                Option::Some(i) => spec_entry_at(self.entries@, u@) == Option::Some(i as int),
                Option::None => spec_entry_at(self.entries@, u@) is None,
            },
    {
        let n: usize = self.entries.len();
        let mut i: usize = 0;
        proof {
            assert(self.entries@.skip(0) =~= self.entries@);
        }
        while i < n
            invariant
                n == self.entries@.len(),
                0 <= i <= n,
                spec_entry_at(self.entries@, u@) == match spec_entry_at(
                    self.entries@.skip(i as int),
                    u@,
                ) {
                    Option::Some(k) => Option::Some(k + i),
                    Option::None => Option::<int>::None,
                },
            decreases n - i,
        {
            proof {
                assert(self.entries@.skip(i as int)[0] == self.entries@[i as int]);
            }
            if self.entries[i].0 == *u {
                return Some(i);
            }
            proof {
                assert(self.entries@.skip(i as int).drop_first() =~= self.entries@.skip(i + 1));
            }
            i += 1;
        }
        None
    }
}

/// How one entry change leaves every other publisher's subscriptions
/// alone.
pub open spec fn others_unchanged(pre: SubscriptionMap, post: SubscriptionMap, u: Seq<char>) -> bool {
    forall|u2: Seq<char>| u2 != u ==> #[trigger] subs_of(post, u2) == subs_of(pre, u2)
}

/// Record that a session subscribes to traffic of the given kinds from
/// a publisher.
pub fn subscribe(
    subscriptions: &mut SubscriptionMap,
    sess: SessionId,
    kind: ContentKind,
    publisher: UserId,
)
    ensures
        subs_of(*final(subscriptions), publisher@) == subs_of(*old(subscriptions), publisher@).push(
            Subscription { sess, kind },
        ),
        others_unchanged(*old(subscriptions), *final(subscriptions), publisher@),
{
    let ghost pre = *subscriptions;
    let found = subscriptions.find(&publisher);
    match found {
        Some(i) => {
            proof {
                lemma_entry_at_props(subscriptions.entries@, publisher@);
            }
            let entry = &mut subscriptions.entries[i];
            entry.1.push(Subscription::new(sess, kind));
            proof {
                let old_e = pre.entries@;
                let new_e = subscriptions.entries@;
                assert(forall|j: int|
                    0 <= j < new_e.len() && j != i ==> new_e[j] == old_e[j]);
                assert(forall|j: int| 0 <= j < new_e.len() ==> new_e[j].0@ == old_e[j].0@);
                lemma_entry_at_same_keys(old_e, new_e);
                assert forall|u2: Seq<char>|
                    u2 != publisher@ implies #[trigger] subs_of(*subscriptions, u2) == subs_of(
                    pre,
                    u2,
                ) by {
                    lemma_entry_at_props(old_e, u2);
                    match spec_entry_at(old_e, u2) {
                        Option::Some(j) => {
                            assert(j != i);
                            assert(new_e[j] == old_e[j]);
                        },
                        Option::None => {},
                    }
                }
            }
        },
        None => {
            proof {
                lemma_entry_at_props(subscriptions.entries@, publisher@);
            }
            let mut list: Vec<Subscription> = Vec::new();
            list.push(Subscription::new(sess, kind));
            subscriptions.entries.push((publisher, list));
            proof {
                let old_e = pre.entries@;
                let new_e = subscriptions.entries@;
                let e = new_e.last();
                assert(new_e == old_e.push(e));
                lemma_entry_at_push(old_e, e);
                assert(subs_of(*subscriptions, e.0@) =~= subs_of(pre, e.0@).push(
                    Subscription { sess, kind },
                ));
                assert forall|u2: Seq<char>|
                    u2 != e.0@ implies #[trigger] subs_of(*subscriptions, u2) == subs_of(
                    pre,
                    u2,
                ) by {
                    lemma_entry_at_props(old_e, u2);
                    match spec_entry_at(old_e, u2) {
                        Option::Some(j) => {
                            assert(new_e[j] == old_e[j]);
                        },
                        Option::None => {},
                    }
                }
            }
        },
    }
}

/// Drop a session's subscription of exactly the given kinds to a
/// publisher, keeping every other entry in order.
pub fn unsubscribe(
    subscriptions: &mut SubscriptionMap,
    sess: SessionId,
    kind: ContentKind,
    publisher: UserId,
)
    ensures
        subs_of(*final(subscriptions), publisher@) == subs_of(*old(subscriptions), publisher@)
            .filter(|x: Subscription| !(x.sess == sess && x.kind == kind)),
        others_unchanged(*old(subscriptions), *final(subscriptions), publisher@),
{
    broadcast use vstd::seq_lib::group_filter_ensures;

    let ghost pre = *subscriptions;
    let found = subscriptions.find(&publisher);
    match found {
        Some(i) => {
            proof {
                lemma_entry_at_props(subscriptions.entries@, publisher@);
            }
            let list = &subscriptions.entries[i].1;
            let n: usize = list.len();
            let mut kept: Vec<Subscription> = Vec::new();
            let mut k: usize = 0;
            proof {
                assert(list@.take(0) =~= Seq::<Subscription>::empty());
                assert(Seq::<Subscription>::empty().filter(
                    |x: Subscription| !(x.sess == sess && x.kind == kind),
                ) =~= Seq::<Subscription>::empty());
            }
            while k < n
                invariant
                    n == list@.len(),
                    0 <= k <= n,
                    list == &subscriptions.entries@[i as int].1,
                    0 <= i < subscriptions.entries@.len(),
                    kept@ == list@.take(k as int).filter(
                        |x: Subscription| !(x.sess == sess && x.kind == kind),
                    ),
                decreases n - k,
            {
                let x = list[k];
                proof {
                    assert(list@.take(k + 1) =~= list@.take(k as int).push(x));
                    lemma_filter_push(
                        list@.take(k as int),
                        |y: Subscription| !(y.sess == sess && y.kind == kind),
                        x,
                    );
                }
                if !(x.sess == sess && x.kind == kind) {
                    kept.push(x);
                }
                k += 1;
            }
            proof {
                assert(list@.take(n as int) =~= list@);
            }
            let entry = &mut subscriptions.entries[i];
            entry.1 = kept;
            proof {
                let old_e = pre.entries@;
                let new_e = subscriptions.entries@;
                assert(forall|j: int|
                    0 <= j < new_e.len() && j != i ==> new_e[j] == old_e[j]);
                assert(forall|j: int| 0 <= j < new_e.len() ==> new_e[j].0@ == old_e[j].0@);
                lemma_entry_at_same_keys(old_e, new_e);
                assert forall|u2: Seq<char>|
                    u2 != publisher@ implies #[trigger] subs_of(*subscriptions, u2) == subs_of(
                    pre,
                    u2,
                ) by {
                    lemma_entry_at_props(old_e, u2);
                    match spec_entry_at(old_e, u2) {
                        Option::Some(j) => {
                            assert(j != i);
                            assert(new_e[j] == old_e[j]);
                        },
                        Option::None => {},
                    }
                }
            }
        },
        None => {
            proof {
                assert(subs_of(pre, publisher@) =~= Seq::<Subscription>::empty());
                assert(Seq::<Subscription>::empty().filter(
                    |x: Subscription| !(x.sess == sess && x.kind == kind),
                ) =~= Seq::<Subscription>::empty());
            }
        },
    }
}

/// Forget a publisher entirely: afterwards nothing is subscribed to
/// them. The entry stays behind empty so other entries keep their
/// places.
pub fn unpublish(subscriptions: &mut SubscriptionMap, publisher: UserId)
    ensures
        subs_of(*final(subscriptions), publisher@) == Seq::<Subscription>::empty(),
        others_unchanged(*old(subscriptions), *final(subscriptions), publisher@),
{
    let ghost pre = *subscriptions;
    let found = subscriptions.find(&publisher);
    match found {
        Some(i) => {
            proof {
                lemma_entry_at_props(subscriptions.entries@, publisher@);
            }
            let entry = &mut subscriptions.entries[i];
            entry.1 = Vec::new();
            proof {
                let old_e = pre.entries@;
                let new_e = subscriptions.entries@;
                assert(forall|j: int|
                    0 <= j < new_e.len() && j != i ==> new_e[j] == old_e[j]);
                assert(forall|j: int| 0 <= j < new_e.len() ==> new_e[j].0@ == old_e[j].0@);
                lemma_entry_at_same_keys(old_e, new_e);
                assert(subs_of(*subscriptions, publisher@) =~= Seq::<Subscription>::empty());
                assert forall|u2: Seq<char>|
                    u2 != publisher@ implies #[trigger] subs_of(*subscriptions, u2) == subs_of(
                    pre,
                    u2,
                ) by {
                    lemma_entry_at_props(old_e, u2);
                    match spec_entry_at(old_e, u2) {
                        Option::Some(j) => {
                            assert(j != i);
                            assert(new_e[j] == old_e[j]);
                        },
                        Option::None => {},
                    }
                }
            }
        },
        None => {
            proof {
                assert(subs_of(pre, publisher@) =~= Seq::<Subscription>::empty());
            }
        },
    }
}

/// The subscriptions to a publisher that want some of the given kinds
/// of traffic, in order.
pub fn subscribers_to(subscriptions: &SubscriptionMap, publisher: &UserId, kind: ContentKind)
    -> (v: Vec<Subscription>)
    ensures
        v@ == subs_of(*subscriptions, publisher@).filter(
            |x: Subscription| x.kind.spec_contains(kind),
        ),
{
    broadcast use vstd::seq_lib::group_filter_ensures;

    let found = subscriptions.find(publisher);
    match found {
        Some(i) => {
            proof {
                lemma_entry_at_props(subscriptions.entries@, publisher@);
            }
            let list = &subscriptions.entries[i].1;
            let n: usize = list.len();
            let mut v: Vec<Subscription> = Vec::new();
            let mut k: usize = 0;
            proof {
                assert(list@.take(0) =~= Seq::<Subscription>::empty());
                assert(Seq::<Subscription>::empty().filter(
                    |x: Subscription| x.kind.spec_contains(kind),
                ) =~= Seq::<Subscription>::empty());
            }
            while k < n
                invariant
                    n == list@.len(),
                    0 <= k <= n,
                    list == &subscriptions.entries@[i as int].1,
                    0 <= i < subscriptions.entries@.len(),
                    v@ == list@.take(k as int).filter(
                        |x: Subscription| x.kind.spec_contains(kind),
                    ),
                decreases n - k,
            {
                let x = list[k];
                proof {
                    assert(list@.take(k + 1) =~= list@.take(k as int).push(x));
                    lemma_filter_push(
                        list@.take(k as int),
                        |y: Subscription| y.kind.spec_contains(kind),
                        x,
                    );
                }
                if x.kind.contains(kind) {
                    v.push(x);
                }
                k += 1;
            }
            proof {
                assert(list@.take(n as int) =~= list@);
            }
            v
        },
        None => {
            proof {
                assert(subs_of(*subscriptions, publisher@) =~= Seq::<Subscription>::empty());
                assert(Seq::<Subscription>::empty().filter(
                    |x: Subscription| x.kind.spec_contains(kind),
                ) =~= Seq::<Subscription>::empty());
            }
            Vec::new()
        },
    }
}

/// Call `send` once for each session subscribed to the publisher for
/// some of the given kinds of traffic, in order.
pub fn for_each_subscriber<F: Fn(SessionId)>(
    subscriptions: &SubscriptionMap,
    publisher: &UserId,
    kind: ContentKind,
    send: F,
)
    requires
        forall|s: SessionId| send.requires((s,)),
{
    let subs = subscribers_to(subscriptions, publisher, kind);
    let n: usize = subs.len();
    let mut i: usize = 0;
    while i < n
        invariant
            n == subs@.len(),
            0 <= i <= n,
            forall|s: SessionId| send.requires((s,)),
        decreases n - i,
    {
        send(subs[i].sess);
        i += 1;
    }
}

/// How one appended element passes through a filter.
pub proof fn lemma_filter_push<A>(s: Seq<A>, pred: spec_fn(A) -> bool, x: A)
    ensures
        s.push(x).filter(pred) == if pred(x) {
            s.filter(pred).push(x)
        } else {
            s.filter(pred)
        },
{
    reveal(Seq::filter);
    assert(s.push(x).drop_last() =~= s);
    assert(s.push(x).last() == x);
}

/// Two subscription tables with the same keys place every publisher at
/// the same position.
pub proof fn lemma_entry_at_same_keys(
    a: Seq<(UserId, Vec<Subscription>)>,
    b: Seq<(UserId, Vec<Subscription>)>,
)
    requires
        a.len() == b.len(),
        forall|j: int| 0 <= j < a.len() ==> a[j].0@ == b[j].0@,
    ensures
        forall|u: Seq<char>| #[trigger] spec_entry_at(a, u) == spec_entry_at(b, u),
    decreases a.len(),
{
    if a.len() != 0 {
        assert(forall|j: int|
            0 <= j < a.len() - 1 ==> #[trigger] a.drop_first()[j].0@ == b.drop_first()[j].0@);
        lemma_entry_at_same_keys(a.drop_first(), b.drop_first());
        assert forall|u: Seq<char>| #[trigger] spec_entry_at(a, u) == spec_entry_at(b, u) by {
            reveal_with_fuel(spec_entry_at, 2);
            assert(spec_entry_at(a.drop_first(), u) == spec_entry_at(b.drop_first(), u));
        }
    }
}

/// How appending one entry changes where publishers are found.
pub proof fn lemma_entry_at_push(
    entries: Seq<(UserId, Vec<Subscription>)>,
    e: (UserId, Vec<Subscription>),
)
    ensures
        forall|u: Seq<char>| #[trigger] spec_entry_at(entries.push(e), u) == match spec_entry_at(
            entries,
            u,
        ) {
            Option::Some(i) => Option::Some(i),
            Option::None => if e.0@ == u {
                Option::Some(entries.len() as int)
            } else {
                Option::<int>::None
            },
        },
    decreases entries.len(),
{
    if entries.len() == 0 {
        assert forall|u: Seq<char>| #[trigger] spec_entry_at(entries.push(e), u) == (if e.0@
            == u {
            Option::Some(0int)
        } else {
            Option::<int>::None
        }) by {
            reveal_with_fuel(spec_entry_at, 3);
            assert(entries.push(e)[0] == e);
            assert(entries.push(e).drop_first() =~= Seq::<(UserId, Vec<Subscription>)>::empty());
        }
    } else {
        lemma_entry_at_push(entries.drop_first(), e);
        assert forall|u: Seq<char>| #[trigger] spec_entry_at(entries.push(e), u)
            == match spec_entry_at(entries, u) {
            Option::Some(i) => Option::Some(i),
            Option::None => if e.0@ == u {
                Option::Some(entries.len() as int)
            } else {
                Option::<int>::None
            },
        } by {
            reveal_with_fuel(spec_entry_at, 2);
            assert(entries.push(e)[0] == entries[0]);
            assert(entries.push(e).drop_first() =~= entries.drop_first().push(e));
            assert(spec_entry_at(entries.drop_first().push(e), u) == match spec_entry_at(
                entries.drop_first(),
                u,
            ) {
                Option::Some(i) => Option::Some(i),
                Option::None => if e.0@ == u {
                    Option::Some(entries.drop_first().len() as int)
                } else {
                    Option::<int>::None
                },
            });
        }
    }
}

} // verus!

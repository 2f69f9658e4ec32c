//! Updates of documents that several clients work on at once: who gets them, and who may send them.
use crate::text::{same, starts_with};
use vstd::prelude::*;

verus! {

/// A client that gets the updates of a document, and may send some where it can write.
#[derive(Clone, Copy, Debug, PartialEq, Eq, Structural)]
pub struct Subscription {
    /// The number of the connection.
    pub addr: u64,
    pub can_write: bool,
}

/// A document, as a property of a resource, and its clients.
pub struct Topic {
    pub subject: String,
    pub property: String,
    pub subscribers: Vec<Subscription>,
}

/// What a [Topic] says.
pub struct TopicView {
    pub subject: Seq<char>,
    pub property: Seq<char>,
    pub subscribers: Seq<Subscription>,
}

impl View for Topic {
    type V = TopicView;

    open spec fn view(&self) -> TopicView {
        TopicView {
            subject: self.subject@,
            property: self.property@,
            subscribers: self.subscribers@,
        }
    }
}

/// The documents that clients have subscribed to. Each is in the list once.
pub struct YSyncBroadcaster {
    pub topics: Vec<Topic>,
}

impl View for YSyncBroadcaster {
    type V = Seq<TopicView>;

    open spec fn view(&self) -> Seq<TopicView> {
        self.topics@.map_values(|t: Topic| t@)
    }
}

/// Whether a topic is this document.
pub open spec fn is_topic(topic: TopicView, subject: Seq<char>, property: Seq<char>) -> bool {
    topic.subject == subject && topic.property == property
}

/// The clients of a document, where it has had any.
pub open spec fn subscribers(
    topics: Seq<TopicView>,
    subject: Seq<char>,
    property: Seq<char>,
) -> Option<Set<Subscription>>
    decreases topics.len(),
{
    if topics.len() == 0 {
        None
    } else if is_topic(topics.last(), subject, property) {
        Some(topics.last().subscribers.to_set())
    } else {
        subscribers(topics.drop_last(), subject, property)
    }
}

/// The clients of a document.
pub open spec fn clients(
    topics: Seq<TopicView>,
    subject: Seq<char>,
    property: Seq<char>,
) -> Set<Subscription> {
    match subscribers(topics, subject, property) {
        Some(set) => set,
        None => Set::empty(),
    }
}

proof fn lemma_found(topics: Seq<TopicView>, i: int)
    requires
        0 <= i < topics.len(),
        forall|j: int|
            i < j < topics.len() ==> !is_topic(
                #[trigger] topics[j],
                topics[i].subject,
                topics[i].property,
            ),
    ensures
        subscribers(topics, topics[i].subject, topics[i].property) == Some(
            topics[i].subscribers.to_set(),
        ),
    decreases topics.len(),
{
    if i < topics.len() - 1 {
        assert(!is_topic(topics[topics.len() - 1], topics[i].subject, topics[i].property));
        let front = topics.drop_last();
        assert forall|j: int| i < j < front.len() implies !is_topic(
            #[trigger] front[j],
            front[i].subject,
            front[i].property,
        ) by {
            assert(!is_topic(topics[j], topics[i].subject, topics[i].property));
        }
        lemma_found(front, i);
    }
}

proof fn lemma_not_found(topics: Seq<TopicView>, subject: Seq<char>, property: Seq<char>)
    requires
        forall|j: int|
            0 <= j < topics.len() ==> !is_topic(#[trigger] topics[j], subject, property),
    ensures
        subscribers(topics, subject, property) is None,
    decreases topics.len(),
{
    if topics.len() > 0 {
        assert(!is_topic(topics[topics.len() - 1], subject, property));
        let front = topics.drop_last();
        assert forall|j: int| 0 <= j < front.len() implies !is_topic(
            #[trigger] front[j],
            subject,
            property,
        ) by {
            assert(!is_topic(topics[j], subject, property));
        }
        lemma_not_found(front, subject, property);
    }
}

proof fn lemma_changed(
    topics: Seq<TopicView>,
    i: int,
    changed: TopicView,
    subject: Seq<char>,
    property: Seq<char>,
)
    requires
        0 <= i < topics.len(),
        is_topic(changed, topics[i].subject, topics[i].property),
        !is_topic(topics[i], subject, property),
    ensures
        subscribers(topics.update(i, changed), subject, property) == subscribers(
            topics,
            subject,
            property,
        ),
    decreases topics.len(),
{
    let after = topics.update(i, changed);
    if i < topics.len() - 1 {
        assert(after.last() == topics.last());
        assert(after.drop_last() =~= topics.drop_last().update(i, changed));
        lemma_changed(topics.drop_last(), i, changed, subject, property);
    } else {
        assert(after.drop_last() =~= topics.drop_last());
    }
}

/// Whether an update is sent to some subscriptions in this order, once for each.
pub open spec fn sends_in_order(
    set: Set<Subscription>,
    order: Seq<Subscription>,
    sent: Seq<u64>,
) -> bool {
    &&& order.no_duplicates()
    &&& order.to_set() == set
    &&& sent == order.map_values(|s: Subscription| s.addr)
}

/// Whether an update is sent once for each of some subscriptions.
pub open spec fn sent_to(set: Set<Subscription>, sent: Seq<u64>) -> bool {
    exists|order: Seq<Subscription>| #[trigger] sends_in_order(set, order, sent)
}

/// Everybody who is subscribed gets the update, and nobody else.
pub proof fn subscribers_get_updates(set: Set<Subscription>, sent: Seq<u64>, addr: u64)
    requires
        sent_to(set, sent),
    ensures
        sent.contains(addr) <==> exists|s: Subscription| #[trigger] set.contains(s) && s.addr
            == addr,
        sent.len() == set.len(),
{
    let order = choose|order: Seq<Subscription>| #[trigger] sends_in_order(set, order, sent);
    order.unique_seq_to_set();
    if sent.contains(addr) {
        let j = sent.index_of(addr);
        assert(order.contains(order[j]));
        assert(set.contains(order[j]) && order[j].addr == addr);
    }
    if exists|s: Subscription| #[trigger] set.contains(s) && s.addr == addr {
        let s = choose|s: Subscription| #[trigger] set.contains(s) && s.addr == addr;
        let j = order.index_of(s);
        assert(sent[j] == addr);
    }
}

/// What is to be done next about a wish to subscribe.
#[derive(Clone, Copy, Debug, PartialEq, Eq, Structural)]
pub enum SubscribeStep {
    /// Get the resource.
    GetResource,
    /// See whether the client's agent may write to it.
    CheckWrite,
    /// See whether it may read it.
    CheckRead,
    /// Nothing: the client is subscribed, and can write or not.
    Subscribed(bool),
    /// Nothing: the client is not subscribed.
    Refused,
}

/// What is to be done first about a wish to subscribe to a resource: only those of this server
/// can be subscribed to.
pub fn start_subscribe(subject: &str, self_url: &str) -> (r: SubscribeStep)
    ensures
        r == (if self_url@.is_prefix_of(subject@) {
            SubscribeStep::GetResource
        } else {
            SubscribeStep::Refused
        }),
{
    if starts_with(subject, self_url) {
        SubscribeStep::GetResource
    } else {
        SubscribeStep::Refused
    }
}

/// What is to be done after an action about a wish to subscribe.
pub open spec fn subscribe_next(step: SubscribeStep, worked: bool) -> SubscribeStep {
    match (step, worked) {
        (SubscribeStep::GetResource, true) => SubscribeStep::CheckWrite,
        (SubscribeStep::GetResource, false) => SubscribeStep::Refused,
        (SubscribeStep::CheckWrite, true) => SubscribeStep::Subscribed(true),
        (SubscribeStep::CheckWrite, false) => SubscribeStep::CheckRead,
        (SubscribeStep::CheckRead, true) => SubscribeStep::Subscribed(false),
        (SubscribeStep::CheckRead, false) => SubscribeStep::Refused,
        _ => step,
    }
}

/// What is to be done after an action about a wish to subscribe.
pub fn advance_subscribe(step: SubscribeStep, worked: bool) -> (r: SubscribeStep)
    ensures
        r == subscribe_next(step, worked),
{
    match (step, worked) {
        (SubscribeStep::GetResource, true) => SubscribeStep::CheckWrite,
        (SubscribeStep::GetResource, false) => SubscribeStep::Refused,
        (SubscribeStep::CheckWrite, true) => SubscribeStep::Subscribed(true),
        (SubscribeStep::CheckWrite, false) => SubscribeStep::CheckRead,
        (SubscribeStep::CheckRead, true) => SubscribeStep::Subscribed(false),
        (SubscribeStep::CheckRead, false) => SubscribeStep::Refused,
        _ => step,
    }
}

/// The subscription of a client whose wish is settled: it can write where its agent may.
pub open spec fn settled_subscription(step: SubscribeStep, addr: u64) -> Option<Subscription> {
    match step {
        SubscribeStep::Subscribed(can_write) => Some(Subscription { addr, can_write }),
        _ => None,
    }
}

/// Makes the subscription of a client whose wish is settled.
pub fn subscription_of(step: SubscribeStep, addr: u64) -> (r: Option<Subscription>)
    ensures
        r == settled_subscription(step, addr),
{
    match step {
        SubscribeStep::Subscribed(can_write) => Some(Subscription { addr, can_write }),
        _ => None,
    }
}

/// What is to be done after a number of actions about a wish to subscribe.
pub open spec fn subscribe_after(events: Seq<bool>) -> SubscribeStep
    decreases events.len(),
{
    if events.len() == 0 {
        SubscribeStep::GetResource
    } else {
        subscribe_next(subscribe_after(events.drop_last()), events.last())
    }
}

/// A client can write only where it has been found that its agent may, and is subscribed only
/// where it has been found that its agent may read.
pub proof fn subscriptions_need_rights(events: Seq<bool>)
    ensures
        subscribe_after(events) == SubscribeStep::Subscribed(true) ==> exists|k: int|
            0 <= k < events.len() && #[trigger] subscribe_after(events.take(k)) is CheckWrite
                && events[k],
        subscribe_after(events) == SubscribeStep::Subscribed(false) ==> exists|k: int|
            0 <= k < events.len() && #[trigger] subscribe_after(events.take(k)) is CheckRead
                && events[k],
    decreases events.len(),
{
    if events.len() > 0 {
        let before = events.drop_last();
        let last = events.len() - 1;
        subscriptions_need_rights(before);
        assert(events.take(last) =~= before);
        let earlier = subscribe_after(before);
        if earlier is CheckWrite || earlier is CheckRead {
            assert(subscribe_after(events.take(last)) == earlier);
            assert(events[last] == events.last());
        } else if earlier == SubscribeStep::Subscribed(true) {
            let k = choose|k: int|
                0 <= k < before.len() && #[trigger] subscribe_after(before.take(k)) is CheckWrite
                    && before[k];
            assert(before.take(k) =~= events.take(k));
            assert(subscribe_after(events.take(k)) is CheckWrite);
            assert(events[k]);
        } else if earlier == SubscribeStep::Subscribed(false) {
            let k = choose|k: int|
                0 <= k < before.len() && #[trigger] subscribe_after(before.take(k)) is CheckRead
                    && before[k];
            assert(before.take(k) =~= events.take(k));
            assert(subscribe_after(events.take(k)) is CheckRead);
            assert(events[k]);
        }
    }
}

/// The clients of a document without those of one connection.
pub open spec fn without_addr(set: Set<Subscription>, addr: u64) -> Set<Subscription> {
    set.filter(|s: Subscription| s.addr != addr)
}

/// Whether a connection may send updates to these clients: it is one of them, and can write.
pub open spec fn may_send(set: Set<Subscription>, addr: u64) -> bool {
    set.contains(Subscription { addr, can_write: true })
}

/// Whether two lists of documents have the same clients for all documents but one.
pub open spec fn others_unchanged(
    before: Seq<TopicView>,
    after: Seq<TopicView>,
    subject: Seq<char>,
    property: Seq<char>,
) -> bool {
    forall|s: Seq<char>, p: Seq<char>|
        !(s == subject && p == property) ==> #[trigger] subscribers(after, s, p) == subscribers(
            before,
            s,
            p,
        )
}

impl YSyncBroadcaster {
    /// No document is in the list twice, and no client is with a document twice.
    pub open spec fn wf(&self) -> bool {
        &&& forall|i: int, j: int|
            0 <= i < j < self@.len() ==> !is_topic(
                #[trigger] self@[j],
                (#[trigger] self@[i]).subject,
                self@[i].property,
            )
        &&& forall|i: int| 0 <= i < self@.len() ==> (#[trigger] self@[i]).subscribers.no_duplicates()
    }

    /// No document has clients yet.
    pub fn new() -> (r: YSyncBroadcaster)
        ensures
            r.wf(),
            r@ == Seq::<TopicView>::empty(),
    {
        let r = YSyncBroadcaster { topics: Vec::new() };
        assert(r@ =~= Seq::empty());
        r
    }

    /// The place of a document in the list.
    fn place(&self, subject: &str, property: &str) -> (r: Option<usize>)
        requires
            self.wf(),
        ensures
            match r {
                Some(i) => i < self@.len() && is_topic(self@[i as int], subject@, property@)
                    && subscribers(self@, subject@, property@) == Some(
                    self@[i as int].subscribers.to_set(),
                ),
                None => subscribers(self@, subject@, property@) is None && forall|j: int|
                    0 <= j < self@.len() ==> !is_topic(#[trigger] self@[j], subject@, property@),
            },
    {
        let mut i: usize = 0;
        while i < self.topics.len()
            invariant
                i <= self.topics@.len(),
                self.wf(),
                forall|j: int|
                    0 <= j < i ==> !is_topic(#[trigger] self@[j], subject@, property@),
            decreases self.topics@.len() - i,
        {
            assert(self@[i as int] == self.topics@[i as int]@);
            if same(self.topics[i].subject.as_str(), subject) && same(
                self.topics[i].property.as_str(),
                property,
            ) {
                proof {
                    lemma_found(self@, i as int);
                }
                return Some(i);
            }
            i += 1;
        }
        proof {
            lemma_not_found(self@, subject@, property@);
        }
        None
    }

    /// Adds a client to a document.
    pub fn subscribe(&mut self, subject: &str, property: &str, subscription: Subscription)
        requires
            old(self).wf(),
        ensures
            final(self).wf(),
            subscribers(final(self)@, subject@, property@) == Some(
                clients(old(self)@, subject@, property@).insert(subscription),
            ),
            others_unchanged(old(self)@, final(self)@, subject@, property@),
    {
        let ghost before = self@;
        match self.place(subject, property) {
            Some(i) => {
                let ghost old_set = before[i as int].subscribers;
                let mut k: usize = 0;
                let mut present: bool = false;
                while k < self.topics[i].subscribers.len()
                    invariant
                        i < self.topics@.len(),
                        self@ == before,
                        self.wf(),
                        old_set == before[i as int].subscribers,
                        k <= self.topics@[i as int].subscribers@.len(),
                        present ==> old_set.contains(subscription),
                        !present ==> forall|j: int|
                            0 <= j < k ==> #[trigger] old_set[j] != subscription,
                    decreases self.topics@[i as int].subscribers@.len() - k,
                {
                    assert(self@[i as int] == self.topics@[i as int]@);
                    assert(old_set == self.topics@[i as int].subscribers@);
                    if self.topics[i].subscribers[k] == subscription {
                        assert(old_set[k as int] == subscription);
                        present = true;
                    }
                    k += 1;
                }
                assert(self@[i as int] == self.topics@[i as int]@);
                if present {
                    proof {
                        lemma_found(before, i as int);
                        assert(old_set.to_set().insert(subscription) =~= old_set.to_set());
                    }
                } else {
                    assert(!old_set.contains(subscription));
                    self.topics[i].subscribers.push(subscription);
                    let ghost after = self@;
                    let ghost topic = after[i as int];
                    proof {
                        assert(topic.subscribers == old_set.push(subscription));
                        assert(after =~= before.update(i as int, topic));
                        assert(is_topic(topic, subject@, property@));
                        lemma_push_set(old_set, subscription);
                        assert(self.wf());
                        lemma_found(after, i as int);
                        assert forall|s: Seq<char>, p: Seq<char>|
                            !(s == subject@ && p == property@) implies #[trigger] subscribers(
                            after,
                            s,
                            p,
                        ) == subscribers(before, s, p) by {
                            lemma_changed(before, i as int, topic, s, p);
                        }
                    }
                }
            },
            None => {
                let mut list: Vec<Subscription> = Vec::new();
                list.push(subscription);
                self.topics.push(
                    Topic {
                        subject: subject.to_owned(),
                        property: property.to_owned(),
                        subscribers: list,
                    },
                );
                let ghost after = self@;
                let ghost topic = after.last();
                proof {
                    assert(after =~= before.push(topic));
                    assert(topic.subscribers =~= Seq::empty().push(subscription));
                    lemma_push_set(Seq::empty(), subscription);
                    assert(Seq::<Subscription>::empty().to_set() =~= Set::empty());
                    assert(after.drop_last() =~= before);
                    lemma_found(after, before.len() as int);
                    assert(self.wf());
                }
            },
        }
    }

    /// Takes in what became of a wish to subscribe. Says whether the client is subscribed.
    pub fn settle(&mut self, step: SubscribeStep, subject: &str, property: &str, addr: u64) -> (r:
        bool)
        requires
            old(self).wf(),
        ensures
            final(self).wf(),
            match settled_subscription(step, addr) {
                Some(subscription) => r && subscribers(final(self)@, subject@, property@) == Some(
                    clients(old(self)@, subject@, property@).insert(subscription),
                ) && others_unchanged(old(self)@, final(self)@, subject@, property@),
                None => !r && final(self)@ == old(self)@,
            },
    {
        match subscription_of(step, addr) {
            Some(subscription) => {
                self.subscribe(subject, property, subscription);
                true
            },
            None => false,
        }
    }

    /// Takes a connection off the clients of a document.
    pub fn unsubscribe(&mut self, subject: &str, property: &str, addr: u64)
        requires
            old(self).wf(),
        ensures
            final(self).wf(),
            match subscribers(old(self)@, subject@, property@) {
                Some(set) => subscribers(final(self)@, subject@, property@) == Some(
                    without_addr(set, addr),
                ),
                None => subscribers(final(self)@, subject@, property@) is None,
            },
            others_unchanged(old(self)@, final(self)@, subject@, property@),
    {
        let ghost before = self@;
        if let Some(i) = self.place(subject, property) {
            let ghost old_set = before[i as int].subscribers;
            assert(self@[i as int] == self.topics@[i as int]@);
            let mut kept: Vec<Subscription> = Vec::new();
            let ghost wanted = |s: Subscription| s.addr != addr;
            let mut k: usize = 0;
            proof {
                reveal(Seq::filter);
                assert(old_set.take(0).filter(wanted) =~= kept@);
            }
            while k < self.topics[i].subscribers.len()
                invariant
                    i < self.topics@.len(),
                    self@ == before,
                    old_set == self.topics@[i as int].subscribers@,
                    wanted == (|s: Subscription| s.addr != addr),
                    k <= old_set.len(),
                    kept@ == old_set.take(k as int).filter(wanted),
                decreases old_set.len() - k,
            {
                broadcast use Seq::lemma_filter_push;

                let s = self.topics[i].subscribers[k];
                assert(old_set.take(k + 1) =~= old_set.take(k as int).push(s));
                if s.addr != addr {
                    kept.push(s);
                }
                k += 1;
            }
            assert(old_set.take(k as int) =~= old_set);
            self.topics[i].subscribers = kept;
            let ghost after = self@;
            let ghost topic = after[i as int];
            proof {
                assert(topic.subscribers == old_set.filter(wanted));
                assert(after =~= before.update(i as int, topic));
                lemma_filter_set(old_set, addr);
                assert(self.wf());
                lemma_found(after, i as int);
                assert forall|s: Seq<char>, p: Seq<char>|
                    !(s == subject@ && p == property@) implies #[trigger] subscribers(
                    after,
                    s,
                    p,
                ) == subscribers(before, s, p) by {
                    lemma_changed(before, i as int, topic, s, p);
                }
            }
        }
    }

    /// The connections that get an update of a document, sent over the connection `addr`. Nobody
    /// gets it where the sender is not one of the clients, or cannot write.
    pub fn recipients(&self, subject: &str, property: &str, addr: Option<u64>) -> (r: Vec<u64>)
        requires
            self.wf(),
        ensures
            ({
                let set = clients(self@, subject@, property@);
                if addr is Some && may_send(set, addr->0) {
                    sent_to(set, r@)
                } else {
                    r@.len() == 0
                }
            }),
    {
        let mut r: Vec<u64> = Vec::new();
        let addr = match addr {
            Some(addr) => addr,
            None => {
                return r;
            },
        };
        let i = match self.place(subject, property) {
            Some(i) => i,
            None => {
                return r;
            },
        };
        assert(self@[i as int] == self.topics@[i as int]@);
        let list = &self.topics[i].subscribers;
        let ghost all = list@;
        let ghost set = clients(self@, subject@, property@);
        let mut allowed: bool = false;
        let mut k: usize = 0;
        while k < list.len()
            invariant
                k <= list@.len(),
                all == list@,
                allowed == exists|j: int|
                    0 <= j < k && #[trigger] all[j] == (Subscription { addr, can_write: true }),
            decreases list@.len() - k,
        {
            if list[k].addr == addr && list[k].can_write {
                assert(all[k as int] == (Subscription { addr, can_write: true }));
                allowed = true;
            }
            k += 1;
        }
        proof {
            if may_send(set, addr) {
                let j = all.index_of(Subscription { addr, can_write: true });
                assert(all[j] == (Subscription { addr, can_write: true }));
            }
            assert(allowed == may_send(set, addr));
            all.unique_seq_to_set();
        }
        if !allowed {
            return r;
        }
        let mut n: usize = 0;
        while n < list.len()
            invariant
                n <= list@.len(),
                all == list@,
                r@.len() == n,
                forall|j: int| 0 <= j < n ==> #[trigger] r@[j] == all[j].addr,
            decreases list@.len() - n,
        {
            r.push(list[n].addr);
            n += 1;
        }
        proof {
            assert(r@ =~= all.map_values(|s: Subscription| s.addr));
            assert(sends_in_order(set, all, r@));
        }
        r
    }
}

proof fn lemma_push_set(list: Seq<Subscription>, s: Subscription)
    requires
        list.no_duplicates(),
        !list.contains(s),
    ensures
        list.push(s).no_duplicates(),
        list.push(s).to_set() == list.to_set().insert(s),
{
    let after = list.push(s);
    assert forall|x: Subscription| after.contains(x) <==> list.contains(x) || x == s by {
        if list.contains(x) {
            assert(after[list.index_of(x)] == x);
        }
        if x == s {
            assert(after[list.len() as int] == x);
        }
    }
    assert(after.to_set() =~= list.to_set().insert(s));
    assert forall|i: int, j: int| 0 <= i < j < after.len() implies after[i] != after[j] by {
        if j == list.len() {
            assert(list.contains(list[i]));
        }
    }
}

proof fn lemma_filter_set(list: Seq<Subscription>, addr: u64)
    requires
        list.no_duplicates(),
    ensures
        list.filter(|s: Subscription| s.addr != addr).no_duplicates(),
        list.filter(|s: Subscription| s.addr != addr).to_set() == without_addr(
            list.to_set(),
            addr,
        ),
    decreases list.len(),
{
    reveal(Seq::filter);
    let wanted = |s: Subscription| s.addr != addr;
    let kept = list.filter(wanted);
    if list.len() == 0 {
        assert(kept.to_set() =~= without_addr(list.to_set(), addr));
    } else {
        let front = list.drop_last();
        let last = list.last();
        lemma_filter_set(front, addr);
        assert(!front.contains(last)) by {
            if front.contains(last) {
                let k = front.index_of(last);
                assert(list[k] == list[list.len() - 1]);
            }
        }
        lemma_push_set(front, last);
        assert(list =~= front.push(last));
        if wanted(last) {
            assert(!front.filter(wanted).contains(last)) by {
                assert(front.filter(wanted).contains(last) ==> front.filter(wanted).to_set().contains(
                    last,
                ));
                assert(!front.to_set().contains(last));
            }
            lemma_push_set(front.filter(wanted), last);
        }
        assert(kept.to_set() =~= without_addr(list.to_set(), addr));
    }
}

/// A client that has unsubscribed neither gets updates nor may send any.
pub proof fn unsubscribed_clients_are_left_out(set: Set<Subscription>, addr: u64)
    ensures
        !may_send(without_addr(set, addr), addr),
        forall|s: Subscription| #[trigger]
            without_addr(set, addr).contains(s) ==> s.addr != addr && set.contains(s),
        forall|s: Subscription| #[trigger]
            set.contains(s) && s.addr != addr ==> without_addr(set, addr).contains(s),
{
}

/// A client whose wish is settled may send updates only where it has been found that its agent may
/// write to the resource, or where it could before.
pub proof fn only_writers_may_send(set: Set<Subscription>, addr: u64, events: Seq<bool>)
    requires
        settled_subscription(subscribe_after(events), addr) is Some,
        !may_send(set, addr),
        may_send(set.insert(settled_subscription(subscribe_after(events), addr)->0), addr),
    ensures
        exists|k: int|
            0 <= k < events.len() && #[trigger] subscribe_after(events.take(k)) is CheckWrite
                && events[k],
{
    subscriptions_need_rights(events);
}

/// A client that has subscribed may send updates only where it can write, or could before.
pub proof fn readers_may_not_send(set: Set<Subscription>, addr: u64)
    requires
        !may_send(set, addr),
    ensures
        !may_send(set.insert(Subscription { addr, can_write: false }), addr),
        may_send(set.insert(Subscription { addr, can_write: true }), addr),
{
}

/// What an agent may do settles its wish: one that may write is subscribed and can write, one that may
/// only read is subscribed and cannot, and one that may neither is not subscribed, and neither is
/// anybody where there is no resource. What is settled stays so.
pub proof fn rights_settle_a_wish(events: Seq<bool>, worked: bool, addr: u64)
    ensures
        ({
            let step = subscribe_after(events);
            let after = subscribe_after(events.push(worked));
            &&& step is GetResource ==> (after is CheckWrite <==> worked) && (after is Refused
                <==> !worked)
            &&& step is CheckWrite && worked ==> settled_subscription(after, addr) == Some(
                Subscription { addr, can_write: true },
            )
            &&& step is CheckWrite && !worked ==> after is CheckRead
            &&& step is CheckRead && worked ==> settled_subscription(after, addr) == Some(
                Subscription { addr, can_write: false },
            )
            &&& step is CheckRead && !worked ==> after is Refused
            &&& step is Subscribed || step is Refused ==> after == step
            &&& after is Refused ==> settled_subscription(after, addr) is None
        }),
        subscribe_after(Seq::empty()) is GetResource,
{
    assert(events.push(worked).drop_last() =~= events);
}

/// A change to the clients of one document touches no other document, be it another property of the
/// same resource or the same property of another one.
pub proof fn documents_do_not_share_clients(
    before: Seq<TopicView>,
    after: Seq<TopicView>,
    subject: Seq<char>,
    property: Seq<char>,
    other: Seq<char>,
    another: Seq<char>,
)
    requires
        others_unchanged(before, after, subject, property),
    ensures
        other != subject ==> clients(after, other, another) == clients(before, other, another),
        another != property ==> clients(after, other, another) == clients(before, other, another),
{
    if other != subject || another != property {
        assert(subscribers(after, other, another) == subscribers(before, other, another));
    }
}

/// The clients of a document are those that the list has for it.
pub proof fn clients_are_those_in_the_list(topics: Seq<TopicView>, i: int, s: Subscription)
    requires
        0 <= i < topics.len(),
        forall|j: int|
            0 <= j < topics.len() && j != i ==> !((#[trigger] topics[j]).subject
                == topics[i].subject && topics[j].property == topics[i].property),
    ensures
        clients(topics, topics[i].subject, topics[i].property).contains(s)
            <==> topics[i].subscribers.contains(s),
{
    lemma_found(topics, i);
}

} // verus!

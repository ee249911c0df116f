//! The topics that the device is subscribed to on request, and the changes to
//! them that wait for the broker.
//!
//! Requests are queued. The changes that follow from them are handed out one
//! by one, in the order clear, unsubscribe, subscribe, save, and what the
//! broker made of a change is reported back.

use crate::nvs::MAX_DYNAMIC_TOPICS;
use crate::short_text::{as_str, copy_of, empty_list, items, pop, push, remove, short_text};
use crate::text::same_text;
use vstd::prelude::*;

verus! {

/// A change that the broker, or the storage, is asked for.
#[derive(Debug)]
pub enum Change {
    /// Unsubscribe from a topic that was dropped with all others.
    Drop(heapless::String<64>),
    /// Unsubscribe from one topic.
    Remove(heapless::String<64>),
    /// Subscribe to a topic.
    Add(heapless::String<64>),
    /// Store the topics.
    Save,
    /// Nothing is left to do.
    Settled,
}

/// A [`Change`] as mathematical text.
pub enum ChangeView {
    Drop(Seq<char>),
    Remove(Seq<char>),
    Add(Seq<char>),
    Save,
    Settled,
}

impl Change {
    pub open spec fn view(&self) -> ChangeView {
        match self {
            Change::Drop(topic) => ChangeView::Drop(crate::short_text::text_of(*topic)),
            Change::Remove(topic) => ChangeView::Remove(crate::short_text::text_of(*topic)),
            Change::Add(topic) => ChangeView::Add(crate::short_text::text_of(*topic)),
            Change::Save => ChangeView::Save,
            Change::Settled => ChangeView::Settled,
        }
    }
}

/// The state of the subscriptions.
pub struct SubscriptionsView {
    /// The topics, in the order in which they were subscribed to.
    pub topics: Seq<Seq<char>>,
    /// A topic to subscribe to.
    pub subscribe: Option<Seq<char>>,
    /// A topic to unsubscribe from.
    pub unsubscribe: Option<Seq<char>>,
    /// All topics are to be unsubscribed from.
    pub clear: bool,
    /// The topics differ from the stored ones.
    pub changed: bool,
    /// A topic stays if the broker refuses to unsubscribe from it.
    pub keeps_refused: bool,
}

/// What a request asks for.
pub struct RequestView {
    pub subscribe: Option<Seq<char>>,
    pub unsubscribe: Option<Seq<char>>,
    pub unsubscribe_all: bool,
}

impl SubscriptionsView {
    /// A topic may be subscribed to: it is not reserved, it fits, and, unless
    /// all topics are about to be dropped, it is new and there is room.
    pub open spec fn may_add(self, topic: Seq<char>, all: bool, reserved: Seq<Seq<char>>) -> bool {
        &&& !reserved.contains(topic)
        &&& all || !self.topics.contains(topic)
        &&& all || self.topics.len() < MAX_DYNAMIC_TOPICS
        &&& crate::short_text::fits(topic)
    }

    /// The subscriptions after a request was queued.
    pub open spec fn queued(self, request: RequestView, reserved: Seq<Seq<char>>) -> Self {
        SubscriptionsView {
            subscribe: match request.subscribe {
                Some(topic) => if self.may_add(topic, request.unsubscribe_all, reserved) {
                    Some(topic)
                } else {
                    self.subscribe
                },
                None => self.subscribe,
            },
            unsubscribe: match request.unsubscribe {
                Some(topic) => if !reserved.contains(topic) && self.topics.contains(topic) {
                    Some(topic)
                } else {
                    self.unsubscribe
                },
                None => self.unsubscribe,
            },
            clear: self.clear || request.unsubscribe_all,
            ..self
        }
    }

    /// The next change, and the subscriptions after it was handed out.
    pub open spec fn advanced(self) -> (Self, ChangeView) {
        if self.clear && self.topics.len() > 0 {
            (
                SubscriptionsView { topics: self.topics.drop_last(), ..self },
                ChangeView::Drop(self.topics.last()),
            )
        } else if self.unsubscribe is Some && self.topics.contains(self.unsubscribe.unwrap()) {
            (
                SubscriptionsView { clear: false, unsubscribe: None, ..self },
                ChangeView::Remove(self.unsubscribe.unwrap()),
            )
        } else if self.subscribe is Some {
            (
                SubscriptionsView { clear: false, unsubscribe: None, subscribe: None, ..self },
                ChangeView::Add(self.subscribe.unwrap()),
            )
        } else if self.changed {
            (
                SubscriptionsView { clear: false, unsubscribe: None, changed: false, ..self },
                ChangeView::Save,
            )
        } else {
            (
                SubscriptionsView { clear: false, unsubscribe: None, ..self },
                ChangeView::Settled,
            )
        }
    }

    /// The subscriptions after the broker answered for a dropped topic.
    pub open spec fn dropped(self, ok: bool) -> Self {
        SubscriptionsView { changed: self.changed || ok || !self.keeps_refused, ..self }
    }

    /// The subscriptions after the broker answered for a topic to unsubscribe
    /// from.
    pub open spec fn removed(self, topic: Seq<char>, ok: bool) -> Self {
        if (ok || !self.keeps_refused) && self.topics.contains(topic) {
            SubscriptionsView {
                topics: self.topics.remove(self.topics.index_of_first(topic).unwrap()),
                changed: true,
                ..self
            }
        } else {
            self
        }
    }

    /// The subscriptions after the broker answered for a topic to subscribe
    /// to.
    pub open spec fn added(self, topic: Seq<char>, ok: bool) -> Self {
        if ok {
            SubscriptionsView {
                topics: if self.topics.len() < MAX_DYNAMIC_TOPICS {
                    self.topics.push(topic)
                } else {
                    self.topics
                },
                changed: true,
                ..self
            }
        } else {
            self
        }
    }

    /// The topics are in order: none is there twice, none is reserved, all
    /// fit, and what waits to be subscribed to can be.
    pub open spec fn orderly(self, reserved: Seq<Seq<char>>) -> bool {
        &&& self.topics.no_duplicates()
        &&& crate::nvs::storable(self.topics)
        &&& forall|i: int| 0 <= i < self.topics.len() ==> !reserved.contains(#[trigger] self.topics[i])
        &&& self.subscribe matches Some(topic) ==> self.may_add(topic, self.clear, reserved)
    }
}

/// Topics that the device is subscribed to on request.
pub struct Subscriptions {
    topics: heapless::Vec<heapless::String<64>, 4>,
    pending_subscribe: Option<heapless::String<64>>,
    pending_unsubscribe: Option<heapless::String<64>>,
    pending_unsubscribe_all: bool,
    topics_changed: bool,
    keeps_refused: bool,
}

/// What a pending topic holds.
pub open spec fn pending_text(topic: Option<heapless::String<64>>) -> Option<Seq<char>> {
    match topic {
        Some(t) => Some(crate::short_text::text_of(t)),
        None => None,
    }
}

/// What an optional string holds.
pub open spec fn optional_text(text: Option<&str>) -> Option<Seq<char>> {
    match text {
        Some(t) => Some(t@),
        None => None,
    }
}

/// The texts of a list of strings.
pub open spec fn texts(list: Seq<&str>) -> Seq<Seq<char>> {
    list.map_values(|s: &str| s@)
}

/// Where a topic is in a list.
fn position(list: &heapless::Vec<heapless::String<64>, 4>, topic: &str) -> (r: Option<usize>)
    ensures
        match r {
            Some(i) => crate::short_text::texts_of(*list).index_of_first(topic@) == Some(i as int)
                && i < crate::short_text::texts_of(*list).len(),
            None => crate::short_text::texts_of(*list).index_of_first(topic@) is None,
        },
{
    let all: &[heapless::String<64>] = items(list);
    let ghost held = crate::short_text::texts_of(*list);
    let mut i: usize = 0;
    proof {
        held.index_of_first_ensures(topic@);
    }
    while i < all.len()
        invariant
            i <= all@.len(),
            all@.len() == held.len(),
            held == crate::short_text::texts_of(*list),
            forall|j: int|
                0 <= j < all@.len() ==> crate::short_text::text_of(#[trigger] all@[j]) == held[j],
            forall|j: int| 0 <= j < i ==> #[trigger] held[j] != topic@,
        ensures
            i == held.len(),
        decreases all@.len() - i,
    {
        proof {
            assert(crate::short_text::text_of(all@[i as int]) == held[i as int]);
        }
        if same_text(as_str(&all[i]), topic) {
            proof {
                held.index_of_first_ensures(topic@);
            }
            return Some(i);
        }
        i += 1;
    }
    None
}

/// Whether a topic is one of those that cannot be subscribed to or
/// unsubscribed from on request.
pub fn is_reserved_topic(topic: &str, reserved: &[&str]) -> (r: bool)
    ensures
        r == texts(reserved@).contains(topic@),
{
    let ghost held = texts(reserved@);
    let mut i: usize = 0;
    while i < reserved.len()
        invariant
            i <= reserved@.len(),
            held == texts(reserved@),
            forall|j: int| 0 <= j < i ==> #[trigger] held[j] != topic@,
        decreases reserved@.len() - i,
    {
        let name: &str = reserved[i];
        proof {
            assert(held[i as int] == name@);
        }
        if same_text(name, topic) {
            return true;
        }
        i += 1;
    }
    false
}

impl Subscriptions {
    pub closed spec fn view(&self) -> SubscriptionsView {
        SubscriptionsView {
            topics: crate::short_text::texts_of(self.topics),
            subscribe: pending_text(self.pending_subscribe),
            unsubscribe: pending_text(self.pending_unsubscribe),
            clear: self.pending_unsubscribe_all,
            changed: self.topics_changed,
            keeps_refused: self.keeps_refused,
        }
    }

    /// Subscriptions to stored topics. `keeps_refused` tells whether a topic
    /// stays if the broker refuses to unsubscribe from it.
    pub fn new(topics: heapless::Vec<heapless::String<64>, 4>, keeps_refused: bool) -> (r: Self)
        ensures
            r@ == (SubscriptionsView {
                topics: crate::short_text::texts_of(topics),
                subscribe: None,
                unsubscribe: None,
                clear: false,
                changed: false,
                keeps_refused,
            }),
    {
        Self {
            topics,
            pending_subscribe: None,
            pending_unsubscribe: None,
            pending_unsubscribe_all: false,
            topics_changed: false,
            keeps_refused,
        }
    }

    /// The topics.
    pub fn topics(&self) -> (r: &heapless::Vec<heapless::String<64>, 4>)
        ensures
            crate::short_text::texts_of(*r) == self@.topics,
    {
        &self.topics
    }

    /// Whether a topic is among them.
    pub fn contains(&self, topic: &str) -> (r: bool)
        ensures
            r == self@.topics.contains(topic@),
    {
        proof {
            self@.topics.index_of_first_ensures(topic@);
        }
        position(&self.topics, topic).is_some()
    }

    /// Queues what a request asks for, as far as the rules allow it.
    pub fn queue(
        &mut self,
        subscribe: Option<&str>,
        unsubscribe: Option<&str>,
        unsubscribe_all: bool,
        reserved: &[&str],
    )
        ensures
            final(self)@ == old(self)@.queued(
                RequestView {
                    subscribe: optional_text(subscribe),
                    unsubscribe: optional_text(unsubscribe),
                    unsubscribe_all,
                },
                texts(reserved@),
            ),
    {
        let ghost topics = self@.topics;
        if let Some(topic) = subscribe {
            if is_reserved_topic(topic, reserved) {
            } else if !unsubscribe_all && self.contains(topic) {
            } else if !unsubscribe_all && items(&self.topics).len() >= MAX_DYNAMIC_TOPICS {
            } else if let Some(t) = short_text(topic) {
                self.pending_subscribe = Some(t);
            }
        }
        if let Some(topic) = unsubscribe {
            if is_reserved_topic(topic, reserved) {
            } else {
                proof {
                    topics.index_of_first_ensures(topic@);
                }
                match position(&self.topics, topic) {
                    Some(i) => {
                        let t: heapless::String<64> = copy_of(&items(&self.topics)[i]);
                        self.pending_unsubscribe = Some(t);
                    },
                    None => {},
                }
            }
        }
        if unsubscribe_all {
            self.pending_unsubscribe_all = true;
        }
    }

    /// Queues that all topics be unsubscribed from.
    pub fn queue_clear(&mut self)
        ensures
            final(self)@ == (SubscriptionsView { clear: true, ..old(self)@ }),
    {
        self.pending_unsubscribe_all = true;
    }

    /// The next change. After `Drop`, `Remove` and `Add` the broker's answer
    /// is to be reported.
    pub fn next_change(&mut self) -> (r: Change)
        ensures
            (final(self)@, r@) == old(self)@.advanced(),
    {
        if self.pending_unsubscribe_all {
            match pop(&mut self.topics) {
                Some(topic) => {
                    return Change::Drop(topic);
                },
                None => {
                    self.pending_unsubscribe_all = false;
                },
            }
        }
        if let Some(topic) = self.pending_unsubscribe.take() {
            let ghost held = self@.topics;
            proof {
                held.index_of_first_ensures(crate::short_text::text_of(topic));
            }
            if position(&self.topics, as_str(&topic)).is_some() {
                return Change::Remove(topic);
            }
        }
        if let Some(topic) = self.pending_subscribe.take() {
            return Change::Add(topic);
        }
        if self.topics_changed {
            self.topics_changed = false;
            return Change::Save;
        }
        Change::Settled
    }

    /// Reports what the broker answered for a dropped topic.
    pub fn report_dropped(&mut self, ok: bool)
        ensures
            final(self)@ == old(self)@.dropped(ok),
    {
        if ok || !self.keeps_refused {
            self.topics_changed = true;
        }
    }

    /// Reports what the broker answered for a topic to unsubscribe from.
    pub fn report_removed(&mut self, topic: &str, ok: bool)
        ensures
            final(self)@ == old(self)@.removed(topic@, ok),
    {
        if ok || !self.keeps_refused {
            proof {
                self@.topics.index_of_first_ensures(topic@);
            }
            match position(&self.topics, topic) {
                Some(i) => {
                    remove(&mut self.topics, i);
                    self.topics_changed = true;
                },
                None => {},
            }
        }
    }

    /// Reports what the broker answered for a topic to subscribe to.
    pub fn report_added(&mut self, topic: heapless::String<64>, ok: bool)
        ensures
            final(self)@ == old(self)@.added(crate::short_text::text_of(topic), ok),
    {
        if ok {
            push(&mut self.topics, topic);
            self.topics_changed = true;
        }
    }
}

/// Whatever is requested, the topics stay in order.
pub proof fn law_requests_keep_order(
    v: SubscriptionsView,
    request: RequestView,
    reserved: Seq<Seq<char>>,
)
    requires
        v.orderly(reserved),
    ensures
        v.queued(request, reserved).orderly(reserved),
{
}

/// Handing out a change keeps the topics in order, and a topic that is handed
/// out to be subscribed to is new, not reserved, and there is room for it.
pub proof fn law_changes_keep_order(v: SubscriptionsView, reserved: Seq<Seq<char>>)
    requires
        v.orderly(reserved),
    ensures
        v.advanced().0.orderly(reserved),
        v.advanced().1 matches ChangeView::Add(topic) ==> v.advanced().0.may_add(
            topic,
            false,
            reserved,
        ) && v.advanced().0.subscribe is None,
{
    let after = v.advanced().0;
    if v.clear && v.topics.len() > 0 {
        assert forall|i: int| 0 <= i < after.topics.len() implies after.topics[i]
            == v.topics[i] by {}
        assert forall|i: int| 0 <= i < after.topics.len() implies !reserved.contains(
            #[trigger] after.topics[i],
        ) && crate::short_text::fits(after.topics[i]) by {
            assert(after.topics[i] == v.topics[i]);
        }
        assert(after.topics.no_duplicates());
    } else if v.clear {
        assert forall|t: Seq<char>| !v.topics.contains(t) by {}
    }
}

/// A topic that the broker accepts is remembered, and the topics stay in
/// order.
pub proof fn law_accepted_topic_is_remembered(
    v: SubscriptionsView,
    topic: Seq<char>,
    ok: bool,
    reserved: Seq<Seq<char>>,
)
    requires
        v.orderly(reserved),
        v.subscribe is None,
        v.may_add(topic, false, reserved),
    ensures
        v.added(topic, ok).orderly(reserved),
        ok ==> v.added(topic, ok).topics == v.topics.push(topic) && v.added(topic, ok).changed,
{
    let after = v.added(topic, ok);
    if ok {
        assert forall|i: int, j: int|
            0 <= i < after.topics.len() && 0 <= j < after.topics.len() && i
                != j implies after.topics[i] != after.topics[j] by {
            if i < v.topics.len() {
                assert(v.topics.contains(v.topics[i]));
            }
            if j < v.topics.len() {
                assert(v.topics.contains(v.topics[j]));
            }
        }
    }
}

/// A topic that is unsubscribed from is forgotten, and the topics stay in
/// order.
pub proof fn law_removed_topic_is_forgotten(
    v: SubscriptionsView,
    topic: Seq<char>,
    ok: bool,
    reserved: Seq<Seq<char>>,
)
    requires
        v.orderly(reserved),
    ensures
        v.removed(topic, ok).orderly(reserved),
        ok || !v.keeps_refused ==> !v.removed(topic, ok).topics.contains(topic),
        forall|other: Seq<char>|
            other != topic ==> (#[trigger] v.removed(topic, ok).topics.contains(other)
                <==> v.topics.contains(other)),
{
    let after = v.removed(topic, ok);
    if (ok || !v.keeps_refused) && v.topics.contains(topic) {
        v.topics.index_of_first_ensures(topic);
        let at = v.topics.index_of_first(topic).unwrap();
        assert forall|i: int| 0 <= i < after.topics.len() implies #[trigger] after.topics[i] == (
        if i < at {
            v.topics[i]
        } else {
            v.topics[i + 1]
        }) by {}
        assert forall|other: Seq<char>| other != topic && v.topics.contains(other) implies #[trigger] after.topics.contains(
        other) by {
            let i = choose|i: int| 0 <= i < v.topics.len() && v.topics[i] == other;
            if i < at {
                assert(after.topics[i] == other);
            } else {
                assert(after.topics[i - 1] == other);
            }
        }
    }
}

/// Once nothing is left to do, nothing waits, and what is stored is what is
/// subscribed to.
pub proof fn law_settled(v: SubscriptionsView)
    requires
        v.advanced().1 is Settled,
    ensures
        ({
            let after = v.advanced().0;
            &&& after.topics == v.topics
            &&& after.subscribe is None && after.unsubscribe is None && !after.clear
            &&& !after.changed
        }),
{
}

// =============================================================================
// Requests are carried out, and what is stored is what is subscribed to
// =============================================================================

/// One round: the next change, carried out, with the broker's answer. `stored`
/// are the topics that were stored last.
pub open spec fn round(v: SubscriptionsView, stored: Seq<Seq<char>>, ok: bool) -> (
    SubscriptionsView,
    Seq<Seq<char>>,
) {
    let (next, change) = v.advanced();
    match change {
        ChangeView::Drop(_) => (next.dropped(ok), stored),
        ChangeView::Remove(topic) => (next.removed(topic, ok), stored),
        ChangeView::Add(topic) => (next.added(topic, ok), stored),
        ChangeView::Save => (next, next.topics),
        ChangeView::Settled => (next, stored),
    }
}

/// What happens to subscriptions.
pub enum Act {
    /// A request comes; some topics are reserved.
    Request(RequestView, Seq<Seq<char>>),
    /// All topics are to be dropped.
    Clear,
    /// One round, with the broker's answer.
    Round(bool),
}

/// The subscriptions, and the topics that were stored last, after one act.
pub open spec fn acted(v: SubscriptionsView, stored: Seq<Seq<char>>, act: Act) -> (
    SubscriptionsView,
    Seq<Seq<char>>,
) {
    match act {
        Act::Request(request, reserved) => (v.queued(request, reserved), stored),
        Act::Clear => (SubscriptionsView { clear: true, ..v }, stored),
        Act::Round(ok) => round(v, stored, ok),
    }
}

/// The subscriptions, and the topics that were stored last, after a session
/// that began with these topics and in which these acts came one after the
/// other.
pub open spec fn session(topics: Seq<Seq<char>>, keeps_refused: bool, acts: Seq<Act>) -> (
    SubscriptionsView,
    Seq<Seq<char>>,
)
    decreases acts.len(),
{
    if acts.len() == 0 {
        (
            SubscriptionsView {
                topics,
                subscribe: None,
                unsubscribe: None,
                clear: false,
                changed: false,
                keeps_refused,
            },
            topics,
        )
    } else {
        let (v, stored) = session(topics, keeps_refused, acts.drop_last());
        acted(v, stored, acts.last())
    }
}

/// The broker refused to drop a topic, in a session that stores only what the
/// broker agreed to.
pub open spec fn refuses_drop(topics: Seq<Seq<char>>, keeps_refused: bool, acts: Seq<Act>) -> bool
    decreases acts.len(),
{
    if acts.len() == 0 {
        false
    } else {
        let v = session(topics, keeps_refused, acts.drop_last()).0;
        ||| refuses_drop(topics, keeps_refused, acts.drop_last())
        ||| keeps_refused && acts.last() == Act::Round(false) && v.advanced().1 is Drop
    }
}

/// Subscriptions outlive a reboot: whatever was requested and however the broker
/// answered, once nothing is left to do, the topics that are stored are the ones
/// that the device is subscribed to. Left out is a session that stores only what
/// the broker agreed to, and in which the broker refused to drop a topic.
pub proof fn law_settled_topics_are_stored(
    topics: Seq<Seq<char>>,
    keeps_refused: bool,
    acts: Seq<Act>,
)
    requires
        !refuses_drop(topics, keeps_refused, acts),
    ensures
        ({
            let (v, stored) = session(topics, keeps_refused, acts);
            &&& v.keeps_refused == keeps_refused
            &&& v.changed || stored == v.topics
            &&& v.advanced().1 is Settled ==> stored == v.topics
            &&& v.advanced().1 is Save ==> round(v, stored, true).1 == v.topics
        }),
    decreases acts.len(),
{
    if acts.len() > 0 {
        law_settled_topics_are_stored(topics, keeps_refused, acts.drop_last());
    }
}

/// The subscriptions after rounds in which the broker agrees to everything,
/// until nothing is left to do.
pub open spec fn settled(v: SubscriptionsView, rounds: nat) -> SubscriptionsView
    decreases rounds,
{
    if rounds == 0 || v.advanced().1 is Settled {
        v.advanced().0
    } else {
        settled(round(v, v.topics, true).0, (rounds - 1) as nat)
    }
}

/// Dropping all topics takes one round for each.
proof fn lemma_cleared(v: SubscriptionsView, rounds: nat)
    requires
        v.clear,
        rounds >= v.topics.len(),
    ensures
        settled(v, rounds) == settled(
            SubscriptionsView {
                topics: Seq::empty(),
                changed: v.changed || v.topics.len() > 0,
                ..v
            },
            (rounds - v.topics.len()) as nat,
        ),
    decreases v.topics.len(),
{
    if v.topics.len() > 0 {
        let next = round(v, v.topics, true).0;
        lemma_cleared(next, (rounds - 1) as nat);
        assert(v.changed || v.topics.len() > 0);
    } else {
        assert(v.topics =~= Seq::empty());
    }
}

/// A request is carried out, if the broker agrees: afterwards the device is
/// subscribed to the topic that was asked for, if it may be; it is no longer
/// subscribed to the one to unsubscribe from, or to any where all were to be
/// dropped; and it is subscribed to what it was subscribed to before otherwise.
/// A topic may be subscribed to if it is not reserved, takes at most 64 bytes,
/// and, unless all are dropped, is new and one of four.
pub proof fn law_request_is_carried_out(
    v: SubscriptionsView,
    request: RequestView,
    reserved: Seq<Seq<char>>,
    rounds: nat,
    topic: Seq<char>,
)
    requires
        v.topics.no_duplicates(),
        v.topics.len() <= 4,
        v.subscribe is None && v.unsubscribe is None && !v.clear,
        rounds >= 8,
    ensures
        ({
            let end = settled(v.queued(request, reserved), rounds);
            let all = request.unsubscribe_all;
            let asked = request.subscribe == Some(topic) && !reserved.contains(topic)
                && vstd::utf8::encode_utf8(topic).len() <= 64 && (all || !v.topics.contains(topic)
                && v.topics.len() < 4);
            let dropped = all || request.unsubscribe == Some(topic) && !reserved.contains(topic);
            &&& end.topics.contains(topic) <==> asked || v.topics.contains(topic) && !dropped
            &&& end.subscribe is None && end.unsubscribe is None && !end.clear && !end.changed
        }),
{
    let queued = v.queued(request, reserved);
    let none: Seq<Seq<char>> = Seq::empty();
    let start = if queued.clear {
        SubscriptionsView {
            topics: none,
            changed: queued.changed || queued.topics.len() > 0,
            ..queued
        }
    } else {
        queued
    };
    let left: nat = if queued.clear {
        lemma_cleared(queued, rounds);
        (rounds - queued.topics.len()) as nat
    } else {
        rounds
    };
    assert(settled(queued, rounds) == settled(start, left));
    assert(left >= 4);
    // At most three rounds are left, and the one that finds nothing to do.
    let one = if start.advanced().1 is Remove {
        round(start, start.topics, true).0
    } else {
        start
    };
    if start.advanced().1 is Remove {
        let gone = request.unsubscribe.unwrap();
        start.topics.index_of_first_ensures(gone);
        let at = start.topics.index_of_first(gone).unwrap();
        assert forall|x: Seq<char>| one.topics.contains(x) <==> start.topics.contains(x) && x
            != gone by {
            if one.topics.contains(x) {
                let i = choose|i: int| 0 <= i < one.topics.len() && one.topics[i] == x;
                if i < at {
                    assert(start.topics[i] == x);
                } else {
                    assert(start.topics[i + 1] == x);
                }
            }
            if start.topics.contains(x) && x != gone {
                let i = choose|i: int| 0 <= i < start.topics.len() && start.topics[i] == x;
                if i < at {
                    assert(one.topics[i] == x);
                } else {
                    assert(one.topics[i - 1] == x);
                }
            }
        }
    }
    let left_one: nat = if start.advanced().1 is Remove {
        (left - 1) as nat
    } else {
        left
    };
    assert(settled(start, left) == settled(one, left_one));
    let two = if one.advanced().1 is Add {
        round(one, one.topics, true).0
    } else {
        one
    };
    let left_two: nat = if one.advanced().1 is Add {
        (left_one - 1) as nat
    } else {
        left_one
    };
    assert(settled(one, left_one) == settled(two, left_two));
    if one.advanced().1 is Add {
        let new = request.subscribe.unwrap();
        assert(one.topics.len() < 4);
        assert(two.topics == one.topics.push(new));
        assert forall|x: Seq<char>| two.topics.contains(x) <==> one.topics.contains(x) || x
            == new by {
            if one.topics.contains(x) {
                let i = choose|i: int| 0 <= i < one.topics.len() && one.topics[i] == x;
                assert(two.topics[i] == x);
            }
            assert(two.topics[one.topics.len() as int] == new);
            if two.topics.contains(x) {
                let i = choose|i: int| 0 <= i < two.topics.len() && two.topics[i] == x;
                if i < one.topics.len() {
                    assert(one.topics[i] == x);
                }
            }
        }
    }
    let end = settled(two, left_two);
    reveal_with_fuel(settled, 3);
    assert(end.topics == two.topics);
}

/// The changes are handed out in the order clear, unsubscribe, subscribe, save,
/// and a topic that is dropped is forgotten at once.
pub proof fn law_order_of_changes(s: &mut Subscriptions, r: Change)
    requires
        call_ensures(Subscriptions::next_change, (s,), r),
    ensures
        (final(s)@, r@) == old(s)@.advanced(),
        old(s)@.clear && old(s)@.topics.len() > 0 ==> r is Drop,
        r@ matches ChangeView::Drop(topic) ==> {
            &&& old(s)@.clear
            &&& old(s)@.topics == final(s)@.topics.push(topic)
            &&& final(s)@.clear
        },
        r@ matches ChangeView::Remove(topic) ==> {
            &&& old(s)@.unsubscribe == Some(topic) && old(s)@.topics.contains(topic)
            &&& final(s)@.topics == old(s)@.topics
        },
        r@ matches ChangeView::Add(topic) ==> {
            &&& old(s)@.subscribe == Some(topic) && final(s)@.subscribe is None
            &&& old(s)@.unsubscribe is None || !old(s)@.topics.contains(old(s)@.unsubscribe.unwrap())
            &&& final(s)@.topics == old(s)@.topics
        },
        r is Save ==> old(s)@.subscribe is None && old(s)@.changed && !final(s)@.changed
            && final(s)@.topics == old(s)@.topics,
        r is Settled ==> old(s)@.subscribe is None && !old(s)@.changed && final(s)@.topics == old(
            s,
        )@.topics,
        !(r is Save) ==> final(s)@.changed == old(s)@.changed,
        final(s)@.keeps_refused == old(s)@.keeps_refused,
{
    let v = old(s)@;
    if v.clear && v.topics.len() > 0 {
        assert(v.topics.drop_last().push(v.topics.last()) =~= v.topics);
    }
}

/// What the broker answered is taken in: a topic that was subscribed to is
/// remembered; one that was unsubscribed from is forgotten, also where the
/// broker refused, unless such topics are kept; and what changed is stored
/// later.
pub proof fn law_answers_are_taken_in(
    a: &mut Subscriptions,
    dropped: bool,
    b: &mut Subscriptions,
    gone: &str,
    removed: bool,
    c: &mut Subscriptions,
    new: heapless::String<64>,
    added: bool,
)
    requires
        call_ensures(Subscriptions::report_dropped, (a, dropped), ()),
        call_ensures(Subscriptions::report_removed, (b, gone, removed), ()),
        call_ensures(Subscriptions::report_added, (c, new, added), ()),
    ensures
        final(a)@ == old(a)@.dropped(dropped),
        final(b)@ == old(b)@.removed(gone@, removed),
        final(c)@ == old(c)@.added(crate::short_text::text_of(new), added),
        final(a)@.topics == old(a)@.topics,
        final(a)@.changed <==> old(a)@.changed || dropped || !old(a)@.keeps_refused,
        old(b)@.topics.no_duplicates() && (removed || !old(b)@.keeps_refused)
            ==> !final(b)@.topics.contains(gone@),
        !removed && old(b)@.keeps_refused ==> final(b)@ == old(b)@,
        final(b)@.topics != old(b)@.topics ==> final(b)@.changed,
        added && old(c)@.topics.len() < 4 ==> final(c)@.topics == old(c)@.topics.push(
            crate::short_text::text_of(new),
        ) && final(c)@.changed,
        !added ==> final(c)@ == old(c)@,
{
    let topics = old(b)@.topics;
    if topics.no_duplicates() && (removed || !old(b)@.keeps_refused) && topics.contains(gone@) {
        topics.index_of_first_ensures(gone@);
        let at = topics.index_of_first(gone@).unwrap();
        let after = final(b)@.topics;
        if after.contains(gone@) {
            let i = choose|i: int| 0 <= i < after.len() && after[i] == gone@;
            if i < at {
                assert(topics[i] == gone@);
            } else {
                assert(topics[i + 1] == gone@);
            }
        }
    }
}

/// A request is queued, and nothing is changed before it is carried out.
pub proof fn law_requests_are_queued(
    s: &mut Subscriptions,
    subscribe: Option<&str>,
    unsubscribe: Option<&str>,
    all: bool,
    reserved: &[&str],
    t: &mut Subscriptions,
)
    requires
        call_ensures(Subscriptions::queue, (s, subscribe, unsubscribe, all, reserved), ()),
        call_ensures(Subscriptions::queue_clear, (t,), ()),
    ensures
        final(s)@ == old(s)@.queued(
            RequestView {
                subscribe: optional_text(subscribe),
                unsubscribe: optional_text(unsubscribe),
                unsubscribe_all: all,
            },
            texts(reserved@),
        ),
        final(s)@.topics == old(s)@.topics && final(s)@.changed == old(s)@.changed,
        final(s)@.clear <==> all || old(s)@.clear,
        final(s)@.unsubscribe matches Some(x) ==> old(s)@.unsubscribe == Some(x) || old(
            s,
        )@.topics.contains(x) && !texts(reserved@).contains(x) && (unsubscribe matches Some(u)
            && u@ == x),
        unsubscribe matches Some(u) ==> old(s)@.topics.contains(u@) && !texts(reserved@).contains(u@)
            ==> final(s)@.unsubscribe == Some(u@),
        final(t)@.clear,
        final(t)@.topics == old(t)@.topics && final(t)@.subscribe == old(t)@.subscribe
            && final(t)@.unsubscribe == old(t)@.unsubscribe && final(t)@.changed == old(
            t,
        )@.changed,
{
}

/// Subscriptions begin with the stored topics, and tell which they are.
pub proof fn law_stored_topics_are_restored(
    topics: heapless::Vec<heapless::String<64>, 4>,
    keeps_refused: bool,
    s: Subscriptions,
    topic: &str,
    held: bool,
    reserved: &[&str],
    own: bool,
    told: &heapless::Vec<heapless::String<64>, 4>,
)
    requires
        call_ensures(Subscriptions::new, (topics, keeps_refused), s),
        call_ensures(Subscriptions::topics, (&s,), told),
        call_ensures(Subscriptions::contains, (&s, topic), held),
        call_ensures(is_reserved_topic, (topic, reserved), own),
    ensures
        s@ == session(crate::short_text::texts_of(topics), keeps_refused, Seq::empty()).0,
        crate::short_text::texts_of(*told) == crate::short_text::texts_of(topics),
        held <==> exists|i: int|
            0 <= i < crate::short_text::texts_of(topics).len() && #[trigger]
            crate::short_text::texts_of(topics)[i] == topic@,
        own <==> exists|i: int| 0 <= i < reserved@.len() && (#[trigger] reserved@[i])@ == topic@,
{
    let list = texts(reserved@);
    if own {
        let i = choose|i: int| 0 <= i < list.len() && list[i] == topic@;
        assert(reserved@[i]@ == topic@);
    }
    if exists|i: int| 0 <= i < reserved@.len() && (#[trigger] reserved@[i])@ == topic@ {
        let i = choose|i: int| 0 <= i < reserved@.len() && (#[trigger] reserved@[i])@ == topic@;
        assert(list[i] == topic@);
    }
}

} // verus!

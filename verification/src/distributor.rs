//! The distributor: sole owner of the live subscriber set. It admits
//! new subscribers, plans the fan-out of each incoming record to every
//! subscriber currently in the set, and removes exactly the
//! subscribers whose send failed — a slow or disconnected subscriber
//! never affects delivery to the rest. No backlog is kept: a
//! subscriber admitted after a record was broadcast never receives it.

use vstd::prelude::*;
use vstd::seq_lib::*;

verus! {

/// The subscribers that remain after one broadcast round: those whose
/// send was reported as delivered, in registration order.
pub open spec fn kept(subs: Seq<u64>, delivered: Seq<bool>) -> Seq<u64>
    decreases subs.len(),
{
    if subs.len() == 0 {
        Seq::empty()
    } else {
        kept(subs.drop_last(), delivered.drop_last()) + if delivered.last() {
            seq![subs.last()]
        } else {
            Seq::empty()
        }
    }
}

/// The live subscriber set, keyed by per-connection identifier.
pub struct Distributor {
    subs: Vec<u64>,
}

impl View for Distributor {
    type V = Seq<u64>;

    closed spec fn view(&self) -> Seq<u64> {
        self.subs@
    }
}

impl Distributor {
    /// Well-formedness: no subscriber is registered twice.
    pub open spec fn inv(&self) -> bool {
        self@.no_duplicates()
    }

    /// Creates a distributor with no subscribers.
    pub fn new() -> (d: Distributor)
        ensures
            d.inv(),
            d@ == Seq::<u64>::empty(),
    {
        Distributor { subs: Vec::new() }
    }

    /// Admits a new subscriber. A subscriber already in the set is
    /// left as it is.
    pub fn register_subscriber(&mut self, id: u64)
        requires
            old(self).inv(),
        ensures
            final(self).inv(),
            final(self)@ == if old(self)@.contains(id) {
                old(self)@
            } else {
                old(self)@.push(id)
            },
    {
        let n = self.subs.len();
        let mut i: usize = 0;
        while i < n
            invariant
                old(self).inv(),
                n == self.subs@.len(),
                i <= n,
                forall|j: int| 0 <= j < i ==> self.subs@[j] != id,
                self == old(self),
            decreases n - i,
        {
            if self.subs[i] == id {
                proof {
                    assert(old(self)@.contains(id));
                }
                return ;
            }
            i = i + 1;
        }
        proof {
            assert(!old(self)@.contains(id));
        }
        self.subs.push(id);
    }

    /// The plan of one broadcast round: every subscriber currently in
    /// the set, each exactly once, in set order. The record is to be
    /// sent to each of them, whatever happens to the others.
    pub fn broadcast_plan(&self) -> (plan: Vec<u64>)
        ensures
            plan@ == self@,
    {
        let n = self.subs.len();
        let mut plan: Vec<u64> = Vec::new();
        let mut i: usize = 0;
        while i < n
            invariant
                n == self.subs@.len(),
                i <= n,
                plan@ == self.subs@.take(i as int),
            decreases n - i,
        {
            plan.push(self.subs[i]);
            proof {
                assert(self.subs@.take(i + 1 as int) =~= self.subs@.take(i as int).push(
                    self.subs@[i as int],
                ));
            }
            i = i + 1;
        }
        proof {
            assert(self.subs@.take(n as int) =~= self.subs@);
        }
        plan
    }

    /// Applies the outcome of one broadcast round: exactly the
    /// subscribers whose send failed leave the set; every other
    /// subscriber stays, in order.
    pub fn apply_send_outcomes(&mut self, delivered: &Vec<bool>)
        requires
            old(self).inv(),
            delivered@.len() == old(self)@.len(),
        ensures
            final(self).inv(),
            final(self)@ == kept(old(self)@, delivered@),
    {
        let n = self.subs.len();
        let mut out: Vec<u64> = Vec::new();
        let mut i: usize = 0;
        while i < n
            invariant
                n == self.subs@.len(),
                delivered@.len() == n,
                i <= n,
                self == old(self),
                out@ == kept(self.subs@.take(i as int), delivered@.take(i as int)),
            decreases n - i,
        {
            if delivered[i] {
                out.push(self.subs[i]);
            }
            proof {
                assert(self.subs@.take(i + 1 as int).drop_last() =~= self.subs@.take(i as int));
                assert(delivered@.take(i + 1 as int).drop_last() =~= delivered@.take(i as int));
                assert(out@ =~= kept(
                    self.subs@.take(i + 1 as int),
                    delivered@.take(i + 1 as int),
                ));
            }
            i = i + 1;
        }
        proof {
            assert(self.subs@.take(n as int) =~= self.subs@);
            assert(delivered@.take(n as int) =~= delivered@);
            lemma_kept_no_duplicates(self.subs@, delivered@);
        }
        self.subs = out;
    }
}

/// Every subscriber the round kept was registered before it.
pub proof fn lemma_kept_members(subs: Seq<u64>, delivered: Seq<bool>, x: u64)
    requires
        kept(subs, delivered).contains(x),
    ensures
        subs.contains(x),
    decreases subs.len(),
{
    if subs.len() > 0 {
        if delivered.last() && x == subs.last() {
        } else {
            lemma_kept_members(subs.drop_last(), delivered.drop_last(), x);
            assert(subs.drop_last().contains(x));
            let i = choose|i: int| 0 <= i < subs.drop_last().len() && subs.drop_last()[i] == x;
            assert(subs[i] == x);
        }
    }
}

/// A kept set of a duplicate-free round is duplicate-free.
pub proof fn lemma_kept_no_duplicates(subs: Seq<u64>, delivered: Seq<bool>)
    requires
        subs.no_duplicates(),
    ensures
        kept(subs, delivered).no_duplicates(),
    decreases subs.len(),
{
    if subs.len() > 0 {
        let head = subs.drop_last();
        assert(head.no_duplicates());
        lemma_kept_no_duplicates(head, delivered.drop_last());
        if delivered.last() {
            let k = kept(head, delivered.drop_last());
            if k.contains(subs.last()) {
                lemma_kept_members(head, delivered.drop_last(), subs.last());
                let i = choose|i: int| 0 <= i < head.len() && head[i] == subs.last();
                assert(subs[i] == subs[subs.len() - 1]);
                assert(false);
            }
            assert(kept(subs, delivered) =~= k.push(subs.last()));
        } else {
            assert(kept(subs, delivered) =~= kept(head, delivered.drop_last()));
        }
    }
}

/// Broadcasting is resilient: whichever other subscribers' sends
/// failed in a round, a subscriber whose own send was delivered is
/// still in the set afterward — one disconnecting subscriber never
/// costs the rest a record, and the round's plan already carried the
/// record to every registered subscriber.
pub proof fn lemma_broadcast_resilient(subs: Seq<u64>, delivered: Seq<bool>, i: int)
    requires
        subs.len() == delivered.len(),
        0 <= i < subs.len(),
        delivered[i],
    ensures
        kept(subs, delivered).contains(subs[i]),
    decreases subs.len(),
{
    if i == subs.len() - 1 {
        let k = kept(subs, delivered);
        assert(k.last() == subs[i]);
        assert(k.contains(subs[i]));
    } else {
        lemma_broadcast_resilient(subs.drop_last(), delivered.drop_last(), i);
        let head = kept(subs.drop_last(), delivered.drop_last());
        let j = choose|j: int| 0 <= j < head.len() && head[j] == subs.drop_last()[i];
        assert(kept(subs, delivered)[j] == subs[i]);
    }
}

/// The lifecycle of one subscriber connection.
#[derive(Clone, Copy, PartialEq, Eq, Structural, Debug)]
pub enum SubscriberPhase {
    /// The transport connection is made but registration with the
    /// distributor has not completed.
    Connecting,
    /// The distributor has admitted the subscriber's channel.
    Registered,
    /// The receive-and-forward loop is running.
    Active,
    /// Terminal: the connection is gone. Reconnection, if any, is a
    /// brand-new connection.
    Closed,
}

/// What happens to one subscriber connection.
#[derive(Clone, Copy, PartialEq, Eq, Structural, Debug)]
pub enum SubscriberEvent {
    /// Registration with the distributor completed.
    RegistrationAccepted,
    /// The distributor could not be reached: the connection aborts.
    RegistrationFailed,
    /// The receive-and-forward loop started.
    ForwardingStarted,
    /// A send to the subscriber failed.
    SendFailed,
    /// The transport connection closed.
    ConnectionClosed,
}

/// The subscriber state machine. `Closed` is terminal; a failure at
/// any phase closes the connection; nothing ever reopens it.
pub open spec fn spec_subscriber_next(
    phase: SubscriberPhase,
    event: SubscriberEvent,
) -> SubscriberPhase {
    match (phase, event) {
        (SubscriberPhase::Connecting, SubscriberEvent::RegistrationAccepted) => SubscriberPhase::Registered,
        (SubscriberPhase::Registered, SubscriberEvent::ForwardingStarted) => SubscriberPhase::Active,
        (_, SubscriberEvent::RegistrationFailed) => SubscriberPhase::Closed,
        (_, SubscriberEvent::SendFailed) => SubscriberPhase::Closed,
        (_, SubscriberEvent::ConnectionClosed) => SubscriberPhase::Closed,
        (_, _) => phase,
    }
}

/// Advances one subscriber connection by one event.
pub fn subscriber_next(phase: SubscriberPhase, event: SubscriberEvent) -> (next: SubscriberPhase)
    ensures
        next == spec_subscriber_next(phase, event),
        phase == SubscriberPhase::Closed ==> next == SubscriberPhase::Closed,
{
    match (phase, event) {
        (SubscriberPhase::Connecting, SubscriberEvent::RegistrationAccepted) => SubscriberPhase::Registered,
        (SubscriberPhase::Registered, SubscriberEvent::ForwardingStarted) => SubscriberPhase::Active,
        (_, SubscriberEvent::RegistrationFailed) => SubscriberPhase::Closed,
        (_, SubscriberEvent::SendFailed) => SubscriberPhase::Closed,
        (_, SubscriberEvent::ConnectionClosed) => SubscriberPhase::Closed,
        (p, _) => p,
    }
}

} // verus!

use vstd::prelude::*;
use crate::ids::random_id;
use crate::session::Event;
use crate::table::Table;

verus! {

/// Each connected observer's pending events, by connection id.
pub type Queues = Map<Seq<char>, Seq<Event>>;

/// `e` appended once to the queue of every observer in `q`.
pub open spec fn broadcast_all(q: Queues, e: Event) -> Queues {
    q.map_values(|s: Seq<Event>| s.push(e))
}

/// The queues after broadcasting the events of `es`, first to last.
pub open spec fn broadcast_seq(q: Queues, es: Seq<Event>) -> Queues
    decreases es.len(),
{
    if es.len() == 0 {
        q
    } else {
        broadcast_seq(broadcast_all(q, es[0]), es.drop_first())
    }
}

/// The reply that an observer's message of type `kind` calls for.
pub open spec fn reply_to(kind: Seq<char>, correlation: Option<String>) -> Option<Event> {
    if kind == "ping"@ {
        Some(Event::Pong { correlation })
    } else {
        None
    }
}

/// Every observer connected when a run of broadcasts begins receives each
/// event of the run exactly once, in the order the broadcasts were made, and
/// no observer is added or dropped on the way.
pub proof fn lemma_broadcasts_arrive_in_order(q: Queues, es: Seq<Event>)
    ensures
        broadcast_seq(q, es).dom() == q.dom(),
        forall|k: Seq<char>| #[trigger]
            q.contains_key(k) ==> broadcast_seq(q, es)[k] == q[k] + es,
    decreases es.len(),
{
    if es.len() == 0 {
        assert forall|k: Seq<char>| #[trigger] q.contains_key(k) implies broadcast_seq(q, es)[k]
            == q[k] + es by {
            assert(q[k] + es =~= q[k]);
        }
    } else {
        let q1 = broadcast_all(q, es[0]);
        lemma_broadcasts_arrive_in_order(q1, es.drop_first());
        assert(q1.dom() =~= q.dom());
        assert forall|k: Seq<char>| #[trigger] q.contains_key(k) implies broadcast_seq(q, es)[k]
            == q[k] + es by {
            assert(q1.contains_key(k));
            assert(q[k].push(es[0]) + es.drop_first() =~= q[k] + es);
        }
    }
}

/// Broadcasting one run of events and then another is broadcasting the two
/// runs joined, so successive calls add up to one ordered run.
pub proof fn lemma_broadcast_runs_compose(q: Queues, a: Seq<Event>, b: Seq<Event>)
    ensures
        broadcast_seq(broadcast_seq(q, a), b) == broadcast_seq(q, a + b),
    decreases a.len(),
{
    if a.len() == 0 {
        assert(a + b =~= b);
    } else {
        lemma_broadcast_runs_compose(broadcast_all(q, a[0]), a.drop_first(), b);
        assert((a + b).drop_first() =~= a.drop_first() + b);
        assert((a + b)[0] == a[0]);
    }
}

/// Disconnecting an observer that is already gone changes nothing.
pub proof fn lemma_unregister_idempotent(q: Queues, id: Seq<char>)
    ensures
        q.remove(id).remove(id) == q.remove(id),
        !q.remove(id).contains_key(id),
{
    assert(q.remove(id).remove(id) =~= q.remove(id));
}

/// The set of connected observers, each with a queue of events not yet sent.
pub struct Hub {
    observers: Table<Vec<Event>>,
}

impl Hub {
    pub closed spec fn wf(&self) -> bool {
        self.observers.wf()
    }

    pub closed spec fn view(&self) -> Queues {
        self.observers.view().map_values(|v: Vec<Event>| v@)
    }

    pub fn new() -> (r: Hub)
        ensures
            r.wf(),
            r@ == Queues::empty(),
    {
        let r = Hub { observers: Table::new() };
        assert(r@ =~= Queues::empty());
        r
    }

    /// Number of connected observers.
    pub fn len(&self) -> (r: usize)
        requires
            self.wf(),
        ensures
            r == self@.len(),
    {
        let r = self.observers.len();
        assert(self@.dom() =~= self.observers.view().dom());
        r
    }

    /// Adds an observer under `id` with an empty queue; an id in use is refused.
    pub fn register(&mut self, id: String) -> (r: bool)
        requires
            old(self).wf(),
        ensures
            final(self).wf(),
            r == !old(self)@.contains_key(id@),
            r ==> final(self)@ == old(self)@.insert(id@, Seq::empty()),
            !r ==> final(self)@ == old(self)@,
    {
        let ghost k = id@;
        let r = self.observers.insert(id, Vec::new());
        proof {
            if r {
                assert(self@ =~= old(self)@.insert(k, Seq::empty()));
            }
        }
        r
    }

    /// Connects a new observer under a fresh random id, which it returns.
    pub fn connect(&mut self) -> (r: Option<String>)
        requires
            old(self).wf(),
        ensures
            final(self).wf(),
            r matches Some(id) ==> !old(self)@.contains_key(id@) && final(self)@ == old(
                self,
            )@.insert(id@, Seq::empty()),
            r is None ==> final(self)@ == old(self)@,
            old(self)@ == Queues::empty() ==> r is Some,
    {
        let id = random_id();
        let keep = id.clone();
        if self.register(id) {
            Some(keep)
        } else {
            None
        }
    }

    /// Removes the observer `id`, dropping what it had not yet received. An id
    /// that is not connected is left alone.
    pub fn unregister(&mut self, id: &String) -> (r: bool)
        requires
            old(self).wf(),
        ensures
            final(self).wf(),
            r == old(self)@.contains_key(id@),
            final(self)@ == old(self)@.remove(id@),
    {
        let r = self.observers.remove(id);
        assert(self@ =~= old(self)@.remove(id@));
        r.is_some()
    }

    /// Hands `e` to every connected observer, once each.
    pub fn broadcast(&mut self, e: &Event)
        requires
            old(self).wf(),
        ensures
            final(self).wf(),
            final(self)@ == broadcast_all(old(self)@, *e),
            final(self)@ == broadcast_seq(old(self)@, seq![*e]),
    {
        self.observers.push_each(e);
        assert(self@ =~= broadcast_all(old(self)@, *e));
        proof {
            let one = seq![*e];
            assert(one.len() == 1 && one[0] == *e);
            assert(one.drop_first() =~= Seq::<Event>::empty());
            assert(broadcast_seq(old(self)@, one) == broadcast_seq(
                broadcast_all(old(self)@, *e),
                one.drop_first(),
            ));
        }
    }

    /// Hands `e` to the observer `id` alone, if it is connected.
    pub fn send_to(&mut self, id: &String, e: Event) -> (r: bool)
        requires
            old(self).wf(),
        ensures
            final(self).wf(),
            r == old(self)@.contains_key(id@),
            r ==> final(self)@ == old(self)@.insert(id@, old(self)@[id@].push(e)),
            !r ==> final(self)@ == old(self)@,
    {
        let ghost e0 = e;
        let r = self.observers.push_to(id, e);
        proof {
            if r {
                assert(self@ =~= old(self)@.insert(id@, old(self)@[id@].push(e0)));
            } else {
                assert(self@ =~= old(self)@);
            }
        }
        r
    }

    /// Takes the events waiting for observer `id`, oldest first, and empties its
    /// queue; `None` if it is not connected.
    pub fn drain(&mut self, id: &String) -> (r: Option<Vec<Event>>)
        requires
            old(self).wf(),
        ensures
            final(self).wf(),
            r is Some <==> old(self)@.contains_key(id@),
            r matches Some(v) ==> v@ == old(self)@[id@] && final(self)@ == old(self)@.insert(
                id@,
                Seq::empty(),
            ),
            r is None ==> final(self)@ == old(self)@,
    {
        let r = self.observers.replace(id, Vec::new());
        proof {
            if r is Some {
                assert(self@ =~= old(self)@.insert(id@, Seq::empty()));
            }
        }
        r
    }

    /// Answers a message of type `kind` from observer `id`: a `ping` gets a
    /// `pong` with the same correlation id, sent to that observer alone. Other
    /// types are ignored. Returns whether a reply was queued.
    pub fn receive(&mut self, id: &String, kind: &String, correlation: Option<String>) -> (r: bool)
        requires
            old(self).wf(),
        ensures
            final(self).wf(),
            r == (reply_to(kind@, correlation) is Some && old(self)@.contains_key(id@)),
            r ==> final(self)@ == old(self)@.insert(
                id@,
                old(self)@[id@].push(reply_to(kind@, correlation)->Some_0),
            ),
            !r ==> final(self)@ == old(self)@,
    {
        let ping = "ping".to_owned();
        if *kind == ping {
            self.send_to(id, Event::Pong { correlation })
        } else {
            false
        }
    }
}

} // verus!

use vstd::prelude::*;

use crate::keys::HasKey;
use crate::keys::Successor;
use crate::keys::nth_key;

verus! {

/// One signal pulled from the wrapped source: an item, a suspension, the end
/// of the sequence, or an error.
pub enum StreamEvent<V, E> {
    /// The source produced an item.
    Item(V),
    /// The source has no item yet and would suspend.
    Pending,
    /// The source's sequence has ended.
    Ended,
    /// The source failed.
    Failed(E),
}

/// The component's decision after seeing one source signal: what the driver of
/// the pull loop must do next.
pub enum PollStep<V, E> {
    /// Hand this item downstream: it carries the expected key.
    Emit(V),
    /// The item arrived out of turn and was buffered; pull the source again.
    Retry,
    /// Propagate the suspension downstream unchanged.
    Pending,
    /// Propagate end-of-sequence downstream unchanged.
    Ended,
    /// Propagate the source's error downstream unchanged.
    Failed(E),
}

/// How a scripted run ended.
pub enum DrainOutcome<E> {
    /// The source reported end-of-sequence and it was propagated.
    Ended,
    /// The source reported this error and it was propagated.
    Failed(E),
    /// The script ran out of signals while the component was still awaiting a
    /// missing key: the run stalled.
    Exhausted,
}

/// The items that a script of source signals carries, in arrival order.
pub open spec fn script_items<V, E>(events: Seq<StreamEvent<V, E>>) -> Seq<V>
    decreases events.len(),
{
    if events.len() == 0 {
        Seq::empty()
    } else {
        script_items(events.drop_last()) + (match events.last() {
            StreamEvent::Item(v) => seq![v],
            _ => Seq::empty(),
        })
    }
}

/// Consuming one more signal of a script extends its items by that signal's
/// item, if it carries one.
proof fn lemma_script_items_step<V, E>(events: Seq<StreamEvent<V, E>>, i: int)
    requires
        0 <= i < events.len(),
    ensures
        script_items(events.take(i + 1)) == script_items(events.take(i)) + (match events[i] {
            StreamEvent::Item(v) => seq![v],
            _ => Seq::<V>::empty(),
        }),
{
    assert(events.take(i + 1).drop_last() =~= events.take(i));
    assert(events.take(i + 1).last() == events[i]);
}

/// Appending one element distributes over sequence concatenation.
proof fn lemma_concat_push<V>(a: Seq<V>, b: Seq<V>, v: V)
    ensures
        a + (b + seq![v]) == (a + b).push(v),
        a + b.push(v) == (a + b).push(v),
{
    assert(a + (b + seq![v]) =~= (a + b).push(v));
    assert(a + b.push(v) =~= (a + b).push(v));
}

/// The reordering core: the key of the most recently emitted item and the
/// pending buffer of items that arrived before their predecessor key.
///
/// The source is expected never to repeat a key. A second item carrying an
/// already-emitted or already-buffered key is not rejected: it goes into the
/// pending buffer, where it never becomes due, so it is silently never
/// emitted.
///
/// The ghost fields record the construction-time zero key and the full
/// histories of items received from the source and emitted downstream, so that
/// the contracts can speak about whole runs.
pub struct OrderedNoGaps<K, V> {
    last_key_polled: K,
    buffer: Vec<V>,
    zero: Ghost<K>,
    emitted: Ghost<Seq<V>>,
    received: Ghost<Seq<V>>,
}

impl<K: Successor, V: HasKey<K>> OrderedNoGaps<K, V> {
    /// The key of the most recently emitted item, or the zero key before any
    /// emission.
    pub closed spec fn last_key(self) -> K {
        self.last_key_polled
    }

    /// The key supplied at construction, preceding the first expected key.
    pub closed spec fn zero_key(self) -> K {
        self.zero@
    }

    /// The items currently held in the pending buffer, in insertion order.
    pub closed spec fn pending(self) -> Seq<V> {
        self.buffer@
    }

    /// Every item emitted downstream so far, in emission order.
    pub closed spec fn emitted(self) -> Seq<V> {
        self.emitted@
    }

    /// Every item received from the source so far, in arrival order.
    pub closed spec fn received(self) -> Seq<V> {
        self.received@
    }

    /// The key the component will emit next: the successor of the last
    /// emitted key.
    pub open spec fn expected_key(self) -> K {
        self.last_key().next_spec()
    }

    /// Well-formedness: the last key is the `n`-th successor of the zero key
    /// after `n` emissions, the `i`-th emitted item carries the `i+1`-st
    /// successor of the zero key, and every received item is either emitted or
    /// pending (and nothing else ever is).
    pub open spec fn wf(self) -> bool {
        &&& self.last_key() == nth_key(self.zero_key(), self.emitted().len())
        &&& (forall|i: int|
            0 <= i < self.emitted().len() ==> #[trigger] self.emitted()[i].key_spec() == nth_key(
                self.zero_key(),
                (i + 1) as nat,
            ))
        &&& self.received().to_multiset() == self.emitted().to_multiset().add(
            self.pending().to_multiset(),
        )
    }

    /// Decides whether this item carries the key expected next.
    pub fn is_next(&self, v: &V) -> (r: bool)
        ensures
            r == (v.key_spec() == self.expected_key()),
    {
        let k = self.last_key_polled.next();
        k.key_eq(&v.key())
    }

    /// Reports whether the pending buffer holds an item carrying the key
    /// expected next.
    pub fn buffer_peek_is_next(&self) -> (r: bool)
        ensures
            r == (exists|i: int|
                0 <= i < self.pending().len() && (#[trigger] self.pending()[i].key_spec())
                    == self.expected_key()),
    {
        self.find_next().is_some()
    }

    /// The position of the first buffered item carrying the expected key.
    fn find_next(&self) -> (r: Option<usize>)
        ensures
            match r {
                Some(i) => {
                    &&& 0 <= i < self.pending().len()
                    &&& self.pending()[i as int].key_spec() == self.expected_key()
                    &&& (forall|j: int|
                        0 <= j < i ==> (#[trigger] self.pending()[j].key_spec())
                            != self.expected_key())
                },
                None => forall|j: int|
                    0 <= j < self.pending().len() ==> (#[trigger] self.pending()[j].key_spec())
                        != self.expected_key(),
            },
    {
        let mut i: usize = 0;
        while i < self.buffer.len()
            invariant
                0 <= i <= self.buffer@.len(),
                forall|j: int|
                    0 <= j < i ==> (#[trigger] self.buffer@[j].key_spec())
                        != self.last_key_polled.next_spec(),
            decreases self.buffer@.len() - i,
        {
            if self.is_next(&self.buffer[i]) {
                return Some(i);
            }
            i = i + 1;
        }
        None
    }

    /// Pops and emits the buffered item carrying the expected key, if one is
    /// pending, advancing the last emitted key to it; reports `None` (and
    /// leaves the state untouched) when no pending item is due, in which case
    /// the driver must pull the source instead.
    pub fn poll(&mut self) -> (r: Option<V>)
        requires
            old(self).wf(),
        ensures
            final(self).wf(),
            final(self).zero_key() == old(self).zero_key(),
            final(self).received() == old(self).received(),
            match r {
                Some(v) => {
                    &&& v.key_spec() == old(self).expected_key()
                    &&& final(self).last_key() == old(self).last_key().next_spec()
                    &&& final(self).emitted() == old(self).emitted().push(v)
                    &&& (exists|i: int|
                        {
                            &&& 0 <= i < old(self).pending().len()
                            &&& (#[trigger] old(self).pending()[i]) == v
                            &&& final(self).pending() == old(self).pending().remove(i)
                            &&& (forall|j: int|
                                0 <= j < i ==> old(self).pending()[j].key_spec() != old(
                                    self,
                                ).expected_key())
                        })
                },
                None => {
                    &&& *final(self) == *old(self)
                    &&& (forall|i: int|
                        0 <= i < old(self).pending().len() ==> (#[trigger] old(
                            self,
                        ).pending()[i].key_spec()) != old(self).expected_key())
                },
            },
    {
        match self.find_next() {
            Some(i) => {
                let v = self.buffer.remove(i);
                self.last_key_polled = self.last_key_polled.next();
                self.emitted = Ghost(self.emitted@.push(v));
                proof {
                    broadcast use vstd::seq_lib::group_to_multiset_ensures;
                    broadcast use vstd::multiset::group_multiset_axioms;

                    assert(old(self).pending().contains(old(self).pending()[i as int]));
                    assert(self.received().to_multiset() =~= self.emitted().to_multiset().add(
                        self.pending().to_multiset(),
                    ));
                }
                Some(v)
            },
            None => None,
        }
    }

    /// Feeds the component one signal pulled from the wrapped source and
    /// returns the decision: an item carrying the expected key is emitted at
    /// once; an out-of-turn item is buffered and the driver is told to pull
    /// the source again; suspension, end-of-sequence and errors are propagated
    /// unchanged without touching the state.
    pub fn poll_from_stream<E>(&mut self, event: StreamEvent<V, E>) -> (step: PollStep<V, E>)
        requires
            old(self).wf(),
        ensures
            final(self).wf(),
            final(self).zero_key() == old(self).zero_key(),
            match event {
                StreamEvent::Item(v) => {
                    &&& final(self).received() == old(self).received().push(v)
                    &&& (if v.key_spec() == old(self).expected_key() {
                        &&& step == PollStep::<V, E>::Emit(v)
                        &&& final(self).last_key() == old(self).last_key().next_spec()
                        &&& final(self).emitted() == old(self).emitted().push(v)
                        &&& final(self).pending() == old(self).pending()
                    } else {
                        &&& step == PollStep::<V, E>::Retry
                        &&& final(self).pending() == old(self).pending().push(v)
                        &&& final(self).emitted() == old(self).emitted()
                        &&& final(self).last_key() == old(self).last_key()
                    })
                },
                StreamEvent::Pending => step == PollStep::<V, E>::Pending && *final(self) == *old(
                    self,
                ),
                StreamEvent::Ended => step == PollStep::<V, E>::Ended && *final(self) == *old(self),
                StreamEvent::Failed(e) => step == PollStep::<V, E>::Failed(e) && *final(self)
                    == *old(self),
            },
    {
        match event {
            StreamEvent::Item(v) => {
                self.received = Ghost(self.received@.push(v));
                if self.is_next(&v) {
                    self.last_key_polled = self.last_key_polled.next();
                    self.emitted = Ghost(self.emitted@.push(v));
                    proof {
                        broadcast use vstd::seq_lib::group_to_multiset_ensures;
                        broadcast use vstd::multiset::group_multiset_axioms;

                        assert(self.received().to_multiset() =~= self.emitted().to_multiset().add(
                            self.pending().to_multiset(),
                        ));
                    }
                    PollStep::Emit(v)
                } else {
                    self.buffer.push(v);
                    proof {
                        broadcast use vstd::seq_lib::group_to_multiset_ensures;
                        broadcast use vstd::multiset::group_multiset_axioms;

                        assert(self.received().to_multiset() =~= self.emitted().to_multiset().add(
                            self.pending().to_multiset(),
                        ));
                    }
                    PollStep::Retry
                }
            },
            StreamEvent::Pending => PollStep::Pending,
            StreamEvent::Ended => PollStep::Ended,
            StreamEvent::Failed(e) => PollStep::Failed(e),
        }
    }

    /// Runs the whole pull protocol against a finite script of source
    /// signals, as a driver would: due buffered items are emitted first, then
    /// the source is pulled; an out-of-turn item is buffered and the pull
    /// retried. The run stops when a terminal signal (end or error) is
    /// propagated or the script is exhausted. A `Pending` signal stands for a
    /// suspension after which the scheduler polls again, so the run simply
    /// continues with the next scripted signal.
    ///
    /// The emitted items are returned in emission order: exactly what this
    /// run appended to the emission history.
    pub fn drain_script<E>(&mut self, events: Vec<StreamEvent<V, E>>) -> (r: (Vec<V>, DrainOutcome<
        E,
    >))
        requires
            old(self).wf(),
        ensures
            final(self).wf(),
            final(self).zero_key() == old(self).zero_key(),
            final(self).emitted() == old(self).emitted() + r.0@,
            (forall|j: int|
                0 <= j < final(self).pending().len()
                    ==> (#[trigger] final(self).pending()[j].key_spec())
                    != final(self).expected_key()),
            match r.1 {
                DrainOutcome::Ended => (exists|n: int|
                    0 <= n < events@.len() && (#[trigger] events@[n]) is Ended
                        && final(self).received() == old(self).received() + script_items(
                        events@.take(n + 1),
                    )),
                DrainOutcome::Failed(e) => (exists|n: int|
                    0 <= n < events@.len() && (#[trigger] events@[n]) == StreamEvent::<V, E>::Failed(
                        e,
                    ) && final(self).received() == old(self).received() + script_items(
                        events@.take(n + 1),
                    )),
                DrainOutcome::Exhausted => final(self).received() == old(self).received()
                    + script_items(events@),
            },
    {
        let ghost script = events@;
        let mut rest = events;
        let mut out: Vec<V> = Vec::new();
        let ghost mut i: int = 0;
        loop
            invariant
                script == events@,
                self.wf(),
                self.zero_key() == old(self).zero_key(),
                0 <= i <= script.len(),
                rest@ == script.skip(i),
                self.emitted() == old(self).emitted() + out@,
                self.received() == old(self).received() + script_items(script.take(i)),
            decreases rest@.len(), self.pending().len(),
        {
            if let Some(v) = self.poll() {
                proof {
                    lemma_concat_push(old(self).emitted(), out@, v);
                }
                out.push(v);
                continue;
            }
            if rest.len() == 0 {
                proof {
                    assert(events@.take(i) =~= events@);
                    assert(self.received() == old(self).received() + script_items(
                        events@.take(i),
                    ));
                }
                return (out, DrainOutcome::Exhausted);
            }
            let ev = rest.remove(0);
            proof {
                assert(ev == script[i]);
                lemma_script_items_step(script, i);
                if ev is Item {
                    lemma_concat_push(old(self).received(), script_items(script.take(i)), ev->Item_0);
                } else {
                    assert(script_items(script.take(i)) + Seq::<V>::empty() =~= script_items(
                        script.take(i),
                    ));
                }
                assert(rest@ =~= script.skip(i + 1));
                i = i + 1;
            }
            match self.poll_from_stream(ev) {
                PollStep::Emit(v) => {
                    proof {
                        lemma_concat_push(old(self).emitted(), out@, v);
                    }
                    out.push(v);
                },
                PollStep::Retry => {
                },
                PollStep::Pending => {
                },
                PollStep::Ended => {
                    proof {
                        assert(events@[i - 1] is Ended);
                        assert(self.received() == old(self).received() + script_items(
                            events@.take(i),
                        ));
                    }
                    return (out, DrainOutcome::Ended);
                },
                PollStep::Failed(e) => {
                    proof {
                        assert(events@[i - 1] == StreamEvent::<V, E>::Failed(e));
                        assert(self.received() == old(self).received() + script_items(
                            events@.take(i),
                        ));
                    }
                    return (out, DrainOutcome::Failed(e));
                },
            }
        }
    }

    /// The number of items currently held in the pending buffer.
    pub fn buffer_len(&self) -> (n: usize)
        ensures
            n == self.pending().len(),
    {
        self.buffer.len()
    }
}

/// Builds the reordering core. `zero` is the key immediately preceding the
/// first expected key, so `zero.next()` is the first key that will ever be
/// emitted.
///
/// The pending buffer is unbounded: it grows to hold every item whose key
/// arrives ahead of a still-missing predecessor, so available memory is the
/// only bound on how much can be buffered while a gap stays open.
pub fn ordered_no_gaps<K: Successor, V: HasKey<K>>(zero: K) -> (s: OrderedNoGaps<K, V>)
    ensures
        s.wf(),
        s.zero_key() == zero,
        s.last_key() == zero,
        s.pending() == Seq::<V>::empty(),
        s.emitted() == Seq::<V>::empty(),
        s.received() == Seq::<V>::empty(),
{
    let s = OrderedNoGaps {
        zero: Ghost(zero),
        last_key_polled: zero,
        buffer: Vec::new(),
        emitted: Ghost(Seq::empty()),
        received: Ghost(Seq::empty()),
    };
    proof {
        broadcast use vstd::seq_lib::group_to_multiset_ensures;
        broadcast use vstd::multiset::group_multiset_axioms;

        assert(s.received().to_multiset() =~= s.emitted().to_multiset().add(
            s.pending().to_multiset(),
        ));
    }
    s
}

} // verus!

use vstd::prelude::*;

use crate::keys::HasKey;
use crate::keys::Successor;
use crate::keys::lemma_nth_key_u64;
use crate::keys::nth_key;
use crate::ordered::OrderedNoGaps;

verus! {

/// Emission count law: at every reachable state, the number of items received
/// from the source equals the number emitted plus the number still pending —
/// nothing is ever dropped and nothing is ever duplicated. In particular,
/// once the pending buffer is empty, output length equals input length.
pub proof fn lemma_emission_count<K: Successor, V: HasKey<K>>(s: OrderedNoGaps<K, V>)
    requires
        s.wf(),
    ensures
        s.received().len() == s.emitted().len() + s.pending().len(),
{
    broadcast use vstd::seq_lib::group_to_multiset_ensures;
    broadcast use vstd::multiset::group_multiset_axioms;

    assert(s.received().to_multiset().len() == s.received().len());
    assert(s.emitted().to_multiset().len() == s.emitted().len());
    assert(s.pending().to_multiset().len() == s.pending().len());
}

/// Order law: once the source's items have all been consumed and the pending
/// buffer has drained, the emitted sequence is a permutation of the received
/// sequence whose `i`-th item carries exactly the `i+1`-st successor of the
/// zero key — every expected key appears exactly once, in successor order,
/// with no gaps.
pub proof fn lemma_ordered_output<K: Successor, V: HasKey<K>>(s: OrderedNoGaps<K, V>)
    requires
        s.wf(),
        s.pending().len() == 0,
    ensures
        s.emitted().len() == s.received().len(),
        s.emitted().to_multiset() == s.received().to_multiset(),
        forall|i: int|
            0 <= i < s.emitted().len() ==> #[trigger] s.emitted()[i].key_spec() == nth_key(
                s.zero_key(),
                (i + 1) as nat,
            ),
{
    broadcast use vstd::seq_lib::group_to_multiset_ensures;
    broadcast use vstd::multiset::group_multiset_axioms;

    assert(s.pending().to_multiset().len() == s.pending().len());
    assert(s.emitted().to_multiset().add(s.pending().to_multiset()) =~= s.emitted().to_multiset());
    lemma_emission_count(s);
}

/// No-skip law: while the item carrying the expected key has never been
/// received from the source, it is not in the pending buffer either, so the
/// component cannot emit anything — `poll` reports nothing pending, and only
/// the arrival of the missing key can produce an emission. Later-keyed items
/// already received stay buffered.
pub proof fn lemma_no_skip<K: Successor, V: HasKey<K>>(s: OrderedNoGaps<K, V>)
    requires
        s.wf(),
        forall|i: int|
            0 <= i < s.received().len() ==> (#[trigger] s.received()[i].key_spec())
                != s.expected_key(),
    ensures
        forall|i: int|
            0 <= i < s.pending().len() ==> (#[trigger] s.pending()[i].key_spec())
                != s.expected_key(),
{
    broadcast use vstd::seq_lib::group_to_multiset_ensures;
    broadcast use vstd::multiset::group_multiset_axioms;

    assert forall|i: int|
        0 <= i < s.pending().len() implies (#[trigger] s.pending()[i].key_spec())
        != s.expected_key() by {
        let v = s.pending()[i];
        assert(s.pending().contains(v));
        assert(s.pending().to_multiset().count(v) > 0);
        assert(s.received().to_multiset().count(v) > 0);
        assert(s.received().contains(v));
        let j = choose|j: int| 0 <= j < s.received().len() && s.received()[j] == v;
        assert(s.received()[j].key_spec() != s.expected_key());
    }
}

/// Buffer uniqueness law: as long as the source never repeats a key, no two
/// items in the pending buffer carry the same key.
pub proof fn lemma_pending_keys_unique<K: Successor, V: HasKey<K>>(s: OrderedNoGaps<K, V>)
    requires
        s.wf(),
        forall|i: int, j: int|
            0 <= i < j < s.received().len() ==> s.received()[i].key_spec()
                != s.received()[j].key_spec(),
    ensures
        forall|i: int, j: int|
            0 <= i < j < s.pending().len() ==> s.pending()[i].key_spec()
                != s.pending()[j].key_spec(),
{
    broadcast use vstd::seq_lib::group_to_multiset_ensures;
    broadcast use vstd::multiset::group_multiset_axioms;

    assert forall|i: int, j: int| 0 <= i < j < s.received().len() implies s.received()[i]
        != s.received()[j] by {
        assert(s.received()[i].key_spec() != s.received()[j].key_spec());
    }
    assert(s.received().no_duplicates());
    s.received().lemma_multiset_has_no_duplicates();
    assert forall|i: int, j: int| 0 <= i < j < s.pending().len() implies s.pending()[i].key_spec()
        != s.pending()[j].key_spec() by {
        let x = s.pending()[i];
        let y = s.pending()[j];
        if x.key_spec() == y.key_spec() {
            if x == y {
                assert(s.pending().remove(j)[i] == x);
                assert(s.pending().remove(j).contains(x));
                assert(s.pending().remove(j).to_multiset().count(x) > 0);
                assert(s.pending().to_multiset().count(x) >= 2);
                assert(s.received().to_multiset().count(x) >= 2);
                assert(s.received().contains(x));
                assert(false);
            } else {
                assert(s.pending().contains(x));
                assert(s.pending().contains(y));
                assert(s.received().to_multiset().count(x) > 0);
                assert(s.received().to_multiset().count(y) > 0);
                assert(s.received().contains(x));
                assert(s.received().contains(y));
                let ix = choose|ix: int| 0 <= ix < s.received().len() && s.received()[ix] == x;
                let iy = choose|iy: int| 0 <= iy < s.received().len() && s.received()[iy] == y;
                assert(ix != iy);
                assert(s.received()[ix].key_spec() != s.received()[iy].key_spec());
                assert(false);
            }
        }
    }
}

/// Whether some item received from the source so far carries key `k`.
pub open spec fn has_received_key<K: Successor, V: HasKey<K>>(
    s: OrderedNoGaps<K, V>,
    k: K,
) -> bool {
    exists|i: int| 0 <= i < s.received().len() && (#[trigger] s.received()[i].key_spec()) == k
}

/// Completeness over `u64` keys: when every key above the zero key, up to and
/// including the `received.len()`-th successor, has been received, and no
/// pending item carries the expected key (as `poll` reports when it finds
/// nothing due), the pending buffer is empty — a complete permutation fully
/// drains, and the emission count equals the input count.
pub proof fn lemma_complete_run_drains<V: HasKey<u64>>(s: OrderedNoGaps<u64, V>)
    requires
        s.wf(),
        s.zero_key() + s.received().len() <= u64::MAX,
        forall|k: u64|
            s.zero_key() < k <= s.zero_key() + s.received().len() ==> #[trigger] has_received_key(
                s,
                k,
            ),
        forall|j: int|
            0 <= j < s.pending().len() ==> (#[trigger] s.pending()[j].key_spec())
                != s.expected_key(),
    ensures
        s.pending().len() == 0,
        s.emitted().len() == s.received().len(),
{
    broadcast use vstd::seq_lib::group_to_multiset_ensures;
    broadcast use vstd::multiset::group_multiset_axioms;

    lemma_emission_count(s);
    if s.pending().len() > 0 {
        let n = s.emitted().len() as int;
        lemma_nth_key_u64(s.zero_key(), n as nat);
        assert(s.expected_key() == s.zero_key() + n + 1);
        let k = (s.zero_key() + n + 1) as u64;
        assert(has_received_key(s, k));
        let i = choose|i: int|
            0 <= i < s.received().len() && (#[trigger] s.received()[i].key_spec()) == s.zero_key()
                + n + 1;
        let x = s.received()[i];
        assert(s.received().contains(x));
        assert(s.received().to_multiset().count(x) > 0);
        if s.emitted().to_multiset().count(x) > 0 {
            assert(s.emitted().contains(x));
            let j = choose|j: int| 0 <= j < s.emitted().len() && s.emitted()[j] == x;
            assert(s.emitted()[j].key_spec() == nth_key(s.zero_key(), (j + 1) as nat));
            lemma_nth_key_u64(s.zero_key(), (j + 1) as nat);
            assert(false);
        }
        assert(s.pending().to_multiset().count(x) > 0);
        assert(s.pending().contains(x));
        let j = choose|j: int| 0 <= j < s.pending().len() && s.pending()[j] == x;
        assert(s.pending()[j].key_spec() != s.expected_key());
        assert(false);
    }
}

/// Strict order over `u64` keys: as long as the run stays below `u64::MAX`,
/// the `i`-th emitted item carries key `zero + i + 1`, so emitted keys
/// strictly increase — the output is sorted with no duplicates.
pub proof fn lemma_emitted_keys_strictly_increase<V: HasKey<u64>>(s: OrderedNoGaps<u64, V>)
    requires
        s.wf(),
        s.zero_key() + s.emitted().len() <= u64::MAX,
    ensures
        forall|i: int|
            0 <= i < s.emitted().len() ==> (#[trigger] s.emitted()[i].key_spec()) == s.zero_key()
                + i + 1,
        forall|i: int, j: int|
            0 <= i < j < s.emitted().len() ==> s.emitted()[i].key_spec()
                < s.emitted()[j].key_spec(),
{
    assert forall|i: int|
        0 <= i < s.emitted().len() implies (#[trigger] s.emitted()[i].key_spec()) == s.zero_key()
        + i + 1 by {
        lemma_nth_key_u64(s.zero_key(), (i + 1) as nat);
    }
}

} // verus!

use ordered_no_gaps::DrainOutcome;
use ordered_no_gaps::Keyed;
use ordered_no_gaps::OrderedNoGaps;
use ordered_no_gaps::PollStep;
use ordered_no_gaps::StreamEvent;
use ordered_no_gaps::Successor;
use ordered_no_gaps::ordered_no_gaps;
use rand::seq::SliceRandom;

/// Runs a fresh component over a scripted list of source signals, collecting
/// every emitted item and how the run ended.
fn drain(events: Vec<StreamEvent<u64, i32>>, zero: u64) -> (Vec<u64>, DrainOutcome<i32>) {
    let mut core: OrderedNoGaps<u64, u64> = ordered_no_gaps(zero);
    core.drain_script(events)
}

fn is_ordered(i: Vec<u8>) -> bool {
    i.into_iter().fold((true, 0), |(b, z), x| (b && x >= z, x)).0
}

#[test]
fn orders_without_gaps() {
    let mut ns: Vec<u8> = (1..100).collect();
    ns.shuffle(&mut rand::thread_rng());
    assert!(!is_ordered(ns.clone()));
    let mut core: OrderedNoGaps<u8, u8> = ordered_no_gaps(0);
    let mut events: Vec<StreamEvent<u8, ()>> = ns.into_iter().map(StreamEvent::Item).collect();
    events.push(StreamEvent::Ended);
    let (ordered, outcome) = core.drain_script(events);
    assert!(is_ordered(ordered.clone()));
    assert!(ordered.len() == 99);
    assert!(matches!(outcome, DrainOutcome::Ended));
}

#[test]
fn emits_shuffled_keys_in_exact_order() {
    // A fixed permutation of 1..=99: stride 7 is coprime with 99.
    let mut events: Vec<StreamEvent<u64, i32>> = Vec::new();
    for i in 0..99u64 {
        events.push(StreamEvent::Item((i * 7) % 99 + 1));
    }
    events.push(StreamEvent::Ended);
    let (out, outcome) = drain(events, 0);
    let expected: Vec<u64> = (1..=99).collect();
    assert_eq!(out, expected);
    assert!(matches!(outcome, DrainOutcome::Ended));
}

#[test]
fn stalls_on_gap() {
    let events = vec![StreamEvent::Item(1), StreamEvent::Item(3)];
    let (out, outcome) = drain(events, 0);
    assert_eq!(out, vec![1]);
    assert!(matches!(outcome, DrainOutcome::Exhausted));
}

#[test]
fn complete_permutation_leaves_nothing_pending() {
    let mut core: OrderedNoGaps<u64, u64> = ordered_no_gaps(0);
    let events: Vec<StreamEvent<u64, i32>> = vec![
        StreamEvent::Item(3),
        StreamEvent::Item(1),
        StreamEvent::Item(2),
    ];
    let (out, outcome) = core.drain_script(events);
    assert_eq!(out, vec![1, 2, 3]);
    assert!(matches!(outcome, DrainOutcome::Exhausted));
    assert_eq!(core.buffer_len(), 0);
}

#[test]
fn gap_keeps_later_item_buffered() {
    let mut core: OrderedNoGaps<u64, u64> = ordered_no_gaps(0);
    assert!(matches!(
        core.poll_from_stream::<i32>(StreamEvent::Item(1)),
        PollStep::Emit(1)
    ));
    assert!(matches!(
        core.poll_from_stream::<i32>(StreamEvent::Item(3)),
        PollStep::Retry
    ));
    // Key 2 is missing: nothing may be emitted, even though 3 is available.
    assert!(core.poll().is_none());
    assert!(!core.buffer_peek_is_next());
    assert_eq!(core.buffer_len(), 1);
}

#[test]
fn single_item_then_end() {
    let events = vec![StreamEvent::Item(1), StreamEvent::Ended];
    let (out, outcome) = drain(events, 0);
    assert_eq!(out, vec![1]);
    assert!(matches!(outcome, DrainOutcome::Ended));
}

#[test]
fn propagates_error_unchanged() {
    let events = vec![StreamEvent::Item(2), StreamEvent::Failed(42)];
    let (out, outcome) = drain(events, 0);
    assert!(out.is_empty());
    assert!(matches!(outcome, DrainOutcome::Failed(42)));
}

#[test]
fn end_discards_pending_items() {
    // Key 2 sits in the buffer when the source ends: it is never emitted.
    let events = vec![StreamEvent::Item(2), StreamEvent::Ended];
    let (out, outcome) = drain(events, 0);
    assert!(out.is_empty());
    assert!(matches!(outcome, DrainOutcome::Ended));
}

#[test]
fn propagates_suspension_without_touching_state() {
    let mut core: OrderedNoGaps<u64, u64> = ordered_no_gaps(0);
    assert!(matches!(
        core.poll_from_stream::<i32>(StreamEvent::Item(2)),
        PollStep::Retry
    ));
    assert!(matches!(
        core.poll_from_stream::<i32>(StreamEvent::Pending),
        PollStep::Pending
    ));
    assert_eq!(core.buffer_len(), 1);
}

#[test]
fn duplicate_key_vanishes_into_buffer() {
    let mut core: OrderedNoGaps<u64, u64> = ordered_no_gaps(0);
    assert!(matches!(
        core.poll_from_stream::<i32>(StreamEvent::Item(1)),
        PollStep::Emit(1)
    ));
    // A second copy of an already-emitted key is buffered, never emitted.
    assert!(matches!(
        core.poll_from_stream::<i32>(StreamEvent::Item(1)),
        PollStep::Retry
    ));
    assert!(matches!(
        core.poll_from_stream::<i32>(StreamEvent::Item(2)),
        PollStep::Emit(2)
    ));
    assert!(core.poll().is_none());
    assert_eq!(core.buffer_len(), 1);
}

#[test]
fn is_next_checks_the_expected_key() {
    let core: OrderedNoGaps<u64, u64> = ordered_no_gaps(10);
    assert!(core.is_next(&11));
    assert!(!core.is_next(&10));
    assert!(!core.is_next(&12));
}

#[test]
fn buffer_peek_reports_a_due_item() {
    let mut core: OrderedNoGaps<u64, u64> = ordered_no_gaps(0);
    assert!(!core.buffer_peek_is_next());
    assert!(matches!(
        core.poll_from_stream::<i32>(StreamEvent::Item(2)),
        PollStep::Retry
    ));
    assert!(!core.buffer_peek_is_next());
    assert!(matches!(
        core.poll_from_stream::<i32>(StreamEvent::Item(1)),
        PollStep::Emit(1)
    ));
    assert!(core.buffer_peek_is_next());
    assert_eq!(core.poll(), Some(2));
}

#[test]
fn successor_of_u64_increments_and_wraps() {
    assert_eq!(5u64.next(), 6);
    assert_eq!(u64::MAX.next(), 0);
}

#[test]
fn successor_of_u8_increments_and_wraps() {
    assert_eq!(7u8.next(), 8);
    assert_eq!(u8::MAX.next(), 0);
}

#[test]
fn keyed_payloads_travel_with_their_keys() {
    let mut core: OrderedNoGaps<u64, Keyed<u64, &str>> = ordered_no_gaps(0);
    let b = Keyed { key: 2, val: "b" };
    let a = Keyed { key: 1, val: "a" };
    assert!(matches!(
        core.poll_from_stream::<i32>(StreamEvent::Item(b)),
        PollStep::Retry
    ));
    match core.poll_from_stream::<i32>(StreamEvent::Item(a)) {
        PollStep::Emit(item) => {
            assert_eq!(item.key, 1);
            assert_eq!(item.val, "a");
        }
        _ => panic!("the item carrying the expected key must be emitted"),
    }
    match core.poll() {
        Some(item) => {
            assert_eq!(item.key, 2);
            assert_eq!(item.val, "b");
        }
        None => panic!("the buffered item became due and must be emitted"),
    }
}

//! A stream-reordering combinator core: items pulled from a lazy source are
//! re-emitted in strictly increasing key order, with the guarantee that no key
//! is ever skipped. Items that arrive before their predecessor key are held in
//! a pending buffer; the component stalls rather than emit out of order.
//!
//! The pull loop that drives an actual asynchronous source lives outside this
//! library; the library provides the verified decision core: given the current
//! state and one signal from the source, it decides what to emit, buffer, or
//! propagate.

mod keys;
mod laws;
mod ordered;

pub use keys::HasKey;
pub use keys::Keyed;
pub use keys::Successor;
pub use keys::lemma_nth_key_u64;
pub use keys::nth_key;
pub use laws::has_received_key;
pub use laws::lemma_complete_run_drains;
pub use laws::lemma_emission_count;
pub use laws::lemma_emitted_keys_strictly_increase;
pub use laws::lemma_no_skip;
pub use laws::lemma_ordered_output;
pub use laws::lemma_pending_keys_unique;
pub use ordered::DrainOutcome;
pub use ordered::OrderedNoGaps;
pub use ordered::ordered_no_gaps;
pub use ordered::PollStep;
pub use ordered::script_items;
pub use ordered::StreamEvent;

//! A fixed-capacity, array-backed sequence container with a growable-vector
//! interface. The capacity is chosen when a container is made and never
//! changes; every slot of the backing storage always holds a well-defined
//! value, and the live elements are the prefix `[0, len)`.

mod arrayvec;
mod drain;
mod error;
mod iter;
mod laws;

pub use arrayvec::ArrayVec;
pub use drain::ArrayVecDrain;
pub use error::ArrayVecError;
pub use iter::ArrayVecIterator;
pub use laws::lemma_full_buffer_round_trip;
pub use laws::lemma_masked_empty;
pub use laws::lemma_masked_extend;
pub use laws::lemma_masked_ignores_later_decisions;
pub use laws::lemma_insert_shifts;
pub use laws::lemma_push_pop_matches_unbounded;
pub use laws::lemma_remove_shifts;
pub use laws::lemma_truncate_idempotent;
pub use laws::masked;
pub use laws::container_run;
pub use laws::container_step;
pub use laws::truncated;
pub use laws::unbounded_run;
pub use laws::unbounded_step;
pub use laws::within_capacity;
pub use laws::PushPopOp;

//! A fixed-capacity circular buffer for resource-constrained environments:
//! no allocation, no operating-system dependency. The buffer stages words
//! between a producer and a slower consumer over caller-supplied storage,
//! and the capability traits describe the stream endpoints it composes with.

mod errors;
mod io;
mod ring;

pub use errors::spec_code;
pub use errors::RingBufferError;
pub use io::Read;
pub use io::ReadExact;
pub use io::Write;
pub use io::WriteAll;
pub use ring::cursor_add;
pub use ring::cursor_dist;
pub use ring::cursor_modulus;
pub use ring::lemma_fifo_order;
pub use ring::lemma_full_empty_disjoint;
pub use ring::lemma_full_lap_same_slot;
pub use ring::lemma_occupancy_bounded;
pub use ring::lemma_reset_state_is_empty;
pub use ring::slot_of;
pub use ring::RingBuffer;

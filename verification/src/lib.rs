//! Runtime core of a dynamically-typed, expression-oriented language: a
//! compact tagged value representation together with a frame-structured
//! execution stack.
//!
//! The crate has three layers, leaves first:
//! - [`value`]: the logical value space the language manipulates, and the
//!   slot classification the stack works with;
//! - [`tag`]: the physical one-word encoding of a slot, storing small scalars
//!   inline in unused quiet-NaN bit patterns and falling back to heap
//!   indirection for everything else;
//! - [`stack`]: a single contiguous stack of tagged cells interleaving call
//!   frames, locals and temporaries, with promotion of locals to shared
//!   storage for closure capture.

pub mod value;

pub mod tag;

pub mod stack;

//! Bactrian: a copying nursery over an Immix mature space that is marked in a snapshot.
//!
//! The nursery is emptied in every pause. Its survivors are promoted into the mature space, or
//! are kept young for one more collection. The mature space is marked in cycles: the first pause
//! of a cycle takes a snapshot, and a write barrier keeps it; marking goes on in slices within
//! later pauses, or beside the mutators; the last pause completes it, and the sweep is done in
//! slices again. The mature space is only compacted in a pause of its own.

pub mod barrier;
pub mod barrier_laws;
pub mod gc_work;
pub mod global;
pub mod laws;
pub mod mutator;
pub mod pause_laws;
pub mod settings;
pub mod trace;
pub mod trace_laws;
pub mod young;


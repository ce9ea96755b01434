pub mod block;
pub mod block_allocation;
pub mod chunk_work;
pub mod copy_context;
pub mod defrag;
pub mod gc_laws;
pub mod immixspace;
pub mod line;
pub mod rc_laws;
pub mod rc_work;
pub mod space_alloc;
pub mod space_gc;
pub mod space_laws;

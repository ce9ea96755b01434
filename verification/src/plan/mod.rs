pub mod concurrent;
pub mod constraints;
pub mod lxr;
pub mod vector_queue;

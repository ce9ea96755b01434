pub mod address;
pub mod atomic_code;
pub mod clock;
pub mod constants;
pub mod deque;
pub mod heap;
pub mod linear_scan;
pub mod log_bit;
pub mod metadata;
pub mod object_forwarding;
pub mod occurrences;
pub mod queue;
pub mod rc;
pub mod side_metadata;
pub mod vm;

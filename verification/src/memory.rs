//! Physical and virtual memory: what exists, who owns it, and how it is
//! addressed.
pub mod layout;
pub mod map;
pub mod frame;
pub mod heap;
pub mod paging;

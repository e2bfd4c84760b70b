//! Page management for a memory-mapped database file.
pub mod bytes;
pub mod history;
pub mod laws;
pub mod layout;
pub mod mapping;
pub mod memory;
pub mod metapage;
pub mod opening;
pub mod page_allocator;
pub mod pages;
pub mod state;

//! Concrete identifier domains, one per fixed width.

pub mod by_size;

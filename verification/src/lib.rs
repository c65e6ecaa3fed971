use vstd::prelude::*;

pub mod aggregate;
pub mod buffer;
pub mod disk;
pub mod display;
pub mod errors;
pub mod execute;
pub mod expression;
pub mod field;
pub mod heap;
pub mod join;
pub mod page;
pub mod plan;
pub mod record_id;
pub mod replacer;
pub mod row;
pub mod schema;
pub mod simple;
pub mod tables;
pub mod transform;
pub mod tuple;

verus! {

/// Size in bytes of one on-disk page.
pub const RUSTY_DB_PAGE_SIZE_BYTES: usize = 4096;

/// Sentinel page id meaning "no page".
pub const INVALID_PID: u32 = 0xffff_ffff;

/// Largest possible backward distance, standing for infinity.
pub const INF: usize = usize::MAX;

} // verus!

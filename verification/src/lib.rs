pub mod admin;
pub mod admin_laws;
pub mod batch;
pub mod batch_laws;
pub mod checksum;
pub mod codec;
pub mod collections;
pub mod connector;
pub mod conversion;
pub mod ints;
pub mod record;
pub mod test_option;
pub mod varint;

use vstd::prelude::*;

verus! {

/// Position of a record in a partition.
pub type Offset = i64;

/// Size in bytes or in records.
pub type Size = u32;

} // verus!

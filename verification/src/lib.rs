//! External sorting for sequences of any size, assuming they fit on the
//! spill store: the input is partitioned into sorted runs, the runs are
//! spilled to a bounded number of stores, and a loser-tree merger hands
//! the result back as a lazy ordered sequence with an accurate
//! remaining-length count.

pub mod extension_trait;
pub mod merge;
pub mod orderer;
pub mod run;
pub mod sorter;
pub mod tape;

pub use extension_trait::{
    ExtSortByExtension, ExtSortOrdExtension, ParallelExtSortExtension, ParallelExtSortOrdExtension,
};
pub use sorter::ExtsortConfig;

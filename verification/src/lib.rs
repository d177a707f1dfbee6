//! Identifier allocation and object registry: issues unique, densely packed
//! identifiers, associates them with live objects, and reclaims wasted
//! identifier space through compaction, propagating the renumbering to every
//! structure that holds identifiers by value.

pub mod base;
pub mod errors;
pub mod implementations;
pub mod intmaps;
pub mod utils;

pub use base::inners::lemma_id_inner_max;
pub use base::inners::IdImpl;
pub use base::inners::IdInner;
pub use base::outers::IdentifiedBy;
pub use base::outers::Identifier;
pub use errors::IdError;
pub use implementations::by_size::Id128;
pub use implementations::by_size::Id16;
pub use implementations::by_size::Id32;
pub use implementations::by_size::Id64;
pub use implementations::by_size::Id8;
pub use implementations::by_size::lemma_id128_max;
pub use implementations::by_size::lemma_id16_max;
pub use implementations::by_size::lemma_id32_max;
pub use implementations::by_size::lemma_id64_max;
pub use implementations::by_size::lemma_id8_max;
pub use intmaps::compaction_ordered;
pub use intmaps::dense::DenseIntMap;
pub use intmaps::sparse::SparseIntMap;
pub use intmaps::valid_compaction;
pub use intmaps::IntMap;
pub use utils::handles::Handle;
pub use utils::linkers::IdLinker;
pub use utils::linkers::LeftLinkerUpdater;
pub use utils::linkers::RightLinkerUpdater;
pub use utils::mappings::IdMapping;
pub use utils::trackers::dense::DenseIdTracker;
pub use utils::trackers::inner::IdTrackerInner;
pub use utils::trackers::renumbering_ordered;
pub use utils::trackers::valid_renumbering;
pub use utils::trackers::IdCounter;
pub use utils::trackers::IdTracker;
pub use utils::UpdatableIdStore;

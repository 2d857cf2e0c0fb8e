//! A small task tracker: an ordered, name-keyed collection of to-do
//! records with a verified text serialization for whole-store
//! persistence.

use vstd::prelude::*;

pub mod clock;
pub mod codec;
pub mod store;

pub use clock::new_task_now;
pub use clock::now;
pub use codec::lemma_round_trip;
pub use codec::parse_document;
pub use codec::serialize_tasks;
pub use store::Priority;
pub use store::StoreError;
pub use store::Task;
pub use store::TaskStore;
pub use store::TaskView;
pub use store::Timestamp;

verus! {

} // verus!

//! Convergent replicated data types (CRDTs) and a replicated todo list
//! built from them.

pub mod clock;
pub mod config;
pub mod counter;
pub mod g_set;
pub mod pn_counter;
pub mod protocol;
pub mod replica_map;
mod seq_facts;
pub mod session;
pub mod state;
pub mod str_map;
pub mod sync;
pub mod system;
pub mod text;
pub mod traits;
pub mod vector_clock;

pub use clock::ReplicaId;
pub use counter::GCounter;
pub use g_set::GSet;
pub use pn_counter::PNCounter;
pub use traits::CvRDT;
pub use vector_clock::VectorClock;

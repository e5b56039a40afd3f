//! KV-cache aware routing.
pub mod approx;
pub mod forget_laws;
pub mod hashing;
pub mod hashing_laws;
pub mod history;
pub mod history_laws;
pub mod index_laws;
pub mod indexer;
pub mod overlap;
pub mod protocols;
pub mod publisher;
pub mod publisher_laws;
pub mod push_router;
pub mod radix_dump;
pub mod radix_laws;
pub mod radix_rebuild;
pub mod radix_state;
pub mod radix_tree;
pub mod routing_laws;
pub mod scheduler;
pub mod scheduler_laws;
pub mod sharded;
pub mod store_laws;
pub mod subscriber;
pub mod timer_laws;
pub mod tree_laws;
pub mod worker_map;

//! An engine that only pretends to run a model.
pub mod engine;
pub mod engine_laws;
pub mod queues;
pub mod scheduler;
pub mod scheduling_laws;

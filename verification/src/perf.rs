//! Looking at what a model did.
pub mod logprob_laws;
pub mod logprobs;
pub mod ordering;
pub mod sensitivity;
pub mod sensitivity_laws;

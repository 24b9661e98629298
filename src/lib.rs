//! Orchestrates the rollout of interdependent modules: dependency resolution,
//! the decisions of the check / deploy / health-wait phases, and a cooperative
//! cancellation pair for background work.
pub mod engine;
pub mod module;
pub mod request;
pub mod resolver;
pub mod thread_control;

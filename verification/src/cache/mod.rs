//! The cache: pinning, lifecycle policies and eviction.

pub mod lifecycle;
pub mod manager;
pub mod pin;

pub use lifecycle::LifecycleEvaluator;
pub use pin::PinMatcher;

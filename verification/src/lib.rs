//! A verified in-memory badge ledger.
//!
//! Badges are immutable records identified by a globally unique name. An
//! account may create badges and award the badges it created to other
//! accounts. The registry keeps a catalog of badges together with two
//! indexes: the badges each account created and the badges each account
//! collected, both in insertion order.

pub mod laws;
pub mod model;
pub mod registry;

pub use model::BadgeView;
pub use model::RegistryView;
pub use registry::Badge;
pub use registry::BadgeCollection;

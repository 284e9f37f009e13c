//! Live streaming of raw kit measurements to subscribers.
//!
//! The core is [`engine::PubSubEngine`]: per kit, a registry of subscribed
//! sinks ([`registry::Subscribers`]) and the latest measurement of each
//! channel ([`buffer::LatestValues`]). Publishing stores the measurement and
//! returns one notification for each subscription of the kit; subscribing
//! registers the sink and returns a replay of the kit's latest values.
use vstd::prelude::*;

pub mod authorization;
pub mod buffer;
pub mod engine;
pub mod lemmas;
pub mod measurement;
pub mod models;
pub mod registry;
pub mod views;

pub use authorization::KitAction;
pub use engine::{Notification, PubSubEngine};
pub use measurement::RawMeasurement;
pub use registry::{SubscriptionId, Subscribers};
pub use views::{FullUser, PeripheralDefinitionExpectedQuantityType, QuantityType};

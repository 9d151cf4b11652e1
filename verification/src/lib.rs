//! A small IRC-style chat relay core: a verified wire codec, participant and
//! channel registries kept in concurrent maps, and a command dispatcher that
//! turns one inbound line into registry updates and a list of deliveries.
pub mod codec;
pub mod registry;
pub mod router;
pub mod dispatch;

//! Client-side core of a Nostr engine: relay connections, subscriptions with
//! widening time windows, a durable outbox, event signing and the control loop
//! that ties them together.

pub mod text;
pub mod error;
pub mod json;
pub mod relay;
pub mod types;
pub mod subscription;
pub mod outbox;
pub mod signer;
pub mod engine;
pub mod storage;
pub mod i18n;
pub mod ui;

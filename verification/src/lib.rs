//! Variable resolution and change-driven reconciliation for a
//! template-rendering configuration generator: host variables resolve to
//! IP-address sets (optionally reverse-enriched), contexts are compared
//! order-independently between polls, and a render/poll state machine
//! decides when to re-render and when to run the post-update command.

pub mod config;
pub mod context;
pub mod reconcile;
pub mod resolve;
pub mod text;
pub mod value;
pub mod vars;

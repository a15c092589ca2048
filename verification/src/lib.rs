//! Collector for the Factory Droid workspace (`~/.factory`): live sessions, the catalog of custom
//! models, missions, and validation of the configuration.
//!
//! - `sessions-index.json` lists the sessions. One is live while its last update is recent, or
//!   while that of one of its workers is.
//! - `sessions/**/<id>.settings.json` records the token usage of a session and of its workers.
//! - `settings.json` and `factory-settings.json` list the custom models.
//! - `missions/<id>/` holds a mission's state and model settings.
//!
//! Files are read by the caller; the library works on their texts.

pub mod catalog;
pub mod clock;
pub mod collector;
pub mod ids;
pub mod index;
pub mod json;
pub mod markdown;
pub mod missions;
pub mod order;
pub mod report;
pub mod scan;
pub mod session;
pub mod text;
pub mod tokens;
pub mod validate;

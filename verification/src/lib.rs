//! Client-management engine of a stock-notification bot.
//!
//! The crate keeps an in-process view of "who is this user, what access level
//! do they have, what are they subscribed to" coherent with a slower durable
//! store. It provides the subscription set-algebra type, the per-user metadata
//! record, a sharded in-memory cache with a side list of keys, the handler
//! facade used by bot code, and the maintenance logic that reconciles the
//! cache with the store. Market reference data (Ibex35 companies) and the
//! short-position response check live alongside it.

pub mod access;
pub mod cache;
pub mod cache_handler;
pub mod client_handler;
pub mod clock;
pub mod cnmv;
pub mod commands;
pub mod errors;
pub mod ibex35;
pub mod ibex_company;
pub mod meta;
pub mod settings;
pub mod store;
pub mod subscriptions;
pub mod text;

pub use access::BotAccess;
pub use cache::Cache;
pub use cache_handler::{CacheCommand, CacheHandler};
pub use client_handler::ClientHandler;
pub use cnmv::{CNMVError, CNMVProvider, ShortResponse};
pub use commands::{CommandEng, CommandSpa};
pub use errors::{error_message, BotError, ClientError, DbError, UserError};
pub use ibex35::Ibex35Market;
pub use ibex_company::IbexCompany;
pub use meta::{ClientMeta, UserConfig, UserMeta};
pub use settings::{ClientlibSettings, ValkeySettings};
pub use store::{StoreCmd, StoreRow};
pub use subscriptions::Subscriptions;

//! Error taxonomy of the engine.

use vstd::prelude::*;

use crate::text::str_eq;

verus! {

/// Errors raised by the client cache-and-consistency engine.
#[derive(Debug)]
pub enum ClientError {
    /// A subscription token exceeded the ticker length limit.
    WrongSubscriptionString(String),
    /// A failure of the durable store, wrapped with its context.
    UnknownDbError(String),
    /// The queried user has no cache entry.
    ClientNotRegistered,
    /// The key list and the cache map diverged: a listed key has no record.
    CacheIncongruence,
}

/// Errors raised by database backends.
#[derive(Debug)]
pub enum DbError {
    MissingStockInfo(String),
    Unknown(String),
    UnknownQdb(String),
    UnknownValkey(String),
}

/// Errors raised by user-facing metadata operations.
#[derive(Debug)]
pub enum UserError {
    WrongSubscriptionString(String),
    ClientNotRegistered,
    ClientLimitReached,
    SerialisationError(String),
}

/// Errors of the web-facing side of the bot.
#[derive(Debug)]
pub enum BotError {
    WrongCredentials,
    MissingCredentials,
    InvalidToken,
    WrongMessageFormat,
    InternalServerError,
}

/// The generic failure notice shown to a user, in their language.
pub fn error_message(lang_code: &str) -> (r: &'static str)
    ensures
        lang_code@ == "es"@ ==> r@
            == "🚒 Ha ocurrido un error, por favor, inténtalo más tarde"@,
        lang_code@ != "es"@ ==> r@ == "🚒 An error was found, please try again later"@,
{
    if str_eq(lang_code, "es") {
        "🚒 Ha ocurrido un error, por favor, inténtalo más tarde"
    } else {
        "🚒 An error was found, please try again later"
    }
}

} // verus!

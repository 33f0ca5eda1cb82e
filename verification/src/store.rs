//! The text encoding that carries client records to and from the durable
//! store, and the write commands the engine hands to the store driver.
//!
//! The engine never talks to a database itself: it produces [`StoreRow`]
//! values to be written and consumes rows read back. A row carries the access
//! tier in its stable lowercase text form and the subscriptions in the
//! canonical semicolon-joined form; the store's access-time column carries
//! the cache's reconciliation stamp.

use vstd::prelude::*;

use crate::access::{access_from_text, access_text, lemma_access_text_round_trip, BotAccess};
use crate::errors::ClientError;
use crate::meta::{same_entity, ClientMeta};
use crate::subscriptions::{
    join_semi, lemma_split_join, split_semi, valid_token, Subscriptions,
};

verus! {

/// One row of the client table, keyed by the numeric user id.
#[derive(Debug)]
pub struct StoreRow {
    pub id: u64,
    pub registered: bool,
    /// The access tier in its stable lowercase form.
    pub access: String,
    /// The subscriptions in canonical semicolon-joined form, when any.
    pub subscriptions: Option<String>,
    /// What the store files under "last access": the cache's update stamp.
    pub last_access: Option<i64>,
    pub created_at: Option<i64>,
}

/// A write the engine asks the store driver to perform.
#[derive(Debug)]
pub enum StoreCmd {
    /// Create a fresh row for a client first seen now.
    Insert(StoreRow),
    /// Flip the registered flag of an existing row.
    MarkRegistered(u64),
}

/// `row` is the encoding of `meta` under key `id`.
pub open spec fn encodes(id: u64, meta: ClientMeta, row: StoreRow) -> bool {
    &&& row.id == id
    &&& row.registered == meta.registered
    &&& row.access@ == access_text(meta.access_level)
    &&& (match (row.subscriptions, meta.subscriptions) {
        (Some(text), Some(s)) => text@ == join_semi(s.tokens()),
        (None, None) => true,
        _ => false,
    })
    &&& row.last_access == meta.last_update
    &&& row.created_at == meta.created_at
}

/// `meta` is what `row` decodes to when loaded at time `now`: unknown access
/// text falls back to the lowest tier, the subscription text is parsed as a
/// set, and the record is stamped freshly reconciled.
pub open spec fn decodes(row: StoreRow, now: i64, meta: ClientMeta) -> bool {
    &&& meta.registered == row.registered
    &&& meta.access_level == (match access_from_text(row.access@) {
        Some(a) => a,
        None => BotAccess::Free,
    })
    &&& (match (row.subscriptions, meta.subscriptions) {
        (Some(text), Some(s)) => s@ == split_semi(text@).to_set(),
        (None, None) => true,
        _ => false,
    })
    &&& meta.last_access == row.last_access
    &&& meta.last_update == Some(now)
    &&& meta.created_at == row.created_at
}

/// The row's subscription text, when present, holds no over-long token, so
/// it parses back into a subscription set.
pub open spec fn row_decodable(row: StoreRow) -> bool {
    row.subscriptions matches Some(text) ==> forall|k: int|
        0 <= k < split_semi(text@).len() ==> valid_token(#[trigger] split_semi(text@)[k])
}

/// Encode a record for writing under key `id`.
pub fn encode_row(id: u64, meta: &ClientMeta) -> (r: StoreRow)
    ensures
        encodes(id, *meta, r),
{
    StoreRow {
        id,
        registered: meta.registered,
        access: meta.access_level.as_text().to_owned(),
        subscriptions: match &meta.subscriptions {
            Some(s) => Some(s.to_string()),
            None => None,
        },
        last_access: meta.last_update,
        created_at: meta.created_at,
    }
}

/// Decode a row read from the store at time `now`. Fails only when the
/// subscription text holds an over-long token; unknown access text falls
/// back to the lowest tier rather than failing.
pub fn decode_meta(row: &StoreRow, now: i64) -> (r: Result<ClientMeta, ClientError>)
    ensures
        r is Ok <==> row_decodable(*row),
        r matches Ok(m) ==> decodes(*row, now, m) && m.wf(),
        r matches Err(e) ==> e is UnknownDbError,
{
    let subscriptions = match &row.subscriptions {
        Some(text) => match Subscriptions::parse(text.as_str()) {
            Ok(s) => Some(s),
            Err(_) => {
                return Err(ClientError::UnknownDbError(text.clone()));
            },
        },
        None => None,
    };
    Ok(ClientMeta {
        registered: row.registered,
        access_level: BotAccess::from_text_or_free(row.access.as_str()),
        subscriptions,
        last_access: row.last_access,
        last_update: Some(now),
        created_at: row.created_at,
    })
}

/// Saving a record and loading the row back yields the same client state,
/// per the reconciliation equality: the store encoding loses nothing of a
/// well-formed, serializable record.
pub proof fn lemma_store_round_trip(
    id: u64,
    meta: ClientMeta,
    row: StoreRow,
    now: i64,
    loaded: ClientMeta,
)
    requires
        meta.wf(),
        meta.serializable(),
        encodes(id, meta, row),
        decodes(row, now, loaded),
    ensures
        same_entity(loaded, meta),
{
    lemma_access_text_round_trip(meta.access_level);
    match meta.subscriptions {
        Some(s) => {
            lemma_split_join(s.tokens());
        },
        None => {},
    }
}

} // verus!

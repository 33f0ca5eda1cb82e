//! The metadata handler: the façade bot handlers call to read and change
//! client metadata.
//!
//! Reads are served from the cache alone. Registration paths write through
//! to the store synchronously, as [`StoreCmd`] values the caller's store
//! driver must perform before the next read of the store; every other
//! mutation is deferred, as an id pushed to the notification outbox that the
//! caller forwards to the maintenance handler on a best-effort basis.

use vstd::prelude::*;

use crate::access::{access_text, BotAccess};
use crate::cache::Cache;
use crate::clock::now_ts;
use crate::errors::ClientError;
use crate::meta::ClientMeta;
use crate::store::StoreCmd;
use crate::subscriptions::Subscriptions;

verus! {

/// Hard floor for the cache refresh interval, in minutes: configured values
/// below it are clamped up.
pub const MIN_REFRESH_MINUTES: u64 = 60;

/// Default cache refresh interval: one day.
pub const DEFAULT_EXPIRY_MINUTES: u64 = 1440;

/// A cached record is stale when it was never reconciled, or when its last
/// reconciliation lies more than the refresh interval in the past.
pub open spec fn is_stale(expiry_minutes: u64, last_update: Option<i64>, now: i64) -> bool {
    match last_update {
        None => true,
        Some(t) => now - t > expiry_minutes * 60,
    }
}

/// Handler for the management of client metadata.
#[derive(Debug)]
pub struct ClientHandler {
    cache_expiry_minutes: u64,
    outbox: Vec<u64>,
    store_writes: Vec<StoreCmd>,
}

impl ClientHandler {
    /// The refresh interval in force, after clamping.
    pub closed spec fn expiry_minutes(&self) -> u64 {
        self.cache_expiry_minutes
    }

    /// Ids whose deferred store write is pending notification.
    pub closed spec fn outbox_seq(&self) -> Seq<u64> {
        self.outbox@
    }

    /// Store writes the caller must perform synchronously.
    pub closed spec fn writes_seq(&self) -> Seq<StoreCmd> {
        self.store_writes@
    }

    /// Build a handler with the given refresh interval in minutes; values
    /// below the hard floor are clamped up to it.
    pub fn new(cache_expiry_minutes: u64) -> (r: ClientHandler)
        ensures
            r.expiry_minutes() == (if cache_expiry_minutes < MIN_REFRESH_MINUTES {
                MIN_REFRESH_MINUTES
            } else {
                cache_expiry_minutes
            }),
            r.outbox_seq() == Seq::<u64>::empty(),
            r.writes_seq() == Seq::<StoreCmd>::empty(),
    {
        let minutes = if cache_expiry_minutes < MIN_REFRESH_MINUTES {
            MIN_REFRESH_MINUTES
        } else {
            cache_expiry_minutes
        };
        ClientHandler { cache_expiry_minutes: minutes, outbox: Vec::new(), store_writes: Vec::new() }
    }

    /// The access level of a client: the cached tier, or the lowest tier for
    /// a client absent from the cache. A pure read with no side effect.
    pub fn access_level(&self, cache: &Cache, client_id: u64) -> (r: Result<
        BotAccess,
        ClientError,
    >)
        requires
            cache.wf(),
        ensures
            r is Ok,
            cache@.contains_key(client_id) ==> r == Ok::<BotAccess, ClientError>(
                cache@[client_id].access_level,
            ),
            !cache@.contains_key(client_id) ==> r == Ok::<BotAccess, ClientError>(BotAccess::Free),
    {
        match cache.get(client_id) {
            Some(meta) => Ok(meta.access_level),
            None => Ok(BotAccess::Free),
        }
    }

    /// Whether the client is hard-registered. A client never seen before is
    /// lazily soft-registered as a side effect: a default record enters the
    /// cache and the key list, a fresh row is queued for the store, the
    /// maintenance handler is notified, and the call reports `false`.
    pub fn is_registered(&mut self, cache: &mut Cache, client_id: u64) -> (r: Result<
        bool,
        ClientError,
    >)
        requires
            old(cache).wf(),
        ensures
            final(cache).wf(),
            r is Ok,
            old(cache)@.contains_key(client_id) ==> {
                &&& r == Ok::<bool, ClientError>(old(cache)@[client_id].registered)
                &&& final(cache)@ == old(cache)@
                &&& final(cache).clients_seq() == old(cache).clients_seq()
                &&& *final(self) == *old(self)
            },
            !old(cache)@.contains_key(client_id) ==> {
                &&& r == Ok::<bool, ClientError>(false)
                &&& final(cache)@ == old(cache)@.insert(client_id, final(cache)@[client_id])
                &&& final(cache)@[client_id].registered == false
                &&& final(cache)@[client_id].access_level == BotAccess::Free
                &&& final(cache)@[client_id].subscriptions is None
                &&& final(cache)@[client_id].last_access is None
                &&& final(cache)@[client_id].last_update is None
                &&& final(cache)@[client_id].created_at is None
                &&& final(cache).clients_seq() == old(cache).clients_seq().push(client_id)
                &&& final(self).outbox_seq() == old(self).outbox_seq().push(client_id)
                &&& final(self).writes_seq().len() == old(self).writes_seq().len() + 1
                &&& final(self).writes_seq().take(old(self).writes_seq().len() as int)
                    == old(self).writes_seq()
                &&& (final(self).writes_seq().last() matches StoreCmd::Insert(row)
                    && row.id == client_id
                    && row.registered == false
                    && row.access@ == access_text(BotAccess::Free)
                    && row.subscriptions is None
                    && row.last_access is None
                    && row.created_at is None)
                &&& final(self).expiry_minutes() == old(self).expiry_minutes()
            },
    {
        match cache.get(client_id) {
            Some(meta) => Ok(meta.registered),
            None => {
                let row = crate::store::encode_row(client_id, &ClientMeta::default());
                self.store_writes.push(StoreCmd::Insert(row));
                cache.insert(client_id, ClientMeta::default());
                self.outbox.push(client_id);
                proof {
                    assert(self.store_writes@.take(old(self).writes_seq().len() as int)
                        =~= old(self).writes_seq());
                }
                Ok(false)
            },
        }
    }

    /// Hard-register a client. A soft-registered client is promoted in
    /// place, its access and update stamps set to `now`, and the store told
    /// to mark the row; an unknown client gets a fresh registered record and
    /// a fresh store row; an already registered client is left as it is.
    /// In every case the key is appended once to the key list.
    pub fn register_client_at(&mut self, cache: &mut Cache, client_id: u64, now: i64) -> (r:
        Result<(), ClientError>)
        requires
            old(cache).wf(),
        ensures
            final(cache).wf(),
            r is Ok,
            final(self).outbox_seq() == old(self).outbox_seq(),
            final(self).expiry_minutes() == old(self).expiry_minutes(),
            final(cache).clients_seq() == old(cache).clients_seq().push(client_id),
            (old(cache)@.contains_key(client_id) && old(cache)@[client_id].registered) ==> {
                &&& final(cache)@ == old(cache)@
                &&& final(self).writes_seq() == old(self).writes_seq()
            },
            (old(cache)@.contains_key(client_id) && !old(cache)@[client_id].registered) ==> {
                &&& final(cache)@ == old(cache)@.insert(client_id, final(cache)@[client_id])
                &&& final(cache)@[client_id].registered == true
                &&& final(cache)@[client_id].access_level == old(cache)@[client_id].access_level
                &&& crate::meta::subs_set(final(cache)@[client_id].subscriptions)
                    == crate::meta::subs_set(old(cache)@[client_id].subscriptions)
                &&& final(cache)@[client_id].last_access == Some(now)
                &&& final(cache)@[client_id].last_update == Some(now)
                &&& final(cache)@[client_id].created_at == old(cache)@[client_id].created_at
                &&& final(self).writes_seq() == old(self).writes_seq().push(
                    StoreCmd::MarkRegistered(client_id),
                )
            },
            !old(cache)@.contains_key(client_id) ==> {
                &&& final(cache)@ == old(cache)@.insert(client_id, final(cache)@[client_id])
                &&& final(cache)@[client_id].registered == true
                &&& final(cache)@[client_id].access_level == BotAccess::Free
                &&& final(cache)@[client_id].subscriptions is None
                &&& final(cache)@[client_id].last_access == Some(now)
                &&& final(cache)@[client_id].last_update == Some(now)
                &&& final(cache)@[client_id].created_at is None
                &&& final(self).writes_seq().len() == old(self).writes_seq().len() + 1
                &&& final(self).writes_seq().take(old(self).writes_seq().len() as int)
                    == old(self).writes_seq()
                &&& (final(self).writes_seq().last() matches StoreCmd::Insert(row)
                    && row.id == client_id
                    && row.registered == true
                    && row.access@ == access_text(BotAccess::Free)
                    && row.subscriptions is None
                    && row.last_access is None
                    && row.created_at is None)
            },
    {
        let cur: Option<ClientMeta> = match cache.get(client_id) {
            Some(meta) => Some(meta.clone()),
            None => None,
        };
        match cur {
            Some(mut meta) => {
                if !meta.registered {
                    meta.registered = true;
                    meta.last_access = Some(now);
                    meta.last_update = Some(now);
                    cache.insert(client_id, meta);
                    self.store_writes.push(StoreCmd::MarkRegistered(client_id));
                }
                cache.push_client(client_id);
            },
            None => {
                let mut row_meta = ClientMeta::default();
                row_meta.registered = true;
                let row = crate::store::encode_row(client_id, &row_meta);
                self.store_writes.push(StoreCmd::Insert(row));
                let mut meta = ClientMeta::default();
                meta.registered = true;
                meta.last_access = Some(now);
                meta.last_update = Some(now);
                cache.insert(client_id, meta);
                proof {
                    assert(self.store_writes@.take(old(self).writes_seq().len() as int)
                        =~= old(self).writes_seq());
                }
            },
        }
        Ok(())
    }

    /// Hard-register a client at the present moment; see
    /// [`Self::register_client_at`], which carries the full contract for
    /// every value of the clock.
    pub fn register_client(&mut self, cache: &mut Cache, client_id: u64) -> (r: Result<
        (),
        ClientError,
    >)
        requires
            old(cache).wf(),
        ensures
            final(cache).wf(),
            r is Ok,
            final(self).outbox_seq() == old(self).outbox_seq(),
            final(self).expiry_minutes() == old(self).expiry_minutes(),
            final(cache).clients_seq() == old(cache).clients_seq().push(client_id),
            final(cache)@.contains_key(client_id),
            final(cache)@[client_id].registered == true,
            (old(cache)@.contains_key(client_id) && old(cache)@[client_id].registered) ==> {
                &&& final(cache)@ == old(cache)@
                &&& final(self).writes_seq() == old(self).writes_seq()
            },
            (old(cache)@.contains_key(client_id) && !old(cache)@[client_id].registered) ==> {
                &&& final(cache)@ == old(cache)@.insert(client_id, final(cache)@[client_id])
                &&& final(cache)@[client_id].access_level == old(cache)@[client_id].access_level
                &&& crate::meta::subs_set(final(cache)@[client_id].subscriptions)
                    == crate::meta::subs_set(old(cache)@[client_id].subscriptions)
                &&& final(cache)@[client_id].created_at == old(cache)@[client_id].created_at
                &&& final(self).writes_seq() == old(self).writes_seq().push(
                    StoreCmd::MarkRegistered(client_id),
                )
            },
            !old(cache)@.contains_key(client_id) ==> {
                &&& final(cache)@ == old(cache)@.insert(client_id, final(cache)@[client_id])
                &&& final(cache)@[client_id].access_level == BotAccess::Free
                &&& final(cache)@[client_id].subscriptions is None
                &&& final(cache)@[client_id].created_at is None
                &&& final(self).writes_seq().len() == old(self).writes_seq().len() + 1
            },
    {
        let now = now_ts();
        self.register_client_at(cache, client_id, now)
    }

    /// The subscriptions of a registered client; a client absent from the
    /// cache is reported as not registered, unlike `access_level`, which
    /// defaults instead of failing.
    pub fn subscriptions(&self, cache: &Cache, client_id: u64) -> (r: Result<
        Option<Subscriptions>,
        ClientError,
    >)
        requires
            cache.wf(),
        ensures
            r is Ok <==> cache@.contains_key(client_id),
            !cache@.contains_key(client_id) ==> (r matches Err(e) && e is ClientNotRegistered),
            r matches Ok(o) ==> crate::meta::subs_set(o) == crate::meta::subs_set(
                cache@[client_id].subscriptions,
            ) && crate::meta::subs_wf(o),
    {
        match cache.get(client_id) {
            Some(meta) => match &meta.subscriptions {
                Some(s) => Ok(Some(s.clone())),
                None => Ok(None),
            },
            None => Err(ClientError::ClientNotRegistered),
        }
    }

    /// Add tickers to a registered client's subscription set and notify the
    /// maintenance handler; fails for a client absent from the cache.
    pub fn add_subscriptions(&mut self, cache: &mut Cache, client_id: u64, subscriptions:
        Subscriptions) -> (r: Result<(), ClientError>)
        requires
            old(cache).wf(),
            subscriptions.wf(),
        ensures
            final(cache).wf(),
            final(self).writes_seq() == old(self).writes_seq(),
            final(self).expiry_minutes() == old(self).expiry_minutes(),
            r is Ok <==> old(cache)@.contains_key(client_id),
            !old(cache)@.contains_key(client_id) ==> {
                &&& r matches Err(e) && e is ClientNotRegistered
                &&& final(cache)@ == old(cache)@
                &&& final(cache).clients_seq() == old(cache).clients_seq()
                &&& final(self).outbox_seq() == old(self).outbox_seq()
            },
            old(cache)@.contains_key(client_id) ==> {
                &&& final(cache)@ == old(cache)@.insert(client_id, final(cache)@[client_id])
                &&& final(cache)@[client_id].registered == old(cache)@[client_id].registered
                &&& final(cache)@[client_id].access_level == old(cache)@[client_id].access_level
                &&& final(cache)@[client_id].last_access == old(cache)@[client_id].last_access
                &&& final(cache)@[client_id].last_update == old(cache)@[client_id].last_update
                &&& final(cache)@[client_id].created_at == old(cache)@[client_id].created_at
                &&& (old(cache)@[client_id].subscriptions is None ==> crate::meta::subs_set(
                    final(cache)@[client_id].subscriptions,
                ) == Some(subscriptions@))
                &&& (old(cache)@[client_id].subscriptions matches Some(s) ==> crate::meta::subs_set(
                    final(cache)@[client_id].subscriptions,
                ) == Some(s@.union(subscriptions@)))
                &&& final(cache).clients_seq() == old(cache).clients_seq()
                &&& final(self).outbox_seq() == old(self).outbox_seq().push(client_id)
            },
    {
        let cur: Option<ClientMeta> = match cache.get(client_id) {
            Some(meta) => Some(meta.clone()),
            None => None,
        };
        match cur {
            Some(mut meta) => {
                meta.add_subscriptions(subscriptions);
                cache.insert(client_id, meta);
                self.outbox.push(client_id);
                Ok(())
            },
            None => Err(ClientError::ClientNotRegistered),
        }
    }

    /// Remove tickers from a registered client's subscription set; a set
    /// emptied by the removal collapses to an absent field. The maintenance
    /// handler is notified when the record held a set; fails for a client
    /// absent from the cache.
    pub fn remove_subscriptions(&mut self, cache: &mut Cache, client_id: u64, subscriptions:
        Subscriptions) -> (r: Result<(), ClientError>)
        requires
            old(cache).wf(),
        ensures
            final(cache).wf(),
            final(self).writes_seq() == old(self).writes_seq(),
            final(self).expiry_minutes() == old(self).expiry_minutes(),
            r is Ok <==> old(cache)@.contains_key(client_id),
            !old(cache)@.contains_key(client_id) ==> {
                &&& r matches Err(e) && e is ClientNotRegistered
                &&& final(cache)@ == old(cache)@
                &&& final(cache).clients_seq() == old(cache).clients_seq()
                &&& final(self).outbox_seq() == old(self).outbox_seq()
            },
            old(cache)@.contains_key(client_id) ==> {
                &&& final(cache)@ == old(cache)@.insert(client_id, final(cache)@[client_id])
                &&& final(cache)@[client_id].registered == old(cache)@[client_id].registered
                &&& final(cache)@[client_id].access_level == old(cache)@[client_id].access_level
                &&& final(cache)@[client_id].last_access == old(cache)@[client_id].last_access
                &&& final(cache)@[client_id].last_update == old(cache)@[client_id].last_update
                &&& final(cache)@[client_id].created_at == old(cache)@[client_id].created_at
                &&& (old(cache)@[client_id].subscriptions is None ==> final(cache)@[
                    client_id].subscriptions is None && final(self).outbox_seq() == old(
                    self,
                ).outbox_seq())
                &&& (old(cache)@[client_id].subscriptions matches Some(s) ==> {
                    &&& (if s@.difference(subscriptions@) == Set::<Seq<char>>::empty() {
                        final(cache)@[client_id].subscriptions is None
                    } else {
                        crate::meta::subs_set(final(cache)@[client_id].subscriptions) == Some(
                            s@.difference(subscriptions@),
                        )
                    })
                    &&& final(self).outbox_seq() == old(self).outbox_seq().push(client_id)
                })
                &&& final(cache).clients_seq() == old(cache).clients_seq()
            },
    {
        let cur: Option<ClientMeta> = match cache.get(client_id) {
            Some(meta) => Some(meta.clone()),
            None => None,
        };
        match cur {
            Some(mut meta) => {
                let had_subs = meta.subscriptions.is_some();
                meta.remove_subscriptions(&subscriptions);
                cache.insert(client_id, meta);
                if had_subs {
                    self.outbox.push(client_id);
                }
                Ok(())
            },
            None => Err(ClientError::ClientNotRegistered),
        }
    }

    /// Overwrite a registered client's access tier and notify the
    /// maintenance handler; fails for a client absent from the cache.
    pub fn modify_access_level(&mut self, cache: &mut Cache, client_id: u64, access: BotAccess)
        -> (r: Result<(), ClientError>)
        requires
            old(cache).wf(),
        ensures
            final(cache).wf(),
            final(self).writes_seq() == old(self).writes_seq(),
            final(self).expiry_minutes() == old(self).expiry_minutes(),
            r is Ok <==> old(cache)@.contains_key(client_id),
            !old(cache)@.contains_key(client_id) ==> {
                &&& r matches Err(e) && e is ClientNotRegistered
                &&& final(cache)@ == old(cache)@
                &&& final(cache).clients_seq() == old(cache).clients_seq()
                &&& final(self).outbox_seq() == old(self).outbox_seq()
            },
            old(cache)@.contains_key(client_id) ==> {
                &&& final(cache)@ == old(cache)@.insert(client_id, final(cache)@[client_id])
                &&& final(cache)@[client_id].access_level == access
                &&& final(cache)@[client_id].registered == old(cache)@[client_id].registered
                &&& crate::meta::subs_set(final(cache)@[client_id].subscriptions)
                    == crate::meta::subs_set(old(cache)@[client_id].subscriptions)
                &&& final(cache)@[client_id].last_access == old(cache)@[client_id].last_access
                &&& final(cache)@[client_id].last_update == old(cache)@[client_id].last_update
                &&& final(cache)@[client_id].created_at == old(cache)@[client_id].created_at
                &&& final(cache).clients_seq() == old(cache).clients_seq()
                &&& final(self).outbox_seq() == old(self).outbox_seq().push(client_id)
            },
    {
        let cur: Option<ClientMeta> = match cache.get(client_id) {
            Some(meta) => Some(meta.clone()),
            None => None,
        };
        match cur {
            Some(mut meta) => {
                meta.access_level = access;
                cache.insert(client_id, meta);
                self.outbox.push(client_id);
                Ok(())
            },
            None => Err(ClientError::ClientNotRegistered),
        }
    }

    /// Ask for a reconciliation of a registered client's record when it is
    /// stale at time `now`: a stale record's id goes to the outbox, a fresh
    /// one is trusted. Fails for a client absent from the cache.
    pub fn refresh_access_at(&mut self, cache: &Cache, client_id: u64, now: i64) -> (r: Result<
        (),
        ClientError,
    >)
        requires
            cache.wf(),
        ensures
            final(self).writes_seq() == old(self).writes_seq(),
            final(self).expiry_minutes() == old(self).expiry_minutes(),
            r is Ok <==> cache@.contains_key(client_id),
            !cache@.contains_key(client_id) ==> (r matches Err(e) && e is ClientNotRegistered
                && final(self).outbox_seq() == old(self).outbox_seq()),
            cache@.contains_key(client_id) ==> {
                if is_stale(old(self).expiry_minutes(), cache@[client_id].last_update, now) {
                    final(self).outbox_seq() == old(self).outbox_seq().push(client_id)
                } else {
                    final(self).outbox_seq() == old(self).outbox_seq()
                }
            },
    {
        match cache.get(client_id) {
            Some(meta) => {
                let stale = match meta.last_update {
                    None => true,
                    Some(t) => {
                        (now as i128) - (t as i128) > (self.cache_expiry_minutes as i128) * 60
                    },
                };
                if stale {
                    self.outbox.push(client_id);
                }
                Ok(())
            },
            None => Err(ClientError::ClientNotRegistered),
        }
    }

    /// Ask for a reconciliation of a stale record at the present moment; see
    /// [`Self::refresh_access_at`], which carries the full contract for
    /// every value of the clock.
    pub fn refresh_access(&mut self, cache: &Cache, client_id: u64) -> (r: Result<
        (),
        ClientError,
    >)
        requires
            cache.wf(),
        ensures
            final(self).writes_seq() == old(self).writes_seq(),
            final(self).expiry_minutes() == old(self).expiry_minutes(),
            r is Ok <==> cache@.contains_key(client_id),
            !cache@.contains_key(client_id) ==> (r matches Err(e) && e is ClientNotRegistered
                && final(self).outbox_seq() == old(self).outbox_seq()),
            cache@.contains_key(client_id) ==> final(self).outbox_seq() == old(self).outbox_seq()
                || final(self).outbox_seq() == old(self).outbox_seq().push(client_id),
    {
        let now = now_ts();
        self.refresh_access_at(cache, client_id, now)
    }

    /// Hand over the pending notifications, oldest first, leaving the outbox
    /// empty. The caller forwards each as an `update` command on the
    /// maintenance channel, dropping them when the channel is full.
    pub fn take_outbox(&mut self) -> (r: Vec<u64>)
        ensures
            r@ == old(self).outbox_seq(),
            final(self).outbox_seq() == Seq::<u64>::empty(),
            final(self).writes_seq() == old(self).writes_seq(),
            final(self).expiry_minutes() == old(self).expiry_minutes(),
    {
        let mut drained: Vec<u64> = Vec::new();
        core::mem::swap(&mut drained, &mut self.outbox);
        drained
    }

    /// Hand over the pending synchronous store writes, oldest first, leaving
    /// the queue empty. The caller must perform them before serving the next
    /// request, as the registration paths are write-through.
    pub fn take_store_writes(&mut self) -> (r: Vec<StoreCmd>)
        ensures
            r@ == old(self).writes_seq(),
            final(self).writes_seq() == Seq::<StoreCmd>::empty(),
            final(self).outbox_seq() == old(self).outbox_seq(),
            final(self).expiry_minutes() == old(self).expiry_minutes(),
    {
        let mut drained: Vec<StoreCmd> = Vec::new();
        core::mem::swap(&mut drained, &mut self.store_writes);
        drained
    }
}

} // verus!

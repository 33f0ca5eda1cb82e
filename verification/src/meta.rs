//! Per-user metadata records: the cache-side client record, the store-backed
//! user record, and the user configuration.
//!
//! Timestamps are carried as seconds since the Unix epoch. Equality for
//! reconciliation deliberately ignores the access and update timestamps: a
//! cache copy and a store copy may differ there without diverging.

use vstd::prelude::*;

use crate::access::BotAccess;
use crate::subscriptions::Subscriptions;

verus! {

/// The set of tokens a subscriptions field holds, or nothing when the field
/// is absent.
pub open spec fn subs_set(o: Option<Subscriptions>) -> Option<Set<Seq<char>>> {
    match o {
        Some(s) => Some(s@),
        None => None,
    }
}

/// The subscriptions field is well-formed when a held set is well-formed.
pub open spec fn subs_wf(o: Option<Subscriptions>) -> bool {
    o matches Some(s) ==> s.wf()
}

/// Metadata of a bot client, as the cache holds it.
#[derive(Debug)]
pub struct ClientMeta {
    /// Soft-registered clients carry `false`; hard registration flips it.
    pub registered: bool,
    /// The client's access tier.
    pub access_level: BotAccess,
    /// The subscribed tickers; an empty set collapses to `None`.
    pub subscriptions: Option<Subscriptions>,
    /// When the client last reached the bot.
    pub last_access: Option<i64>,
    /// When the cache entry was last reconciled with the store.
    pub last_update: Option<i64>,
    /// When the client was first registered.
    pub created_at: Option<i64>,
}

/// Two records describe the same client state for reconciliation: access and
/// update timestamps are deliberately left out of the comparison.
pub open spec fn same_entity(a: ClientMeta, b: ClientMeta) -> bool {
    &&& a.registered == b.registered
    &&& a.access_level == b.access_level
    &&& subs_set(a.subscriptions) == subs_set(b.subscriptions)
    &&& a.created_at == b.created_at
}

impl ClientMeta {
    /// The record is well-formed when its subscription set is.
    pub open spec fn wf(&self) -> bool {
        subs_wf(self.subscriptions)
    }

    /// The subscriptions of the record never contain the `;` delimiter, so
    /// the record survives a trip through the store's text encoding.
    pub open spec fn serializable(&self) -> bool {
        self.subscriptions matches Some(s) ==> s.serializable() && s.tokens().len() >= 1
    }

    /// Add tickers to the record's subscription set, creating the set when
    /// the field was absent.
    pub fn add_subscriptions(&mut self, subs: Subscriptions)
        requires
            old(self).wf(),
            subs.wf(),
        ensures
            final(self).wf(),
            old(self).subscriptions is None ==> subs_set(final(self).subscriptions) == Some(subs@),
            old(self).subscriptions matches Some(s) ==> subs_set(final(self).subscriptions)
                == Some(s@.union(subs@)),
            final(self).registered == old(self).registered,
            final(self).access_level == old(self).access_level,
            final(self).last_access == old(self).last_access,
            final(self).last_update == old(self).last_update,
            final(self).created_at == old(self).created_at,
    {
        let cur = self.subscriptions.take();
        match cur {
            Some(mut s) => {
                s.add_all(&subs);
                self.subscriptions = Some(s);
            },
            None => {
                self.subscriptions = Some(subs);
            },
        }
    }

    /// Remove tickers from the record's subscription set; an emptied set
    /// collapses back to an absent field, and an absent field stays absent.
    pub fn remove_subscriptions(&mut self, subs: &Subscriptions)
        requires
            old(self).wf(),
        ensures
            final(self).wf(),
            old(self).subscriptions is None ==> final(self).subscriptions is None,
            old(self).subscriptions matches Some(s) ==> {
                if s@.difference(subs@) == Set::<Seq<char>>::empty() {
                    final(self).subscriptions is None
                } else {
                    subs_set(final(self).subscriptions) == Some(s@.difference(subs@))
                }
            },
            final(self).registered == old(self).registered,
            final(self).access_level == old(self).access_level,
            final(self).last_access == old(self).last_access,
            final(self).last_update == old(self).last_update,
            final(self).created_at == old(self).created_at,
    {
        let cur = self.subscriptions.take();
        match cur {
            Some(mut s) => {
                s.remove_all(subs);
                if s.is_empty() {
                    self.subscriptions = None;
                } else {
                    self.subscriptions = Some(s);
                }
            },
            None => {
                self.subscriptions = None;
            },
        }
    }

    /// Whether this record and `other` describe the same client state, per
    /// the reconciliation equality.
    pub fn matches_entity(&self, other: &ClientMeta) -> (r: bool)
        ensures
            r == same_entity(*self, *other),
    {
        let regs = self.registered == other.registered;
        let access = match (self.access_level, other.access_level) {
            (BotAccess::Free, BotAccess::Free) => true,
            (BotAccess::Limited, BotAccess::Limited) => true,
            (BotAccess::Unlimited, BotAccess::Unlimited) => true,
            (BotAccess::Admin, BotAccess::Admin) => true,
            _ => false,
        };
        let subs = match (&self.subscriptions, &other.subscriptions) {
            (Some(a), Some(b)) => a == b,
            (None, None) => true,
            _ => false,
        };
        let created = match (self.created_at, other.created_at) {
            (Some(a), Some(b)) => a == b,
            (None, None) => true,
            _ => false,
        };
        regs && access && subs && created
    }
}

impl Clone for ClientMeta {
    /// A clone repeats every field; the cloned subscription set holds the
    /// same tokens in the same order.
    fn clone(&self) -> (r: Self)
        ensures
            r.registered == self.registered,
            r.access_level == self.access_level,
            (match (r.subscriptions, self.subscriptions) {
                (Some(a), Some(b)) => a.tokens() == b.tokens(),
                (None, None) => true,
                _ => false,
            }),
            r.last_access == self.last_access,
            r.last_update == self.last_update,
            r.created_at == self.created_at,
            same_entity(r, *self),
            r.wf() == self.wf(),
    {
        ClientMeta {
            registered: self.registered,
            access_level: self.access_level,
            subscriptions: match &self.subscriptions {
                Some(s) => Some(s.clone()),
                None => None,
            },
            last_access: self.last_access,
            last_update: self.last_update,
            created_at: self.created_at,
        }
    }
}

impl Default for ClientMeta {
    /// The record a soft registration creates: unregistered, lowest tier,
    /// no subscriptions, no timestamps.
    fn default() -> (r: Self)
        ensures
            r.registered == false,
            r.access_level == BotAccess::Free,
            r.subscriptions is None,
            r.last_access is None,
            r.last_update is None,
            r.created_at is None,
            r.wf(),
    {
        ClientMeta {
            registered: false,
            access_level: BotAccess::Free,
            subscriptions: None,
            last_access: None,
            last_update: None,
            created_at: None,
        }
    }
}

/// Metadata of a bot user, as the user store keeps it.
#[derive(Debug)]
pub struct UserMeta {
    /// The user's access tier.
    pub access_level: BotAccess,
    /// The subscribed tickers; an empty set collapses to `None`.
    pub subscriptions: Option<Subscriptions>,
    /// When the user last reached the bot.
    pub last_access: i64,
    /// When the user was first registered.
    pub created_at: i64,
}

impl UserMeta {
    /// The record is well-formed when its subscription set is.
    pub open spec fn wf(&self) -> bool {
        subs_wf(self.subscriptions)
    }

    /// A fresh record for a user first seen at `now`.
    pub fn new(now: i64) -> (r: UserMeta)
        ensures
            r.access_level == BotAccess::Free,
            r.subscriptions is None,
            r.last_access == now,
            r.created_at == now,
            r.wf(),
    {
        UserMeta { access_level: BotAccess::Free, subscriptions: None, last_access: now, created_at: now }
    }

    /// Add tickers to the user's subscription set, creating the set when the
    /// field was absent.
    pub fn add_subscriptions(&mut self, subs: Subscriptions)
        requires
            old(self).wf(),
            subs.wf(),
        ensures
            final(self).wf(),
            old(self).subscriptions is None ==> subs_set(final(self).subscriptions) == Some(subs@),
            old(self).subscriptions matches Some(s) ==> subs_set(final(self).subscriptions)
                == Some(s@.union(subs@)),
            final(self).access_level == old(self).access_level,
            final(self).last_access == old(self).last_access,
            final(self).created_at == old(self).created_at,
    {
        let cur = self.subscriptions.take();
        match cur {
            Some(mut s) => {
                s.add_all(&subs);
                self.subscriptions = Some(s);
            },
            None => {
                self.subscriptions = Some(subs);
            },
        }
    }

    /// Remove tickers from the user's subscription set; an emptied set
    /// collapses back to an absent field.
    pub fn remove_subscriptions(&mut self, subs: &Subscriptions)
        requires
            old(self).wf(),
        ensures
            final(self).wf(),
            old(self).subscriptions is None ==> final(self).subscriptions is None,
            old(self).subscriptions matches Some(s) ==> {
                if s@.difference(subs@) == Set::<Seq<char>>::empty() {
                    final(self).subscriptions is None
                } else {
                    subs_set(final(self).subscriptions) == Some(s@.difference(subs@))
                }
            },
            final(self).access_level == old(self).access_level,
            final(self).last_access == old(self).last_access,
            final(self).created_at == old(self).created_at,
    {
        let cur = self.subscriptions.take();
        match cur {
            Some(mut s) => {
                s.remove_all(subs);
                if s.is_empty() {
                    self.subscriptions = None;
                } else {
                    self.subscriptions = Some(s);
                }
            },
            None => {
                self.subscriptions = None;
            },
        }
    }
}

/// Configuration parameters of a bot user.
#[derive(Debug, Clone, Copy, PartialEq, Eq, Structural)]
pub struct UserConfig {
    /// Whether broadcast messages reach the user.
    pub show_broadcast_msg: bool,
    /// Whether keyboards list tickers rather than company names.
    pub prefer_tickers: bool,
}

impl Default for UserConfig {
    /// Both switches start on.
    fn default() -> (r: Self)
        ensures
            r.show_broadcast_msg == true,
            r.prefer_tickers == true,
    {
        UserConfig { show_broadcast_msg: true, prefer_tickers: true }
    }
}

} // verus!

//! Access tiers of a bot client, with the stable lowercase text mapping used
//! for persistence.

use vstd::prelude::*;

use crate::text::str_eq;

verus! {

/// The access level of a bot client, as ordered tiers. `Free` is the default
/// tier, assigned to every client that has not been promoted.
#[derive(Debug, Copy, Clone, PartialEq, Eq, Structural)]
pub enum BotAccess {
    Free,
    Limited,
    Unlimited,
    Admin,
}

/// The stable lowercase encoding of a tier, as written to the durable store.
pub open spec fn access_text(a: BotAccess) -> Seq<char> {
    match a {
        BotAccess::Free => "free"@,
        BotAccess::Limited => "limited"@,
        BotAccess::Unlimited => "unlimited"@,
        BotAccess::Admin => "admin"@,
    }
}

/// The tier a stored text decodes to; unknown text decodes to nothing.
pub open spec fn access_from_text(s: Seq<char>) -> Option<BotAccess> {
    if s == "free"@ {
        Some(BotAccess::Free)
    } else if s == "limited"@ {
        Some(BotAccess::Limited)
    } else if s == "unlimited"@ {
        Some(BotAccess::Unlimited)
    } else if s == "admin"@ {
        Some(BotAccess::Admin)
    } else {
        None
    }
}

impl BotAccess {
    /// The stable lowercase name of the tier.
    pub fn as_text(&self) -> (r: &'static str)
        ensures
            r@ == access_text(*self),
    {
        match self {
            BotAccess::Free => "free",
            BotAccess::Limited => "limited",
            BotAccess::Unlimited => "unlimited",
            BotAccess::Admin => "admin",
        }
    }

    /// Decode a tier from its stable name; unknown names yield `None`.
    pub fn from_text(s: &str) -> (r: Option<BotAccess>)
        ensures
            r == access_from_text(s@),
    {
        if str_eq(s, "free") {
            Some(BotAccess::Free)
        } else if str_eq(s, "limited") {
            Some(BotAccess::Limited)
        } else if str_eq(s, "unlimited") {
            Some(BotAccess::Unlimited)
        } else if str_eq(s, "admin") {
            Some(BotAccess::Admin)
        } else {
            None
        }
    }

    /// Decode a tier from its stable name, tolerating schema drift: unknown
    /// names fall back to the lowest tier rather than failing.
    pub fn from_text_or_free(s: &str) -> (r: BotAccess)
        ensures
            access_from_text(s@) matches Some(a) ==> r == a,
            access_from_text(s@) is None ==> r == BotAccess::Free,
    {
        match Self::from_text(s) {
            Some(a) => a,
            None => BotAccess::Free,
        }
    }
}

impl Default for BotAccess {
    /// The lowest tier is the default.
    fn default() -> (r: Self)
        ensures
            r == BotAccess::Free,
    {
        BotAccess::Free
    }
}

/// Encoding a tier and decoding the text again yields the same tier: the
/// persistence mapping loses nothing.
pub proof fn lemma_access_text_round_trip(a: BotAccess)
    ensures
        access_from_text(access_text(a)) == Some(a),
{
    reveal_strlit("free");
    reveal_strlit("limited");
    reveal_strlit("unlimited");
    reveal_strlit("admin");
    assert("free"@.len() == 4);
    assert("limited"@.len() == 7);
    assert("unlimited"@.len() == 9);
    assert("admin"@.len() == 5);
}

} // verus!

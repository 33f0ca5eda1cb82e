//! The subscription set: a small value type wrapping a set of short tickers,
//! with union and difference operators and a canonical semicolon-joined text
//! form.
//!
//! A ticker is a token of at most [`CHARS_PER_TICKER`] characters. The type
//! has set semantics: duplicates collapse silently, and no order of the
//! elements is promised. Its mathematical view is the set of tokens, each a
//! sequence of characters.

use vstd::prelude::*;

use crate::errors::ClientError;
use crate::text::str_eq;

verus! {

/// Most characters a ticker may have.
pub const CHARS_PER_TICKER: usize = 4;

/// A token fits the ticker format: at most [`CHARS_PER_TICKER`] characters.
pub open spec fn valid_token(t: Seq<char>) -> bool {
    t.len() <= CHARS_PER_TICKER
}

/// Split a character sequence at every `;`. The result always holds at least
/// one token: splitting the empty sequence yields one empty token, and a
/// trailing `;` yields a trailing empty token, as string splitting does.
pub open spec fn split_semi(s: Seq<char>) -> Seq<Seq<char>>
    decreases s.len(),
{
    if s.len() == 0 {
        seq![Seq::<char>::empty()]
    } else {
        let prev = split_semi(s.drop_last());
        if s.last() == ';' {
            prev.push(Seq::<char>::empty())
        } else {
            prev.update(prev.len() - 1, prev.last().push(s.last()))
        }
    }
}

/// Join tokens with a `;` between each pair.
pub open spec fn join_semi(ts: Seq<Seq<char>>) -> Seq<char>
    decreases ts.len(),
{
    if ts.len() == 0 {
        Seq::<char>::empty()
    } else if ts.len() == 1 {
        ts[0]
    } else {
        join_semi(ts.drop_last()) + seq![';'] + ts.last()
    }
}

pub proof fn lemma_split_semi_len(s: Seq<char>)
    ensures
        split_semi(s).len() >= 1,
    decreases s.len(),
{
    if s.len() > 0 {
        lemma_split_semi_len(s.drop_last());
    }
}

/// Appending semicolon-free text to a sequence extends its last token.
proof fn lemma_split_append_no_semi(s: Seq<char>, t: Seq<char>)
    requires
        !t.contains(';'),
    ensures
        split_semi(s + t) == split_semi(s).update(
            split_semi(s).len() - 1,
            split_semi(s).last() + t,
        ),
    decreases t.len(),
{
    lemma_split_semi_len(s);
    if t.len() == 0 {
        assert(s + t =~= s);
        assert(split_semi(s).update(split_semi(s).len() - 1, split_semi(s).last() + t)
            =~= split_semi(s));
    } else {
        assert(t.drop_last().contains(';') ==> t.contains(';'));
        lemma_split_append_no_semi(s, t.drop_last());
        assert((s + t).drop_last() =~= s + t.drop_last());
        assert((s + t).last() == t.last());
        assert(t.contains(t.last()));
        let prev = split_semi(s + t.drop_last());
        assert(split_semi(s + t) == prev.update(prev.len() - 1, prev.last().push(t.last())));
        assert(prev.last() == split_semi(s).last() + t.drop_last());
        assert((split_semi(s).last() + t.drop_last()).push(t.last()) =~= split_semi(s).last() + t);
        assert(split_semi(s + t) =~= split_semi(s).update(
            split_semi(s).len() - 1,
            split_semi(s).last() + t,
        ));
    }
}

/// Appending a `;` closes the last token and opens a fresh empty one.
proof fn lemma_split_append_semi(s: Seq<char>)
    ensures
        split_semi(s + seq![';']) == split_semi(s).push(Seq::<char>::empty()),
{
    assert((s + seq![';']).drop_last() =~= s);
    assert((s + seq![';']).last() == ';');
}

/// Splitting the join of semicolon-free tokens gives the tokens back.
pub proof fn lemma_split_join(ts: Seq<Seq<char>>)
    requires
        ts.len() >= 1,
        forall|k: int| 0 <= k < ts.len() ==> !(#[trigger] ts[k]).contains(';'),
    ensures
        split_semi(join_semi(ts)) == ts,
    decreases ts.len(),
{
    if ts.len() == 1 {
        let t = ts[0];
        lemma_split_append_no_semi(Seq::<char>::empty(), t);
        assert(Seq::<char>::empty() + t =~= t);
        assert(split_semi(Seq::<char>::empty()) == seq![Seq::<char>::empty()]);
        assert(split_semi(t) =~= seq![t]);
        assert(join_semi(ts) == t);
        assert(ts =~= seq![t]);
    } else {
        lemma_split_join(ts.drop_last());
        let u = join_semi(ts.drop_last());
        assert(join_semi(ts) == u + seq![';'] + ts.last());
        lemma_split_append_semi(u);
        assert(split_semi(u + seq![';']) == ts.drop_last().push(Seq::<char>::empty()));
        assert(ts.contains(ts.last()));
        lemma_split_append_no_semi(u + seq![';'], ts.last());
        assert(u + seq![';'] + ts.last() =~= (u + seq![';']) + ts.last());
        let mid = ts.drop_last().push(Seq::<char>::empty());
        assert(mid.last() == Seq::<char>::empty());
        assert(Seq::<char>::empty() + ts.last() =~= ts.last());
        assert(split_semi(join_semi(ts)) =~= ts);
    }
}


/// Pushing an element onto a sequence inserts it into the set of elements.
proof fn lemma_to_set_push<A>(s: Seq<A>, x: A)
    ensures
        s.push(x).to_set() == s.to_set().insert(x),
{
    let p = s.push(x);
    assert forall|y: A| p.to_set().contains(y) implies s.to_set().insert(x).contains(y) by {
        let i = choose|i: int| 0 <= i < p.len() && p[i] == y;
        if i < s.len() {
            assert(s[i] == y);
            assert(s.contains(y));
        }
    };
    assert forall|y: A| s.to_set().insert(x).contains(y) implies p.to_set().contains(y) by {
        if s.to_set().contains(y) {
            let i = choose|i: int| 0 <= i < s.len() && s[i] == y;
            assert(p[i] == y);
        } else {
            assert(p[s.len() as int] == x);
        }
        assert(p.contains(y));
    };
    assert(p.to_set() =~= s.to_set().insert(x));
}

/// A nonempty sequence's element set is the set of all but the last element,
/// with the last element inserted.
proof fn lemma_to_set_unsnoc<A>(s: Seq<A>)
    requires
        s.len() >= 1,
    ensures
        s.to_set() == s.drop_last().to_set().insert(s.last()),
{
    assert(s.drop_last().push(s.last()) =~= s);
    lemma_to_set_push(s.drop_last(), s.last());
}

/// A set of ≤4-character tickers with set semantics and a canonical
/// semicolon-joined text form.
#[derive(Debug)]
pub struct Subscriptions {
    tickers: Vec<String>,
}

impl View for Subscriptions {
    type V = Set<Seq<char>>;

    /// The set of subscribed tokens.
    open spec fn view(&self) -> Set<Seq<char>> {
        self.tokens().to_set()
    }
}

impl Subscriptions {
    /// The tokens in storage order; the canonical text form joins them in
    /// this order.
    pub closed spec fn tokens(&self) -> Seq<Seq<char>> {
        self.tickers@.map_values(|t: String| t@)
    }

    /// Well-formed: every token fits the ticker format, and no token repeats.
    pub open spec fn wf(&self) -> bool {
        &&& forall|i: int| 0 <= i < self.tokens().len() ==> valid_token(#[trigger] self.tokens()[i])
        &&& forall|i: int, j: int|
            0 <= i < j < self.tokens().len() ==> #[trigger] self.tokens()[i]
                != #[trigger] self.tokens()[j]
    }

    /// An empty subscription set.
    pub fn new() -> (r: Subscriptions)
        ensures
            r.wf(),
            r@ == Set::<Seq<char>>::empty(),
            r.tokens().len() == 0,
    {
        let r = Subscriptions { tickers: Vec::new() };
        proof {
            assert(r.tokens() =~= Seq::<Seq<char>>::empty());
            assert(r@ =~= Set::<Seq<char>>::empty());
        }
        r
    }

    /// Whether `t` is one of the stored tickers.
    fn holds_token(&self, t: &str) -> (r: bool)
        ensures
            r == self@.contains(t@),
    {
        let n: usize = self.tickers.len();
        let mut i: usize = 0;
        while i < n
            invariant
                0 <= i <= n,
                n == self.tickers@.len(),
                forall|k: int| 0 <= k < i ==> self.tokens()[k] != t@,
            decreases n - i,
        {
            if str_eq(self.tickers[i].as_str(), t) {
                assert(self.tokens()[i as int] == t@);
                assert(self.tokens().contains(t@));
                return true;
            }
            i = i + 1;
        }
        assert(!self.tokens().contains(t@));
        return false;
    }

    /// Append `token` unless an equal ticker is already stored.
    fn push_unique(&mut self, token: String)
        requires
            old(self).wf(),
            valid_token(token@),
        ensures
            final(self).wf(),
            final(self)@ == old(self)@.insert(token@),
    {
        if self.holds_token(token.as_str()) {
            proof {
                assert(old(self)@.insert(token@) =~= old(self)@);
            }
        } else {
            proof {
                assert(forall|k: int|
                    0 <= k < old(self).tokens().len() ==> old(self).tokens()[k] != token@);
            }
            let ghost prev = self.tokens();
            let ghost tok = token@;
            self.tickers.push(token);
            proof {
                assert(self.tokens() =~= prev.push(tok));
                lemma_to_set_push(prev, tok);
            }
        }
    }

    /// Build a subscription set from raw semicolon-delimited text.
    ///
    /// Fails with a format error when any delimited token exceeds the ticker
    /// length limit; duplicate tokens collapse silently.
    pub fn parse(value: &str) -> (r: Result<Subscriptions, ClientError>)
        ensures
            r is Ok <==> (forall|k: int|
                0 <= k < split_semi(value@).len() ==> valid_token(#[trigger] split_semi(value@)[k])),
            r matches Ok(s) ==> s.wf() && s@ == split_semi(value@).to_set(),
            r matches Err(e) ==> e matches ClientError::WrongSubscriptionString(t) && t@ == value@,
    {
        let n: usize = value.unicode_len();
        let mut out = Subscriptions::new();
        let mut start: usize = 0;
        let mut i: usize = 0;
        proof {
            lemma_split_semi_len(value@);
        }
        while i < n
            invariant
                0 <= start <= i <= n,
                n == value@.len(),
                split_semi(value@.take(i as int)).len() >= 1,
                split_semi(value@.take(i as int)).last() == value@.subrange(
                    start as int,
                    i as int,
                ),
                forall|k: int|
                    0 <= k < split_semi(value@.take(i as int)).len() - 1 ==> valid_token(
                        #[trigger] split_semi(value@.take(i as int))[k],
                    ),
                out.wf(),
                out@ == split_semi(value@.take(i as int)).drop_last().to_set(),
            decreases n - i,
        {
            let ghost pre = value@.take(i as int);
            let ghost sp = split_semi(pre);
            let c = value.get_char(i);
            proof {
                assert(value@.take(i + 1).drop_last() =~= pre);
                assert(value@.take(i + 1).last() == value@[i as int]);
            }
            if c == ';' {
                if i - start > CHARS_PER_TICKER {
                    assert(!valid_token(sp.last()));
                    proof {
                        lemma_split_take_prefix_invalid(value@, i as int, sp.len() - 1);
                    }
                    return Err(ClientError::WrongSubscriptionString(value.to_owned()));
                }
                let token = value.substring_char(start, i).to_owned();
                assert(token@ == sp.last());
                out.push_unique(token);
                proof {
                    assert(split_semi(value@.take(i + 1)) == sp.push(Seq::<char>::empty()));
                    assert(split_semi(value@.take(i + 1)).drop_last() =~= sp);
                    lemma_to_set_unsnoc(sp);
                    assert(value@.subrange(i + 1, i + 1) =~= Seq::<char>::empty());
                }
                start = i + 1;
            } else {
                proof {
                    let sp2 = split_semi(value@.take(i + 1));
                    assert(sp2 == sp.update(sp.len() - 1, sp.last().push(value@[i as int])));
                    assert(sp2.drop_last() =~= sp.drop_last());
                    assert(value@.subrange(start as int, i as int).push(value@[i as int])
                        =~= value@.subrange(start as int, i + 1));
                }
            }
            i = i + 1;
        }
        proof {
            assert(value@.take(n as int) =~= value@);
        }
        let ghost sp = split_semi(value@);
        if n - start > CHARS_PER_TICKER {
            assert(!valid_token(sp.last()));
            return Err(ClientError::WrongSubscriptionString(value.to_owned()));
        }
        let token = value.substring_char(start, n).to_owned();
        assert(token@ == sp.last());
        out.push_unique(token);
        proof {
            lemma_to_set_unsnoc(sp);
            assert(forall|k: int| 0 <= k < sp.len() - 1 ==> valid_token(#[trigger] sp[k]));
        }
        Ok(out)
    }

    /// Build a subscription set from a list of tickers.
    ///
    /// Fails with a format error naming the first over-long token; duplicate
    /// tokens collapse silently.
    pub fn from_tickers(value: &[&str]) -> (r: Result<Subscriptions, ClientError>)
        ensures
            r is Ok <==> (forall|k: int|
                0 <= k < value@.len() ==> valid_token(#[trigger] value@[k]@)),
            r matches Ok(s) ==> s.wf() && s@ == value@.map_values(|t: &str| t@).to_set(),
            r matches Err(e) ==> e matches ClientError::WrongSubscriptionString(t) && (exists|k: int|
                0 <= k < value@.len() && !valid_token(#[trigger] value@[k]@) && t@ == value@[k]@),
    {
        let ghost m = value@.map_values(|t: &str| t@);
        let n: usize = value.len();
        let mut out = Subscriptions::new();
        let mut i: usize = 0;
        while i < n
            invariant
                0 <= i <= n,
                n == value@.len(),
                m == value@.map_values(|t: &str| t@),
                forall|k: int| 0 <= k < i ==> valid_token(#[trigger] value@[k]@),
                out.wf(),
                out@ == m.take(i as int).to_set(),
            decreases n - i,
        {
            let t: &str = value[i];
            if t.unicode_len() > CHARS_PER_TICKER {
                return Err(ClientError::WrongSubscriptionString(t.to_owned()));
            }
            out.push_unique(t.to_owned());
            proof {
                assert(m.take(i + 1) =~= m.take(i as int).push(m[i as int]));
                lemma_to_set_push(m.take(i as int), m[i as int]);
            }
            i = i + 1;
        }
        proof {
            assert(m.take(n as int) =~= m);
        }
        Ok(out)
    }

    /// Add the given tickers; tickers already present are ignored.
    ///
    /// Every ticker must fit the format; this operation performs no checks of
    /// its own, as the constructors do.
    pub fn add_subscriptions(&mut self, tickers: &[&str])
        requires
            old(self).wf(),
            forall|k: int| 0 <= k < tickers@.len() ==> valid_token(#[trigger] tickers@[k]@),
        ensures
            final(self).wf(),
            final(self)@ == old(self)@.union(tickers@.map_values(|t: &str| t@).to_set()),
    {
        let ghost m = tickers@.map_values(|t: &str| t@);
        let n: usize = tickers.len();
        let mut i: usize = 0;
        while i < n
            invariant
                0 <= i <= n,
                n == tickers@.len(),
                m == tickers@.map_values(|t: &str| t@),
                forall|k: int| 0 <= k < n ==> valid_token(#[trigger] tickers@[k]@),
                self.wf(),
                self@ == old(self)@.union(m.take(i as int).to_set()),
            decreases n - i,
        {
            self.push_unique(tickers[i].to_owned());
            proof {
                assert(m.take(i + 1) =~= m.take(i as int).push(m[i as int]));
                lemma_to_set_push(m.take(i as int), m[i as int]);
                assert(old(self)@.union(m.take(i as int).to_set()).insert(m[i as int])
                    =~= old(self)@.union(m.take(i + 1).to_set()));
            }
            i = i + 1;
        }
        proof {
            assert(m.take(n as int) =~= m);
        }
    }

    /// Remove one ticker if present; absent tickers are a no-op.
    fn remove_one(&mut self, t: &str)
        requires
            old(self).wf(),
        ensures
            final(self).wf(),
            final(self)@ == old(self)@.remove(t@),
    {
        let n: usize = self.tickers.len();
        let mut i: usize = 0;
        while i < n
            invariant
                0 <= i <= n,
                n == self.tickers@.len(),
                self == old(self),
                old(self).wf(),
                forall|k: int| 0 <= k < i ==> self.tokens()[k] != t@,
            decreases n - i,
        {
            if str_eq(self.tickers[i].as_str(), t) {
                let ghost toks = self.tokens();
                self.tickers.remove(i);
                proof {
                    assert(self.tokens() =~= toks.remove(i as int));
                    lemma_to_set_remove_unique(toks, i as int);
                    assert(toks[i as int] == t@);
                }
                return;
            }
            i = i + 1;
        }
        proof {
            assert(!self.tokens().contains(t@));
            assert(self@ =~= old(self)@.remove(t@));
        }
    }

    /// Remove the given tickers; removing an absent ticker is a no-op.
    pub fn remove_subscriptions(&mut self, tickers: &[&str])
        requires
            old(self).wf(),
        ensures
            final(self).wf(),
            final(self)@ == old(self)@.difference(tickers@.map_values(|t: &str| t@).to_set()),
    {
        let ghost m = tickers@.map_values(|t: &str| t@);
        let n: usize = tickers.len();
        let mut i: usize = 0;
        proof {
            assert(old(self)@.difference(m.take(0).to_set()) =~= old(self)@);
        }
        while i < n
            invariant
                0 <= i <= n,
                n == tickers@.len(),
                m == tickers@.map_values(|t: &str| t@),
                self.wf(),
                self@ == old(self)@.difference(m.take(i as int).to_set()),
            decreases n - i,
        {
            self.remove_one(tickers[i]);
            proof {
                assert(m.take(i + 1) =~= m.take(i as int).push(m[i as int]));
                lemma_to_set_push(m.take(i as int), m[i as int]);
                assert(old(self)@.difference(m.take(i as int).to_set()).remove(m[i as int])
                    =~= old(self)@.difference(m.take(i + 1).to_set()));
            }
            i = i + 1;
        }
        proof {
            assert(m.take(n as int) =~= m);
        }
    }

    /// Union with another subscription set.
    pub fn add_all(&mut self, other: &Subscriptions)
        requires
            old(self).wf(),
            other.wf(),
        ensures
            final(self).wf(),
            final(self)@ == old(self)@.union(other@),
    {
        let n: usize = other.tickers.len();
        let mut i: usize = 0;
        while i < n
            invariant
                0 <= i <= n,
                n == other.tickers@.len(),
                other.wf(),
                self.wf(),
                self@ == old(self)@.union(other.tokens().take(i as int).to_set()),
            decreases n - i,
        {
            let token = other.tickers[i].clone();
            assert(token@ == other.tokens()[i as int]);
            assert(valid_token(other.tokens()[i as int]));
            self.push_unique(token);
            proof {
                let m = other.tokens();
                assert(m.take(i + 1) =~= m.take(i as int).push(m[i as int]));
                lemma_to_set_push(m.take(i as int), m[i as int]);
                assert(old(self)@.union(m.take(i as int).to_set()).insert(m[i as int])
                    =~= old(self)@.union(m.take(i + 1).to_set()));
            }
            i = i + 1;
        }
        proof {
            assert(other.tokens().take(n as int) =~= other.tokens());
        }
    }

    /// Set difference with another subscription set.
    pub fn remove_all(&mut self, other: &Subscriptions)
        requires
            old(self).wf(),
        ensures
            final(self).wf(),
            final(self)@ == old(self)@.difference(other@),
    {
        let n: usize = other.tickers.len();
        let mut i: usize = 0;
        proof {
            assert(old(self)@.difference(other.tokens().take(0).to_set()) =~= old(self)@);
        }
        while i < n
            invariant
                0 <= i <= n,
                n == other.tickers@.len(),
                self.wf(),
                self@ == old(self)@.difference(other.tokens().take(i as int).to_set()),
            decreases n - i,
        {
            self.remove_one(other.tickers[i].as_str());
            proof {
                let m = other.tokens();
                assert(m.take(i + 1) =~= m.take(i as int).push(m[i as int]));
                lemma_to_set_push(m.take(i as int), m[i as int]);
                assert(old(self)@.difference(m.take(i as int).to_set()).remove(m[i as int])
                    =~= old(self)@.difference(m.take(i + 1).to_set()));
            }
            i = i + 1;
        }
        proof {
            assert(other.tokens().take(n as int) =~= other.tokens());
        }
    }

    /// Whether every queried ticker is subscribed (AND semantics).
    pub fn is_subscribed(&self, tickers: &[&str]) -> (r: bool)
        ensures
            r == (forall|k: int| 0 <= k < tickers@.len() ==> self@.contains(#[trigger] tickers@[k]@)),
    {
        let n: usize = tickers.len();
        let mut i: usize = 0;
        while i < n
            invariant
                0 <= i <= n,
                n == tickers@.len(),
                forall|k: int| 0 <= k < i ==> self@.contains(#[trigger] tickers@[k]@),
            decreases n - i,
        {
            if !self.holds_token(tickers[i]) {
                return false;
            }
            i = i + 1;
        }
        return true;
    }

    /// Whether no ticker is subscribed.
    pub fn is_empty(&self) -> (r: bool)
        ensures
            r == (self@ == Set::<Seq<char>>::empty()),
    {
        let r = self.tickers.len() == 0;
        proof {
            if self.tickers@.len() == 0 {
                assert(self@ =~= Set::<Seq<char>>::empty());
            } else {
                assert(self.tokens().contains(self.tokens()[0]));
                assert(self@.contains(self.tokens()[0]));
            }
        }
        r
    }

    /// No stored ticker contains the `;` delimiter, so the canonical text
    /// form parses back to the same set.
    pub open spec fn serializable(&self) -> bool {
        forall|k: int| 0 <= k < self.tokens().len() ==> !(#[trigger] self.tokens()[k]).contains(';')
    }

    /// The canonical text form: tickers joined by `;`, in storage order.
    pub fn to_string(&self) -> (r: String)
        ensures
            r@ == join_semi(self.tokens()),
    {
        let n: usize = self.tickers.len();
        if n == 0 {
            let r = String::new();
            return r;
        }
        let mut r: String = self.tickers[0].clone();
        let mut i: usize = 1;
        proof {
            assert(self.tokens().take(1) =~= seq![self.tokens()[0]]);
            assert(join_semi(self.tokens().take(1)) == self.tokens()[0]);
        }
        while i < n
            invariant
                1 <= i <= n,
                n == self.tickers@.len(),
                r@ == join_semi(self.tokens().take(i as int)),
            decreases n - i,
        {
            r.append(";");
            r.append(self.tickers[i].as_str());
            proof {
                reveal_strlit(";");
                assert(";"@ =~= seq![';']);
                let m = self.tokens();
                assert(m.take(i + 1).drop_last() =~= m.take(i as int));
                assert(m.take(i + 1).last() == m[i as int]);
                assert(join_semi(m.take(i + 1)) == join_semi(m.take(i as int)) + seq![';']
                    + m[i as int]);
            }
            i = i + 1;
        }
        proof {
            assert(self.tokens().take(n as int) =~= self.tokens());
        }
        r
    }

    /// The tickers as an owned list, in storage order.
    pub fn tickers(&self) -> (r: Vec<String>)
        ensures
            r@.map_values(|t: String| t@) == self.tokens(),
    {
        let n: usize = self.tickers.len();
        let mut r: Vec<String> = Vec::new();
        let mut i: usize = 0;
        while i < n
            invariant
                0 <= i <= n,
                n == self.tickers@.len(),
                r@.len() == i,
                forall|k: int| 0 <= k < i ==> #[trigger] r@[k]@ == self.tickers@[k]@,
            decreases n - i,
        {
            let token = self.tickers[i].clone();
            assert(token@ == self.tickers@[i as int]@);
            r.push(token);
            i = i + 1;
        }
        proof {
            assert(r@.map_values(|t: String| t@) =~= self.tokens());
        }
        r
    }
}

impl Default for Subscriptions {
    /// The default subscription set is empty.
    fn default() -> (r: Self)
        ensures
            r.wf(),
            r@ == Set::<Seq<char>>::empty(),
            r.tokens().len() == 0,
    {
        Subscriptions::new()
    }
}

impl Clone for Subscriptions {
    /// A clone holds the same tokens in the same order.
    fn clone(&self) -> (r: Self)
        ensures
            r.tokens() == self.tokens(),
    {
        let n: usize = self.tickers.len();
        let mut tickers: Vec<String> = Vec::new();
        let mut i: usize = 0;
        while i < n
            invariant
                0 <= i <= n,
                n == self.tickers@.len(),
                tickers@.len() == i,
                forall|k: int| 0 <= k < i ==> #[trigger] tickers@[k]@ == self.tickers@[k]@,
            decreases n - i,
        {
            let token = self.tickers[i].clone();
            assert(token@ == self.tickers@[i as int]@);
            tickers.push(token);
            i = i + 1;
        }
        let r = Subscriptions { tickers };
        proof {
            assert(r.tokens() =~= self.tokens());
        }
        r
    }
}

impl PartialEq for Subscriptions {
    /// Two subscription sets are equal when they hold the same set of
    /// tokens, whatever their storage order.
    fn eq(&self, other: &Subscriptions) -> (r: bool) {
        let mut i: usize = 0;
        let n: usize = self.tickers.len();
        while i < n
            invariant
                0 <= i <= n,
                n == self.tickers@.len(),
                forall|k: int| 0 <= k < i ==> other@.contains(#[trigger] self.tokens()[k]),
            decreases n - i,
        {
            if !other.holds_token(self.tickers[i].as_str()) {
                assert(self@.contains(self.tokens()[i as int]));
                return false;
            }
            i = i + 1;
        }
        let m: usize = other.tickers.len();
        let mut j: usize = 0;
        while j < m
            invariant
                0 <= j <= m,
                m == other.tickers@.len(),
                forall|k: int|
                    0 <= k < self.tokens().len() ==> other@.contains(#[trigger] self.tokens()[k]),
                forall|k: int| 0 <= k < j ==> self@.contains(#[trigger] other.tokens()[k]),
            decreases m - j,
        {
            if !self.holds_token(other.tickers[j].as_str()) {
                assert(other@.contains(other.tokens()[j as int]));
                return false;
            }
            j = j + 1;
        }
        proof {
            assert forall|x: Seq<char>| self@.contains(x) implies other@.contains(x) by {
                let k = choose|k: int| 0 <= k < self.tokens().len() && self.tokens()[k] == x;
                assert(other@.contains(self.tokens()[k]));
            };
            assert forall|x: Seq<char>| other@.contains(x) implies self@.contains(x) by {
                let k = choose|k: int| 0 <= k < other.tokens().len() && other.tokens()[k] == x;
                assert(self@.contains(other.tokens()[k]));
            };
            assert(self@ =~= other@);
        }
        return true;
    }
}

impl vstd::std_specs::cmp::PartialEqSpecImpl for Subscriptions {
    open spec fn obeys_eq_spec() -> bool {
        true
    }

    open spec fn eq_spec(&self, other: &Subscriptions) -> bool {
        self@ == other@
    }
}

impl Eq for Subscriptions {}

/// Adding the same tickers twice yields the same subscription set as adding
/// them once: union is idempotent in its second operand.
pub proof fn lemma_add_idempotent(s: Set<Seq<char>>, t: Set<Seq<char>>)
    ensures
        s.union(t).union(t) == s.union(t),
{
    assert(s.union(t).union(t) =~= s.union(t));
}

/// Removing tickers that are already gone changes nothing: difference is
/// idempotent in its second operand.
pub proof fn lemma_remove_noop(s: Set<Seq<char>>, t: Set<Seq<char>>)
    ensures
        s.difference(t).difference(t) == s.difference(t),
{
    assert(s.difference(t).difference(t) =~= s.difference(t));
}

/// Parsing the canonical text form of a nonempty, well-formed, serializable
/// subscription set reproduces the same set of tokens: every token of the
/// split is again valid, and the split's set of tokens is the set itself.
pub proof fn lemma_parse_round_trip(s: Subscriptions)
    requires
        s.wf(),
        s.serializable(),
        s.tokens().len() >= 1,
    ensures
        split_semi(join_semi(s.tokens())) == s.tokens(),
        split_semi(join_semi(s.tokens())).to_set() == s@,
        forall|k: int|
            0 <= k < split_semi(join_semi(s.tokens())).len() ==> valid_token(
                #[trigger] split_semi(join_semi(s.tokens()))[k],
            ),
{
    lemma_split_join(s.tokens());
}

/// Removing an element from a duplicate-free sequence removes exactly that
/// element from its set of elements.
proof fn lemma_to_set_remove_unique<A>(s: Seq<A>, i: int)
    requires
        0 <= i < s.len(),
        forall|a: int, b: int| 0 <= a < b < s.len() ==> #[trigger] s[a] != #[trigger] s[b],
    ensures
        s.remove(i).to_set() == s.to_set().remove(s[i]),
{
    let r = s.remove(i);
    assert forall|y: A| r.to_set().contains(y) implies s.to_set().remove(s[i]).contains(y) by {
        let j = choose|j: int| 0 <= j < r.len() && r[j] == y;
        if j < i {
            assert(s[j] == y);
        } else {
            assert(s[j + 1] == y);
        }
        assert(s.contains(y));
    };
    assert forall|y: A| s.to_set().remove(s[i]).contains(y) implies r.to_set().contains(y) by {
        let j = choose|j: int| 0 <= j < s.len() && s[j] == y;
        if j < i {
            assert(r[j] == y);
        } else {
            assert(j != i);
            assert(r[j - 1] == y);
        }
        assert(r.contains(y));
    };
    assert(r.to_set() =~= s.to_set().remove(s[i]));
}


/// An invalid token among the first `m + 1` tokens of a prefix split stays
/// invalid in the split of the whole sequence: prefixes only ever extend the
/// last token.
proof fn lemma_split_take_prefix_invalid(s: Seq<char>, i: int, m: int)
    requires
        0 <= i <= s.len(),
        0 <= m < split_semi(s.take(i)).len(),
        !valid_token(split_semi(s.take(i))[m]),
    ensures
        exists|k: int|
            0 <= k < split_semi(s).len() && !valid_token(#[trigger] split_semi(s)[k]),
    decreases s.len() - i,
{
    if i == s.len() {
        assert(s.take(i) =~= s);
    } else {
        let pre = s.take(i);
        let sp = split_semi(pre);
        assert(s.take(i + 1).drop_last() =~= pre);
        assert(s.take(i + 1).last() == s[i]);
        let sp2 = split_semi(s.take(i + 1));
        if s[i] == ';' {
            assert(sp2 == sp.push(Seq::<char>::empty()));
            assert(sp2[m] == sp[m]);
        } else {
            assert(sp2 == sp.update(sp.len() - 1, sp.last().push(s[i])));
            if m < sp.len() - 1 {
                assert(sp2[m] == sp[m]);
            } else {
                assert(sp2[m] == sp.last().push(s[i]));
                assert(!valid_token(sp2[m]));
            }
        }
        lemma_split_take_prefix_invalid(s, i + 1, m);
    }
}

} // verus!

//! The maintenance handler: the single consumer of the command channel that
//! owns the write path to the durable store.
//!
//! Commands arrive as plain text, `verb` or `verb:payload`, split at the
//! first `:`; unrecognized verbs read as `Stop`, a fail-safe shutdown.
//! `Update` enqueues an id for a later batched flush; `Ping` services the
//! batch once it reaches the configured threshold; `Save` flushes every
//! known id; `Load` rebuilds the cache from store rows. The handler computes
//! which rows to write — performing the writes, and fetching rows for a
//! load, is the store driver's part.

use vstd::prelude::*;

use crate::cache::Cache;
use crate::clock::now_ts;
use crate::errors::ClientError;
use crate::meta::ClientMeta;
use crate::store::{
    decode_meta, decodes, encode_row, encodes, lemma_store_round_trip, row_decodable, StoreRow,
};
use crate::text::str_eq;

verus! {

/// The verb of a command: everything before the first `:`, or the whole
/// text when there is none.
pub open spec fn verb_of(s: Seq<char>) -> Seq<char>
    decreases s.len(),
{
    if s.len() == 0 {
        s
    } else if s[0] == ':' {
        Seq::<char>::empty()
    } else {
        seq![s[0]] + verb_of(s.drop_first())
    }
}

/// The payload of a command: everything after the first `:`, when one is
/// there.
pub open spec fn payload_of(s: Seq<char>) -> Option<Seq<char>>
    decreases s.len(),
{
    if s.len() == 0 {
        None
    } else if s[0] == ':' {
        Some(s.drop_first())
    } else {
        payload_of(s.drop_first())
    }
}

/// Splitting at the first `:` yields the text's prefix and suffix around it.
proof fn lemma_verb_split(s: Seq<char>, i: int)
    requires
        0 <= i <= s.len(),
        forall|j: int| 0 <= j < i ==> s[j] != ':',
        i < s.len() ==> s[i] == ':',
    ensures
        i < s.len() ==> verb_of(s) == s.take(i) && payload_of(s) == Some(
            s.subrange(i + 1, s.len() as int),
        ),
        i == s.len() ==> verb_of(s) == s && payload_of(s) is None,
    decreases i,
{
    if i == 0 {
        if 0 < s.len() {
            assert(verb_of(s) =~= s.take(0));
            assert(s.drop_first() =~= s.subrange(1, s.len() as int));
        }
    } else {
        let t = s.drop_first();
        assert(forall|j: int| 0 <= j < i - 1 ==> t[j] != ':');
        lemma_verb_split(t, i - 1);
        if i < s.len() {
            assert(verb_of(s) =~= seq![s[0]] + t.take(i - 1));
            assert(seq![s[0]] + t.take(i - 1) =~= s.take(i));
            assert(t.subrange(i, t.len() as int) =~= s.subrange(i + 1, s.len() as int));
        } else {
            assert(verb_of(s) =~= seq![s[0]] + t);
            assert(seq![s[0]] + t =~= s);
        }
    }
}

/// A batch of rows carries an entry for `k`.
pub open spec fn rows_have_id(rs: Seq<StoreRow>, k: u64) -> bool {
    exists|i: int| 0 <= i < rs.len() && (#[trigger] rs[i]).id == k
}

/// No later row of the batch carries the same id: position `i` is the one
/// whose record survives a load, as later rows overwrite earlier ones.
pub open spec fn is_last_row(rs: Seq<StoreRow>, i: int) -> bool {
    forall|j: int| i < j < rs.len() ==> (#[trigger] rs[j]).id != rs[i].id
}

/// The effect of loading `rs` at time `now` over a cache map: every row's id
/// is mapped; the record mapped for an id is the decoding of the last row
/// carrying it; ids no row carries keep their old record, or stay absent.
pub open spec fn load_applied(
    rs: Seq<StoreRow>,
    now: i64,
    oldm: Map<u64, ClientMeta>,
    newm: Map<u64, ClientMeta>,
) -> bool {
    &&& forall|i: int| 0 <= i < rs.len() ==> newm.contains_key((#[trigger] rs[i]).id)
    &&& forall|i: int|
        0 <= i < rs.len() && is_last_row(rs, i) ==> decodes(#[trigger] rs[i], now, newm[rs[i].id])
    &&& forall|k: u64|
        !(#[trigger] rows_have_id(rs, k)) ==> newm.contains_key(k) == oldm.contains_key(k)
            && (oldm.contains_key(k) ==> newm[k] == oldm[k])
}

/// Commands the maintenance handler accepts.
#[derive(Debug)]
pub enum CacheCommand {
    /// Heartbeat; also the trigger for servicing a full batch.
    Ping,
    /// Enqueue the id carried in the payload for a later batched flush.
    Update(String),
    /// Flush every known id to the store now.
    Save,
    /// Rebuild the cache from the store.
    Load,
    /// Save everything, then terminate.
    Stop,
}

impl CacheCommand {
    /// Read a command from its wire form: `verb` or `verb:payload`, split at
    /// the first `:`; any unknown verb reads as `Stop`.
    pub fn parse(msg: &str) -> (r: CacheCommand)
        ensures
            r is Ping <==> verb_of(msg@) == "ping"@,
            r is Save <==> verb_of(msg@) == "save"@,
            r is Load <==> verb_of(msg@) == "load"@,
            (r matches CacheCommand::Update(p) ==> verb_of(msg@) == "update"@ && p@ == (
            match payload_of(msg@) {
                Some(x) => x,
                None => Seq::<char>::empty(),
            })),
            verb_of(msg@) == "update"@ ==> r is Update,
    {
        let n: usize = msg.unicode_len();
        let mut i: usize = 0;
        let mut found = false;
        while i < n && !found
            invariant
                0 <= i <= n,
                n == msg@.len(),
                forall|j: int| 0 <= j < i ==> msg@[j] != ':',
                found ==> i < n && msg@[i as int] == ':',
            decreases n - i + (if found { 0int } else { 1int }),
        {
            if msg.get_char(i) == ':' {
                found = true;
            } else {
                i = i + 1;
            }
        }
        proof {
            lemma_verb_split(msg@, i as int);
            assert(msg@.subrange(0, i as int) =~= msg@.take(i as int));
        }
        let verb = msg.substring_char(0, i);
        assert(verb@ == verb_of(msg@));
        proof {
            reveal_strlit("ping");
            reveal_strlit("update");
            reveal_strlit("save");
            reveal_strlit("load");
            assert("ping"@[0] == 'p');
            assert("update"@[0] == 'u');
            assert("save"@[0] == 's');
            assert("load"@[0] == 'l');
        }
        let payload = if i < n {
            msg.substring_char(i + 1, n).to_owned()
        } else {
            String::new()
        };
        if str_eq(verb, "ping") {
            CacheCommand::Ping
        } else if str_eq(verb, "update") {
            CacheCommand::Update(payload)
        } else if str_eq(verb, "save") {
            CacheCommand::Save
        } else if str_eq(verb, "load") {
            CacheCommand::Load
        } else {
            CacheCommand::Stop
        }
    }
}

/// Handler of the maintenance tasks that keep the cache coherent with the
/// durable store.
#[derive(Debug)]
pub struct CacheHandler {
    update_queue: Vec<u64>,
    queue_service: usize,
}

impl CacheHandler {
    /// Ids awaiting a batched flush, oldest first.
    pub closed spec fn queue_seq(&self) -> Seq<u64> {
        self.update_queue@
    }

    /// Queue length at which a `Ping` services the batch; zero means every
    /// `Ping` flushes.
    pub closed spec fn threshold(&self) -> usize {
        self.queue_service
    }

    /// Build a handler that services its queue once it holds
    /// `queue_service` ids.
    pub fn new(queue_service: usize) -> (r: CacheHandler)
        ensures
            r.queue_seq() == Seq::<u64>::empty(),
            r.threshold() == queue_service,
    {
        CacheHandler { update_queue: Vec::new(), queue_service }
    }

    /// How many ids await a flush.
    pub fn queue_len(&self) -> (r: usize)
        ensures
            r == self.queue_seq().len(),
    {
        self.update_queue.len()
    }

    /// Enqueue an id for the next batched flush.
    pub fn enqueue_update(&mut self, id: u64)
        ensures
            final(self).queue_seq() == old(self).queue_seq().push(id),
            final(self).threshold() == old(self).threshold(),
    {
        self.update_queue.push(id);
    }

    /// Flush the queued ids: the queue is atomically swapped for an empty
    /// one, then each id's current cache record is encoded for writing, in
    /// arrival order. An id with no cache record is a fatal incongruence —
    /// the key list and the map diverged — and aborts the flush; the queue
    /// stays drained either way, as the swap happens first.
    pub fn process_queue(&mut self, cache: &Cache) -> (r: Result<Vec<StoreRow>, ClientError>)
        requires
            cache.wf(),
        ensures
            final(self).queue_seq() == Seq::<u64>::empty(),
            final(self).threshold() == old(self).threshold(),
            r is Ok <==> (forall|i: int|
                0 <= i < old(self).queue_seq().len() ==> cache@.contains_key(
                    #[trigger] old(self).queue_seq()[i],
                )),
            r matches Ok(rows) ==> rows@.len() == old(self).queue_seq().len() && (forall|i: int|
                0 <= i < rows@.len() ==> encodes(
                    old(self).queue_seq()[i],
                    cache@[old(self).queue_seq()[i]],
                    #[trigger] rows@[i],
                )),
            r matches Err(e) ==> e is CacheIncongruence,
    {
        let mut batch: Vec<u64> = Vec::new();
        core::mem::swap(&mut batch, &mut self.update_queue);
        let n: usize = batch.len();
        let mut rows: Vec<StoreRow> = Vec::new();
        let mut i: usize = 0;
        while i < n
            invariant
                0 <= i <= n,
                n == batch@.len(),
                batch@ == old(self).queue_seq(),
                self.queue_seq() == Seq::<u64>::empty(),
                self.threshold() == old(self).threshold(),
                cache.wf(),
                rows@.len() == i,
                forall|j: int| 0 <= j < i ==> cache@.contains_key(#[trigger] batch@[j]),
                forall|j: int|
                    0 <= j < i ==> encodes(batch@[j], cache@[batch@[j]], #[trigger] rows@[j]),
            decreases n - i,
        {
            let id = batch[i];
            match cache.get(id) {
                Some(meta) => {
                    rows.push(encode_row(id, meta));
                },
                None => {
                    return Err(ClientError::CacheIncongruence);
                },
            }
            i = i + 1;
        }
        Ok(rows)
    }

    /// Heartbeat: service the batched queue when it has reached the
    /// configured threshold, else do nothing.
    pub fn ping(&mut self, cache: &Cache) -> (r: Result<Vec<StoreRow>, ClientError>)
        requires
            cache.wf(),
        ensures
            final(self).threshold() == old(self).threshold(),
            old(self).queue_seq().len() < old(self).threshold() ==> {
                &&& final(self).queue_seq() == old(self).queue_seq()
                &&& (r matches Ok(rows) && rows@.len() == 0)
            },
            old(self).queue_seq().len() >= old(self).threshold() ==> {
                &&& final(self).queue_seq() == Seq::<u64>::empty()
                &&& (r is Ok <==> (forall|i: int|
                    0 <= i < old(self).queue_seq().len() ==> cache@.contains_key(
                        #[trigger] old(self).queue_seq()[i],
                    )))
                &&& (r matches Ok(rows) ==> rows@.len() == old(self).queue_seq().len() && (
                forall|i: int|
                    0 <= i < rows@.len() ==> encodes(
                        old(self).queue_seq()[i],
                        cache@[old(self).queue_seq()[i]],
                        #[trigger] rows@[i],
                    )))
                &&& (r matches Err(e) ==> e is CacheIncongruence)
            },
    {
        if self.update_queue.len() >= self.queue_service {
            self.process_queue(cache)
        } else {
            Ok(Vec::new())
        }
    }

    /// Flush the whole key list: every listed id's current record is encoded
    /// for writing, in list order, duplicates included. A listed id with no
    /// cache record is a fatal incongruence and aborts the pass.
    pub fn save_cache(&self, cache: &Cache) -> (r: Result<Vec<StoreRow>, ClientError>)
        requires
            cache.wf(),
        ensures
            r is Ok <==> (forall|i: int|
                0 <= i < cache.clients_seq().len() ==> cache@.contains_key(
                    #[trigger] cache.clients_seq()[i],
                )),
            r matches Ok(rows) ==> rows@.len() == cache.clients_seq().len() && (forall|i: int|
                0 <= i < rows@.len() ==> encodes(
                    cache.clients_seq()[i],
                    cache@[cache.clients_seq()[i]],
                    #[trigger] rows@[i],
                )),
            r matches Err(e) ==> e is CacheIncongruence,
    {
        let clients = cache.client_ids();
        let n: usize = clients.len();
        let mut rows: Vec<StoreRow> = Vec::new();
        let mut i: usize = 0;
        while i < n
            invariant
                0 <= i <= n,
                n == cache.clients_seq().len(),
                clients@ == cache.clients_seq(),
                cache.wf(),
                rows@.len() == i,
                forall|j: int| 0 <= j < i ==> cache@.contains_key(#[trigger] clients@[j]),
                forall|j: int|
                    0 <= j < i ==> encodes(clients@[j], cache@[clients@[j]], #[trigger] rows@[j]),
            decreases n - i,
        {
            let id = clients[i];
            match cache.get(id) {
                Some(meta) => {
                    rows.push(encode_row(id, meta));
                },
                None => {
                    return Err(ClientError::CacheIncongruence);
                },
            }
            i = i + 1;
        }
        Ok(rows)
    }

    /// Rebuild the cache from rows read out of the store at time `now`:
    /// each row's id becomes known and its decoded record enters the cache,
    /// stamped freshly reconciled; when an id occurs twice, the later row
    /// wins. A row whose subscription text is malformed surfaces as a store
    /// error and aborts the pass; rows already applied stay applied.
    pub fn load_cache_at(&self, cache: &mut Cache, rows: &Vec<StoreRow>, now: i64) -> (r: Result<
        (),
        ClientError,
    >)
        requires
            old(cache).wf(),
        ensures
            final(cache).wf(),
            r is Ok <==> (forall|i: int| 0 <= i < rows@.len() ==> row_decodable(#[trigger] rows@[i])),
            r matches Err(e) ==> e is UnknownDbError,
            r is Ok ==> load_applied(rows@, now, old(cache)@, final(cache)@),
            r is Ok ==> final(cache).clients_seq().take(old(cache).clients_seq().len() as int)
                == old(cache).clients_seq(),
    {
        let n: usize = rows.len();
        let mut i: usize = 0;
        while i < n
            invariant
                0 <= i <= n,
                n == rows@.len(),
                cache.wf(),
                forall|j: int| 0 <= j < i ==> row_decodable(#[trigger] rows@[j]),
                load_applied(rows@.take(i as int), now, old(cache)@, cache@),
                cache.clients_seq().take(old(cache).clients_seq().len() as int)
                    == old(cache).clients_seq(),
                cache.clients_seq().len() >= old(cache).clients_seq().len(),
            decreases n - i,
        {
            let ghost pre = rows@.take(i as int);
            let ghost prem = cache@;
            let meta = match decode_meta(&rows[i], now) {
                Ok(m) => m,
                Err(e) => {
                    return Err(e);
                },
            };
            let id = rows[i].id;
            cache.insert(id, meta);
            proof {
                let cur = rows@.take(i + 1);
                assert(cur.drop_last() =~= pre);
                assert(cur.last() == rows@[i as int]);
                assert(cache.clients_seq().take(old(cache).clients_seq().len() as int)
                    =~= old(cache).clients_seq());
                assert(load_applied(cur, now, old(cache)@, cache@)) by {
                    assert(forall|j: int|
                        0 <= j < cur.len() ==> cur[j] == rows@[j]);
                    // every id of the prefix is mapped
                    assert forall|j: int| 0 <= j < cur.len() implies cache@.contains_key(
                        (#[trigger] cur[j]).id,
                    ) by {
                        if j < i {
                            assert(prem.contains_key(rows@[j].id));
                        }
                    }
                    // the last row of each id decodes to the mapped record
                    assert forall|j: int| 0 <= j < cur.len() && is_last_row(cur, j) implies decodes(
                        #[trigger] cur[j],
                        now,
                        cache@[cur[j].id],
                    ) by {
                        if j == i {
                            assert(cache@[id] == meta);
                        } else {
                            assert(cur[i as int].id != cur[j].id);
                            assert(is_last_row(pre, j)) by {
                                assert(forall|j2: int|
                                    j < j2 < pre.len() ==> pre[j2] == cur[j2]);
                            }
                            assert(decodes(pre[j], now, prem[pre[j].id]));
                            assert(cache@[cur[j].id] == prem[pre[j].id]);
                        }
                    }
                    // untouched ids keep their old record
                    assert forall|k: u64| !(#[trigger] rows_have_id(cur, k)) implies
                        cache@.contains_key(k) == old(cache)@.contains_key(k) && (old(
                        cache,
                    )@.contains_key(k) ==> cache@[k] == old(cache)@[k]) by {
                        assert(!rows_have_id(pre, k)) by {
                            if rows_have_id(pre, k) {
                                let j = choose|j: int|
                                    0 <= j < pre.len() && (#[trigger] pre[j]).id == k;
                                assert(cur[j].id == k);
                            }
                        }
                        assert(k != id) by {
                            assert(cur[i as int].id == id);
                        }
                    }
                }
            }
            i = i + 1;
        }
        proof {
            assert(rows@.take(n as int) =~= rows@);
        }
        Ok(())
    }

    /// Rebuild the cache from store rows at the present moment; see
    /// [`Self::load_cache_at`], which carries the full contract for every
    /// value of the clock.
    pub fn load_cache(&self, cache: &mut Cache, rows: &Vec<StoreRow>) -> (r: Result<
        (),
        ClientError,
    >)
        requires
            old(cache).wf(),
        ensures
            final(cache).wf(),
            r is Ok <==> (forall|i: int| 0 <= i < rows@.len() ==> row_decodable(#[trigger] rows@[i])),
            r matches Err(e) ==> e is UnknownDbError,
            r is Ok ==> exists|t: i64| load_applied(rows@, t, old(cache)@, final(cache)@),
            r is Ok ==> final(cache).clients_seq().take(old(cache).clients_seq().len() as int)
                == old(cache).clients_seq(),
    {
        let now = now_ts();
        let r = self.load_cache_at(cache, rows, now);
        proof {
            if r is Ok {
                assert(load_applied(rows@, now, old(cache)@, cache@));
            }
        }
        r
    }
}


/// Among the rows carrying `k` there is a last one.
proof fn lemma_exists_last_row(rs: Seq<StoreRow>, k: u64)
    requires
        rows_have_id(rs, k),
    ensures
        exists|j: int| 0 <= j < rs.len() && (#[trigger] rs[j]).id == k && is_last_row(rs, j),
    decreases rs.len(),
{
    if rs.last().id == k {
        assert(rs[rs.len() - 1].id == k && is_last_row(rs, rs.len() - 1));
    } else {
        assert(rows_have_id(rs.drop_last(), k)) by {
            let i = choose|i: int| 0 <= i < rs.len() && (#[trigger] rs[i]).id == k;
            assert(rs.drop_last()[i] == rs[i]);
        }
        lemma_exists_last_row(rs.drop_last(), k);
        let j = choose|j: int|
            0 <= j < rs.drop_last().len() && (#[trigger] rs.drop_last()[j]).id == k && is_last_row(
                rs.drop_last(),
                j,
            );
        assert(rs[j].id == k);
        assert(is_last_row(rs, j)) by {
            assert(forall|j2: int| j < j2 < rs.len() - 1 ==> rs[j2] == rs.drop_last()[j2]);
        }
    }
}

/// Saving the whole key list and loading the written rows into an empty
/// cache reproduces the same clients: every listed id is known again, and
/// its record describes the same client state - registered flag, access
/// tier, subscriptions and creation stamp - per the reconciliation
/// equality. `ids`, `rows` and `loaded` are what the save pass lists, what
/// it writes, and what the load pass builds.
pub proof fn lemma_save_load_symmetry(
    cachem: Map<u64, ClientMeta>,
    ids: Seq<u64>,
    rows: Seq<StoreRow>,
    now: i64,
    loaded: Map<u64, ClientMeta>,
)
    requires
        rows.len() == ids.len(),
        forall|i: int| 0 <= i < ids.len() ==> cachem.contains_key(#[trigger] ids[i]),
        forall|i: int|
            0 <= i < rows.len() ==> encodes(ids[i], cachem[ids[i]], #[trigger] rows[i]),
        forall|i: int|
            0 <= i < ids.len() ==> (#[trigger] cachem[ids[i]]).wf() && cachem[ids[i]].serializable(),
        load_applied(rows, now, Map::<u64, ClientMeta>::empty(), loaded),
    ensures
        forall|i: int| 0 <= i < ids.len() ==> loaded.contains_key(#[trigger] ids[i]),
        forall|i: int|
            0 <= i < ids.len() ==> crate::meta::same_entity(
                loaded[#[trigger] ids[i]],
                cachem[ids[i]],
            ),
        forall|k: u64| #[trigger] loaded.contains_key(k) ==> ids.contains(k),
{
    assert forall|i: int| 0 <= i < ids.len() implies loaded.contains_key(#[trigger] ids[i])
        && crate::meta::same_entity(loaded[ids[i]], cachem[ids[i]]) by {
        let k = ids[i];
        assert(rows[i].id == k);
        assert(rows_have_id(rows, k));
        lemma_exists_last_row(rows, k);
        let j = choose|j: int|
            0 <= j < rows.len() && (#[trigger] rows[j]).id == k && is_last_row(rows, j);
        assert(loaded.contains_key(k));
        assert(decodes(rows[j], now, loaded[k]));
        assert(ids[j] == k);
        assert(encodes(k, cachem[k], rows[j]));
        lemma_store_round_trip(k, cachem[k], rows[j], now, loaded[k]);
    };
    assert forall|k: u64| #[trigger] loaded.contains_key(k) implies ids.contains(k) by {
        if !rows_have_id(rows, k) {
            assert(loaded.contains_key(k) == Map::<u64, ClientMeta>::empty().contains_key(k));
        }
        let i = choose|i: int| 0 <= i < rows.len() && (#[trigger] rows[i]).id == k;
        assert(ids[i] == k);
    };
}

/// Each id of a drained batch of distinct ids is flushed exactly once: the
/// row written for position `i` is the one and only row carrying that id.
pub proof fn lemma_queue_drain_once(ids: Seq<u64>, rows: Seq<StoreRow>)
    requires
        rows.len() == ids.len(),
        forall|i: int| 0 <= i < rows.len() ==> (#[trigger] rows[i]).id == ids[i],
        forall|i: int, j: int| 0 <= i < j < ids.len() ==> #[trigger] ids[i] != #[trigger] ids[j],
    ensures
        forall|i: int, j: int|
            0 <= i < ids.len() && 0 <= j < rows.len() ==> ((#[trigger] rows[j]).id == #[trigger] ids[i]
                <==> i == j),
{
    assert forall|i: int, j: int|
        0 <= i < ids.len() && 0 <= j < rows.len() && rows[j].id == ids[i] implies i == j by {
        if i < j {
            assert(ids[i] != ids[j]);
        } else if j < i {
            assert(ids[j] != ids[i]);
        }
    };
}

} // verus!

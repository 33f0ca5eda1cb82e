//! Tests of the maintenance handler: command parsing, the batched queue,
//! and the save/load passes.

use shortbot::store::{decode_meta, encode_row};
use shortbot::text::parse_u64;
use shortbot::{
    BotAccess, Cache, CacheCommand, CacheHandler, ClientError, ClientHandler, ClientMeta,
    Subscriptions,
};

/// Drive one wire message through the maintenance handler, as the consumer
/// loop does: parse, dispatch, and return the rows a store driver would
/// write. `false` in the first slot means the handler asked to terminate.
fn step(
    handler: &mut CacheHandler,
    cache: &mut Cache,
    msg: &str,
) -> (bool, Vec<shortbot::StoreRow>) {
    match CacheCommand::parse(msg) {
        CacheCommand::Ping => (true, handler.ping(cache).expect("ping failed")),
        CacheCommand::Update(payload) => {
            let id = parse_u64(payload.as_str()).expect("malformed update payload");
            handler.enqueue_update(id);
            (true, Vec::new())
        }
        CacheCommand::Save => (true, handler.save_cache(cache).expect("save failed")),
        CacheCommand::Load => (true, Vec::new()),
        CacheCommand::Stop => (false, handler.save_cache(cache).expect("final save failed")),
    }
}

#[test]
fn command_wire_format() {
    assert!(matches!(CacheCommand::parse("ping"), CacheCommand::Ping));
    assert!(matches!(CacheCommand::parse("save"), CacheCommand::Save));
    assert!(matches!(CacheCommand::parse("load"), CacheCommand::Load));
    assert!(matches!(CacheCommand::parse("stop"), CacheCommand::Stop));
    // anything unrecognized reads as stop: fail-safe shutdown
    assert!(matches!(CacheCommand::parse(""), CacheCommand::Stop));
    assert!(matches!(CacheCommand::parse("reboot"), CacheCommand::Stop));
    assert!(matches!(CacheCommand::parse("Ping"), CacheCommand::Stop));

    match CacheCommand::parse("update:42") {
        CacheCommand::Update(p) => assert_eq!(p, "42"),
        _ => panic!("expected an update command"),
    }
    // the split happens at the first colon; the payload is passed raw
    match CacheCommand::parse("update:1:2") {
        CacheCommand::Update(p) => assert_eq!(p, "1:2"),
        _ => panic!("expected an update command"),
    }
    match CacheCommand::parse("update:") {
        CacheCommand::Update(p) => assert_eq!(p, ""),
        _ => panic!("expected an update command"),
    }
}

#[test]
fn decimal_payloads() {
    assert_eq!(parse_u64("0"), Some(0));
    assert_eq!(parse_u64("42"), Some(42));
    assert_eq!(parse_u64("18446744073709551615"), Some(u64::MAX));
    assert_eq!(parse_u64("18446744073709551616"), None);
    assert_eq!(parse_u64(""), None);
    assert_eq!(parse_u64("4x2"), None);
    assert_eq!(parse_u64("-1"), None);
}

/// An encoded record decodes back to the same client state.
#[test]
fn update_db_entry() {
    let client_id: u64 = 42;
    let test_meta = ClientMeta {
        registered: true,
        access_level: BotAccess::Limited,
        subscriptions: Some(
            Subscriptions::from_tickers(["SAN"].as_slice()).expect("Failed to build subscriptions"),
        ),
        last_access: Some(1_700_000_000),
        last_update: Some(1_700_000_100),
        created_at: None,
    };

    let row = encode_row(client_id, &test_meta);
    assert_eq!(row.id, client_id);
    assert_eq!(row.access, "limited");

    let entry = decode_meta(&row, 1_700_000_200).expect("Failed to retrieve DB entry");
    assert!(entry.matches_entity(&test_meta));
}

/// Registered clients survive a save and a load into a fresh cache.
#[test]
fn load() {
    let mut cache = Cache::with_default_shards();
    let mut client_handler = ClientHandler::new(0);
    let cache_handler = CacheHandler::new(0);
    let client_ids: Vec<u64> = (1..=50u64).map(|i| i * 7 + 1).collect();

    for id in client_ids.iter() {
        client_handler
            .register_client(&mut cache, *id)
            .expect("Failed to register a client");
    }

    let rows = cache_handler
        .save_cache(&cache)
        .expect("Failed to save the cache");

    // Now, load it into a fresh cache.
    let mut cache_test = Cache::with_default_shards();
    let handler_test = CacheHandler::new(0);
    handler_test
        .load_cache(&mut cache_test, &rows)
        .expect("Failed to load the cache");

    // Both caches must know the same clients.
    assert_eq!(cache.client_ids().len(), cache_test.client_ids().len());
    for id in client_ids.iter() {
        let a = cache.get(*id).expect("missing in the source cache");
        let b = cache_test.get(*id).expect("missing in the loaded cache");
        assert!(a.matches_entity(b));
    }
}

/// The update/ping/stop flow drains the queue through the wire protocol.
#[test]
fn update() {
    let mut cache = Cache::with_default_shards();
    let mut client_handler = ClientHandler::new(0);
    let mut cache_handler = CacheHandler::new(0);
    let client_ids: Vec<u64> = (1..=10u64).map(|i| i * 13 + 5).collect();

    for id in client_ids.iter() {
        client_handler
            .register_client(&mut cache, *id)
            .expect("Failed to register the client");
        let msg = format!("update:{id}");
        let (go, rows) = step(&mut cache_handler, &mut cache, msg.as_str());
        assert!(go);
        assert!(rows.is_empty());
    }

    let (go, rows) = step(&mut cache_handler, &mut cache, "ping");
    assert!(go);
    assert_eq!(rows.len(), client_ids.len());
    for (row, id) in rows.iter().zip(client_ids.iter()) {
        assert_eq!(row.id, *id);
    }

    let (go, _) = step(&mut cache_handler, &mut cache, "stop");
    assert!(!go);
}

/// A ping under the service threshold leaves the queue alone.
#[test]
fn dummy_start() {
    let mut cache = Cache::with_default_shards();
    let mut cache_handler = CacheHandler::new(10);

    let (go, rows) = step(&mut cache_handler, &mut cache, "ping");
    assert!(go);
    assert!(rows.is_empty());

    let (go, rows) = step(&mut cache_handler, &mut cache, "stop");
    assert!(!go);
    assert!(rows.is_empty());
}

/// Queue drain safety: N distinct enqueued ids flush exactly once each and
/// leave the queue empty.
#[test]
fn queue_drain_exactly_once() {
    let mut cache = Cache::with_default_shards();
    let mut client_handler = ClientHandler::new(0);
    let mut cache_handler = CacheHandler::new(0);
    let ids: Vec<u64> = vec![3, 1, 4, 15, 9, 26];

    for id in ids.iter() {
        client_handler
            .register_client(&mut cache, *id)
            .expect("Failed to register the client");
        cache_handler.enqueue_update(*id);
    }
    assert_eq!(cache_handler.queue_len(), ids.len());

    let rows = cache_handler
        .process_queue(&cache)
        .expect("Failed to process the queue");
    assert_eq!(cache_handler.queue_len(), 0);
    for id in ids.iter() {
        assert_eq!(rows.iter().filter(|r| r.id == *id).count(), 1);
    }

    // a second drain has nothing left to flush
    let rows = cache_handler
        .process_queue(&cache)
        .expect("Failed to process the queue");
    assert!(rows.is_empty());
}

/// An id queued without a cache record is a fatal incongruence, and the
/// queue stays drained.
#[test]
fn queue_incongruence() {
    let cache = Cache::with_default_shards();
    let mut cache_handler = CacheHandler::new(0);
    cache_handler.enqueue_update(999);

    let r = cache_handler.process_queue(&cache);
    assert!(matches!(r, Err(ClientError::CacheIncongruence)));
    assert_eq!(cache_handler.queue_len(), 0);
}

/// Save/Load symmetry: after a save and a fresh load, the set of known ids
/// and their entity fields match exactly.
#[test]
fn save_load_symmetry() {
    let mut cache = Cache::with_default_shards();
    let mut client_handler = ClientHandler::new(0);
    let cache_handler = CacheHandler::new(0);

    let ids: Vec<u64> = vec![10, 20, 30];
    for id in ids.iter() {
        client_handler
            .register_client(&mut cache, *id)
            .expect("Failed to register client");
    }
    client_handler
        .add_subscriptions(
            &mut cache,
            20,
            Subscriptions::from_tickers(&["SAN", "REP"]).expect("Failed to build subscriptions"),
        )
        .expect("Failed to add subscriptions");
    client_handler
        .modify_access_level(&mut cache, 30, BotAccess::Admin)
        .expect("Failed to modify access");

    let rows = cache_handler
        .save_cache(&cache)
        .expect("Failed to save the cache");

    let mut loaded = Cache::with_default_shards();
    cache_handler
        .load_cache(&mut loaded, &rows)
        .expect("Failed to load the cache");

    for id in ids.iter() {
        let a = cache.get(*id).expect("missing before the save");
        let b = loaded.get(*id).expect("missing after the load");
        assert!(b.matches_entity(a));
    }
    // and nothing beyond the known ids appeared
    assert_eq!(loaded.client_ids().len(), ids.len());
}

/// A malformed subscription text in a loaded row surfaces as a store error.
#[test]
fn load_rejects_malformed_rows() {
    let mut cache = Cache::with_default_shards();
    let cache_handler = CacheHandler::new(0);
    let row = shortbot::StoreRow {
        id: 1,
        registered: true,
        access: "free".to_owned(),
        subscriptions: Some("TOOLONG".to_owned()),
        last_access: None,
        created_at: None,
    };
    let r = cache_handler.load_cache(&mut cache, &vec![row]);
    assert!(matches!(r, Err(ClientError::UnknownDbError(_))));
}

/// Unknown access text in a loaded row falls back to the lowest tier.
#[test]
fn load_tolerates_unknown_access() {
    let mut cache = Cache::with_default_shards();
    let cache_handler = CacheHandler::new(0);
    let row = shortbot::StoreRow {
        id: 5,
        registered: true,
        access: "platinum".to_owned(),
        subscriptions: None,
        last_access: None,
        created_at: Some(1_700_000_000),
    };
    cache_handler
        .load_cache(&mut cache, &vec![row])
        .expect("Failed to load the cache");
    let meta = cache.get(5).expect("missing after the load");
    assert_eq!(meta.access_level, BotAccess::Free);
    assert!(meta.last_update.is_some());
}

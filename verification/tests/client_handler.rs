//! Tests of the metadata handler against the cache.

use shortbot::{BotAccess, Cache, ClientError, ClientHandler, StoreCmd, Subscriptions};

fn fresh() -> (Cache, ClientHandler) {
    (Cache::with_default_shards(), ClientHandler::new(0))
}

/// TC: Insert a subscription for a registered client, twice, then more.
#[test]
fn client_handler_add() {
    let (mut cache, mut handler) = fresh();
    let client_id: u64 = 42;

    // Seed a client into the cache.
    handler
        .register_client(&mut cache, client_id)
        .expect("Failed to seed a client");

    // First: insert a new subscription.
    let test_subscriptions =
        Subscriptions::from_tickers(["SAN"].as_ref()).expect("Failed to create a subscriptions object");
    handler
        .add_subscriptions(&mut cache, client_id, test_subscriptions.clone())
        .expect("Failed to add new subscriptions");

    let metadata = cache
        .get(client_id)
        .expect("Failed to retrieve cached client")
        .clone();
    assert!(metadata.subscriptions.unwrap() == test_subscriptions);

    // Second: insert the same subscription again.
    handler
        .add_subscriptions(&mut cache, client_id, test_subscriptions.clone())
        .expect("Failed to add new subscriptions");

    let metadata = cache
        .get(client_id)
        .expect("Failed to retrieve cached client")
        .clone();
    assert!(metadata.subscriptions.unwrap() == test_subscriptions);

    // Third: insert an array of subscriptions this time.
    let mut test_subscriptions = Subscriptions::from_tickers(["BBVA", "SAB"].as_ref())
        .expect("Failed to create a subscriptions object");
    handler
        .add_subscriptions(&mut cache, client_id, test_subscriptions.clone())
        .expect("Failed to add new subscriptions");

    let cache_subscriptions = cache
        .get(client_id)
        .expect("Failed to retrieve cached client")
        .clone()
        .subscriptions
        .unwrap();
    // SAN was added in the previous step.
    test_subscriptions.add_subscriptions(&["SAN"]);

    assert!(cache_subscriptions == test_subscriptions);
}

/// TC: Remove subscriptions: one that exists, one that does not, then
/// several at once.
#[test]
fn client_handler_remove() {
    let (mut cache, mut handler) = fresh();
    let client_id: u64 = 42;

    handler
        .register_client(&mut cache, client_id)
        .expect("Failed to seed a client");

    let mut test_subscriptions = Subscriptions::from_tickers(["SAN", "ENG", "REP", "IAG"].as_ref())
        .expect("Failed to create a subscriptions object");
    handler
        .add_subscriptions(&mut cache, client_id, test_subscriptions.clone())
        .expect("Failed to add new subscriptions");

    // Remove an existing subscription.
    let to_remove =
        Subscriptions::from_tickers(["ENG"].as_ref()).expect("Failed to create a subscriptions object");
    test_subscriptions.remove_all(&to_remove);

    handler
        .remove_subscriptions(&mut cache, client_id, to_remove.clone())
        .expect("Failed to remove subscriptions");

    let cache_subscriptions = cache
        .get(client_id)
        .expect("Failed to retrieve cached client")
        .clone()
        .subscriptions
        .unwrap();
    assert!(cache_subscriptions == test_subscriptions);

    // Again, but this time the subscription is not there.
    handler
        .remove_subscriptions(&mut cache, client_id, to_remove)
        .expect("Failed to remove subscriptions");

    let cache_subscriptions = cache
        .get(client_id)
        .expect("Failed to retrieve cached client")
        .clone()
        .subscriptions
        .unwrap();
    assert!(cache_subscriptions == test_subscriptions);

    // And multiple subscriptions at once.
    let to_remove = Subscriptions::from_tickers(["REP", "IAG"].as_ref())
        .expect("Failed to create a subscriptions object");
    test_subscriptions.remove_all(&to_remove);

    handler
        .remove_subscriptions(&mut cache, client_id, to_remove.clone())
        .expect("Failed to remove subscriptions");

    let cache_subscriptions = cache
        .get(client_id)
        .expect("Failed to retrieve cached client")
        .clone()
        .subscriptions
        .unwrap();
    assert!(cache_subscriptions == test_subscriptions);
}

/// TC: Retrieve the subscriptions of a client, then wipe them and observe
/// the absent field.
#[test]
fn client_handler_retrieve() {
    let (mut cache, mut handler) = fresh();
    let client_id: u64 = 42;

    handler
        .register_client(&mut cache, client_id)
        .expect("Failed to seed a client");

    let test_subscriptions = Subscriptions::from_tickers(["SAN", "REP"].as_ref())
        .expect("Failed to create a subscriptions object");
    handler
        .add_subscriptions(&mut cache, client_id, test_subscriptions.clone())
        .expect("Failed to add new subscriptions");

    let subscriptions = handler
        .subscriptions(&cache, client_id)
        .expect("Failed to retrieve the subscriptions of the client");
    assert!(subscriptions.clone().unwrap() == test_subscriptions);

    // Wipe those subscriptions and check that None comes back: emptying
    // collapses to an absent field.
    handler
        .remove_subscriptions(&mut cache, client_id, subscriptions.unwrap())
        .expect("Failed to remove the existing subscriptions");

    let subscriptions = handler
        .subscriptions(&cache, client_id)
        .expect("Failed to retrieve the subscriptions of the client");
    assert!(subscriptions.is_none());
}

/// TC: The access level of an unregistered user is the free tier.
#[test]
fn client_handler_access_level_tc1() {
    let (cache, handler) = fresh();
    let client_id: u64 = 42;
    let expected_access_level = BotAccess::Free;

    let access_test = handler
        .access_level(&cache, client_id)
        .expect("Error trying to get access level");
    assert_eq!(access_test, expected_access_level, "Access level should be free");
}

/// TC: The stored access level of registered users is retrieved.
#[test]
fn client_handler_access_level_tc2() {
    let (mut cache, mut handler) = fresh();
    let access_level_table = vec![
        (1001u64, BotAccess::Free),
        (1002u64, BotAccess::Limited),
        (1003u64, BotAccess::Unlimited),
        (1004u64, BotAccess::Admin),
    ];

    for (id, ba) in access_level_table.iter() {
        handler
            .register_client(&mut cache, *id)
            .expect("Failed to register client");
        handler
            .modify_access_level(&mut cache, *id, *ba)
            .expect("Failed to modify access");
    }

    for (id, access) in access_level_table.iter() {
        assert_eq!(
            *access,
            handler
                .access_level(&cache, *id)
                .expect("Error trying to get access level")
        );
    }
}

/// TC1: Registering a new client writes a registered row through to the
/// store and seeds the cache.
#[test]
fn register_tc1() {
    let (mut cache, mut handler) = fresh();
    let client_id: u64 = 42;

    handler
        .register_client(&mut cache, client_id)
        .expect("Failed to register a new client");

    let meta = cache
        .get(client_id)
        .expect("Failed to retrieve registered client");
    assert_eq!(meta.registered, true);
    assert_eq!(meta.access_level, BotAccess::Free);
    assert!(meta.subscriptions.is_none());
    assert!(meta.last_access.is_some());

    let writes = handler.take_store_writes();
    assert_eq!(writes.len(), 1);
    match &writes[0] {
        StoreCmd::Insert(row) => {
            assert_eq!(row.id, client_id);
            assert_eq!(row.registered, true);
            assert_eq!(row.access, "free");
            assert!(row.subscriptions.is_none());
        }
        _ => panic!("expected a fresh insert"),
    }
}

/// TC2: Registering an existing client twice leaves a single store insert.
#[test]
fn register_tc2() {
    let (mut cache, mut handler) = fresh();
    let client_id: u64 = 42;

    handler
        .register_client(&mut cache, client_id)
        .expect("Failed to register a new client");
    handler
        .register_client(&mut cache, client_id)
        .expect("Failed to register a new client");

    let writes = handler.take_store_writes();
    let inserts = writes
        .iter()
        .filter(|w| matches!(w, StoreCmd::Insert(_)))
        .count();
    assert_eq!(inserts, 1);
}

/// TC1: A new client id is reported unregistered, and repeating the check
/// gives the same answer without a second store insert.
#[test]
fn is_registered_tc1() {
    let (mut cache, mut handler) = fresh();
    let client_id: u64 = 42;

    assert_eq!(
        false,
        handler
            .is_registered(&mut cache, client_id)
            .expect("Failed to check ID")
    );
    assert_eq!(
        false,
        handler
            .is_registered(&mut cache, client_id)
            .expect("Failed to check ID")
    );
}

/// Lazy registration: the first check creates the record, the key, the
/// store insert and the notification exactly once.
#[test]
fn lazy_registration_side_effect() {
    let (mut cache, mut handler) = fresh();
    let client_id: u64 = 7;

    assert!(cache.get(client_id).is_none());
    let first = handler
        .is_registered(&mut cache, client_id)
        .expect("Failed to check ID");
    assert!(!first);
    assert!(cache.get(client_id).is_some());
    assert_eq!(cache.client_ids().as_slice(), &[client_id]);

    let second = handler
        .is_registered(&mut cache, client_id)
        .expect("Failed to check ID");
    assert!(!second);

    // one store insert, one notification: the second check re-triggered
    // neither
    let writes = handler.take_store_writes();
    assert_eq!(writes.len(), 1);
    assert!(matches!(writes[0], StoreCmd::Insert(_)));
    assert_eq!(handler.take_outbox(), vec![client_id]);
    assert_eq!(cache.client_ids().len(), 1);
}

/// The access default performs no lazy registration: the cache stays
/// untouched by the read.
#[test]
fn access_default_no_side_effect() {
    let (mut cache, mut handler) = fresh();
    let client_id: u64 = 9;

    let access = handler
        .access_level(&cache, client_id)
        .expect("Error trying to get access level");
    assert_eq!(access, BotAccess::Free);

    // still absent: the subscriptions read reports not-registered
    assert!(cache.get(client_id).is_none());
    assert_eq!(cache.client_ids().len(), 0);
    let r = handler.subscriptions(&cache, client_id);
    assert!(matches!(r, Err(ClientError::ClientNotRegistered)));
}

/// Mutations of unregistered clients fail with the not-registered error.
#[test]
fn unregistered_mutations_fail() {
    let (mut cache, mut handler) = fresh();
    let subs = Subscriptions::from_tickers(&["SAN"]).expect("Failed to build");

    assert!(matches!(
        handler.add_subscriptions(&mut cache, 1, subs.clone()),
        Err(ClientError::ClientNotRegistered)
    ));
    assert!(matches!(
        handler.remove_subscriptions(&mut cache, 1, subs),
        Err(ClientError::ClientNotRegistered)
    ));
    assert!(matches!(
        handler.modify_access_level(&mut cache, 1, BotAccess::Admin),
        Err(ClientError::ClientNotRegistered)
    ));
    assert!(matches!(
        handler.refresh_access(&cache, 1),
        Err(ClientError::ClientNotRegistered)
    ));
}

/// The refresh interval is clamped up to the hard floor.
#[test]
fn refresh_floor_clamped() {
    let handler = ClientHandler::new(5);
    let (mut cache, _) = fresh();
    let client_id: u64 = 11;

    // a registered record was just reconciled: not stale under any clamped
    // interval, so no notification goes out
    let mut handler = handler;
    handler
        .register_client(&mut cache, client_id)
        .expect("Failed to register client");
    handler.take_outbox();
    handler
        .refresh_access(&cache, client_id)
        .expect("Failed to refresh");
    assert!(handler.take_outbox().is_empty());
}

/// A record that was never reconciled counts as stale and triggers a
/// notification on refresh.
#[test]
fn refresh_never_reconciled() {
    let (mut cache, mut handler) = fresh();
    let client_id: u64 = 12;

    // lazy soft-registration leaves last_update absent
    handler
        .is_registered(&mut cache, client_id)
        .expect("Failed to check ID");
    handler.take_outbox();

    handler
        .refresh_access(&cache, client_id)
        .expect("Failed to refresh");
    assert_eq!(handler.take_outbox(), vec![client_id]);
}

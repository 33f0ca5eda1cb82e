//! Tests of the smaller pieces: access tiers, user records, configuration,
//! and messages.

use shortbot::{error_message, BotAccess, UserConfig, UserMeta, ValkeySettings};

#[test]
fn access_text_round_trip() {
    let tiers = [
        BotAccess::Free,
        BotAccess::Limited,
        BotAccess::Unlimited,
        BotAccess::Admin,
    ];
    let names = ["free", "limited", "unlimited", "admin"];
    for (tier, name) in tiers.iter().zip(names.iter()) {
        assert_eq!(tier.as_text(), *name);
        assert_eq!(BotAccess::from_text(name), Some(*tier));
    }
    assert_eq!(BotAccess::from_text("platinum"), None);
    assert_eq!(BotAccess::from_text_or_free("platinum"), BotAccess::Free);
    assert_eq!(BotAccess::default(), BotAccess::Free);
}

#[test]
fn user_meta_lifecycle() {
    let mut meta = UserMeta::new(1_700_000_000);
    assert_eq!(meta.access_level, BotAccess::Free);
    assert!(meta.subscriptions.is_none());
    assert_eq!(meta.created_at, 1_700_000_000);

    let subs = shortbot::Subscriptions::from_tickers(&["SAN"]).expect("Failed to build");
    meta.add_subscriptions(subs.clone());
    assert!(meta.subscriptions.is_some());

    // removing everything collapses the field back to absent
    meta.remove_subscriptions(&subs);
    assert!(meta.subscriptions.is_none());
}

#[test]
fn user_config_default() {
    let cfg = UserConfig::default();
    assert!(cfg.show_broadcast_msg);
    assert!(cfg.prefer_tickers);
    assert_eq!(cfg, UserConfig { show_broadcast_msg: true, prefer_tickers: true });
}

#[test]
fn valkey_timeouts_default() {
    let s = ValkeySettings {
        valkey_host: "127.0.0.1".to_owned(),
        valkey_port: 6379,
        valkey_conn_timeout: None,
        valkey_resp_timeout: Some(3),
        valkey_hash_id: None,
    };
    assert_eq!(s.conn_timeout_secs(), 1);
    assert_eq!(s.resp_timeout_secs(), 3);
}

#[test]
fn error_messages_by_language() {
    assert_eq!(
        error_message("es"),
        "🚒 Ha ocurrido un error, por favor, inténtalo más tarde"
    );
    assert_eq!(
        error_message("en"),
        "🚒 An error was found, please try again later"
    );
    assert_eq!(
        error_message("fr"),
        "🚒 An error was found, please try again later"
    );
}

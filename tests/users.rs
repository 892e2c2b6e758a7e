use bybit_pipeline::users::{
    expired_at, get_users_bybit_streams, should_forward, ByBitReceiver, OptValues, Registry, StreamReceivers,
    ThreeCommasReceiver, User, UserSettings, UserStream,
};

fn stream(id: u64, exchange: &str, strategy: &str, key: &str) -> UserStream {
    UserStream {
        id,
        created_at: String::new(),
        active: true,
        description: String::new(),
        exchange: exchange.to_string(),
        opt: OptValues { children: false, leverage: 0, order_size: 0, pyramiding: 1 },
        receivers: StreamReceivers {
            threecommas: ThreeCommasReceiver { bot_id: 0, email_token: String::new() },
            telegram: String::new(),
            bybit: ByBitReceiver { api_key: key.to_string(), api_secret: format!("{}-secret", key) },
        },
        strategy: strategy.to_string(),
        title: String::new(),
    }
}

fn user(id: &str, expires: &str, streams: Vec<UserStream>) -> User {
    User {
        id: id.to_string(),
        created_at: String::new(),
        email: String::new(),
        free_subscription: false,
        payment_address: String::new(),
        settings: UserSettings { streams },
        subscriptions: Vec::new(),
        subscription_expires_on: expires.to_string(),
        subscription_type: "pro".to_string(),
        telegram_account: String::new(),
        updated_at: String::new(),
        verified: true,
    }
}

#[test]
fn collects_exchange_streams_later_wins() {
    let users = vec![
        user("a", "", vec![stream(1, "BYBIT", "long", "k1"), stream(2, "BINANCE", "long", "k2"), stream(1, "BYBIT", "long", "k3")]),
        user("b", "", vec![stream(1, "BYBIT", "short", "k4")]),
    ];
    let reg = get_users_bybit_streams(&users);
    assert_eq!(reg.len(), 2);
    let a = reg.entries.iter().find(|e| e.user_id == "a" && e.stream_id == 1).unwrap();
    assert_eq!(a.value, ("k3".to_string(), "k3-secret".to_string()));
    let b = reg.entries.iter().find(|e| e.user_id == "b").unwrap();
    assert_eq!(b.value.0, "k4");
    assert!(reg.entries.iter().all(|e| e.stream_id != 2));
}

#[test]
fn inactive_streams_get_no_credentials() {
    let mut off = stream(5, "BYBIT", "long", "k5");
    off.active = false;
    let users = vec![user("a", "", vec![off, stream(6, "BYBIT", "long", "k6")])];
    let reg = get_users_bybit_streams(&users);
    assert_eq!(reg.len(), 1);
    assert_eq!(reg.entries[0].stream_id, 6);
}

#[test]
fn registry_replaces_on_refresh() {
    let mut reg: Registry<u32> = Registry::new();
    reg.upsert("a".to_string(), 1, 10);
    reg.upsert("a".to_string(), 2, 20);
    reg.upsert("a".to_string(), 1, 30);
    assert_eq!(reg.len(), 2);
    assert_eq!(reg.entries[0].value, 30);
    assert_eq!(reg.entries[1].value, 20);
}

#[test]
fn streams_by_strategy() {
    let u = user("a", "", vec![stream(1, "BYBIT", "long", "k"), stream(2, "BYBIT", "short", "k"), stream(3, "BYBIT", "long", "k")]);
    let ids: Vec<u64> = u.get_streams(&"long".to_string()).iter().map(|s| s.id).collect();
    assert_eq!(ids, vec![1, 3]);
    assert_eq!(u.get_streams(&"short".to_string())[0].receivers.bybit.api_secret, "k-secret");
    assert!(u.get_streams(&"none".to_string()).is_empty());
}

#[test]
fn subscription_expiry() {
    let u = user("a", "2022-05-23T22:08:39Z", Vec::new());
    assert_eq!(u.has_subscription_expired(1653343719001), Some(true));
    assert_eq!(u.has_subscription_expired(1653343719000), Some(false));
    let bad = user("a", "tomorrow", Vec::new());
    assert_eq!(bad.has_subscription_expired(0), None);
    assert_eq!(expired_at(Some(5), 6), Some(true));
    assert_eq!(expired_at(None, 6), None);
}

#[test]
fn forwards_execution_messages_only() {
    assert!(should_forward(r#"{"topic":"execution","data":[{"order_id":"1"}]}"#));
    assert!(!should_forward(r#"{"op":"pong"}"#));
}

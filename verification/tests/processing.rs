//! Processor and snapshot scenarios: wire messages in, replies and durable
//! records out; checkpoints saved and loaded.
use perp_engine::dec::{Dec, try_add_exact, try_sub_exact};
use perp_engine::model::{AssetPrice, Order, Side};
use perp_engine::processor::{
    process_message, handle_get_balance_usd, handle_get_supported_assets, InputError, Response,
};
use perp_engine::state::{Engine, EngineError};
use perp_engine::wire::{parse_u32_digits, parse_i64_digits, parse_u64_digits};
use rust_decimal::Decimal;

fn to_decimal(d: Dec) -> Decimal {
    Decimal::from_i128_with_scale(d.m, d.s)
}

fn dec(m: i128, s: u32) -> Dec {
    Dec { m, s }
}

fn msg(pairs: &[(&str, &str)]) -> Vec<(String, String)> {
    pairs.iter().map(|(k, v)| (k.to_string(), v.to_string())).collect()
}

const NOW: i64 = 1_700_000_000;

fn feed_price(engine: &mut Engine, symbol: &str, buy: &str, sell: &str) {
    let fields = msg(&[
        ("action", "LATEST_PRICE"),
        ("symbol", symbol),
        ("buyPrice", buy),
        ("sellPrice", sell),
        ("decimals", "2"),
    ]);
    let out = process_message(engine, &fields, NOW);
    assert!(out.replies.is_empty());
}

#[test]
fn price_update_then_create_and_close() {
    let mut engine = Engine::new();
    feed_price(&mut engine, "BTC", "100", "99");
    let create = msg(&[
        ("action", "CREATE_ORDER"),
        ("orderId", "o1"),
        ("user", "alice"),
        ("asset", "BTC"),
        ("type", "long"),
        ("margin", "100"),
        ("leverage", "10"),
        ("timestamp", "1700000000"),
    ]);
    let out = process_message(&mut engine, &create, NOW);
    assert_eq!(out.replies.len(), 1);
    assert_eq!(out.replies[0].correlation_id, "o1");
    assert!(matches!(out.replies[0].body, Response::OrderCreated));
    assert!(out.db_records.is_empty());

    feed_price(&mut engine, "BTC", "121", "120");
    let close = msg(&[("action", "CLOSE_ORDER"), ("orderId", "o1")]);
    let out = process_message(&mut engine, &close, NOW);
    assert_eq!(out.replies.len(), 1);
    match &out.replies[0].body {
        Response::OrderClosed { pnl, close_price } => {
            assert_eq!(to_decimal(*pnl), Decimal::from(200));
            assert_eq!(to_decimal(*close_price), Decimal::from(120));
        },
        _ => panic!("close did not succeed"),
    }
    assert_eq!(out.db_records.len(), 1);
    assert_eq!(out.db_records[0].order_id, "o1");
    assert_eq!(to_decimal(out.db_records[0].pnl), Decimal::from(200));
    assert_eq!(out.db_records[0].timestamp, NOW);
}

#[test]
fn fractional_price_strings_are_parsed() {
    let mut engine = Engine::new();
    feed_price(&mut engine, "SOL", "20.25", "19.75");
    let p = engine.get_price(&"SOL".to_string()).unwrap();
    assert_eq!(to_decimal(p.buy_price), "20.25".parse::<Decimal>().unwrap());
    assert_eq!(to_decimal(p.sell_price), "19.75".parse::<Decimal>().unwrap());
}

#[test]
fn stale_timestamp_is_refused_without_mutation() {
    let mut engine = Engine::new();
    feed_price(&mut engine, "BTC", "100", "99");
    let create = msg(&[
        ("action", "CREATE_ORDER"),
        ("orderId", "o1"),
        ("user", "alice"),
        ("asset", "BTC"),
        ("type", "long"),
        ("margin", "100"),
        ("leverage", "10"),
        ("timestamp", "1699999990"),
    ]);
    let out = process_message(&mut engine, &create, NOW);
    assert_eq!(out.replies.len(), 1);
    assert!(matches!(
        out.replies[0].body,
        Response::OrderInvalid { error: InputError::StaleTimestamp }
    ));
    assert!(engine.orders.is_empty());
    assert!(engine.users.is_empty());
}

#[test]
fn missing_field_is_refused() {
    let mut engine = Engine::new();
    let create = msg(&[("action", "CREATE_ORDER"), ("orderId", "o1"), ("user", "alice")]);
    let out = process_message(&mut engine, &create, NOW);
    assert!(matches!(
        out.replies[0].body,
        Response::OrderInvalid { error: InputError::MissingField }
    ));
}

#[test]
fn bad_number_is_refused() {
    let mut engine = Engine::new();
    let create = msg(&[
        ("action", "CREATE_ORDER"),
        ("orderId", "o1"),
        ("user", "alice"),
        ("asset", "BTC"),
        ("type", "long"),
        ("margin", "not-a-number"),
        ("leverage", "10"),
        ("timestamp", "1700000000"),
    ]);
    let out = process_message(&mut engine, &create, NOW);
    assert!(matches!(
        out.replies[0].body,
        Response::OrderInvalid { error: InputError::InvalidNumber }
    ));
}

#[test]
fn nonpositive_margin_is_refused() {
    let mut engine = Engine::new();
    let create = msg(&[
        ("action", "CREATE_ORDER"),
        ("orderId", "o1"),
        ("user", "alice"),
        ("asset", "BTC"),
        ("type", "long"),
        ("margin", "-5"),
        ("leverage", "10"),
        ("timestamp", "1700000000"),
    ]);
    let out = process_message(&mut engine, &create, NOW);
    assert!(matches!(
        out.replies[0].body,
        Response::OrderInvalid { error: InputError::InvalidMargin }
    ));
}

#[test]
fn zero_leverage_is_refused() {
    let mut engine = Engine::new();
    let create = msg(&[
        ("action", "CREATE_ORDER"),
        ("orderId", "o1"),
        ("user", "alice"),
        ("asset", "BTC"),
        ("type", "long"),
        ("margin", "100"),
        ("leverage", "0"),
        ("timestamp", "1700000000"),
    ]);
    let out = process_message(&mut engine, &create, NOW);
    assert!(matches!(
        out.replies[0].body,
        Response::OrderInvalid { error: InputError::InvalidLeverage }
    ));
}

#[test]
fn insufficient_balance_reply() {
    let mut engine = Engine::new();
    feed_price(&mut engine, "BTC", "100", "99");
    let create = msg(&[
        ("action", "CREATE_ORDER"),
        ("orderId", "o1"),
        ("user", "alice"),
        ("asset", "BTC"),
        ("type", "long"),
        ("margin", "6000"),
        ("leverage", "10"),
        ("timestamp", "1700000000"),
    ]);
    let out = process_message(&mut engine, &create, NOW);
    assert!(matches!(
        out.replies[0].body,
        Response::OrderRejected { error: EngineError::InsufficientBalance }
    ));
}

#[test]
fn balance_queries_answer() {
    let mut engine = Engine::new();
    let _ = engine.get_or_create_user(&"alice".to_string());
    let q = msg(&[("action", "GET_BALANCE_USD"), ("orderId", "q1"), ("user", "alice")]);
    let reply = handle_get_balance_usd(&engine, &q).unwrap();
    assert_eq!(reply.correlation_id, "q1");
    match reply.body {
        Response::BalanceUsd { balance } => assert_eq!(to_decimal(balance), Decimal::from(5000)),
        _ => panic!("expected a balance"),
    }
    let q2 = msg(&[("action", "GET_BALANCE_USD"), ("orderId", "q2"), ("user", "nobody")]);
    let reply2 = handle_get_balance_usd(&engine, &q2).unwrap();
    assert!(matches!(reply2.body, Response::BalanceUsdUnavailable));
}

#[test]
fn supported_assets_are_static() {
    let q = msg(&[("action", "GET_SUPPORTED_ASSETS"), ("orderId", "q1")]);
    let reply = handle_get_supported_assets(&q).unwrap();
    match reply.body {
        Response::SupportedAssets { symbols } => {
            assert_eq!(symbols, vec!["BTC".to_string(), "ETH".to_string(), "SOL".to_string()]);
        },
        _ => panic!("expected the symbol list"),
    }
}

#[test]
fn get_orders_lists_live_orders() {
    let mut engine = Engine::new();
    feed_price(&mut engine, "BTC", "100", "99");
    let create = msg(&[
        ("action", "CREATE_ORDER"),
        ("orderId", "o1"),
        ("user", "alice"),
        ("asset", "BTC"),
        ("type", "long"),
        ("margin", "100"),
        ("leverage", "10"),
        ("timestamp", "1700000000"),
    ]);
    process_message(&mut engine, &create, NOW);
    let q = msg(&[("action", "GET_ORDERS"), ("orderId", "q1"), ("user", "alice")]);
    let out = process_message(&mut engine, &q, NOW);
    match &out.replies[0].body {
        Response::Orders { orders } => {
            assert_eq!(orders.len(), 1);
            assert_eq!(orders[0].order_id, "o1");
        },
        _ => panic!("expected the order list"),
    }
}

#[test]
fn unknown_action_does_nothing() {
    let mut engine = Engine::new();
    let out = process_message(&mut engine, &msg(&[("action", "DO_MAGIC")]), NOW);
    assert!(out.replies.is_empty());
    assert!(out.db_records.is_empty());
    assert!(engine.users.is_empty());
}

#[test]
fn snapshot_round_trip_reproduces_state() {
    let mut engine = Engine::new();
    feed_price(&mut engine, "BTC", "100", "99");
    feed_price(&mut engine, "SOL", "20", "19");
    let create = msg(&[
        ("action", "CREATE_ORDER"),
        ("orderId", "o1"),
        ("user", "alice"),
        ("asset", "BTC"),
        ("type", "long"),
        ("margin", "100"),
        ("leverage", "10"),
        ("timestamp", "1700000000"),
    ]);
    process_message(&mut engine, &create, NOW);
    engine.advance_to("1700000000-3".to_string());

    let data = engine.to_snapshot(NOW);
    assert_eq!(data.timestamp, NOW);
    let restored = Engine::from_snapshot(data).unwrap();
    assert_eq!(
        to_decimal(restored.get_user_balance_usd(&"alice".to_string()).unwrap()),
        Decimal::from(4900)
    );
    let orders = restored.get_user_orders(&"alice".to_string());
    assert_eq!(orders.len(), 1);
    assert_eq!(orders[0].order_id, "o1");
    assert_eq!(to_decimal(orders[0].quantity), Decimal::from(10));
    assert_eq!(restored.last_processed_id, "1700000000-3");
    let p = restored.get_price(&"SOL".to_string()).unwrap();
    assert_eq!(to_decimal(p.buy_price), Decimal::from(20));
    // The rebuilt indices still drive the scanner.
    let mut restored = restored;
    feed_price(&mut restored, "BTC", "91", "90");
    let hits = restored.scan_tick();
    assert_eq!(hits.len(), 1);
    assert_eq!(hits[0].0, "o1");
}

#[test]
fn legacy_snapshot_synthesizes_indices() {
    let users = vec![(
        "alice".to_string(),
        perp_engine::model::UserBalance { usd_balance: dec(4900, 0), asset_balances: Vec::new() },
    )];
    let orders = vec![(
        "alice".to_string(),
        vec![Order {
            order_id: "o1".to_string(),
            user_id: "alice".to_string(),
            asset: "BTC".to_string(),
            side: Side::Long,
            margin: dec(100, 0),
            leverage: 10,
            open_price: dec(100, 0),
            quantity: dec(10, 0),
            timestamp: NOW,
        }],
    )];
    let prices = vec![(
        "BTC".to_string(),
        AssetPrice {
            symbol: "BTC".to_string(),
            buy_price: dec(100, 0),
            sell_price: dec(99, 0),
            decimals: 2,
        },
    )];
    let mut engine =
        Engine::from_legacy_snapshot(users, orders, prices, "0".to_string()).unwrap();
    assert_eq!(engine.get_user_orders(&"alice".to_string()).len(), 1);
    // The synthesized liquidation index carries the recomputed threshold.
    let bucket = &engine.liquidation_index[0].1.buckets[0];
    assert_eq!(to_decimal(bucket.1[0].liquidation_price), Decimal::from(91));
    // A long closes at the sell price: (99 - 100) * 10 = -10.
    let (pnl, _) = engine.close_order(&"o1".to_string()).unwrap();
    assert_eq!(to_decimal(pnl), Decimal::from(-10));
    assert_eq!(
        to_decimal(engine.get_user_balance_usd(&"alice".to_string()).unwrap()),
        Decimal::from(4990)
    );
}

#[test]
fn corrupt_snapshot_is_refused() {
    let mut engine = Engine::new();
    feed_price(&mut engine, "BTC", "100", "99");
    let mut data = engine.to_snapshot(NOW);
    // An order whose owner is missing from the user table cannot stand.
    data.orders_by_id.push((
        "ghost".to_string(),
        Order {
            order_id: "ghost".to_string(),
            user_id: "nobody".to_string(),
            asset: "BTC".to_string(),
            side: Side::Long,
            margin: dec(100, 0),
            leverage: 10,
            open_price: dec(100, 0),
            quantity: dec(10, 0),
            timestamp: NOW,
        },
    ));
    assert!(Engine::from_snapshot(data).is_none());
}

#[test]
fn exact_decimal_add_and_sub() {
    let a = dec(10050, 2);
    let b = dec(25, 1);
    let sum = try_add_exact(a, b).unwrap();
    assert_eq!(to_decimal(sum), "103.00".parse::<Decimal>().unwrap());
    let diff = try_sub_exact(a, b).unwrap();
    assert_eq!(to_decimal(diff), "98.00".parse::<Decimal>().unwrap());
}

#[test]
fn digit_parsers() {
    assert_eq!(parse_u32_digits("10"), Some(10));
    assert_eq!(parse_u32_digits("0"), Some(0));
    assert_eq!(parse_u32_digits(""), None);
    assert_eq!(parse_u32_digits("12x"), None);
    assert_eq!(parse_u32_digits("4294967295"), Some(u32::MAX));
    assert_eq!(parse_u32_digits("4294967296"), None);
    assert_eq!(parse_u64_digits("18446744073709551615"), Some(u64::MAX));
    assert_eq!(parse_u64_digits("18446744073709551616"), None);
    assert_eq!(parse_i64_digits("1700000000"), Some(1_700_000_000));
    assert_eq!(parse_i64_digits("-5"), None);
}

//! State-store scenarios: placement, close, liquidation, refusals.
use perp_engine::dec::Dec;
use perp_engine::model::{AssetPrice, Order, Side};
use perp_engine::state::{Engine, EngineError};
use rust_decimal::Decimal;

fn to_decimal(d: Dec) -> Decimal {
    Decimal::from_i128_with_scale(d.m, d.s)
}

fn dec(m: i128, s: u32) -> Dec {
    Dec { m, s }
}

fn price(symbol: &str, buy: Dec, sell: Dec) -> AssetPrice {
    AssetPrice { symbol: symbol.to_string(), buy_price: buy, sell_price: sell, decimals: 2 }
}

fn order(id: &str, user: &str, asset: &str, side: Side, margin: Dec, leverage: u32) -> Order {
    Order {
        order_id: id.to_string(),
        user_id: user.to_string(),
        asset: asset.to_string(),
        side,
        margin,
        leverage,
        open_price: dec(0, 0),
        quantity: dec(0, 0),
        timestamp: 1_700_000_000,
    }
}

fn balance_of(engine: &Engine, user: &str) -> Decimal {
    to_decimal(engine.get_user_balance_usd(&user.to_string()).unwrap())
}

#[test]
fn long_placement() {
    let mut engine = Engine::new();
    engine.update_price(price("BTC", dec(100, 0), dec(99, 0)));
    let r = engine.create_order(order("o1", "alice", "BTC", Side::Long, dec(100, 0), 10));
    assert!(r.is_ok());
    assert_eq!(balance_of(&engine, "alice"), Decimal::from(4900));
    let orders = engine.get_user_orders(&"alice".to_string());
    assert_eq!(orders.len(), 1);
    assert_eq!(to_decimal(orders[0].open_price), Decimal::from(100));
    assert_eq!(to_decimal(orders[0].quantity), Decimal::from(10));
    // The stored liquidation threshold is 100 * (1 - 0.9/10) = 91.
    assert_eq!(engine.liquidation_index.len(), 1);
    let bucket = &engine.liquidation_index[0].1.buckets[0];
    assert_eq!(bucket.1.len(), 1);
    assert_eq!(to_decimal(bucket.1[0].liquidation_price), Decimal::from(91));
    // The bucket key is the canonical string of the computed threshold, whose
    // scale comes from 100 * (1 - 0.09).
    assert_eq!(bucket.0, "91.00");
}

#[test]
fn close_at_profit() {
    let mut engine = Engine::new();
    engine.update_price(price("BTC", dec(100, 0), dec(99, 0)));
    engine.create_order(order("o1", "alice", "BTC", Side::Long, dec(100, 0), 10)).unwrap();
    engine.update_price(price("BTC", dec(121, 0), dec(120, 0)));
    let (pnl, close_price) = engine.close_order(&"o1".to_string()).unwrap();
    assert_eq!(to_decimal(close_price), Decimal::from(120));
    assert_eq!(to_decimal(pnl), Decimal::from(200));
    assert_eq!(balance_of(&engine, "alice"), Decimal::from(5200));
    assert!(engine.get_user_orders(&"alice".to_string()).is_empty());
    assert!(engine.orders_by_user.is_empty());
    assert!(engine.liquidation_index.is_empty());
}

#[test]
fn liquidation_forfeits_margin() {
    let mut engine = Engine::new();
    engine.update_price(price("BTC", dec(100, 0), dec(99, 0)));
    engine.create_order(order("o1", "alice", "BTC", Side::Long, dec(100, 0), 10)).unwrap();
    // Mid (91 + 90) / 2 = 90.5 is at or below the threshold 91.
    engine.update_price(price("BTC", dec(91, 0), dec(90, 0)));
    let hits = engine.scan_tick();
    assert_eq!(hits.len(), 1);
    assert_eq!(hits[0].0, "o1");
    assert_eq!(hits[0].1, "alice");
    assert!(engine.get_user_orders(&"alice".to_string()).is_empty());
    assert_eq!(balance_of(&engine, "alice"), Decimal::from(4900));
}

#[test]
fn no_liquidation_above_threshold() {
    let mut engine = Engine::new();
    engine.update_price(price("BTC", dec(100, 0), dec(99, 0)));
    engine.create_order(order("o1", "alice", "BTC", Side::Long, dec(100, 0), 10)).unwrap();
    // Mid (93 + 92) / 2 = 92.5 stays above the threshold 91.
    engine.update_price(price("BTC", dec(93, 0), dec(92, 0)));
    let hits = engine.scan_tick();
    assert!(hits.is_empty());
    assert_eq!(engine.get_user_orders(&"alice".to_string()).len(), 1);
}

#[test]
fn short_placement() {
    let mut engine = Engine::new();
    engine.update_price(price("SOL", dec(20, 0), dec(19, 0)));
    let r = engine.create_order(order("s1", "bob", "SOL", Side::Short, dec(50, 0), 5));
    assert!(r.is_ok());
    let orders = engine.get_user_orders(&"bob".to_string());
    assert_eq!(orders.len(), 1);
    // A short opens at the sell price.
    assert_eq!(to_decimal(orders[0].open_price), Decimal::from(19));
    assert_eq!(
        to_decimal(orders[0].quantity),
        Decimal::from(250).checked_div(Decimal::from(19)).unwrap()
    );
    // Threshold 19 * (1 + 0.9/5) = 22.42.
    let bucket = &engine.liquidation_index[0].1.buckets[0];
    assert_eq!(to_decimal(bucket.1[0].liquidation_price), "22.42".parse::<Decimal>().unwrap());
}

#[test]
fn short_liquidates_when_mid_rises() {
    let mut engine = Engine::new();
    engine.update_price(price("SOL", dec(20, 0), dec(19, 0)));
    engine.create_order(order("s1", "bob", "SOL", Side::Short, dec(50, 0), 5)).unwrap();
    // Mid (23 + 22) / 2 = 22.5 is at or above the threshold 22.42.
    engine.update_price(price("SOL", dec(23, 0), dec(22, 0)));
    let hits = engine.scan_tick();
    assert_eq!(hits.len(), 1);
    assert_eq!(balance_of(&engine, "bob"), Decimal::from(4950));
}

#[test]
fn insufficient_balance_rejected_without_mutation() {
    let mut engine = Engine::new();
    engine.update_price(price("BTC", dec(100, 0), dec(99, 0)));
    let r = engine.create_order(order("o1", "carol", "BTC", Side::Long, dec(6000, 0), 10));
    assert_eq!(r, Err(EngineError::InsufficientBalance));
    // The user was created on first touch, but nothing else moved.
    assert_eq!(balance_of(&engine, "carol"), Decimal::from(5000));
    assert!(engine.get_user_orders(&"carol".to_string()).is_empty());
    assert!(engine.orders.is_empty());
}

#[test]
fn missing_price_rejected() {
    let mut engine = Engine::new();
    let r = engine.create_order(order("o1", "dave", "ETH", Side::Long, dec(100, 0), 10));
    assert_eq!(r, Err(EngineError::AssetPriceUnavailable));
    assert!(engine.orders.is_empty());
}

#[test]
fn zero_price_rejected() {
    let mut engine = Engine::new();
    engine.update_price(price("ETH", dec(0, 0), dec(0, 0)));
    let r = engine.create_order(order("o1", "dave", "ETH", Side::Long, dec(100, 0), 10));
    assert_eq!(r, Err(EngineError::AssetPriceUnavailable));
}

#[test]
fn duplicate_create_rejected_without_mutation() {
    let mut engine = Engine::new();
    engine.update_price(price("BTC", dec(100, 0), dec(99, 0)));
    engine.create_order(order("o1", "alice", "BTC", Side::Long, dec(100, 0), 10)).unwrap();
    let r = engine.create_order(order("o1", "alice", "BTC", Side::Long, dec(100, 0), 10));
    assert_eq!(r, Err(EngineError::OrderIdTaken));
    assert_eq!(balance_of(&engine, "alice"), Decimal::from(4900));
    assert_eq!(engine.get_user_orders(&"alice".to_string()).len(), 1);
}

#[test]
fn duplicate_close_reports_missing() {
    let mut engine = Engine::new();
    engine.update_price(price("BTC", dec(100, 0), dec(99, 0)));
    engine.create_order(order("o1", "alice", "BTC", Side::Long, dec(100, 0), 10)).unwrap();
    assert!(engine.close_order(&"o1".to_string()).is_ok());
    let again = engine.close_order(&"o1".to_string());
    assert_eq!(again, Err(EngineError::OrderNotFound));
    // Closed at the sell price 99: 4900 + 100 + (99 - 100) * 10.
    assert_eq!(balance_of(&engine, "alice"), Decimal::from(4990));
}

#[test]
fn close_at_loss_can_cost_more_than_margin() {
    let mut engine = Engine::new();
    engine.update_price(price("BTC", dec(100, 0), dec(99, 0)));
    engine.create_order(order("o1", "alice", "BTC", Side::Long, dec(100, 0), 10)).unwrap();
    engine.update_price(price("BTC", dec(81, 0), dec(80, 0)));
    let (pnl, _) = engine.close_order(&"o1".to_string()).unwrap();
    assert_eq!(to_decimal(pnl), Decimal::from(-200));
    assert_eq!(balance_of(&engine, "alice"), Decimal::from(4800));
}

#[test]
fn liquidate_missing_order_is_tolerated() {
    let mut engine = Engine::new();
    let r = engine.liquidate_order(&"ghost".to_string());
    assert_eq!(r, Err(EngineError::OrderNotFound));
}

#[test]
fn user_created_once_with_initial_deposit() {
    let mut engine = Engine::new();
    let first = engine.get_or_create_user(&"eve".to_string());
    assert_eq!(to_decimal(first.usd_balance), Decimal::from(5000));
    let again = engine.get_or_create_user(&"eve".to_string());
    assert_eq!(to_decimal(again.usd_balance), Decimal::from(5000));
    assert_eq!(engine.users.len(), 1);
}

#[test]
fn positions_value_at_mid_price() {
    let mut engine = Engine::new();
    engine.update_price(price("BTC", dec(100, 0), dec(99, 0)));
    engine.create_order(order("o1", "alice", "BTC", Side::Long, dec(100, 0), 10)).unwrap();
    engine.update_price(price("BTC", dec(111, 0), dec(109, 0)));
    let positions = engine.get_user_positions(&"alice".to_string());
    assert_eq!(positions.len(), 1);
    // Mid (111 + 109) / 2 = 110; unrealized (110 - 100) * 10 = 100.
    assert_eq!(to_decimal(positions[0].1), Decimal::from(100));
}

#[test]
fn fractional_prices_parse_and_compare_exactly() {
    let mut engine = Engine::new();
    // 100.50 buy, 99.25 sell, as mantissa and scale.
    engine.update_price(price("BTC", dec(10050, 2), dec(9925, 2)));
    let p = engine.get_price(&"BTC".to_string()).unwrap();
    assert_eq!(to_decimal(p.buy_price), "100.50".parse::<Decimal>().unwrap());
    engine.create_order(order("o1", "alice", "BTC", Side::Long, dec(100, 0), 10)).unwrap();
    let orders = engine.get_user_orders(&"alice".to_string());
    assert_eq!(
        to_decimal(orders[0].quantity),
        Decimal::from(1000).checked_div("100.50".parse::<Decimal>().unwrap()).unwrap()
    );
}

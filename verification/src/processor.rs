//! The command processor: one totally-ordered stream of key-value messages
//! in, one state mutation and at most one reply per message out, plus a
//! durable record for every successful close.
//!
//! A message is a list of `(name, value)` string fields. Numeric fields
//! arrive as decimal strings; the surrounding process turns JSON numbers
//! into their digit strings before handing a message in, and turns the
//! structured [`Reply`] back into its wire envelope.
use vstd::prelude::*;
use crate::dec::{Dec, repr_to_dec, parse_repr, dec_parse};
use crate::model::{Order, OrderV, AssetPrice, AssetPriceV, Side};
use crate::state::{Engine, EngineError, create_verdict, close_verdict, clone_string};
use crate::wire::{
    first_field, get_field, all_digits, digits_value, parse_u32_digits, parse_i64_digits,
};

verus! {

/// The kinds of command the processor understands; `GET_ORDERS` is handled
/// as well, addressed by its wire name.
#[derive(Clone, Copy, PartialEq, Eq, Structural, Debug)]
pub enum Action {
    /// `CREATE_ORDER`: open a leveraged position.
    CreateOrder,
    /// `CLOSE_ORDER`: realize a position.
    CloseOrder,
    /// `GET_BALANCE`: the spot holdings of a user.
    GetBalance,
    /// `GET_BALANCE_USD`: the cash of a user.
    GetBalanceUsd,
    /// `GET_SUPPORTED_ASSETS`: the static symbol list.
    GetSupportedAssets,
    /// `LATEST_PRICE`: upsert a quote.
    LatestPrice,
}

/// The command kind a wire action name denotes.
pub open spec fn spec_action_of(name: Seq<char>) -> Option<Action> {
    if name == "CREATE_ORDER"@ {
        Some(Action::CreateOrder)
    } else if name == "CLOSE_ORDER"@ {
        Some(Action::CloseOrder)
    } else if name == "GET_BALANCE"@ {
        Some(Action::GetBalance)
    } else if name == "GET_BALANCE_USD"@ {
        Some(Action::GetBalanceUsd)
    } else if name == "GET_SUPPORTED_ASSETS"@ {
        Some(Action::GetSupportedAssets)
    } else if name == "LATEST_PRICE"@ {
        Some(Action::LatestPrice)
    } else {
        None
    }
}

/// Classifies a wire action name.
pub fn action_of(name: &String) -> (r: Option<Action>)
    ensures
        r == spec_action_of(name@),
{
    if *name == ("CREATE_ORDER").to_owned() {
        Some(Action::CreateOrder)
    } else if *name == ("CLOSE_ORDER").to_owned() {
        Some(Action::CloseOrder)
    } else if *name == ("GET_BALANCE").to_owned() {
        Some(Action::GetBalance)
    } else if *name == ("GET_BALANCE_USD").to_owned() {
        Some(Action::GetBalanceUsd)
    } else if *name == ("GET_SUPPORTED_ASSETS").to_owned() {
        Some(Action::GetSupportedAssets)
    } else if *name == ("LATEST_PRICE").to_owned() {
        Some(Action::LatestPrice)
    } else {
        None
    }
}

/// Why a message was refused before it reached the state store.
#[derive(Clone, Copy, PartialEq, Eq, Structural, Debug)]
pub enum InputError {
    /// A required field is absent.
    MissingField,
    /// A numeric field does not parse.
    InvalidNumber,
    /// The margin is not positive.
    InvalidMargin,
    /// The leverage is zero.
    InvalidLeverage,
    /// The creation timestamp is more than five seconds from now.
    StaleTimestamp,
}

/// The body of a reply; the surrounding process serializes it into the
/// response envelope of its action.
pub enum Response {
    /// `ORDER_SUCCESS` for a creation.
    OrderCreated,
    /// `ORDER_FAILED` with the state store's refusal.
    OrderRejected { error: EngineError },
    /// `ORDER_FAILED` before the state store was touched.
    OrderInvalid { error: InputError },
    /// `ORDER_SUCCESS` for a close, with what was realized.
    OrderClosed { pnl: Dec, close_price: Dec },
    /// `BALANCE_USD` with the user's cash.
    BalanceUsd { balance: Dec },
    /// `BALANCE_FAILED`: the user is unknown.
    BalanceUsdUnavailable,
    /// `BALANCE` with the user's spot holdings.
    Balance { assets: Vec<(String, (Dec, u32))> },
    /// `SUPPORTED_ASSETS` with the static symbol list.
    SupportedAssets { symbols: Vec<String> },
    /// `ORDERS` with the user's live orders.
    Orders { orders: Vec<Order> },
}

/// One reply, addressed by the correlation id the message carried.
pub struct Reply {
    /// Names the response channel.
    pub correlation_id: String,
    /// What to send.
    pub body: Response,
}

/// One durable record for the closed-order log.
pub struct DbRecord {
    /// The closed order.
    pub order_id: String,
    /// Realized profit and loss.
    pub pnl: Dec,
    /// The price the position was closed at.
    pub close_price: Dec,
    /// When the close was processed.
    pub timestamp: i64,
}

/// Everything one message produces besides the state change.
pub struct Outcome {
    /// At most one.
    pub replies: Vec<Reply>,
    /// At most one, appended to the closed-order log.
    pub db_records: Vec<DbRecord>,
}

/// What a numeric wire string denotes as a `u32`.
pub open spec fn spec_parse_u32(t: Seq<char>) -> Option<u32> {
    if t.len() > 0 && all_digits(t) && digits_value(t) <= u32::MAX {
        Some(digits_value(t) as u32)
    } else {
        None
    }
}

/// What a numeric wire string denotes as an `i64`.
pub open spec fn spec_parse_i64(t: Seq<char>) -> Option<i64> {
    if t.len() > 0 && all_digits(t) && digits_value(t) <= i64::MAX {
        Some(digits_value(t) as i64)
    } else {
        None
    }
}

/// What a decimal field of the message denotes.
pub open spec fn dec_field(fs: Seq<(String, String)>, name: Seq<char>) -> Option<Dec> {
    match first_field(fs, name) {
        Some(t) => repr_to_dec(parse_repr(t)),
        None => None,
    }
}

/// What a price-update message asks for, when it is complete.
pub open spec fn price_update_of(fs: Seq<(String, String)>) -> Option<AssetPriceV> {
    match (
        first_field(fs, "symbol"@),
        dec_field(fs, "buyPrice"@),
        dec_field(fs, "sellPrice"@),
        first_field(fs, "decimals"@),
    ) {
        (Some(sym), Some(bp), Some(sp), Some(dstr)) => match spec_parse_u32(dstr) {
            Some(d) => Some(
                AssetPriceV { symbol: sym, buy_price: bp, sell_price: sp, decimals: d },
            ),
            None => None,
        },
        _ => None,
    }
}

/// What a creation message submits, or why it is refused at the door: all
/// fields present and numeric, the margin positive, the leverage usable, and
/// the timestamp within five seconds of now.
pub open spec fn create_request_of(fs: Seq<(String, String)>, oid: Seq<char>, now: int) -> Result<
    OrderV,
    InputError,
> {
    match (
        first_field(fs, "user"@),
        first_field(fs, "asset"@),
        first_field(fs, "type"@),
        first_field(fs, "margin"@),
        first_field(fs, "leverage"@),
        first_field(fs, "timestamp"@),
    ) {
        (Some(user), Some(asset), Some(ty), Some(mstr), Some(lstr), Some(tstr)) => {
            match (repr_to_dec(parse_repr(mstr)), spec_parse_u32(lstr), spec_parse_i64(tstr)) {
                (Some(m), Some(l), Some(ts)) => {
                    if m.v() <= 0 {
                        Err(InputError::InvalidMargin)
                    } else if l < 1 {
                        Err(InputError::InvalidLeverage)
                    } else if ts - now > 5 || now - ts > 5 {
                        Err(InputError::StaleTimestamp)
                    } else {
                        Ok(
                            OrderV {
                                order_id: oid,
                                user_id: user,
                                asset: asset,
                                side: if ty == "long"@ {
                                    Side::Long
                                } else {
                                    Side::Short
                                },
                                margin: m,
                                leverage: l,
                                open_price: Dec { m: 0, s: 0 },
                                quantity: Dec { m: 0, s: 0 },
                                timestamp: ts,
                            },
                        )
                    }
                },
                _ => Err(InputError::InvalidNumber),
            }
        },
        _ => Err(InputError::MissingField),
    }
}

/// What a `LATEST_PRICE` message does to the store: a complete one upserts
/// exactly its quote and moves nothing else; an incomplete one changes
/// nothing. Never a reply, never a record.
pub open spec fn latest_price_outcome(pre: Engine, post: Engine, fs: Seq<(String, String)>) -> bool {
    match price_update_of(fs) {
        Some(p) => {
            &&& post.prices_map() == pre.prices_map().insert(p.symbol, p)
            &&& post.users == pre.users
            &&& post.orders == pre.orders
            &&& post.orders_by_user == pre.orders_by_user
            &&& post.liquidation_index == pre.liquidation_index
            &&& post.last_processed_id == pre.last_processed_id
            &&& post.deposits == pre.deposits
            &&& post.pnl_paid == pre.pnl_paid
            &&& post.drift == pre.drift
        },
        None => post == pre,
    }
}

/// What a `CREATE_ORDER` message does: no reply without an order id; a
/// message [`create_request_of`] refuses is turned away at the door with
/// nothing moved; otherwise the state store decides per
/// [`create_verdict`], and the reply reports its verdict under the order id.
pub open spec fn create_outcome(
    pre: Engine,
    post: Engine,
    fs: Seq<(String, String)>,
    now: int,
    r: Option<Reply>,
) -> bool {
    match first_field(fs, "orderId"@) {
        None => r is None && post == pre,
        Some(oid) => match create_request_of(fs, oid, now) {
            Err(ie) => r matches Some(rep) && rep.correlation_id@ == oid && rep.body == (
            Response::OrderInvalid { error: ie }) && post == pre,
            Ok(o) => {
                &&& r matches Some(rep) && rep.correlation_id@ == oid && rep.body == (
                match create_verdict(pre, o) {
                    Ok(_) => Response::OrderCreated,
                    Err(e2) => Response::OrderRejected { error: e2 },
                })
                &&& post.pnl_paid == pre.pnl_paid
                &&& post.drift == pre.drift
                &&& post.asset_prices == pre.asset_prices
                &&& post.last_processed_id == pre.last_processed_id
                &&& match create_verdict(pre, o) {
                    Ok(newo) => {
                        &&& post.orders_map() == pre.orders_map().insert(oid, newo)
                        &&& post.orders_seq() == pre.orders_seq().push(newo)
                        &&& post.deposits@ == pre.deposits_after_touch(o.user_id)
                    },
                    Err(e2) => {
                        &&& post.orders == pre.orders
                        &&& (e2 == EngineError::OrderIdTaken ==> post == pre)
                        &&& (e2 != EngineError::OrderIdTaken ==> post.users_map()
                            == pre.users_after_touch(o.user_id) && post.deposits@
                            == pre.deposits_after_touch(o.user_id))
                    },
                }
            },
        },
    }
}

/// What a `CLOSE_ORDER` message does: no reply without an order id;
/// otherwise the state store decides per [`close_verdict`], the reply
/// reports its verdict under the order id, and a successful close also
/// yields exactly one durable record stamped with now.
pub open spec fn close_outcome(
    pre: Engine,
    post: Engine,
    fs: Seq<(String, String)>,
    now: i64,
    r: Option<Reply>,
    rec: Option<DbRecord>,
) -> bool {
    match first_field(fs, "orderId"@) {
        None => r is None && rec is None && post == pre,
        Some(oid) => {
            &&& r matches Some(rep) && rep.correlation_id@ == oid
            &&& match close_verdict(pre, oid) {
                Ok(result) => {
                    &&& r->Some_0.body == (Response::OrderClosed {
                        pnl: result.0,
                        close_price: result.1,
                    })
                    &&& rec matches Some(record) && record.order_id@ == oid && record.pnl
                        == result.0 && record.close_price == result.1 && record.timestamp == now
                    &&& post.orders_map() == pre.orders_map().remove(oid)
                    &&& post.pnl_paid@ == pre.pnl_paid@ + result.0.v()
                    &&& post.asset_prices == pre.asset_prices
                    &&& post.deposits == pre.deposits
                    &&& post.last_processed_id == pre.last_processed_id
                },
                Err(e) => r->Some_0.body == (Response::OrderRejected { error: e }) && rec is None
                    && post == pre,
            }
        },
    }
}

/// What a `GET_BALANCE_USD` message answers: the user's cash, or that the
/// user is unknown; no reply without both correlation id and user.
pub open spec fn balance_usd_reply(e: Engine, fs: Seq<(String, String)>, r: Option<Reply>) -> bool {
    match (first_field(fs, "orderId"@), first_field(fs, "user"@)) {
        (Some(cid), Some(user)) => r matches Some(rep) && rep.correlation_id@ == cid && rep.body
            == (if e.users_map().contains_key(user) {
            Response::BalanceUsd { balance: e.users_map()[user].usd_balance }
        } else {
            Response::BalanceUsdUnavailable
        }),
        _ => r is None,
    }
}

/// What a `GET_BALANCE` message answers: the user's spot holdings, empty for
/// an unknown user; no reply without both correlation id and user.
pub open spec fn balance_reply(e: Engine, fs: Seq<(String, String)>, r: Option<Reply>) -> bool {
    match (first_field(fs, "orderId"@), first_field(fs, "user"@)) {
        (Some(cid), Some(user)) => r matches Some(rep) && rep.correlation_id@ == cid && (
        rep.body matches Response::Balance { assets } && assets.deep_view() == (
        if e.users_map().contains_key(user) {
            e.users_map()[user].asset_balances
        } else {
            Seq::<(Seq<char>, (Dec, u32))>::empty()
        })),
        _ => r is None,
    }
}

/// What a `GET_SUPPORTED_ASSETS` message answers: the static symbol list; no
/// reply without a correlation id.
pub open spec fn supported_assets_reply(fs: Seq<(String, String)>, r: Option<Reply>) -> bool {
    match first_field(fs, "orderId"@) {
        Some(cid) => r matches Some(rep) && rep.correlation_id@ == cid && (
        rep.body matches Response::SupportedAssets { symbols } && symbols.deep_view() =~= seq![
            "BTC"@,
            "ETH"@,
            "SOL"@,
        ]),
        None => r is None,
    }
}

/// What a `GET_ORDERS` message answers: the user's live orders in creation
/// order; no reply without both correlation id and user.
pub open spec fn orders_reply(e: Engine, fs: Seq<(String, String)>, r: Option<Reply>) -> bool {
    match (first_field(fs, "orderId"@), first_field(fs, "user"@)) {
        (Some(cid), Some(user)) => r matches Some(rep) && rep.correlation_id@ == cid && (
        rep.body matches Response::Orders { orders } && ({
            let ids = crate::index::user_order_ids(e.orders_seq(), user);
            &&& orders.deep_view().len() == ids.len()
            &&& forall|t: int|
                0 <= t < ids.len() ==> e.orders_map().contains_key(#[trigger] ids[t])
                    && orders.deep_view()[t] == e.orders_map()[ids[t]]
        })),
        _ => r is None,
    }
}

/// Updates the quoted prices from a `LATEST_PRICE` message; an incomplete
/// message changes nothing. No reply either way.
pub fn handle_latest_price(eng: &mut Engine, fields: &Vec<(String, String)>) -> (updated: bool)
    requires
        old(eng).inv(),
    ensures
        final(eng).inv(),
        latest_price_outcome(*old(eng), *final(eng), fields@),
        updated <==> price_update_of(fields@) is Some,
{
    let symbol = match get_field(fields, &("symbol").to_owned()) {
        Some(s) => s,
        None => {
            return false;
        },
    };
    let buy_price = match get_field(fields, &("buyPrice").to_owned()) {
        Some(t) => match dec_parse(t.as_str()) {
            Some(d) => d,
            None => {
                return false;
            },
        },
        None => {
            return false;
        },
    };
    let sell_price = match get_field(fields, &("sellPrice").to_owned()) {
        Some(t) => match dec_parse(t.as_str()) {
            Some(d) => d,
            None => {
                return false;
            },
        },
        None => {
            return false;
        },
    };
    let decimals = match get_field(fields, &("decimals").to_owned()) {
        Some(t) => match parse_u32_digits(t.as_str()) {
            Some(d) => d,
            None => {
                return false;
            },
        },
        None => {
            return false;
        },
    };
    eng.update_price(AssetPrice { symbol, buy_price, sell_price, decimals });
    true
}

/// Creates an order from a `CREATE_ORDER` message. A message without an
/// `orderId` gets no reply; one that fails validation is refused at the
/// door; otherwise the state store decides, and the reply carries its
/// verdict under the order id.
pub fn handle_create_order(eng: &mut Engine, fields: &Vec<(String, String)>, now: i64) -> (r:
    Option<Reply>)
    requires
        old(eng).inv(),
    ensures
        final(eng).inv(),
        create_outcome(*old(eng), *final(eng), fields@, now as int, r),
{
    let order_id = match get_field(fields, &("orderId").to_owned()) {
        Some(s) => s,
        None => {
            return None;
        },
    };
    let correlation_id = clone_string(&order_id);
    let user = get_field(fields, &("user").to_owned());
    let asset = get_field(fields, &("asset").to_owned());
    let ty = get_field(fields, &("type").to_owned());
    let margin_str = get_field(fields, &("margin").to_owned());
    let leverage_str = get_field(fields, &("leverage").to_owned());
    let ts_str = get_field(fields, &("timestamp").to_owned());
    let (user, asset, ty, margin_str, leverage_str, ts_str) = match (
        user,
        asset,
        ty,
        margin_str,
        leverage_str,
        ts_str,
    ) {
        (Some(a), Some(b), Some(c), Some(d), Some(e), Some(f)) => (a, b, c, d, e, f),
        _ => {
            return Some(
                Reply {
                    correlation_id,
                    body: Response::OrderInvalid { error: InputError::MissingField },
                },
            );
        },
    };
    let (margin, leverage, ts) = match (
        dec_parse(margin_str.as_str()),
        parse_u32_digits(leverage_str.as_str()),
        parse_i64_digits(ts_str.as_str()),
    ) {
        (Some(m), Some(l), Some(t)) => (m, l, t),
        _ => {
            return Some(
                Reply {
                    correlation_id,
                    body: Response::OrderInvalid { error: InputError::InvalidNumber },
                },
            );
        },
    };
    if !margin.is_positive() {
        return Some(
            Reply { correlation_id, body: Response::OrderInvalid { error: InputError::InvalidMargin } },
        );
    }
    if leverage < 1 {
        return Some(
            Reply {
                correlation_id,
                body: Response::OrderInvalid { error: InputError::InvalidLeverage },
            },
        );
    }
    let gap: i128 = (ts as i128) - (now as i128);
    if gap > 5 || gap < -5 {
        return Some(
            Reply {
                correlation_id,
                body: Response::OrderInvalid { error: InputError::StaleTimestamp },
            },
        );
    }
    let side = if ty == ("long").to_owned() {
        Side::Long
    } else {
        Side::Short
    };
    let order = Order {
        order_id,
        user_id: user,
        asset,
        side,
        margin,
        leverage,
        open_price: Dec { m: 0, s: 0 },
        quantity: Dec { m: 0, s: 0 },
        timestamp: ts,
    };
    let body = match eng.create_order(order) {
        Ok(()) => Response::OrderCreated,
        Err(e) => Response::OrderRejected { error: e },
    };
    Some(Reply { correlation_id, body })
}

/// Closes an order from a `CLOSE_ORDER` message. A message without an
/// `orderId` gets no reply; otherwise the state store decides, the reply
/// carries its verdict under the order id, and a successful close also
/// yields one durable record stamped with now.
pub fn handle_close_order(eng: &mut Engine, fields: &Vec<(String, String)>, now: i64) -> (r: (
    Option<Reply>,
    Option<DbRecord>,
))
    requires
        old(eng).inv(),
    ensures
        final(eng).inv(),
        close_outcome(*old(eng), *final(eng), fields@, now, r.0, r.1),
{
    let order_id = match get_field(fields, &("orderId").to_owned()) {
        Some(s) => s,
        None => {
            return (None, None);
        },
    };
    let correlation_id = clone_string(&order_id);
    match eng.close_order(&order_id) {
        Ok((pnl, close_price)) => {
            let record = DbRecord { order_id, pnl, close_price, timestamp: now };
            (
                Some(Reply { correlation_id, body: Response::OrderClosed { pnl, close_price } }),
                Some(record),
            )
        },
        Err(e) => (
            Some(Reply { correlation_id, body: Response::OrderRejected { error: e } }),
            None,
        ),
    }
}

/// Answers a `GET_BALANCE_USD` message; the state does not move. A message
/// without both `orderId` and `user` gets no reply.
pub fn handle_get_balance_usd(eng: &Engine, fields: &Vec<(String, String)>) -> (r: Option<Reply>)
    requires
        eng.inv(),
    ensures
        balance_usd_reply(*eng, fields@, r),
{
    let correlation_id = match get_field(fields, &("orderId").to_owned()) {
        Some(s) => s,
        None => {
            return None;
        },
    };
    let user = match get_field(fields, &("user").to_owned()) {
        Some(s) => s,
        None => {
            return None;
        },
    };
    let body = match eng.get_user_balance_usd(&user) {
        Ok(balance) => Response::BalanceUsd { balance },
        Err(_) => Response::BalanceUsdUnavailable,
    };
    Some(Reply { correlation_id, body })
}

/// Answers a `GET_BALANCE` message with the user's spot holdings; an unknown
/// user has none. The state does not move.
pub fn handle_get_balance(eng: &Engine, fields: &Vec<(String, String)>) -> (r: Option<Reply>)
    requires
        eng.inv(),
    ensures
        balance_reply(*eng, fields@, r),
{
    let correlation_id = match get_field(fields, &("orderId").to_owned()) {
        Some(s) => s,
        None => {
            return None;
        },
    };
    let user = match get_field(fields, &("user").to_owned()) {
        Some(s) => s,
        None => {
            return None;
        },
    };
    let assets = eng.get_user_balance(&user);
    Some(Reply { correlation_id, body: Response::Balance { assets } })
}

/// Answers a `GET_SUPPORTED_ASSETS` message with the static symbol list.
pub fn handle_get_supported_assets(fields: &Vec<(String, String)>) -> (r: Option<Reply>)
    ensures
        supported_assets_reply(fields@, r),
{
    let correlation_id = match get_field(fields, &("orderId").to_owned()) {
        Some(s) => s,
        None => {
            return None;
        },
    };
    let symbols = vec![("BTC").to_owned(), ("ETH").to_owned(), ("SOL").to_owned()];
    proof {
        assert(symbols.deep_view() =~= seq!["BTC"@, "ETH"@, "SOL"@]);
    }
    Some(Reply { correlation_id, body: Response::SupportedAssets { symbols } })
}

/// Answers a `GET_ORDERS` message with the user's live orders, in creation
/// order. The state does not move.
pub fn handle_get_orders(eng: &Engine, fields: &Vec<(String, String)>) -> (r: Option<Reply>)
    requires
        eng.inv(),
    ensures
        orders_reply(*eng, fields@, r),
{
    let correlation_id = match get_field(fields, &("orderId").to_owned()) {
        Some(s) => s,
        None => {
            return None;
        },
    };
    let user = match get_field(fields, &("user").to_owned()) {
        Some(s) => s,
        None => {
            return None;
        },
    };
    let orders = eng.get_user_orders(&user);
    proof {
        let ids = crate::index::user_order_ids(eng.orders_seq(), user@);
        assert forall|t: int| 0 <= t < ids.len() implies eng.orders_map().contains_key(
            #[trigger] ids[t],
        ) by {
            assert(orders.deep_view()[t] == eng.orders_map()[ids[t]]);
        }
    }
    Some(Reply { correlation_id, body: Response::Orders { orders } })
}

/// The single reply of an outcome, if it carries exactly one.
pub open spec fn sole_reply(rs: Seq<Reply>) -> Option<Reply> {
    if rs.len() == 1 {
        Some(rs[0])
    } else {
        None
    }
}

/// The single record of an outcome, if it carries exactly one.
pub open spec fn sole_record(rs: Seq<DbRecord>) -> Option<DbRecord> {
    if rs.len() == 1 {
        Some(rs[0])
    } else {
        None
    }
}

/// Dispatches one message by its `action` field: for each action of the
/// schema, the state change and the outcome are exactly the action's own
/// (`latest_price_outcome`, `create_outcome`, `close_outcome`, the three
/// query replies, `orders_reply`); an unknown or missing action does
/// nothing.
pub fn process_message(eng: &mut Engine, fields: &Vec<(String, String)>, now: i64) -> (r: Outcome)
    requires
        old(eng).inv(),
    ensures
        final(eng).inv(),
        r.replies@.len() <= 1,
        r.db_records@.len() <= 1,
        ({
            let action = first_field(fields@, "action"@);
            let rep = sole_reply(r.replies@);
            let rec = sole_record(r.db_records@);
            &&& (action == Some("LATEST_PRICE"@) ==> latest_price_outcome(
                *old(eng),
                *final(eng),
                fields@,
            ) && r.replies@.len() == 0 && r.db_records@.len() == 0)
            &&& (action == Some("CREATE_ORDER"@) ==> create_outcome(
                *old(eng),
                *final(eng),
                fields@,
                now as int,
                rep,
            ) && r.db_records@.len() == 0)
            &&& (action == Some("CLOSE_ORDER"@) ==> close_outcome(
                *old(eng),
                *final(eng),
                fields@,
                now,
                rep,
                rec,
            ))
            &&& (action == Some("GET_BALANCE_USD"@) ==> *final(eng) == *old(eng)
                && balance_usd_reply(*old(eng), fields@, rep) && r.db_records@.len() == 0)
            &&& (action == Some("GET_BALANCE"@) ==> *final(eng) == *old(eng) && balance_reply(
                *old(eng),
                fields@,
                rep,
            ) && r.db_records@.len() == 0)
            &&& (action == Some("GET_SUPPORTED_ASSETS"@) ==> *final(eng) == *old(eng)
                && supported_assets_reply(fields@, rep) && r.db_records@.len() == 0)
            &&& (action == Some("GET_ORDERS"@) ==> *final(eng) == *old(eng) && orders_reply(
                *old(eng),
                fields@,
                rep,
            ) && r.db_records@.len() == 0)
            &&& (match action {
                Some(a) => {
                    if a == "LATEST_PRICE"@ || a == "CREATE_ORDER"@ || a == "CLOSE_ORDER"@ || a
                        == "GET_BALANCE_USD"@ || a == "GET_BALANCE"@ || a == "GET_SUPPORTED_ASSETS"@
                        || a == "GET_ORDERS"@ {
                        true
                    } else {
                        *final(eng) == *old(eng) && r.replies@.len() == 0 && r.db_records@.len()
                            == 0
                    }
                },
                None => *final(eng) == *old(eng) && r.replies@.len() == 0 && r.db_records@.len()
                    == 0,
            })
        }),
{
    proof {
        reveal_strlit("LATEST_PRICE");
        reveal_strlit("CREATE_ORDER");
        reveal_strlit("CLOSE_ORDER");
        reveal_strlit("GET_BALANCE");
        reveal_strlit("GET_BALANCE_USD");
        reveal_strlit("GET_SUPPORTED_ASSETS");
        reveal_strlit("GET_ORDERS");
        assert("CREATE_ORDER"@.len() == 12);
        assert("CLOSE_ORDER"@.len() == 11);
        assert("GET_BALANCE"@.len() == 11);
        assert("GET_BALANCE_USD"@.len() == 15);
        assert("GET_SUPPORTED_ASSETS"@.len() == 20);
        assert("LATEST_PRICE"@.len() == 12);
        assert("GET_ORDERS"@.len() == 10);
        assert("LATEST_PRICE"@ != "CREATE_ORDER"@) by {
            assert("LATEST_PRICE"@[0] == 'L');
            assert("CREATE_ORDER"@[0] == 'C');
        }
        assert("CLOSE_ORDER"@ != "GET_BALANCE"@) by {
            assert("CLOSE_ORDER"@[0] == 'C');
            assert("GET_BALANCE"@[0] == 'G');
        }
    }
    let mut replies: Vec<Reply> = Vec::new();
    let mut db_records: Vec<DbRecord> = Vec::new();
    let action = match get_field(fields, &("action").to_owned()) {
        Some(a) => a,
        None => {
            return Outcome { replies, db_records };
        },
    };
    match action_of(&action) {
        Some(Action::LatestPrice) => {
            let _ = handle_latest_price(eng, fields);
        },
        Some(Action::CreateOrder) => {
            let handled = handle_create_order(eng, fields, now);
            if let Some(rep) = handled {
                replies.push(rep);
            }
            proof {
                assert(sole_reply(replies@) == handled);
            }
        },
        Some(Action::CloseOrder) => {
            let (rep, rec) = handle_close_order(eng, fields, now);
            let ghost handled_rep = rep;
            let ghost handled_rec = rec;
            if let Some(rep) = rep {
                replies.push(rep);
            }
            if let Some(rec) = rec {
                db_records.push(rec);
            }
            proof {
                assert(sole_reply(replies@) == handled_rep);
                assert(sole_record(db_records@) == handled_rec);
            }
        },
        Some(Action::GetBalanceUsd) => {
            let handled = handle_get_balance_usd(eng, fields);
            if let Some(rep) = handled {
                replies.push(rep);
            }
            proof {
                assert(sole_reply(replies@) == handled);
            }
        },
        Some(Action::GetBalance) => {
            let handled = handle_get_balance(eng, fields);
            if let Some(rep) = handled {
                replies.push(rep);
            }
            proof {
                assert(sole_reply(replies@) == handled);
            }
        },
        Some(Action::GetSupportedAssets) => {
            let handled = handle_get_supported_assets(fields);
            if let Some(rep) = handled {
                replies.push(rep);
            }
            proof {
                assert(sole_reply(replies@) == handled);
            }
        },
        None => {
            if action == ("GET_ORDERS").to_owned() {
                let handled = handle_get_orders(eng, fields);
                if let Some(rep) = handled {
                    replies.push(rep);
                }
                proof {
                    assert(sole_reply(replies@) == handled);
                }
            }
        },
    }
    Outcome { replies, db_records }
}

} // verus!

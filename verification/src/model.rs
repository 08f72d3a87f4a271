//! The entities of the exchange: users, open leveraged orders, asset prices
//! and liquidation-index entries, with their mathematical views and the
//! decimal formulas (quantity, liquidation price, profit and loss, mid price)
//! stated over the decimal operations of [`crate::dec`].
use vstd::prelude::*;
use crate::dec::{Dec, spec_add, spec_sub, spec_mul, spec_div, str_repr};

verus! {

/// The side of a leveraged position.
#[derive(Clone, Copy, PartialEq, Eq, Structural, Debug)]
pub enum Side {
    /// Profits when the price rises; opened at the buy price.
    Long,
    /// Profits when the price falls; opened at the sell price.
    Short,
}

impl DeepView for Side {
    type V = Side;

    open spec fn deep_view(&self) -> Side {
        *self
    }
}

impl DeepView for Dec {
    type V = Dec;

    open spec fn deep_view(&self) -> Dec {
        *self
    }
}

/// An open leveraged position.
#[derive(Clone, Debug)]
pub struct Order {
    /// Unique across the system.
    pub order_id: String,
    /// The owner; created on first touch and kept forever.
    pub user_id: String,
    /// The traded symbol.
    pub asset: String,
    /// Long or short.
    pub side: Side,
    /// Collateral debited at creation; positive.
    pub margin: Dec,
    /// Positive integer multiplier.
    pub leverage: u32,
    /// The quoted buy (long) or sell (short) price at creation.
    pub open_price: Dec,
    /// `margin * leverage / open_price`, fixed at creation.
    pub quantity: Dec,
    /// Seconds since the epoch at creation.
    pub timestamp: i64,
}

/// The mathematical view of an [`Order`].
pub ghost struct OrderV {
    pub order_id: Seq<char>,
    pub user_id: Seq<char>,
    pub asset: Seq<char>,
    pub side: Side,
    pub margin: Dec,
    pub leverage: u32,
    pub open_price: Dec,
    pub quantity: Dec,
    pub timestamp: i64,
}

impl DeepView for Order {
    type V = OrderV;

    open spec fn deep_view(&self) -> OrderV {
        OrderV {
            order_id: self.order_id@,
            user_id: self.user_id@,
            asset: self.asset@,
            side: self.side,
            margin: self.margin,
            leverage: self.leverage,
            open_price: self.open_price,
            quantity: self.quantity,
            timestamp: self.timestamp,
        }
    }
}

impl OrderV {
    /// The decimals are representable, the leverage usable, the margin
    /// positive, and the liquidation price computable.
    pub open spec fn wf(self) -> bool {
        &&& self.margin.wf()
        &&& self.open_price.wf()
        &&& self.quantity.wf()
        &&& self.margin.v() > 0
        &&& 1 <= self.leverage
        &&& spec_liquidation_price(self) is Some
        &&& liq_price_of(self).wf()
    }
}

/// The quoted prices of one asset; upserted, never removed.
#[derive(Clone, Debug)]
pub struct AssetPrice {
    /// The symbol the quotes belong to.
    pub symbol: String,
    /// What a buyer pays.
    pub buy_price: Dec,
    /// What a seller receives.
    pub sell_price: Dec,
    /// Display scale.
    pub decimals: u32,
}

/// The mathematical view of an [`AssetPrice`].
pub ghost struct AssetPriceV {
    pub symbol: Seq<char>,
    pub buy_price: Dec,
    pub sell_price: Dec,
    pub decimals: u32,
}

impl DeepView for AssetPrice {
    type V = AssetPriceV;

    open spec fn deep_view(&self) -> AssetPriceV {
        AssetPriceV {
            symbol: self.symbol@,
            buy_price: self.buy_price,
            sell_price: self.sell_price,
            decimals: self.decimals,
        }
    }
}

impl AssetPriceV {
    /// Both quotes are representable decimals.
    pub open spec fn wf(self) -> bool {
        self.buy_price.wf() && self.sell_price.wf()
    }
}

/// A user's cash balance and spot holdings.
#[derive(Clone, Debug)]
pub struct UserBalance {
    /// Cash; starts at the initial deposit, moves with margins and
    /// realized profit and loss.
    pub usd_balance: Dec,
    /// Spot holdings per symbol, with a display scale; the core never
    /// credits these.
    pub asset_balances: Vec<(String, (Dec, u32))>,
}

/// The mathematical view of a [`UserBalance`].
pub ghost struct UserBalanceV {
    pub usd_balance: Dec,
    pub asset_balances: Seq<(Seq<char>, (Dec, u32))>,
}

impl DeepView for UserBalance {
    type V = UserBalanceV;

    open spec fn deep_view(&self) -> UserBalanceV {
        UserBalanceV { usd_balance: self.usd_balance, asset_balances: self.asset_balances.deep_view() }
    }
}

/// One liquidation-index entry: enough to find and forfeit the order when
/// its stored threshold price is crossed.
#[derive(Clone, Debug)]
pub struct LiquidationEntry {
    /// The order this entry watches.
    pub order_id: String,
    /// Its owner.
    pub user_id: String,
    /// The price at which the position is forfeited.
    pub liquidation_price: Dec,
}

/// The mathematical view of a [`LiquidationEntry`].
pub ghost struct LiquidationEntryV {
    pub order_id: Seq<char>,
    pub user_id: Seq<char>,
    pub liquidation_price: Dec,
}

impl DeepView for LiquidationEntry {
    type V = LiquidationEntryV;

    open spec fn deep_view(&self) -> LiquidationEntryV {
        LiquidationEntryV {
            order_id: self.order_id@,
            user_id: self.user_id@,
            liquidation_price: self.liquidation_price,
        }
    }
}

/// The integer one as a decimal.
pub open spec fn dec_one() -> Dec {
    Dec { m: 1, s: 0 }
}

/// The liquidation threshold `90 / (leverage * 100)`, the loss fraction of
/// the margin at which the position is forfeited.
pub open spec fn spec_threshold(leverage: u32) -> Option<Dec> {
    spec_div(Dec { m: 90, s: 0 }, Dec { m: (leverage * 100) as i128, s: 0 })
}

/// The liquidation price from a position's determining parts:
/// `open_price * (1 - threshold)` for a long, `open_price * (1 + threshold)`
/// for a short.
pub open spec fn spec_liq_price_parts(side: Side, open_price: Dec, leverage: u32) -> Option<Dec> {
    match spec_threshold(leverage) {
        Some(t) => {
            let f = if side is Long {
                spec_sub(dec_one(), t)
            } else {
                spec_add(dec_one(), t)
            };
            match f {
                Some(f) => spec_mul(open_price, f),
                None => None,
            }
        },
        None => None,
    }
}

/// The liquidation price of an order.
pub open spec fn spec_liquidation_price(o: OrderV) -> Option<Dec> {
    spec_liq_price_parts(o.side, o.open_price, o.leverage)
}

/// The liquidation price of a well-formed order; for the index key and the
/// scanner, where creation has already established that it exists.
pub open spec fn liq_price_of(o: OrderV) -> Dec {
    spec_liquidation_price(o)->Some_0
}

/// The canonical decimal string of the liquidation price: the index key.
pub open spec fn price_key_of(o: OrderV) -> Seq<char> {
    str_repr(liq_price_of(o).m, liq_price_of(o).s)
}

/// The index entry a live order is watched by.
pub open spec fn entry_of(o: OrderV) -> LiquidationEntryV {
    LiquidationEntryV {
        order_id: o.order_id,
        user_id: o.user_id,
        liquidation_price: liq_price_of(o),
    }
}

/// Realized or unrealized profit and loss against a price: the price swing
/// in the position's favour times its quantity.
pub open spec fn spec_pnl(o: OrderV, price: Dec) -> Option<Dec> {
    let swing = if o.side is Long {
        spec_sub(price, o.open_price)
    } else {
        spec_sub(o.open_price, price)
    };
    match swing {
        Some(d) => spec_mul(d, o.quantity),
        None => None,
    }
}

/// The mid price `(buy + sell) / 2` the scanner and position valuation use.
pub open spec fn spec_mid(p: AssetPriceV) -> Option<Dec> {
    match spec_add(p.buy_price, p.sell_price) {
        Some(t) => spec_div(t, Dec { m: 2, s: 0 }),
        None => None,
    }
}

/// Computes [`spec_threshold`].
pub fn compute_threshold(leverage: u32) -> (r: Option<Dec>)
    requires
        1 <= leverage,
    ensures
        r == spec_threshold(leverage),
        r matches Some(c) ==> c.wf(),
{
    let denom: i128 = (leverage as i128) * 100;
    crate::dec::raw_div(Dec { m: 90, s: 0 }, Dec { m: denom, s: 0 })
}

/// Computes [`spec_liq_price_parts`].
pub fn compute_liquidation_price(side: Side, open_price: Dec, leverage: u32) -> (r: Option<Dec>)
    requires
        open_price.wf(),
        1 <= leverage,
    ensures
        r == spec_liq_price_parts(side, open_price, leverage),
        r matches Some(c) ==> c.wf(),
{
    let t = match compute_threshold(leverage) {
        Some(t) => t,
        None => {
            return None;
        },
    };
    let one = Dec { m: 1, s: 0 };
    let f = match (if side == Side::Long {
        crate::dec::raw_sub(one, t)
    } else {
        crate::dec::raw_add(one, t)
    }) {
        Some(f) => f,
        None => {
            return None;
        },
    };
    crate::dec::raw_mul(open_price, f)
}

} // verus!

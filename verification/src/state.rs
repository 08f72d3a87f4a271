//! The state store: users, live orders, the two derived indices and asset
//! prices, owned by one [`Engine`] value.
//!
//! Every operation preserves [`Engine::inv`]: keys are unique, every stored
//! order is well formed and owned by an existing user, the stored indices
//! equal the denotation of the live orders ([`user_index`], [`liq_index`]),
//! and the cash conservation equation holds: balances plus live margins equal
//! deposits plus realized profit and loss paid out plus the recorded rounding
//! drift.
use vstd::prelude::*;
use vstd::arithmetic::power::pow;
use crate::alist::{
    alist_map, unique_keys, alist_find, sum_by, lemma_alist_map_domain, lemma_alist_map_index,
    lemma_alist_map_update, lemma_alist_map_remove, lemma_alist_map_push, lemma_sum_by_update,
    lemma_sum_by_remove,
};
use crate::dec::{Dec, SCALE_LIMIT};
use crate::model::{
    Order, OrderV, AssetPrice, AssetPriceV, UserBalance, UserBalanceV, LiquidationEntry,
    LiquidationEntryV, Side,
};
use crate::index::{
    user_index, liq_index, user_order_ids, liq_bucket, asset_buckets, has_asset_order,
    unique_order_ids,
};

verus! {

/// Why a state operation was refused; the state is unchanged except where an
/// operation says otherwise.
#[derive(Clone, Copy, PartialEq, Eq, Structural, Debug)]
pub enum EngineError {
    /// The user cannot cover the requested margin.
    InsufficientBalance,
    /// No quote is stored for the order's asset, or its price is zero.
    AssetPriceUnavailable,
    /// No live order carries the id.
    OrderNotFound,
    /// The order's owner is missing from the user table.
    UserNotFound,
    /// A live order already carries the id.
    OrderIdTaken,
    /// A decimal result cannot be represented.
    Arithmetic,
}

/// The stored buckets of one asset in the liquidation index: price key to
/// entries, keys unique.
///
/// The buckets stand in insertion order, a deliberate replacement for the
/// key-ordered map a range scan would want: the sweep is the plain pass over
/// every bucket and never relies on key order, and the price key is the
/// printed form of an outside decimal, whose ordering the contracts do not
/// assume.
pub struct AssetBuckets {
    /// The bucket list; read through its map denotation.
    pub buckets: Vec<(String, Vec<LiquidationEntry>)>,
}

impl DeepView for AssetBuckets {
    type V = Map<Seq<char>, Seq<LiquidationEntryV>>;

    open spec fn deep_view(&self) -> Self::V {
        alist_map(self.buckets@)
    }
}

/// The initial cash of a user created on first touch.
pub const INITIAL_DEPOSIT: u64 = 5000;

/// The measure summed over the user table: cash value.
pub open spec fn balance_measure() -> spec_fn((String, UserBalance)) -> int {
    |p: (String, UserBalance)| p.1.usd_balance.v()
}

/// The measure summed over the order table: margin value.
pub open spec fn margin_measure() -> spec_fn((String, Order)) -> int {
    |p: (String, Order)| p.1.margin.v()
}

/// The authoritative in-memory state of the exchange.
pub struct Engine {
    /// Cash and holdings per user id.
    pub users: Vec<(String, UserBalance)>,
    /// Live orders per order id.
    pub orders: Vec<(String, Order)>,
    /// Order ids per user id; absent rather than empty.
    pub orders_by_user: Vec<(String, Vec<String>)>,
    /// Liquidation entries per asset and price key; absent rather than empty.
    pub liquidation_index: Vec<(String, AssetBuckets)>,
    /// Last quote per symbol.
    pub asset_prices: Vec<(String, AssetPrice)>,
    /// The broker entry id past which the engine has advanced.
    pub last_processed_id: String,
    /// Total value ever deposited (initial deposits of created users).
    pub deposits: Ghost<int>,
    /// Realized profit and loss paid: credited on closes, minus margins
    /// forfeited on liquidations.
    pub pnl_paid: Ghost<int>,
    /// Value created or destroyed by decimal rounding of close credits.
    pub drift: Ghost<int>,
}

impl Engine {
    /// Cash and holdings per user id.
    pub open spec fn users_map(self) -> Map<Seq<char>, UserBalanceV> {
        alist_map(self.users@)
    }

    /// Live orders per order id.
    pub open spec fn orders_map(self) -> Map<Seq<char>, OrderV> {
        alist_map(self.orders@)
    }

    /// Last quote per symbol.
    pub open spec fn prices_map(self) -> Map<Seq<char>, AssetPriceV> {
        alist_map(self.asset_prices@)
    }

    /// The stored user index.
    pub open spec fn by_user_map(self) -> Map<Seq<char>, Seq<Seq<char>>> {
        alist_map(self.orders_by_user@)
    }

    /// The stored liquidation index.
    pub open spec fn liq_map(self) -> Map<Seq<char>, Map<Seq<char>, Seq<LiquidationEntryV>>> {
        alist_map(self.liquidation_index@)
    }

    /// The live orders in creation order.
    pub open spec fn orders_seq(self) -> Seq<OrderV> {
        self.orders@.map_values(|p: (String, Order)| p.1.deep_view())
    }

    /// The broker entry id past which the engine has advanced.
    pub open spec fn last_id(self) -> Seq<char> {
        self.last_processed_id@
    }

    /// Total value ever deposited.
    pub open spec fn deposits_v(self) -> int {
        self.deposits@
    }

    /// Realized profit and loss paid out.
    pub open spec fn pnl_paid_v(self) -> int {
        self.pnl_paid@
    }

    /// Value created or destroyed by rounded close credits.
    pub open spec fn drift_v(self) -> int {
        self.drift@
    }

    /// The sum of all user cash, in value units.
    pub open spec fn balances_total(self) -> int {
        sum_by(self.users@, balance_measure())
    }

    /// The sum of all live margins, in value units.
    pub open spec fn margins_total(self) -> int {
        sum_by(self.orders@, margin_measure())
    }

    /// The state invariant; every operation requires and preserves it.
    pub open spec fn inv(self) -> bool {
        &&& unique_keys(self.users@)
        &&& unique_keys(self.orders@)
        &&& unique_keys(self.orders_by_user@)
        &&& unique_keys(self.liquidation_index@)
        &&& unique_keys(self.asset_prices@)
        &&& forall|i: int|
            0 <= i < self.liquidation_index@.len() ==> unique_keys(
                #[trigger] self.liquidation_index@[i].1.buckets@,
            )
        &&& forall|i: int|
            0 <= i < self.orders@.len() ==> {
                let p = #[trigger] self.orders@[i];
                &&& p.0@ == p.1.order_id@
                &&& p.1.deep_view().wf()
                &&& alist_map(self.users@).contains_key(p.1.user_id@)
            }
        &&& forall|i: int| 0 <= i < self.users@.len() ==> (#[trigger] self.users@[i]).1.usd_balance.wf()
        &&& forall|i: int|
            0 <= i < self.asset_prices@.len() ==> {
                let p = #[trigger] self.asset_prices@[i];
                p.0@ == p.1.symbol@ && p.1.deep_view().wf()
            }
        &&& self.by_user_map() == user_index(self.orders_seq())
        &&& self.liq_map() == liq_index(self.orders_seq())
        &&& self.balances_total() + self.margins_total() == self.deposits@ + self.pnl_paid@
            + self.drift@
    }

    /// An empty engine: no users, orders, prices; the ledger balanced at
    /// zero; resumption from broker id `"0"`.
    pub fn new() -> (r: Engine)
        ensures
            r.inv(),
            r.users_map() == Map::<Seq<char>, UserBalanceV>::empty(),
            r.orders_map() == Map::<Seq<char>, OrderV>::empty(),
            r.prices_map() == Map::<Seq<char>, AssetPriceV>::empty(),
            r.by_user_map() == Map::<Seq<char>, Seq<Seq<char>>>::empty(),
            r.liq_map() == Map::<Seq<char>, Map<Seq<char>, Seq<LiquidationEntryV>>>::empty(),
            r.last_id() == "0"@,
            r.deposits_v() == 0,
            r.pnl_paid_v() == 0,
            r.drift_v() == 0,
    {
        let r = Engine {
            users: Vec::new(),
            orders: Vec::new(),
            orders_by_user: Vec::new(),
            liquidation_index: Vec::new(),
            asset_prices: Vec::new(),
            last_processed_id: "0".to_owned(),
            deposits: Ghost(0),
            pnl_paid: Ghost(0),
            drift: Ghost(0),
        };
        proof {
            lemma_empty_indices();
            assert(r.orders_seq() =~= Seq::<OrderV>::empty());
            assert(r.by_user_map() =~= Map::<Seq<char>, Seq<Seq<char>>>::empty());
            assert(r.liq_map() =~= Map::<Seq<char>, Map<Seq<char>, Seq<LiquidationEntryV>>>::empty());
            assert(r.users_map() =~= Map::<Seq<char>, UserBalanceV>::empty());
            assert(r.orders_map() =~= Map::<Seq<char>, OrderV>::empty());
            assert(r.prices_map() =~= Map::<Seq<char>, AssetPriceV>::empty());
        }
        r
    }

    /// Upserts the quote for `price.symbol`; nothing else moves.
    pub fn update_price(&mut self, price: AssetPrice)
        requires
            old(self).inv(),
            price.deep_view().wf(),
        ensures
            final(self).inv(),
            final(self).prices_map() == old(self).prices_map().insert(
                price.symbol@,
                price.deep_view(),
            ),
            final(self).users == old(self).users,
            final(self).orders == old(self).orders,
            final(self).orders_by_user == old(self).orders_by_user,
            final(self).liquidation_index == old(self).liquidation_index,
            final(self).last_processed_id == old(self).last_processed_id,
            final(self).deposits == old(self).deposits,
            final(self).pnl_paid == old(self).pnl_paid,
            final(self).drift == old(self).drift,
    {
        let ghost before = self.asset_prices@;
        match alist_find(&self.asset_prices, &price.symbol) {
            Some(i) => {
                let mut entry = self.asset_prices.remove(i);
                entry.1 = price;
                let ghost replaced = (entry.0, entry.1);
                self.asset_prices.insert(i, entry);
                proof {
                    assert(self.asset_prices@ =~= before.update(i as int, replaced));
                    assert(replaced.0@ == before[i as int].0@);
                    lemma_alist_map_update(before, i as int, replaced);
                    assert(final(self).prices_map() =~= old(self).prices_map().insert(
                        price.symbol@,
                        price.deep_view(),
                    ));
                }
            },
            None => {
                let key = clone_string(&price.symbol);
                let ghost entry = (key, price);
                self.asset_prices.push((key, price));
                proof {
                    lemma_alist_map_push(before, entry);
                    assert(self.asset_prices@ =~= before.push(entry));
                    assert(final(self).prices_map() =~= old(self).prices_map().insert(
                        price.symbol@,
                        price.deep_view(),
                    ));
                }
            },
        }
        proof {
            assert(self.orders_seq() =~= old(self).orders_seq());
        }
    }

    /// The stored quote for a symbol, if any.
    pub fn get_price(&self, symbol: &String) -> (r: Option<AssetPrice>)
        requires
            self.inv(),
        ensures
            match r {
                Some(p) => self.prices_map().contains_key(symbol@) && p.deep_view()
                    == self.prices_map()[symbol@] && p.deep_view().wf(),
                None => !self.prices_map().contains_key(symbol@),
            },
    {
        proof {
            lemma_alist_map_domain(self.asset_prices@, symbol@);
        }
        match alist_find(&self.asset_prices, symbol) {
            Some(i) => {
                proof {
                    lemma_alist_map_index(self.asset_prices@, i as int);
                }
                Some(clone_asset_price(&self.asset_prices[i].1))
            },
            None => None,
        }
    }

    /// The user's state, created with the initial deposit on first touch.
    pub fn get_or_create_user(&mut self, user_id: &String) -> (r: UserBalance)
        requires
            old(self).inv(),
        ensures
            final(self).inv(),
            r.usd_balance.wf(),
            final(self).users_map() == old(self).users_map().insert(user_id@, r.deep_view()),
            old(self).users_map().contains_key(user_id@) ==> *final(self) == *old(self)
                && r.deep_view() == old(self).users_map()[user_id@],
            !old(self).users_map().contains_key(user_id@) ==> r.deep_view() == (UserBalanceV {
                usd_balance: Dec { m: INITIAL_DEPOSIT as i128, s: 0 },
                asset_balances: Seq::empty(),
            }) && final(self).deposits@ == old(self).deposits@ + (INITIAL_DEPOSIT as int) * pow(
                10,
                SCALE_LIMIT as nat,
            ),
            final(self).orders == old(self).orders,
            final(self).orders_by_user == old(self).orders_by_user,
            final(self).liquidation_index == old(self).liquidation_index,
            final(self).asset_prices == old(self).asset_prices,
            final(self).last_processed_id == old(self).last_processed_id,
            final(self).pnl_paid == old(self).pnl_paid,
            final(self).drift == old(self).drift,
    {
        let ghost before = self.users@;
        proof {
            lemma_alist_map_domain(before, user_id@);
        }
        match alist_find(&self.users, user_id) {
            Some(i) => {
                proof {
                    lemma_alist_map_index(before, i as int);
                    assert(old(self).users_map().insert(
                        user_id@,
                        old(self).users_map()[user_id@],
                    ) =~= old(self).users_map());
                }
                clone_user_balance(&self.users[i].1)
            },
            None => {
                let fresh = UserBalance {
                    usd_balance: Dec { m: INITIAL_DEPOSIT as i128, s: 0 },
                    asset_balances: Vec::new(),
                };
                let key = clone_string(user_id);
                let result = clone_user_balance(&fresh);
                let ghost entry = (key, fresh);
                self.users.push((key, fresh));
                self.deposits = Ghost(
                    self.deposits@ + (INITIAL_DEPOSIT as int) * pow(10, SCALE_LIMIT as nat),
                );
                proof {
                    lemma_alist_map_push(before, entry);
                    assert(self.users@ =~= before.push(entry));
                    assert(before.push(entry).drop_last() =~= before);
                    assert(sum_by(self.users@, balance_measure()) == sum_by(
                        before,
                        balance_measure(),
                    ) + entry.1.usd_balance.v());
                    assert(entry.1.usd_balance.v() == (INITIAL_DEPOSIT as int) * pow(
                        10,
                        SCALE_LIMIT as nat,
                    ));
                    assert(final(self).users_map() =~= old(self).users_map().insert(
                        user_id@,
                        result.deep_view(),
                    ));
                    assert(result.deep_view().asset_balances =~= Seq::<(Seq<char>, (Dec, u32))>::empty());
                    assert(self.orders_seq() =~= old(self).orders_seq());
                }
                result
            },
        }
    }
}

/// A user yet unseen, as created on first touch.
pub open spec fn fresh_user() -> UserBalanceV {
    UserBalanceV {
        usd_balance: Dec { m: INITIAL_DEPOSIT as i128, s: 0 },
        asset_balances: Seq::empty(),
    }
}

/// What creating an order decides: the stored order on success, the exact
/// refusal otherwise. Checked in this fixed sequence: duplicate id, missing
/// quote, notional size, quantity, cover, liquidation price, exact debit.
pub open spec fn create_verdict(e: Engine, o: OrderV) -> Result<OrderV, EngineError> {
    if e.orders_map().contains_key(o.order_id) {
        Err(EngineError::OrderIdTaken)
    } else if !e.prices_map().contains_key(o.asset) {
        Err(EngineError::AssetPriceUnavailable)
    } else {
        let p = e.prices_map()[o.asset];
        let open = if o.side is Long {
            p.buy_price
        } else {
            p.sell_price
        };
        match crate::dec::spec_mul(o.margin, Dec { m: o.leverage as i128, s: 0 }) {
            None => Err(EngineError::Arithmetic),
            Some(n) => match crate::dec::spec_div(n, open) {
                None => Err(EngineError::AssetPriceUnavailable),
                Some(q) => {
                    let base = e.balance_after_touch(o.user_id);
                    if base.usd_balance.v() < o.margin.v() {
                        Err(EngineError::InsufficientBalance)
                    } else if crate::model::spec_liq_price_parts(o.side, open, o.leverage)
                        is None {
                        Err(EngineError::Arithmetic)
                    } else if !crate::dec::fits_common_scale(base.usd_balance, o.margin) {
                        Err(EngineError::Arithmetic)
                    } else {
                        Ok(OrderV { open_price: open, quantity: q, ..o })
                    }
                },
            },
        }
    }
}

impl Engine {
    /// The user table once a user id has been touched.
    pub open spec fn users_after_touch(self, uid: Seq<char>) -> Map<Seq<char>, UserBalanceV> {
        if self.users_map().contains_key(uid) {
            self.users_map()
        } else {
            self.users_map().insert(uid, fresh_user())
        }
    }

    /// The user's state once the id has been touched.
    pub open spec fn balance_after_touch(self, uid: Seq<char>) -> UserBalanceV {
        if self.users_map().contains_key(uid) {
            self.users_map()[uid]
        } else {
            fresh_user()
        }
    }

    /// Total deposits once the id has been touched.
    pub open spec fn deposits_after_touch(self, uid: Seq<char>) -> int {
        self.deposits@ + if self.users_map().contains_key(uid) {
            0int
        } else {
            (INITIAL_DEPOSIT as int) * pow(10, SCALE_LIMIT as nat)
        }
    }

    /// Opens a leveraged position: debits the margin exactly and files the
    /// order in the live table and both indices, atomically. The owner is
    /// created on first touch even when the order is refused; a refusal
    /// changes nothing else. Fails exactly as [`create_verdict`] says;
    /// after a successful creation the owner's cash is not negative.
    pub fn create_order(&mut self, order: Order) -> (r: Result<(), EngineError>)
        requires
            old(self).inv(),
            order.margin.wf(),
            order.margin.v() > 0,
            1 <= order.leverage,
        ensures
            final(self).inv(),
            final(self).asset_prices == old(self).asset_prices,
            final(self).last_processed_id == old(self).last_processed_id,
            final(self).pnl_paid == old(self).pnl_paid,
            final(self).drift == old(self).drift,
            r is Ok <==> create_verdict(*old(self), order.deep_view()) is Ok,
            old(self).orders_map().contains_key(order.order_id@) ==> r == Err::<
                (),
                EngineError,
            >(EngineError::OrderIdTaken) && *final(self) == *old(self),
            !old(self).orders_map().contains_key(order.order_id@) ==> {
                &&& final(self).deposits@ == old(self).deposits_after_touch(order.user_id@)
                &&& match create_verdict(*old(self), order.deep_view()) {
                    Ok(newo) => {
                        let base = old(self).balance_after_touch(order.user_id@);
                        let debited = crate::dec::spec_sub(base.usd_balance, order.margin)->Some_0;
                        &&& r == Ok::<(), EngineError>(())
                        &&& final(self).orders_map() == old(self).orders_map().insert(
                            order.order_id@,
                            newo,
                        )
                        &&& final(self).orders_seq() == old(self).orders_seq().push(newo)
                        &&& final(self).users_map() == old(self).users_after_touch(
                            order.user_id@,
                        ).insert(
                            order.user_id@,
                            UserBalanceV {
                                usd_balance: debited,
                                asset_balances: base.asset_balances,
                            },
                        )
                        &&& debited.v() == base.usd_balance.v() - order.margin.v()
                        &&& debited.v() >= 0
                    },
                    Err(e) => {
                        &&& r == Err::<(), EngineError>(e)
                        &&& final(self).users_map() == old(self).users_after_touch(order.user_id@)
                        &&& final(self).orders == old(self).orders
                        &&& final(self).orders_by_user == old(self).orders_by_user
                        &&& final(self).liquidation_index == old(self).liquidation_index
                    },
                }
            },
    {
        let ghost o = order.deep_view();
        proof {
            lemma_alist_map_domain(self.orders@, order.order_id@);
        }
        match alist_find(&self.orders, &order.order_id) {
            Some(_) => {
                return Err(EngineError::OrderIdTaken);
            },
            None => {},
        }
        let user = self.get_or_create_user(&order.user_id);
        let ghost mid = *self;
        let price = match self.get_price(&order.asset) {
            Some(p) => p,
            None => {
                return Err(EngineError::AssetPriceUnavailable);
            },
        };
        let open_price = if order.side == Side::Long {
            price.buy_price
        } else {
            price.sell_price
        };
        let notional = match crate::dec::raw_mul(
            order.margin,
            Dec { m: order.leverage as i128, s: 0 },
        ) {
            Some(n) => n,
            None => {
                return Err(EngineError::Arithmetic);
            },
        };
        let quantity = match crate::dec::raw_div(notional, open_price) {
            Some(q) => q,
            None => {
                return Err(EngineError::AssetPriceUnavailable);
            },
        };
        if crate::dec::dec_lt(&user.usd_balance, &order.margin) {
            return Err(EngineError::InsufficientBalance);
        }
        let liq_price = match crate::model::compute_liquidation_price(
            order.side,
            open_price,
            order.leverage,
        ) {
            Some(l) => l,
            None => {
                return Err(EngineError::Arithmetic);
            },
        };
        let new_balance = match crate::dec::try_sub_exact(user.usd_balance, order.margin) {
            Some(b) => b,
            None => {
                return Err(EngineError::Arithmetic);
            },
        };
        // Commit: debit, then file the order in the table and both indices.
        let iu = match alist_find(&self.users, &order.user_id) {
            Some(i) => i,
            None => {
                proof {
                    lemma_alist_map_domain(self.users@, order.user_id@);
                    assert(false);
                }
                return Err(EngineError::UserNotFound);
            },
        };
        let ghost users_before = self.users@;
        proof {
            lemma_alist_map_index(users_before, iu as int);
        }
        let mut ue = self.users.remove(iu);
        ue.1.usd_balance = new_balance;
        let ghost new_ue = (ue.0, ue.1);
        self.users.insert(iu, ue);
        proof {
            assert(self.users@ =~= users_before.update(iu as int, new_ue));
            lemma_alist_map_update(users_before, iu as int, new_ue);
            lemma_sum_by_update(users_before, iu as int, new_ue, balance_measure());
        }
        let stored = Order {
            order_id: clone_string(&order.order_id),
            user_id: clone_string(&order.user_id),
            asset: clone_string(&order.asset),
            side: order.side,
            margin: order.margin,
            leverage: order.leverage,
            open_price,
            quantity,
            timestamp: order.timestamp,
        };
        let ghost newv = stored.deep_view();
        let okey = clone_string(&order.order_id);
        let ghost orders_before = self.orders@;
        let ghost oentry = (okey, stored);
        proof {
            lemma_alist_map_push(orders_before, oentry);
        }
        self.orders.push((okey, stored));
        by_user_insert(
            &mut self.orders_by_user,
            &order.user_id,
            clone_string(&order.order_id),
            Ghost(mid.orders_seq()),
            Ghost(newv),
        );
        let key_string = crate::dec::dec_to_string(&liq_price);
        let lentry = LiquidationEntry {
            order_id: clone_string(&order.order_id),
            user_id: clone_string(&order.user_id),
            liquidation_price: liq_price,
        };
        proof {
            assert(crate::model::spec_liquidation_price(newv) == Some(liq_price));
            assert(crate::model::price_key_of(newv) == key_string@);
            assert(crate::model::entry_of(newv) == lentry.deep_view());
        }
        liq_insert(
            &mut self.liquidation_index,
            &order.asset,
            key_string,
            lentry,
            Ghost(mid.orders_seq()),
            Ghost(newv),
        );
        proof {
            assert(self.orders@ =~= orders_before.push(oentry));
            assert(self.orders_seq() =~= mid.orders_seq().push(newv));
            assert(orders_before.push(oentry).drop_last() =~= orders_before);
            assert(sum_by(self.orders@, margin_measure()) == sum_by(
                orders_before,
                margin_measure(),
            ) + order.margin.v());
            assert(newv.wf());
            assert forall|i: int| 0 <= i < self.orders@.len() implies {
                let p = #[trigger] self.orders@[i];
                &&& p.0@ == p.1.order_id@
                &&& p.1.deep_view().wf()
                &&& alist_map(self.users@).contains_key(p.1.user_id@)
            } by {
                if i < self.orders@.len() - 1 {
                    assert(self.orders@[i] == orders_before[i]);
                    assert(alist_map(mid.users@).contains_key(self.orders@[i].1.user_id@));
                }
            }
            assert(final(self).orders_map() =~= old(self).orders_map().insert(
                order.order_id@,
                newv,
            ));
            assert(final(self).users_map() =~= old(self).users_after_touch(
                order.user_id@,
            ).insert(
                order.user_id@,
                UserBalanceV {
                    usd_balance: new_balance,
                    asset_balances: old(self).balance_after_touch(
                        order.user_id@,
                    ).asset_balances,
                },
            ));
        }
        Ok(())
    }
}

/// The positions of the given orders against the stored mid prices, in
/// order: an order is skipped when its asset has no quote or the arithmetic
/// has no representable result.
pub open spec fn positions_denot(e: Engine, ids: Seq<Seq<char>>) -> Seq<(OrderV, Dec)>
    decreases ids.len(),
{
    if ids.len() == 0 {
        Seq::empty()
    } else {
        let rest = positions_denot(e, ids.drop_last());
        let o = e.orders_map()[ids.last()];
        if e.prices_map().contains_key(o.asset) {
            match crate::model::spec_mid(e.prices_map()[o.asset]) {
                Some(mid) => match crate::model::spec_pnl(o, mid) {
                    Some(pnl) => rest.push((o, pnl)),
                    None => rest,
                },
                None => rest,
            }
        } else {
            rest
        }
    }
}

/// An id in a user's list names a live order of that user.
pub proof fn lemma_user_ids_member(os: Seq<OrderV>, uid: Seq<char>, t: int)
    ensures
        0 <= t < user_order_ids(os, uid).len() ==> exists|j: int|
            0 <= j < os.len() && os[j].order_id == user_order_ids(os, uid)[t] && os[j].user_id
                == uid,
    decreases os.len(),
{
    if os.len() > 0 && 0 <= t < user_order_ids(os, uid).len() {
        let ids = user_order_ids(os, uid);
        let prior = user_order_ids(os.drop_last(), uid);
        if os.last().user_id == uid && t == ids.len() - 1 {
            assert(os[os.len() - 1].order_id == ids[t] && os[os.len() - 1].user_id == uid);
        } else {
            lemma_user_ids_member(os.drop_last(), uid, t);
            let j = choose|j: int|
                0 <= j < os.drop_last().len() && os.drop_last()[j].order_id == prior[t]
                    && os.drop_last()[j].user_id == uid;
            assert(os[j].order_id == prior[t] && os[j].user_id == uid);
        }
    }
}

impl Engine {
    /// Sets the broker entry id past which processing has advanced; nothing
    /// else moves.
    pub fn advance_to(&mut self, id: String)
        requires
            old(self).inv(),
        ensures
            final(self).inv(),
            final(self).last_processed_id == id,
            final(self).users == old(self).users,
            final(self).orders == old(self).orders,
            final(self).orders_by_user == old(self).orders_by_user,
            final(self).liquidation_index == old(self).liquidation_index,
            final(self).asset_prices == old(self).asset_prices,
            final(self).deposits == old(self).deposits,
            final(self).pnl_paid == old(self).pnl_paid,
            final(self).drift == old(self).drift,
    {
        self.last_processed_id = id;
        proof {
            assert(self.orders_seq() =~= old(self).orders_seq());
        }
    }

    /// The user's cash, or a refusal when the user is unknown.
    pub fn get_user_balance_usd(&self, user_id: &String) -> (r: Result<Dec, EngineError>)
        requires
            self.inv(),
        ensures
            r == if self.users_map().contains_key(user_id@) {
                Ok::<Dec, EngineError>(self.users_map()[user_id@].usd_balance)
            } else {
                Err::<Dec, EngineError>(EngineError::UserNotFound)
            },
    {
        proof {
            lemma_alist_map_domain(self.users@, user_id@);
        }
        match alist_find(&self.users, user_id) {
            Some(i) => {
                proof {
                    lemma_alist_map_index(self.users@, i as int);
                }
                Ok(self.users[i].1.usd_balance)
            },
            None => Err(EngineError::UserNotFound),
        }
    }

    /// The user's spot holdings; empty for an unknown user.
    pub fn get_user_balance(&self, user_id: &String) -> (r: Vec<(String, (Dec, u32))>)
        requires
            self.inv(),
        ensures
            r.deep_view() == if self.users_map().contains_key(user_id@) {
                self.users_map()[user_id@].asset_balances
            } else {
                Seq::<(Seq<char>, (Dec, u32))>::empty()
            },
    {
        proof {
            lemma_alist_map_domain(self.users@, user_id@);
        }
        match alist_find(&self.users, user_id) {
            Some(i) => {
                proof {
                    lemma_alist_map_index(self.users@, i as int);
                }
                let copy = clone_user_balance(&self.users[i].1);
                copy.asset_balances
            },
            None => {
                let empty: Vec<(String, (Dec, u32))> = Vec::new();
                proof {
                    assert(empty.deep_view() =~= Seq::<(Seq<char>, (Dec, u32))>::empty());
                }
                empty
            },
        }
    }

    /// The user's live orders, in creation order.
    pub fn get_user_orders(&self, user_id: &String) -> (r: Vec<Order>)
        requires
            self.inv(),
        ensures
            ({
                let ids = user_order_ids(self.orders_seq(), user_id@);
                &&& r.deep_view().len() == ids.len()
                &&& forall|t: int|
                    0 <= t < ids.len() ==> self.orders_map().contains_key(ids[t])
                        && r.deep_view()[t] == self.orders_map()[ids[t]]
            }),
    {
        let ids = self.user_order_id_list(user_id);
        let ghost idseq = user_order_ids(self.orders_seq(), user_id@);
        let mut out: Vec<Order> = Vec::new();
        let n = ids.len();
        let mut t: usize = 0;
        while t < n
            invariant
                self.inv(),
                t <= n,
                n == ids@.len(),
                ids.deep_view() == idseq,
                idseq == user_order_ids(self.orders_seq(), user_id@),
                out@.len() == t,
                forall|u: int| 0 <= u < t ==> self.orders_map().contains_key(#[trigger] idseq[u]),
                forall|u: int|
                    0 <= u < t ==> out@[u].deep_view() == self.orders_map()[#[trigger] idseq[u]],
            decreases n - t,
        {
            proof {
                assert(idseq.len() == n);
                lemma_user_ids_member(self.orders_seq(), user_id@, t as int);
                let j = choose|j: int|
                    0 <= j < self.orders_seq().len() && self.orders_seq()[j].order_id == idseq[t as int]
                        && self.orders_seq()[j].user_id == user_id@;
                assert(self.orders_seq()[j] == self.orders@[j].1.deep_view());
                assert(self.orders@[j].0@ == self.orders@[j].1.order_id@);
                assert(self.orders@[j].0@ == idseq[t as int]);
                lemma_alist_map_index(self.orders@, j);
                lemma_alist_map_domain(self.orders@, idseq[t as int]);
                assert(self.orders_map().contains_key(idseq[t as int]));
                assert(ids@[t as int]@ == ids.deep_view()[t as int]);
                assert(ids@[t as int]@ == idseq[t as int]);
            }
            let io = match alist_find(&self.orders, &ids[t]) {
                Some(i) => i,
                None => {
                    proof {
                        assert(false);
                    }
                    return out;
                },
            };
            proof {
                lemma_alist_map_index(self.orders@, io as int);
            }
            out.push(clone_order(&self.orders[io].1));
            proof {
                assert(out@[t as int].deep_view() == self.orders_map()[idseq[t as int]]);
            }
            t = t + 1;
        }
        proof {
            assert forall|u: int| 0 <= u < n implies out.deep_view()[u] == self.orders_map().index(
                idseq[u],
            ) by {
                assert(out.deep_view()[u] == out@[u].deep_view());
            }
        }
        out
    }

    /// The user's stored id list as a fresh vector; empty for a user without
    /// orders.
    fn user_order_id_list(&self, user_id: &String) -> (r: Vec<String>)
        requires
            self.inv(),
        ensures
            r.deep_view() == user_order_ids(self.orders_seq(), user_id@),
    {
        proof {
            lemma_alist_map_domain(self.orders_by_user@, user_id@);
        }
        match alist_find(&self.orders_by_user, user_id) {
            Some(i) => {
                proof {
                    lemma_alist_map_index(self.orders_by_user@, i as int);
                }
                let src = &self.orders_by_user[i].1;
                let mut out: Vec<String> = Vec::new();
                let n = src.len();
                let mut t: usize = 0;
                while t < n
                    invariant
                        t <= n,
                        n == src@.len(),
                        out.deep_view() =~= src.deep_view().take(t as int),
                    decreases n - t,
                {
                    out.push(clone_string(&src[t]));
                    proof {
                        assert(src.deep_view().take(t + 1) =~= src.deep_view().take(
                            t as int,
                        ).push(src.deep_view()[t as int]));
                        assert(out.deep_view() =~= src.deep_view().take(t + 1));
                    }
                    t = t + 1;
                }
                proof {
                    assert(src.deep_view().take(n as int) =~= src.deep_view());
                }
                out
            },
            None => {
                let out: Vec<String> = Vec::new();
                proof {
                    assert(!user_index(self.orders_seq()).contains_key(user_id@));
                    assert(out.deep_view() =~= user_order_ids(self.orders_seq(), user_id@));
                }
                out
            },
        }
    }

    /// The user's positions: each live order paired with its unrealized
    /// profit and loss at the asset's mid price; orders without a usable
    /// quote are skipped.
    pub fn get_user_positions(&self, user_id: &String) -> (r: Vec<(Order, Dec)>)
        requires
            self.inv(),
        ensures
            r.deep_view() == positions_denot(*self, user_order_ids(self.orders_seq(), user_id@)),
    {
        let ids = self.user_order_id_list(user_id);
        let ghost idseq = user_order_ids(self.orders_seq(), user_id@);
        let mut out: Vec<(Order, Dec)> = Vec::new();
        let n = ids.len();
        let mut t: usize = 0;
        while t < n
            invariant
                self.inv(),
                t <= n,
                n == ids@.len(),
                ids.deep_view() == idseq,
                idseq == user_order_ids(self.orders_seq(), user_id@),
                out.deep_view() =~= positions_denot(*self, idseq.take(t as int)),
            decreases n - t,
        {
            let ghost prefix = idseq.take(t as int);
            proof {
                assert(idseq.take(t + 1) =~= prefix.push(idseq[t as int]));
                assert(prefix.push(idseq[t as int]).drop_last() =~= prefix);
                lemma_user_ids_member(self.orders_seq(), user_id@, t as int);
                let j = choose|j: int|
                    0 <= j < self.orders_seq().len() && self.orders_seq()[j].order_id == idseq[t as int]
                        && self.orders_seq()[j].user_id == user_id@;
                lemma_alist_map_index(self.orders@, j);
                lemma_alist_map_domain(self.orders@, idseq[t as int]);
            }
            let io = match alist_find(&self.orders, &ids[t]) {
                Some(i) => i,
                None => {
                    proof {
                        assert(false);
                    }
                    return out;
                },
            };
            proof {
                lemma_alist_map_index(self.orders@, io as int);
            }
            let order = clone_order(&self.orders[io].1);
            match self.get_price(&order.asset) {
                Some(price) => {
                    match self.mid_price(&price) {
                        Some(mid) => {
                            let swing = if order.side == Side::Long {
                                crate::dec::raw_sub(mid, order.open_price)
                            } else {
                                crate::dec::raw_sub(order.open_price, mid)
                            };
                            match swing {
                                Some(s) => match crate::dec::raw_mul(s, order.quantity) {
                                    Some(pnl) => {
                                        out.push((order, pnl));
                                    },
                                    None => {},
                                },
                                None => {},
                            }
                        },
                        None => {},
                    }
                },
                None => {},
            }
            proof {
                assert(out.deep_view() =~= positions_denot(*self, idseq.take(t + 1)));
            }
            t = t + 1;
        }
        proof {
            assert(idseq.take(n as int) =~= idseq);
        }
        out
    }

    /// The mid price `(buy + sell) / 2` of a quote, when representable.
    fn mid_price(&self, price: &AssetPrice) -> (r: Option<Dec>)
        requires
            price.deep_view().wf(),
        ensures
            r == crate::model::spec_mid(price.deep_view()),
            r matches Some(c) ==> c.wf(),
    {
        match crate::dec::raw_add(price.buy_price, price.sell_price) {
            Some(total) => crate::dec::raw_div(total, Dec { m: 2, s: 0 }),
            None => None,
        }
    }
}

/// The asset's usable mid price crosses the entry's threshold, on the side
/// of the order the entry watches: downwards for a long, upwards for a
/// short.
pub open spec fn entry_triggered(e: Engine, a: Seq<char>, ent: LiquidationEntryV) -> bool {
    let watched = e.orders_map()[ent.order_id];
    &&& e.prices_map().contains_key(a)
    &&& crate::model::spec_mid(e.prices_map()[a]) matches Some(mid) && (if watched.side is Long {
        mid.v() <= ent.liquidation_price.v()
    } else {
        mid.v() >= ent.liquidation_price.v()
    })
}

/// Some member of the bucket is triggered; the scan then collects the whole
/// bucket.
pub open spec fn bucket_triggered(e: Engine, a: Seq<char>, k: Seq<char>) -> bool {
    exists|t: int|
        0 <= t < e.liq_map()[a][k].len() && entry_triggered(e, a, #[trigger] e.liq_map()[a][k][t])
}

/// The order is watched by a member of a collected bucket.
pub open spec fn order_triggered(e: Engine, oid: Seq<char>) -> bool {
    exists|a: Seq<char>, k: Seq<char>, t: int|
        {
            &&& e.liq_map().contains_key(a)
            &&& e.liq_map()[a].contains_key(k)
            &&& 0 <= t < e.liq_map()[a][k].len()
            &&& bucket_triggered(e, a, k)
            &&& (#[trigger] e.liq_map()[a][k][t]).order_id == oid
        }
}

/// The scan's result names the order.
pub open spec fn collected(rs: Seq<(String, String)>, oid: Seq<char>) -> bool {
    exists|u: int| 0 <= u < rs.len() && (#[trigger] rs[u]).0@ == oid
}

/// The pair is the order id and user id of a member of a triggered bucket of
/// the given asset.
pub open spec fn pair_of_bucket_member(
    e: Engine,
    a: Seq<char>,
    oid: Seq<char>,
    uid: Seq<char>,
) -> bool {
    exists|k: Seq<char>, t: int|
        {
            &&& e.liq_map().contains_key(a)
            &&& e.liq_map()[a].contains_key(k)
            &&& 0 <= t < e.liq_map()[a][k].len()
            &&& bucket_triggered(e, a, k)
            &&& (#[trigger] e.liq_map()[a][k][t]).order_id == oid
            &&& e.liq_map()[a][k][t].user_id == uid
        }
}

/// The pair is the order id and user id of a member of some triggered
/// bucket.
pub open spec fn pair_triggered(e: Engine, oid: Seq<char>, uid: Seq<char>) -> bool {
    exists|a: Seq<char>| #[trigger] pair_of_bucket_member(e, a, oid, uid)
}

/// The order id occurs in some bucket of the asset's stored slot.
pub open spec fn oid_in_asset_slot(slot: AssetBuckets, oid: Seq<char>) -> bool {
    exists|b2: int, t: int|
        0 <= b2 < slot.buckets@.len() && 0 <= t < slot.buckets@[b2].1.deep_view().len() && (
        #[trigger] slot.buckets@[b2].1.deep_view()[t]).order_id == oid
}

/// No order id occurs twice in the scan's result.
pub open spec fn distinct_oids(rs: Seq<(String, String)>) -> bool {
    forall|u1: int, u2: int|
        0 <= u1 < u2 < rs.len() ==> (#[trigger] rs[u1]).0@ != (#[trigger] rs[u2]).0@
}

/// A name stays collected as the result grows.
pub proof fn lemma_collected_push(rs: Seq<(String, String)>, p: (String, String), oid: Seq<char>)
    requires
        collected(rs, oid),
    ensures
        collected(rs.push(p), oid),
{
    let u = choose|u: int| 0 <= u < rs.len() && (#[trigger] rs[u]).0@ == oid;
    assert(rs.push(p)[u] == rs[u]);
}

impl Engine {
    /// The watched order's side, when the order is live.
    fn order_side(&self, order_id: &String) -> (r: Option<Side>)
        requires
            self.inv(),
        ensures
            r == if self.orders_map().contains_key(order_id@) {
                Some(self.orders_map()[order_id@].side)
            } else {
                None::<Side>
            },
    {
        proof {
            lemma_alist_map_domain(self.orders@, order_id@);
        }
        match alist_find(&self.orders, order_id) {
            Some(i) => {
                proof {
                    lemma_alist_map_index(self.orders@, i as int);
                }
                Some(self.orders[i].1.side)
            },
            None => None,
        }
    }

    /// Whether any member of the bucket is triggered at the given mid price.
    fn bucket_any_triggered(
        &self,
        Ghost(a): Ghost<Seq<char>>,
        mid: Dec,
        entries: &Vec<LiquidationEntry>,
    ) -> (r: bool)
        requires
            self.inv(),
            self.prices_map().contains_key(a),
            crate::model::spec_mid(self.prices_map()[a]) == Some(mid),
            mid.wf(),
            forall|t: int|
                0 <= t < entries@.len() ==> self.orders_map().contains_key(
                    (#[trigger] entries.deep_view()[t]).order_id,
                ) && entries.deep_view()[t].liquidation_price.wf(),
        ensures
            r <==> exists|t: int|
                0 <= t < entries@.len() && entry_triggered(*self, a, #[trigger] entries.deep_view()[t]),
    {
        let n = entries.len();
        let mut t: usize = 0;
        while t < n
            invariant
                self.inv(),
                self.prices_map().contains_key(a),
                crate::model::spec_mid(self.prices_map()[a]) == Some(mid),
                mid.wf(),
                t <= n,
                n == entries@.len(),
                forall|u: int|
                    0 <= u < entries@.len() ==> self.orders_map().contains_key(
                        (#[trigger] entries.deep_view()[u]).order_id,
                    ) && entries.deep_view()[u].liquidation_price.wf(),
                forall|u: int|
                    0 <= u < t ==> !entry_triggered(*self, a, #[trigger] entries.deep_view()[u]),
            decreases n - t,
        {
            proof {
                assert(entries.deep_view()[t as int].order_id == entries@[t as int].order_id@);
                assert(entries.deep_view()[t as int].liquidation_price == entries@[t as int].liquidation_price);
            }
            let side = match self.order_side(&entries[t].order_id) {
                Some(s) => s,
                None => {
                    proof {
                        assert(false);
                    }
                    return false;
                },
            };
            let hit = if side == Side::Long {
                crate::dec::dec_le(&mid, &entries[t].liquidation_price)
            } else {
                crate::dec::dec_le(&entries[t].liquidation_price, &mid)
            };
            if hit {
                proof {
                    assert(entry_triggered(*self, a, entries.deep_view()[t as int]));
                }
                return true;
            }
            t = t + 1;
        }
        false
    }

    /// The orders flagged by one sweep: every member of every bucket in
    /// which some member's threshold is crossed at its asset's mid price,
    /// as `(order id, user id)` pairs. Assets without a usable quote flag
    /// nothing. The state is not changed.
    pub fn check_liquidations(&self) -> (r: Vec<(String, String)>)
        requires
            self.inv(),
        ensures
            forall|u: int| 0 <= u < r@.len() ==> order_triggered(*self, (#[trigger] r@[u]).0@),
            forall|u: int|
                0 <= u < r@.len() ==> pair_triggered(*self, (#[trigger] r@[u]).0@, r@[u].1@),
            distinct_oids(r@),
            forall|a: Seq<char>, k: Seq<char>, t: int|
                #![trigger self.liq_map()[a][k][t]]
                self.liq_map().contains_key(a) && self.liq_map()[a].contains_key(k) && 0 <= t
                    < self.liq_map()[a][k].len() && bucket_triggered(*self, a, k) ==> collected(
                    r@,
                    self.liq_map()[a][k][t].order_id,
                ),
    {
        let mut hits: Vec<(String, String)> = Vec::new();
        let na = self.liquidation_index.len();
        let mut ai: usize = 0;
        while ai < na
            invariant
                self.inv(),
                ai <= na,
                na == self.liquidation_index@.len(),
                forall|u: int|
                    0 <= u < hits@.len() ==> order_triggered(*self, (#[trigger] hits@[u]).0@),
                forall|u: int|
                    0 <= u < hits@.len() ==> pair_triggered(
                        *self,
                        (#[trigger] hits@[u]).0@,
                        hits@[u].1@,
                    ),
                distinct_oids(hits@),
                forall|u: int, a2: int|
                    #![trigger hits@[u], self.liquidation_index@[a2]]
                    0 <= u < hits@.len() && ai <= a2 < na ==> !oid_in_asset_slot(
                        self.liquidation_index@[a2].1,
                        hits@[u].0@,
                    ),
                forall|a2: int, k: Seq<char>, t: int|
                    #![trigger self.liq_map()[self.liquidation_index@[a2].0@][k][t]]
                    0 <= a2 < ai && self.liq_map()[self.liquidation_index@[a2].0@].contains_key(k)
                        && 0 <= t < self.liq_map()[self.liquidation_index@[a2].0@][k].len()
                        && bucket_triggered(*self, self.liquidation_index@[a2].0@, k) ==> collected(
                        hits@,
                        self.liq_map()[self.liquidation_index@[a2].0@][k][t].order_id,
                    ),
            decreases na - ai,
        {
            let ghost a = self.liquidation_index@[ai as int].0@;
            proof {
                lemma_alist_map_index(self.liquidation_index@, ai as int);
            }
            let usable_mid = match self.get_price(&self.liquidation_index[ai].0) {
                Some(price) => self.mid_price(&price),
                None => None,
            };
            match usable_mid {
                Some(mid) => {
                    let ghost before_hits = hits@;
                    self.scan_asset(ai, mid, &mut hits);
                    proof {
                        assert forall|u: int, a2: int|
                            #![trigger hits@[u], self.liquidation_index@[a2]]
                            0 <= u < hits@.len() && ai + 1 <= a2 < na implies !oid_in_asset_slot(
                            self.liquidation_index@[a2].1,
                            hits@[u].0@,
                        ) by {
                            if u < before_hits.len() {
                                assert(hits@[u] == before_hits[u]);
                            }
                        }
                        assert forall|u: int| 0 <= u < hits@.len() implies pair_triggered(
                            *self,
                            (#[trigger] hits@[u]).0@,
                            hits@[u].1@,
                        ) by {
                            if u < before_hits.len() {
                                assert(hits@[u] == before_hits[u]);
                            } else {
                                assert(pair_of_bucket_member(
                                    *self,
                                    self.liquidation_index@[ai as int].0@,
                                    hits@[u].0@,
                                    hits@[u].1@,
                                ));
                            }
                        }
                    }
                },
                None => {
                    proof {
                        assert forall|k: Seq<char>| !bucket_triggered(*self, a, k) by {}
                    }
                },
            }
            ai = ai + 1;
        }
        proof {
            assert forall|a: Seq<char>, k: Seq<char>, t: int|
                self.liq_map().contains_key(a) && self.liq_map()[a].contains_key(k) && 0 <= t
                    < self.liq_map()[a][k].len() && bucket_triggered(*self, a, k) implies collected(
                hits@,
                #[trigger] self.liq_map()[a][k][t].order_id,
            ) by {
                lemma_alist_map_domain(self.liquidation_index@, a);
                let a2 = choose|a2: int|
                    0 <= a2 < self.liquidation_index@.len() && self.liquidation_index@[a2].0@ == a;
                assert(self.liq_map()[self.liquidation_index@[a2].0@][k][t].order_id
                    == self.liq_map()[a][k][t].order_id);
            }
        }
        hits
    }

    /// Sweeps one asset's buckets at the given mid price, appending every
    /// member of each triggered bucket to `hits`.
    fn scan_asset(&self, ai: usize, mid: Dec, hits: &mut Vec<(String, String)>)
        requires
            self.inv(),
            ai < self.liquidation_index@.len(),
            self.prices_map().contains_key(self.liquidation_index@[ai as int].0@),
            crate::model::spec_mid(
                self.prices_map()[self.liquidation_index@[ai as int].0@],
            ) == Some(mid),
            mid.wf(),
            forall|u: int|
                0 <= u < old(hits)@.len() ==> order_triggered(*self, (#[trigger] old(hits)@[u]).0@),
            distinct_oids(old(hits)@),
            forall|u: int|
                0 <= u < old(hits)@.len() ==> !oid_in_asset_slot(
                    self.liquidation_index@[ai as int].1,
                    (#[trigger] old(hits)@[u]).0@,
                ),
        ensures
            forall|u: int|
                0 <= u < final(hits)@.len() ==> order_triggered(
                    *self,
                    (#[trigger] final(hits)@[u]).0@,
                ),
            forall|u: int| 0 <= u < old(hits)@.len() ==> final(hits)@[u] == old(hits)@[u],
            final(hits)@.len() >= old(hits)@.len(),
            distinct_oids(final(hits)@),
            forall|u: int|
                old(hits)@.len() <= u < final(hits)@.len() ==> pair_of_bucket_member(
                    *self,
                    self.liquidation_index@[ai as int].0@,
                    (#[trigger] final(hits)@[u]).0@,
                    final(hits)@[u].1@,
                ),
            forall|u: int, a2: int|
                #![trigger final(hits)@[u], self.liquidation_index@[a2]]
                old(hits)@.len() <= u < final(hits)@.len() && 0 <= a2
                    < self.liquidation_index@.len() && a2 != ai ==> !oid_in_asset_slot(
                    self.liquidation_index@[a2].1,
                    final(hits)@[u].0@,
                ),
            forall|k: Seq<char>, t: int|
                #![trigger self.liq_map()[self.liquidation_index@[ai as int].0@][k][t]]
                self.liq_map()[self.liquidation_index@[ai as int].0@].contains_key(k) && 0 <= t
                    < self.liq_map()[self.liquidation_index@[ai as int].0@][k].len()
                    && bucket_triggered(*self, self.liquidation_index@[ai as int].0@, k)
                    ==> collected(
                    final(hits)@,
                    self.liq_map()[self.liquidation_index@[ai as int].0@][k][t].order_id,
                ),
    {
        let ghost a = self.liquidation_index@[ai as int].0@;
        proof {
            lemma_alist_map_index(self.liquidation_index@, ai as int);
            self.lemma_unique_order_ids();
        }
        let buckets = &self.liquidation_index[ai].1.buckets;
        let ghost inner = buckets@;
        proof {
            assert forall|u: int, b2: int, t: int|
                #![trigger old(hits)@[u], inner[b2].1.deep_view()[t]]
                0 <= u < old(hits)@.len() && 0 <= b2 < inner.len() && 0 <= t
                    < inner[b2].1.deep_view().len() implies old(hits)@[u].0@
                != inner[b2].1.deep_view()[t].order_id by {
                if old(hits)@[u].0@ == inner[b2].1.deep_view()[t].order_id {
                    assert(oid_in_asset_slot(
                        self.liquidation_index@[ai as int].1,
                        old(hits)@[u].0@,
                    ));
                }
            }
        }
        let nb = buckets.len();
        let mut bi: usize = 0;
        while bi < nb
            invariant
                self.inv(),
                ai < self.liquidation_index@.len(),
                a == self.liquidation_index@[ai as int].0@,
                self.prices_map().contains_key(a),
                crate::model::spec_mid(self.prices_map()[a]) == Some(mid),
                mid.wf(),
                bi <= nb,
                buckets == &self.liquidation_index@[ai as int].1.buckets,
                nb == buckets@.len(),
                inner == buckets@,
                self.liq_map()[a] == alist_map(inner),
                unique_keys(inner),
                forall|u: int|
                    0 <= u < hits@.len() ==> order_triggered(*self, (#[trigger] hits@[u]).0@),
                forall|u: int| 0 <= u < old(hits)@.len() ==> hits@[u] == old(hits)@[u],
                hits@.len() >= old(hits)@.len(),
                distinct_oids(hits@),
                forall|u: int|
                    old(hits)@.len() <= u < hits@.len() ==> pair_of_bucket_member(
                        *self,
                        a,
                        (#[trigger] hits@[u]).0@,
                        hits@[u].1@,
                    ),
                forall|u: int, a2: int|
                    #![trigger hits@[u], self.liquidation_index@[a2]]
                    old(hits)@.len() <= u < hits@.len() && 0 <= a2 < self.liquidation_index@.len()
                        && a2 != ai ==> !oid_in_asset_slot(
                        self.liquidation_index@[a2].1,
                        hits@[u].0@,
                    ),
                forall|u: int, b2: int, t: int|
                    #![trigger hits@[u], inner[b2].1.deep_view()[t]]
                    0 <= u < hits@.len() && bi <= b2 < nb && 0 <= t < inner[b2].1.deep_view().len()
                        ==> hits@[u].0@ != inner[b2].1.deep_view()[t].order_id,
                forall|b2: int, t: int|
                    #![trigger inner[b2].1.deep_view()[t]]
                    0 <= b2 < bi && 0 <= t < inner[b2].1.deep_view().len() && bucket_triggered(
                        *self,
                        a,
                        inner[b2].0@,
                    ) ==> collected(hits@, inner[b2].1.deep_view()[t].order_id),
            decreases nb - bi,
        {
            let ghost k = inner[bi as int].0@;
            proof {
                lemma_alist_map_index(inner, bi as int);
                assert(self.liq_map().contains_key(a)) by {
                    lemma_alist_map_domain(self.liquidation_index@, a);
                    assert(self.liquidation_index@[ai as int].0@ == a);
                }
                assert(alist_map(inner).contains_key(k));
                assert(self.liq_map()[a][k] == inner[bi as int].1.deep_view());
                assert(self.liq_map()[a] == asset_buckets(self.orders_seq(), a));
                assert(self.liq_map()[a][k] == liq_bucket(self.orders_seq(), a, k));
                assert forall|t: int| 0 <= t < buckets@[bi as int].1@.len()
                    implies self.orders_map().contains_key(
                    (#[trigger] buckets@[bi as int].1.deep_view()[t]).order_id,
                ) && buckets@[bi as int].1.deep_view()[t].liquidation_price.wf() by {
                    crate::index::lemma_bucket_member(self.orders_seq(), a, k, t);
                    let j = choose|j: int|
                        0 <= j < self.orders_seq().len() && self.orders_seq()[j].asset == a
                            && crate::model::price_key_of(self.orders_seq()[j]) == k
                            && crate::model::entry_of(self.orders_seq()[j]) == liq_bucket(
                            self.orders_seq(),
                            a,
                            k,
                        )[t];
                    assert(self.orders_seq()[j] == self.orders@[j].1.deep_view());
                    assert(self.orders@[j].0@ == self.orders@[j].1.order_id@);
                    lemma_alist_map_index(self.orders@, j);
                    lemma_alist_map_domain(self.orders@, self.orders_seq()[j].order_id);
                    assert(self.orders_seq()[j].wf());
                }
            }
            let triggered = self.bucket_any_triggered(Ghost(a), mid, &buckets[bi].1);
            if triggered {
                let entries = &buckets[bi].1;
                let ne = entries.len();
                let mut ei: usize = 0;
                while ei < ne
                    invariant
                        self.inv(),
                        ai < self.liquidation_index@.len(),
                        a == self.liquidation_index@[ai as int].0@,
                        bi < nb,
                        buckets == &self.liquidation_index@[ai as int].1.buckets,
                        entries == &buckets@[bi as int].1,
                        inner == buckets@,
                        nb == inner.len(),
                        k == inner[bi as int].0@,
                        ne == entries@.len(),
                        ei <= ne,
                        self.liq_map().contains_key(a),
                        self.liq_map()[a].contains_key(k),
                        self.liq_map()[a] == alist_map(inner),
                        unique_keys(inner),
                        self.liq_map()[a][k] == entries.deep_view(),
                        bucket_triggered(*self, a, k),
                        forall|u: int|
                            0 <= u < hits@.len() ==> order_triggered(
                                *self,
                                (#[trigger] hits@[u]).0@,
                            ),
                        forall|u: int| 0 <= u < old(hits)@.len() ==> hits@[u] == old(hits)@[u],
                        hits@.len() >= old(hits)@.len(),
                        distinct_oids(hits@),
                        forall|u: int|
                            old(hits)@.len() <= u < hits@.len() ==> pair_of_bucket_member(
                                *self,
                                a,
                                (#[trigger] hits@[u]).0@,
                                hits@[u].1@,
                            ),
                        forall|u: int, a2: int|
                            #![trigger hits@[u], self.liquidation_index@[a2]]
                            old(hits)@.len() <= u < hits@.len() && 0 <= a2
                                < self.liquidation_index@.len() && a2 != ai
                                ==> !oid_in_asset_slot(
                                self.liquidation_index@[a2].1,
                                hits@[u].0@,
                            ),
                        forall|u: int, b2: int, t: int|
                            #![trigger hits@[u], inner[b2].1.deep_view()[t]]
                            0 <= u < hits@.len() && bi + 1 <= b2 < nb && 0 <= t
                                < inner[b2].1.deep_view().len() ==> hits@[u].0@
                                != inner[b2].1.deep_view()[t].order_id,
                        forall|u: int, t: int|
                            #![trigger hits@[u], entries.deep_view()[t]]
                            0 <= u < hits@.len() && ei <= t < ne ==> hits@[u].0@
                                != entries.deep_view()[t].order_id,
                        forall|b2: int, t: int|
                            #![trigger inner[b2].1.deep_view()[t]]
                            0 <= b2 < bi && 0 <= t < inner[b2].1.deep_view().len()
                                && bucket_triggered(*self, a, inner[b2].0@) ==> collected(
                                hits@,
                                inner[b2].1.deep_view()[t].order_id,
                            ),
                        forall|t: int|
                            0 <= t < ei ==> collected(
                                hits@,
                                (#[trigger] entries.deep_view()[t]).order_id,
                            ),
                    decreases ne - ei,
                {
                    let ghost pre = hits@;
                    hits.push(
                        (clone_string(&entries[ei].order_id), clone_string(&entries[ei].user_id)),
                    );
                    proof {
                        let pair = hits@[hits@.len() - 1];
                        let os = self.orders_seq();
                        let oid = entries.deep_view()[ei as int].order_id;
                        assert(hits@ == pre.push(pair));
                        assert(pair.0@ == oid);
                        assert(pair.1@ == entries.deep_view()[ei as int].user_id);
                        assert(order_triggered(*self, pair.0@)) by {
                            assert(self.liq_map()[a][k][ei as int].order_id == pair.0@);
                        }
                        assert(pair_of_bucket_member(*self, a, pair.0@, pair.1@)) by {
                            assert(self.liq_map()[a][k][ei as int].order_id == pair.0@);
                            assert(self.liq_map()[a][k][ei as int].user_id == pair.1@);
                        }
                        // The pushed order id lives at exactly this asset and
                        // price key: it cannot recur anywhere the sweep has
                        // yet to visit, nor among the already collected ids.
                        self.lemma_unique_order_ids();
                        assert(self.liq_map()[a] == asset_buckets(os, a));
                        assert(entries.deep_view() == liq_bucket(os, a, k));
                        crate::index::lemma_bucket_member(os, a, k, ei as int);
                        let j = choose|j: int|
                            0 <= j < os.len() && os[j].asset == a && crate::model::price_key_of(
                                os[j],
                            ) == k && crate::model::entry_of(os[j]) == liq_bucket(os, a, k)[ei as int];
                        assert(os[j].order_id == oid);
                        assert forall|t2: int| 0 <= t2 < ne && t2 != ei as int
                            implies entries.deep_view()[t2].order_id != oid by {
                            if entries.deep_view()[t2].order_id == oid {
                                crate::index::lemma_bucket_count(os, a, k, oid);
                                if t2 < ei as int {
                                    crate::index::lemma_count_entry_two(
                                        liq_bucket(os, a, k),
                                        t2,
                                        ei as int,
                                        oid,
                                    );
                                } else {
                                    crate::index::lemma_count_entry_two(
                                        liq_bucket(os, a, k),
                                        ei as int,
                                        t2,
                                        oid,
                                    );
                                }
                            }
                        }
                        assert forall|b2: int, t2: int|
                            #![trigger inner[b2].1.deep_view()[t2]]
                            0 <= b2 < nb && b2 != bi as int && 0 <= t2
                                < inner[b2].1.deep_view().len()
                            implies inner[b2].1.deep_view()[t2].order_id != oid by {
                            let k2 = inner[b2].0@;
                            assert(k2 != k) by {
                                if b2 < bi as int {
                                    assert(inner[b2].0@ != inner[bi as int].0@);
                                } else {
                                    assert(inner[bi as int].0@ != inner[b2].0@);
                                }
                            }
                            lemma_alist_map_index(inner, b2);
                            assert(self.liq_map()[a][k2] == inner[b2].1.deep_view());
                            assert(inner[b2].1.deep_view() == liq_bucket(os, a, k2));
                            if inner[b2].1.deep_view()[t2].order_id == oid {
                                crate::index::lemma_count_entry_at(liq_bucket(os, a, k2), t2, oid);
                                crate::index::lemma_bucket_count(os, a, k2, oid);
                                let j2 = choose|j2: int|
                                    0 <= j2 < os.len() && os[j2].order_id == oid && os[j2].asset
                                        == a && crate::model::price_key_of(os[j2]) == k2;
                                assert(j2 == j);
                            }
                        }
                        assert forall|a2: int|
                            0 <= a2 < self.liquidation_index@.len() && a2 != ai as int
                            implies !oid_in_asset_slot(self.liquidation_index@[a2].1, oid) by {
                            if oid_in_asset_slot(self.liquidation_index@[a2].1, oid) {
                                let slot = self.liquidation_index@[a2].1;
                                let (b2, t2) = choose|b2: int, t2: int|
                                    0 <= b2 < slot.buckets@.len() && 0 <= t2
                                        < slot.buckets@[b2].1.deep_view().len() && (
                                    #[trigger] slot.buckets@[b2].1.deep_view()[t2]).order_id == oid;
                                let a2key = self.liquidation_index@[a2].0@;
                                assert(a2key != a) by {
                                    assert(self.liquidation_index@[ai as int].0@ == a);
                                }
                                lemma_alist_map_index(self.liquidation_index@, a2);
                                assert(self.liq_map()[a2key] == alist_map(slot.buckets@));
                                assert(self.liq_map()[a2key] == asset_buckets(os, a2key));
                                let k2 = slot.buckets@[b2].0@;
                                lemma_alist_map_index(slot.buckets@, b2);
                                assert(slot.buckets@[b2].1.deep_view() == liq_bucket(
                                    os,
                                    a2key,
                                    k2,
                                ));
                                crate::index::lemma_count_entry_at(
                                    liq_bucket(os, a2key, k2),
                                    t2,
                                    oid,
                                );
                                crate::index::lemma_bucket_count(os, a2key, k2, oid);
                                let j2 = choose|j2: int|
                                    0 <= j2 < os.len() && os[j2].order_id == oid && os[j2].asset
                                        == a2key && crate::model::price_key_of(os[j2]) == k2;
                                assert(j2 == j);
                            }
                        }
                        assert(distinct_oids(hits@)) by {
                            assert forall|u1: int, u2: int| 0 <= u1 < u2 < hits@.len()
                                implies hits@[u1].0@ != hits@[u2].0@ by {
                                if u2 == hits@.len() - 1 {
                                    assert(hits@[u1] == pre[u1]);
                                    assert(pre[u1].0@ != entries.deep_view()[ei as int].order_id);
                                } else {
                                    assert(hits@[u1] == pre[u1] && hits@[u2] == pre[u2]);
                                }
                            }
                        }
                        assert forall|u: int| 0 <= u < hits@.len() implies order_triggered(
                            *self,
                            (#[trigger] hits@[u]).0@,
                        ) by {
                            if u < pre.len() {
                                assert(hits@[u] == pre[u]);
                            }
                        }
                        assert forall|b2: int, t: int|
                            #![trigger inner[b2].1.deep_view()[t]]
                            0 <= b2 < bi && 0 <= t < inner[b2].1.deep_view().len()
                                && bucket_triggered(*self, a, inner[b2].0@) implies collected(
                            hits@,
                            inner[b2].1.deep_view()[t].order_id,
                        ) by {
                            lemma_collected_push(pre, pair, inner[b2].1.deep_view()[t].order_id);
                        }
                        assert forall|t: int| 0 <= t < ei + 1 implies collected(
                            hits@,
                            (#[trigger] entries.deep_view()[t]).order_id,
                        ) by {
                            if t < ei {
                                lemma_collected_push(pre, pair, entries.deep_view()[t].order_id);
                            } else {
                                assert(hits@[hits@.len() - 1].0@ == entries.deep_view()[t].order_id);
                            }
                        }
                    }
                    ei = ei + 1;
                }
                proof {
                    assert forall|b2: int, t: int|
                        #![trigger inner[b2].1.deep_view()[t]]
                        0 <= b2 < bi + 1 && 0 <= t < inner[b2].1.deep_view().len()
                            && bucket_triggered(*self, a, inner[b2].0@) implies collected(
                        hits@,
                        inner[b2].1.deep_view()[t].order_id,
                    ) by {
                        if b2 == bi as int {
                            assert(collected(hits@, entries.deep_view()[t].order_id));
                        }
                    }
                }
            } else {
                proof {
                    assert(!bucket_triggered(*self, a, k)) by {
                        assert(self.liq_map()[a][k] == buckets@[bi as int].1.deep_view());
                    }
                }
            }
            bi = bi + 1;
        }
        proof {
            assert forall|k: Seq<char>, t: int|
                self.liq_map()[a].contains_key(k) && 0 <= t < self.liq_map()[a][k].len()
                    && bucket_triggered(*self, a, k) implies collected(
                hits@,
                (#[trigger] self.liq_map()[a][k][t]).order_id,
            ) by {
                lemma_alist_map_domain(inner, k);
                let b2 = choose|b2: int| 0 <= b2 < inner.len() && inner[b2].0@ == k;
                lemma_alist_map_index(inner, b2);
                assert(inner[b2].1.deep_view()[t] == self.liq_map()[a][k][t]);
            }
        }
    }
}

impl Engine {
    /// One scanner sweep: collects every member of every triggered bucket
    /// and forfeits those positions. After the tick no triggered order is
    /// live, every untriggered order is untouched, and no user is credited:
    /// the margins are forfeited. Returns the collected pairs.
    pub fn scan_tick(&mut self) -> (r: Vec<(String, String)>)
        requires
            old(self).inv(),
        ensures
            final(self).inv(),
            final(self).users == old(self).users,
            final(self).asset_prices == old(self).asset_prices,
            final(self).last_processed_id == old(self).last_processed_id,
            final(self).deposits == old(self).deposits,
            final(self).drift == old(self).drift,
            forall|oid: Seq<char>|
                order_triggered(*old(self), oid) ==> !final(self).orders_map().contains_key(oid),
            forall|oid: Seq<char>|
                old(self).orders_map().contains_key(oid) && !order_triggered(*old(self), oid)
                    ==> final(self).orders_map().contains_key(oid) && final(self).orders_map()[oid]
                    == old(self).orders_map()[oid],
    {
        let hits = self.check_liquidations();
        let n = hits.len();
        let mut u: usize = 0;
        while u < n
            invariant
                self.inv(),
                u <= n,
                n == hits@.len(),
                self.users == old(self).users,
                self.asset_prices == old(self).asset_prices,
                self.last_processed_id == old(self).last_processed_id,
                self.deposits == old(self).deposits,
                self.drift == old(self).drift,
                forall|u2: int| 0 <= u2 < u ==> !self.orders_map().contains_key(
                    (#[trigger] hits@[u2]).0@,
                ),
                forall|oid: Seq<char>|
                    #![trigger self.orders_map().contains_key(oid)]
                    self.orders_map().contains_key(oid) ==> old(self).orders_map().contains_key(
                        oid,
                    ) && self.orders_map()[oid] == old(self).orders_map()[oid],
                forall|oid: Seq<char>|
                    #![trigger old(self).orders_map().contains_key(oid)]
                    old(self).orders_map().contains_key(oid) && !collected(hits@, oid)
                        ==> self.orders_map().contains_key(oid),
                forall|u2: int| 0 <= u2 < hits@.len() ==> order_triggered(
                    *old(self),
                    (#[trigger] hits@[u2]).0@,
                ),
                forall|a: Seq<char>, k: Seq<char>, t: int|
                    #![trigger old(self).liq_map()[a][k][t]]
                    old(self).liq_map().contains_key(a) && old(self).liq_map()[a].contains_key(k)
                        && 0 <= t < old(self).liq_map()[a][k].len() && bucket_triggered(
                        *old(self),
                        a,
                        k,
                    ) ==> collected(hits@, old(self).liq_map()[a][k][t].order_id),
            decreases n - u,
        {
            let _ = self.liquidate_order(&hits[u].0);
            u = u + 1;
        }
        proof {
            assert forall|oid: Seq<char>| order_triggered(*old(self), oid)
                implies !self.orders_map().contains_key(oid) by {
                let (a, k, t) = choose|a: Seq<char>, k: Seq<char>, t: int|
                    {
                        &&& old(self).liq_map().contains_key(a)
                        &&& old(self).liq_map()[a].contains_key(k)
                        &&& 0 <= t < old(self).liq_map()[a][k].len()
                        &&& bucket_triggered(*old(self), a, k)
                        &&& (#[trigger] old(self).liq_map()[a][k][t]).order_id == oid
                    };
                assert(collected(hits@, oid));
                let u2 = choose|u2: int| 0 <= u2 < hits@.len() && (#[trigger] hits@[u2]).0@ == oid;
            }
            assert forall|oid: Seq<char>|
                old(self).orders_map().contains_key(oid) && !order_triggered(*old(self), oid)
                implies self.orders_map().contains_key(oid) && self.orders_map()[oid] == old(
                self,
            ).orders_map()[oid] by {
                if collected(hits@, oid) {
                    let u2 = choose|u2: int| 0 <= u2 < hits@.len() && (#[trigger] hits@[u2]).0@
                        == oid;
                    assert(order_triggered(*old(self), oid));
                }
            }
        }
        hits
    }
}

/// The position of a live order in the creation sequence; meaningful when
/// ids are distinct and the id is live.
pub open spec fn idx_of(os: Seq<OrderV>, oid: Seq<char>) -> int {
    choose|i: int| 0 <= i < os.len() && os[i].order_id == oid
}

/// What closing an order decides: realized profit and loss and the close
/// price on success, the exact refusal otherwise.
pub open spec fn close_verdict(e: Engine, oid: Seq<char>) -> Result<(Dec, Dec), EngineError> {
    if !e.orders_map().contains_key(oid) {
        Err(EngineError::OrderNotFound)
    } else {
        let o = e.orders_map()[oid];
        if !e.users_map().contains_key(o.user_id) {
            Err(EngineError::UserNotFound)
        } else if !e.prices_map().contains_key(o.asset) {
            Err(EngineError::AssetPriceUnavailable)
        } else {
            let p = e.prices_map()[o.asset];
            let close = if o.side is Long {
                p.sell_price
            } else {
                p.buy_price
            };
            match crate::model::spec_pnl(o, close) {
                None => Err(EngineError::Arithmetic),
                Some(pnl) => match crate::dec::spec_add(o.margin, pnl) {
                    None => Err(EngineError::Arithmetic),
                    Some(credit) => match crate::dec::spec_add(
                        e.users_map()[o.user_id].usd_balance,
                        credit,
                    ) {
                        None => Err(EngineError::Arithmetic),
                        Some(nb) => Ok((pnl, close)),
                    },
                },
            }
        }
    }
}

impl Engine {
    /// Order ids distinct across the live orders; a consequence of key
    /// uniqueness kept available as a lemma.
    pub proof fn lemma_unique_order_ids(self)
        requires
            self.inv(),
        ensures
            unique_order_ids(self.orders_seq()),
    {
        assert forall|i: int, j: int| 0 <= i < j < self.orders_seq().len()
            implies self.orders_seq()[i].order_id != self.orders_seq()[j].order_id by {
            assert(self.orders@[i].0@ != self.orders@[j].0@);
            assert(self.orders@[i].0@ == self.orders@[i].1.order_id@);
            assert(self.orders@[j].0@ == self.orders@[j].1.order_id@);
        }
    }

    /// Closes a position: takes the order out of the live table and both
    /// indices, and credits the owner with margin plus realized profit and
    /// loss, atomically. A refusal changes nothing. Returns the profit and
    /// loss and the close price exactly as [`close_verdict`] says; the paid
    /// ledger grows by the profit and loss, and the drift ledger absorbs
    /// whatever the two credits rounded.
    pub fn close_order(&mut self, order_id: &String) -> (r: Result<(Dec, Dec), EngineError>)
        requires
            old(self).inv(),
        ensures
            final(self).inv(),
            r == close_verdict(*old(self), order_id@),
            r is Err ==> *final(self) == *old(self),
            r is Ok ==> ({
                let o = old(self).orders_map()[order_id@];
                let pnl = r->Ok_0.0;
                let credit = crate::dec::spec_add(o.margin, pnl)->Some_0;
                let bal = old(self).users_map()[o.user_id].usd_balance;
                let nb = crate::dec::spec_add(bal, credit)->Some_0;
                &&& final(self).orders_map() == old(self).orders_map().remove(order_id@)
                &&& final(self).orders_seq() == old(self).orders_seq().remove(
                    idx_of(old(self).orders_seq(), order_id@),
                )
                &&& final(self).users_map() == old(self).users_map().insert(
                    o.user_id,
                    UserBalanceV {
                        usd_balance: nb,
                        asset_balances: old(self).users_map()[o.user_id].asset_balances,
                    },
                )
                &&& final(self).asset_prices == old(self).asset_prices
                &&& final(self).last_processed_id == old(self).last_processed_id
                &&& final(self).deposits == old(self).deposits
                &&& final(self).pnl_paid@ == old(self).pnl_paid@ + pnl.v()
                &&& final(self).drift@ == old(self).drift@ + (nb.v() - bal.v() - o.margin.v()
                    - pnl.v())
                &&& (crate::dec::fits_common_scale(o.margin, pnl) && crate::dec::fits_common_scale(
                    bal,
                    credit,
                ) ==> final(self).drift@ == old(self).drift@ && nb.v() == bal.v() + o.margin.v()
                    + pnl.v())
            }),
    {
        proof {
            lemma_alist_map_domain(self.orders@, order_id@);
        }
        let io = match alist_find(&self.orders, order_id) {
            Some(i) => i,
            None => {
                return Err(EngineError::OrderNotFound);
            },
        };
        proof {
            lemma_alist_map_index(self.orders@, io as int);
        }
        let order = clone_order(&self.orders[io].1);
        let ghost o = order.deep_view();
        proof {
            lemma_alist_map_domain(self.users@, order.user_id@);
        }
        let iu = match alist_find(&self.users, &order.user_id) {
            Some(i) => i,
            None => {
                proof {
                    assert(false);
                }
                return Err(EngineError::UserNotFound);
            },
        };
        proof {
            lemma_alist_map_index(self.users@, iu as int);
        }
        let price = match self.get_price(&order.asset) {
            Some(p) => p,
            None => {
                return Err(EngineError::AssetPriceUnavailable);
            },
        };
        let close_price = if order.side == Side::Long {
            price.sell_price
        } else {
            price.buy_price
        };
        let swing = match (if order.side == Side::Long {
            crate::dec::raw_sub(close_price, order.open_price)
        } else {
            crate::dec::raw_sub(order.open_price, close_price)
        }) {
            Some(s) => s,
            None => {
                return Err(EngineError::Arithmetic);
            },
        };
        let pnl = match crate::dec::raw_mul(swing, order.quantity) {
            Some(p) => p,
            None => {
                return Err(EngineError::Arithmetic);
            },
        };
        let credit = match crate::dec::raw_add(order.margin, pnl) {
            Some(c) => c,
            None => {
                return Err(EngineError::Arithmetic);
            },
        };
        let balance = self.users[iu].1.usd_balance;
        let new_balance = match crate::dec::raw_add(balance, credit) {
            Some(b) => b,
            None => {
                return Err(EngineError::Arithmetic);
            },
        };
        let liq_price = match crate::model::compute_liquidation_price(
            order.side,
            order.open_price,
            order.leverage,
        ) {
            Some(l) => l,
            None => {
                proof {
                    assert(false);
                }
                return Err(EngineError::Arithmetic);
            },
        };
        let key_string = crate::dec::dec_to_string(&liq_price);
        // Commit: remove from the table and both indices, then credit.
        let ghost os = self.orders_seq();
        let ghost orders_before = self.orders@;
        proof {
            self.lemma_unique_order_ids();
            lemma_alist_map_remove(orders_before, io as int);
            lemma_sum_by_remove(orders_before, io as int, margin_measure());
            assert(os[io as int] == o);
            assert(crate::model::price_key_of(o) == key_string@);
        }
        let _ = self.orders.remove(io);
        proof {
            assert(self.orders_seq() =~= os.remove(io as int));
        }
        by_user_remove(
            &mut self.orders_by_user,
            &order.user_id,
            order_id,
            Ghost(os),
            Ghost(io as int),
        );
        liq_remove(
            &mut self.liquidation_index,
            &order.asset,
            &key_string,
            order_id,
            Ghost(os),
            Ghost(io as int),
        );
        let ghost users_before = self.users@;
        let mut ue = self.users.remove(iu);
        ue.1.usd_balance = new_balance;
        let ghost new_ue = (ue.0, ue.1);
        self.users.insert(iu, ue);
        self.pnl_paid = Ghost(self.pnl_paid@ + pnl.v());
        self.drift = Ghost(
            self.drift@ + (new_balance.v() - balance.v() - order.margin.v() - pnl.v()),
        );
        proof {
            assert(self.users@ =~= users_before.update(iu as int, new_ue));
            lemma_alist_map_update(users_before, iu as int, new_ue);
            lemma_sum_by_update(users_before, iu as int, new_ue, balance_measure());
            assert forall|t: int| 0 <= t < self.orders@.len() implies {
                let p = #[trigger] self.orders@[t];
                &&& p.0@ == p.1.order_id@
                &&& p.1.deep_view().wf()
                &&& alist_map(self.users@).contains_key(p.1.user_id@)
            } by {
                let t0 = if t < io as int {
                    t
                } else {
                    t + 1
                };
                assert(self.orders@[t] == orders_before[t0]);
                assert(alist_map(users_before).contains_key(orders_before[t0].1.user_id@));
            }
            assert(final(self).orders_map() =~= old(self).orders_map().remove(order_id@));
            assert(final(self).users_map() =~= old(self).users_map().insert(
                o.user_id,
                UserBalanceV {
                    usd_balance: new_balance,
                    asset_balances: old(self).users_map()[o.user_id].asset_balances,
                },
            ));
            let chosen = idx_of(os, order_id@);
            assert(os[io as int].order_id == order_id@);
            assert(0 <= chosen < os.len() && os[chosen].order_id == order_id@);
            assert(chosen == io as int);
        }
        Ok((pnl, close_price))
    }

    /// Forfeits a position: takes the order out of the live table and both
    /// indices and returns nothing to the owner, atomically. Succeeds exactly
    /// when the id is live; a refusal changes nothing. The paid ledger
    /// shrinks by the forfeited margin.
    pub fn liquidate_order(&mut self, order_id: &String) -> (r: Result<(), EngineError>)
        requires
            old(self).inv(),
        ensures
            final(self).inv(),
            r is Ok <==> old(self).orders_map().contains_key(order_id@),
            r is Err ==> r == Err::<(), EngineError>(EngineError::OrderNotFound) && *final(self)
                == *old(self),
            r is Ok ==> ({
                let o = old(self).orders_map()[order_id@];
                &&& final(self).orders_map() == old(self).orders_map().remove(order_id@)
                &&& final(self).orders_seq() == old(self).orders_seq().remove(
                    idx_of(old(self).orders_seq(), order_id@),
                )
                &&& final(self).users == old(self).users
                &&& final(self).asset_prices == old(self).asset_prices
                &&& final(self).last_processed_id == old(self).last_processed_id
                &&& final(self).deposits == old(self).deposits
                &&& final(self).drift == old(self).drift
                &&& final(self).pnl_paid@ == old(self).pnl_paid@ - o.margin.v()
            }),
    {
        proof {
            lemma_alist_map_domain(self.orders@, order_id@);
        }
        let io = match alist_find(&self.orders, order_id) {
            Some(i) => i,
            None => {
                return Err(EngineError::OrderNotFound);
            },
        };
        proof {
            lemma_alist_map_index(self.orders@, io as int);
        }
        let order = clone_order(&self.orders[io].1);
        let ghost o = order.deep_view();
        let liq_price = match crate::model::compute_liquidation_price(
            order.side,
            order.open_price,
            order.leverage,
        ) {
            Some(l) => l,
            None => {
                proof {
                    assert(false);
                }
                return Err(EngineError::OrderNotFound);
            },
        };
        let key_string = crate::dec::dec_to_string(&liq_price);
        let ghost os = self.orders_seq();
        let ghost orders_before = self.orders@;
        proof {
            self.lemma_unique_order_ids();
            lemma_alist_map_remove(orders_before, io as int);
            lemma_sum_by_remove(orders_before, io as int, margin_measure());
            assert(os[io as int] == o);
            assert(crate::model::price_key_of(o) == key_string@);
        }
        let _ = self.orders.remove(io);
        proof {
            assert(self.orders_seq() =~= os.remove(io as int));
        }
        by_user_remove(
            &mut self.orders_by_user,
            &order.user_id,
            order_id,
            Ghost(os),
            Ghost(io as int),
        );
        liq_remove(
            &mut self.liquidation_index,
            &order.asset,
            &key_string,
            order_id,
            Ghost(os),
            Ghost(io as int),
        );
        self.pnl_paid = Ghost(self.pnl_paid@ - order.margin.v());
        proof {
            assert forall|t: int| 0 <= t < self.orders@.len() implies {
                let p = #[trigger] self.orders@[t];
                &&& p.0@ == p.1.order_id@
                &&& p.1.deep_view().wf()
                &&& alist_map(self.users@).contains_key(p.1.user_id@)
            } by {
                let t0 = if t < io as int {
                    t
                } else {
                    t + 1
                };
                assert(self.orders@[t] == orders_before[t0]);
            }
            assert(final(self).orders_map() =~= old(self).orders_map().remove(order_id@));
            let chosen = idx_of(os, order_id@);
            assert(os[io as int].order_id == order_id@);
            assert(0 <= chosen < os.len() && os[chosen].order_id == order_id@);
            assert(chosen == io as int);
        }
        Ok(())
    }
}

/// A checkpointed order's own fields are usable as they stand.
pub open spec fn order_fields_ok(o: OrderV) -> bool {
    &&& o.margin.wf()
    &&& o.margin.v() > 0
    &&& 1 <= o.leverage
    &&& o.open_price.wf()
    &&& o.quantity.wf()
    &&& crate::model::spec_liquidation_price(o) is Some
}

/// A checkpointed order can be filed into this engine as it stands: its id
/// is fresh, its fields usable, its owner known.
pub open spec fn restorable_order(e: Engine, o: OrderV) -> bool {
    &&& !e.orders_map().contains_key(o.order_id)
    &&& order_fields_ok(o)
    &&& e.users_map().contains_key(o.user_id)
}

impl Engine {
    /// Files a checkpointed order into the live table and both indices,
    /// touching no balance; the margin counts as deposited value. Refuses
    /// the order, changing nothing, exactly when it cannot stand.
    pub(crate) fn restore_order(&mut self, order: Order) -> (r: bool)
        requires
            old(self).inv(),
        ensures
            final(self).inv(),
            r <==> restorable_order(*old(self), order.deep_view()),
            !r ==> *final(self) == *old(self),
            r ==> {
                &&& final(self).orders_seq() == old(self).orders_seq().push(order.deep_view())
                &&& final(self).orders_map() == old(self).orders_map().insert(
                    order.order_id@,
                    order.deep_view(),
                )
                &&& final(self).orders@.len() == old(self).orders@.len() + 1
                &&& final(self).orders@.drop_last() == old(self).orders@
                &&& final(self).orders@.last().0@ == order.order_id@
                &&& final(self).orders@.last().1.deep_view() == order.deep_view()
                &&& final(self).users == old(self).users
                &&& final(self).asset_prices == old(self).asset_prices
                &&& final(self).last_processed_id == old(self).last_processed_id
                &&& final(self).deposits@ == old(self).deposits@ + order.margin.v()
                &&& final(self).pnl_paid == old(self).pnl_paid
                &&& final(self).drift == old(self).drift
            },
    {
        proof {
            lemma_alist_map_domain(self.orders@, order.order_id@);
        }
        match alist_find(&self.orders, &order.order_id) {
            Some(_) => {
                return false;
            },
            None => {},
        }
        if !(order.margin.check_wf() && order.margin.is_positive()) {
            return false;
        }
        if order.leverage < 1 {
            return false;
        }
        if !(order.open_price.check_wf() && order.quantity.check_wf()) {
            return false;
        }
        proof {
            lemma_alist_map_domain(self.users@, order.user_id@);
        }
        match alist_find(&self.users, &order.user_id) {
            Some(_) => {},
            None => {
                return false;
            },
        }
        let liq_price = match crate::model::compute_liquidation_price(
            order.side,
            order.open_price,
            order.leverage,
        ) {
            Some(l) => l,
            None => {
                return false;
            },
        };
        let ghost mid = *self;
        let key = clone_string(&order.order_id);
        let user_key = clone_string(&order.user_id);
        let order_id_copy = clone_string(&order.order_id);
        let asset_key = clone_string(&order.asset);
        let ghost newv = order.deep_view();
        let key_string = crate::dec::dec_to_string(&liq_price);
        let lentry = LiquidationEntry {
            order_id: clone_string(&order.order_id),
            user_id: clone_string(&order.user_id),
            liquidation_price: liq_price,
        };
        let margin = order.margin;
        let ghost orders_before = self.orders@;
        let ghost oentry = (key, order);
        proof {
            lemma_alist_map_push(orders_before, oentry);
            assert(crate::model::spec_liquidation_price(newv) == Some(liq_price));
            assert(crate::model::price_key_of(newv) == key_string@);
            assert(crate::model::entry_of(newv) == lentry.deep_view());
        }
        self.orders.push((key, order));
        by_user_insert(
            &mut self.orders_by_user,
            &user_key,
            order_id_copy,
            Ghost(mid.orders_seq()),
            Ghost(newv),
        );
        liq_insert(
            &mut self.liquidation_index,
            &asset_key,
            key_string,
            lentry,
            Ghost(mid.orders_seq()),
            Ghost(newv),
        );
        self.deposits = Ghost(self.deposits@ + margin.v());
        proof {
            assert(self.orders@ =~= orders_before.push(oentry));
            assert(self.orders_seq() =~= mid.orders_seq().push(newv));
            assert(orders_before.push(oentry).drop_last() =~= orders_before);
            assert(sum_by(self.orders@, margin_measure()) == sum_by(
                orders_before,
                margin_measure(),
            ) + margin.v());
            assert(newv.wf());
            assert forall|i: int| 0 <= i < self.orders@.len() implies {
                let p = #[trigger] self.orders@[i];
                &&& p.0@ == p.1.order_id@
                &&& p.1.deep_view().wf()
                &&& alist_map(self.users@).contains_key(p.1.user_id@)
            } by {
                if i < self.orders@.len() - 1 {
                    assert(self.orders@[i] == orders_before[i]);
                }
            }
            assert(final(self).orders_map() =~= old(self).orders_map().insert(
                order.order_id@,
                newv,
            ));
        }
        true
    }
}

/// Appends a freshly created order's id to its user's list, creating the
/// list on first use: the stored table then denotes the user index of the
/// orders with the new one appended.
fn by_user_insert(
    tbl: &mut Vec<(String, Vec<String>)>,
    user_id: &String,
    order_id: String,
    Ghost(os): Ghost<Seq<OrderV>>,
    Ghost(newo): Ghost<OrderV>,
)
    requires
        unique_keys(old(tbl)@),
        alist_map(old(tbl)@) == user_index(os),
        newo.user_id == user_id@,
        newo.order_id == order_id@,
    ensures
        unique_keys(final(tbl)@),
        alist_map(final(tbl)@) == user_index(os.push(newo)),
{
    let ghost before = tbl@;
    let ghost uid = user_id@;
    proof {
        assert(os.push(newo).drop_last() =~= os);
        assert forall|k: Seq<char>| k != uid implies user_order_ids(os.push(newo), k)
            == user_order_ids(os, k) by {}
        assert(user_order_ids(os.push(newo), uid) == user_order_ids(os, uid).push(newo.order_id));
        lemma_alist_map_domain(before, uid);
    }
    match alist_find(tbl, user_id) {
        Some(i) => {
            proof {
                lemma_alist_map_index(before, i as int);
            }
            let mut entry = tbl.remove(i);
            let ghost bucket = entry.1.deep_view();
            entry.1.push(order_id);
            let ghost replaced = (entry.0, entry.1);
            tbl.insert(i, entry);
            proof {
                assert(replaced.1.deep_view() =~= bucket.push(newo.order_id));
                assert(tbl@ =~= before.update(i as int, replaced));
                lemma_alist_map_update(before, i as int, replaced);
                assert(bucket == user_index(os)[uid]);
                assert(alist_map(tbl@) =~= user_index(os.push(newo)));
            }
        },
        None => {
            let key = clone_string(user_id);
            let bucket = vec![order_id];
            let ghost entry = (key, bucket);
            tbl.push((key, bucket));
            proof {
                lemma_alist_map_push(before, entry);
                assert(tbl@ =~= before.push(entry));
                assert(!user_index(os).contains_key(uid));
                assert(user_order_ids(os, uid).len() == 0);
                assert(entry.1.deep_view() =~= user_order_ids(os, uid).push(newo.order_id));
                assert(alist_map(tbl@) =~= user_index(os.push(newo)));
            }
        },
    }
}

/// Files a freshly created order's entry under its asset and price key,
/// creating the asset slot or the bucket on first use: the stored table then
/// denotes the liquidation index of the orders with the new one appended.
fn liq_insert(
    tbl: &mut Vec<(String, AssetBuckets)>,
    asset: &String,
    key: String,
    entry: LiquidationEntry,
    Ghost(os): Ghost<Seq<OrderV>>,
    Ghost(newo): Ghost<OrderV>,
)
    requires
        unique_keys(old(tbl)@),
        forall|i: int|
            0 <= i < old(tbl)@.len() ==> unique_keys(#[trigger] old(tbl)@[i].1.buckets@),
        alist_map(old(tbl)@) == liq_index(os),
        newo.asset == asset@,
        crate::model::price_key_of(newo) == key@,
        crate::model::entry_of(newo) == entry.deep_view(),
    ensures
        unique_keys(final(tbl)@),
        forall|i: int|
            0 <= i < final(tbl)@.len() ==> unique_keys(#[trigger] final(tbl)@[i].1.buckets@),
        alist_map(final(tbl)@) == liq_index(os.push(newo)),
{
    let ghost before = tbl@;
    let ghost a = asset@;
    let ghost k = key@;
    proof {
        assert(os.push(newo).drop_last() =~= os);
        assert forall|a2: Seq<char>, k2: Seq<char>| !(a2 == a && k2 == k) implies liq_bucket(
            os.push(newo),
            a2,
            k2,
        ) == liq_bucket(os, a2, k2) by {}
        assert(liq_bucket(os.push(newo), a, k) == liq_bucket(os, a, k).push(
            crate::model::entry_of(newo),
        ));
        assert(has_asset_order(os.push(newo), a)) by {
            assert(os.push(newo)[os.len() as int].asset == a);
        }
        assert forall|a2: Seq<char>| a2 != a implies has_asset_order(os.push(newo), a2)
            == has_asset_order(os, a2) by {
            if has_asset_order(os.push(newo), a2) {
                let j = choose|j: int|
                    0 <= j < os.push(newo).len() && os.push(newo)[j].asset == a2;
                assert(j < os.len());
                assert(os[j].asset == a2);
            }
            if has_asset_order(os, a2) {
                let j = choose|j: int| 0 <= j < os.len() && os[j].asset == a2;
                assert(os.push(newo)[j].asset == a2);
            }
        }
        lemma_alist_map_domain(before, a);
    }
    match alist_find(tbl, asset) {
        Some(i) => {
            proof {
                lemma_alist_map_index(before, i as int);
            }
            let mut slot = tbl.remove(i);
            let ghost inner_before = slot.1.buckets@;
            proof {
                assert(alist_map(inner_before) == asset_buckets(os, a));
                lemma_alist_map_domain(inner_before, k);
            }
            match alist_find(&slot.1.buckets, &key) {
                Some(j) => {
                    proof {
                        lemma_alist_map_index(inner_before, j as int);
                    }
                    let mut bucket = slot.1.buckets.remove(j);
                    let ghost bseq = bucket.1.deep_view();
                    bucket.1.push(entry);
                    let ghost rep = (bucket.0, bucket.1);
                    slot.1.buckets.insert(j, bucket);
                    proof {
                        assert(rep.1.deep_view() =~= bseq.push(crate::model::entry_of(newo)));
                        assert(slot.1.buckets@ =~= inner_before.update(j as int, rep));
                        lemma_alist_map_update(inner_before, j as int, rep);
                        assert(bseq == asset_buckets(os, a)[k]);
                        assert(alist_map(slot.1.buckets@) =~= asset_buckets(os.push(newo), a));
                    }
                },
                None => {
                    let bkey = clone_string(&key);
                    let bucket = vec![entry];
                    let ghost newb = (bkey, bucket);
                    slot.1.buckets.push((bkey, bucket));
                    proof {
                        lemma_alist_map_push(inner_before, newb);
                        assert(slot.1.buckets@ =~= inner_before.push(newb));
                        assert(!asset_buckets(os, a).contains_key(k));
                        assert(liq_bucket(os, a, k).len() == 0);
                        assert(newb.1.deep_view() =~= liq_bucket(os, a, k).push(
                            crate::model::entry_of(newo),
                        ));
                        assert(alist_map(slot.1.buckets@) =~= asset_buckets(os.push(newo), a));
                    }
                },
            }
            let ghost replaced = (slot.0, slot.1);
            tbl.insert(i, slot);
            proof {
                assert(tbl@ =~= before.update(i as int, replaced));
                lemma_alist_map_update(before, i as int, replaced);
                assert forall|a2: Seq<char>| a2 != a implies asset_buckets(os.push(newo), a2)
                    =~= asset_buckets(os, a2) by {}
                assert(alist_map(tbl@) =~~= liq_index(os.push(newo)));
            }
        },
        None => {
            let akey = clone_string(asset);
            let bkey = clone_string(&key);
            let bucket = vec![entry];
            let ghost newb = (bkey, bucket);
            let mut inner: Vec<(String, Vec<LiquidationEntry>)> = Vec::new();
            inner.push((bkey, bucket));
            let slot = AssetBuckets { buckets: inner };
            let ghost newslot = (akey, slot);
            tbl.push((akey, slot));
            proof {
                assert(!liq_index(os).contains_key(a));
                assert(!has_asset_order(os, a));
                assert forall|k2: Seq<char>| liq_bucket(os, a, k2).len() == 0 by {
                    lemma_bucket_source(os, a, k2);
                }
                lemma_alist_map_push(before, newslot);
                assert(tbl@ =~= before.push(newslot));
                assert(newslot.1.buckets@ =~= Seq::<(String, Vec<LiquidationEntry>)>::empty().push(
                    newb,
                ));
                let ghost base = Seq::<(String, Vec<LiquidationEntry>)>::empty();
                assert(base.push(newb).drop_last() =~= base);
                assert(base.push(newb).last() == newb);
                assert(alist_map(base) =~= Map::<Seq<char>, Seq<LiquidationEntryV>>::empty());
                assert(alist_map(base.push(newb)) =~= Map::<Seq<char>, Seq<
                    LiquidationEntryV,
                >>::empty().insert(newb.0@, newb.1.deep_view()));
                assert(newb.0@ == k);
                assert(newb.1.deep_view() =~= liq_bucket(os, a, k).push(
                    crate::model::entry_of(newo),
                ));
                assert forall|k2: Seq<char>| k2 != k implies liq_bucket(
                    os.push(newo),
                    a,
                    k2,
                ).len() == 0 by {
                    assert(liq_bucket(os.push(newo), a, k2) == liq_bucket(os, a, k2));
                    assert(liq_bucket(os, a, k2).len() == 0);
                }
                assert(liq_bucket(os.push(newo), a, k) == liq_bucket(os, a, k).push(
                    crate::model::entry_of(newo),
                ));
                assert(newslot.1.deep_view() =~= asset_buckets(os.push(newo), a));
                assert forall|a2: Seq<char>| a2 != a implies asset_buckets(os.push(newo), a2)
                    =~= asset_buckets(os, a2) by {}
                assert(alist_map(tbl@) =~~= liq_index(os.push(newo)));
            }
        },
    }
}

/// A non-empty bucket comes from a live order of its asset.
pub proof fn lemma_bucket_source(os: Seq<OrderV>, a: Seq<char>, k: Seq<char>)
    requires
        !has_asset_order(os, a),
    ensures
        liq_bucket(os, a, k).len() == 0,
    decreases os.len(),
{
    if os.len() > 0 {
        assert(os.last().asset != a) by {
            assert(os[os.len() - 1] == os.last());
        }
        assert(!has_asset_order(os.drop_last(), a)) by {
            if has_asset_order(os.drop_last(), a) {
                let j = choose|j: int| 0 <= j < os.drop_last().len() && os.drop_last()[j].asset
                    == a;
                assert(os[j].asset == a);
            }
        }
        lemma_bucket_source(os.drop_last(), a, k);
    }
}

/// The id list of one user's bucket without one order id, as a fresh vector.
fn filter_out_id(bucket: &Vec<String>, order_id: &String) -> (r: Vec<String>)
    ensures
        r.deep_view() == crate::index::remove_id(bucket.deep_view(), order_id@),
{
    let mut kept: Vec<String> = Vec::new();
    let n = bucket.len();
    let mut t: usize = 0;
    while t < n
        invariant
            t <= n,
            n == bucket@.len(),
            kept.deep_view() =~= crate::index::remove_id(
                bucket.deep_view().take(t as int),
                order_id@,
            ),
        decreases n - t,
    {
        let ghost prefix = bucket.deep_view().take(t as int);
        proof {
            assert(bucket.deep_view().take(t + 1) =~= prefix.push(bucket@[t as int]@));
            assert(prefix.push(bucket@[t as int]@).drop_last() =~= prefix);
        }
        if !(bucket[t] == *order_id) {
            kept.push(clone_string(&bucket[t]));
        }
        proof {
            assert(kept.deep_view() =~= crate::index::remove_id(
                bucket.deep_view().take(t + 1),
                order_id@,
            ));
        }
        t = t + 1;
    }
    proof {
        assert(bucket.deep_view().take(n as int) =~= bucket.deep_view());
    }
    kept
}

/// A copy of a liquidation entry; its view is the same.
fn clone_liquidation_entry(e: &LiquidationEntry) -> (r: LiquidationEntry)
    ensures
        r.deep_view() == e.deep_view(),
{
    LiquidationEntry {
        order_id: clone_string(&e.order_id),
        user_id: clone_string(&e.user_id),
        liquidation_price: e.liquidation_price,
    }
}

/// The bucket without one order's entry, as a fresh vector.
fn filter_out_entry(bucket: &Vec<LiquidationEntry>, order_id: &String) -> (r: Vec<
    LiquidationEntry,
>)
    ensures
        r.deep_view() == crate::index::remove_entry(bucket.deep_view(), order_id@),
{
    let mut kept: Vec<LiquidationEntry> = Vec::new();
    let n = bucket.len();
    let mut t: usize = 0;
    while t < n
        invariant
            t <= n,
            n == bucket@.len(),
            kept.deep_view() =~= crate::index::remove_entry(
                bucket.deep_view().take(t as int),
                order_id@,
            ),
        decreases n - t,
    {
        let ghost prefix = bucket.deep_view().take(t as int);
        proof {
            assert(bucket.deep_view().take(t + 1) =~= prefix.push(bucket@[t as int].deep_view()));
            assert(prefix.push(bucket@[t as int].deep_view()).drop_last() =~= prefix);
        }
        if !(bucket[t].order_id == *order_id) {
            kept.push(clone_liquidation_entry(&bucket[t]));
        }
        proof {
            assert(kept.deep_view() =~= crate::index::remove_entry(
                bucket.deep_view().take(t + 1),
                order_id@,
            ));
        }
        t = t + 1;
    }
    proof {
        assert(bucket.deep_view().take(n as int) =~= bucket.deep_view());
    }
    kept
}

/// Takes a closed or liquidated order's id out of its user's list, dropping
/// the list when it empties: the stored table then denotes the user index of
/// the orders without the one at `i`.
fn by_user_remove(
    tbl: &mut Vec<(String, Vec<String>)>,
    user_id: &String,
    order_id: &String,
    Ghost(os): Ghost<Seq<OrderV>>,
    Ghost(i): Ghost<int>,
)
    requires
        unique_keys(old(tbl)@),
        alist_map(old(tbl)@) == user_index(os),
        unique_order_ids(os),
        0 <= i < os.len(),
        os[i].user_id == user_id@,
        os[i].order_id == order_id@,
    ensures
        unique_keys(final(tbl)@),
        alist_map(final(tbl)@) == user_index(os.remove(i)),
{
    let ghost before = tbl@;
    let ghost uid = user_id@;
    let ghost oid = order_id@;
    proof {
        assert forall|k: Seq<char>| k != uid implies user_order_ids(os.remove(i), k)
            == user_order_ids(os, k) by {
            crate::index::lemma_user_ids_remove(os, i, k);
        }
        crate::index::lemma_user_ids_remove(os, i, uid);
        crate::index::lemma_user_ids_count(os, uid, oid);
        assert(user_order_ids(os, uid).len() > 0);
        lemma_alist_map_domain(before, uid);
        assert(user_index(os).contains_key(uid));
    }
    let j = match alist_find(tbl, user_id) {
        Some(j) => j,
        None => {
            proof {
                assert(false);
            }
            return ;
        },
    };
    proof {
        lemma_alist_map_index(before, j as int);
    }
    let kept = filter_out_id(&tbl[j].1, order_id);
    if kept.len() == 0 {
        let _ = tbl.remove(j);
        proof {
            lemma_alist_map_remove(before, j as int);
            assert(user_order_ids(os.remove(i), uid).len() == 0);
            assert(alist_map(tbl@) =~= user_index(os.remove(i)));
        }
    } else {
        let mut entry = tbl.remove(j);
        entry.1 = kept;
        let ghost replaced = (entry.0, entry.1);
        tbl.insert(j, entry);
        proof {
            assert(tbl@ =~= before.update(j as int, replaced));
            lemma_alist_map_update(before, j as int, replaced);
            assert(alist_map(tbl@) =~= user_index(os.remove(i)));
        }
    }
}

/// Takes a closed or liquidated order's entry out of its bucket, dropping
/// the bucket and the asset slot when they empty: the stored table then
/// denotes the liquidation index of the orders without the one at `i`.
fn liq_remove(
    tbl: &mut Vec<(String, AssetBuckets)>,
    asset: &String,
    key: &String,
    order_id: &String,
    Ghost(os): Ghost<Seq<OrderV>>,
    Ghost(i): Ghost<int>,
)
    requires
        unique_keys(old(tbl)@),
        forall|t: int|
            0 <= t < old(tbl)@.len() ==> unique_keys(#[trigger] old(tbl)@[t].1.buckets@),
        alist_map(old(tbl)@) == liq_index(os),
        unique_order_ids(os),
        0 <= i < os.len(),
        os[i].asset == asset@,
        os[i].order_id == order_id@,
        key@ == crate::model::price_key_of(os[i]),
    ensures
        unique_keys(final(tbl)@),
        forall|t: int|
            0 <= t < final(tbl)@.len() ==> unique_keys(#[trigger] final(tbl)@[t].1.buckets@),
        alist_map(final(tbl)@) == liq_index(os.remove(i)),
{
    let ghost before = tbl@;
    let ghost a = asset@;
    let ghost k = crate::model::price_key_of(os[i]);
    let ghost oid = order_id@;
    let ghost short = os.remove(i);
    proof {
        assert forall|a2: Seq<char>, k2: Seq<char>| !(a2 == a && k2 == k) implies liq_bucket(
            short,
            a2,
            k2,
        ) == liq_bucket(os, a2, k2) by {
            crate::index::lemma_bucket_remove(os, i, a2, k2);
        }
        crate::index::lemma_bucket_remove(os, i, a, k);
        crate::index::lemma_bucket_count(os, a, k, oid);
        assert(liq_bucket(os, a, k).len() > 0);
        assert(has_asset_order(os, a));
        lemma_alist_map_domain(before, a);
        assert(liq_index(os).contains_key(a));
        assert forall|a2: Seq<char>| a2 != a implies has_asset_order(short, a2)
            == has_asset_order(os, a2) by {
            if has_asset_order(short, a2) {
                let j = choose|j: int| 0 <= j < short.len() && short[j].asset == a2;
                let j0 = if j < i {
                    j
                } else {
                    j + 1
                };
                assert(os[j0] == short[j]);
            }
            if has_asset_order(os, a2) {
                let j = choose|j: int| 0 <= j < os.len() && os[j].asset == a2;
                assert(j != i);
                let j1 = if j < i {
                    j
                } else {
                    j - 1
                };
                assert(short[j1] == os[j]);
            }
        }
        assert(unique_order_ids(short)) by {
            crate::index::lemma_user_ids_remove(os, i, os[i].user_id);
        }
        assert forall|a2: Seq<char>| a2 != a implies asset_buckets(short, a2) =~= asset_buckets(
            os,
            a2,
        ) by {}
    }
    let j = match alist_find(tbl, asset) {
        Some(j) => j,
        None => {
            proof {
                assert(false);
            }
            return ;
        },
    };
    proof {
        lemma_alist_map_index(before, j as int);
    }
    let mut slot = tbl.remove(j);
    let ghost inner_before = slot.1.buckets@;
    proof {
        assert(alist_map(inner_before) == asset_buckets(os, a));
        lemma_alist_map_domain(inner_before, k);
        assert(asset_buckets(os, a).contains_key(k));
    }
    let jb = match alist_find(&slot.1.buckets, key) {
        Some(jb) => jb,
        None => {
            proof {
                assert(false);
            }
            return ;
        },
    };
    proof {
        lemma_alist_map_index(inner_before, jb as int);
    }
    let kept = filter_out_entry(&slot.1.buckets[jb].1, order_id);
    if kept.len() == 0 {
        let _ = slot.1.buckets.remove(jb);
        proof {
            lemma_alist_map_remove(inner_before, jb as int);
            assert(alist_map(slot.1.buckets@) =~= asset_buckets(short, a));
        }
    } else {
        let mut bucket = slot.1.buckets.remove(jb);
        bucket.1 = kept;
        let ghost rep = (bucket.0, bucket.1);
        slot.1.buckets.insert(jb, bucket);
        proof {
            assert(slot.1.buckets@ =~= inner_before.update(jb as int, rep));
            lemma_alist_map_update(inner_before, jb as int, rep);
            assert(alist_map(slot.1.buckets@) =~= asset_buckets(short, a));
        }
    }
    if slot.1.buckets.len() == 0 {
        proof {
            assert(alist_map(slot.1.buckets@) =~= Map::<Seq<char>, Seq<
                LiquidationEntryV,
            >>::empty());
            assert(!has_asset_order(short, a)) by {
                if has_asset_order(short, a) {
                    let j2 = choose|j2: int| 0 <= j2 < short.len() && short[j2].asset == a;
                    crate::index::lemma_bucket_count(
                        short,
                        a,
                        crate::model::price_key_of(short[j2]),
                        short[j2].order_id,
                    );
                    assert(liq_bucket(short, a, crate::model::price_key_of(short[j2])).len() > 0);
                    assert(asset_buckets(short, a).contains_key(
                        crate::model::price_key_of(short[j2]),
                    ));
                }
            }
            lemma_alist_map_remove(before, j as int);
            assert(alist_map(tbl@) =~~= liq_index(short));
        }
    } else {
        let ghost replaced = (slot.0, slot.1);
        tbl.insert(j, slot);
        proof {
            assert(has_asset_order(short, a)) by {
                assert(replaced.1.buckets@.len() > 0);
                let k2 = replaced.1.buckets@[0].0@;
                lemma_alist_map_domain(replaced.1.buckets@, k2);
                assert(alist_map(replaced.1.buckets@).contains_key(k2));
                assert(liq_bucket(short, a, k2).len() > 0);
                lemma_nonempty_bucket_has_order(short, a, k2);
            }
            assert(tbl@ =~= before.update(j as int, replaced));
            lemma_alist_map_update(before, j as int, replaced);
            assert(alist_map(tbl@) =~~= liq_index(short));
        }
    }
}

/// A non-empty bucket certifies a live order of its asset.
pub proof fn lemma_nonempty_bucket_has_order(os: Seq<OrderV>, a: Seq<char>, k: Seq<char>)
    requires
        liq_bucket(os, a, k).len() > 0,
    ensures
        has_asset_order(os, a),
    decreases os.len(),
{
    if os.len() > 0 {
        if os.last().asset == a {
            assert(os[os.len() - 1].asset == a);
        } else {
            lemma_nonempty_bucket_has_order(os.drop_last(), a, k);
            let j = choose|j: int| 0 <= j < os.drop_last().len() && os.drop_last()[j].asset == a;
            assert(os[j].asset == a);
        }
    }
}

/// Both indices of no orders are empty.
pub proof fn lemma_empty_indices()
    ensures
        user_index(Seq::empty()) =~= Map::<Seq<char>, Seq<Seq<char>>>::empty(),
        liq_index(Seq::empty()) =~= Map::<Seq<char>, Map<Seq<char>, Seq<LiquidationEntryV>>>::empty(),
{
}

/// A copy of a string; its characters are the same.
pub fn clone_string(s: &String) -> (r: String)
    ensures
        r == s,
{
    s.clone()
}

/// A copy of a quote; its view is the same.
pub fn clone_asset_price(p: &AssetPrice) -> (r: AssetPrice)
    ensures
        r.deep_view() == p.deep_view(),
        r.symbol == p.symbol,
{
    AssetPrice {
        symbol: clone_string(&p.symbol),
        buy_price: p.buy_price,
        sell_price: p.sell_price,
        decimals: p.decimals,
    }
}

/// A copy of a user's state; its view is the same.
pub fn clone_user_balance(u: &UserBalance) -> (r: UserBalance)
    ensures
        r.deep_view() == u.deep_view(),
{
    let mut held: Vec<(String, (Dec, u32))> = Vec::new();
    let n = u.asset_balances.len();
    let mut i: usize = 0;
    while i < n
        invariant
            i <= n,
            n == u.asset_balances@.len(),
            held@.len() == i,
            forall|j: int| 0 <= j < i ==> #[trigger] held@[j] == u.asset_balances@[j],
        decreases n - i,
    {
        let pair = (clone_string(&u.asset_balances[i].0), u.asset_balances[i].1);
        held.push(pair);
        i = i + 1;
    }
    proof {
        assert(held@ =~= u.asset_balances@);
        assert(held.deep_view() =~= u.asset_balances.deep_view());
    }
    UserBalance { usd_balance: u.usd_balance, asset_balances: held }
}

/// A copy of an order; its view is the same.
pub fn clone_order(o: &Order) -> (r: Order)
    ensures
        r.deep_view() == o.deep_view(),
{
    Order {
        order_id: clone_string(&o.order_id),
        user_id: clone_string(&o.user_id),
        asset: clone_string(&o.asset),
        side: o.side,
        margin: o.margin,
        leverage: o.leverage,
        open_price: o.open_price,
        quantity: o.quantity,
        timestamp: o.timestamp,
    }
}

} // verus!

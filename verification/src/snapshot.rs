//! The checkpoint format and its round trip.
//!
//! A [`SnapshotData`] holds the five tables and the resume offset as plain
//! keyed vectors, ready to be serialized by the surrounding process. Saving
//! copies the engine's tables; loading takes users, orders, prices and the
//! offset as given — after checking them — and rebuilds the two derived
//! indices from the live orders, so that a restored engine satisfies the
//! state invariant whatever the file said about the indices. A legacy
//! checkpoint, which carries the orders grouped per user instead of the five
//! tables, is accepted the same way.
use vstd::prelude::*;
use crate::alist::{alist_map, unique_keys, keys_unique, sum_by};
use crate::model::{Order, OrderV, AssetPrice, UserBalance, LiquidationEntry};
use crate::state::{
    Engine, AssetBuckets, balance_measure, clone_string, clone_order, clone_asset_price,
    clone_user_balance, lemma_empty_indices,
};
use crate::index::{user_index, liq_index};
use crate::model::{UserBalanceV, LiquidationEntryV};

verus! {

/// A full checkpoint: the five tables and the resume offset, plus the time
/// it was taken.
pub struct SnapshotData {
    /// Cash and holdings per user id.
    pub users: Vec<(String, UserBalance)>,
    /// Live orders per order id.
    pub orders_by_id: Vec<(String, Order)>,
    /// Order ids per user id.
    pub orders_by_user: Vec<(String, Vec<String>)>,
    /// Liquidation entries per asset and price key.
    pub liquidation_map: Vec<(String, Vec<(String, Vec<LiquidationEntry>)>)>,
    /// Last quote per symbol.
    pub prices: Vec<(String, AssetPrice)>,
    /// The broker entry id past which processing had advanced.
    pub last_processed_id: String,
    /// Seconds since the epoch when the checkpoint was taken.
    pub timestamp: i64,
}

/// Two keyed tables carry the same keys and, up to view, the same values, in
/// the same arrangement.
pub open spec fn tables_match<V: DeepView>(a: Seq<(String, V)>, b: Seq<(String, V)>) -> bool {
    &&& a.len() == b.len()
    &&& forall|i: int|
        0 <= i < a.len() ==> (#[trigger] a[i]).0@ == b[i].0@ && a[i].1.deep_view()
            == b[i].1.deep_view()
}

/// Matching tables denote the same map and agree on key distinctness.
pub proof fn lemma_tables_match_map<V: DeepView>(a: Seq<(String, V)>, b: Seq<(String, V)>)
    requires
        tables_match(a, b),
    ensures
        alist_map(a) == alist_map(b),
        unique_keys(a) <==> unique_keys(b),
    decreases a.len(),
{
    assert forall|i: int, j: int| 0 <= i < j < a.len() implies (a[i].0@ != a[j].0@ <==> b[i].0@
        != b[j].0@) by {
        assert(a[i].0@ == b[i].0@ && a[j].0@ == b[j].0@);
    }
    if a.len() > 0 {
        assert(tables_match(a.drop_last(), b.drop_last()));
        lemma_tables_match_map(a.drop_last(), b.drop_last());
        assert(a.last().0@ == b.last().0@ && a.last().1.deep_view() == b.last().1.deep_view()) by {
            assert(a[a.len() - 1].0@ == b[a.len() - 1].0@);
        }
        assert(alist_map(a) =~= alist_map(b));
    }
}

/// The saved liquidation table mirrors the stored one, bucket for bucket.
pub open spec fn liq_tables_match(
    a: Seq<(String, Vec<(String, Vec<LiquidationEntry>)>)>,
    b: Seq<(String, AssetBuckets)>,
) -> bool {
    &&& a.len() == b.len()
    &&& forall|i: int|
        0 <= i < a.len() ==> (#[trigger] a[i]).0@ == b[i].0@ && tables_match(
            a[i].1@,
            b[i].1.buckets@,
        )
}

/// What a checkpoint holds of the engine it was taken from: the same users,
/// orders, prices, indices and offset, up to view.
pub open spec fn snapshot_of(data: SnapshotData, e: Engine) -> bool {
    &&& tables_match(data.users@, e.users@)
    &&& tables_match(data.orders_by_id@, e.orders@)
    &&& tables_match(data.orders_by_user@, e.orders_by_user@)
    &&& liq_tables_match(data.liquidation_map@, e.liquidation_index@)
    &&& tables_match(data.prices@, e.asset_prices@)
    &&& data.last_processed_id@ == e.last_id()
}

/// What a restored engine holds of the checkpoint it was loaded from.
pub open spec fn restored_from(e: Engine, data: SnapshotData) -> bool {
    &&& tables_match(e.users@, data.users@)
    &&& tables_match(e.orders@, data.orders_by_id@)
    &&& tables_match(e.asset_prices@, data.prices@)
    &&& e.last_id() == data.last_processed_id@
}

/// A copy of the user table; it matches entry for entry.
fn copy_users(src: &Vec<(String, UserBalance)>) -> (r: Vec<(String, UserBalance)>)
    ensures
        tables_match(r@, src@),
{
    let mut out: Vec<(String, UserBalance)> = Vec::new();
    let n = src.len();
    let mut i: usize = 0;
    while i < n
        invariant
            i <= n,
            n == src@.len(),
            out@.len() == i,
            forall|j: int|
                0 <= j < i ==> (#[trigger] out@[j]).0@ == src@[j].0@ && out@[j].1.deep_view()
                    == src@[j].1.deep_view(),
        decreases n - i,
    {
        out.push((clone_string(&src[i].0), clone_user_balance(&src[i].1)));
        i = i + 1;
    }
    out
}

/// A copy of the order table; it matches entry for entry.
fn copy_orders(src: &Vec<(String, Order)>) -> (r: Vec<(String, Order)>)
    ensures
        tables_match(r@, src@),
{
    let mut out: Vec<(String, Order)> = Vec::new();
    let n = src.len();
    let mut i: usize = 0;
    while i < n
        invariant
            i <= n,
            n == src@.len(),
            out@.len() == i,
            forall|j: int|
                0 <= j < i ==> (#[trigger] out@[j]).0@ == src@[j].0@ && out@[j].1.deep_view()
                    == src@[j].1.deep_view(),
        decreases n - i,
    {
        out.push((clone_string(&src[i].0), clone_order(&src[i].1)));
        i = i + 1;
    }
    out
}

/// A copy of the price table; it matches entry for entry.
fn copy_prices(src: &Vec<(String, AssetPrice)>) -> (r: Vec<(String, AssetPrice)>)
    ensures
        tables_match(r@, src@),
{
    let mut out: Vec<(String, AssetPrice)> = Vec::new();
    let n = src.len();
    let mut i: usize = 0;
    while i < n
        invariant
            i <= n,
            n == src@.len(),
            out@.len() == i,
            forall|j: int|
                0 <= j < i ==> (#[trigger] out@[j]).0@ == src@[j].0@ && out@[j].1.deep_view()
                    == src@[j].1.deep_view(),
        decreases n - i,
    {
        out.push((clone_string(&src[i].0), clone_asset_price(&src[i].1)));
        i = i + 1;
    }
    out
}

/// A copy of a string list; its view is the same.
fn copy_id_list(src: &Vec<String>) -> (r: Vec<String>)
    ensures
        r.deep_view() == src.deep_view(),
{
    let mut out: Vec<String> = Vec::new();
    let n = src.len();
    let mut i: usize = 0;
    while i < n
        invariant
            i <= n,
            n == src@.len(),
            out@.len() == i,
            forall|j: int| 0 <= j < i ==> (#[trigger] out@[j])@ == src@[j]@,
        decreases n - i,
    {
        out.push(clone_string(&src[i]));
        i = i + 1;
    }
    proof {
        assert(out.deep_view() =~= src.deep_view());
    }
    out
}

/// A copy of the user index; it matches entry for entry.
fn copy_by_user(src: &Vec<(String, Vec<String>)>) -> (r: Vec<(String, Vec<String>)>)
    ensures
        tables_match(r@, src@),
{
    let mut out: Vec<(String, Vec<String>)> = Vec::new();
    let n = src.len();
    let mut i: usize = 0;
    while i < n
        invariant
            i <= n,
            n == src@.len(),
            out@.len() == i,
            forall|j: int|
                0 <= j < i ==> (#[trigger] out@[j]).0@ == src@[j].0@ && out@[j].1.deep_view()
                    == src@[j].1.deep_view(),
        decreases n - i,
    {
        out.push((clone_string(&src[i].0), copy_id_list(&src[i].1)));
        i = i + 1;
    }
    out
}

/// A copy of one bucket; it matches entry for entry.
fn copy_bucket(src: &Vec<LiquidationEntry>) -> (r: Vec<LiquidationEntry>)
    ensures
        r.deep_view() == src.deep_view(),
{
    let mut out: Vec<LiquidationEntry> = Vec::new();
    let n = src.len();
    let mut i: usize = 0;
    while i < n
        invariant
            i <= n,
            n == src@.len(),
            out@.len() == i,
            forall|j: int| 0 <= j < i ==> (#[trigger] out@[j]).deep_view() == src@[j].deep_view(),
        decreases n - i,
    {
        out.push(
            LiquidationEntry {
                order_id: clone_string(&src[i].order_id),
                user_id: clone_string(&src[i].user_id),
                liquidation_price: src[i].liquidation_price,
            },
        );
        i = i + 1;
    }
    proof {
        assert(out.deep_view() =~= src.deep_view());
    }
    out
}

/// A copy of one asset's buckets; it matches bucket for bucket.
fn copy_asset_buckets(src: &AssetBuckets) -> (r: Vec<(String, Vec<LiquidationEntry>)>)
    ensures
        tables_match(r@, src.buckets@),
{
    let mut out: Vec<(String, Vec<LiquidationEntry>)> = Vec::new();
    let n = src.buckets.len();
    let mut i: usize = 0;
    while i < n
        invariant
            i <= n,
            n == src.buckets@.len(),
            out@.len() == i,
            forall|j: int|
                0 <= j < i ==> (#[trigger] out@[j]).0@ == src.buckets@[j].0@
                    && out@[j].1.deep_view() == src.buckets@[j].1.deep_view(),
        decreases n - i,
    {
        out.push((clone_string(&src.buckets[i].0), copy_bucket(&src.buckets[i].1)));
        i = i + 1;
    }
    out
}

/// A copy of the liquidation index; it matches asset for asset.
fn copy_liq(src: &Vec<(String, AssetBuckets)>) -> (r: Vec<(String, Vec<(String, Vec<
    LiquidationEntry,
>)>)>)
    ensures
        liq_tables_match(r@, src@),
{
    let mut out: Vec<(String, Vec<(String, Vec<LiquidationEntry>)>)> = Vec::new();
    let n = src.len();
    let mut i: usize = 0;
    while i < n
        invariant
            i <= n,
            n == src@.len(),
            out@.len() == i,
            forall|j: int|
                0 <= j < i ==> (#[trigger] out@[j]).0@ == src@[j].0@ && tables_match(
                    out@[j].1@,
                    src@[j].1.buckets@,
                ),
        decreases n - i,
    {
        out.push((clone_string(&src[i].0), copy_asset_buckets(&src[i].1)));
        i = i + 1;
    }
    out
}

/// The user and price tables of a checkpoint are usable as they stand.
pub open spec fn base_ok(
    users: Seq<(String, UserBalance)>,
    prices: Seq<(String, AssetPrice)>,
) -> bool {
    &&& unique_keys(users)
    &&& forall|i: int| 0 <= i < users.len() ==> (#[trigger] users[i]).1.usd_balance.wf()
    &&& unique_keys(prices)
    &&& forall|i: int|
        0 <= i < prices.len() ==> {
            let p = #[trigger] prices[i];
            p.0@ == p.1.symbol@ && p.1.deep_view().wf()
        }
}

/// The checkpointed order entries can all be filed: keyed by their own ids,
/// pairwise distinct, fields usable, owners known among the given users.
pub open spec fn orders_loadable(
    entries: Seq<(String, Order)>,
    users: Map<Seq<char>, UserBalanceV>,
) -> bool {
    &&& unique_keys(entries)
    &&& forall|i: int|
        0 <= i < entries.len() ==> {
            let p = #[trigger] entries[i];
            &&& p.0@ == p.1.order_id@
            &&& crate::state::order_fields_ok(p.1.deep_view())
            &&& users.contains_key(p.1.user_id@)
        }
}

/// A checkpoint can be loaded as it stands.
pub open spec fn restorable(d: SnapshotData) -> bool {
    &&& base_ok(d.users@, d.prices@)
    &&& orders_loadable(d.orders_by_id@, alist_map(d.users@))
}

/// An engine with the given users, prices and offset and no orders; refused
/// exactly when the tables cannot stand. The checkpointed cash counts as
/// deposited.
fn base_engine(
    users: Vec<(String, UserBalance)>,
    prices: Vec<(String, AssetPrice)>,
    last_processed_id: String,
) -> (r: Option<Engine>)
    ensures
        r is Some <==> base_ok(users@, prices@),
        r matches Some(e) ==> {
            &&& e.inv()
            &&& e.users == users
            &&& e.asset_prices == prices
            &&& e.last_processed_id == last_processed_id
            &&& e.orders@.len() == 0
            &&& e.pnl_paid@ == 0
            &&& e.drift@ == 0
        },
{
    if !keys_unique(&users) {
        return None;
    }
    let nu = users.len();
    let mut i: usize = 0;
    while i < nu
        invariant
            i <= nu,
            nu == users@.len(),
            forall|j: int| 0 <= j < i ==> (#[trigger] users@[j]).1.usd_balance.wf(),
        decreases nu - i,
    {
        if !users[i].1.usd_balance.check_wf() {
            return None;
        }
        i = i + 1;
    }
    if !keys_unique(&prices) {
        return None;
    }
    let np = prices.len();
    let mut i: usize = 0;
    while i < np
        invariant
            i <= np,
            np == prices@.len(),
            forall|j: int|
                0 <= j < i ==> {
                    let p = #[trigger] prices@[j];
                    p.0@ == p.1.symbol@ && p.1.deep_view().wf()
                },
        decreases np - i,
    {
        if !(prices[i].0 == prices[i].1.symbol && prices[i].1.buy_price.check_wf()
            && prices[i].1.sell_price.check_wf()) {
            return None;
        }
        i = i + 1;
    }
    let ghost total = sum_by(users@, balance_measure());
    let e = Engine {
        users,
        orders: Vec::new(),
        orders_by_user: Vec::new(),
        liquidation_index: Vec::new(),
        asset_prices: prices,
        last_processed_id,
        deposits: Ghost(total),
        pnl_paid: Ghost(0),
        drift: Ghost(0),
    };
    proof {
        lemma_empty_indices();
        assert(e.orders_seq() =~= Seq::<OrderV>::empty());
        assert(e.by_user_map() =~= Map::<Seq<char>, Seq<Seq<char>>>::empty());
        assert(e.liq_map() =~= Map::<Seq<char>, Map<Seq<char>, Seq<LiquidationEntryV>>>::empty());
        assert(e.by_user_map() =~= user_index(e.orders_seq()));
        assert(e.liq_map() =~~= liq_index(e.orders_seq()));
    }
    Some(e)
}

/// Files the checkpointed orders one by one into an engine without orders;
/// refused, with the engine unspecified but sound, exactly when some entry
/// cannot stand.
fn load_orders(eng: &mut Engine, entries: Vec<(String, Order)>) -> (r: bool)
    requires
        old(eng).inv(),
        old(eng).orders@.len() == 0,
    ensures
        final(eng).inv(),
        r <==> orders_loadable(entries@, old(eng).users_map()),
        final(eng).users == old(eng).users,
        final(eng).asset_prices == old(eng).asset_prices,
        final(eng).last_processed_id == old(eng).last_processed_id,
        r ==> tables_match(final(eng).orders@, entries@),
{
    let n = entries.len();
    let mut i: usize = 0;
    while i < n
        invariant
            eng.inv(),
            i <= n,
            n == entries@.len(),
            eng.users == old(eng).users,
            eng.asset_prices == old(eng).asset_prices,
            eng.last_processed_id == old(eng).last_processed_id,
            tables_match(eng.orders@, entries@.take(i as int)),
            forall|j: int|
                0 <= j < i ==> {
                    let p = #[trigger] entries@[j];
                    &&& p.0@ == p.1.order_id@
                    &&& crate::state::order_fields_ok(p.1.deep_view())
                    &&& old(eng).users_map().contains_key(p.1.user_id@)
                },
        decreases n - i,
    {
        let ghost prefix = entries@.take(i as int);
        if !(entries[i].0 == entries[i].1.order_id) {
            return false;
        }
        let order = clone_order(&entries[i].1);
        let ghost before = *eng;
        let ok = eng.restore_order(order);
        if !ok {
            proof {
                assert(!crate::state::restorable_order(before, entries@[i as int].1.deep_view()));
                if before.orders_map().contains_key(entries@[i as int].1.order_id@) {
                    crate::alist::lemma_alist_map_domain(
                        before.orders@,
                        entries@[i as int].1.order_id@,
                    );
                    let j = choose|j: int|
                        0 <= j < before.orders@.len() && before.orders@[j].0@ == entries@[i as int].1.order_id@;
                    assert(before.orders@[j].0@ == prefix[j].0@);
                    assert(prefix[j].0@ == entries@[j].0@);
                    assert(entries@[j].0@ == entries@[i as int].0@);
                    assert(!unique_keys(entries@));
                }
            }
            return false;
        }
        proof {
            assert(tables_match(eng.orders@, entries@.take(i + 1))) by {
                assert(entries@.take(i + 1) =~= prefix.push(entries@[i as int]));
                assert(eng.orders@.drop_last() == before.orders@);
                assert forall|j: int| 0 <= j < eng.orders@.len() implies (
                #[trigger] eng.orders@[j]).0@ == entries@.take(i + 1)[j].0@
                    && eng.orders@[j].1.deep_view() == entries@.take(i + 1)[j].1.deep_view() by {
                    if j < eng.orders@.len() - 1 {
                        assert(eng.orders@[j] == before.orders@[j]);
                    } else {
                        assert(eng.orders@[j] == eng.orders@.last());
                    }
                }
            }
        }
        i = i + 1;
    }
    proof {
        assert(entries@.take(n as int) =~= entries@);
        assert(unique_keys(entries@)) by {
            lemma_tables_match_map(eng.orders@, entries@);
        }
    }
    true
}

impl Engine {
    /// Loads a checkpoint in the current format: users, prices and the
    /// resume offset are taken as given once checked, and the two derived
    /// indices are rebuilt from the live orders. Refused exactly when some
    /// table cannot stand; the checkpointed cash and margins count as
    /// deposited, and the realized ledger restarts at zero.
    pub fn from_snapshot(data: SnapshotData) -> (r: Option<Engine>)
        ensures
            r is Some <==> restorable(data),
            r matches Some(e) ==> e.inv() && restored_from(e, data),
    {
        let SnapshotData {
            users,
            orders_by_id,
            orders_by_user: _,
            liquidation_map: _,
            prices,
            last_processed_id,
            timestamp: _,
        } = data;
        let mut eng = match base_engine(users, prices, last_processed_id) {
            Some(e) => e,
            None => {
                return None;
            },
        };
        if !load_orders(&mut eng, orders_by_id) {
            return None;
        }
        proof {
            assert(tables_match(eng.users@, data.users@)) by {
                assert forall|i: int| 0 <= i < eng.users@.len() implies (
                #[trigger] eng.users@[i]).0@ == data.users@[i].0@ && eng.users@[i].1.deep_view()
                    == data.users@[i].1.deep_view() by {}
            }
            assert(tables_match(eng.asset_prices@, data.prices@)) by {
                assert forall|i: int| 0 <= i < eng.asset_prices@.len() implies (
                #[trigger] eng.asset_prices@[i]).0@ == data.prices@[i].0@
                    && eng.asset_prices@[i].1.deep_view() == data.prices@[i].1.deep_view() by {}
            }
        }
        Some(eng)
    }
}

/// The orders of a legacy checkpoint, grouped per user, in file order.
pub open spec fn legacy_entries(s: Seq<(String, Vec<Order>)>) -> Seq<OrderV>
    decreases s.len(),
{
    if s.len() == 0 {
        Seq::empty()
    } else {
        legacy_entries(s.drop_last()) + s.last().1.deep_view()
    }
}

/// Every grouped order names the user it is filed under.
pub open spec fn legacy_keys_consistent(s: Seq<(String, Vec<Order>)>) -> bool {
    forall|i: int, t: int|
        0 <= i < s.len() && 0 <= t < (#[trigger] s[i]).1@.len() ==> (
        #[trigger] s[i].1@[t]).user_id@ == s[i].0@
}

/// The flattened legacy orders can all be filed.
pub open spec fn legacy_orders_ok(os: Seq<OrderV>, users: Map<Seq<char>, UserBalanceV>) -> bool {
    &&& forall|p: int, q: int| 0 <= p < q < os.len() ==> os[p].order_id != os[q].order_id
    &&& forall|j: int|
        0 <= j < os.len() ==> crate::state::order_fields_ok(#[trigger] os[j]) && users.contains_key(
            os[j].user_id,
        )
}

/// The grouped orders in file order, each keyed by its own id; refused
/// exactly when some order is filed under the wrong user.
fn flatten_legacy(orders: &Vec<(String, Vec<Order>)>) -> (r: Option<Vec<(String, Order)>>)
    ensures
        r is Some <==> legacy_keys_consistent(orders@),
        r matches Some(v) ==> {
            let flat = legacy_entries(orders@);
            &&& v@.len() == flat.len()
            &&& forall|j: int|
                0 <= j < flat.len() ==> (#[trigger] v@[j]).0@ == flat[j].order_id
                    && v@[j].1.deep_view() == flat[j]
        },
{
    let mut out: Vec<(String, Order)> = Vec::new();
    let n = orders.len();
    let mut i: usize = 0;
    while i < n
        invariant
            i <= n,
            n == orders@.len(),
            legacy_keys_consistent(orders@.take(i as int)),
            ({
                let flat = legacy_entries(orders@.take(i as int));
                &&& out@.len() == flat.len()
                &&& forall|j: int|
                    0 <= j < flat.len() ==> (#[trigger] out@[j]).0@ == flat[j].order_id
                        && out@[j].1.deep_view() == flat[j]
            }),
        decreases n - i,
    {
        let ghost outer_prefix = orders@.take(i as int);
        let ghost flat_before = legacy_entries(outer_prefix);
        let group = &orders[i].1;
        let m = group.len();
        let mut t: usize = 0;
        while t < m
            invariant
                i < n,
                n == orders@.len(),
                t <= m,
                group == &orders@[i as int].1,
                m == group@.len(),
                flat_before == legacy_entries(orders@.take(i as int)),
                forall|t2: int| 0 <= t2 < t ==> (#[trigger] group@[t2]).user_id@ == orders@[i as int].0@,
                ({
                    let flat = flat_before + group.deep_view().take(t as int);
                    &&& out@.len() == flat.len()
                    &&& forall|j: int|
                        0 <= j < flat.len() ==> (#[trigger] out@[j]).0@ == flat[j].order_id
                            && out@[j].1.deep_view() == flat[j]
                }),
            decreases m - t,
        {
            if !(group[t].user_id == orders[i].0) {
                return None;
            }
            let entry = clone_order(&group[t]);
            let key = clone_string(&entry.order_id);
            out.push((key, entry));
            proof {
                assert(flat_before + group.deep_view().take(t + 1) =~= (flat_before
                    + group.deep_view().take(t as int)).push(group.deep_view()[t as int]));
            }
            t = t + 1;
        }
        proof {
            assert(group.deep_view().take(m as int) =~= group.deep_view());
            assert(orders@.take(i + 1).drop_last() =~= orders@.take(i as int));
            assert(orders@.take(i + 1).last() == orders@[i as int]);
            assert(legacy_entries(orders@.take(i + 1)) == flat_before + group.deep_view());
            assert(legacy_keys_consistent(orders@.take(i + 1)));
        }
        i = i + 1;
    }
    proof {
        assert(orders@.take(n as int) =~= orders@);
    }
    Some(out)
}

impl Engine {
    /// Loads a legacy checkpoint, in which the orders come grouped per user:
    /// the live table and both indices are synthesized from the groups, in
    /// file order. Refused exactly when a table or an order cannot stand.
    pub fn from_legacy_snapshot(
        users: Vec<(String, UserBalance)>,
        orders: Vec<(String, Vec<Order>)>,
        prices: Vec<(String, AssetPrice)>,
        last_processed_id: String,
    ) -> (r: Option<Engine>)
        ensures
            r is Some <==> base_ok(users@, prices@) && legacy_keys_consistent(orders@)
                && legacy_orders_ok(legacy_entries(orders@), alist_map(users@)),
            r matches Some(e) ==> {
                &&& e.inv()
                &&& e.users == users
                &&& e.asset_prices == prices
                &&& e.last_processed_id == last_processed_id
                &&& e.orders_seq() == legacy_entries(orders@)
            },
    {
        let ghost flat = legacy_entries(orders@);
        let entries = match flatten_legacy(&orders) {
            Some(v) => v,
            None => {
                return None;
            },
        };
        let mut eng = match base_engine(users, prices, last_processed_id) {
            Some(e) => e,
            None => {
                return None;
            },
        };
        let ghost users_map = eng.users_map();
        proof {
            if orders_loadable(entries@, users_map) {
                assert forall|p: int, q: int| 0 <= p < q < flat.len() implies flat[p].order_id
                    != flat[q].order_id by {
                    assert(entries@[p].0@ == flat[p].order_id);
                    assert(entries@[q].0@ == flat[q].order_id);
                    assert(entries@[p].0@ != entries@[q].0@);
                }
                assert forall|j: int| 0 <= j < flat.len() implies crate::state::order_fields_ok(
                    #[trigger] flat[j],
                ) && users_map.contains_key(flat[j].user_id) by {
                    assert(entries@[j].1.deep_view() == flat[j]);
                    assert(crate::state::order_fields_ok(entries@[j].1.deep_view()));
                    assert(users_map.contains_key(entries@[j].1.user_id@));
                }
                assert(legacy_orders_ok(flat, users_map));
            }
            if legacy_orders_ok(flat, users_map) {
                assert forall|p: int, q: int| 0 <= p < q < entries@.len() implies entries@[p].0@
                    != entries@[q].0@ by {
                    assert(entries@[p].0@ == flat[p].order_id);
                    assert(entries@[q].0@ == flat[q].order_id);
                    assert(flat[p].order_id != flat[q].order_id);
                }
                assert forall|j: int| 0 <= j < entries@.len() implies {
                    let p = #[trigger] entries@[j];
                    &&& p.0@ == p.1.order_id@
                    &&& crate::state::order_fields_ok(p.1.deep_view())
                    &&& users_map.contains_key(p.1.user_id@)
                } by {
                    assert(entries@[j].1.deep_view() == flat[j]);
                    assert(entries@[j].0@ == flat[j].order_id);
                    assert(crate::state::order_fields_ok(flat[j]));
                    assert(users_map.contains_key(flat[j].user_id));
                }
                assert(orders_loadable(entries@, users_map));
            }
        }
        if !load_orders(&mut eng, entries) {
            return None;
        }
        proof {
            assert(eng.orders_seq() =~= flat);
        }
        Some(eng)
    }
}

/// Snapshot round trip: a checkpoint taken from a live engine is always
/// accepted back, and loading it reproduces an equal state: the same users,
/// orders in the same arrangement, both indices, prices and resume offset.
pub proof fn lemma_snapshot_roundtrip(e: Engine, data: SnapshotData, e2: Engine)
    requires
        e.inv(),
        e2.inv(),
        snapshot_of(data, e),
        restored_from(e2, data),
    ensures
        e2.users_map() == e.users_map(),
        e2.orders_map() == e.orders_map(),
        e2.orders_seq() == e.orders_seq(),
        e2.prices_map() == e.prices_map(),
        e2.by_user_map() == e.by_user_map(),
        e2.liq_map() == e.liq_map(),
        e2.last_id() == e.last_id(),
{
    assert(tables_match(e2.users@, e.users@));
    assert(tables_match(e2.orders@, e.orders@));
    assert(tables_match(e2.asset_prices@, e.asset_prices@));
    lemma_tables_match_map(e2.users@, e.users@);
    lemma_tables_match_map(e2.orders@, e.orders@);
    lemma_tables_match_map(e2.asset_prices@, e.asset_prices@);
    assert(e2.orders_seq() =~= e.orders_seq());
}

/// A checkpoint taken from a live engine can always be loaded.
pub proof fn lemma_snapshot_restorable(e: Engine, data: SnapshotData)
    requires
        e.inv(),
        snapshot_of(data, e),
    ensures
        restorable(data),
{
    lemma_tables_match_map(data.users@, e.users@);
    lemma_tables_match_map(data.prices@, e.asset_prices@);
    lemma_tables_match_map(data.orders_by_id@, e.orders@);
    assert forall|i: int| 0 <= i < data.users@.len() implies (
    #[trigger] data.users@[i]).1.usd_balance.wf() by {
        assert(data.users@[i].1.deep_view() == e.users@[i].1.deep_view());
        assert(e.users@[i].1.usd_balance.wf());
    }
    assert forall|i: int| 0 <= i < data.prices@.len() implies {
        let p = #[trigger] data.prices@[i];
        p.0@ == p.1.symbol@ && p.1.deep_view().wf()
    } by {
        assert(data.prices@[i].1.deep_view() == e.asset_prices@[i].1.deep_view());
        assert(e.asset_prices@[i].0@ == e.asset_prices@[i].1.symbol@);
    }
    assert forall|i: int| 0 <= i < data.orders_by_id@.len() implies {
        let p = #[trigger] data.orders_by_id@[i];
        &&& p.0@ == p.1.order_id@
        &&& crate::state::order_fields_ok(p.1.deep_view())
        &&& alist_map(data.users@).contains_key(p.1.user_id@)
    } by {
        assert(data.orders_by_id@[i].1.deep_view() == e.orders@[i].1.deep_view());
        assert(e.orders@[i].0@ == e.orders@[i].1.order_id@);
        assert(e.orders@[i].1.deep_view().wf());
        assert(alist_map(e.users@).contains_key(e.orders@[i].1.user_id@));
    }
}

impl Engine {
    /// A checkpoint of the full state, taken at the given time: the five
    /// tables and the resume offset, copied.
    pub fn to_snapshot(&self, timestamp: i64) -> (r: SnapshotData)
        requires
            self.inv(),
        ensures
            snapshot_of(r, *self),
            r.timestamp == timestamp,
    {
        SnapshotData {
            users: copy_users(&self.users),
            orders_by_id: copy_orders(&self.orders),
            orders_by_user: copy_by_user(&self.orders_by_user),
            liquidation_map: copy_liq(&self.liquidation_index),
            prices: copy_prices(&self.asset_prices),
            last_processed_id: clone_string(&self.last_processed_id),
            timestamp,
        }
    }
}

} // verus!

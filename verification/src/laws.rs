//! System-wide properties of the state store, stated and proved once over
//! every reachable state (every state satisfying [`Engine::inv`], which every
//! operation requires and preserves).
use vstd::prelude::*;
use crate::dec::Dec;
use crate::model::price_key_of;
use crate::state::{Engine, EngineError, close_verdict, create_verdict};
use crate::model::OrderV;
use crate::index::{count_id, count_entry, lemma_user_ids_count, lemma_bucket_count};
use crate::alist::{lemma_alist_map_domain, lemma_alist_map_index};

verus! {

/// Conservation of cash: while no close credit has been rounded, the users'
/// cash plus the live margins equals everything deposited plus the realized
/// profit and loss paid out (credited on closes, minus margins forfeited on
/// liquidations). No operation creates or destroys money.
pub proof fn lemma_conservation(e: Engine)
    requires
        e.inv(),
        e.drift_v() == 0,
    ensures
        e.balances_total() + e.margins_total() == e.deposits_v() + e.pnl_paid_v(),
{
}

/// Index consistency: a live order is indexed exactly once in its owner's
/// id list and exactly once in its liquidation bucket, and in no other list
/// or bucket.
pub proof fn lemma_index_consistency(e: Engine, oid: Seq<char>)
    requires
        e.inv(),
        e.orders_map().contains_key(oid),
    ensures
        ({
            let o = e.orders_map()[oid];
            &&& e.by_user_map().contains_key(o.user_id)
            &&& count_id(e.by_user_map()[o.user_id], oid) == 1
            &&& e.liq_map().contains_key(o.asset)
            &&& e.liq_map()[o.asset].contains_key(price_key_of(o))
            &&& count_entry(e.liq_map()[o.asset][price_key_of(o)], oid) == 1
            &&& forall|uid: Seq<char>|
                uid != o.user_id && e.by_user_map().contains_key(uid) ==> count_id(
                    #[trigger] e.by_user_map()[uid],
                    oid,
                ) == 0
            &&& forall|a: Seq<char>, k: Seq<char>|
                !(a == o.asset && k == price_key_of(o)) && e.liq_map().contains_key(a)
                    && e.liq_map()[a].contains_key(k) ==> count_entry(
                    #[trigger] e.liq_map()[a][k],
                    oid,
                ) == 0
        }),
{
    let os = e.orders_seq();
    e.lemma_unique_order_ids();
    lemma_alist_map_domain(e.orders@, oid);
    let j = choose|j: int| 0 <= j < e.orders@.len() && e.orders@[j].0@ == oid;
    lemma_alist_map_index(e.orders@, j);
    assert(os[j] == e.orders@[j].1.deep_view());
    assert(os[j] == e.orders_map()[oid]);
    assert(os[j].order_id == oid);
    let o = e.orders_map()[oid];
    lemma_user_ids_count(os, o.user_id, oid);
    assert(count_id(crate::index::user_order_ids(os, o.user_id), oid) == 1);
    lemma_bucket_count(os, o.asset, price_key_of(o), oid);
    assert(count_entry(crate::index::liq_bucket(os, o.asset, price_key_of(o)), oid) == 1);
    assert forall|uid: Seq<char>| uid != o.user_id && e.by_user_map().contains_key(uid)
        implies count_id(#[trigger] e.by_user_map()[uid], oid) == 0 by {
        lemma_user_ids_count(os, uid, oid);
        if exists|j2: int| 0 <= j2 < os.len() && os[j2].order_id == oid && os[j2].user_id == uid {
            let j2 = choose|j2: int|
                0 <= j2 < os.len() && os[j2].order_id == oid && os[j2].user_id == uid;
            assert(j2 == j);
        }
    }
    assert forall|a: Seq<char>, k: Seq<char>|
        !(a == o.asset && k == price_key_of(o)) && e.liq_map().contains_key(a)
            && e.liq_map()[a].contains_key(k) implies count_entry(
        #[trigger] e.liq_map()[a][k],
        oid,
    ) == 0 by {
        lemma_bucket_count(os, a, k, oid);
        if exists|j2: int|
            0 <= j2 < os.len() && os[j2].order_id == oid && os[j2].asset == a && price_key_of(
                os[j2],
            ) == k {
            let j2 = choose|j2: int|
                0 <= j2 < os.len() && os[j2].order_id == oid && os[j2].asset == a && price_key_of(
                    os[j2],
                ) == k;
            assert(j2 == j);
        }
    }
}

/// No empty collections are retained: a listed user has at least one order
/// id, a listed asset has at least one bucket, and a listed bucket has at
/// least one entry.
pub proof fn lemma_no_empty_buckets(e: Engine)
    requires
        e.inv(),
    ensures
        forall|uid: Seq<char>|
            e.by_user_map().contains_key(uid) ==> (#[trigger] e.by_user_map()[uid]).len() > 0,
        forall|a: Seq<char>|
            #![trigger e.liq_map().contains_key(a)]
            e.liq_map().contains_key(a) ==> exists|k: Seq<char>| e.liq_map()[a].contains_key(k),
        forall|a: Seq<char>, k: Seq<char>|
            e.liq_map().contains_key(a) && e.liq_map()[a].contains_key(k) ==> (
            #[trigger] e.liq_map()[a][k]).len() > 0,
{
    let os = e.orders_seq();
    e.lemma_unique_order_ids();
    assert forall|a: Seq<char>|
        #![trigger e.liq_map().contains_key(a)]
        e.liq_map().contains_key(a) implies exists|k: Seq<char>| e.liq_map()[a].contains_key(
        k,
    ) by {
        assert(crate::index::has_asset_order(os, a));
        let j = choose|j: int| 0 <= j < os.len() && os[j].asset == a;
        lemma_bucket_count(os, a, price_key_of(os[j]), os[j].order_id);
        assert(crate::index::liq_bucket(os, a, price_key_of(os[j])).len() > 0);
        assert(e.liq_map()[a].contains_key(price_key_of(os[j])));
        assert(exists|k: Seq<char>| e.liq_map()[a].contains_key(k));
    }
}

/// A second creation under a live order id is refused outright, with the
/// state untouched: creation is idempotent under duplicate delivery.
pub proof fn lemma_duplicate_create(e: Engine, o: OrderV)
    requires
        e.orders_map().contains_key(o.order_id),
    ensures
        create_verdict(e, o) == Err::<OrderV, EngineError>(EngineError::OrderIdTaken),
{
}

/// A second close of an already closed (or liquidated) order id reports the
/// order as missing: closing is idempotent under duplicate delivery.
pub proof fn lemma_duplicate_close(e: Engine, oid: Seq<char>)
    requires
        !e.orders_map().contains_key(oid),
    ensures
        close_verdict(e, oid) == Err::<(Dec, Dec), EngineError>(EngineError::OrderNotFound),
{
}

} // verus!

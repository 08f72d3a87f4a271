//! The two derived indices over the live orders.
//!
//! Both the user index (user to order ids) and the liquidation index (asset
//! to price key to entries) are determined by the sequence of live orders in
//! creation order. This module defines that denotation and proves how it
//! moves when an order is appended or removed, and that a live order is
//! indexed exactly once.
use vstd::prelude::*;
use crate::model::{OrderV, LiquidationEntryV, price_key_of, entry_of};

verus! {

/// Pairwise distinct order ids.
pub open spec fn unique_order_ids(os: Seq<OrderV>) -> bool {
    forall|i: int, j: int| 0 <= i < j < os.len() ==> os[i].order_id != os[j].order_id
}

/// The ids of one user's orders, in creation order.
pub open spec fn user_order_ids(os: Seq<OrderV>, uid: Seq<char>) -> Seq<Seq<char>>
    decreases os.len(),
{
    if os.len() == 0 {
        Seq::empty()
    } else {
        let r = user_order_ids(os.drop_last(), uid);
        if os.last().user_id == uid {
            r.push(os.last().order_id)
        } else {
            r
        }
    }
}

/// The user index: one non-empty id list for each user with a live order.
pub open spec fn user_index(os: Seq<OrderV>) -> Map<Seq<char>, Seq<Seq<char>>> {
    Map::new(
        |uid: Seq<char>| user_order_ids(os, uid).len() > 0,
        |uid: Seq<char>| user_order_ids(os, uid),
    )
}

/// The entries of one asset's orders sharing one price key, in creation
/// order.
pub open spec fn liq_bucket(os: Seq<OrderV>, asset: Seq<char>, key: Seq<char>) -> Seq<
    LiquidationEntryV,
>
    decreases os.len(),
{
    if os.len() == 0 {
        Seq::empty()
    } else {
        let r = liq_bucket(os.drop_last(), asset, key);
        if os.last().asset == asset && price_key_of(os.last()) == key {
            r.push(entry_of(os.last()))
        } else {
            r
        }
    }
}

/// The buckets of one asset, keyed by price key; only non-empty ones.
pub open spec fn asset_buckets(os: Seq<OrderV>, asset: Seq<char>) -> Map<Seq<char>, Seq<
    LiquidationEntryV,
>> {
    Map::new(
        |k: Seq<char>| liq_bucket(os, asset, k).len() > 0,
        |k: Seq<char>| liq_bucket(os, asset, k),
    )
}

/// Some live order trades the asset.
pub open spec fn has_asset_order(os: Seq<OrderV>, asset: Seq<char>) -> bool {
    exists|i: int| 0 <= i < os.len() && os[i].asset == asset
}

/// The liquidation index: buckets per asset, for assets with a live order.
pub open spec fn liq_index(os: Seq<OrderV>) -> Map<Seq<char>, Map<Seq<char>, Seq<
    LiquidationEntryV,
>>> {
    Map::new(
        |a: Seq<char>| has_asset_order(os, a),
        |a: Seq<char>| asset_buckets(os, a),
    )
}

/// The id list with every occurrence of one id taken out, order kept.
pub open spec fn remove_id(s: Seq<Seq<char>>, id: Seq<char>) -> Seq<Seq<char>>
    decreases s.len(),
{
    if s.len() == 0 {
        Seq::empty()
    } else {
        let r = remove_id(s.drop_last(), id);
        if s.last() == id {
            r
        } else {
            r.push(s.last())
        }
    }
}

/// The bucket with every entry of one order taken out, order kept.
pub open spec fn remove_entry(s: Seq<LiquidationEntryV>, id: Seq<char>) -> Seq<LiquidationEntryV>
    decreases s.len(),
{
    if s.len() == 0 {
        Seq::empty()
    } else {
        let r = remove_entry(s.drop_last(), id);
        if s.last().order_id == id {
            r
        } else {
            r.push(s.last())
        }
    }
}

/// How often an id occurs in an id list.
pub open spec fn count_id(s: Seq<Seq<char>>, id: Seq<char>) -> nat
    decreases s.len(),
{
    if s.len() == 0 {
        0
    } else {
        count_id(s.drop_last(), id) + if s.last() == id {
            1nat
        } else {
            0nat
        }
    }
}

/// How often an order's entry occurs in a bucket.
pub open spec fn count_entry(s: Seq<LiquidationEntryV>, id: Seq<char>) -> nat
    decreases s.len(),
{
    if s.len() == 0 {
        0
    } else {
        count_entry(s.drop_last(), id) + if s.last().order_id == id {
            1nat
        } else {
            0nat
        }
    }
}

/// An id occurs in a user's id list exactly as often as the live orders
/// carry it for that user: with distinct ids, once or not at all.
pub proof fn lemma_user_ids_count(os: Seq<OrderV>, uid: Seq<char>, id: Seq<char>)
    requires
        unique_order_ids(os),
    ensures
        count_id(user_order_ids(os, uid), id) == (
        if exists|j: int| 0 <= j < os.len() && os[j].order_id == id && os[j].user_id == uid {
            1nat
        } else {
            0nat
        }),
    decreases os.len(),
{
    if os.len() > 0 {
        lemma_user_ids_count(os.drop_last(), uid, id);
        let prior = os.drop_last();
        let pl = user_order_ids(prior, uid);
        if os.last().user_id == uid {
            assert(user_order_ids(os, uid) == pl.push(os.last().order_id));
            assert(pl.push(os.last().order_id).drop_last() =~= pl);
            assert(count_id(pl.push(os.last().order_id), id) == count_id(pl, id) + (
            if os.last().order_id == id {
                1nat
            } else {
                0nat
            }));
        }
        if os.last().order_id == id && os.last().user_id == uid {
            assert forall|j: int| 0 <= j < prior.len() implies !(prior[j].order_id == id
                && prior[j].user_id == uid) by {
                assert(os[j] == prior[j]);
                assert(os[j].order_id != os[os.len() - 1].order_id);
            }
            assert(os[os.len() - 1].order_id == id && os[os.len() - 1].user_id == uid);
        } else {
            if exists|j: int| 0 <= j < os.len() && os[j].order_id == id && os[j].user_id == uid {
                let j = choose|j: int| 0 <= j < os.len() && os[j].order_id == id && os[j].user_id
                    == uid;
                assert(j < os.len() - 1);
                assert(prior[j].order_id == id && prior[j].user_id == uid);
            }
        }
    }
}

/// An order's entry occurs in a bucket exactly as often as the live orders
/// put it there: with distinct ids, once in its own bucket, never elsewhere.
pub proof fn lemma_bucket_count(os: Seq<OrderV>, asset: Seq<char>, key: Seq<char>, id: Seq<char>)
    requires
        unique_order_ids(os),
    ensures
        count_entry(liq_bucket(os, asset, key), id) == (
        if exists|j: int|
            0 <= j < os.len() && os[j].order_id == id && os[j].asset == asset && price_key_of(
                os[j],
            ) == key {
            1nat
        } else {
            0nat
        }),
    decreases os.len(),
{
    if os.len() > 0 {
        lemma_bucket_count(os.drop_last(), asset, key, id);
        let prior = os.drop_last();
        let pl = liq_bucket(prior, asset, key);
        if os.last().asset == asset && price_key_of(os.last()) == key {
            assert(liq_bucket(os, asset, key) == pl.push(entry_of(os.last())));
            assert(pl.push(entry_of(os.last())).drop_last() =~= pl);
            assert(count_entry(pl.push(entry_of(os.last())), id) == count_entry(pl, id) + (
            if entry_of(os.last()).order_id == id {
                1nat
            } else {
                0nat
            }));
        }
        if os.last().order_id == id && os.last().asset == asset && price_key_of(os.last())
            == key {
            assert forall|j: int| 0 <= j < prior.len() implies !(prior[j].order_id == id
                && prior[j].asset == asset && price_key_of(prior[j]) == key) by {
                assert(os[j] == prior[j]);
                assert(os[j].order_id != os[os.len() - 1].order_id);
            }
            assert(os[os.len() - 1].order_id == id && os[os.len() - 1].asset == asset
                && price_key_of(os[os.len() - 1]) == key);
        } else {
            if exists|j: int|
                0 <= j < os.len() && os[j].order_id == id && os[j].asset == asset && price_key_of(
                    os[j],
                ) == key {
                let j = choose|j: int|
                    0 <= j < os.len() && os[j].order_id == id && os[j].asset == asset
                        && price_key_of(os[j]) == key;
                assert(j < os.len() - 1);
                assert(prior[j].order_id == id && prior[j].asset == asset && price_key_of(
                    prior[j],
                ) == key);
            }
        }
    }
}

/// Every bucket member is the entry of some live order of that asset and
/// price key.
pub proof fn lemma_bucket_member(os: Seq<OrderV>, a: Seq<char>, k: Seq<char>, t: int)
    requires
        0 <= t < liq_bucket(os, a, k).len(),
    ensures
        exists|j: int|
            0 <= j < os.len() && os[j].asset == a && price_key_of(os[j]) == k && entry_of(os[j])
                == liq_bucket(os, a, k)[t],
    decreases os.len(),
{
    if os.len() > 0 {
        let b = liq_bucket(os, a, k);
        let prior = liq_bucket(os.drop_last(), a, k);
        if os.last().asset == a && price_key_of(os.last()) == k {
            assert(b == prior.push(entry_of(os.last())));
            assert(prior.push(entry_of(os.last())).drop_last() =~= prior);
            if t == b.len() - 1 {
                assert(os[os.len() - 1].asset == a && price_key_of(os[os.len() - 1]) == k
                    && entry_of(os[os.len() - 1]) == b[t]);
            } else {
                lemma_bucket_member(os.drop_last(), a, k, t);
                let j = choose|j: int|
                    0 <= j < os.drop_last().len() && os.drop_last()[j].asset == a && price_key_of(
                        os.drop_last()[j],
                    ) == k && entry_of(os.drop_last()[j]) == prior[t];
                assert(os[j].asset == a && price_key_of(os[j]) == k && entry_of(os[j]) == b[t]);
            }
        } else {
            lemma_bucket_member(os.drop_last(), a, k, t);
            let j = choose|j: int|
                0 <= j < os.drop_last().len() && os.drop_last()[j].asset == a && price_key_of(
                    os.drop_last()[j],
                ) == k && entry_of(os.drop_last()[j]) == prior[t];
            assert(os[j].asset == a && price_key_of(os[j]) == k && entry_of(os[j]) == b[t]);
        }
    }
}

/// A member with the id makes the count at least one.
pub proof fn lemma_count_entry_at(s: Seq<LiquidationEntryV>, t: int, id: Seq<char>)
    requires
        0 <= t < s.len(),
        s[t].order_id == id,
    ensures
        count_entry(s, id) >= 1,
    decreases s.len(),
{
    if t < s.len() - 1 {
        lemma_count_entry_at(s.drop_last(), t, id);
    }
}

/// Two distinct members with the same id make the count at least two.
pub proof fn lemma_count_entry_two(s: Seq<LiquidationEntryV>, t1: int, t2: int, id: Seq<char>)
    requires
        0 <= t1 < t2 < s.len(),
        s[t1].order_id == id,
        s[t2].order_id == id,
    ensures
        count_entry(s, id) >= 2,
    decreases s.len(),
{
    if t2 == s.len() - 1 {
        lemma_count_entry_at(s.drop_last(), t1, id);
    } else {
        lemma_count_entry_two(s.drop_last(), t1, t2, id);
    }
}

/// A list without an id is unchanged by removing it.
pub proof fn lemma_remove_id_absent(s: Seq<Seq<char>>, id: Seq<char>)
    requires
        count_id(s, id) == 0,
    ensures
        remove_id(s, id) == s,
    decreases s.len(),
{
    if s.len() > 0 {
        lemma_remove_id_absent(s.drop_last(), id);
        assert(remove_id(s, id) =~= s);
    }
}

/// A bucket without an order's entry is unchanged by removing it.
pub proof fn lemma_remove_entry_absent(s: Seq<LiquidationEntryV>, id: Seq<char>)
    requires
        count_entry(s, id) == 0,
    ensures
        remove_entry(s, id) == s,
    decreases s.len(),
{
    if s.len() > 0 {
        lemma_remove_entry_absent(s.drop_last(), id);
        assert(remove_entry(s, id) =~= s);
    }
}

/// Removing the order at `i` removes its id from its user's list and leaves
/// every other user's list alone.
pub proof fn lemma_user_ids_remove(os: Seq<OrderV>, i: int, uid: Seq<char>)
    requires
        unique_order_ids(os),
        0 <= i < os.len(),
    ensures
        user_order_ids(os.remove(i), uid) == (
        if os[i].user_id == uid {
            remove_id(user_order_ids(os, uid), os[i].order_id)
        } else {
            user_order_ids(os, uid)
        }),
        unique_order_ids(os.remove(i)),
    decreases os.len(),
{
    let short = os.remove(i);
    assert(unique_order_ids(short)) by {
        assert forall|p: int, q: int| 0 <= p < q < short.len() implies short[p].order_id
            != short[q].order_id by {
            let p0 = if p < i {
                p
            } else {
                p + 1
            };
            let q0 = if q < i {
                q
            } else {
                q + 1
            };
            assert(short[p] == os[p0] && short[q] == os[q0]);
        }
    }
    if i == os.len() - 1 {
        assert(os.remove(i) =~= os.drop_last());
        assert(os.last() == os[i]);
        if os[i].user_id == uid {
            let id = os[i].order_id;
            let pl = user_order_ids(os.drop_last(), uid);
            assert(user_order_ids(os, uid) == pl.push(id));
            assert(pl.push(id).drop_last() =~= pl);
            assert(remove_id(pl.push(id), id) == remove_id(pl, id));
            lemma_user_ids_count(os.drop_last(), uid, os[i].order_id);
            assert forall|j: int| 0 <= j < os.drop_last().len() implies !(os.drop_last()[j].order_id
                == os[i].order_id && os.drop_last()[j].user_id == uid) by {
                assert(os.drop_last()[j] == os[j]);
            }
            lemma_remove_id_absent(user_order_ids(os.drop_last(), uid), os[i].order_id);
        }
    } else {
        lemma_user_ids_remove(os.drop_last(), i, uid);
        assert(os.remove(i).drop_last() =~= os.drop_last().remove(i));
        assert(os.remove(i).last() == os.last());
        assert(os.drop_last()[i] == os[i]);
        let id = os[i].order_id;
        let pl = user_order_ids(os.drop_last(), uid);
        if os.last().user_id == uid {
            assert(user_order_ids(os, uid) == pl.push(os.last().order_id));
            if os[i].user_id == uid {
                assert(os[i].order_id != os[os.len() - 1].order_id);
                assert(pl.push(os.last().order_id).drop_last() =~= pl);
                assert(remove_id(pl.push(os.last().order_id), id) == remove_id(pl, id).push(
                    os.last().order_id,
                ));
            }
        } else {
            assert(user_order_ids(os, uid) == pl);
        }
    }
}

/// Removing the order at `i` removes its entry from its bucket and leaves
/// every other bucket alone.
pub proof fn lemma_bucket_remove(os: Seq<OrderV>, i: int, asset: Seq<char>, key: Seq<char>)
    requires
        unique_order_ids(os),
        0 <= i < os.len(),
    ensures
        liq_bucket(os.remove(i), asset, key) == (
        if os[i].asset == asset && price_key_of(os[i]) == key {
            remove_entry(liq_bucket(os, asset, key), os[i].order_id)
        } else {
            liq_bucket(os, asset, key)
        }),
    decreases os.len(),
{
    if i == os.len() - 1 {
        assert(os.remove(i) =~= os.drop_last());
        assert(os.last() == os[i]);
        if os[i].asset == asset && price_key_of(os[i]) == key {
            let id = os[i].order_id;
            let pl = liq_bucket(os.drop_last(), asset, key);
            assert(liq_bucket(os, asset, key) == pl.push(entry_of(os[i])));
            assert(pl.push(entry_of(os[i])).drop_last() =~= pl);
            assert(remove_entry(pl.push(entry_of(os[i])), id) == remove_entry(pl, id));
            lemma_bucket_count(os.drop_last(), asset, key, os[i].order_id);
            assert forall|j: int| 0 <= j < os.drop_last().len() implies !(os.drop_last()[j].order_id
                == os[i].order_id) by {
                assert(os.drop_last()[j] == os[j]);
            }
            lemma_remove_entry_absent(liq_bucket(os.drop_last(), asset, key), os[i].order_id);
        }
    } else {
        lemma_bucket_remove(os.drop_last(), i, asset, key);
        assert(os.remove(i).drop_last() =~= os.drop_last().remove(i));
        assert(os.remove(i).last() == os.last());
        assert(os.drop_last()[i] == os[i]);
        let id = os[i].order_id;
        let pl = liq_bucket(os.drop_last(), asset, key);
        if os.last().asset == asset && price_key_of(os.last()) == key {
            assert(liq_bucket(os, asset, key) == pl.push(entry_of(os.last())));
            if os[i].asset == asset && price_key_of(os[i]) == key {
                assert(os[i].order_id != os[os.len() - 1].order_id);
                assert(pl.push(entry_of(os.last())).drop_last() =~= pl);
                assert(remove_entry(pl.push(entry_of(os.last())), id) == remove_entry(
                    pl,
                    id,
                ).push(entry_of(os.last())));
            }
        } else {
            assert(liq_bucket(os, asset, key) == pl);
        }
    }
}

} // verus!

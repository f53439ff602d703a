use vstd::prelude::*;

use crate::error::Error;
use crate::draw::{xorshift, DrawView};
use crate::gacha_marketplace::{create_gacha_outcome, gacha_outcome, Delivery};
use crate::state::{
    follows, after_draws, after_init, after_listing, after_purchase, create_gacha_pool_of,
    create_gacha_test, gacha_pool_of, gacha_test, in_gacha, kept, lemma_kept_from, new_listing,
    settle_fits, unowned, AccountKey, MarketItem, MarketView,
};

verus! {

/// A freshly set-up marketplace has an empty, well-formed ledger.
pub proof fn init_makes_ledger_wf(s: MarketView, user: AccountKey, listing_price: u128)
    requires
        !s.initialized,
    ensures
        after_init(s, user, listing_price) matches Ok(v) && v.wf() && v.items.len() == 0,
{
}

/// A marketplace is set up once: setting up the state that a set-up made is refused.
pub proof fn init_is_once(
    s: MarketView,
    user: AccountKey,
    listing_price: u128,
    user2: AccountKey,
    listing_price2: u128,
)
    requires
        after_init(s, user, listing_price) is Ok,
    ensures
        after_init(after_init(s, user, listing_price).unwrap(), user2, listing_price2) == Err::<
            MarketView,
            Error,
        >(Error::StateAlreadyInitialized),
{
}

/// Listing keeps the ledger well-formed: the new item takes the next id, at the position
/// equal to that id, and every earlier listing stays as it was.
pub proof fn listing_keeps_ledger_wf(s: MarketView, price: u128)
    requires
        s.wf(),
        price > 0,
        s.item_ids < u128::MAX,
    ensures
        after_listing(s, price) matches Ok(v) && {
            &&& v.wf()
            &&& v.item_ids == s.item_ids + 1
            &&& v.items[s.item_ids as int] == new_listing(s.item_ids, price)
            &&& forall|i: int| 0 <= i < s.items.len() ==> #[trigger] v.items[i] == s.items[i]
        },
{
}

/// A purchase books one sale and leaves the ledger's listings untouched.
pub proof fn purchase_keeps_ledger(s: MarketView, price: u128, item_id: u128)
    requires
        after_purchase(s, price, item_id) is Ok,
        s.item_sold < u128::MAX,
    ensures
        after_purchase(s, price, item_id) matches Ok(v) && {
            &&& v.items == s.items
            &&& v.item_ids == s.item_ids
            &&& v.item_sold == s.item_sold + 1
            &&& s.wf() ==> v.wf()
        },
{
}

/// Settling a gacha books its sales and leaves the ledger's listings untouched.
pub proof fn draws_keep_ledger(s: MarketView, count: nat)
    requires
        s.item_sold + count <= u128::MAX,
    ensures
        after_draws(s, count).items == s.items,
        after_draws(s, count).item_ids == s.item_ids,
        after_draws(s, count).item_sold == s.item_sold + count,
        s.wf() ==> after_draws(s, count).wf(),
{
}

/// An item that was just listed can be bought at its asking price, and at no other price.
pub proof fn listed_item_sells_at_its_price(s: MarketView, price: u128, other: u128)
    requires
        s.wf(),
        price > 0,
        s.item_ids < u128::MAX,
        s.items.len() < usize::MAX,
        s.item_sold < u128::MAX,
        other != price,
    ensures
        after_listing(s, price) matches Ok(v) && {
            &&& after_purchase(v, price, s.item_ids) == Ok::<MarketView, Error>(
                MarketView { item_sold: (s.item_sold + 1) as u128, ..v },
            )
            &&& after_purchase(v, other, s.item_ids) == Err::<MarketView, Error>(
                Error::InvalidPayment,
            )
        },
{
    let v = after_listing(s, price).unwrap();
    assert(v.items[s.item_ids as int] == new_listing(s.item_ids, price));
}

/// The ids in `kept` of a ledger whose ids are their positions rise strictly and stay
/// below the ledger's length.
proof fn lemma_kept_ids_rise(items: Seq<MarketItem>, keep: spec_fn(MarketItem) -> bool)
    requires
        forall|i: int| 0 <= i < items.len() ==> #[trigger] items[i].item_id == i,
    ensures
        forall|a: int, b: int|
            0 <= a < b < kept(items, keep).len() ==> #[trigger] kept(items, keep)[a].item_id
                < #[trigger] kept(items, keep)[b].item_id,
        forall|a: int|
            0 <= a < kept(items, keep).len() ==> #[trigger] kept(items, keep)[a].item_id
                < items.len(),
    decreases items.len(),
{
    if items.len() > 0 {
        let rest = items.drop_last();
        assert forall|i: int| 0 <= i < rest.len() implies #[trigger] rest[i].item_id == i by {
            assert(rest[i] == items[i]);
        }
        lemma_kept_ids_rise(rest, keep);
        assert(items.last().item_id == items.len() - 1);
    }
}

/// The listed part of a well-formed ledger keeps ids equal to positions.
proof fn lemma_listed_ids(s: MarketView)
    requires
        s.wf(),
    ensures
        s.listed().len() == s.items.len(),
        forall|i: int| 0 <= i < s.listed().len() ==> #[trigger] s.listed()[i].item_id == i,
{
    assert(s.listed() =~= s.items);
}

/// Every item in the pool of a gacha for `price` is a listed item that nobody owns and
/// that asks `price`; every item in the pool of a creator's gacha is a listed item that
/// nobody owns.
pub proof fn pools_hold_eligible_items(s: MarketView, price: u128)
    ensures
        forall|k: int|
            0 <= k < gacha_pool_of(s, price).len() ==> in_gacha(
                #[trigger] gacha_pool_of(s, price)[k],
                price,
            ) && s.listed().contains(gacha_pool_of(s, price)[k]),
        forall|k: int|
            0 <= k < create_gacha_pool_of(s).len() ==> unowned(
                #[trigger] create_gacha_pool_of(s)[k],
            ) && s.listed().contains(create_gacha_pool_of(s)[k]),
{
    lemma_kept_from(s.listed(), gacha_test(price));
    lemma_kept_from(s.listed(), create_gacha_test());
}

/// The pool positions of a draw, distinct and inside the pool, name distinct listings of a
/// well-formed ledger, each of which the ledger holds at the position of its id: a gacha
/// never hands over the same item twice, and every drawn item can be looked up. This holds
/// of every pool that a test `keep` picks out of the listed items, such as
/// `gacha_test(price)` and `create_gacha_test()`.
pub proof fn drawn_items_are_distinct(
    s: MarketView,
    keep: spec_fn(MarketItem) -> bool,
    picks: Seq<u64>,
)
    requires
        s.wf(),
        picks.no_duplicates(),
        forall|k: int| 0 <= k < picks.len() ==> #[trigger] picks[k] < kept(s.listed(), keep).len(),
    ensures
        forall|a: int, b: int|
            0 <= a < b < picks.len() ==> #[trigger] kept(s.listed(), keep)[picks[a] as int].item_id
                != #[trigger] kept(s.listed(), keep)[picks[b] as int].item_id,
        forall|k: int|
            0 <= k < picks.len() ==> #[trigger] kept(s.listed(), keep)[picks[k] as int].item_id
                < s.items.len() && s.items[kept(s.listed(), keep)[picks[k] as int].item_id as int]
                == kept(s.listed(), keep)[picks[k] as int],
{
    let pool = kept(s.listed(), keep);
    lemma_listed_ids(s);
    lemma_kept_ids_rise(s.listed(), keep);
    lemma_kept_from(s.listed(), keep);
    assert forall|a: int, b: int|
        0 <= a < b < picks.len() implies #[trigger] pool[picks[a] as int].item_id
            != #[trigger] pool[picks[b] as int].item_id by {
        let pa = picks[a] as int;
        let pb = picks[b] as int;
        assert(picks[a] != picks[b]);
        if pa < pb {
            assert(pool[pa].item_id < pool[pb].item_id);
        } else {
            assert(pool[pb].item_id < pool[pa].item_id);
        }
    }
    assert forall|k: int| 0 <= k < picks.len() implies #[trigger] pool[picks[k] as int].item_id
        < s.items.len() && s.items[pool[picks[k] as int].item_id as int] == pool[picks[k]
        as int] by {
        let p = picks[k] as int;
        assert(pool[p].item_id < s.listed().len());
        assert(s.listed().contains(pool[p]));
        let w = choose|w: int| 0 <= w < s.listed().len() && s.listed()[w] == pool[p];
        assert(s.listed()[w].item_id == w);
    }
}

/// Draws of a gacha over a pool that a test `keep` picks out of a well-formed ledger can
/// always be settled: each drawn item is found in the ledger, provided the sale counter has
/// room for them.
pub proof fn drawn_items_settle(s: MarketView, keep: spec_fn(MarketItem) -> bool, picks: Seq<u64>)
    requires
        s.wf(),
        s.items.len() <= usize::MAX,
        picks.no_duplicates(),
        forall|k: int| 0 <= k < picks.len() ==> #[trigger] picks[k] < kept(s.listed(), keep).len(),
        s.item_sold + picks.len() <= u128::MAX,
    ensures
        settle_fits(s, kept(s.listed(), keep), picks),
{
    let pool = kept(s.listed(), keep);
    drawn_items_are_distinct(s, keep, picks);
    assert forall|k: int| 0 <= k < picks.len() implies #[trigger] picks[k] < pool.len() && ((
    pool[picks[k] as int].item_id as usize) as int) < s.items.len() by {
        assert(pool[picks[k] as int].item_id < s.items.len());
    }
}

/// The ledger positions that `kept` picks out of `items`, in order.
proof fn lemma_kept_positions(items: Seq<MarketItem>, keep: spec_fn(MarketItem) -> bool) -> (ix:
    Seq<int>)
    ensures
        ix.len() == kept(items, keep).len(),
        forall|k: int|
            0 <= k < ix.len() ==> 0 <= #[trigger] ix[k] < items.len() && kept(items, keep)[k]
                == items[ix[k]],
        forall|a: int, b: int| 0 <= a < b < ix.len() ==> #[trigger] ix[a] < #[trigger] ix[b],
        forall|i: int| 0 <= i < items.len() ==> (keep(#[trigger] items[i]) <==> ix.contains(i)),
    decreases items.len(),
{
    if items.len() == 0 {
        Seq::empty()
    } else {
        let rest = items.drop_last();
        let r = lemma_kept_positions(rest, keep);
        let n = items.len() - 1;
        assert forall|i: int| 0 <= i < rest.len() implies #[trigger] rest[i] == items[i] by {}
        if keep(items.last()) {
            let ix = r.push(n);
            assert forall|i: int| 0 <= i < items.len() implies (keep(#[trigger] items[i])
                <==> exists|k: int| 0 <= k < ix.len() && ix[k] == i) by {
                if i < n {
                    assert(rest[i] == items[i]);
                    if keep(items[i]) {
                        let k = choose|k: int| 0 <= k < r.len() && r[k] == i;
                        assert(ix[k] == i);
                    }
                    if exists|k: int| 0 <= k < ix.len() && ix[k] == i {
                        let k = choose|k: int| 0 <= k < ix.len() && ix[k] == i;
                        assert(k < r.len());
                        assert(r[k] == i);
                    }
                } else {
                    assert(ix[ix.len() - 1] == i);
                }
            }
            ix
        } else {
            assert forall|i: int| 0 <= i < items.len() implies (keep(#[trigger] items[i])
                <==> exists|k: int| 0 <= k < r.len() && r[k] == i) by {
                if i < n {
                    assert(rest[i] == items[i]);
                } else {
                    if exists|k: int| 0 <= k < r.len() && r[k] == i {
                        let k = choose|k: int| 0 <= k < r.len() && r[k] == i;
                        assert(r[k] < rest.len());
                    }
                }
            }
            r
        }
    }
}

/// `pool` is the listings at the ledger positions `ix`, which rise strictly and stay among
/// the first `item_ids`.
pub open spec fn placed_at(pool: Seq<MarketItem>, s: MarketView, ix: Seq<int>) -> bool {
    &&& ix.len() == pool.len()
    &&& forall|k: int|
        0 <= k < ix.len() ==> 0 <= #[trigger] ix[k] < s.item_ids && pool[k] == s.items[ix[k]]
    &&& forall|a: int, b: int| 0 <= a < b < ix.len() ==> #[trigger] ix[a] < #[trigger] ix[b]
}

/// The pool of a gacha for `price` is exactly the listings among the first `item_ids` that
/// nobody owns and that ask `price`, each once, in ledger order: whatever the sale counter,
/// the other listings or their ids, none of those is left out and no other comes in.
pub proof fn gacha_pool_is_every_eligible_listing(s: MarketView, price: u128)
    requires
        s.item_ids <= s.items.len(),
    ensures
        exists|ix: Seq<int>|
            #[trigger] placed_at(gacha_pool_of(s, price), s, ix) && forall|i: int|
                0 <= i < s.item_ids ==> ((#[trigger] s.items[i]).owner is None && s.items[i].price
                    == price <==> ix.contains(i)),
{
    let listed = s.listed();
    let ix = lemma_kept_positions(listed, gacha_test(price));
    assert forall|i: int| 0 <= i < s.item_ids implies ((#[trigger] s.items[i]).owner is None
        && s.items[i].price == price <==> ix.contains(i)) by {
        assert(listed[i] == s.items[i]);
    }
    assert forall|k: int| 0 <= k < ix.len() implies 0 <= #[trigger] ix[k] < s.item_ids
        && gacha_pool_of(s, price)[k] == s.items[ix[k]] by {
        assert(listed[ix[k]] == s.items[ix[k]]);
    }
    assert(placed_at(gacha_pool_of(s, price), s, ix));
}

/// The pool of a creator's gacha is exactly the listings among the first `item_ids` that
/// nobody owns, each once, in ledger order, whatever their price: none of those is left out
/// and no other comes in.
pub proof fn create_gacha_pool_is_every_unowned_listing(s: MarketView)
    requires
        s.item_ids <= s.items.len(),
    ensures
        exists|ix: Seq<int>|
            #[trigger] placed_at(create_gacha_pool_of(s), s, ix) && forall|i: int|
                0 <= i < s.item_ids ==> ((#[trigger] s.items[i]).owner is None <==> ix.contains(i)),
{
    let listed = s.listed();
    let ix = lemma_kept_positions(listed, create_gacha_test());
    assert forall|i: int| 0 <= i < s.item_ids implies ((#[trigger] s.items[i]).owner is None
        <==> ix.contains(i)) by {
        assert(listed[i] == s.items[i]);
    }
    assert forall|k: int| 0 <= k < ix.len() implies 0 <= #[trigger] ix[k] < s.item_ids
        && create_gacha_pool_of(s)[k] == s.items[ix[k]] by {
        assert(listed[ix[k]] == s.items[ix[k]]);
    }
    assert(placed_at(create_gacha_pool_of(s), s, ix));
}

/// A round's seed is the 64-bit xorshift with truncating shifts: with
/// `a = s ^ (s >> 12)` and `b = a ^ ((a * 2^25) mod 2^64)`, it is `b ^ (b >> 27)`.
pub proof fn round_seed_is_truncating_xorshift(s: u64)
    ensures
        ({
            let a = s ^ (s >> 12u64);
            let b = a ^ (((a as int * 33554432) % 18446744073709551616) as u64);
            xorshift(s) == b ^ (b >> 27u64)
        }),
{
    let a = s ^ (s >> 12u64);
    let low = a % 549755813888;
    assert(a << 25u64 == low * 33554432) by (bit_vector)
        requires
            low == a % 549755813888,
    ;
    assert((a as int * 33554432) % 18446744073709551616 == low * 33554432) by (nonlinear_arith)
        requires
            low == a % 549755813888,
            0 <= a,
    {
        assert(a == (a / 549755813888) * 549755813888 + low);
        assert(a as int * 33554432 == (a / 549755813888) * 18446744073709551616 + low
            * 33554432);
        assert(low * 33554432 < 18446744073709551616);
    }
}

/// Every state that is set up already is refused with `StateAlreadyInitialized`, whatever its
/// ledger, counters, owner or listing price, and every state that is not is set up afresh
/// for `user` at `listing_price`.
pub proof fn init_refuses_exactly_initialized_states(
    s: MarketView,
    user: AccountKey,
    listing_price: u128,
)
    ensures
        s.initialized ==> after_init(s, user, listing_price) == Err::<MarketView, Error>(
            Error::StateAlreadyInitialized,
        ),
        !s.initialized ==> (after_init(s, user, listing_price) matches Ok(v) && v.items.len()
            == 0 && v.item_ids == 0 && v.item_sold == 0 && v.owner == user && v.listing_price
            == listing_price && v.initialized),
{
}

/// A purchase of any listing `i` at its asking price succeeds, books one sale and changes
/// nothing else; at any other price it is refused with `InvalidPayment`.
pub proof fn purchase_of_any_listing(s: MarketView, i: u128, price: u128)
    requires
        i < s.items.len(),
        s.items.len() <= usize::MAX,
    ensures
        price == s.items[i as int].price ==> after_purchase(s, price, i) == Ok::<
            MarketView,
            Error,
        >(MarketView { item_sold: (s.item_sold + 1) as u128, ..s }),
        price != s.items[i as int].price ==> after_purchase(s, price, i) == Err::<
            MarketView,
            Error,
        >(Error::InvalidPayment),
{
    assert((i as usize) as int == i as int);
}

/// Listing at any positive price appends one fresh listing (the next id, that price, no
/// owner, not sold, not from a gacha) and moves only the id counter; listing at price zero is
/// refused with `InvalidPrice`, for every state.
pub proof fn listing_appends_one_fresh_item(s: MarketView, price: u128)
    requires
        price > 0 ==> s.item_ids < u128::MAX,
    ensures
        price == 0 ==> after_listing(s, price) == Err::<MarketView, Error>(Error::InvalidPrice),
        price > 0 ==> (after_listing(s, price) matches Ok(v) && {
            &&& v.items.len() == s.items.len() + 1
            &&& forall|i: int| 0 <= i < s.items.len() ==> #[trigger] v.items[i] == s.items[i]
            &&& v.items[s.items.len() as int].item_id == s.item_ids
            &&& v.items[s.items.len() as int].price == price
            &&& v.items[s.items.len() as int].owner is None
            &&& !v.items[s.items.len() as int].sold
            &&& !v.items[s.items.len() as int].gacha
            &&& v.item_ids == s.item_ids + 1
            &&& v.item_sold == s.item_sold
            &&& v.owner == s.owner
            &&& v.listing_price == s.listing_price
            &&& v.initialized == s.initialized
        }),
{
}

/// An instruction that reports a refusal leaves the state as it was and returns that
/// refusal; one that succeeds returns `Ok` and leaves exactly the new state.
pub proof fn refusals_keep_the_state(
    r: Result<(), Error>,
    before: MarketView,
    after: MarketView,
    expected: Result<MarketView, Error>,
)
    requires
        follows(r, before, after, expected),
    ensures
        expected matches Err(e) ==> r == Err::<(), Error>(e) && after == before,
        expected matches Ok(v) ==> r is Ok && after == v,
{
}

/// A gacha refuses an empty pool with `ItemsUnavailableForGacha`, then a `qty` above the
/// pool with `InvalidQuantity`; otherwise it delivers, for each drawn position in order, the
/// listing at that position of the pool, charges exactly `fee`, and books one sale per draw,
/// changing nothing else.
pub proof fn gacha_outcome_law(s: MarketView, qty: u8, price: u128, fee: u128, picks: Seq<u64>)
    requires
        fee <= u64::MAX,
        s.item_sold + picks.len() <= u128::MAX,
    ensures
        gacha_pool_of(s, price).len() == 0 ==> gacha_outcome(s, qty, price, fee, picks) == Err::<
            (Seq<Delivery>, u64, MarketView),
            Error,
        >(Error::ItemsUnavailableForGacha),
        gacha_pool_of(s, price).len() > 0 && qty > gacha_pool_of(s, price).len() ==> gacha_outcome(
            s,
            qty,
            price,
            fee,
            picks,
        ) == Err::<(Seq<Delivery>, u64, MarketView), Error>(Error::InvalidQuantity),
        gacha_pool_of(s, price).len() > 0 && qty <= gacha_pool_of(s, price).len() ==> (gacha_outcome(
            s,
            qty,
            price,
            fee,
            picks,
        ) matches Ok((d, f, v)) && {
            &&& d.len() == picks.len()
            &&& forall|k: int|
                0 <= k < picks.len() ==> (#[trigger] d[k]).item_id == gacha_pool_of(s, price)[picks[k] as int].item_id
                    && d[k].slot == picks[k]
            &&& f == fee
            &&& v.item_sold == s.item_sold + picks.len()
            &&& v.items == s.items
            &&& v.item_ids == s.item_ids
            &&& v.owner == s.owner
            &&& v.listing_price == s.listing_price
            &&& v.initialized == s.initialized
        }),
{
}

/// A creator's gacha refuses an empty pool with `ItemsUnavailableForGacha`, then a `qty`
/// above the pool with `InvalidQuantity`; otherwise it delivers, for each drawn position in
/// order, the listing at that position of the pool, returns those listings' ids in the same
/// order, asks the listing price per item when anything is drawn (nothing otherwise), and
/// books one sale per draw, changing nothing else.
pub proof fn create_gacha_outcome_law(s: MarketView, qty: u8, picks: Seq<u64>)
    requires
        picks.len() > 0 ==> s.listing_price <= u64::MAX,
        s.item_sold + picks.len() <= u128::MAX,
    ensures
        create_gacha_pool_of(s).len() == 0 ==> create_gacha_outcome(s, qty, picks) == Err::<
            (Seq<Delivery>, Seq<u128>, Option<u64>, MarketView),
            Error,
        >(Error::ItemsUnavailableForGacha),
        create_gacha_pool_of(s).len() > 0 && qty > create_gacha_pool_of(s).len() ==> create_gacha_outcome(
            s,
            qty,
            picks,
        ) == Err::<(Seq<Delivery>, Seq<u128>, Option<u64>, MarketView), Error>(
            Error::InvalidQuantity,
        ),
        create_gacha_pool_of(s).len() > 0 && qty <= create_gacha_pool_of(s).len() ==> (
        create_gacha_outcome(s, qty, picks) matches Ok((d, ids, p, v)) && {
            &&& d.len() == picks.len()
            &&& ids.len() == picks.len()
            &&& forall|k: int|
                0 <= k < picks.len() ==> (#[trigger] d[k]).item_id == create_gacha_pool_of(s)[picks[k] as int].item_id
                    && d[k].slot == picks[k] && ids[k] == d[k].item_id
            &&& picks.len() == 0 ==> p is None
            &&& picks.len() > 0 ==> p == Some(s.listing_price as u64)
            &&& v.item_sold == s.item_sold + picks.len()
            &&& v.items == s.items
            &&& v.item_ids == s.item_ids
            &&& v.owner == s.owner
            &&& v.listing_price == s.listing_price
            &&& v.initialized == s.initialized
        }),
{
}

/// Offering the scaled draw `scaled` lands on pool position `scaled % range`: a position not
/// drawn before is appended to the picks with the seed kept; a repeated one keeps the picks
/// and moves the seed on by 16454654645667. The pool size and the number of rounds stay.
pub proof fn offer_lands_on_scaled_mod_range(v: DrawView, scaled: u64)
    requires
        v.range > 0,
        v.seed + 16454654645667 <= u64::MAX || !v.picks.contains(scaled % v.range),
    ensures
        v.picks.contains(scaled % v.range) ==> v.after_offer(scaled) == (DrawView {
            seed: (v.seed + 16454654645667) as u64,
            ..v
        }),
        !v.picks.contains(scaled % v.range) ==> v.after_offer(scaled) == (DrawView {
            picks: v.picks.push(scaled % v.range),
            ..v
        }),
        v.repeats(scaled) == v.picks.contains(scaled % v.range),
        v.after_round() == (DrawView { seed: xorshift(v.seed), ..v }),
{
}

} // verus!

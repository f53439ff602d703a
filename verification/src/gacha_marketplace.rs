use vstd::prelude::*;

use crate::error::Error;
use crate::state::{
    after_draws, after_init, after_listing, after_purchase, create_gacha_pool_of,
    create_gacha_test, follows, gacha_pool_of, gacha_positions_fit, gacha_test, in_gacha, kept,
    eligible_first, lemma_kept_all, lemma_kept_from, pool_result, purchase_index, settle_fits, AccountKey,
    MarketItem, MarketView, State,
};

verus! {

/// The number of tokens of an item's mint that changes hands when the item does.
pub const TOKENS_PER_ITEM: u64 = 1;

/// One item that a gacha hands over: the listing's id and the pool position it was drawn
/// at. The position names the three accounts of that item among the instruction's extra
/// accounts: the mint, the account it leaves, and the account it goes to.
#[derive(Debug, Clone, Copy, PartialEq, Eq)]
pub struct Delivery {
    pub item_id: u128,
    pub slot: u64,
}

/// No two deliveries hand over the same listing.
pub open spec fn delivered_distinct(deliveries: Seq<Delivery>) -> bool {
    forall|a: int, b: int|
        0 <= a < b < deliveries.len() ==> #[trigger] deliveries[a].item_id
            != #[trigger] deliveries[b].item_id
}

/// The delivery of the item drawn at pool position `slot`.
pub open spec fn delivery_of(pool: Seq<MarketItem>, slot: u64) -> Delivery {
    Delivery { item_id: pool[slot as int].item_id, slot }
}

impl Delivery {
    /// The position of the item's mint among the extra accounts.
    pub fn mint_account(&self) -> (r: usize)
        requires
            self.slot * 3 + 2 <= usize::MAX,
        ensures
            r == self.slot * 3,
    {
        (self.slot as usize) * 3
    }

    /// The position of the account that the item leaves.
    pub fn source_account(&self) -> (r: usize)
        requires
            self.slot * 3 + 2 <= usize::MAX,
        ensures
            r == self.slot * 3 + 1,
    {
        (self.slot as usize) * 3 + 1
    }

    /// The position of the account that the item goes to.
    pub fn destination_account(&self) -> (r: usize)
        requires
            self.slot * 3 + 2 <= usize::MAX,
        ensures
            r == self.slot * 3 + 2,
    {
        (self.slot as usize) * 3 + 2
    }
}

/// Sets up a fresh marketplace owned by `user`, with `listing_price` as the price of each
/// item of a creator's gacha. A state that is set up already is refused and kept.
pub fn init_state(state: &mut State, user: AccountKey, listing_price: u128) -> (r: Result<
    (),
    Error,
>)
    ensures
        follows(r, old(state)@, final(state)@, after_init(old(state)@, user, listing_price)),
{
    if state.initialized == true {
        return Err(Error::StateAlreadyInitialized);
    }
    let empty_map: Vec<MarketItem> = Vec::new();
    state.map = empty_map;
    state.item_ids = 0;
    state.item_sold = 0;
    state.owner = user;
    state.initialized = true;
    state.listing_price = listing_price;
    assert(final(state)@.items =~= Seq::<MarketItem>::empty());
    Ok(())
}

/// Lists a new item at `price` under the next free id. A price of zero is refused.
pub fn create_market_item(state: &mut State, price: u128) -> (r: Result<(), Error>)
    requires
        price > 0 ==> old(state).item_ids < u128::MAX,
    ensures
        follows(r, old(state)@, final(state)@, after_listing(old(state)@, price)),
{
    if !(price > 0) {
        return Err(Error::InvalidPrice);
    }
    let item = MarketItem {
        item_id: state.item_ids,
        owner: None,
        price: price,
        sold: false,
        gacha: false,
    };
    state.item_ids += 1;
    state.map.push(item);
    Ok(())
}

/// Checks a purchase of the listing at `item_id` for `price` and books the sale. On success
/// it returns the lamports that the buyer pays the seller; the listing itself stays as it was.
pub fn purchase_sale(state: &mut State, price: u128, item_id: u128) -> (r: Result<u64, Error>)
    requires
        purchase_index(item_id) < old(state).map.len(),
        price == old(state).map@[purchase_index(item_id)].price ==> {
            &&& price <= u64::MAX
            &&& old(state).item_sold < u128::MAX
        },
    ensures
        match after_purchase(old(state)@, price, item_id) {
            Ok(v) => r == Ok::<u64, Error>(price as u64) && final(state)@ == v,
            Err(e) => r == Err::<u64, Error>(e) && final(state)@ == old(state)@,
        },
{
    let item = state.map[item_id as usize];
    if !(price == item.price) {
        return Err(Error::InvalidPayment);
    }
    let lamports = price as u64;
    state.item_sold += 1;
    Ok(lamports)
}

/// Tells whether the collection of a gacha for `price` stays within bounds (see
/// [`gacha_positions_fit`]).
pub fn gacha_collects_in_bounds(state: &State, price: u128) -> (r: bool)
    requires
        state.item_ids <= state.map.len(),
    ensures
        r == gacha_positions_fit(state@, price),
{
    let mut gap = false;
    let mut i: u128 = 0;
    while i < state.item_ids
        invariant
            i <= state.item_ids,
            state.item_ids <= state.map.len(),
            gap == exists|j: int| 0 <= j < i && !in_gacha(#[trigger] state@.items[j], price),
            eligible_first(state@, price, i as int),
        decreases state.item_ids - i,
    {
        let item = state.map[i as usize];
        let eligible = item.owner.is_none() && item.price == price;
        if eligible && gap {
            proof {
                let j = choose|j: int| 0 <= j < i && !in_gacha(#[trigger] state@.items[j], price);
                assert(in_gacha(state@.items[i as int], price));
                assert(!gacha_positions_fit(state@, price));
            }
            return false;
        }
        if !eligible {
            gap = true;
            proof {
                assert(!in_gacha(state@.items[i as int], price));
            }
        }
        proof {
            if eligible {
                assert(in_gacha(state@.items[i as int], price));
            }
            assert forall|j: int, k: int|
                0 <= j < k < i + 1 && #[trigger] in_gacha(state@.items[k], price) implies #[trigger] in_gacha(
                state@.items[j],
                price,
            ) by {
                if k == i {
                    assert(in_gacha(state@.items[j], price));
                }
            }
        }
        i = i + 1;
    }
    true
}

/// Tells whether settling the draws `picks` of `pool` stays within bounds (see
/// [`settle_fits`]).
pub fn settle_in_bounds(state: &State, pool: &Vec<MarketItem>, picks: &Vec<u64>) -> (r: bool)
    ensures
        r == settle_fits(state@, pool@, picks@),
{
    let mut k: usize = 0;
    while k < picks.len()
        invariant
            k <= picks.len(),
            forall|j: int|
                0 <= j < k ==> #[trigger] picks@[j] < pool.len() && ((pool@[picks@[j] as int].item_id
                    as usize) as int) < state.map.len(),
        decreases picks.len() - k,
    {
        let slot = picks[k];
        if !((slot as u128) < (pool.len() as u128)) {
            return false;
        }
        if !((pool[slot as usize].item_id as usize) < state.map.len()) {
            return false;
        }
        k = k + 1;
    }
    (picks.len() as u128) <= u128::MAX - state.item_sold
}

/// Tells whether no pool position is drawn twice in `picks`.
pub fn picks_distinct(picks: &Vec<u64>) -> (r: bool)
    ensures
        r == picks@.no_duplicates(),
{
    let mut b: usize = 0;
    while b < picks.len()
        invariant
            b <= picks.len(),
            forall|x: int, y: int| 0 <= x < y < b ==> picks@[x] != picks@[y],
        decreases picks.len() - b,
    {
        let mut a: usize = 0;
        while a < b
            invariant
                a <= b < picks.len(),
                forall|x: int| 0 <= x < a ==> picks@[x] != picks@[b as int],
            decreases b - a,
        {
            if picks[a] == picks[b] {
                return false;
            }
            a = a + 1;
        }
        b = b + 1;
    }
    true
}

/// Collects the pool of a gacha for `price`: the unowned listings at that price, in ledger
/// order. It refuses an empty pool, then a `qty` larger than the pool.
pub fn gacha_pool(state: &State, qty: u8, price: u128) -> (r: Result<Vec<MarketItem>, Error>)
    requires
        state.item_sold <= state.item_ids,
        state.item_ids <= state.map.len(),
        gacha_positions_fit(state@, price),
    ensures
        match pool_result(gacha_pool_of(state@, price), qty) {
            Ok(p) => r matches Ok(v) && v@ == p,
            Err(e) => r == Err::<Vec<MarketItem>, Error>(e),
        },
{
    let item_count = state.item_ids;
    let item_sold = state.item_sold;
    let _unsold_item_count = item_count - item_sold;
    let ghost keep = gacha_test(price);
    let mut items: Vec<MarketItem> = Vec::new();
    let mut i: u128 = 0;
    while i < item_count
        invariant
            i <= item_count,
            item_count == state.item_ids,
            item_count <= state.map.len(),
            gacha_positions_fit(state@, price),
            keep == gacha_test(price),
            items@ == kept(state.map@.take(i as int), keep),
        decreases item_count - i,
    {
        let item = state.map[i as usize];
        let ghost before = state.map@.take(i as int);
        proof {
            let t = state.map@.take(i as int + 1);
            assert(t.drop_last() =~= before);
            assert(t.last() == item);
        }
        if item.owner.is_none() && item.price == price {
            proof {
                assert forall|j: int| 0 <= j < before.len() implies keep(#[trigger] before[j]) by {
                    assert(in_gacha(state@.items[i as int], price));
                    assert(in_gacha(state@.items[j], price));
                }
                lemma_kept_all(before, keep);
            }
            items.insert(i as usize, item);
            proof {
                assert(before.insert(i as int, item) =~= before.push(item));
            }
        }
        i = i + 1;
    }
    proof {
        assert(state.map@.take(item_count as int) == state@.listed());
    }
    if !(items.len() > 0) {
        return Err(Error::ItemsUnavailableForGacha);
    }
    if !((qty as usize) <= items.len()) {
        return Err(Error::InvalidQuantity);
    }
    Ok(items)
}

/// Collects the pool of a creator's gacha: the unowned listings, in ledger order. It refuses
/// an empty pool, then a `qty` larger than the pool.
pub fn create_gacha_pool(state: &State, qty: u8) -> (r: Result<Vec<MarketItem>, Error>)
    requires
        state.item_ids <= state.map.len(),
    ensures
        match pool_result(create_gacha_pool_of(state@), qty) {
            Ok(p) => r matches Ok(v) && v@ == p,
            Err(e) => r == Err::<Vec<MarketItem>, Error>(e),
        },
{
    let item_count = state.item_ids;
    let mut current_index: usize = 0;
    let ghost keep = create_gacha_test();
    let mut items: Vec<MarketItem> = Vec::new();
    let mut i: u128 = 0;
    while i < item_count
        invariant
            i <= item_count,
            item_count == state.item_ids,
            item_count <= state.map.len(),
            keep == create_gacha_test(),
            current_index == items.len(),
            items@ == kept(state.map@.take(i as int), keep),
        decreases item_count - i,
    {
        let item = state.map[i as usize];
        let ghost before = state.map@.take(i as int);
        proof {
            let t = state.map@.take(i as int + 1);
            assert(t.drop_last() =~= before);
            assert(t.last() == item);
            lemma_kept_from(before, keep);
        }
        if item.owner.is_none() {
            items.insert(current_index, item);
            current_index += 1;
            proof {
                assert(items@ =~= kept(before, keep).push(item));
            }
        }
        i = i + 1;
    }
    proof {
        assert(state.map@.take(item_count as int) == state@.listed());
    }
    if !(items.len() > 0) {
        return Err(Error::ItemsUnavailableForGacha);
    }
    if !((qty as usize) <= items.len()) {
        return Err(Error::InvalidQuantity);
    }
    Ok(items)
}

/// The settlement of a gacha: hands over the items drawn at the pool positions `picks`, in
/// draw order, and books each as sold. Returns the deliveries and the fee in lamports that the buyer pays the seller.
/// The ledger's listings are read, not rewritten.
fn settle_gacha(state: &mut State, pool: &Vec<MarketItem>, picks: &Vec<u64>, fee: u128) -> (r: (
    Vec<Delivery>,
    u64,
))
    requires
        settle_fits(old(state)@, pool@, picks@),
        fee <= u64::MAX,
    ensures
        r.0@.len() == picks.len(),
        forall|k: int| 0 <= k < picks.len() ==> #[trigger] r.0@[k] == delivery_of(pool@, picks@[k]),
        r.1 == fee,
        final(state)@ == after_draws(old(state)@, picks.len() as nat),
{
    let deliveries = settle(state, pool, picks);
    (deliveries, fee as u64)
}

/// The settlement of a creator's gacha: hands over the items drawn at the pool positions
/// `picks`, in draw order, and books each as sold. Returns the deliveries, the ids of the
/// items drawn, and the lamports that the buyer pays the owner for each item (none when
/// nothing is drawn). The ledger's listings are read, not rewritten.
fn settle_create_gacha(state: &mut State, pool: &Vec<MarketItem>, picks: &Vec<u64>) -> (r: (
    Vec<Delivery>,
    Vec<u128>,
    Option<u64>,
))
    requires
        settle_fits(old(state)@, pool@, picks@),
        picks.len() > 0 ==> old(state).listing_price <= u64::MAX,
    ensures
        r.0@.len() == picks.len(),
        forall|k: int| 0 <= k < picks.len() ==> #[trigger] r.0@[k] == delivery_of(pool@, picks@[k]),
        r.1@.len() == picks.len(),
        forall|k: int| 0 <= k < picks.len() ==> #[trigger] r.1@[k] == pool@[picks@[k] as int].item_id,
        r.2 == (if picks.len() == 0 {
            None
        } else {
            Some(old(state).listing_price as u64)
        }),
        final(state)@ == after_draws(old(state)@, picks.len() as nat),
{
    let mut gacha_items_ids: Vec<u128> = Vec::new();
    let mut k: usize = 0;
    while k < picks.len()
        invariant
            k <= picks.len(),
            forall|j: int| 0 <= j < picks.len() ==> #[trigger] picks@[j] < pool.len(),
            gacha_items_ids@.len() == k,
            forall|j: int| 0 <= j < k ==> #[trigger] gacha_items_ids@[j] == pool@[picks@[j] as int].item_id,
        decreases picks.len() - k,
    {
        gacha_items_ids.push(pool[picks[k] as usize].item_id);
        k = k + 1;
    }
    let price = if picks.len() == 0 {
        None
    } else {
        Some(state.listing_price as u64)
    };
    let deliveries = settle(state, pool, picks);
    (deliveries, gacha_items_ids, price)
}

/// What a gacha of `qty` items at `price` with `fee` decides, given the pool positions drawn:
/// the refusal of its pool step, or one delivery per drawn position, the fee in lamports, and
/// the state with one sale booked per delivery.
pub open spec fn gacha_outcome(
    s: MarketView,
    qty: u8,
    price: u128,
    fee: u128,
    picks: Seq<u64>,
) -> Result<(Seq<Delivery>, u64, MarketView), Error> {
    match pool_result(gacha_pool_of(s, price), qty) {
        Err(e) => Err(e),
        Ok(pool) => Ok(
            (
                Seq::new(picks.len(), |k: int| delivery_of(pool, picks[k])),
                fee as u64,
                after_draws(s, picks.len()),
            ),
        ),
    }
}

/// What a creator's gacha of `qty` items decides, given the pool positions drawn: the refusal
/// of its pool step, or one delivery per drawn position, the ids of the items drawn, the
/// lamports paid to the owner per item (none when nothing is drawn), and the state with one
/// sale booked per delivery.
pub open spec fn create_gacha_outcome(s: MarketView, qty: u8, picks: Seq<u64>) -> Result<
    (Seq<Delivery>, Seq<u128>, Option<u64>, MarketView),
    Error,
> {
    match pool_result(create_gacha_pool_of(s), qty) {
        Err(e) => Err(e),
        Ok(pool) => Ok(
            (
                Seq::new(picks.len(), |k: int| delivery_of(pool, picks[k])),
                Seq::new(picks.len(), |k: int| pool[picks[k] as int].item_id),
                if picks.len() == 0 {
                    None
                } else {
                    Some(s.listing_price as u64)
                },
                after_draws(s, picks.len()),
            ),
        ),
    }
}

/// A gacha of `qty` items at `price`: refuses as its pool step does, leaving the state as it
/// was; otherwise hands over the items drawn at the pool positions `picks` (one per round),
/// books each as sold, and returns the deliveries and the fee in lamports that the buyer
/// pays the seller. The ledger's listings are read, not rewritten.
pub fn gacha(state: &mut State, qty: u8, price: u128, fee: u128, picks: &Vec<u64>) -> (r: Result<
    (Vec<Delivery>, u64),
    Error,
>)
    requires
        old(state).item_sold <= old(state).item_ids,
        old(state).item_ids <= old(state).map.len(),
        gacha_positions_fit(old(state)@, price),
        pool_result(gacha_pool_of(old(state)@, price), qty) is Ok ==> {
            &&& picks.len() == qty
            &&& picks@.no_duplicates()
            &&& settle_fits(old(state)@, gacha_pool_of(old(state)@, price), picks@)
            &&& fee <= u64::MAX
        },
    ensures
        old(state)@.wf() ==> (r matches Ok((dv, _)) ==> delivered_distinct(dv@)),
        match gacha_outcome(old(state)@, qty, price, fee, picks@) {
            Ok((d, f, v)) => r matches Ok((dv, fv)) && dv@ == d && fv == f && final(state)@ == v,
            Err(e) => r == Err::<(Vec<Delivery>, u64), Error>(e) && final(state)@ == old(state)@,
        },
{
    let items = match gacha_pool(state, qty, price) {
        Ok(items) => items,
        Err(e) => return Err(e),
    };
    let ghost before = state@;
    let (deliveries, fee_lamports) = settle_gacha(state, &items, picks, fee);
    proof {
        if before.wf() {
            crate::laws::drawn_items_are_distinct(before, gacha_test(price), picks@);
        }
        assert(deliveries@ =~= Seq::new(picks@.len(), |k: int| delivery_of(items@, picks@[k])));
    }
    Ok((deliveries, fee_lamports))
}

/// A creator's gacha of `qty` items: refuses as its pool step does, leaving the state as it
/// was; otherwise hands over the items drawn at the pool positions `picks` (one per round),
/// books each as sold, and returns the deliveries, the ids of the items drawn, and the
/// lamports that the buyer pays the owner for each item (none when nothing is drawn). The
/// ledger's listings are read, not rewritten.
pub fn create_gacha(state: &mut State, qty: u8, picks: &Vec<u64>) -> (r: Result<
    (Vec<Delivery>, Vec<u128>, Option<u64>),
    Error,
>)
    requires
        old(state).item_ids <= old(state).map.len(),
        pool_result(create_gacha_pool_of(old(state)@), qty) is Ok ==> {
            &&& picks.len() == qty
            &&& picks@.no_duplicates()
            &&& settle_fits(old(state)@, create_gacha_pool_of(old(state)@), picks@)
            &&& picks.len() > 0 ==> old(state).listing_price <= u64::MAX
        },
    ensures
        old(state)@.wf() ==> (r matches Ok((dv, _, _)) ==> delivered_distinct(dv@)),
        match create_gacha_outcome(old(state)@, qty, picks@) {
            Ok((d, ids, p, v)) => r matches Ok((dv, idv, pv)) && dv@ == d && idv@ == ids && pv
                == p && final(state)@ == v,
            Err(e) => r == Err::<(Vec<Delivery>, Vec<u128>, Option<u64>), Error>(e)
                && final(state)@ == old(state)@,
        },
{
    let items = match create_gacha_pool(state, qty) {
        Ok(items) => items,
        Err(e) => return Err(e),
    };
    let ghost before = state@;
    let (deliveries, gacha_items_ids, price) = settle_create_gacha(state, &items, picks);
    proof {
        if before.wf() {
            crate::laws::drawn_items_are_distinct(before, create_gacha_test(), picks@);
        }
        assert(deliveries@ =~= Seq::new(picks@.len(), |k: int| delivery_of(items@, picks@[k])));
        assert(gacha_items_ids@ =~= Seq::new(
            picks@.len(),
            |k: int| items@[picks@[k] as int].item_id,
        ));
    }
    Ok((deliveries, gacha_items_ids, price))
}

/// The common part of both settlements: one delivery per pick, one sale per delivery.
fn settle(state: &mut State, pool: &Vec<MarketItem>, picks: &Vec<u64>) -> (r: Vec<Delivery>)
    requires
        settle_fits(old(state)@, pool@, picks@),
    ensures
        r@.len() == picks.len(),
        forall|k: int| 0 <= k < picks.len() ==> #[trigger] r@[k] == delivery_of(pool@, picks@[k]),
        final(state)@ == after_draws(old(state)@, picks.len() as nat),
{
    let ghost start = state@;
    let mut deliveries: Vec<Delivery> = Vec::new();
    let mut idx: usize = 0;
    while idx < picks.len()
        invariant
            idx <= picks.len(),
            settle_fits(start, pool@, picks@),
            state@ == after_draws(start, idx as nat),
            deliveries@.len() == idx,
            forall|k: int| 0 <= k < idx ==> #[trigger] deliveries@[k] == delivery_of(pool@, picks@[k]),
        decreases picks.len() - idx,
    {
        let random = picks[idx];
        proof {
            assert(picks@[idx as int] < pool.len());
        }
        let item_id = pool[random as usize].item_id;
        proof {
            assert(random as usize == random);
            assert(item_id == pool@[picks@[idx as int] as int].item_id);
        }
        // The drawn listing is looked up in the ledger; the copy is not written back.
        let _selected_item = state.map[item_id as usize];
        deliveries.push(Delivery { item_id, slot: random });
        state.item_sold += 1;
        idx = idx + 1;
    }
    deliveries
}

} // verus!

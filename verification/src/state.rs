use vstd::prelude::*;

use crate::error::Error;

verus! {

/// The 32 bytes of an on-chain account address.
#[derive(Debug, Clone, Copy, PartialEq, Eq)]
pub struct AccountKey(pub [u8; 32]);

/// One listing of the marketplace.
#[derive(Debug, Clone, Copy, PartialEq, Eq)]
pub struct MarketItem {
    pub item_id: u128,
    pub owner: Option<AccountKey>,
    pub price: u128,
    pub sold: bool,
    pub gacha: bool,
}

/// The marketplace's state account: the ledger of listings and its counters.
#[derive(Debug, Clone)]
pub struct State {
    pub map: Vec<MarketItem>,
    pub item_ids: u128,
    pub item_sold: u128,
    pub owner: AccountKey,
    pub listing_price: u128,
    pub initialized: bool,
}

/// The mathematical picture of a [`State`]: the ledger as a sequence.
pub struct MarketView {
    pub items: Seq<MarketItem>,
    pub item_ids: u128,
    pub item_sold: u128,
    pub owner: AccountKey,
    pub listing_price: u128,
    pub initialized: bool,
}

impl View for State {
    type V = MarketView;

    open spec fn view(&self) -> MarketView {
        MarketView {
            items: self.map@,
            item_ids: self.item_ids,
            item_sold: self.item_sold,
            owner: self.owner,
            listing_price: self.listing_price,
            initialized: self.initialized,
        }
    }
}

impl MarketView {
    /// The ledger holds exactly `item_ids` listings, and each listing's id is its position.
    pub open spec fn wf(self) -> bool {
        &&& self.items.len() == self.item_ids
        &&& forall|i: int| 0 <= i < self.items.len() ==> #[trigger] self.items[i].item_id == i
    }

    /// The listings that were counted by `item_ids`.
    pub open spec fn listed(self) -> Seq<MarketItem> {
        self.items.take(self.item_ids as int)
    }
}

/// The listing that `create_market_item` appends: fresh, unowned, unsold.
pub open spec fn new_listing(item_id: u128, price: u128) -> MarketItem {
    MarketItem { item_id, owner: None, price, sold: false, gacha: false }
}

/// What `init_state` makes of a state.
pub open spec fn after_init(s: MarketView, user: AccountKey, listing_price: u128) -> Result<
    MarketView,
    Error,
> {
    if s.initialized {
        Err(Error::StateAlreadyInitialized)
    } else {
        Ok(
            MarketView {
                items: Seq::empty(),
                item_ids: 0,
                item_sold: 0,
                owner: user,
                listing_price,
                initialized: true,
            },
        )
    }
}

/// What `create_market_item` makes of a state.
pub open spec fn after_listing(s: MarketView, price: u128) -> Result<MarketView, Error> {
    if price == 0 {
        Err(Error::InvalidPrice)
    } else {
        Ok(
            MarketView {
                items: s.items.push(new_listing(s.item_ids, price)),
                item_ids: (s.item_ids + 1) as u128,
                ..s
            },
        )
    }
}

/// The position in the ledger that a purchase of `item_id` reads.
pub open spec fn purchase_index(item_id: u128) -> int {
    (item_id as usize) as int
}

/// What `purchase_sale` makes of a state: the sale counter grows; the listing itself is
/// read, not rewritten.
pub open spec fn after_purchase(s: MarketView, price: u128, item_id: u128) -> Result<
    MarketView,
    Error,
> {
    if price != s.items[purchase_index(item_id)].price {
        Err(Error::InvalidPayment)
    } else {
        Ok(MarketView { item_sold: (s.item_sold + 1) as u128, ..s })
    }
}

/// The state after a settled draw of `count` items: only the sale counter moves.
pub open spec fn after_draws(s: MarketView, count: nat) -> MarketView {
    MarketView { item_sold: (s.item_sold + count) as u128, ..s }
}

/// `r` reports `expected`, and the state moved to the new view exactly when it is `Ok`.
pub open spec fn follows(
    r: Result<(), Error>,
    before: MarketView,
    after: MarketView,
    expected: Result<MarketView, Error>,
) -> bool {
    match expected {
        Ok(v) => r is Ok && after == v,
        Err(e) => r == Err::<(), Error>(e) && after == before,
    }
}

/// A gacha for `price` may draw this listing: nobody owns it and it asks that price.
pub open spec fn in_gacha(item: MarketItem, price: u128) -> bool {
    item.owner is None && item.price == price
}

/// A creator's gacha may draw this listing: nobody owns it.
pub open spec fn unowned(item: MarketItem) -> bool {
    item.owner is None
}

/// The items of `items` that `keep` accepts, in their order.
pub open spec fn kept(items: Seq<MarketItem>, keep: spec_fn(MarketItem) -> bool) -> Seq<
    MarketItem,
>
    decreases items.len(),
{
    if items.len() == 0 {
        Seq::empty()
    } else {
        let rest = kept(items.drop_last(), keep);
        if keep(items.last()) {
            rest.push(items.last())
        } else {
            rest
        }
    }
}

/// The test that admits a listing to a gacha for `price`.
pub open spec fn gacha_test(price: u128) -> spec_fn(MarketItem) -> bool {
    |it: MarketItem| in_gacha(it, price)
}

/// The test that admits a listing to a creator's gacha.
pub open spec fn create_gacha_test() -> spec_fn(MarketItem) -> bool {
    |it: MarketItem| unowned(it)
}

/// The pool of a gacha for `price`.
pub open spec fn gacha_pool_of(s: MarketView, price: u128) -> Seq<MarketItem> {
    kept(s.listed(), gacha_test(price))
}

/// The pool of a creator's gacha.
pub open spec fn create_gacha_pool_of(s: MarketView) -> Seq<MarketItem> {
    kept(s.listed(), create_gacha_test())
}

/// The checks that open a draw of `qty` items from `pool`.
pub open spec fn pool_result(pool: Seq<MarketItem>, qty: u8) -> Result<Seq<MarketItem>, Error> {
    if pool.len() == 0 {
        Err(Error::ItemsUnavailableForGacha)
    } else if qty > pool.len() {
        Err(Error::InvalidQuantity)
    } else {
        Ok(pool)
    }
}

/// No listing that a gacha for `price` may draw follows, among the first `n`, one that it
/// may not.
pub open spec fn eligible_first(s: MarketView, price: u128, n: int) -> bool {
    forall|j: int, k: int|
        0 <= j < k < n && #[trigger] in_gacha(s.items[k], price) ==> #[trigger] in_gacha(
            s.items[j],
            price,
        )
}

/// The gacha's collection places each eligible listing at its own ledger position, so it
/// stays within bounds only when the eligible listings come first: no eligible listing
/// follows one that is not.
pub open spec fn gacha_positions_fit(s: MarketView, price: u128) -> bool {
    eligible_first(s, price, s.item_ids as int)
}

/// What settling the draws `picks` of `pool` reads of the ledger stays within bounds, and the
/// sale counter has room for them.
pub open spec fn settle_fits(s: MarketView, pool: Seq<MarketItem>, picks: Seq<u64>) -> bool {
    &&& forall|k: int|
        0 <= k < picks.len() ==> #[trigger] picks[k] < pool.len() && ((
        pool[picks[k] as int].item_id as usize) as int) < s.items.len()
    &&& s.item_sold + picks.len() <= u128::MAX
}

/// Each item that `keep` accepts stands in `kept`, and only those.
pub proof fn lemma_kept_all(items: Seq<MarketItem>, keep: spec_fn(MarketItem) -> bool)
    requires
        forall|j: int| 0 <= j < items.len() ==> keep(#[trigger] items[j]),
    ensures
        kept(items, keep) == items,
    decreases items.len(),
{
    if items.len() > 0 {
        lemma_kept_all(items.drop_last(), keep);
        assert(items.drop_last().push(items.last()) =~= items);
    }
}

/// Every item of `kept` comes from `items` and is accepted by `keep`.
pub proof fn lemma_kept_from(items: Seq<MarketItem>, keep: spec_fn(MarketItem) -> bool)
    ensures
        kept(items, keep).len() <= items.len(),
        forall|k: int|
            0 <= k < kept(items, keep).len() ==> keep(#[trigger] kept(items, keep)[k])
                && items.contains(kept(items, keep)[k]),
    decreases items.len(),
{
    if items.len() > 0 {
        let rest = items.drop_last();
        lemma_kept_from(rest, keep);
        let r = kept(rest, keep);
        assert forall|k: int| 0 <= k < r.len() implies items.contains(#[trigger] r[k]) by {
            let w = choose|w: int| 0 <= w < rest.len() && rest[w] == r[k];
            assert(items[w] == r[k]);
        }
        assert(items[items.len() - 1] == items.last());
    }
}

} // verus!

use gacha_marketplace::draw::{next_seed, seed_from_timestamp, Draw, SEED_STEP};
use gacha_marketplace::gacha_marketplace::{
    create_gacha, create_gacha_pool, create_market_item, gacha, gacha_collects_in_bounds, picks_distinct,
    gacha_pool, init_state, purchase_sale, settle_in_bounds, Delivery, TOKENS_PER_ITEM,
};
use gacha_marketplace::{AccountKey, Error, MarketItem, State};

fn key(b: u8) -> AccountKey {
    AccountKey([b; 32])
}

fn blank_state() -> State {
    State {
        map: Vec::new(),
        item_ids: 0,
        item_sold: 0,
        owner: key(0),
        listing_price: 0,
        initialized: false,
    }
}

fn listing(id: u128, price: u128) -> MarketItem {
    MarketItem { item_id: id, owner: None, price, sold: false, gacha: false }
}

fn market_with(prices: &[u128]) -> State {
    let mut s = blank_state();
    init_state(&mut s, key(7), 50).unwrap();
    for p in prices {
        create_market_item(&mut s, *p).unwrap();
    }
    s
}

#[test]
fn init_state_sets_up_a_fresh_marketplace() {
    let mut s = blank_state();
    s.item_ids = 9;
    s.map.push(listing(3, 3));
    assert_eq!(init_state(&mut s, key(7), 50), Ok(()));
    assert!(s.map.is_empty());
    assert_eq!(s.item_ids, 0);
    assert_eq!(s.item_sold, 0);
    assert_eq!(s.owner, key(7));
    assert_eq!(s.listing_price, 50);
    assert!(s.initialized);
}

#[test]
fn init_state_refuses_a_second_set_up() {
    let mut s = market_with(&[10]);
    let before = s.clone();
    assert_eq!(init_state(&mut s, key(9), 1), Err(Error::StateAlreadyInitialized));
    assert_eq!(s.map, before.map);
    assert_eq!(s.owner, key(7));
    assert_eq!(s.listing_price, 50);
    assert_eq!(s.item_ids, 1);
}

#[test]
fn create_market_item_assigns_sequential_ids() {
    let s = market_with(&[10, 20, 30]);
    assert_eq!(s.item_ids, 3);
    assert_eq!(s.map, vec![listing(0, 10), listing(1, 20), listing(2, 30)]);
}

#[test]
fn create_market_item_refuses_a_zero_price() {
    let mut s = market_with(&[10]);
    assert_eq!(create_market_item(&mut s, 0), Err(Error::InvalidPrice));
    assert_eq!(s.item_ids, 1);
    assert_eq!(s.map.len(), 1);
}

#[test]
fn purchase_sale_books_a_sale_and_pays_the_price() {
    let mut s = market_with(&[10, 20]);
    assert_eq!(purchase_sale(&mut s, 20, 1), Ok(20u64));
    assert_eq!(s.item_sold, 1);
    // the listing is read, not rewritten
    assert_eq!(s.map[1], listing(1, 20));
}

#[test]
fn purchase_sale_refuses_a_wrong_payment() {
    let mut s = market_with(&[10, 20]);
    assert_eq!(purchase_sale(&mut s, 10, 1), Err(Error::InvalidPayment));
    assert_eq!(s.item_sold, 0);
}

#[test]
fn purchase_sale_of_the_same_listing_twice_books_two_sales() {
    let mut s = market_with(&[10]);
    assert_eq!(purchase_sale(&mut s, 10, 0), Ok(10u64));
    assert_eq!(purchase_sale(&mut s, 10, 0), Ok(10u64));
    assert_eq!(s.item_sold, 2);
}

#[test]
fn gacha_pool_keeps_unowned_items_at_the_price() {
    let mut s = market_with(&[5, 5, 7]);
    s.map[1].owner = None;
    assert!(gacha_collects_in_bounds(&s, 5));
    let pool = gacha_pool(&s, 2, 5).unwrap();
    assert_eq!(pool, vec![listing(0, 5), listing(1, 5)]);
}

#[test]
fn gacha_pool_refuses_when_no_item_is_at_the_price() {
    let s = market_with(&[5, 5]);
    assert_eq!(gacha_pool(&s, 1, 9), Err(Error::ItemsUnavailableForGacha));
}

#[test]
fn gacha_pool_refuses_a_quantity_above_the_pool() {
    let s = market_with(&[5, 5, 7]);
    assert_eq!(gacha_pool(&s, 3, 5), Err(Error::InvalidQuantity));
    assert_eq!(gacha_pool(&s, 2, 5).map(|p| p.len()), Ok(2));
}

#[test]
fn gacha_collects_in_bounds_only_when_eligible_items_come_first() {
    let s = market_with(&[5, 7, 5]);
    assert!(!gacha_collects_in_bounds(&s, 5));
    assert!(gacha_collects_in_bounds(&s, 7) == false);
    let t = market_with(&[5, 5, 7]);
    assert!(gacha_collects_in_bounds(&t, 5));
    assert!(gacha_collects_in_bounds(&t, 9));
}

#[test]
fn create_gacha_pool_keeps_every_unowned_item() {
    let mut s = market_with(&[5, 6, 7]);
    s.map[1].owner = Some(key(3));
    let pool = create_gacha_pool(&s, 2).unwrap();
    assert_eq!(pool, vec![listing(0, 5), listing(2, 7)]);
    assert_eq!(create_gacha_pool(&s, 3), Err(Error::InvalidQuantity));
    let empty = market_with(&[]);
    assert_eq!(create_gacha_pool(&empty, 0), Err(Error::ItemsUnavailableForGacha));
}

#[test]
fn seed_is_the_timestamp_bits() {
    assert_eq!(seed_from_timestamp(1_700_000_000), 1_700_000_000u64);
    assert_eq!(seed_from_timestamp(-1), u64::MAX);
}

#[test]
fn next_seed_is_one_xorshift_round() {
    assert_eq!(next_seed(1), 33554433);
    assert_eq!(next_seed(12345), 414263032884);
    assert_eq!(next_seed(1700000000), 57046271055154492);
    assert_eq!(next_seed(0), 0);
}

#[test]
fn draw_takes_new_positions_and_steps_on_repeats() {
    let mut d = Draw::new(1, 3, 2);
    assert_eq!(d.rounds(), 2);
    assert!(!d.finished());
    d.start_round();
    assert_eq!(d.seed(), 33554433);
    assert!(!d.repeats(7));
    assert!(d.offer(7)); // 7 % 3 == 1
    assert_eq!(d.picks(), &vec![1u64]);
    d.start_round();
    let seed = d.seed();
    assert!(d.repeats(4)); // 4 % 3 == 1, taken
    assert!(d.can_step());
    assert!(!d.offer(4));
    assert_eq!(d.seed(), seed + SEED_STEP);
    assert_eq!(d.picks(), &vec![1u64]);
    assert!(d.offer(5)); // 5 % 3 == 2
    assert_eq!(d.picks(), &vec![1u64, 2]);
    assert!(d.finished());
    assert_eq!(d.range(), 3);
}

#[test]
fn draw_cannot_step_past_the_top() {
    let d = Draw::new(u64::MAX - SEED_STEP + 1, 2, 1);
    assert!(!d.can_step());
    let e = Draw::new(u64::MAX - SEED_STEP, 2, 1);
    assert!(e.can_step());
}

#[test]
fn gacha_settles_the_drawn_items() {
    let mut s = market_with(&[5, 5, 5]);
    let pool = gacha_pool(&s, 2, 5).unwrap();
    let picks = vec![2u64, 0];
    assert!(settle_in_bounds(&s, &pool, &picks));
    let (deliveries, fee) = gacha(&mut s, 2, 5, 99, &picks).unwrap();
    assert_eq!(
        deliveries,
        vec![Delivery { item_id: 2, slot: 2 }, Delivery { item_id: 0, slot: 0 }]
    );
    assert_eq!(fee, 99);
    assert_eq!(s.item_sold, 2);
    assert_eq!(s.map, vec![listing(0, 5), listing(1, 5), listing(2, 5)]);
}

#[test]
fn create_gacha_returns_the_ids_and_the_listing_price() {
    let mut s = market_with(&[5, 6, 7]);
    s.map[0].owner = Some(key(1));
    let pool = create_gacha_pool(&s, 2).unwrap();
    assert_eq!(pool.len(), 2);
    let picks = vec![1u64, 0];
    let (deliveries, ids, price) = create_gacha(&mut s, 2, &picks).unwrap();
    assert_eq!(ids, vec![2u128, 1]);
    assert_eq!(
        deliveries,
        vec![Delivery { item_id: 2, slot: 1 }, Delivery { item_id: 1, slot: 0 }]
    );
    assert_eq!(price, Some(50u64));
    assert_eq!(s.item_sold, 2);
}

#[test]
fn create_gacha_with_no_draw_pays_nothing() {
    let mut s = market_with(&[5]);
    let (deliveries, ids, price) = create_gacha(&mut s, 0, &Vec::new()).unwrap();
    assert!(deliveries.is_empty());
    assert!(ids.is_empty());
    assert_eq!(price, None);
    assert_eq!(s.item_sold, 0);
}

#[test]
fn settle_in_bounds_checks_positions_and_ledger() {
    let s = market_with(&[5, 5]);
    let pool = gacha_pool(&s, 1, 5).unwrap();
    assert!(settle_in_bounds(&s, &pool, &vec![1]));
    assert!(!settle_in_bounds(&s, &pool, &vec![2]));
    let stray = vec![listing(8, 5)];
    assert!(!settle_in_bounds(&s, &stray, &vec![0]));
    let mut full = s.clone();
    full.item_sold = u128::MAX;
    assert!(!settle_in_bounds(&full, &pool, &vec![0]));
    assert!(settle_in_bounds(&full, &pool, &vec![]));
}

#[test]
fn delivery_names_three_accounts_per_slot() {
    let d = Delivery { item_id: 4, slot: 5 };
    assert_eq!(d.mint_account(), 15);
    assert_eq!(d.source_account(), 16);
    assert_eq!(d.destination_account(), 17);
    assert_eq!(TOKENS_PER_ITEM, 1);
}

#[test]
fn a_full_gacha_hands_over_distinct_items() {
    let mut s = market_with(&[5, 5, 5, 5]);
    let pool = gacha_pool(&s, 4, 5).unwrap();
    let mut d = Draw::new(seed_from_timestamp(1_700_000_000), pool.len() as u64, 4);
    while !d.finished() {
        d.start_round();
        loop {
            // an integer stand-in for the program's scaled draw
            let scaled = d.seed() % 1000;
            if d.offer(scaled) {
                break;
            }
        }
    }
    let picks = d.picks().clone();
    let (deliveries, _) = gacha(&mut s, 4, 5, 1, &picks).unwrap();
    let mut ids: Vec<u128> = deliveries.iter().map(|x| x.item_id).collect();
    ids.sort();
    assert_eq!(ids, vec![0, 1, 2, 3]);
    assert_eq!(s.item_sold, 4);
}

#[test]
fn listed_item_sells_at_its_price_only() {
    let mut s = market_with(&[10]);
    create_market_item(&mut s, 42).unwrap();
    let mut t = s.clone();
    assert_eq!(purchase_sale(&mut t, 41, 1), Err(Error::InvalidPayment));
    assert_eq!(purchase_sale(&mut s, 42, 1), Ok(42));
}

#[test]
fn gacha_refuses_an_empty_pool_and_keeps_the_state() {
    let mut s = market_with(&[5, 5]);
    let before = s.clone();
    assert_eq!(gacha(&mut s, 1, 9, 3, &vec![0]), Err(Error::ItemsUnavailableForGacha));
    assert_eq!(s.item_sold, before.item_sold);
    assert_eq!(s.map, before.map);
}

#[test]
fn gacha_refuses_a_quantity_above_the_pool_and_keeps_the_state() {
    let mut s = market_with(&[5, 5, 7]);
    assert_eq!(gacha(&mut s, 3, 5, 3, &vec![0, 1, 2]), Err(Error::InvalidQuantity));
    assert_eq!(s.item_sold, 0);
}

#[test]
fn create_gacha_refuses_like_its_pool_and_keeps_the_state() {
    let mut s = market_with(&[5]);
    s.map[0].owner = Some(key(2));
    assert_eq!(create_gacha(&mut s, 1, &vec![0]), Err(Error::ItemsUnavailableForGacha));
    let mut t = market_with(&[5, 6]);
    assert_eq!(create_gacha(&mut t, 3, &vec![0, 1, 2]), Err(Error::InvalidQuantity));
    assert_eq!(t.item_sold, 0);
    assert_eq!(s.item_sold, 0);
}

fn run_draws(ts: i64, range: u64, rounds: u64) -> Vec<u64> {
    let mut d = Draw::new(seed_from_timestamp(ts), range, rounds);
    while !d.finished() {
        d.start_round();
        loop {
            let scaled = d.seed() % 1000;
            if d.offer(scaled) {
                break;
            }
        }
    }
    d.picks().clone()
}

#[test]
fn gacha_is_determined_by_state_arguments_and_clock() {
    let picks1 = run_draws(1_700_000_123, 4, 3);
    let picks2 = run_draws(1_700_000_123, 4, 3);
    assert_eq!(picks1, picks2);
    let mut s1 = market_with(&[5, 5, 5, 5]);
    let mut s2 = s1.clone();
    let r1 = gacha(&mut s1, 3, 5, 8, &picks1);
    let r2 = gacha(&mut s2, 3, 5, 8, &picks2);
    assert_eq!(r1, r2);
    assert_eq!(s1.item_sold, s2.item_sold);
    let mut c1 = market_with(&[5, 6, 7, 8]);
    let mut c2 = c1.clone();
    assert_eq!(create_gacha(&mut c1, 3, &picks1), create_gacha(&mut c2, 3, &picks2));
}

#[test]
fn picks_distinct_spots_a_repeated_position() {
    assert!(picks_distinct(&vec![]));
    assert!(picks_distinct(&vec![3, 1, 2]));
    assert!(!picks_distinct(&vec![3, 1, 3]));
}

#[test]
fn gacha_deliveries_name_distinct_listings() {
    let mut s = market_with(&[5, 5, 5]);
    let (deliveries, _) = gacha(&mut s, 3, 5, 0, &vec![2, 0, 1]).unwrap();
    let ids: Vec<u128> = deliveries.iter().map(|d| d.item_id).collect();
    assert_eq!(ids, vec![2, 0, 1]);
}

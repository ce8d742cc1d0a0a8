use pallet_kitties::currency::{Balances, Currency};
use pallet_kitties::entropy::{random_value, Entropy};
use pallet_kitties::genome::combine;
use pallet_kitties::ownership::{IndexError, OwnershipIndex};
use pallet_kitties::pallet::Pallet;
use pallet_kitties::types::{Error, Event};

const STAKE: u128 = 1_000;
const MAX_OWNED: u32 = 3;
const RICH: u128 = 1_000_000_000;

fn entropy() -> Entropy {
    Entropy { seed: [7u8; 32], block_number: 1, extrinsic_index: Some(0) }
}

fn setup(minimum: u128) -> (Pallet, Balances) {
    let mut ledger = Balances::new(minimum);
    ledger.make_free_balance_be(1, RICH);
    ledger.make_free_balance_be(2, RICH);
    ledger.make_free_balance_be(3, 500);
    (Pallet::new(STAKE, MAX_OWNED), ledger)
}

fn assert_backed(p: &Pallet, l: &Balances) {
    for w in 0..5u64 {
        assert_eq!(l.reserved_balance(w), STAKE * p.kitties_owner(w).len() as u128);
    }
}

fn assert_agrees(p: &Pallet) {
    for id in 0..p.kitties_count() {
        if let Some(k) = p.kitties(id) {
            for w in 0..5u64 {
                let n = p.kitties_owner(w).iter().filter(|x| **x == id).count();
                assert_eq!(n, if w == k.owner { 1 } else { 0 });
            }
        }
    }
}

#[test]
fn random_value_is_blake2_of_scale_payload() {
    assert_eq!(
        random_value(1, &entropy()),
        [145, 156, 100, 83, 95, 90, 167, 87, 76, 202, 110, 192, 58, 152, 99, 28]
    );
    assert_eq!(
        random_value(2, &entropy()),
        [65, 105, 33, 51, 94, 75, 12, 185, 13, 32, 179, 120, 207, 6, 156, 173]
    );
    let e = Entropy { seed: [7u8; 32], block_number: 5, extrinsic_index: None };
    assert_eq!(
        random_value(1, &e),
        [69, 216, 193, 232, 114, 163, 97, 92, 190, 91, 249, 180, 144, 0, 223, 95]
    );
}

#[test]
fn combine_takes_masked_bits_from_first_parent() {
    assert_eq!(combine(&[0xFF; 16], &[0x00; 16], &[0xF0; 16]), [0xF0; 16]);
    assert_eq!(combine(&[0x0F; 16], &[0xF0; 16], &[0xAA; 16]), [0x5A; 16]);
    let mut mask = [0u8; 16];
    mask[3] = 0xFF;
    let mut expected = [2u8; 16];
    expected[3] = 1;
    assert_eq!(combine(&[1; 16], &[2; 16], &mask), expected);
}

#[test]
fn create_with_no_prior_collectibles_reserves_one_stake() {
    let (mut p, mut l) = setup(1);
    assert_eq!(p.create(&mut l, 1, &entropy()), Ok(()));
    assert_eq!(p.kitties_owner(1), vec![0u32]);
    let k = p.kitties(0).unwrap();
    assert_eq!(k.owner, 1);
    assert_eq!(k.price, None);
    assert_eq!(k.dna, random_value(1, &entropy()));
    assert_eq!(l.reserved_balance(1), STAKE);
    assert_eq!(l.free_balance(1), RICH - STAKE);
    assert_eq!(p.kitties_count(), 1);
    assert_eq!(p.events(), vec![Event::KittyCreated(1, 0)]);
}

#[test]
fn breed_with_identical_parents_creates_nothing() {
    let (mut p, mut l) = setup(1);
    assert_eq!(p.create(&mut l, 1, &entropy()), Ok(()));
    assert_eq!(p.create(&mut l, 1, &entropy()), Ok(()));
    assert_eq!(p.breed(&mut l, 1, 0, 0, &entropy()), Err(Error::SameParentIndex));
    assert_eq!(p.kitties(2), None);
    assert_eq!(p.kitties_count(), 2);
    assert_eq!(l.reserved_balance(1), 2 * STAKE);
}

#[test]
fn breed_child_genome_mixes_parents() {
    let (mut p, mut l) = setup(1);
    assert_eq!(p.new_kitty_with_stake(&mut l, 1, [0xFF; 16]), Ok(()));
    assert_eq!(p.new_kitty_with_stake(&mut l, 1, [0x00; 16]), Ok(()));
    assert_eq!(p.breed_with_selector(&mut l, 2, 0, 1, [0x3C; 16]), Ok(()));
    let child = p.kitties(2).unwrap();
    assert_eq!(child.dna, [0x3C; 16]);
    assert_eq!(child.owner, 2);
    assert_eq!(p.kitties(0).unwrap().owner, 1);
    assert_eq!(p.kitties(1).unwrap().owner, 1);
    assert_eq!(p.breed_with_selector(&mut l, 2, 0, 9, [0x3C; 16]), Err(Error::InvalidKittyIndex));
    assert_eq!(p.breed(&mut l, 2, 0, 1, &entropy()), Ok(()));
    let drawn = random_value(2, &entropy());
    assert_eq!(p.kitties(3).unwrap().dna, combine(&[0xFF; 16], &[0x00; 16], &drawn));
}

#[test]
fn transfer_to_account_short_of_stake_keeps_owner() {
    let (mut p, mut l) = setup(1);
    assert_eq!(p.create(&mut l, 1, &entropy()), Ok(()));
    assert_eq!(p.transfer(&mut l, 1, 0, 3), Err(Error::NotEnoughBalanceForStaking));
    assert_eq!(p.kitties(0).unwrap().owner, 1);
    assert_eq!(p.kitties_owner(1), vec![0u32]);
    assert_eq!(l.reserved_balance(1), STAKE);
    assert_eq!(l.reserved_balance(3), 0);
}

#[test]
fn transfer_moves_stake_and_clears_price() {
    let (mut p, mut l) = setup(1);
    assert_eq!(p.create(&mut l, 1, &entropy()), Ok(()));
    assert_eq!(p.set_price(1, 0, Some(77)), Ok(()));
    assert_eq!(p.transfer(&mut l, 1, 0, 1), Err(Error::TransferToSelf));
    assert_eq!(p.transfer(&mut l, 1, 0, 2), Ok(()));
    let k = p.kitties(0).unwrap();
    assert_eq!(k.owner, 2);
    assert_eq!(k.price, None);
    assert_eq!(l.reserved_balance(1), 0);
    assert_eq!(l.free_balance(1), RICH);
    assert_eq!(l.reserved_balance(2), STAKE);
    assert_eq!(l.free_balance(2), RICH - STAKE);
    assert_eq!(p.events().last(), Some(&Event::KittyTransferred(1, 2, 0)));
}

#[test]
fn transfer_to_full_account_is_refused() {
    let (mut p, mut l) = setup(1);
    for _ in 0..3 {
        assert_eq!(p.create(&mut l, 2, &entropy()), Ok(()));
    }
    assert_eq!(p.create(&mut l, 1, &entropy()), Ok(()));
    assert_eq!(p.transfer(&mut l, 1, 3, 2), Err(Error::ExceedKittyOwned));
    assert_eq!(p.kitties(3).unwrap().owner, 1);
    assert_eq!(l.reserved_balance(2), 3 * STAKE);
    assert_eq!(l.free_balance(2), RICH - 3 * STAKE);
}

#[test]
fn buy_unpriced_collectible_is_refused() {
    let (mut p, mut l) = setup(1);
    assert_eq!(p.create(&mut l, 1, &entropy()), Ok(()));
    assert_eq!(p.buy_kitty(&mut l, 2, 0), Err(Error::KittyNotForSale));
    assert_eq!(p.buy_kitty(&mut l, 2, 5), Err(Error::InvalidKittyIndex));
    assert_eq!(p.buy_kitty(&mut l, 1, 0), Err(Error::TransferToSelf));
}

#[test]
fn buy_pays_seller_and_moves_stake() {
    let (mut p, mut l) = setup(1);
    let price: u128 = 10_000;
    assert_eq!(p.create(&mut l, 1, &entropy()), Ok(()));
    assert_eq!(p.set_price(1, 0, Some(price)), Ok(()));
    assert_eq!(p.buy_kitty(&mut l, 2, 0), Ok(()));
    let k = p.kitties(0).unwrap();
    assert_eq!(k.owner, 2);
    assert_eq!(k.price, None);
    assert_eq!(p.kitties_owner(1), Vec::<u32>::new());
    assert_eq!(p.kitties_owner(2), vec![0u32]);
    assert_eq!(l.reserved_balance(1), 0);
    assert_eq!(l.free_balance(1), RICH + price);
    assert_eq!(l.reserved_balance(2), STAKE);
    assert_eq!(l.free_balance(2), RICH - STAKE - price);
    assert_eq!(
        p.events(),
        vec![
            Event::KittyCreated(1, 0),
            Event::KittyPriceSet(1, 0, Some(price)),
            Event::KittyTransferred(1, 2, 0),
        ]
    );
}

#[test]
fn buy_needs_more_than_price_and_stake() {
    let (mut p, mut l) = setup(1);
    assert_eq!(p.create(&mut l, 1, &entropy()), Ok(()));
    assert_eq!(p.set_price(1, 0, Some(10_000)), Ok(()));
    l.make_free_balance_be(2, 11_000);
    assert_eq!(p.buy_kitty(&mut l, 2, 0), Err(Error::NotEnoughBalanceForBuying));
    l.make_free_balance_be(2, 11_001);
    assert_eq!(p.buy_kitty(&mut l, 2, 0), Ok(()));
    assert_eq!(l.free_balance(2), 1);
}

#[test]
fn buy_at_largest_price_is_refused() {
    let (mut p, mut l) = setup(1);
    assert_eq!(p.create(&mut l, 1, &entropy()), Ok(()));
    assert_eq!(p.set_price(1, 0, Some(u128::MAX)), Ok(()));
    assert_eq!(p.buy_kitty(&mut l, 2, 0), Err(Error::NotEnoughBalanceForBuying));
}

#[test]
fn buy_that_would_drop_buyer_below_minimum_rolls_back() {
    let (mut p, mut l) = setup(5_000);
    assert_eq!(p.create(&mut l, 1, &entropy()), Ok(()));
    assert_eq!(p.set_price(1, 0, Some(10_000)), Ok(()));
    l.make_free_balance_be(2, 12_000);
    assert_eq!(p.buy_kitty(&mut l, 2, 0), Err(Error::NotEnoughBalanceForBuying));
    assert_eq!(l.free_balance(2), 12_000);
    assert_eq!(l.reserved_balance(2), 0);
    assert_eq!(l.reserved_balance(1), STAKE);
    assert_eq!(p.kitties(0).unwrap().owner, 1);
    assert_eq!(p.kitties(0).unwrap().price, Some(10_000));
}

#[test]
fn buy_into_full_account_is_refused() {
    let (mut p, mut l) = setup(1);
    for _ in 0..3 {
        assert_eq!(p.create(&mut l, 2, &entropy()), Ok(()));
    }
    assert_eq!(p.create(&mut l, 1, &entropy()), Ok(()));
    assert_eq!(p.set_price(1, 3, Some(10)), Ok(()));
    assert_eq!(p.buy_kitty(&mut l, 2, 3), Err(Error::ExceedKittyOwned));
    assert_eq!(l.reserved_balance(2), 3 * STAKE);
    assert_eq!(l.free_balance(1), RICH - STAKE);
}

#[test]
fn set_price_by_other_account_is_refused() {
    let (mut p, mut l) = setup(1);
    assert_eq!(p.create(&mut l, 1, &entropy()), Ok(()));
    assert_eq!(p.set_price(2, 0, Some(5)), Err(Error::NotOwner));
    assert_eq!(p.set_price(1, 0, Some(5)), Ok(()));
    assert_eq!(p.kitties(0).unwrap().price, Some(5));
    assert_eq!(p.set_price(1, 0, None), Ok(()));
    assert_eq!(p.kitties(0).unwrap().price, None);
    assert_eq!(p.events().last(), Some(&Event::KittyPriceSet(1, 0, None)));
}

#[test]
fn is_kitty_owner_reports_missing_as_not_owner() {
    let (mut p, mut l) = setup(1);
    assert_eq!(p.create(&mut l, 1, &entropy()), Ok(()));
    assert_eq!(p.is_kitty_owner(0, &1), Ok(true));
    assert_eq!(p.is_kitty_owner(0, &2), Ok(false));
    assert_eq!(p.is_kitty_owner(1, &1), Err(Error::NotOwner));
}

#[test]
fn transfer_kitty_to_moves_ownership_only() {
    let (mut p, mut l) = setup(1);
    assert_eq!(p.create(&mut l, 1, &entropy()), Ok(()));
    assert_eq!(p.create(&mut l, 1, &entropy()), Ok(()));
    assert_eq!(p.transfer_kitty_to(0, 3), Ok(()));
    assert_eq!(p.kitties_owner(1), vec![1u32]);
    assert_eq!(p.kitties_owner(3), vec![0u32]);
    assert_eq!(l.reserved_balance(1), 2 * STAKE);
    assert_eq!(l.reserved_balance(3), 0);
    assert_eq!(p.transfer_kitty_to(9, 3), Err(Error::InvalidKittyIndex));
}

#[test]
fn counter_only_moves_on_successful_mints() {
    let (mut p, mut l) = setup(1);
    assert_eq!(p.create(&mut l, 1, &entropy()), Ok(()));
    assert_eq!(p.create(&mut l, 3, &entropy()), Err(Error::NotEnoughBalanceForStaking));
    assert_eq!(p.kitties_count(), 1);
    assert_eq!(p.create(&mut l, 2, &entropy()), Ok(()));
    assert_eq!(p.kitties_count(), 2);
    assert_eq!(p.kitties_owner(2), vec![1u32]);
    assert_eq!(p.kitties(1).unwrap().owner, 2);
}

#[test]
fn mint_at_counter_maximum_is_refused() {
    let (_, mut l) = setup(1);
    let mut p = Pallet::with_kitties_count(STAKE, MAX_OWNED, u32::MAX - 1);
    assert_eq!(p.create(&mut l, 1, &entropy()), Ok(()));
    assert_eq!(p.kitties(u32::MAX - 1).unwrap().owner, 1);
    assert_eq!(p.kitties_count(), u32::MAX);
    assert_eq!(p.create(&mut l, 1, &entropy()), Err(Error::KittiesCountOverflow));
    assert_eq!(p.breed_with_selector(&mut l, 1, u32::MAX - 1, 0, [0; 16]), Err(Error::InvalidKittyIndex));
    assert_eq!(p.kitties_count(), u32::MAX);
    assert_eq!(l.reserved_balance(1), STAKE);
}

#[test]
fn collateral_and_index_agree_after_a_sequence() {
    let (mut p, mut l) = setup(1);
    assert_eq!(p.create(&mut l, 1, &entropy()), Ok(()));
    assert_eq!(p.create(&mut l, 1, &entropy()), Ok(()));
    assert_eq!(p.transfer(&mut l, 1, 0, 2), Ok(()));
    assert_eq!(p.breed(&mut l, 2, 0, 1, &entropy()), Ok(()));
    assert_eq!(p.set_price(2, 2, Some(300)), Ok(()));
    assert_eq!(p.buy_kitty(&mut l, 1, 2), Ok(()));
    assert_eq!(p.transfer(&mut l, 2, 0, 3), Err(Error::NotEnoughBalanceForStaking));
    assert_eq!(p.create(&mut l, 1, &entropy()), Ok(()));
    assert_eq!(p.create(&mut l, 1, &entropy()), Err(Error::ExceedKittyOwned));
    assert_backed(&p, &l);
    assert_agrees(&p);
    assert_eq!(p.kitties_owner(1).len(), 3);
    assert_eq!(p.kitties_owner(2), vec![0u32]);
}

#[test]
fn index_add_at_capacity_changes_nothing() {
    let mut idx = OwnershipIndex::new(2);
    assert_eq!(idx.add(7, 10), Ok(()));
    assert_eq!(idx.add(7, 11), Ok(()));
    assert_eq!(idx.add(7, 12), Err(IndexError::CapacityExceeded));
    assert_eq!(idx.owned_ids(7), vec![10u32, 11]);
    assert_eq!(idx.count(7), 2);
    assert_eq!(idx.add(8, 12), Ok(()));
    assert_eq!(idx.max_owned(), 2);
}

#[test]
fn index_remove_swaps_in_last_id() {
    let mut idx = OwnershipIndex::new(5);
    for id in [10u32, 20, 30, 20] {
        assert_eq!(idx.add(1, id), Ok(()));
    }
    assert_eq!(idx.remove(1, 20), Ok(()));
    assert_eq!(idx.owned_ids(1), vec![10u32, 20, 30]);
    assert_eq!(idx.remove(1, 10), Ok(()));
    assert_eq!(idx.owned_ids(1), vec![30u32, 20]);
    assert_eq!(idx.remove(1, 99), Err(IndexError::NotFound));
    assert_eq!(idx.remove(2, 30), Err(IndexError::NotFound));
    assert_eq!(idx.owned_ids(1), vec![30u32, 20]);
}

#[test]
fn ledger_reserve_unreserve_and_transfer() {
    let mut l = Balances::new(10);
    l.make_free_balance_be(1, 100);
    assert_eq!(l.reserve(1, 101), Err(()));
    assert_eq!(l.reserve(1, 60), Ok(()));
    assert_eq!((l.free_balance(1), l.reserved_balance(1)), (40, 60));
    assert_eq!(l.unreserve(1, 70), 10);
    assert_eq!((l.free_balance(1), l.reserved_balance(1)), (100, 0));
    assert_eq!(l.transfer(1, 2, 91), Err(()));
    assert_eq!(l.transfer(1, 2, 90), Ok(()));
    assert_eq!((l.free_balance(1), l.free_balance(2)), (10, 90));
    l.make_free_balance_be(3, u128::MAX);
    assert_eq!(l.transfer(2, 3, 1), Err(()));
    assert_eq!(l.reserve(3, u128::MAX), Ok(()));
    l.make_free_balance_be(3, 5);
    assert_eq!(l.reserve(3, 1), Err(()));
    assert_eq!(l.unreserve(3, 1), 0);
    assert_eq!(l.free_balance(3), 6);
}

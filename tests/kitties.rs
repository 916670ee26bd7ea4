use substrate_kitties::dna::{combine_dna, random_value, BlockContext, Kitty};
use substrate_kitties::kitties::{Error, Event, Module};
use substrate_kitties::linked_item::LinkedItem;

fn ctx(block_number: u64) -> BlockContext {
    BlockContext { random_seed: [1u8; 32], extrinsic_index: Some(0), block_number }
}

#[test]
fn create_gives_consecutive_ids_and_random_genes() {
    let mut m = Module::new();
    assert_eq!(m.create(5, &ctx(1)), Ok(Event::Created(5, 0)));
    assert_eq!(m.create(6, &ctx(1)), Ok(Event::Created(6, 1)));
    assert_eq!(m.kitties_count(), 2);
    assert_eq!(m.kitty(0).unwrap().0, random_value(&ctx(1), 5));
    assert_eq!(m.kitty(1).unwrap().0, random_value(&ctx(1), 6));
    assert_eq!(m.kitty_owner(0), Some(5));
    assert_eq!(m.kitty_owner(1), Some(6));
    assert_eq!(m.kitty_owner(2), None);
    assert!(m.kitty(2).is_none());
    assert_eq!(m.owned_kitties().owned_kitties(&5), vec![0]);
    assert_eq!(m.next_kitty_id(), Ok(2));
}

#[test]
fn create_with_dna_stores_given_genes() {
    let mut m = Module::new();
    assert_eq!(m.create_with_dna(1, [3u8; 16]), Ok(Event::Created(1, 0)));
    assert_eq!(m.kitty(0).unwrap().0, [3u8; 16]);
}

#[test]
fn breed_with_mixes_parent_genes() {
    let mut m = Module::new();
    m.create_with_dna(1, [0xF0u8; 16]).unwrap();
    m.create_with_dna(1, [0x0Fu8; 16]).unwrap();
    let mut selector = [0u8; 16];
    selector[0] = 0xFF;
    selector[1] = 0x3C;
    assert_eq!(m.breed_with(1, 0, 1, &selector), Ok(Event::Created(1, 2)));
    let child = m.kitty(2).unwrap().0;
    assert_eq!(child[0], 0xF0);
    assert_eq!(child[1], combine_dna(0xF0, 0x0F, 0x3C));
    assert_eq!(child[1], 0x33);
    assert_eq!(child[15], 0x0F);
    assert_eq!(m.kitty_owner(2), Some(1));
    assert_eq!(m.owned_kitties().owned_kitties(&1), vec![0, 1, 2]);
}

#[test]
fn breed_uses_block_entropy_as_selector() {
    let mut m = Module::new();
    m.create_with_dna(1, [0xAAu8; 16]).unwrap();
    m.create_with_dna(1, [0x55u8; 16]).unwrap();
    let c = ctx(9);
    assert_eq!(m.breed(1, 0, 1, &c), Ok(Event::Created(1, 2)));
    let selector = random_value(&c, 1);
    let child = m.kitty(2).unwrap().0;
    for i in 0..16 {
        assert_eq!(child[i], combine_dna(0xAA, 0x55, selector[i]));
    }
}

#[test]
fn breed_errors_in_order() {
    let mut m = Module::new();
    m.create_with_dna(1, [0u8; 16]).unwrap();
    m.create_with_dna(2, [0u8; 16]).unwrap();
    m.create_with_dna(1, [0u8; 16]).unwrap();
    let sel = [0u8; 16];
    assert_eq!(m.breed_with(1, 9, 8, &sel), Err(Error::InvalidKittyId1));
    assert_eq!(m.breed_with(1, 0, 8, &sel), Err(Error::InvalidKittyId2));
    assert_eq!(m.breed_with(1, 0, 0, &sel), Err(Error::NeedsDifferentParent));
    assert_eq!(m.breed_with(1, 1, 0, &sel), Err(Error::NotOwnerOfKitty1));
    assert_eq!(m.breed_with(1, 0, 1, &sel), Err(Error::NotOwnerOfKitty2));
    assert_eq!(m.kitties_count(), 3);
    assert_eq!(m.breed_with(1, 0, 2, &sel), Ok(Event::Created(1, 3)));
}

#[test]
fn transfer_moves_kitty_between_lists() {
    let mut m = Module::new();
    m.create_with_dna(1, [0u8; 16]).unwrap();
    m.create_with_dna(1, [0u8; 16]).unwrap();
    assert_eq!(m.transfer(2, 3, 0), Err(Error::NotOwnerToTransfer));
    assert_eq!(m.transfer(1, 2, 0), Ok(Event::Transferred(1, 2, 0)));
    assert_eq!(m.kitty_owner(0), Some(2));
    assert_eq!(m.owned_kitties().owned_kitties(&1), vec![1]);
    assert_eq!(m.owned_kitties().owned_kitties(&2), vec![0]);
    assert_eq!(m.transfer(1, 2, 0), Err(Error::NotOwnerToTransfer));
    assert_eq!(m.transfer(9, 2, 7), Err(Error::NotOwnerToTransfer));
}

#[test]
fn transfer_to_self_moves_kitty_to_end() {
    let mut m = Module::new();
    m.create_with_dna(1, [0u8; 16]).unwrap();
    m.create_with_dna(1, [0u8; 16]).unwrap();
    assert_eq!(m.transfer(1, 1, 0), Ok(Event::Transferred(1, 1, 0)));
    assert_eq!(m.owned_kitties().owned_kitties(&1), vec![1, 0]);
    assert_eq!(m.kitty_owner(0), Some(1));
}

#[test]
fn ask_sets_and_clears_price() {
    let mut m = Module::new();
    m.create_with_dna(1, [0u8; 16]).unwrap();
    assert_eq!(m.ask(2, 0, Some(10)), Err(Error::NotOwnerToSetPrice));
    assert_eq!(m.kitty_price(0), None);
    assert_eq!(m.ask(1, 0, Some(10)), Ok(Event::Ask(1, 0, Some(10))));
    assert_eq!(m.kitty_price(0), Some(10));
    assert_eq!(m.ask(1, 0, None), Ok(Event::Ask(1, 0, None)));
    assert_eq!(m.kitty_price(0), None);
    assert_eq!(m.ask(1, 5, Some(1)), Err(Error::NotOwnerToSetPrice));
}

#[test]
fn buying_checks_and_completes_sale() {
    let mut m = Module::new();
    m.create_with_dna(1, [0u8; 16]).unwrap();
    assert_eq!(m.check_buy(4, 100), Err(Error::KittyNotExist));
    assert_eq!(m.check_buy(0, 100), Err(Error::KittyNotForSale));
    m.ask(1, 0, Some(50)).unwrap();
    assert_eq!(m.check_buy(0, 49), Err(Error::PriceTooLow));
    assert_eq!(m.check_buy(0, 50), Ok((1, 50)));
    assert_eq!(m.check_buy(0, 80), Ok((1, 50)));
    assert_eq!(m.complete_buy(2, 0), Ok(Event::Sold(1, 2, 0, 50)));
    assert_eq!(m.kitty_owner(0), Some(2));
    assert_eq!(m.kitty_price(0), None);
    assert_eq!(m.owned_kitties().owned_kitties(&2), vec![0]);
    assert_eq!(m.owned_kitties().owned_kitties(&1), Vec::<u32>::new());
    assert_eq!(m.complete_buy(3, 0), Err(Error::KittyNotForSale));
    assert_eq!(m.complete_buy(3, 8), Err(Error::KittyNotExist));
}

#[test]
fn price_survives_transfer() {
    let mut m = Module::new();
    m.create_with_dna(1, [0u8; 16]).unwrap();
    m.ask(1, 0, Some(7)).unwrap();
    m.transfer(1, 2, 0).unwrap();
    assert_eq!(m.kitty_price(0), Some(7));
    assert_eq!(m.check_buy(0, 7), Ok((2, 7)));
}

#[test]
fn error_messages() {
    assert_eq!(Error::KittiesCountOverflow.message(), "Kitties count overflow");
    assert_eq!(Error::NeedsDifferentParent.message(), "Needs different parent");
    assert_eq!(Error::NotOwnerToTransfer.message(), "Only owner can transfer kitty");
    assert_eq!(Error::NotOwnerToSetPrice.message(), "Only owner can set price for kitty");
    assert_eq!(Error::KittyNotExist.message(), "Kitty does not exist");
    assert_eq!(Error::KittyNotForSale.message(), "Kitty not for sale");
    assert_eq!(Error::PriceTooLow.message(), "Price is too low");
}

#[test]
fn new_module_is_empty() {
    let m = Module::new();
    assert_eq!(m.kitties_count(), 0);
    assert!(m.kitty(0).is_none());
    let k: Option<Kitty> = m.kitty(u32::MAX);
    assert!(k.is_none());
}

#[test]
fn sender_keeps_empty_head_after_last_kitty_leaves() {
    let mut m = Module::new();
    m.create_with_dna(1, [0u8; 16]).unwrap();
    m.transfer(1, 2, 0).unwrap();
    assert_eq!(m.owned_kitties().get(&(1, None)), Some(LinkedItem { prev: None, next: None }));
    assert_eq!(m.owned_kitties().get(&(2, None)), Some(LinkedItem { prev: Some(0), next: Some(0) }));
    assert_eq!(m.owned_kitties().get(&(3, None)), None);
    m.create_with_dna(4, [0u8; 16]).unwrap();
    assert_eq!(m.owned_kitties().get(&(1, None)), Some(LinkedItem { prev: None, next: None }));
}

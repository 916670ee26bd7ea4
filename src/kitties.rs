use crate::dna::{blake2_128_of, breed_dna, dna_bred, entropy_payload, random_value, BlockContext, Kitty};
use crate::linked_item::OwnedKitties;
use std::collections::HashMap;
use vstd::prelude::*;

verus! {

broadcast use vstd::std_specs::hash::group_hash_axioms;

/// Why a call on the kitties module was refused.
#[derive(Clone, Copy, PartialEq, Eq, Debug, Structural)]
pub enum Error {
    KittiesCountOverflow,
    InvalidKittyId1,
    InvalidKittyId2,
    NeedsDifferentParent,
    NotOwnerOfKitty1,
    NotOwnerOfKitty2,
    NotOwnerToTransfer,
    NotOwnerToSetPrice,
    KittyNotExist,
    KittyNotForSale,
    PriceTooLow,
}

impl Error {
    /// The message the chain reports for this error.
    pub fn message(&self) -> &'static str {
        match self {
            Error::KittiesCountOverflow => "Kitties count overflow",
            Error::InvalidKittyId1 => "Invalid kitty_id_1",
            Error::InvalidKittyId2 => "Invalid kitty_id_2",
            Error::NeedsDifferentParent => "Needs different parent",
            Error::NotOwnerOfKitty1 => "Not onwer of kitty1",
            Error::NotOwnerOfKitty2 => "Not onwer of kitty2",
            Error::NotOwnerToTransfer => "Only owner can transfer kitty",
            Error::NotOwnerToSetPrice => "Only owner can set price for kitty",
            Error::KittyNotExist => "Kitty does not exist",
            Error::KittyNotForSale => "Kitty not for sale",
            Error::PriceTooLow => "Price is too low",
        }
    }
}

/// What a successful call of the kitties module announces.
#[derive(Clone, Copy, PartialEq, Eq, Debug, Structural)]
pub enum Event {
    /// A kitty was created: (owner, kitty).
    Created(u64, u32),
    /// A kitty changed hands: (from, to, kitty).
    Transferred(u64, u64, u32),
    /// An owner set or withdrew the asking price: (owner, kitty, price).
    Ask(u64, u32, Option<u128>),
    /// A kitty was sold: (seller, buyer, kitty, price paid).
    Sold(u64, u64, u32, u128),
}

/// The value under `k`, if `m` holds one.
pub open spec fn entry<V>(m: Map<u32, V>, k: u32) -> Option<V> {
    if m.contains_key(k) {
        Some(m[k])
    } else {
        None
    }
}

/// The kitties, their owners and asking prices, and each account's list of
/// kitties.
pub struct Module {
    kitties: HashMap<u32, Kitty>,
    kitties_count: u32,
    owned_kitties: OwnedKitties,
    kitty_owners: HashMap<u32, u64>,
    kitty_prices: HashMap<u32, u128>,
}

/// `after` is `before` with `kitty` added under `kitty_id` for `owner`, at
/// the end of the owner's list.
pub open spec fn kitty_added(before: Module, after: Module, owner: u64, kitty_id: u32, kitty: Kitty) -> bool {
    &&& after.kitties_map() == before.kitties_map().insert(kitty_id, kitty)
    &&& after.count() == before.count() + 1
    &&& after.owners() == before.owners().insert(kitty_id, owner)
    &&& after.prices() == before.prices()
    &&& after.index().owned(owner) == before.index().owned(owner).push(kitty_id)
    &&& forall|b: u64| b != owner ==> #[trigger] after.index().owned(b) == before.index().owned(b)
    &&& after.index().stored(owner, None).is_some()
    &&& forall|b: u64, k: Option<u32>|
        b != owner ==> #[trigger] after.index().stored(b, k) == before.index().stored(b, k)
}

/// The list of `b` once `kitty_id` has moved from `from` to the end of the
/// list of `to`.
pub open spec fn owned_after_move(before: Module, from: u64, to: u64, kitty_id: u32, b: u64) -> Seq<u32> {
    let kept = if b == from {
        before.index().owned(b).remove_value(kitty_id)
    } else {
        before.index().owned(b)
    };
    if b == to {
        kept.push(kitty_id)
    } else {
        kept
    }
}

/// `after` is `before` with `kitty_id` moved from `from` to `to`.
pub open spec fn kitty_moved(before: Module, after: Module, from: u64, to: u64, kitty_id: u32) -> bool {
    &&& after.kitties_map() == before.kitties_map()
    &&& after.count() == before.count()
    &&& after.owners() == before.owners().insert(kitty_id, to)
    &&& forall|b: u64| #[trigger] after.index().owned(b) == owned_after_move(before, from, to, kitty_id, b)
    &&& after.index().stored(from, None).is_some()
    &&& after.index().stored(to, None).is_some()
    &&& forall|b: u64, k: Option<u32>|
        b != from && b != to ==> #[trigger] after.index().stored(b, k) == before.index().stored(b, k)
}

proof fn lemma_remove_value_contains(s: Seq<u32>, v: u32, x: u32)
    requires
        x != v,
    ensures
        s.remove_value(v).contains(x) <==> s.contains(x),
{
    s.index_of_first_ensures(v);
    if s.contains(v) {
        let j = s.index_of_first(v).unwrap();
        s.remove_ensures(j);
        let r = s.remove(j);
        if s.contains(x) {
            let i = choose|i: int| 0 <= i < s.len() && s[i] == x;
            assert(i != j);
            if i < j {
                assert(r[i] == x);
            } else {
                assert(r[i - 1] == x);
            }
        }
        if r.contains(x) {
            let i = choose|i: int| 0 <= i < r.len() && r[i] == x;
            if i < j {
                assert(s[i] == x);
            } else {
                assert(s[i + 1] == x);
            }
        }
    }
}

impl Module {
    /// The kitties by id.
    pub closed spec fn kitties_map(self) -> Map<u32, Kitty> {
        self.kitties@
    }

    /// How many kitties were ever created; the next kitty gets this id.
    pub closed spec fn count(self) -> u32 {
        self.kitties_count
    }

    /// The owner of each kitty.
    pub closed spec fn owners(self) -> Map<u32, u64> {
        self.kitty_owners@
    }

    /// The asking price of each kitty that is for sale.
    pub closed spec fn prices(self) -> Map<u32, u128> {
        self.kitty_prices@
    }

    /// The per-account lists of kitties.
    pub closed spec fn index(self) -> OwnedKitties {
        self.owned_kitties
    }

    /// Kitties are numbered from 0 up to the count; each has an owner, in
    /// whose list alone it stands; only kitties that exist have a price.
    pub open spec fn wf(self) -> bool {
        &&& self.index().wf()
        &&& forall|id: u32| #[trigger] self.kitties_map().contains_key(id) <==> id < self.count()
        &&& forall|id: u32| #[trigger] self.owners().contains_key(id) <==> id < self.count()
        &&& forall|a: u64, id: u32|
            #[trigger] self.index().owned(a).contains(id) <==> (self.owners().contains_key(id)
                && self.owners()[id] == a)
        &&& forall|id: u32| #[trigger] self.prices().contains_key(id) ==> id < self.count()
    }

    /// A module with no kitties.
    pub fn new() -> (r: Module)
        ensures
            r.wf(),
            r.count() == 0,
            r.kitties_map().is_empty(),
            r.owners().is_empty(),
            r.prices().is_empty(),
            forall|a: u64| r.index().owned(a).len() == 0,
    {
        let r = Module {
            kitties: HashMap::new(),
            kitties_count: 0,
            owned_kitties: OwnedKitties::new(),
            kitty_owners: HashMap::new(),
            kitty_prices: HashMap::new(),
        };
        proof {
            assert forall|a: u64, id: u32| #[trigger] r.index().owned(a).contains(id) <==> (
            r.owners().contains_key(id) && r.owners()[id] == a) by {
                assert(r.index().owned(a).len() == 0);
            }
        }
        r
    }

    /// The kitty with id `kitty_id`.
    pub fn kitty(&self, kitty_id: u32) -> (r: Option<Kitty>)
        ensures
            r == entry(self.kitties_map(), kitty_id),
    {
        match self.kitties.get(&kitty_id) {
            Some(k) => Some(*k),
            None => None,
        }
    }

    /// How many kitties were created.
    pub fn kitties_count(&self) -> (r: u32)
        ensures
            r == self.count(),
    {
        self.kitties_count
    }

    /// The owner of `kitty_id`.
    pub fn kitty_owner(&self, kitty_id: u32) -> (r: Option<u64>)
        ensures
            r == entry(self.owners(), kitty_id),
    {
        match self.kitty_owners.get(&kitty_id) {
            Some(o) => Some(*o),
            None => None,
        }
    }

    /// The asking price of `kitty_id`.
    pub fn kitty_price(&self, kitty_id: u32) -> (r: Option<u128>)
        ensures
            r == entry(self.prices(), kitty_id),
    {
        match self.kitty_prices.get(&kitty_id) {
            Some(p) => Some(*p),
            None => None,
        }
    }

    /// The per-account lists of kitties.
    pub fn owned_kitties(&self) -> (r: &OwnedKitties)
        ensures
            *r == self.index(),
    {
        &self.owned_kitties
    }

    /// The id the next kitty gets, unless every id is taken.
    pub fn next_kitty_id(&self) -> (r: Result<u32, Error>)
        ensures
            r == if self.count() == u32::MAX {
                Err(Error::KittiesCountOverflow)
            } else {
                Ok(self.count())
            },
    {
        if self.kitties_count == u32::MAX {
            Err(Error::KittiesCountOverflow)
        } else {
            Ok(self.kitties_count)
        }
    }

    fn insert_kitty(&mut self, owner: u64, kitty_id: u32, kitty: Kitty)
        requires
            old(self).wf(),
            kitty_id == old(self).count(),
            old(self).count() < u32::MAX,
        ensures
            final(self).wf(),
            kitty_added(*old(self), *final(self), owner, kitty_id, kitty),
    {
        let ghost before = *self;
        proof {
            assert(!self.owners().contains_key(kitty_id));
            assert(!self.index().owned(owner).contains(kitty_id));
        }
        self.kitties.insert(kitty_id, kitty);
        self.kitties_count = kitty_id + 1;
        self.kitty_owners.insert(kitty_id, owner);
        self.owned_kitties.append(&owner, kitty_id);
        proof {
            assert forall|a: u64, id: u32| #[trigger] self.index().owned(a).contains(id) <==> (
            self.owners().contains_key(id) && self.owners()[id] == a) by {
                assert(before.index().owned(a).contains(id) <==> (before.owners().contains_key(id)
                    && before.owners()[id] == a));
                if a != owner {
                    assert(self.index().owned(a) == before.index().owned(a));
                }
                if a == owner {
                    let s = before.index().owned(a);
                    assert(self.index().owned(a) == s.push(kitty_id));
                    if s.contains(id) {
                        let i = choose|i: int| 0 <= i < s.len() && s[i] == id;
                        assert(s.push(kitty_id)[i] == id);
                    }
                    if id == kitty_id {
                        assert(s.push(kitty_id)[s.len() as int] == id);
                    }
                    if s.push(kitty_id).contains(id) && id != kitty_id {
                        let i = choose|i: int| 0 <= i < s.len() + 1 && s.push(kitty_id)[i] == id;
                        assert(s[i] == id);
                    }
                }
            }
            assert(self.index().wf());
            assert forall|id: u32| #[trigger] self.kitties_map().contains_key(id) <==> id < self.count() by {
                assert(before.kitties_map().contains_key(id) <==> id < before.count());
            }
            assert forall|id: u32| #[trigger] self.owners().contains_key(id) <==> id < self.count() by {}
            assert forall|id: u32| #[trigger] self.prices().contains_key(id) implies id < self.count() by {
                assert(before.prices().contains_key(id));
            }
        }
    }

    /// Creates a kitty with the genes `dna` for `sender`.
    pub fn create_with_dna(&mut self, sender: u64, dna: [u8; 16]) -> (r: Result<Event, Error>)
        requires
            old(self).wf(),
        ensures
            final(self).wf(),
            old(self).count() == u32::MAX ==> r == Err::<Event, Error>(Error::KittiesCountOverflow)
                && *final(self) == *old(self),
            old(self).count() < u32::MAX ==> r == Ok::<Event, Error>(
                Event::Created(sender, old(self).count()),
            ) && kitty_added(*old(self), *final(self), sender, old(self).count(), Kitty(dna)),
    {
        let kitty_id = match self.next_kitty_id() {
            Ok(id) => id,
            Err(e) => {
                return Err(e);
            },
        };
        self.insert_kitty(sender, kitty_id, Kitty(dna));
        Ok(Event::Created(sender, kitty_id))
    }

    /// Creates a kitty for `sender` with genes drawn from the block's
    /// entropy.
    pub fn create(&mut self, sender: u64, ctx: &BlockContext) -> (r: Result<Event, Error>)
        requires
            old(self).wf(),
        ensures
            final(self).wf(),
            old(self).count() == u32::MAX ==> r == Err::<Event, Error>(Error::KittiesCountOverflow)
                && *final(self) == *old(self),
            old(self).count() < u32::MAX ==> {
                let id = old(self).count();
                &&& r == Ok::<Event, Error>(Event::Created(sender, id))
                &&& kitty_added(*old(self), *final(self), sender, id, final(self).kitties_map()[id])
                &&& final(self).kitties_map()[id].0@ == blake2_128_of(entropy_payload(*ctx, sender))
            },
    {
        let dna = random_value(ctx, sender);
        self.create_with_dna(sender, dna)
    }

    /// Why breeding `kitty_id_1` with `kitty_id_2` for `sender` is refused,
    /// checked in this order; `None` when it may go ahead.
    pub open spec fn breed_error(self, sender: u64, kitty_id_1: u32, kitty_id_2: u32) -> Option<Error> {
        if !self.kitties_map().contains_key(kitty_id_1) {
            Some(Error::InvalidKittyId1)
        } else if !self.kitties_map().contains_key(kitty_id_2) {
            Some(Error::InvalidKittyId2)
        } else if kitty_id_1 == kitty_id_2 {
            Some(Error::NeedsDifferentParent)
        } else if entry(self.owners(), kitty_id_1) != Some(sender) {
            Some(Error::NotOwnerOfKitty1)
        } else if entry(self.owners(), kitty_id_2) != Some(sender) {
            Some(Error::NotOwnerOfKitty2)
        } else if self.count() == u32::MAX {
            Some(Error::KittiesCountOverflow)
        } else {
            None
        }
    }

    /// Breeds a child of two kitties of `sender`, its genes mixed under
    /// `selector`.
    pub fn breed_with(&mut self, sender: u64, kitty_id_1: u32, kitty_id_2: u32, selector: &[u8; 16]) -> (r: Result<Event, Error>)
        requires
            old(self).wf(),
        ensures
            final(self).wf(),
            match old(self).breed_error(sender, kitty_id_1, kitty_id_2) {
                Some(e) => r == Err::<Event, Error>(e) && *final(self) == *old(self),
                None => {
                    let id = old(self).count();
                    let child = final(self).kitties_map()[id];
                    &&& r == Ok::<Event, Error>(Event::Created(sender, id))
                    &&& kitty_added(*old(self), *final(self), sender, id, child)
                    &&& dna_bred(
                        child.0@,
                        old(self).kitties_map()[kitty_id_1].0@,
                        old(self).kitties_map()[kitty_id_2].0@,
                        selector@,
                    )
                },
            },
    {
        let kitty1 = self.kitty(kitty_id_1);
        let kitty2 = self.kitty(kitty_id_2);
        if kitty1.is_none() {
            return Err(Error::InvalidKittyId1);
        }
        if kitty2.is_none() {
            return Err(Error::InvalidKittyId2);
        }
        if kitty_id_1 == kitty_id_2 {
            return Err(Error::NeedsDifferentParent);
        }
        let owner1 = self.kitty_owner(kitty_id_1);
        if !(owner1.is_some() && owner1.unwrap() == sender) {
            return Err(Error::NotOwnerOfKitty1);
        }
        let owner2 = self.kitty_owner(kitty_id_2);
        if !(owner2.is_some() && owner2.unwrap() == sender) {
            return Err(Error::NotOwnerOfKitty2);
        }
        let kitty_id = match self.next_kitty_id() {
            Ok(id) => id,
            Err(e) => {
                return Err(e);
            },
        };
        let child = breed_dna(&kitty1.unwrap().0, &kitty2.unwrap().0, selector);
        self.insert_kitty(sender, kitty_id, Kitty(child));
        Ok(Event::Created(sender, kitty_id))
    }

    /// Breeds a child of two kitties of `sender`, its genes mixed under a
    /// selector drawn from the block's entropy.
    pub fn breed(&mut self, sender: u64, kitty_id_1: u32, kitty_id_2: u32, ctx: &BlockContext) -> (r: Result<Event, Error>)
        requires
            old(self).wf(),
        ensures
            final(self).wf(),
            match old(self).breed_error(sender, kitty_id_1, kitty_id_2) {
                Some(e) => r == Err::<Event, Error>(e) && *final(self) == *old(self),
                None => {
                    let id = old(self).count();
                    let child = final(self).kitties_map()[id];
                    &&& r == Ok::<Event, Error>(Event::Created(sender, id))
                    &&& kitty_added(*old(self), *final(self), sender, id, child)
                    &&& dna_bred(
                        child.0@,
                        old(self).kitties_map()[kitty_id_1].0@,
                        old(self).kitties_map()[kitty_id_2].0@,
                        blake2_128_of(entropy_payload(*ctx, sender)),
                    )
                },
            },
    {
        let selector = random_value(ctx, sender);
        self.breed_with(sender, kitty_id_1, kitty_id_2, &selector)
    }

    fn do_transfer(&mut self, from: u64, to: u64, kitty_id: u32)
        requires
            old(self).wf(),
            entry(old(self).owners(), kitty_id) == Some(from),
        ensures
            final(self).wf(),
            kitty_moved(*old(self), *final(self), from, to, kitty_id),
            final(self).prices() == old(self).prices(),
    {
        let ghost before = *self;
        proof {
            assert(before.index().owned(from).contains(kitty_id));
            if before.index().stored(from, None).is_none() {
                assert(before.index().owned(from).len() == 0);
            }
        }
        self.owned_kitties.remove(&from, kitty_id);
        proof {
            if to != from {
                assert(self.index().owned(to) == before.index().owned(to));
                assert(!before.index().owned(to).contains(kitty_id));
            }
        }
        self.owned_kitties.append(&to, kitty_id);
        self.kitty_owners.insert(kitty_id, to);
        proof {
            assert forall|b: u64| #[trigger] self.index().owned(b) == owned_after_move(before, from, to, kitty_id, b) by {
            }
            assert forall|a: u64, id: u32| #[trigger] self.index().owned(a).contains(id) <==> (
            self.owners().contains_key(id) && self.owners()[id] == a) by {
                assert(before.index().owned(a).contains(id) <==> (before.owners().contains_key(id)
                    && before.owners()[id] == a));
                let s = before.index().owned(a);
                let kept = if a == from {
                    s.remove_value(kitty_id)
                } else {
                    s
                };
                if id != kitty_id && a == from {
                    lemma_remove_value_contains(s, kitty_id, id);
                }
                if a == to {
                    if kept.contains(id) {
                        let i = choose|i: int| 0 <= i < kept.len() && kept[i] == id;
                        assert(kept.push(kitty_id)[i] == id);
                    }
                    if id == kitty_id {
                        assert(kept.push(kitty_id)[kept.len() as int] == id);
                    }
                    if kept.push(kitty_id).contains(id) && id != kitty_id {
                        let i = choose|i: int| 0 <= i < kept.len() + 1 && kept.push(kitty_id)[i] == id;
                        assert(kept[i] == id);
                    }
                } else if a == from {
                    assert(!self.index().owned(a).contains(kitty_id));
                }
            }
            assert forall|id: u32| #[trigger] self.owners().contains_key(id) <==> id < self.count() by {
                assert(before.owners().contains_key(id) <==> id < before.count());
            }
            assert forall|id: u32| #[trigger] self.kitties_map().contains_key(id) <==> id < self.count() by {
                assert(before.kitties_map().contains_key(id) <==> id < before.count());
            }
            assert forall|id: u32| #[trigger] self.prices().contains_key(id) implies id < self.count() by {
                assert(before.prices().contains_key(id));
            }
        }
    }

    /// Hands `kitty_id` from `sender`, who must own it, to `to`.
    pub fn transfer(&mut self, sender: u64, to: u64, kitty_id: u32) -> (r: Result<Event, Error>)
        requires
            old(self).wf(),
        ensures
            final(self).wf(),
            entry(old(self).owners(), kitty_id) != Some(sender) ==> r == Err::<Event, Error>(
                Error::NotOwnerToTransfer,
            ) && *final(self) == *old(self),
            entry(old(self).owners(), kitty_id) == Some(sender) ==> r == Ok::<Event, Error>(
                Event::Transferred(sender, to, kitty_id),
            ) && kitty_moved(*old(self), *final(self), sender, to, kitty_id) && final(self).prices()
                == old(self).prices(),
    {
        if !self.owned_kitties.contains(&sender, kitty_id) {
            return Err(Error::NotOwnerToTransfer);
        }
        self.do_transfer(sender, to, kitty_id);
        Ok(Event::Transferred(sender, to, kitty_id))
    }

    /// Lets the owner of `kitty_id` put it up for sale at `price`, or take
    /// it off sale with `None`.
    pub fn ask(&mut self, sender: u64, kitty_id: u32, price: Option<u128>) -> (r: Result<Event, Error>)
        requires
            old(self).wf(),
        ensures
            final(self).wf(),
            entry(old(self).owners(), kitty_id) != Some(sender) ==> r == Err::<Event, Error>(
                Error::NotOwnerToSetPrice,
            ) && *final(self) == *old(self),
            entry(old(self).owners(), kitty_id) == Some(sender) ==> {
                &&& r == Ok::<Event, Error>(Event::Ask(sender, kitty_id, price))
                &&& final(self).prices() == match price {
                    Some(p) => old(self).prices().insert(kitty_id, p),
                    None => old(self).prices().remove(kitty_id),
                }
                &&& final(self).kitties_map() == old(self).kitties_map()
                &&& final(self).count() == old(self).count()
                &&& final(self).owners() == old(self).owners()
                &&& final(self).index() == old(self).index()
            },
    {
        if !self.owned_kitties.contains(&sender, kitty_id) {
            return Err(Error::NotOwnerToSetPrice);
        }
        let ghost before = *self;
        proof {
            assert(kitty_id < self.count());
        }
        match price {
            Some(p) => {
                self.kitty_prices.insert(kitty_id, p);
            },
            None => {
                self.kitty_prices.remove(&kitty_id);
            },
        }
        proof {
            assert forall|id: u32| #[trigger] self.prices().contains_key(id) implies id < self.count() by {
                if id != kitty_id {
                    assert(before.prices().contains_key(id));
                }
            }
            assert forall|id: u32| #[trigger] self.kitties_map().contains_key(id) <==> id < self.count() by {
                assert(before.kitties_map().contains_key(id) <==> id < before.count());
            }
            assert forall|id: u32| #[trigger] self.owners().contains_key(id) <==> id < self.count() by {
                assert(before.owners().contains_key(id) <==> id < before.count());
            }
            assert forall|a: u64, id: u32| #[trigger] self.index().owned(a).contains(id) <==> (
            self.owners().contains_key(id) && self.owners()[id] == a) by {
                assert(before.index().owned(a).contains(id) <==> (before.owners().contains_key(id)
                    && before.owners()[id] == a));
            }
        }
        Ok(Event::Ask(sender, kitty_id, price))
    }

    /// Whether `kitty_id` can be bought for an offer of `price`: the seller
    /// and the asking price to be paid, or why not.
    pub fn check_buy(&self, kitty_id: u32, price: u128) -> (r: Result<(u64, u128), Error>)
        ensures
            r == if !self.owners().contains_key(kitty_id) {
                Err::<(u64, u128), Error>(Error::KittyNotExist)
            } else if !self.prices().contains_key(kitty_id) {
                Err(Error::KittyNotForSale)
            } else if price < self.prices()[kitty_id] {
                Err(Error::PriceTooLow)
            } else {
                Ok((self.owners()[kitty_id], self.prices()[kitty_id]))
            },
    {
        let owner = match self.kitty_owner(kitty_id) {
            Some(o) => o,
            None => {
                return Err(Error::KittyNotExist);
            },
        };
        let kitty_price = match self.kitty_price(kitty_id) {
            Some(p) => p,
            None => {
                return Err(Error::KittyNotForSale);
            },
        };
        if price < kitty_price {
            return Err(Error::PriceTooLow);
        }
        Ok((owner, kitty_price))
    }

    /// Once `buyer` has paid the asking price, takes `kitty_id` off sale
    /// and hands it from its owner to `buyer`.
    pub fn complete_buy(&mut self, buyer: u64, kitty_id: u32) -> (r: Result<Event, Error>)
        requires
            old(self).wf(),
        ensures
            final(self).wf(),
            !old(self).owners().contains_key(kitty_id) ==> r == Err::<Event, Error>(
                Error::KittyNotExist,
            ) && *final(self) == *old(self),
            old(self).owners().contains_key(kitty_id) && !old(self).prices().contains_key(kitty_id)
                ==> r == Err::<Event, Error>(Error::KittyNotForSale) && *final(self) == *old(self),
            old(self).owners().contains_key(kitty_id) && old(self).prices().contains_key(kitty_id)
                ==> {
                let seller = old(self).owners()[kitty_id];
                &&& r == Ok::<Event, Error>(
                    Event::Sold(seller, buyer, kitty_id, old(self).prices()[kitty_id]),
                )
                &&& final(self).prices() == old(self).prices().remove(kitty_id)
                &&& kitty_moved(*old(self), *final(self), seller, buyer, kitty_id)
            },
    {
        let owner = match self.kitty_owner(kitty_id) {
            Some(o) => o,
            None => {
                return Err(Error::KittyNotExist);
            },
        };
        let kitty_price = match self.kitty_price(kitty_id) {
            Some(p) => p,
            None => {
                return Err(Error::KittyNotForSale);
            },
        };
        let ghost before = *self;
        self.kitty_prices.remove(&kitty_id);
        proof {
            assert forall|id: u32| #[trigger] self.prices().contains_key(id) implies id < self.count() by {
                assert(before.prices().contains_key(id));
            }
            assert forall|id: u32| #[trigger] self.kitties_map().contains_key(id) <==> id < self.count() by {
                assert(before.kitties_map().contains_key(id) <==> id < before.count());
            }
            assert forall|id: u32| #[trigger] self.owners().contains_key(id) <==> id < self.count() by {
                assert(before.owners().contains_key(id) <==> id < before.count());
            }
            assert forall|a: u64, id: u32| #[trigger] self.index().owned(a).contains(id) <==> (
            self.owners().contains_key(id) && self.owners()[id] == a) by {
                assert(before.index().owned(a).contains(id) <==> (before.owners().contains_key(id)
                    && before.owners()[id] == a));
            }
        }
        self.do_transfer(owner, buyer, kitty_id);
        Ok(Event::Sold(owner, buyer, kitty_id, kitty_price))
    }
}

} // verus!

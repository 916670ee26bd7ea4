use vstd::prelude::*;

verus! {

/// Why a claim could not be created or revoked.
#[derive(Clone, Copy, PartialEq, Eq, Debug, Structural)]
pub enum Error {
    ProofAlreadyExist,
    ClaimNotExist,
    NotClaimOwner,
}

/// What a successful call of the registry announces: the account and the
/// claimed bytes.
#[derive(Clone, PartialEq, Eq, Debug)]
pub enum Event {
    ClaimCreated(u64, Vec<u8>),
    ClaimRevoked(u64, Vec<u8>),
}

struct Record {
    claim: Vec<u8>,
    owner: u64,
    block_number: u64,
}

/// Whether two byte strings are equal.
pub fn bytes_equal(a: &[u8], b: &[u8]) -> (r: bool)
    ensures
        r == (a@ == b@),
{
    if a.len() != b.len() {
        return false;
    }
    let mut i: usize = 0;
    while i < a.len()
        invariant
            a@.len() == b@.len(),
            i <= a@.len(),
            a@.subrange(0, i as int) == b@.subrange(0, i as int),
        decreases a@.len() - i,
    {
        if a[i] != b[i] {
            assert(a@[i as int] != b@[i as int]);
            return false;
        }
        assert(a@.subrange(0, i + 1) == a@.subrange(0, i as int).push(a@[i as int]));
        assert(b@.subrange(0, i + 1) == b@.subrange(0, i as int).push(b@[i as int]));
        i = i + 1;
    }
    assert(a@ == a@.subrange(0, a@.len() as int));
    assert(b@ == b@.subrange(0, b@.len() as int));
    true
}

/// A registry of proofs of existence: each claimed byte string with the
/// account that claimed it and the block it was claimed in.
pub struct Module {
    records: Vec<Record>,
    view: Ghost<Map<Seq<u8>, (u64, u64)>>,
}

impl Module {
    /// Each claim with its (owner, block number).
    pub closed spec fn claims(self) -> Map<Seq<u8>, (u64, u64)> {
        self.view@
    }

    /// The records hold each claim of the map once, with its owner and
    /// block.
    pub closed spec fn wf(self) -> bool {
        &&& forall|i: int|
            0 <= i < self.records@.len() ==> {
                let r = #[trigger] self.records@[i];
                &&& self.view@.contains_key(r.claim@)
                &&& self.view@[r.claim@] == (r.owner, r.block_number)
            }
        &&& forall|k: Seq<u8>|
            #[trigger] self.view@.contains_key(k) ==> exists|i: int|
                0 <= i < self.records@.len() && #[trigger] self.records@[i].claim@ == k
        &&& forall|i: int, j: int|
            0 <= i < self.records@.len() && 0 <= j < self.records@.len() && i != j
                ==> #[trigger] self.records@[i].claim@ != #[trigger] self.records@[j].claim@
    }

    /// An empty registry.
    pub fn new() -> (r: Module)
        ensures
            r.wf(),
            r.claims().is_empty(),
    {
        Module { records: Vec::new(), view: Ghost(Map::empty()) }
    }

    fn find(&self, claim: &[u8]) -> (r: Option<usize>)
        requires
            self.wf(),
        ensures
            r.is_some() <==> self.claims().contains_key(claim@),
            r.is_some() ==> r.unwrap() < self.records@.len() && self.records@[r.unwrap() as int].claim@
                == claim@,
    {
        let mut i: usize = 0;
        while i < self.records.len()
            invariant
                self.wf(),
                i <= self.records@.len(),
                forall|j: int| 0 <= j < i ==> #[trigger] self.records@[j].claim@ != claim@,
            decreases self.records@.len() - i,
        {
            if bytes_equal(self.records[i].claim.as_slice(), claim) {
                let ghost r = self.records@[i as int];
                assert(self.view@.contains_key(r.claim@));
                return Some(i);
            }
            i = i + 1;
        }
        proof {
            if self.view@.contains_key(claim@) {
                let j = choose|j: int|
                    0 <= j < self.records@.len() && #[trigger] self.records@[j].claim@ == claim@;
                assert(self.records@[j].claim@ != claim@);
            }
        }
        None
    }

    /// The owner and block of `claim`, if it was claimed.
    pub fn proofs(&self, claim: &[u8]) -> (r: Option<(u64, u64)>)
        requires
            self.wf(),
        ensures
            r == if self.claims().contains_key(claim@) {
                Some(self.claims()[claim@])
            } else {
                None
            },
    {
        match self.find(claim) {
            Some(i) => {
                let ghost rec = self.records@[i as int];
                assert(self.view@[rec.claim@] == (rec.owner, rec.block_number));
                Some((self.records[i].owner, self.records[i].block_number))
            },
            None => None,
        }
    }

    /// Records `claim` for `sender` in block `block_number`, unless it was
    /// claimed before.
    pub fn create_claim(&mut self, sender: u64, claim: Vec<u8>, block_number: u64) -> (r: Result<Event, Error>)
        requires
            old(self).wf(),
        ensures
            final(self).wf(),
            old(self).claims().contains_key(claim@) ==> r == Err::<Event, Error>(Error::ProofAlreadyExist)
                && final(self).claims() == old(self).claims(),
            !old(self).claims().contains_key(claim@) ==> final(self).claims() == old(self).claims().insert(
                claim@,
                (sender, block_number),
            ) && match r {
                Ok(Event::ClaimCreated(who, c)) => who == sender && c@ == claim@,
                _ => false,
            },
    {
        if self.find(claim.as_slice()).is_some() {
            return Err(Error::ProofAlreadyExist);
        }
        let announced = claim.clone();
        let ghost before = self.records@;
        let ghost key = claim@;
        self.records.push(Record { claim, owner: sender, block_number });
        proof {
            self.view@ = self.view@.insert(key, (sender, block_number));
            let n = before.len() as int;
            assert(self.records@[n].claim@ == key);
            assert forall|k: Seq<u8>| #[trigger] self.view@.contains_key(k) implies exists|i: int|
                0 <= i < self.records@.len() && #[trigger] self.records@[i].claim@ == k by {
                if k != key {
                    let i = choose|i: int| 0 <= i < before.len() && #[trigger] before[i].claim@ == k;
                    assert(self.records@[i].claim@ == k);
                }
            }
            assert forall|i: int, j: int|
                0 <= i < self.records@.len() && 0 <= j < self.records@.len() && i != j
                implies #[trigger] self.records@[i].claim@ != #[trigger] self.records@[j].claim@ by {
                if i == n {
                    assert(old(self).view@.contains_key(before[j].claim@));
                } else if j == n {
                    assert(old(self).view@.contains_key(before[i].claim@));
                }
            }
        }
        Ok(Event::ClaimCreated(sender, announced))
    }

    /// Withdraws `claim`, which only the account that made it may do.
    pub fn revoke_claim(&mut self, sender: u64, claim: Vec<u8>) -> (r: Result<Event, Error>)
        requires
            old(self).wf(),
        ensures
            final(self).wf(),
            !old(self).claims().contains_key(claim@) ==> r == Err::<Event, Error>(Error::ClaimNotExist)
                && final(self).claims() == old(self).claims(),
            old(self).claims().contains_key(claim@) && old(self).claims()[claim@].0 != sender ==> r
                == Err::<Event, Error>(Error::NotClaimOwner) && final(self).claims() == old(self).claims(),
            old(self).claims().contains_key(claim@) && old(self).claims()[claim@].0 == sender
                ==> final(self).claims() == old(self).claims().remove(claim@) && match r {
                Ok(Event::ClaimRevoked(who, c)) => who == sender && c@ == claim@,
                _ => false,
            },
    {
        let i = match self.find(claim.as_slice()) {
            Some(i) => i,
            None => {
                return Err(Error::ClaimNotExist);
            },
        };
        proof {
            let rec = self.records@[i as int];
            assert(self.view@[rec.claim@] == (rec.owner, rec.block_number));
        }
        if self.records[i].owner != sender {
            return Err(Error::NotClaimOwner);
        }
        let ghost before = self.records@;
        let ghost key = claim@;
        let _ = self.records.remove(i);
        proof {
            self.view@ = self.view@.remove(key);
            let s = self.records@;
            assert forall|x: int| 0 <= x < s.len() implies #[trigger] s[x] == before[if x < i {
                x
            } else {
                x + 1
            }] by {}
            assert forall|x: int| 0 <= x < s.len() implies {
                let r = #[trigger] s[x];
                &&& self.view@.contains_key(r.claim@)
                &&& self.view@[r.claim@] == (r.owner, r.block_number)
            } by {
                let xs = if x < i { x } else { x + 1 };
                assert(s[x] == before[xs]);
                assert(before[xs].claim@ != before[i as int].claim@);
            }
            assert forall|k: Seq<u8>| #[trigger] self.view@.contains_key(k) implies exists|x: int|
                0 <= x < s.len() && #[trigger] s[x].claim@ == k by {
                let y = choose|y: int| 0 <= y < before.len() && #[trigger] before[y].claim@ == k;
                assert(y != i);
                let x = if y < i { y } else { y - 1 };
                assert(s[x] == before[y]);
            }
            assert forall|x: int, y: int|
                0 <= x < s.len() && 0 <= y < s.len() && x != y
                implies #[trigger] s[x].claim@ != #[trigger] s[y].claim@ by {
                let xs = if x < i { x } else { x + 1 };
                let ys = if y < i { y } else { y + 1 };
                assert(s[x] == before[xs] && s[y] == before[ys]);
            }
        }
        Ok(Event::ClaimRevoked(sender, claim))
    }
}

} // verus!

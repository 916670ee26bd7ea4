use std::collections::HashMap;
use vstd::prelude::*;

verus! {

broadcast use vstd::std_specs::hash::group_hash_axioms;

/// One link of an account's list of kitties. The head of the list (stored
/// under no kitty) points back to the last kitty and on to the first; a
/// kitty's link has `None` where it borders the head.
#[derive(Clone, Copy, PartialEq, Eq, Debug, Structural)]
pub struct LinkedItem {
    pub prev: Option<u32>,
    pub next: Option<u32>,
}

/// The head link of the list holding `s`.
pub open spec fn head_item(s: Seq<u32>) -> LinkedItem {
    if s.len() == 0 {
        LinkedItem { prev: None, next: None }
    } else {
        LinkedItem { prev: Some(s.last()), next: Some(s[0]) }
    }
}

/// The link of the kitty at position `j` of `s`.
pub open spec fn node_item(s: Seq<u32>, j: int) -> LinkedItem {
    LinkedItem {
        prev: if j == 0 {
            None
        } else {
            Some(s[j - 1])
        },
        next: if j + 1 >= s.len() {
            None
        } else {
            Some(s[j + 1])
        },
    }
}

/// What the list holding `s` stores under `key`: the head under `None`, the
/// kitty's link under a kitty of `s`, nothing under any other kitty.
pub open spec fn layout(s: Seq<u32>, key: Option<u32>) -> Option<LinkedItem> {
    match key {
        None => Some(head_item(s)),
        Some(i) => if s.contains(i) {
            Some(node_item(s, s.index_of(i)))
        } else {
            None
        },
    }
}

spec fn slot_tag(key: Option<u32>) -> int {
    match key {
        None => 0,
        Some(i) => i + 1,
    }
}

/// The map key under which the link of `(account, key)` is kept.
spec fn slot(account: u64, key: Option<u32>) -> u128 {
    (account * 0x2_0000_0000 + slot_tag(key)) as u128
}

proof fn lemma_slot_injective()
    ensures
        forall|a1: u64, k1: Option<u32>, a2: u64, k2: Option<u32>|
            #[trigger] slot(a1, k1) == #[trigger] slot(a2, k2) ==> a1 == a2 && k1 == k2,
{
    assert forall|a1: u64, k1: Option<u32>, a2: u64, k2: Option<u32>|
        #[trigger] slot(a1, k1) == #[trigger] slot(a2, k2) implies a1 == a2 && k1 == k2 by {
        assert(0 <= slot_tag(k1) < 0x2_0000_0000);
        assert(0 <= slot_tag(k2) < 0x2_0000_0000);
        assert(a1 == a2);
        assert(slot_tag(k1) == slot_tag(k2));
        match k1 {
            Some(i) => {},
            None => {},
        }
    }
}

fn slot_of(account: u64, key: Option<u32>) -> (r: u128)
    ensures
        r == slot(account, key),
{
    let tag: u128 = match key {
        None => 0,
        Some(i) => i as u128 + 1,
    };
    (account as u128) * 0x2_0000_0000 + tag
}

proof fn lemma_index_of(s: Seq<u32>, j: int)
    requires
        s.no_duplicates(),
        0 <= j < s.len(),
    ensures
        s.contains(s[j]),
        s.index_of(s[j]) == j,
{
    assert(s.contains(s[j]));
    let k = s.index_of(s[j]);
    assert(0 <= k < s.len() && s[k] == s[j]);
}

/// The kitties that each account owns, each account's kept as a doubly
/// linked list in one key-value store: appending and removing a kitty
/// rewrites at most three links.
pub struct OwnedKitties {
    slots: HashMap<u128, LinkedItem>,
    lists: Ghost<Map<u64, Seq<u32>>>,
}

impl OwnedKitties {
    /// The link stored under `(account, key)`, if any.
    pub closed spec fn stored(self, account: u64, key: Option<u32>) -> Option<LinkedItem> {
        if self.slots@.contains_key(slot(account, key)) {
            Some(self.slots@[slot(account, key)])
        } else {
            None
        }
    }

    /// The kitties of `account`, in the order they were appended.
    pub closed spec fn owned(self, account: u64) -> Seq<u32> {
        if self.lists@.contains_key(account) {
            self.lists@[account]
        } else {
            Seq::empty()
        }
    }

    /// Every account whose head was ever written stores exactly the links
    /// of its list; no kitty is listed twice; an account without a head owns
    /// nothing and stores nothing.
    pub open spec fn wf(self) -> bool {
        &&& forall|a: u64, k: Option<u32>|
            #[trigger] self.stored(a, k) == if self.stored(a, None).is_some() {
                layout(self.owned(a), k)
            } else {
                None
            }
        &&& forall|a: u64| #[trigger] self.owned(a).no_duplicates()
        &&& forall|a: u64| self.stored(a, None).is_none() ==> #[trigger] self.owned(a).len() == 0
    }

    /// An empty store: no account owns a kitty.
    pub fn new() -> (r: OwnedKitties)
        ensures
            r.wf(),
            forall|a: u64, k: Option<u32>| r.stored(a, k).is_none(),
            forall|a: u64| r.owned(a).len() == 0,
    {
        OwnedKitties { slots: HashMap::new(), lists: Ghost(Map::empty()) }
    }

    /// The link stored under `(account, key)`.
    pub fn get(&self, key: &(u64, Option<u32>)) -> (r: Option<LinkedItem>)
        ensures
            r == self.stored(key.0, key.1),
    {
        match self.slots.get(&slot_of(key.0, key.1)) {
            Some(item) => Some(*item),
            None => None,
        }
    }

    fn read(&self, account: u64, key: Option<u32>) -> (r: LinkedItem)
        ensures
            r == match self.stored(account, key) {
                Some(item) => item,
                None => LinkedItem { prev: None, next: None },
            },
    {
        match self.slots.get(&slot_of(account, key)) {
            Some(item) => *item,
            None => LinkedItem { prev: None, next: None },
        }
    }

    fn write(&mut self, account: u64, key: Option<u32>, item: LinkedItem)
        ensures
            final(self).lists == old(self).lists,
            forall|a: u64, k: Option<u32>|
                #[trigger] final(self).stored(a, k) == if a == account && k == key {
                    Some(item)
                } else {
                    old(self).stored(a, k)
                },
    {
        proof {
            lemma_slot_injective();
        }
        self.slots.insert(slot_of(account, key), item);
    }

    fn take(&mut self, account: u64, key: Option<u32>) -> (r: Option<LinkedItem>)
        ensures
            r == old(self).stored(account, key),
            final(self).lists == old(self).lists,
            forall|a: u64, k: Option<u32>|
                #[trigger] final(self).stored(a, k) == if a == account && k == key {
                    None
                } else {
                    old(self).stored(a, k)
                },
    {
        proof {
            lemma_slot_injective();
        }
        self.slots.remove(&slot_of(account, key))
    }

    /// Adds `kitty_id` at the end of the list of `account`.
    pub fn append(&mut self, account: &u64, kitty_id: u32)
        requires
            old(self).wf(),
            !old(self).owned(*account).contains(kitty_id),
        ensures
            final(self).wf(),
            final(self).owned(*account) == old(self).owned(*account).push(kitty_id),
            final(self).stored(*account, None).is_some(),
            forall|b: u64| b != *account ==> #[trigger] final(self).owned(b) == old(self).owned(b),
            forall|b: u64, k: Option<u32>|
                b != *account ==> #[trigger] final(self).stored(b, k) == old(self).stored(b, k),
    {
        let a = *account;
        let ghost s = self.owned(a);
        let ghost s2 = s.push(kitty_id);
        let ghost before = *self;
        let head = self.read(a, None);
        proof {
            assert(head == head_item(s));
            self.lists@ = self.lists@.insert(a, s2);
        }
        self.write(a, None, LinkedItem { prev: Some(kitty_id), next: head.next });
        let prev = self.read(a, head.prev);
        self.write(a, head.prev, LinkedItem { prev: prev.prev, next: Some(kitty_id) });
        self.write(a, Some(kitty_id), LinkedItem { prev: head.prev, next: None });
        proof {
            assert(s.no_duplicates());
            assert(s2.no_duplicates()) by {
                assert forall|x: int, y: int|
                    0 <= x < s2.len() && 0 <= y < s2.len() && x != y implies s2[x] != s2[y] by {
                    if x == s.len() {
                        assert(s2[y] == s[y]);
                        assert(s.contains(s[y]));
                    } else if y == s.len() {
                        assert(s2[x] == s[x]);
                        assert(s.contains(s[x]));
                    } else {
                        assert(s2[x] == s[x] && s2[y] == s[y]);
                    }
                }
            }
            lemma_index_of(s2, s.len() as int);
            if s.len() > 0 {
                lemma_index_of(s, s.len() - 1);
                assert(before.stored(a, Some(s.last())) == layout(s, Some(s.last())));
                assert(prev == node_item(s, s.len() - 1));
            } else {
                assert(prev == LinkedItem { prev: Some(kitty_id), next: None::<u32> });
            }
            assert forall|k: Option<u32>| #[trigger] self.stored(a, k) == layout(s2, k) by {
                match k {
                    None => {
                        assert(s2[0] == if s.len() > 0 { s[0] } else { kitty_id });
                        assert(self.stored(a, None) == layout(s2, None));
                    },
                    Some(i) => {
                        if i == kitty_id {
                            assert(self.stored(a, k) == layout(s2, k));
                        } else if s.contains(i) {
                            let j = s.index_of(i);
                            lemma_index_of(s, j);
                            lemma_index_of(s2, j);
                            if j + 1 < s.len() {
                                assert(s2[j + 1] == s[j + 1]);
                            }
                            if j > 0 {
                                assert(s2[j - 1] == s[j - 1]);
                            }
                            assert(before.stored(a, Some(i)) == layout(s, Some(i)));
                            assert(self.stored(a, k) == layout(s2, k));
                        } else {
                            assert(before.stored(a, Some(i)) == layout(s, Some(i)));
                            if s2.contains(i) {
                                let j = s2.index_of(i);
                                assert(j < s.len());
                                assert(s.contains(s2[j]));
                            }
                        }
                    },
                }
            }
            assert forall|b: u64| b != a implies #[trigger] self.owned(b) == before.owned(b) by {}
            assert forall|b: u64, k: Option<u32>| b != a implies #[trigger] self.stored(b, k)
                == before.stored(b, k) by {}
        }
    }

    /// Takes `kitty_id` out of the list of `account`; nothing changes when
    /// the account does not own it.
    pub fn remove(&mut self, account: &u64, kitty_id: u32)
        requires
            old(self).wf(),
        ensures
            final(self).wf(),
            final(self).owned(*account) == old(self).owned(*account).remove_value(kitty_id),
            !final(self).owned(*account).contains(kitty_id),
            final(self).stored(*account, None).is_some() == old(self).stored(*account, None).is_some(),
            forall|b: u64| b != *account ==> #[trigger] final(self).owned(b) == old(self).owned(b),
            forall|b: u64, k: Option<u32>|
                b != *account ==> #[trigger] final(self).stored(b, k) == old(self).stored(b, k),
    {
        let a = *account;
        let ghost s = self.owned(a);
        let ghost before = *self;
        let ghost j = s.index_of(kitty_id);
        let ghost s2 = if s.contains(kitty_id) {
            s.remove(j)
        } else {
            s
        };
        proof {
            assert(s.no_duplicates());
            s.index_of_first_ensures(kitty_id);
            if s.contains(kitty_id) {
                lemma_index_of(s, j);
                let f = s.index_of_first(kitty_id).unwrap();
                assert(s[f] == s[j]);
                assert(s.remove_value(kitty_id) == s2);
                s.remove_ensures(j);
                assert(s2.no_duplicates()) by {
                    assert forall|x: int, y: int|
                        0 <= x < s2.len() && 0 <= y < s2.len() && x != y implies s2[x] != s2[y] by {
                        let xs = if x < j { x } else { x + 1 };
                        let ys = if y < j { y } else { y + 1 };
                        assert(s2[x] == s[xs] && s2[y] == s[ys]);
                    }
                }
                if s2.contains(kitty_id) {
                    let y = s2.index_of(kitty_id);
                    let ys = if y < j { y } else { y + 1 };
                    assert(s2[y] == s[ys]);
                }
            } else {
                assert(s.remove_value(kitty_id) == s2);
            }
            self.lists@ = self.lists@.insert(a, s2);
            assert(self.owned(a) == s2);
        }
        if let Some(item) = self.take(a, Some(kitty_id)) {
            let prev = self.read(a, item.prev);
            self.write(a, item.prev, LinkedItem { prev: prev.prev, next: item.next });
            let next = self.read(a, item.next);
            self.write(a, item.next, LinkedItem { prev: item.prev, next: next.next });
            proof {
                let n = s.len();
                assert(before.stored(a, Some(kitty_id)) == layout(s, Some(kitty_id)));
                assert(s.contains(kitty_id));
                assert(item == node_item(s, j));
                assert(before.stored(a, None) == layout(s, None));
                if j > 0 {
                    lemma_index_of(s, j - 1);
                    assert(before.stored(a, Some(s[j - 1])) == layout(s, Some(s[j - 1])));
                    assert(prev == node_item(s, j - 1));
                } else {
                    assert(prev == head_item(s));
                }
                if j + 1 < n {
                    lemma_index_of(s, j + 1);
                    assert(before.stored(a, Some(s[j + 1])) == layout(s, Some(s[j + 1])));
                    assert(next == node_item(s, j + 1));
                } else if j > 0 {
                    assert(next == head_item(s));
                } else {
                    assert(next == LinkedItem { prev: Some(kitty_id), next: None::<u32> });
                }
                assert forall|k: Option<u32>| #[trigger] self.stored(a, k) == layout(s2, k) by {
                    match k {
                        None => {
                            if n > 1 {
                                assert(s2.last() == if j + 1 == n { s[n - 2] } else { s[n - 1] });
                                assert(s2[0] == if j == 0 { s[1] } else { s[0] });
                            }
                            assert(self.stored(a, k) == layout(s2, k));
                        },
                        Some(i) => {
                            if i == kitty_id {
                                if s2.contains(i) {
                                    let y = s2.index_of(i);
                                    let ys = if y < j { y } else { y + 1 };
                                    assert(s2[y] == s[ys]);
                                }
                                assert(self.stored(a, k) == layout(s2, k));
                            } else if s.contains(i) {
                                let x = s.index_of(i);
                                lemma_index_of(s, x);
                                let x2 = if x < j { x } else { x - 1 };
                                assert(s2[x2] == i);
                                lemma_index_of(s2, x2);
                                assert(before.stored(a, Some(i)) == layout(s, Some(i)));
                                if x2 > 0 {
                                    let p2 = if x2 - 1 < j { x2 - 1 } else { x2 };
                                    assert(s2[x2 - 1] == s[p2]);
                                }
                                if x2 + 1 < s2.len() {
                                    let q2 = if x2 + 1 < j { x2 + 1 } else { x2 + 2 };
                                    assert(s2[x2 + 1] == s[q2]);
                                }
                                assert(self.stored(a, k) == layout(s2, k));
                            } else {
                                assert(before.stored(a, Some(i)) == layout(s, Some(i)));
                                if s2.contains(i) {
                                    let y = s2.index_of(i);
                                    let ys = if y < j { y } else { y + 1 };
                                    assert(s2[y] == s[ys]);
                                    assert(s.contains(s[ys]));
                                }
                                assert(self.stored(a, k) == layout(s2, k));
                            }
                        },
                    }
                }
            }
        } else {
            proof {
                if before.stored(a, None).is_some() {
                    assert(before.stored(a, Some(kitty_id)) == layout(s, Some(kitty_id)));
                }
                assert(!s.contains(kitty_id));
                assert forall|k: Option<u32>| #[trigger] self.stored(a, k) == before.stored(a, k) by {}
            }
        }
        proof {
            assert forall|b: u64| b != a implies #[trigger] self.owned(b) == before.owned(b) by {}
            assert forall|b: u64, k: Option<u32>| b != a implies #[trigger] self.stored(b, k)
                == before.stored(b, k) by {}
        }
    }

    /// The kitties of `account` in list order, read by following the links
    /// from the head.
    pub fn owned_kitties(&self, account: &u64) -> (r: Vec<u32>)
        requires
            self.wf(),
        ensures
            r@ == self.owned(*account),
    {
        let a = *account;
        let ghost s = self.owned(a);
        let head = self.read(a, None);
        proof {
            assert(self.stored(a, None) == if self.stored(a, None).is_some() {
                layout(s, None)
            } else {
                None
            });
            assert(head == head_item(s));
            assert(s.no_duplicates());
        }
        let mut out: Vec<u32> = Vec::new();
        let mut cur = head.next;
        while cur.is_some()
            invariant
                self.wf(),
                s == self.owned(a),
                s.no_duplicates(),
                out@.len() <= s.len(),
                out@ == s.subrange(0, out@.len() as int),
                cur == if out@.len() < s.len() {
                    Some(s[out@.len() as int])
                } else {
                    None::<u32>
                },
            decreases s.len() - out@.len(),
        {
            let id = cur.unwrap();
            let ghost x = out@.len() as int;
            proof {
                lemma_index_of(s, x);
                assert(self.stored(a, Some(id)) == if self.stored(a, None).is_some() {
                    layout(s, Some(id))
                } else {
                    None
                });
                if self.stored(a, None).is_none() {
                    assert(s.len() == 0);
                }
            }
            let link = self.read(a, Some(id));
            out.push(id);
            cur = link.next;
            proof {
                assert(out@ == s.subrange(0, out@.len() as int));
            }
        }
        proof {
            assert(out@ == s);
        }
        out
    }

    /// Whether `account` owns `kitty_id`.
    pub fn contains(&self, account: &u64, kitty_id: u32) -> (r: bool)
        requires
            self.wf(),
        ensures
            r == self.owned(*account).contains(kitty_id),
    {
        let r = self.slots.contains_key(&slot_of(*account, Some(kitty_id)));
        proof {
            let a = *account;
            assert(r == self.stored(a, Some(kitty_id)).is_some());
            if self.stored(a, None).is_none() {
                assert(self.owned(a).len() == 0);
            }
        }
        r
    }
}

} // verus!

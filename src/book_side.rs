//! One side of an order book: the volume resting at each price.
use vstd::prelude::*;

verus! {

/// One level of a book side as it is read out: a price and the volume resting there,
/// both in units of 10^-8.
#[derive(Clone, Copy, Debug, PartialEq, Eq, Structural)]
pub struct PriceLevelEntry {
    pub price: u64,
    pub volume: u64,
}

/// Whether `p` is the highest price of `m`.
pub open spec fn is_highest(m: Map<u64, u64>, p: u64) -> bool {
    m.contains_key(p) && forall|q: u64| #[trigger] m.contains_key(q) ==> q <= p
}

/// Whether `p` is the lowest price of `m`.
pub open spec fn is_lowest(m: Map<u64, u64>, p: u64) -> bool {
    m.contains_key(p) && forall|q: u64| #[trigger] m.contains_key(q) ==> p <= q
}

/// The highest price of `m`, where `m` holds any.
pub open spec fn highest_price(m: Map<u64, u64>) -> Option<u64> {
    if exists|p: u64| is_highest(m, p) {
        Some(choose|p: u64| is_highest(m, p))
    } else {
        None
    }
}

/// The lowest price of `m`, where `m` holds any.
pub open spec fn lowest_price(m: Map<u64, u64>) -> Option<u64> {
    if exists|p: u64| is_lowest(m, p) {
        Some(choose|p: u64| is_lowest(m, p))
    } else {
        None
    }
}

/// Whether `e` lists the levels of `m`: each entry is a level of `m`, and each level of
/// `m` has an entry.
pub open spec fn lists_levels(e: Seq<PriceLevelEntry>, m: Map<u64, u64>) -> bool {
    &&& forall|i: int|
        0 <= i < e.len() ==> m.contains_key(#[trigger] e[i].price) && m[e[i].price] == e[i].volume
    &&& forall|p: u64|
        #[trigger] m.contains_key(p) ==> exists|i: int| 0 <= i < e.len() && #[trigger] e[i].price == p
}

pub open spec fn strictly_ascending(e: Seq<PriceLevelEntry>) -> bool {
    forall|i: int, j: int| 0 <= i < j < e.len() ==> #[trigger] e[i].price < #[trigger] e[j].price
}

pub open spec fn strictly_descending(e: Seq<PriceLevelEntry>) -> bool {
    forall|i: int, j: int| 0 <= i < j < e.len() ==> #[trigger] e[i].price > #[trigger] e[j].price
}

/// A map from price to volume. A price is present only while some volume rests there:
/// a volume of zero means the level is absent.
pub struct BookSide {
    levels: Vec<PriceLevelEntry>,
    model: Ghost<Map<u64, u64>>,
}

impl View for BookSide {
    type V = Map<u64, u64>;

    closed spec fn view(&self) -> Map<u64, u64> {
        self.model@
    }
}

impl BookSide {
    /// The levels are held in ascending order of price, each with a positive volume.
    pub closed spec fn wf(&self) -> bool {
        &&& strictly_ascending(self.levels@)
        &&& forall|i: int| 0 <= i < self.levels@.len() ==> #[trigger] self.levels@[i].volume > 0
        &&& lists_levels(self.levels@, self.model@)
        &&& self.model@.dom().finite()
        &&& self.model@.dom().len() == self.levels@.len()
    }

    /// Every level of a well-formed side holds a positive volume.
    pub proof fn lemma_volumes_positive(&self)
        requires
            self.wf(),
        ensures
            self@.dom().finite(),
            forall|p: u64| #[trigger] self@.contains_key(p) ==> self@[p] > 0,
    {
        assert forall|p: u64| #[trigger] self@.contains_key(p) implies self@[p] > 0 by {
            let i = choose|i: int| 0 <= i < self.levels@.len() && #[trigger] self.levels@[i].price == p;
            assert(self.levels@[i].volume > 0);
        }
    }

    pub fn new() -> (r: BookSide)
        ensures
            r.wf(),
            r@ == Map::<u64, u64>::empty(),
    {
        BookSide { levels: Vec::new(), model: Ghost(Map::empty()) }
    }

    /// The first position whose price is at least `price`.
    fn find(&self, price: u64) -> (idx: usize)
        requires
            self.wf(),
        ensures
            idx <= self.levels@.len(),
            forall|k: int| 0 <= k < idx ==> #[trigger] self.levels@[k].price < price,
            forall|k: int| idx <= k < self.levels@.len() ==> #[trigger] self.levels@[k].price >= price,
    {
        let mut lo: usize = 0;
        let mut hi: usize = self.levels.len();
        while lo < hi
            invariant
                self.wf(),
                lo <= hi <= self.levels@.len(),
                forall|k: int| 0 <= k < lo ==> #[trigger] self.levels@[k].price < price,
                forall|k: int| hi <= k < self.levels@.len() ==> #[trigger] self.levels@[k].price >= price,
            decreases hi - lo,
        {
            let mid = lo + (hi - lo) / 2;
            if self.levels[mid].price < price {
                lo = mid + 1;
            } else {
                hi = mid;
            }
        }
        lo
    }

    /// The volume resting at `price`, if any.
    pub fn get(&self, price: u64) -> (r: Option<u64>)
        requires
            self.wf(),
        ensures
            r == (if self@.contains_key(price) {
                Some(self@[price])
            } else {
                None
            }),
    {
        let idx = self.find(price);
        if idx < self.levels.len() && self.levels[idx].price == price {
            Some(self.levels[idx].volume)
        } else {
            proof {
                if self@.contains_key(price) {
                    let i = choose|i: int|
                        0 <= i < self.levels@.len() && #[trigger] self.levels@[i].price == price;
                    if i > idx {
                        assert(self.levels@[idx as int].price < self.levels@[i].price);
                    }
                }
            }
            None
        }
    }

    /// Stores `volume` at `price`; a volume of zero removes the level.
    pub fn insert(&mut self, price: u64, volume: u64)
        requires
            old(self).wf(),
        ensures
            final(self).wf(),
            final(self)@ == if volume == 0 {
                old(self)@.remove(price)
            } else {
                old(self)@.insert(price, volume)
            },
    {
        if volume == 0 {
            self.remove(price);
        } else {
            self.set_level(price, volume);
        }
    }

    fn set_level(&mut self, price: u64, volume: u64)
        requires
            old(self).wf(),
            volume > 0,
        ensures
            final(self).wf(),
            final(self)@ == old(self)@.insert(price, volume),
    {
        let idx = self.find(price);
        let entry = PriceLevelEntry { price, volume };
        let ghost old_levels = self.levels@;
        let ghost old_model = self.model@;
        if idx < self.levels.len() && self.levels[idx].price == price {
            self.levels.set(idx, entry);
            self.model = Ghost(old_model.insert(price, volume));
            proof {
                let new_levels = self.levels@;
                let m = self.model@;
                assert(new_levels == old_levels.update(idx as int, entry));
                assert forall|i: int, j: int| 0 <= i < j < new_levels.len() implies #[trigger] new_levels[i].price
                    < #[trigger] new_levels[j].price by {
                    assert(old_levels[i].price < old_levels[j].price);
                }
                assert forall|i: int| 0 <= i < new_levels.len() implies m.contains_key(
                    #[trigger] new_levels[i].price,
                ) && m[new_levels[i].price] == new_levels[i].volume by {
                    if i != idx {
                        if i < idx {
                            assert(old_levels[i].price < old_levels[idx as int].price);
                        } else {
                            assert(old_levels[idx as int].price < old_levels[i].price);
                        }
                    }
                }
                assert forall|p: u64| #[trigger] m.contains_key(p) implies exists|i: int|
                    0 <= i < new_levels.len() && #[trigger] new_levels[i].price == p by {
                    if p == price {
                        assert(new_levels[idx as int].price == p);
                    } else {
                        let i = choose|i: int|
                            0 <= i < old_levels.len() && #[trigger] old_levels[i].price == p;
                        assert(new_levels[i].price == p);
                    }
                }
                assert(m.dom() =~= old_model.dom());
                assert forall|i: int| 0 <= i < new_levels.len() implies #[trigger] new_levels[i].volume
                    > 0 by {
                    if i != idx {
                        assert(new_levels[i] == old_levels[i]);
                    }
                }
            }
        } else {
            proof {
                if old_model.contains_key(price) {
                    let i = choose|i: int|
                        0 <= i < old_levels.len() && #[trigger] old_levels[i].price == price;
                    if i > idx {
                        assert(old_levels[idx as int].price < old_levels[i].price);
                    }
                }
                assert(!old_model.contains_key(price));
            }
            self.levels.insert(idx, entry);
            self.model = Ghost(old_model.insert(price, volume));
            proof {
                let new_levels = self.levels@;
                let m = self.model@;
                old_levels.insert_ensures(idx as int, entry);
                assert(new_levels == old_levels.insert(idx as int, entry));
                assert forall|i: int, j: int| 0 <= i < j < new_levels.len() implies #[trigger] new_levels[i].price
                    < #[trigger] new_levels[j].price by {
                    if j < idx {
                        assert(old_levels[i].price < old_levels[j].price);
                    } else if j == idx {
                        assert(old_levels[i].price < price);
                    } else if i < idx {
                        assert(old_levels[i].price < price);
                        assert(old_levels[j - 1].price >= price);
                    } else if i == idx {
                        assert(old_levels[j - 1].price >= price);
                        assert(old_levels[j - 1].price != price) by {
                            assert(old_model.contains_key(old_levels[j - 1].price));
                        }
                    } else {
                        assert(old_levels[i - 1].price < old_levels[j - 1].price);
                    }
                }
                assert forall|i: int| 0 <= i < new_levels.len() implies m.contains_key(
                    #[trigger] new_levels[i].price,
                ) && m[new_levels[i].price] == new_levels[i].volume by {
                    if i < idx {
                        assert(new_levels[i] == old_levels[i]);
                        assert(old_model.contains_key(old_levels[i].price));
                    } else if i > idx {
                        assert(new_levels[i] == old_levels[i - 1]);
                        assert(old_model.contains_key(old_levels[i - 1].price));
                    }
                }
                assert forall|p: u64| #[trigger] m.contains_key(p) implies exists|i: int|
                    0 <= i < new_levels.len() && #[trigger] new_levels[i].price == p by {
                    if p == price {
                        assert(new_levels[idx as int].price == p);
                    } else {
                        let i = choose|i: int|
                            0 <= i < old_levels.len() && #[trigger] old_levels[i].price == p;
                        if i < idx {
                            assert(new_levels[i].price == p);
                        } else {
                            assert(new_levels[i + 1].price == p);
                        }
                    }
                }
                assert forall|i: int| 0 <= i < new_levels.len() implies #[trigger] new_levels[i].volume
                    > 0 by {
                    if i < idx {
                        assert(new_levels[i] == old_levels[i]);
                    } else if i > idx {
                        assert(new_levels[i] == old_levels[i - 1]);
                    }
                }
            }
        }
    }

    /// Removes the level at `price`, if there is one.
    pub fn remove(&mut self, price: u64)
        requires
            old(self).wf(),
        ensures
            final(self).wf(),
            final(self)@ == old(self)@.remove(price),
    {
        let idx = self.find(price);
        let ghost old_levels = self.levels@;
        let ghost old_model = self.model@;
        if idx < self.levels.len() && self.levels[idx].price == price {
            self.levels.remove(idx);
            self.model = Ghost(old_model.remove(price));
            proof {
                let new_levels = self.levels@;
                let m = self.model@;
                old_levels.remove_ensures(idx as int);
                assert(new_levels == old_levels.remove(idx as int));
                assert forall|i: int, j: int| 0 <= i < j < new_levels.len() implies #[trigger] new_levels[i].price
                    < #[trigger] new_levels[j].price by {
                    if j < idx {
                        assert(old_levels[i].price < old_levels[j].price);
                    } else if i < idx {
                        assert(old_levels[i].price < old_levels[j + 1].price);
                    } else {
                        assert(old_levels[i + 1].price < old_levels[j + 1].price);
                    }
                }
                assert forall|i: int| 0 <= i < new_levels.len() implies m.contains_key(
                    #[trigger] new_levels[i].price,
                ) && m[new_levels[i].price] == new_levels[i].volume by {
                    if i < idx {
                        assert(new_levels[i] == old_levels[i]);
                        assert(old_model.contains_key(old_levels[i].price));
                        assert(old_levels[i].price < old_levels[idx as int].price);
                    } else {
                        assert(new_levels[i] == old_levels[i + 1]);
                        assert(old_model.contains_key(old_levels[i + 1].price));
                        assert(old_levels[idx as int].price < old_levels[i + 1].price);
                    }
                }
                assert forall|p: u64| #[trigger] m.contains_key(p) implies exists|i: int|
                    0 <= i < new_levels.len() && #[trigger] new_levels[i].price == p by {
                    let i = choose|i: int|
                        0 <= i < old_levels.len() && #[trigger] old_levels[i].price == p;
                    if i < idx {
                        assert(new_levels[i].price == p);
                    } else {
                        assert(i != idx);
                        assert(new_levels[i - 1].price == p);
                    }
                }
                assert forall|i: int| 0 <= i < new_levels.len() implies #[trigger] new_levels[i].volume
                    > 0 by {
                    if i < idx {
                        assert(new_levels[i] == old_levels[i]);
                    } else {
                        assert(new_levels[i] == old_levels[i + 1]);
                    }
                }
            }
        } else {
            proof {
                if old_model.contains_key(price) {
                    let i = choose|i: int|
                        0 <= i < old_levels.len() && #[trigger] old_levels[i].price == price;
                    if i > idx {
                        assert(old_levels[idx as int].price < old_levels[i].price);
                    }
                }
                assert(old_model.remove(price) =~= old_model);
            }
        }
    }

    /// Removes every level.
    pub fn clear(&mut self)
        requires
            old(self).wf(),
        ensures
            final(self).wf(),
            final(self)@ == Map::<u64, u64>::empty(),
    {
        self.levels.clear();
        self.model = Ghost(Map::empty());
    }

    /// How many levels the side holds.
    pub fn len(&self) -> (r: usize)
        requires
            self.wf(),
        ensures
            r == self@.dom().len(),
    {
        self.levels.len()
    }

    pub fn is_empty(&self) -> (r: bool)
        requires
            self.wf(),
        ensures
            r == (self@.dom().len() == 0),
    {
        self.levels.len() == 0
    }

    /// The highest price, where the side holds any level.
    pub fn highest(&self) -> (r: Option<u64>)
        requires
            self.wf(),
        ensures
            r == highest_price(self@),
    {
        let n = self.levels.len();
        if n == 0 {
            proof {
                assert forall|p: u64| !is_highest(self@, p) by {
                    if self@.contains_key(p) {
                        let i = choose|i: int|
                            0 <= i < self.levels@.len() && #[trigger] self.levels@[i].price == p;
                    }
                }
            }
            None
        } else {
            let p = self.levels[n - 1].price;
            proof {
                assert forall|q: u64| #[trigger] self@.contains_key(q) implies q <= p by {
                    let i = choose|i: int|
                        0 <= i < self.levels@.len() && #[trigger] self.levels@[i].price == q;
                    if i < n - 1 {
                        assert(self.levels@[i].price < self.levels@[n - 1].price);
                    }
                }
                assert(is_highest(self@, p));
                let c = choose|c: u64| is_highest(self@, c);
                assert(c <= p && p <= c);
            }
            Some(p)
        }
    }

    /// The lowest price, where the side holds any level.
    pub fn lowest(&self) -> (r: Option<u64>)
        requires
            self.wf(),
        ensures
            r == lowest_price(self@),
    {
        let n = self.levels.len();
        if n == 0 {
            proof {
                assert forall|p: u64| !is_lowest(self@, p) by {
                    if self@.contains_key(p) {
                        let i = choose|i: int|
                            0 <= i < self.levels@.len() && #[trigger] self.levels@[i].price == p;
                    }
                }
            }
            None
        } else {
            let p = self.levels[0].price;
            proof {
                assert forall|q: u64| #[trigger] self@.contains_key(q) implies p <= q by {
                    let i = choose|i: int|
                        0 <= i < self.levels@.len() && #[trigger] self.levels@[i].price == q;
                    if i > 0 {
                        assert(self.levels@[0].price < self.levels@[i].price);
                    }
                }
                assert(is_lowest(self@, p));
                let c = choose|c: u64| is_lowest(self@, c);
                assert(c <= p && p <= c);
            }
            Some(p)
        }
    }

    /// The levels, lowest price first.
    pub fn levels_ascending(&self) -> (r: Vec<PriceLevelEntry>)
        requires
            self.wf(),
        ensures
            strictly_ascending(r@),
            lists_levels(r@, self@),
            r@.len() == self@.dom().len(),
    {
        let mut out: Vec<PriceLevelEntry> = Vec::new();
        let mut i: usize = 0;
        while i < self.levels.len()
            invariant
                self.wf(),
                i <= self.levels@.len(),
                out@ == self.levels@.take(i as int),
            decreases self.levels@.len() - i,
        {
            out.push(self.levels[i]);
            i = i + 1;
            assert(out@ =~= self.levels@.take(i as int));
        }
        assert(out@ =~= self.levels@);
        out
    }

    /// The levels, highest price first.
    pub fn levels_descending(&self) -> (r: Vec<PriceLevelEntry>)
        requires
            self.wf(),
        ensures
            strictly_descending(r@),
            lists_levels(r@, self@),
            r@.len() == self@.dom().len(),
    {
        let mut out: Vec<PriceLevelEntry> = Vec::new();
        let n = self.levels.len();
        let mut i: usize = 0;
        while i < n
            invariant
                self.wf(),
                n == self.levels@.len(),
                i <= n,
                out@.len() == i,
                forall|k: int| 0 <= k < i ==> out@[k] == self.levels@[n - 1 - k],
            decreases n - i,
        {
            out.push(self.levels[n - 1 - i]);
            i = i + 1;
        }
        proof {
            let l = self.levels@;
            assert forall|a: int, b: int| 0 <= a < b < out@.len() implies #[trigger] out@[a].price
                > #[trigger] out@[b].price by {
                assert(l[n - 1 - b].price < l[n - 1 - a].price);
            }
            assert forall|k: int| 0 <= k < out@.len() implies self@.contains_key(
                #[trigger] out@[k].price,
            ) && self@[out@[k].price] == out@[k].volume by {
                assert(out@[k] == l[n - 1 - k]);
            }
            assert forall|p: u64| #[trigger] self@.contains_key(p) implies exists|k: int|
                0 <= k < out@.len() && #[trigger] out@[k].price == p by {
                let i = choose|i: int| 0 <= i < l.len() && #[trigger] l[i].price == p;
                assert(out@[n - 1 - i] == l[i]);
            }
        }
        out
    }
}

} // verus!

//! Voting power by height: each member's weight history and the history of
//! the total, as a group reports changes.

use vstd::prelude::*;
use crate::genesis::MemberDiff;

verus! {

/// Errors of the snapshot store.
#[derive(Clone, Copy, Debug, PartialEq, Eq, Structural)]
pub enum SnapshotError {
    /// A change at a height below one already recorded.
    HeightInPast,
    /// The total power would not fit.
    TotalOverflow,
}

/// The value recorded last at or before height `h`, or zero before any.
pub open spec fn value_at(hist: Seq<(u64, u128)>, h: u64) -> u128
    decreases hist.len(),
{
    if hist.len() == 0 {
        0
    } else if hist.last().0 <= h {
        hist.last().1
    } else {
        value_at(hist.drop_last(), h)
    }
}

/// The latest recorded value, or zero.
pub open spec fn value_now(hist: Seq<(u64, u128)>) -> int {
    if hist.len() == 0 {
        0
    } else {
        hist.last().1 as int
    }
}

/// Heights strictly increase and none exceeds `top`.
pub open spec fn ordered(hist: Seq<(u64, u128)>, top: u64) -> bool {
    &&& forall|i: int, j: int| 0 <= i < j < hist.len() ==> #[trigger] hist[i].0 < #[trigger] hist[j].0
    &&& forall|i: int| 0 <= i < hist.len() ==> #[trigger] hist[i].0 <= top
}

/// The sum of the members' current weights.
pub open spec fn members_total(hs: Seq<Vec<(u64, u128)>>) -> int
    decreases hs.len(),
{
    if hs.len() == 0 {
        0
    } else {
        members_total(hs.drop_last()) + value_now(hs.last()@)
    }
}

/// The sum of the members' weights at height `h`.
pub open spec fn members_at(hs: Seq<Vec<(u64, u128)>>, h: u64) -> int
    decreases hs.len(),
{
    if hs.len() == 0 {
        0
    } else {
        members_at(hs.drop_last(), h) + value_at(hs.last()@, h)
    }
}

proof fn lemma_members_at_update(hs: Seq<Vec<(u64, u128)>>, i: int, x: Vec<(u64, u128)>, h: u64)
    requires
        0 <= i < hs.len(),
    ensures
        members_at(hs.update(i, x), h) == members_at(hs, h) - value_at(hs[i]@, h) + value_at(x@, h),
    decreases hs.len(),
{
    let t = hs.update(i, x);
    if i == hs.len() - 1 {
        assert(t.drop_last() =~= hs.drop_last());
    } else {
        assert(t.drop_last() =~= hs.drop_last().update(i, x));
        lemma_members_at_update(hs.drop_last(), i, x, h);
    }
}

proof fn lemma_members_at_ge(hs: Seq<Vec<(u64, u128)>>, i: int, h: u64)
    requires
        0 <= i < hs.len(),
    ensures
        members_at(hs, h) >= value_at(hs[i]@, h),
    decreases hs.len(),
{
    lemma_members_at_nonneg(hs.drop_last(), h);
    if i < hs.len() - 1 {
        lemma_members_at_ge(hs.drop_last(), i, h);
    }
}

proof fn lemma_members_at_nonneg(hs: Seq<Vec<(u64, u128)>>, h: u64)
    ensures
        members_at(hs, h) >= 0,
    decreases hs.len(),
{
    if hs.len() > 0 {
        lemma_members_at_nonneg(hs.drop_last(), h);
    }
}

proof fn lemma_value_at_top(hist: Seq<(u64, u128)>, top: u64, h: u64)
    requires
        ordered(hist, top),
        top <= h,
    ensures
        value_at(hist, h) == value_now(hist),
{
}

proof fn lemma_members_at_top(hs: Seq<Vec<(u64, u128)>>, top: u64, h: u64)
    requires
        forall|k: int| 0 <= k < hs.len() ==> ordered(#[trigger] hs[k]@, top),
        top <= h,
    ensures
        members_at(hs, h) == members_total(hs),
    decreases hs.len(),
{
    if hs.len() > 0 {
        assert(ordered(hs[hs.len() - 1]@, top));
        lemma_value_at_top(hs.last()@, top, h);
        lemma_members_at_top(hs.drop_last(), top, h);
    }
}

/// `hist` after recording `v` at height `h`: a record at the same height is
/// replaced, otherwise one is added.
pub open spec fn recorded(hist: Seq<(u64, u128)>, h: u64, v: u128) -> Seq<(u64, u128)> {
    if hist.len() > 0 && hist.last().0 == h {
        hist.drop_last().push((h, v))
    } else {
        hist.push((h, v))
    }
}

proof fn lemma_recorded(hist: Seq<(u64, u128)>, top: u64, h: u64, v: u128)
    requires
        ordered(hist, top),
        top <= h,
    ensures
        ordered(recorded(hist, h, v), h),
        forall|q: u64| q < h ==> value_at(recorded(hist, h, v), q) == value_at(hist, q),
        forall|q: u64| q >= h ==> value_at(recorded(hist, h, v), q) == v,
        value_now(recorded(hist, h, v)) == v,
{
    let r = recorded(hist, h, v);
    assert(r.drop_last() =~= if hist.len() > 0 && hist.last().0 == h {
        hist.drop_last()
    } else {
        hist
    });
    if hist.len() > 0 && hist.last().0 == h {
        assert forall|q: u64| q < h implies value_at(r, q) == value_at(hist, q) by {
            assert(value_at(hist, q) == value_at(hist.drop_last(), q));
        }
    }
}

proof fn lemma_members_total_update(hs: Seq<Vec<(u64, u128)>>, i: int, x: Vec<(u64, u128)>)
    requires
        0 <= i < hs.len(),
    ensures
        members_total(hs.update(i, x)) == members_total(hs) - value_now(hs[i]@) + value_now(x@),
    decreases hs.len(),
{
    let t = hs.update(i, x);
    if i == hs.len() - 1 {
        assert(t.drop_last() =~= hs.drop_last());
    } else {
        assert(t.drop_last() =~= hs.drop_last().update(i, x));
        lemma_members_total_update(hs.drop_last(), i, x);
    }
}

proof fn lemma_members_total_ge(hs: Seq<Vec<(u64, u128)>>, i: int)
    requires
        0 <= i < hs.len(),
    ensures
        members_total(hs) >= value_now(hs[i]@),
    decreases hs.len(),
{
    lemma_members_total_nonneg(hs.drop_last());
    if i < hs.len() - 1 {
        lemma_members_total_ge(hs.drop_last(), i);
    }
}

proof fn lemma_members_total_nonneg(hs: Seq<Vec<(u64, u128)>>)
    ensures
        members_total(hs) >= 0,
    decreases hs.len(),
{
    if hs.len() > 0 {
        lemma_members_total_nonneg(hs.drop_last());
    }
}

/// Members' weight histories and the total's.
#[derive(Debug)]
pub struct PowerSnapshots {
    pub addrs: Vec<String>,
    pub histories: Vec<Vec<(u64, u128)>>,
    pub totals: Vec<(u64, u128)>,
    /// The highest height at which a change was recorded.
    pub last_height: u64,
}

pub open spec fn index_of(addrs: Seq<String>, a: Seq<char>) -> int {
    choose|i: int| 0 <= i < addrs.len() && addrs[i]@ == a
}

pub open spec fn is_member(addrs: Seq<String>, a: Seq<char>) -> bool {
    exists|i: int| 0 <= i < addrs.len() && addrs[i]@ == a
}

proof fn lemma_unique_addr(addrs: Seq<String>, a: Seq<char>, i: int)
    requires
        0 <= i < addrs.len(),
        addrs[i]@ == a,
        forall|x: int, y: int| 0 <= x < y < addrs.len() ==> #[trigger] addrs[x]@ != #[trigger] addrs[y]@,
    ensures
        is_member(addrs, a),
        index_of(addrs, a) == i,
{
    let k = index_of(addrs, a);
    if k < i {
        assert(addrs[k]@ != addrs[i]@);
    } else if k > i {
        assert(addrs[i]@ != addrs[k]@);
    }
}

impl PowerSnapshots {
    pub open spec fn wf(self) -> bool {
        &&& self.addrs@.len() == self.histories@.len()
        &&& forall|i: int, j: int|
            0 <= i < j < self.addrs@.len() ==> #[trigger] self.addrs@[i]@ != #[trigger] self.addrs@[j]@
        &&& forall|i: int|
            0 <= i < self.histories@.len() ==> ordered(#[trigger] self.histories@[i]@, self.last_height)
        &&& ordered(self.totals@, self.last_height)
        &&& value_now(self.totals@) == members_total(self.histories@)
        &&& forall|h: u64| #[trigger] value_at(self.totals@, h) == members_at(self.histories@, h)
    }

    /// The power of address `a` at height `h`.
    pub open spec fn power_at(self, a: Seq<char>, h: u64) -> u128 {
        if is_member(self.addrs@, a) {
            value_at(self.histories@[index_of(self.addrs@, a)]@, h)
        } else {
            0
        }
    }

    /// The total power at height `h`.
    pub open spec fn total_at(self, h: u64) -> u128 {
        value_at(self.totals@, h)
    }

    /// The current power of address `a`.
    pub open spec fn power_now(self, a: Seq<char>) -> int {
        if is_member(self.addrs@, a) {
            value_now(self.histories@[index_of(self.addrs@, a)]@)
        } else {
            0
        }
    }

    /// No power recorded anywhere.
    pub fn new() -> (r: PowerSnapshots)
        ensures
            r.wf(),
            forall|a: Seq<char>, h: u64| r.power_at(a, h) == 0,
            forall|h: u64| r.total_at(h) == 0,
    {
        PowerSnapshots { addrs: Vec::new(), histories: Vec::new(), totals: Vec::new(), last_height: 0 }
    }

    fn find(&self, addr: &String) -> (r: Option<usize>)
        requires
            self.wf(),
        ensures
            r matches Some(i) ==> i < self.addrs@.len() && is_member(self.addrs@, addr@)
                && index_of(self.addrs@, addr@) == i,
            r is None ==> !is_member(self.addrs@, addr@),
    {
        let mut i: usize = 0;
        while i < self.addrs.len()
            invariant
                self.wf(),
                i <= self.addrs@.len(),
                forall|k: int| 0 <= k < i ==> self.addrs@[k]@ != addr@,
            decreases self.addrs@.len() - i,
        {
            if self.addrs[i] == *addr {
                proof {
                    lemma_unique_addr(self.addrs@, addr@, i as int);
                }
                return Some(i);
            }
            i = i + 1;
        }
        None
    }

    /// The power of `addr` at `height`: its weight as last changed at or
    /// before that height.
    pub fn power_at_height(&self, addr: &String, height: u64) -> (r: u128)
        requires
            self.wf(),
        ensures
            r == self.power_at(addr@, height),
    {
        match self.find(addr) {
            Some(i) => history_value_at(&self.histories[i], height),
            None => 0,
        }
    }

    /// The total power at `height`.
    pub fn total_power_at_height(&self, height: u64) -> (r: u128)
        ensures
            r == self.total_at(height),
    {
        history_value_at(&self.totals, height)
    }

    /// Sets the weight of `addr` to `weight` from `height` on. Queries at
    /// lower heights keep their answers.
    pub fn set_weight(&mut self, addr: String, weight: u128, height: u64) -> (r: Result<
        (),
        SnapshotError,
    >)
        requires
            old(self).wf(),
        ensures
            final(self).wf(),
            height < old(self).last_height ==> r == Err::<(), SnapshotError>(
                SnapshotError::HeightInPast,
            ),
            old(self).last_height <= height && members_total(old(self).histories@) - old(self).power_now(addr@) + weight > u128::MAX ==> r == Err::<(), SnapshotError>(
                SnapshotError::TotalOverflow,
            ),
            old(self).last_height <= height && members_total(old(self).histories@) - old(self).power_now(addr@) + weight <= u128::MAX ==> r is Ok,
            r is Err ==> *final(self) == *old(self),
            r is Ok ==> {
                &&& final(self).last_height == height
                &&& forall|a: Seq<char>, h: u64|
                    h < height ==> #[trigger] final(self).power_at(a, h) == old(self).power_at(a, h)
                &&& forall|h: u64| h < height ==> #[trigger] final(self).total_at(h) == old(self).total_at(h)
                &&& forall|h: u64| h >= height ==> #[trigger] final(self).power_at(addr@, h) == weight
                &&& forall|a: Seq<char>, h: u64|
                    a != addr@ ==> #[trigger] final(self).power_at(a, h) == old(self).power_at(a, h)
                &&& forall|a: Seq<char>|
                    a != addr@ ==> #[trigger] final(self).power_now(a) == old(self).power_now(a)
                &&& final(self).power_now(addr@) == weight
                &&& forall|h: u64| h >= height ==> #[trigger] final(self).total_at(h)
                    == members_total(final(self).histories@)
                &&& members_total(final(self).histories@) == members_total(old(self).histories@)
                    - old(self).power_now(addr@) + weight
            },
    {
        if height < self.last_height {
            return Err(SnapshotError::HeightInPast);
        }
        let ghost prev = *self;
        let found = self.find(&addr);
        let current: u128 = match found {
            Some(i) => history_value_now(&self.histories[i]),
            None => 0,
        };
        let total: u128 = history_value_now(&self.totals);
        proof {
            if let Some(i) = found {
                lemma_members_total_ge(self.histories@, i as int);
            } else {
                lemma_members_total_nonneg(self.histories@);
            }
        }
        let rest: u128 = total - current;
        if rest > u128::MAX - weight {
            return Err(SnapshotError::TotalOverflow);
        }
        let new_total: u128 = rest + weight;
        let i: usize = match found {
            Some(i) => i,
            None => {
                self.addrs.push(addr);
                self.histories.push(Vec::new());
                proof {
                    let hs = self.histories@;
                    assert(hs.drop_last() =~= prev.histories@);
                    let n = self.addrs@.len() - 1;
                    assert forall|x: int, y: int|
                        0 <= x < y < self.addrs@.len() implies #[trigger] self.addrs@[x]@
                        != #[trigger] self.addrs@[y]@ by {
                        if y == n {
                            assert(prev.addrs@[x]@ != addr@);
                        }
                    }
                    assert(self.addrs@[n]@ == addr@);
                    lemma_unique_addr(self.addrs@, addr@, n);
                }
                self.addrs.len() - 1
            },
        };
        let ghost mid = *self;
        proof {
            assert(mid.addrs@[i as int]@ == addr@);
            lemma_unique_addr(mid.addrs@, addr@, i as int);
            assert forall|a: Seq<char>| a != addr@ && #[trigger] is_member(mid.addrs@, a) implies
                is_member(prev.addrs@, a) && index_of(mid.addrs@, a) == index_of(prev.addrs@, a)
                && index_of(mid.addrs@, a) != i && mid.histories@[index_of(mid.addrs@, a)]
                == prev.histories@[index_of(prev.addrs@, a)] by {
                let c = index_of(mid.addrs@, a);
                assert(c != i);
                if found is None {
                    assert(c < prev.addrs@.len());
                    assert(prev.addrs@[c] == mid.addrs@[c]);
                }
                lemma_unique_addr(prev.addrs@, a, c);
            }
            assert forall|a: Seq<char>| a != addr@ && #[trigger] is_member(prev.addrs@, a) implies
                is_member(mid.addrs@, a) by {
                let c = index_of(prev.addrs@, a);
                assert(mid.addrs@[c] == prev.addrs@[c]);
            }
            if found is None {
                assert(mid.histories@[i as int]@ =~= Seq::<(u64, u128)>::empty());
            }
        }
        let mut hist = self.histories.remove(i);
        record(&mut hist, height, weight);
        self.histories.insert(i, hist);
        record(&mut self.totals, height, new_total);
        self.last_height = height;
        proof {
            let nh = self.histories@[i as int];
            assert(self.histories@ =~= mid.histories@.update(i as int, nh));
            lemma_recorded(mid.histories@[i as int]@, mid.last_height, height, weight);
            lemma_recorded(mid.totals@, mid.last_height, height, new_total);
            lemma_members_total_update(mid.histories@, i as int, nh);
            assert forall|k: int| 0 <= k < self.histories@.len() implies ordered(
                #[trigger] self.histories@[k]@,
                self.last_height,
            ) by {
                if k != i {
                    assert(ordered(mid.histories@[k]@, mid.last_height));
                }
            }
            assert forall|h: u64| #[trigger] value_at(self.totals@, h) == members_at(
                self.histories@,
                h,
            ) by {
                lemma_members_at_update(mid.histories@, i as int, nh, h);
                assert(value_at(prev.totals@, h) == members_at(prev.histories@, h));
                assert(mid.totals@ == prev.totals@);
                if found is None {
                    assert(mid.histories@.drop_last() =~= prev.histories@);
                    assert(value_at(mid.histories@.last()@, h) == 0);
                    assert(members_at(mid.histories@, h) == members_at(prev.histories@, h));
                } else {
                    assert(mid.histories@ == prev.histories@);
                }
                if h >= height {
                    lemma_members_at_top(self.histories@, height, h);
                } else {
                    assert(value_at(self.totals@, h) == value_at(prev.totals@, h));
                    assert(value_at(nh@, h) == value_at(mid.histories@[i as int]@, h));
                }
            }
            assert forall|a: Seq<char>, h: u64| h < height implies #[trigger] self.power_at(a, h)
                == prev.power_at(a, h) by {
                if a == addr@ {
                    if found is None {
                        assert(value_at(Seq::<(u64, u128)>::empty(), h) == 0);
                    }
                }
            }
        }
        Ok(())
    }

    /// Applies a group's reported changes at `height`, in order; a removed
    /// member's weight becomes zero. All changes apply, or, where the total
    /// could overflow, none. Queries at lower heights keep their answers,
    /// and from `height` on each changed address has the weight of its last
    /// change and the total is the sum of all current weights.
    pub fn apply_member_diffs(&mut self, diffs: &Vec<MemberDiff>, height: u64) -> (r: Result<
        (),
        SnapshotError,
    >)
        requires
            old(self).wf(),
        ensures
            final(self).wf(),
            r == if height < old(self).last_height {
                Err::<(), SnapshotError>(SnapshotError::HeightInPast)
            } else if members_total(old(self).histories@) + diffs_weight(diffs@) > u128::MAX {
                Err(SnapshotError::TotalOverflow)
            } else {
                Ok(())
            },
            r is Err ==> *final(self) == *old(self),
            r is Ok ==> {
                &&& forall|a: Seq<char>, h: u64|
                    h < height ==> #[trigger] final(self).power_at(a, h) == old(self).power_at(a, h)
                &&& forall|h: u64| h < height ==> #[trigger] final(self).total_at(h) == old(self).total_at(h)
                &&& forall|i: int, h: u64|
                    0 <= i < diffs@.len() && is_last_change(diffs@, i) && h >= height ==> #[trigger] final(self).power_at(diffs@[i].key@, h) == new_weight(diffs@[i])
                &&& forall|a: Seq<char>, h: u64|
                    !changed(diffs@, a) ==> #[trigger] final(self).power_at(a, h) == old(self).power_at(a, h)
                &&& forall|h: u64| h >= height ==> #[trigger] final(self).total_at(h) == members_total(final(self).histories@)
            },
    {
        if height < self.last_height {
            return Err(SnapshotError::HeightInPast);
        }
        let ghost start = *self;
        let mut acc: u128 = history_value_now(&self.totals);
        let mut j: usize = 0;
        while j < diffs.len()
            invariant
                start == *old(self),
                *self == start,
                start.wf(),
                start.last_height <= height,
                j <= diffs@.len(),
                acc == members_total(start.histories@) + diffs_weight(diffs@.take(j as int)),
            decreases diffs@.len() - j,
        {
            proof {
                assert(diffs@.take(j as int + 1).drop_last() =~= diffs@.take(j as int));
            }
            let w: u128 = match diffs[j].new {
                Some(x) => x as u128,
                None => 0,
            };
            if acc > u128::MAX - w {
                proof {
                    assert(diffs_weight(diffs@.take(j as int + 1)) == diffs_weight(diffs@.take(j as int)) + w);
                    lemma_diffs_weight_prefix(diffs@, j as int + 1);
                }
                return Err(SnapshotError::TotalOverflow);
            }
            acc = acc + w;
            j = j + 1;
        }
        proof {
            assert(diffs@.take(j as int) =~= diffs@);
            lemma_members_total_nonneg(start.histories@);
            assert forall|h: u64| h >= height implies #[trigger] self.total_at(h) == members_total(
                self.histories@,
            ) by {
                assert(value_at(self.totals@, h) == members_at(self.histories@, h));
                lemma_members_at_top(self.histories@, self.last_height, h);
            }
        }
        let mut k: usize = 0;
        while k < diffs.len()
            invariant
                self.wf(),
                start.last_height <= height,
                start == *old(self),
                k <= diffs@.len(),
                k > 0 ==> self.last_height == height,
                k == 0 ==> *self == start,
                members_total(start.histories@) + diffs_weight(diffs@) <= u128::MAX,
                members_total(self.histories@) <= members_total(start.histories@) + diffs_weight(
                    diffs@.take(k as int),
                ),
                forall|a: Seq<char>, h: u64|
                    h < height ==> #[trigger] self.power_at(a, h) == start.power_at(a, h),
                forall|h: u64| h < height ==> #[trigger] self.total_at(h) == start.total_at(h),
                forall|h: u64| h >= height ==> #[trigger] self.total_at(h) == members_total(
                    self.histories@,
                ),
                forall|i: int, h: u64|
                    0 <= i < k && is_last_change(diffs@.take(k as int), i) && h >= height
                        ==> #[trigger] self.power_at(diffs@[i].key@, h) == new_weight(diffs@[i]),
                forall|a: Seq<char>, h: u64|
                    !changed(diffs@.take(k as int), a) ==> #[trigger] self.power_at(a, h)
                        == start.power_at(a, h),
            decreases diffs@.len() - k,
        {
            let d = &diffs[k];
            let w: u128 = match d.new {
                Some(x) => x as u128,
                None => 0,
            };
            proof {
                assert(diffs@.take(k as int + 1).drop_last() =~= diffs@.take(k as int));
                lemma_diffs_weight_prefix(diffs@, k as int + 1);
                assert(self.power_now(d.key@) >= 0);
            }
            let res = self.set_weight(d.key.clone(), w, height);
            if res.is_err() {
                return Err(SnapshotError::TotalOverflow);
            }
            proof {
                let t = diffs@.take(k as int);
                let t2 = diffs@.take(k as int + 1);
                assert(t2 =~= t.push(*d));
                assert forall|i: int, h: u64|
                    0 <= i < k + 1 && is_last_change(t2, i) && h >= height implies #[trigger] self.power_at(
                    diffs@[i].key@,
                    h,
                ) == new_weight(diffs@[i]) by {
                    if i < k {
                        assert(t2[k as int].key@ != t2[i].key@);
                        assert forall|j: int| i < j < t.len() implies #[trigger] t[j].key@
                            != t[i].key@ by {
                            assert(t2[j] == t[j]);
                        }
                        assert(is_last_change(t, i));
                    }
                }
                assert forall|a: Seq<char>, h: u64| !changed(t2, a) implies #[trigger] self.power_at(
                    a,
                    h,
                ) == start.power_at(a, h) by {
                    assert(t2[k as int].key@ != a);
                    assert forall|j: int| 0 <= j < t.len() implies #[trigger] t[j].key@ != a by {
                        assert(t2[j] == t[j]);
                    }
                }
            }
            k = k + 1;
        }
        proof {
            assert(diffs@.take(k as int) =~= diffs@);
        }
        Ok(())
    }
}

/// The sum of the weights that the changes set.
pub open spec fn diffs_weight(ds: Seq<MemberDiff>) -> int
    decreases ds.len(),
{
    if ds.len() == 0 {
        0
    } else {
        diffs_weight(ds.drop_last()) + new_weight(ds.last()) as int
    }
}

proof fn lemma_diffs_weight_prefix(ds: Seq<MemberDiff>, k: int)
    requires
        0 <= k <= ds.len(),
    ensures
        0 <= diffs_weight(ds.take(k)) <= diffs_weight(ds),
    decreases ds.len() - k,
{
    if k == ds.len() {
        assert(ds.take(k) =~= ds);
        lemma_diffs_weight_nonneg(ds);
    } else {
        assert(ds.take(k + 1).drop_last() =~= ds.take(k));
        lemma_diffs_weight_prefix(ds, k + 1);
        lemma_diffs_weight_nonneg(ds.take(k));
    }
}

proof fn lemma_diffs_weight_nonneg(ds: Seq<MemberDiff>)
    ensures
        diffs_weight(ds) >= 0,
    decreases ds.len(),
{
    if ds.len() > 0 {
        lemma_diffs_weight_nonneg(ds.drop_last());
    }
}

/// No member's power at a height exceeds the total power at that height.
pub proof fn lemma_power_within_total(s: PowerSnapshots, a: Seq<char>, h: u64)
    requires
        s.wf(),
    ensures
        s.power_at(a, h) <= s.total_at(h),
{
    assert(value_at(s.totals@, h) == members_at(s.histories@, h));
    if is_member(s.addrs@, a) {
        lemma_members_at_ge(s.histories@, index_of(s.addrs@, a), h);
    }
}

/// The weight that a change sets.
pub open spec fn new_weight(d: MemberDiff) -> u128 {
    match d.new {
        Some(x) => x as u128,
        None => 0,
    }
}

/// No later change in `ds` is for the same address as change `i`.
pub open spec fn is_last_change(ds: Seq<MemberDiff>, i: int) -> bool {
    forall|j: int| i < j < ds.len() ==> #[trigger] ds[j].key@ != ds[i].key@
}

/// Some change in `ds` is for address `a`.
pub open spec fn changed(ds: Seq<MemberDiff>, a: Seq<char>) -> bool {
    exists|j: int| 0 <= j < ds.len() && #[trigger] ds[j].key@ == a
}

fn history_value_at(hist: &Vec<(u64, u128)>, h: u64) -> (r: u128)
    ensures
        r == value_at(hist@, h),
{
    let mut i: usize = hist.len();
    assert(hist@.take(i as int) =~= hist@);
    while i > 0
        invariant
            i <= hist@.len(),
            value_at(hist@, h) == value_at(hist@.take(i as int), h),
        decreases i,
    {
        let ghost t = hist@.take(i as int);
        assert(t.drop_last() =~= hist@.take(i - 1));
        if hist[i - 1].0 <= h {
            return hist[i - 1].1;
        }
        i = i - 1;
    }
    0
}

fn history_value_now(hist: &Vec<(u64, u128)>) -> (r: u128)
    ensures
        r == value_now(hist@),
{
    if hist.len() == 0 {
        0
    } else {
        hist[hist.len() - 1].1
    }
}

fn record(hist: &mut Vec<(u64, u128)>, h: u64, v: u128)
    ensures
        final(hist)@ == recorded(old(hist)@, h, v),
{
    let n = hist.len();
    if n > 0 && hist[n - 1].0 == h {
        hist.pop();
    }
    hist.push((h, v));
    proof {
        if n > 0 && old(hist)@.last().0 == h {
            assert(final(hist)@ =~= old(hist)@.drop_last().push((h, v)));
        }
    }
}

} // verus!

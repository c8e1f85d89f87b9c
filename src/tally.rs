//! Sums over per-choice weights and ballots, and the choice with the
//! strictly greatest weight.

use vstd::prelude::*;

verus! {

/// One voter's recorded vote on a proposal.
#[derive(Debug)]
pub struct Ballot {
    pub voter: String,
    pub choice: usize,
    pub power: u128,
}

/// The sum of a sequence of weights.
pub open spec fn sum(s: Seq<u128>) -> int
    decreases s.len(),
{
    if s.len() == 0 {
        0
    } else {
        sum(s.drop_last()) + s.last() as int
    }
}

/// The sum of the powers of all ballots.
pub open spec fn ballot_sum(b: Seq<Ballot>) -> int
    decreases b.len(),
{
    if b.len() == 0 {
        0
    } else {
        ballot_sum(b.drop_last()) + b.last().power as int
    }
}

/// The sum of the powers of the ballots cast for choice `c`.
pub open spec fn choice_sum(b: Seq<Ballot>, c: int) -> int
    decreases b.len(),
{
    if b.len() == 0 {
        0
    } else {
        choice_sum(b.drop_last(), c) + if b.last().choice == c {
            b.last().power as int
        } else {
            0
        }
    }
}

/// Choice `i` has strictly more weight than every other choice.
pub open spec fn is_unique_top(v: Seq<u128>, i: int) -> bool {
    0 <= i < v.len() && forall|j: int| 0 <= j < v.len() && j != i ==> v[j] < v[i]
}

/// Some choice has strictly more weight than every other.
pub open spec fn has_unique_top(v: Seq<u128>) -> bool {
    exists|i: int| is_unique_top(v, i)
}

/// Two different choices share the greatest weight.
pub open spec fn top_is_tied(v: Seq<u128>) -> bool {
    exists|i: int, j: int|
        0 <= i < v.len() && 0 <= j < v.len() && i != j && v[i] == v[j] && (forall|k: int|
            0 <= k < v.len() ==> v[k] <= v[i])
}

pub proof fn lemma_unique_top_unique(v: Seq<u128>, i: int, j: int)
    requires
        is_unique_top(v, i),
        is_unique_top(v, j),
    ensures
        i == j,
{
    if i != j {
        assert(v[j] < v[i]);
        assert(v[i] < v[j]);
    }
}

pub proof fn lemma_tied_has_no_unique_top(v: Seq<u128>)
    requires
        top_is_tied(v),
    ensures
        !has_unique_top(v),
{
    let (i, j) = choose|i: int, j: int|
        0 <= i < v.len() && 0 <= j < v.len() && i != j && v[i] == v[j] && (forall|k: int|
            0 <= k < v.len() ==> v[k] <= v[i]);
    assert forall|t: int| !is_unique_top(v, t) by {
        if 0 <= t < v.len() {
            if t == i {
                assert(!(v[j] < v[t]));
            } else {
                assert(!(v[i] < v[t]));
            }
        }
    }
}

pub proof fn lemma_sum_update(s: Seq<u128>, i: int, x: u128)
    requires
        0 <= i < s.len(),
    ensures
        sum(s.update(i, x)) == sum(s) - s[i] + x,
    decreases s.len(),
{
    let t = s.update(i, x);
    if i == s.len() - 1 {
        assert(t.drop_last() =~= s.drop_last());
    } else {
        assert(t.drop_last() =~= s.drop_last().update(i, x));
        lemma_sum_update(s.drop_last(), i, x);
    }
}

pub proof fn lemma_sum_ge(s: Seq<u128>, i: int)
    requires
        0 <= i < s.len(),
    ensures
        sum(s) >= s[i],
        sum(s) >= 0,
    decreases s.len(),
{
    lemma_sum_nonneg(s.drop_last());
    if i < s.len() - 1 {
        lemma_sum_ge(s.drop_last(), i);
    }
}

pub proof fn lemma_sum_nonneg(s: Seq<u128>)
    ensures
        sum(s) >= 0,
    decreases s.len(),
{
    if s.len() > 0 {
        lemma_sum_nonneg(s.drop_last());
    }
}

pub proof fn lemma_ballot_sum_update(b: Seq<Ballot>, i: int, x: Ballot)
    requires
        0 <= i < b.len(),
    ensures
        ballot_sum(b.update(i, x)) == ballot_sum(b) - b[i].power + x.power,
    decreases b.len(),
{
    let t = b.update(i, x);
    if i == b.len() - 1 {
        assert(t.drop_last() =~= b.drop_last());
    } else {
        assert(t.drop_last() =~= b.drop_last().update(i, x));
        lemma_ballot_sum_update(b.drop_last(), i, x);
    }
}

pub proof fn lemma_choice_sum_update(b: Seq<Ballot>, i: int, x: Ballot, c: int)
    requires
        0 <= i < b.len(),
    ensures
        choice_sum(b.update(i, x), c) == choice_sum(b, c) - (if b[i].choice == c {
            b[i].power as int
        } else {
            0
        }) + (if x.choice == c {
            x.power as int
        } else {
            0
        }),
    decreases b.len(),
{
    let t = b.update(i, x);
    if i == b.len() - 1 {
        assert(t.drop_last() =~= b.drop_last());
    } else {
        assert(t.drop_last() =~= b.drop_last().update(i, x));
        lemma_choice_sum_update(b.drop_last(), i, x, c);
    }
}

pub proof fn lemma_choice_sum_ge(b: Seq<Ballot>, i: int)
    requires
        0 <= i < b.len(),
    ensures
        choice_sum(b, b[i].choice as int) >= b[i].power,
    decreases b.len(),
{
    lemma_choice_sum_nonneg(b.drop_last(), b[i].choice as int);
    if i < b.len() - 1 {
        lemma_choice_sum_ge(b.drop_last(), i);
    }
}

pub proof fn lemma_choice_sum_nonneg(b: Seq<Ballot>, c: int)
    ensures
        choice_sum(b, c) >= 0,
    decreases b.len(),
{
    if b.len() > 0 {
        lemma_choice_sum_nonneg(b.drop_last(), c);
    }
}

/// The choice with strictly more weight than every other, or `None` when
/// the greatest weight is shared.
pub fn top_choice(votes: &Vec<u128>) -> (r: Option<usize>)
    requires
        votes@.len() >= 1,
    ensures
        r matches Some(i) ==> is_unique_top(votes@, i as int),
        r is None <==> !has_unique_top(votes@),
{
    let mut best: usize = 0;
    let mut tied: bool = false;
    let mut i: usize = 1;
    while i < votes.len()
        invariant
            1 <= i <= votes@.len(),
            best < i,
            forall|j: int| 0 <= j < i ==> votes@[j] <= votes@[best as int],
            tied ==> exists|j: int| 0 <= j < i && j != best && votes@[j] == votes@[best as int],
            !tied ==> forall|j: int| 0 <= j < i && j != best ==> votes@[j] < votes@[best as int],
        decreases votes@.len() - i,
    {
        if votes[i] > votes[best] {
            best = i;
            tied = false;
        } else if votes[i] == votes[best] {
            tied = true;
        }
        i = i + 1;
    }
    if tied {
        proof {
            let j = choose|j: int| 0 <= j < i && j != best && votes@[j] == votes@[best as int];
            assert(top_is_tied(votes@)) by {
                assert(0 <= best < votes@.len() && 0 <= j < votes@.len() && best != j);
            }
            lemma_tied_has_no_unique_top(votes@);
        }
        None
    } else {
        assert(is_unique_top(votes@, best as int));
        Some(best)
    }
}

} // verus!

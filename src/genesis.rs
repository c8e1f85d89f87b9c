//! Initial balances for a governance setup: a default grant to the creator,
//! and one entry per address, the first one given.

use vstd::prelude::*;

verus! {

/// An initial token balance.
#[derive(Debug)]
pub struct Cw20Coin {
    pub address: String,
    pub amount: u128,
}

/// A member of a weighted group.
#[derive(Debug)]
pub struct Member {
    pub addr: String,
    pub weight: u64,
}

/// A change of one member's weight.
#[derive(Debug)]
pub struct MemberDiff {
    pub key: String,
    pub old: Option<u64>,
    pub new: Option<u64>,
}

/// `s` holds an entry for address `a`.
pub open spec fn seen(s: Seq<Cw20Coin>, a: Seq<char>) -> bool {
    exists|i: int| 0 <= i < s.len() && s[i].address@ == a
}

/// The entries of `s` whose address no earlier entry has, in order.
pub open spec fn first_per_address(s: Seq<Cw20Coin>) -> Seq<Cw20Coin>
    decreases s.len(),
{
    if s.len() == 0 {
        Seq::empty()
    } else if seen(s.drop_last(), s.last().address@) {
        first_per_address(s.drop_last())
    } else {
        first_per_address(s.drop_last()).push(s.last())
    }
}

/// The group member that an initial balance stands for: the amount as a
/// weight, cut to its low 64 bits.
pub open spec fn member_of(c: Cw20Coin) -> Member {
    Member { addr: c.address, weight: (c.amount % 0x1_0000_0000_0000_0000) as u64 }
}

proof fn lemma_seen_first(s: Seq<Cw20Coin>, a: Seq<char>)
    ensures
        seen(first_per_address(s), a) == seen(s, a),
    decreases s.len(),
{
    if s.len() > 0 {
        let d = s.drop_last();
        lemma_seen_first(d, a);
        let f = first_per_address(d);
        if seen(d, a) {
            let i = choose|i: int| 0 <= i < d.len() && d[i].address@ == a;
            assert(s[i].address@ == a);
        }
        if seen(s, a) && !seen(d, a) {
            let i = choose|i: int| 0 <= i < s.len() && s[i].address@ == a;
            if i < d.len() {
                assert(d[i].address@ == a);
            }
        }
        if !seen(d, s.last().address@) {
            let g = f.push(s.last());
            if seen(f, a) {
                let j = choose|j: int| 0 <= j < f.len() && f[j].address@ == a;
                assert(g[j].address@ == a);
            }
            if seen(g, a) && !seen(f, a) {
                let j = choose|j: int| 0 <= j < g.len() && g[j].address@ == a;
                if j < f.len() {
                    assert(f[j].address@ == a);
                }
                assert(s[s.len() - 1].address@ == a);
            }
            if s.last().address@ == a {
                assert(g[g.len() - 1].address@ == a);
            }
        } else if s.last().address@ == a {
            assert(seen(d, a));
        }
    }
}

/// The given balances, or a single grant of `amount` to `creator` when none
/// are given.
pub fn balances_or_default(balances: Option<Vec<Cw20Coin>>, creator: String, amount: u128) -> (r:
    Vec<Cw20Coin>)
    ensures
        match balances {
            Some(b) => r == b,
            None => r@ == seq![Cw20Coin { address: creator, amount }],
        },
{
    match balances {
        Some(b) => b,
        None => {
            let mut v: Vec<Cw20Coin> = Vec::new();
            v.push(Cw20Coin { address: creator, amount });
            v
        },
    }
}

/// Keeps the first balance given for each address and drops the later ones,
/// so that each address holds power once.
pub fn collapse_balances(balances: Vec<Cw20Coin>) -> (r: Vec<Cw20Coin>)
    ensures
        r@ == first_per_address(balances@),
{
    let mut out: Vec<Cw20Coin> = Vec::new();
    let mut i: usize = 0;
    while i < balances.len()
        invariant
            i <= balances@.len(),
            out@ == first_per_address(balances@.take(i as int)),
        decreases balances@.len() - i,
    {
        let c = &balances[i];
        let mut j: usize = 0;
        let mut dup: bool = false;
        while !dup && j < out.len()
            invariant
                j <= out@.len(),
                forall|k: int| 0 <= k < j ==> out@[k].address@ != c.address@,
                dup ==> j < out@.len() && out@[j as int].address@ == c.address@,
            decreases out@.len() - j + if dup {
                0int
            } else {
                1int
            },
        {
            if out[j].address == c.address {
                dup = true;
            } else {
                j = j + 1;
            }
        }
        proof {
            let t = balances@.take(i as int + 1);
            assert(t.drop_last() =~= balances@.take(i as int));
            lemma_seen_first(balances@.take(i as int), c.address@);
        }
        if !dup {
            out.push(Cw20Coin { address: c.address.clone(), amount: c.amount });
        }
        i = i + 1;
    }
    assert(balances@.take(i as int) =~= balances@);
    out
}

/// The group members for the initial weights: the first entry per address,
/// each amount taken as a weight.
pub fn members_from_weights(weights: Vec<Cw20Coin>) -> (r: Vec<Member>)
    ensures
        r@ == first_per_address(weights@).map_values(|c: Cw20Coin| member_of(c)),
{
    let firsts = collapse_balances(weights);
    let mut out: Vec<Member> = Vec::new();
    let mut i: usize = 0;
    while i < firsts.len()
        invariant
            i <= firsts@.len(),
            out@ == firsts@.take(i as int).map_values(|c: Cw20Coin| member_of(c)),
        decreases firsts@.len() - i,
    {
        let c = &firsts[i];
        let a: u128 = c.amount;
        let w: u64 = #[verifier::truncate] (a as u64);
        assert(w == (a % 0x1_0000_0000_0000_0000) as u64) by (bit_vector)
            requires
                w == #[verifier::truncate] (a as u64),
        ;
        out.push(Member { addr: c.address.clone(), weight: w });
        proof {
            assert(firsts@.take(i as int + 1) =~= firsts@.take(i as int).push(*c));
            assert(out@ =~= firsts@.take(i as int + 1).map_values(|c: Cw20Coin| member_of(c)));
        }
        i = i + 1;
    }
    assert(firsts@.take(i as int) =~= firsts@);
    out
}

} // verus!

use vstd::prelude::*;
use vstd::arithmetic::div_mod::{lemma_fundamental_div_mod, lemma_hoist_over_denominator, lemma_mod_pos_bound};

verus! {

/// Basis points that make up the whole of a sale amount.
pub const FULL_SHARE_BP: u32 = 10000;

/// What `bp` basis points of `amount` come to, rounded down.
pub open spec fn share_of(bp: int, amount: int) -> int {
    bp * amount / 10000
}

/// Sum of all shares of a royalty table, in basis points.
pub open spec fn total_bp(table: Seq<(String, u32)>) -> int
    decreases table.len(),
{
    if table.len() == 0 {
        0
    } else {
        total_bp(table.drop_last()) + table.last().1
    }
}

/// Sum of the shares of the beneficiaries other than `owner`.
pub open spec fn assigned_bp(table: Seq<(String, u32)>, owner: Seq<char>) -> int
    decreases table.len(),
{
    if table.len() == 0 {
        0
    } else if table.last().0@ == owner {
        assigned_bp(table.drop_last(), owner)
    } else {
        assigned_bp(table.drop_last(), owner) + table.last().1
    }
}

/// No beneficiary appears twice in a royalty table.
pub open spec fn keys_unique(table: Seq<(String, u32)>) -> bool {
    forall|i: int, j: int|
        0 <= i < j < table.len() ==> #[trigger] table[i].0@ != #[trigger] table[j].0@
}

/// The royalty part of a payout: one entry per beneficiary other than `owner`, in table order.
pub open spec fn royalty_entries(table: Seq<(String, u32)>, owner: Seq<char>, amount: int) -> Seq<
    (Seq<char>, int),
>
    decreases table.len(),
{
    if table.len() == 0 {
        Seq::empty()
    } else if table.last().0@ == owner {
        royalty_entries(table.drop_last(), owner, amount)
    } else {
        royalty_entries(table.drop_last(), owner, amount).push(
            (table.last().0@, share_of(table.last().1 as int, amount)),
        )
    }
}

/// The whole payout: the royalties, then the owner's residual share.
pub open spec fn payout_entries(table: Seq<(String, u32)>, owner: Seq<char>, amount: int) -> Seq<
    (Seq<char>, int),
> {
    royalty_entries(table, owner, amount).push(
        (owner, share_of(10000 - assigned_bp(table, owner), amount)),
    )
}

/// Sum of the amounts of a list of payout entries.
pub open spec fn sum_amounts(entries: Seq<(Seq<char>, int)>) -> int
    decreases entries.len(),
{
    if entries.len() == 0 {
        0
    } else {
        sum_amounts(entries.drop_last()) + entries.last().1
    }
}

/// Amounts owed to each beneficiary of a sale.
pub struct Payout {
    pub payout: Vec<(String, u128)>,
}

impl Payout {
    /// The entries as (beneficiary, amount) pairs of mathematical values.
    pub open spec fn entries(&self) -> Seq<(Seq<char>, int)> {
        self.payout@.map_values(|e: (String, u128)| (e.0@, e.1 as int))
    }
}

proof fn lemma_share_bounds(bp: int, amount: int)
    requires
        bp >= 0,
        amount >= 0,
    ensures
        10000 * share_of(bp, amount) <= bp * amount,
        bp * amount <= 10000 * share_of(bp, amount) + 9999,
        share_of(bp, amount) >= 0,
        bp <= 10000 ==> share_of(bp, amount) <= amount,
{
    lemma_fundamental_div_mod(bp * amount, 10000);
    lemma_mod_pos_bound(bp * amount, 10000);
    assert(bp * amount >= 0) by (nonlinear_arith)
        requires
            bp >= 0,
            amount >= 0,
    ;
    if bp <= 10000 {
        assert(bp * amount <= 10000 * amount) by (nonlinear_arith)
            requires
                bp <= 10000,
                amount >= 0,
        ;
    }
}

/// `bp` basis points of `amount`, rounded down, computed without overflow.
pub fn royalty_to_payout(bp: u32, amount: u128) -> (r: u128)
    requires
        bp <= FULL_SHARE_BP,
    ensures
        r == share_of(bp as int, amount as int),
{
    let q: u128 = amount / 10000;
    let m: u128 = amount % 10000;
    proof {
        lemma_fundamental_div_mod(amount as int, 10000);
        lemma_mod_pos_bound(amount as int, 10000);
        lemma_hoist_over_denominator(m * bp, q * bp, 10000);
        assert(m * bp + (q * bp) * 10000 == bp * amount) by (nonlinear_arith)
            requires
                amount == 10000 * q + m,
        ;
        assert(q * bp <= q * 10000) by (nonlinear_arith)
            requires
                bp <= 10000,
        ;
        assert(m * bp <= 10000 * 10000) by (nonlinear_arith)
            requires
                bp <= 10000,
                m < 10000,
        ;
        lemma_share_bounds(bp as int, amount as int);
    }
    let low: u128 = m * (bp as u128) / 10000;
    q * (bp as u128) + low
}

proof fn lemma_total_prefix(table: Seq<(String, u32)>, i: int)
    requires
        0 <= i <= table.len(),
    ensures
        total_bp(table.take(i)) <= total_bp(table),
    decreases table.len(),
{
    if i == table.len() {
        assert(table.take(i) =~= table);
    } else {
        assert(table.take(i) =~= table.drop_last().take(i));
        lemma_total_prefix(table.drop_last(), i);
    }
}

/// Whether the shares of `table` sum to at most the whole.
pub fn shares_within_whole(table: &Vec<(String, u32)>) -> (r: bool)
    ensures
        r == (total_bp(table@) <= 10000),
{
    let mut sum: u64 = 0;
    let mut i: usize = 0;
    while i < table.len()
        invariant
            i <= table.len(),
            sum == total_bp(table@.take(i as int)),
            sum <= 10000,
        decreases table.len() - i,
    {
        assert(table@.take(i + 1).drop_last() =~= table@.take(i as int));
        sum = sum + table[i].1 as u64;
        if sum > 10000 {
            proof {
                lemma_total_prefix(table@, i + 1);
            }
            return false;
        }
        i = i + 1;
    }
    assert(table@.take(table.len() as int) =~= table@);
    true
}

proof fn lemma_assigned_le_total(table: Seq<(String, u32)>, owner: Seq<char>)
    ensures
        0 <= assigned_bp(table, owner) <= total_bp(table),
    decreases table.len(),
{
    if table.len() > 0 {
        lemma_assigned_le_total(table.drop_last(), owner);
    }
}

/// Splits `amount` between the beneficiaries of `table` other than `owner`, each
/// getting its share rounded down, and `owner`, who gets the remaining share
/// rounded down.
pub fn split_royalties(table: &Vec<(String, u32)>, owner: &String, amount: u128) -> (r: Payout)
    requires
        total_bp(table@) <= 10000,
    ensures
        r.entries() == payout_entries(table@, owner@, amount as int),
{
    let mut payout: Vec<(String, u128)> = Vec::new();
    let mut assigned: u32 = 0;
    let mut i: usize = 0;
    while i < table.len()
        invariant
            i <= table.len(),
            total_bp(table@) <= 10000,
            assigned == assigned_bp(table@.take(i as int), owner@),
            payout@.map_values(|e: (String, u128)| (e.0@, e.1 as int)) == royalty_entries(
                table@.take(i as int),
                owner@,
                amount as int,
            ),
        decreases table.len() - i,
    {
        let ghost prev = payout@;
        assert(table@.take(i + 1).drop_last() =~= table@.take(i as int));
        proof {
            lemma_total_prefix(table@, i + 1);
            lemma_assigned_le_total(table@.take(i + 1), owner@);
        }
        let (key, bp) = (&table[i].0, table[i].1);
        if *key != *owner {
            let share = royalty_to_payout(bp, amount);
            payout.push((key.clone(), share));
            assigned = assigned + bp;
            assert(payout@.map_values(|e: (String, u128)| (e.0@, e.1 as int)) =~= prev.map_values(
                |e: (String, u128)| (e.0@, e.1 as int),
            ).push((key@, share as int)));
        }
        i = i + 1;
    }
    assert(table@.take(table.len() as int) =~= table@);
    proof {
        lemma_assigned_le_total(table@, owner@);
    }
    let ghost prev = payout@;
    let rest = royalty_to_payout(FULL_SHARE_BP - assigned, amount);
    payout.push((owner.clone(), rest));
    assert(payout@.map_values(|e: (String, u128)| (e.0@, e.1 as int)) =~= prev.map_values(
        |e: (String, u128)| (e.0@, e.1 as int),
    ).push((owner@, rest as int)));
    Payout { payout }
}

proof fn lemma_royalty_bounds(table: Seq<(String, u32)>, owner: Seq<char>, amount: int)
    requires
        amount >= 0,
    ensures
        10000 * sum_amounts(royalty_entries(table, owner, amount)) <= assigned_bp(table, owner)
            * amount,
        assigned_bp(table, owner) * amount <= 10000 * sum_amounts(
            royalty_entries(table, owner, amount),
        ) + 9999 * royalty_entries(table, owner, amount).len(),
    decreases table.len(),
{
    if table.len() > 0 {
        let t = table.drop_last();
        lemma_royalty_bounds(t, owner, amount);
        if table.last().0@ != owner {
            let bp = table.last().1 as int;
            let s = royalty_entries(table, owner, amount);
            assert(s.drop_last() =~= royalty_entries(t, owner, amount));
            lemma_share_bounds(bp, amount);
            assert((assigned_bp(t, owner) + bp) * amount == assigned_bp(t, owner) * amount + bp
                * amount) by (nonlinear_arith);
        }
    }
}

/// Paying out a sale never hands out more than the sale amount, and loses less
/// than one unit per payout entry to rounding, for any royalty table whose
/// shares sum to at most the whole.
pub proof fn lemma_payout_conservation(table: Seq<(String, u32)>, owner: Seq<char>, amount: int)
    requires
        total_bp(table) <= 10000,
        amount >= 0,
    ensures
        sum_amounts(payout_entries(table, owner, amount)) <= amount,
        amount - sum_amounts(payout_entries(table, owner, amount)) < payout_entries(
            table,
            owner,
            amount,
        ).len(),
{
    let r = royalty_entries(table, owner, amount);
    let p = payout_entries(table, owner, amount);
    let a = assigned_bp(table, owner);
    lemma_royalty_bounds(table, owner, amount);
    lemma_assigned_le_total(table, owner);
    lemma_share_bounds(10000 - a, amount);
    assert(p.drop_last() =~= r);
    assert(a * amount + (10000 - a) * amount == 10000 * amount) by (nonlinear_arith);
}

} // verus!

//! Weighted random selection over spawn tables: sum the weights, draw
//! uniformly below the sum, and walk the table accumulating weights
//! until the draw falls inside an entry's span. A zero-weight kind is
//! never selected.

use vstd::prelude::*;

use crate::rng::rand_range_i32;

verus! {

/// One entry of a spawn table: a kind and its selection weight.
#[derive(Clone, Copy, Debug)]
pub struct Weighted<T> {
    pub weight: u32,
    pub item: T,
}

/// The sum of all weights in a table.
pub open spec fn spec_total_weight<T>(table: Seq<Weighted<T>>) -> int
    decreases table.len(),
{
    if table.len() == 0 {
        0
    } else {
        table.first().weight + spec_total_weight(table.drop_first())
    }
}

/// The kind a draw selects: the first entry whose cumulative weight
/// span contains the draw.
pub open spec fn spec_weighted_pick<T>(table: Seq<Weighted<T>>, draw: int) -> T
    recommends
        0 <= draw < spec_total_weight(table),
    decreases table.len(),
{
    if table.len() == 0 {
        arbitrary()
    } else if draw < table.first().weight {
        table.first().item
    } else {
        spec_weighted_pick(table.drop_first(), draw - table.first().weight)
    }
}

/// A weight sum is never negative.
pub proof fn lemma_total_weight_nonneg<T>(table: Seq<Weighted<T>>)
    ensures
        spec_total_weight(table) >= 0,
    decreases table.len(),
{
    if table.len() > 0 {
        lemma_total_weight_nonneg(table.drop_first());
    }
}

/// Sum all weights of a table.
pub fn total_weight<T: Copy>(table: &Vec<Weighted<T>>) -> (total: u32)
    requires
        spec_total_weight(table@) <= u32::MAX as int,
    ensures
        total == spec_total_weight(table@),
{
    let ghost all: Seq<Weighted<T>> = table@;
    let mut acc: u32 = 0;
    let mut i: usize = 0;
    proof {
        assert(all.subrange(0, all.len() as int) =~= all);
    }
    while i < table.len()
        invariant
            0 <= i <= all.len(),
            table@ == all,
            spec_total_weight(all) <= u32::MAX as int,
            acc + spec_total_weight(all.subrange(i as int, all.len() as int))
                == spec_total_weight(all),
        decreases all.len() - i,
    {
        proof {
            let suffix = all.subrange(i as int, all.len() as int);
            assert(suffix.drop_first() =~= all.subrange(i + 1, all.len() as int));
            lemma_total_weight_nonneg(suffix.drop_first());
            assert(suffix.first() == all[i as int]);
        }
        acc = acc + table[i].weight;
        i = i + 1;
    }
    proof {
        assert(all.subrange(all.len() as int, all.len() as int) =~= Seq::<Weighted<T>>::empty());
    }
    acc
}

/// Walk the table accumulating weights and return the kind whose span
/// contains the draw.
pub fn weighted_select<T: Copy>(table: &Vec<Weighted<T>>, draw: u32) -> (r: T)
    requires
        (draw as int) < spec_total_weight(table@),
    ensures
        r == spec_weighted_pick(table@, draw as int),
{
    let ghost all: Seq<Weighted<T>> = table@;
    let mut d: u32 = draw;
    let mut i: usize = 0;
    proof {
        assert(all.subrange(0, all.len() as int) =~= all);
    }
    let n: usize = table.len();
    loop
        invariant
            0 <= i <= all.len(),
            all.len() == n as int,
            table@ == all,
            (d as int) < spec_total_weight(all.subrange(i as int, all.len() as int)),
            spec_weighted_pick(all, draw as int) == spec_weighted_pick(
                all.subrange(i as int, all.len() as int),
                d as int,
            ),
        decreases all.len() - i,
    {
        proof {
            let suffix = all.subrange(i as int, all.len() as int);
            if i == all.len() {
                assert(suffix =~= Seq::<Weighted<T>>::empty());
                assert(spec_total_weight(suffix) == 0);
            }
            assert(i < all.len());
            assert(suffix.drop_first() =~= all.subrange(i + 1, all.len() as int));
            assert(suffix.first() == all[i as int]);
        }
        if d < table[i].weight {
            return table[i].item;
        }
        d = d - table[i].weight;
        i = i + 1;
    }
}

/// When only one kind of a table has a non-zero weight, every valid
/// draw selects that kind.
pub proof fn lemma_weighted_pick_single<T>(table: Seq<Weighted<T>>, k: int, draw: int)
    requires
        0 <= k < table.len(),
        table[k].weight > 0,
        forall|j: int| 0 <= j < table.len() && j != k ==> (#[trigger] table[j]).weight == 0,
        0 <= draw < spec_total_weight(table),
    ensures
        spec_weighted_pick(table, draw) == table[k].item,
    decreases table.len(),
{
    if k == 0 {
        if draw >= table.first().weight {
            lemma_total_weight_all_zero(table.drop_first());
        }
    } else {
        assert(table.first() == table[0]);
        lemma_weighted_pick_single(table.drop_first(), k - 1, draw);
    }
}

/// A table whose weights are all zero sums to zero.
proof fn lemma_total_weight_all_zero<T>(table: Seq<Weighted<T>>)
    requires
        forall|j: int| 0 <= j < table.len() ==> (#[trigger] table[j]).weight == 0,
    ensures
        spec_total_weight(table) == 0,
    decreases table.len(),
{
    if table.len() > 0 {
        lemma_total_weight_all_zero(table.drop_first());
    }
}

/// Every valid draw selects a kind that is in the table with a
/// non-zero weight: a zero-weight kind is never selected.
pub proof fn lemma_weighted_pick_positive<T>(table: Seq<Weighted<T>>, draw: int)
    requires
        0 <= draw < spec_total_weight(table),
    ensures
        exists|k: int|
            0 <= k < table.len() && (#[trigger] table[k]).item == spec_weighted_pick(table, draw)
                && table[k].weight > 0,
    decreases table.len(),
{
    if table.len() > 0 {
        if draw < table.first().weight {
            assert(table[0].item == spec_weighted_pick(table, draw) && table[0].weight > 0);
        } else {
            lemma_weighted_pick_positive(table.drop_first(), draw - table.first().weight);
            let k0 = choose|k0: int|
                0 <= k0 < table.drop_first().len() && (#[trigger] table.drop_first()[k0]).item
                    == spec_weighted_pick(table.drop_first(), draw - table.first().weight)
                    && table.drop_first()[k0].weight > 0;
            assert(table[k0 + 1].item == spec_weighted_pick(table, draw) && table[k0 + 1].weight
                > 0);
        }
    }
}

/// Sum the table's weights, draw uniformly below the sum, and return
/// the selected kind. Whatever the draw, the result is a kind of the
/// table with a non-zero weight.
pub fn weighted_draw<T: Copy>(table: &Vec<Weighted<T>>) -> (r: T)
    requires
        0 < spec_total_weight(table@) <= i32::MAX as int,
    ensures
        exists|k: int|
            0 <= k < table@.len() && (#[trigger] table@[k]).item == r && table@[k].weight > 0,
{
    let total = total_weight(table);
    let draw = rand_range_i32(0, total as i32);
    proof {
        lemma_weighted_pick_positive(table@, draw as int);
    }
    weighted_select(table, draw as u32)
}

} // verus!

//! Slice utilities and the depth-threshold tables that scale spawn
//! weights with dungeon depth.

use vstd::prelude::*;

verus! {

/// Mutably borrow two *separate* elements of the given slice.
///
/// The indices must be distinct and in bounds; asking for the same
/// element twice is a broken invariant, not a runtime contingency.
pub fn mut_two<T>(first_index: usize, second_index: usize, items: &mut [T]) -> (r: (&mut T, &mut T))
    requires
        first_index != second_index,
        first_index < old(items).len(),
        second_index < old(items).len(),
    ensures
        *r.0 == old(items)@[first_index as int],
        *r.1 == old(items)@[second_index as int],
        final(items)@ =~= old(items)@.update(first_index as int, *final(r.0)).update(
            second_index as int,
            *final(r.1),
        ),
{
    let split_at_index = if first_index < second_index {
        second_index
    } else {
        first_index
    };

    let (first_slice, second_slice) = items.split_at_mut(split_at_index);

    if first_index < second_index {
        let r0 = &mut first_slice[first_index];
        let r1 = &mut second_slice[0];
        (r0, r1)
    } else {
        let r1 = &mut first_slice[second_index];
        let r0 = &mut second_slice[0];
        (r0, r1)
    }
}

/// One step of a depth-threshold table: from `level` on, the table
/// yields `value` (until a higher threshold takes over).
#[derive(Clone, Copy, Debug, PartialEq, Eq, Structural)]
pub struct Transition {
    pub level: u32,
    pub value: u32,
}

/// The value a threshold table yields at `level`: the value of the
/// last entry whose threshold is at most `level`, or 0 if none is.
pub open spec fn spec_from_dungeon_level(table: Seq<Transition>, level: u32) -> u32
    decreases table.len(),
{
    if table.len() == 0 {
        0u32
    } else if table.last().level <= level {
        table.last().value
    } else {
        spec_from_dungeon_level(table.drop_last(), level)
    }
}

/// Scan the table from the highest threshold down and return the
/// value of the first entry whose threshold is at most `level`,
/// defaulting to 0: a step function of depth, not interpolated.
pub fn from_dungeon_level(table: &[Transition], level: u32) -> (v: u32)
    ensures
        v == spec_from_dungeon_level(table@, level),
{
    let mut i: usize = table.len();
    proof {
        assert(table@.subrange(0, table@.len() as int) =~= table@);
    }
    while i > 0
        invariant
            i <= table@.len(),
            spec_from_dungeon_level(table@, level) == spec_from_dungeon_level(
                table@.subrange(0, i as int),
                level,
            ),
        decreases i,
    {
        i = i - 1;
        proof {
            assert(table@.subrange(0, i + 1).drop_last() =~= table@.subrange(0, i as int));
        }
        if table[i].level <= level {
            assert(table@.subrange(0, i + 1).last() == table@[i as int]);
            return table[i].value;
        }
    }
    assert(table@.subrange(0, 0) =~= Seq::<Transition>::empty());
    0
}

/// A well-formed threshold table: thresholds and values both
/// non-decreasing, so the table defines a monotonic step function.
pub open spec fn table_sorted(table: Seq<Transition>) -> bool {
    forall|i: int, j: int|
        0 <= i <= j < table.len() ==> (#[trigger] table[i]).level <= (#[trigger] table[j]).level
            && table[i].value <= table[j].value
}

/// The value a sorted table yields never exceeds its last value.
pub proof fn lemma_threshold_value_bound(table: Seq<Transition>, level: u32)
    requires
        table_sorted(table),
        table.len() > 0,
    ensures
        spec_from_dungeon_level(table, level) <= table.last().value,
    decreases table.len(),
{
    if table.last().level <= level {
    } else if table.len() > 1 {
        assert(table_sorted(table.drop_last()));
        lemma_threshold_value_bound(table.drop_last(), level);
        assert(table.drop_last().last() == table[table.len() - 2]);
        assert(table[table.len() - 2].value <= table[table.len() - 1].value);
    } else {
        assert(table.drop_last().len() == 0);
        assert(spec_from_dungeon_level(table.drop_last(), level) == 0);
    }
}

/// The value a sorted threshold table derives is monotonically
/// non-decreasing in the depth: a deeper level never yields a smaller
/// value.
pub proof fn lemma_threshold_monotone(table: Seq<Transition>, d1: u32, d2: u32)
    requires
        table_sorted(table),
        d1 <= d2,
    ensures
        spec_from_dungeon_level(table, d1) <= spec_from_dungeon_level(table, d2),
    decreases table.len(),
{
    if table.len() > 0 {
        assert(table_sorted(table.drop_last()));
        if table.last().level <= d1 {
        } else if table.last().level <= d2 {
            if table.len() > 1 {
                lemma_threshold_value_bound(table.drop_last(), d1);
                assert(table.drop_last().last() == table[table.len() - 2]);
                assert(table[table.len() - 2].value <= table[table.len() - 1].value);
            } else {
                assert(table.drop_last().len() == 0);
                assert(spec_from_dungeon_level(table.drop_last(), d1) == 0);
            }
        } else {
            lemma_threshold_monotone(table.drop_last(), d1, d2);
        }
    }
}

/// The index of the bracket (table entry) that `level` falls in, or
/// -1 when `level` is below every threshold.
pub open spec fn threshold_bracket(table: Seq<Transition>, level: u32) -> int
    decreases table.len(),
{
    if table.len() == 0 {
        -1
    } else if table.last().level <= level {
        table.len() - 1
    } else {
        threshold_bracket(table.drop_last(), level)
    }
}

/// Two depths that fall in the same bracket of a table derive exactly
/// the same value.
pub proof fn lemma_threshold_same_bracket(table: Seq<Transition>, d1: u32, d2: u32)
    requires
        threshold_bracket(table, d1) == threshold_bracket(table, d2),
    ensures
        spec_from_dungeon_level(table, d1) == spec_from_dungeon_level(table, d2),
    decreases table.len(),
{
    if table.len() > 0 {
        if table.last().level <= d1 && table.last().level <= d2 {
        } else if table.last().level <= d1 || table.last().level <= d2 {
            // One picks the last entry, the other does not: their
            // brackets differ, contradicting the hypothesis.
            lemma_threshold_bracket_range(table.drop_last(), d1);
            lemma_threshold_bracket_range(table.drop_last(), d2);
        } else {
            lemma_threshold_same_bracket(table.drop_last(), d1, d2);
        }
    }
}

/// A bracket index is always below the table's length.
proof fn lemma_threshold_bracket_range(table: Seq<Transition>, level: u32)
    ensures
        -1 <= threshold_bracket(table, level) < table.len(),
    decreases table.len(),
{
    if table.len() > 0 && !(table.last().level <= level) {
        lemma_threshold_bracket_range(table.drop_last(), level);
    }
}

} // verus!

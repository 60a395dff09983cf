//! The bit lanes of a mask: how many offsets a walk through them visits, which
//! offset it reaches after a given number of steps, and which step reaches a
//! given offset.
//!
//! An offset lies in the lanes of a mask when it has no bit outside the mask.
//! The walk visits these offsets in rising order and then returns to zero.

use vstd::prelude::*;
use vstd::arithmetic::div_mod::lemma_fundamental_div_mod;
use vstd::arithmetic::div_mod::lemma_fundamental_div_mod_converse;
use vstd::arithmetic::div_mod::lemma_mod_bound;
use crate::walk::{mask_step, walk};

verus! {

/// The lowest set bit of `mask`; zero for the empty mask.
pub open spec fn lowest_lane(mask: u32) -> u32 {
    mask & !mask.wrapping_sub(1)
}

/// `mask` without its lowest set bit.
pub open spec fn upper_lanes(mask: u32) -> u32 {
    mask & mask.wrapping_sub(1)
}

/// The offset `offset` has no bit outside `mask`.
pub open spec fn in_lanes(offset: u32, mask: u32) -> bool {
    offset & mask == offset
}

/// Taking the lowest bit from a mask that has one makes it smaller.
pub proof fn lemma_upper_lanes_below(mask: u32)
    by (bit_vector)
    requires
        mask != 0,
    ensures
        upper_lanes(mask) < mask,
{
}

/// The number of offsets in the lanes of `mask`: two to the number of its bits.
pub open spec fn lane_count(mask: u32) -> nat
    decreases mask,
    via lane_count_decreases
{
    if mask == 0 {
        1
    } else {
        2 * lane_count(upper_lanes(mask))
    }
}

#[via_fn]
proof fn lane_count_decreases(mask: u32) {
    if mask != 0 {
        lemma_upper_lanes_below(mask);
    }
}

/// The offset in the lanes of `mask` that holds the bits of `count`, lowest
/// bit in the lowest lane.
pub open spec fn deposit(mask: u32, count: nat) -> u32
    decreases mask,
    via deposit_decreases
{
    if mask == 0 {
        0
    } else if count % 2 == 1 {
        lowest_lane(mask) | deposit(upper_lanes(mask), count / 2)
    } else {
        deposit(upper_lanes(mask), count / 2)
    }
}

#[via_fn]
proof fn deposit_decreases(mask: u32, count: nat) {
    if mask != 0 {
        lemma_upper_lanes_below(mask);
    }
}

/// The number whose bits `offset` holds in the lanes of `mask`.
pub open spec fn extract(mask: u32, offset: u32) -> nat
    decreases mask,
    via extract_decreases
{
    if mask == 0 {
        0
    } else if offset & lowest_lane(mask) != 0 {
        1 + 2 * extract(upper_lanes(mask), offset & upper_lanes(mask))
    } else {
        2 * extract(upper_lanes(mask), offset & upper_lanes(mask))
    }
}

#[via_fn]
proof fn extract_decreases(mask: u32, offset: u32) {
    if mask != 0 {
        lemma_upper_lanes_below(mask);
    }
}

/// How an offset `rest` in the upper lanes of a mask, with or without the
/// lowest lane, behaves in the whole mask.
proof fn lemma_lane_bits(mask: u32, rest: u32)
    by (bit_vector)
    requires
        mask != 0,
        rest & upper_lanes(mask) == rest,
    ensures
        upper_lanes(mask) < mask,
        rest & mask == rest,
        (lowest_lane(mask) | rest) & mask == lowest_lane(mask) | rest,
        mask_step(rest, mask) == lowest_lane(mask) | rest,
        mask_step(lowest_lane(mask) | rest, mask) == mask_step(rest, upper_lanes(mask)),
        rest & lowest_lane(mask) == 0,
        (lowest_lane(mask) | rest) & lowest_lane(mask) != 0,
        (lowest_lane(mask) | rest) & upper_lanes(mask) == rest,
{
}

/// How an offset in the lanes of a mask splits into the lowest lane and the
/// upper lanes.
proof fn lemma_lane_split(mask: u32, offset: u32)
    by (bit_vector)
    requires
        mask != 0,
        offset & mask == offset,
    ensures
        (offset & upper_lanes(mask)) & upper_lanes(mask) == offset & upper_lanes(mask),
        offset & lowest_lane(mask) != 0 ==> lowest_lane(mask) | (offset & upper_lanes(mask))
            == offset,
        offset & lowest_lane(mask) == 0 ==> offset & upper_lanes(mask) == offset,
{
}

/// A mask has at least one offset in its lanes: zero.
pub proof fn lemma_lane_count_positive(mask: u32)
    ensures
        lane_count(mask) >= 1,
    decreases mask,
{
    if mask != 0 {
        lemma_upper_lanes_below(mask);
        lemma_lane_count_positive(upper_lanes(mask));
    }
}

/// A deposited offset lies in the lanes of its mask, and counts past the lane
/// count start over.
pub proof fn lemma_deposit_in_lanes(mask: u32, count: nat)
    ensures
        in_lanes(deposit(mask, count), mask),
    decreases mask,
{
    if mask == 0 {
        assert(0u32 & 0u32 == 0u32) by (bit_vector);
    } else {
        lemma_upper_lanes_below(mask);
        lemma_deposit_in_lanes(upper_lanes(mask), count / 2);
        lemma_lane_bits(mask, deposit(upper_lanes(mask), count / 2));
    }
}

/// Depositing zero gives zero.
pub proof fn lemma_deposit_zero(mask: u32)
    ensures
        deposit(mask, 0) == 0,
    decreases mask,
{
    if mask != 0 {
        lemma_upper_lanes_below(mask);
        lemma_deposit_zero(upper_lanes(mask));
    }
}

/// One step of the walk leads from the offset of `count` to the offset of
/// `count + 1`, and from the last offset back to zero.
pub proof fn lemma_step_deposit(mask: u32, count: nat)
    requires
        count < lane_count(mask),
    ensures
        mask_step(deposit(mask, count), mask) == (if count + 1 < lane_count(mask) {
            deposit(mask, count + 1)
        } else {
            0
        }),
    decreases mask,
{
    if mask == 0 {
        assert(mask_step(0u32, 0u32) == 0u32) by (bit_vector);
    } else {
        let upper = upper_lanes(mask);
        let rest = deposit(upper, count / 2);
        lemma_upper_lanes_below(mask);
        lemma_deposit_in_lanes(upper, count / 2);
        lemma_lane_bits(mask, rest);
        if count % 2 == 1 {
            assert((count + 1) / 2 == count / 2 + 1);
            lemma_step_deposit(upper, count / 2);
        } else {
            assert((count + 1) / 2 == count / 2);
        }
    }
}

/// After `steps` steps the walk stands at the offset of `steps` modulo the
/// lane count.
pub proof fn lemma_walk_is_deposit(mask: u32, steps: nat)
    ensures
        walk(mask, steps) == deposit(mask, steps % lane_count(mask)),
    decreases steps,
{
    let lanes = lane_count(mask);
    lemma_lane_count_positive(mask);
    if steps == 0 {
        lemma_deposit_zero(mask);
    } else {
        let before = (steps - 1) as nat;
        lemma_walk_is_deposit(mask, before);
        lemma_mod_bound(before as int, lanes as int);
        lemma_step_deposit(mask, before % lanes);
        lemma_fundamental_div_mod(before as int, lanes as int);
        if before % lanes + 1 < lanes {
            lemma_fundamental_div_mod_converse(
                steps as int,
                lanes as int,
                before as int / lanes as int,
                (before % lanes + 1) as int,
            );
        } else {
            assert(steps == lanes * (before as int / lanes as int + 1)) by (nonlinear_arith)
                requires
                    before == lanes * (before as int / lanes as int) + before % lanes,
                    before % lanes + 1 == lanes,
                    steps == before + 1,
            ;
            lemma_fundamental_div_mod_converse(
                steps as int,
                lanes as int,
                before as int / lanes as int + 1,
                0,
            );
            lemma_deposit_zero(mask);
        }
    }
}

/// Extracting what was deposited gives the count back: no two counts below the
/// lane count share an offset.
pub proof fn lemma_extract_deposit(mask: u32, count: nat)
    requires
        count < lane_count(mask),
    ensures
        extract(mask, deposit(mask, count)) == count,
    decreases mask,
{
    if mask != 0 {
        let upper = upper_lanes(mask);
        let rest = deposit(upper, count / 2);
        lemma_upper_lanes_below(mask);
        lemma_deposit_in_lanes(upper, count / 2);
        lemma_lane_bits(mask, rest);
        lemma_extract_deposit(upper, count / 2);
    }
}

/// Depositing what was extracted from an offset in the lanes gives the offset
/// back, and what was extracted is below the lane count: every offset in the
/// lanes is reached.
pub proof fn lemma_deposit_extract(mask: u32, offset: u32)
    requires
        in_lanes(offset, mask),
    ensures
        extract(mask, offset) < lane_count(mask),
        deposit(mask, extract(mask, offset)) == offset,
    decreases mask,
{
    if mask == 0 {
        assert(offset & 0u32 == 0u32) by (bit_vector);
    } else {
        let upper = upper_lanes(mask);
        lemma_upper_lanes_below(mask);
        lemma_lane_split(mask, offset);
        lemma_deposit_extract(upper, offset & upper);
    }
}

/// The lowest lane and the upper lanes of a mask make up the mask.
proof fn lemma_lanes_join(mask: u32)
    by (bit_vector)
    requires
        mask != 0,
    ensures
        lowest_lane(mask) | upper_lanes(mask) == mask,
{
}

/// The last offset of the walk is the mask itself.
pub proof fn lemma_deposit_last(mask: u32)
    ensures
        lane_count(mask) >= 1,
        deposit(mask, (lane_count(mask) - 1) as nat) == mask,
    decreases mask,
{
    lemma_lane_count_positive(mask);
    if mask != 0 {
        let upper = upper_lanes(mask);
        lemma_upper_lanes_below(mask);
        lemma_lane_count_positive(upper);
        lemma_deposit_last(upper);
        lemma_lanes_join(mask);
        let last = (lane_count(mask) - 1) as nat;
        assert(last % 2 == 1);
        assert(last / 2 == lane_count(upper) - 1);
    }
}

} // verus!

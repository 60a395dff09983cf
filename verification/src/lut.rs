//! The inverse-index builder: for every block of a deswizzled image, the place
//! of the same block in the linear probe.

use vstd::prelude::*;
use vstd::relations::injective_on;
use vstd::set_lib::{lemma_int_range, lemma_map_size, lemma_subset_equality, set_int_range};
use ahash::AHashMap;
use rayon::iter::IntoParallelRefIterator;
use rayon::iter::ParallelIterator;

verus! {

/// The entry of a table for a block that the probe does not hold.
pub const MISSING: i64 = -1;

/// The largest capacity that an index is made with.
pub const CAPACITY_LIMIT: usize = 0xff_ffff;

/// ahash's `AHashMap`, a hash map of std with the hasher of ahash. Nothing
/// is known of a value of it but what `index_entries` names.
#[verifier::external_type_specification]
#[verifier::external_body]
#[verifier::reject_recursive_types(K)]
#[verifier::reject_recursive_types(V)]
#[verifier::reject_recursive_types(S)]
pub struct ExAHashMap<K, V, S>(ahash::AHashMap<K, V, S>);

/// ahash's `RandomState`, the hasher of an `AHashMap` that names no other.
#[verifier::external_type_specification]
#[verifier::external_body]
pub struct ExRandomState(ahash::RandomState);

/// What an index holds: the place stored for each block in it.
pub uninterp spec fn index_entries(index: AHashMap<u128, usize>) -> Map<u128, usize>;

/// What an index holds when nothing was stored in it.
pub open spec fn no_entries() -> Map<u128, usize> {
    Map::empty()
}

/// The last place of `block` in `linear`, or -1 where `linear` does not hold it.
pub open spec fn last_place(linear: Seq<u128>, block: u128) -> int
    decreases linear.len(),
{
    if linear.len() == 0 {
        -1
    } else if linear.last() == block {
        linear.len() - 1
    } else {
        last_place(linear.drop_last(), block)
    }
}

/// The index of a probe: every block of `linear` with its last place.
pub open spec fn block_index(linear: Seq<u128>) -> Map<u128, usize> {
    Map::new(
        |block: u128| last_place(linear, block) >= 0,
        |block: u128| last_place(linear, block) as usize,
    )
}

/// The table entry for `block` in an index that holds `entries`.
pub open spec fn entry_of(entries: Map<u128, usize>, block: u128) -> i64 {
    if entries.dom().contains(block) {
        entries[block] as i64
    } else {
        MISSING
    }
}

/// The inverse-index table of `deswizzled` over the probe `linear`: entry `i`
/// is the last place in `linear` of block `i` of `deswizzled`, or `MISSING`.
pub open spec fn deswizzle_lut(linear: Seq<u128>, deswizzled: Seq<u128>) -> Seq<i64> {
    Seq::new(deswizzled.len(), |i: int| entry_of(block_index(linear), deswizzled[i]))
}

/// An empty index made with ahash's `AHashMap::with_capacity`. The capacity is
/// kept so small that the size of the table is far from overflow.
#[verifier::external_body]
fn index_with_capacity(capacity: usize) -> (made: AHashMap<u128, usize>)
    requires
        capacity <= CAPACITY_LIMIT,
    ensures
        index_entries(made) == no_entries(),
{
    AHashMap::with_capacity(capacity)
}

/// Stores `place` for `block` with ahash's `AHashMap::insert`, in place of
/// what the index held for `block` before.
#[verifier::external_body]
fn index_insert(index: &mut AHashMap<u128, usize>, block: u128, place: usize)
    ensures
        index_entries(*final(index)) == index_entries(*old(index)).insert(block, place),
{
    index.insert(block, place);
}

/// Looks `block` up with ahash's `AHashMap::get`: the place stored for it, if
/// any.
#[verifier::external_body]
fn index_get(index: &AHashMap<u128, usize>, block: u128) -> (place: Option<usize>)
    ensures
        place == (if index_entries(*index).dom().contains(block) {
            Some(index_entries(*index)[block])
        } else {
            None
        }),
{
    index.get(&block).copied()
}

/// Looks every block up with rayon's `par_iter`, `map` and `collect`: the
/// entries stand in the order of the blocks, whichever was looked up first.
#[verifier::external_body]
fn par_lookup(index: &AHashMap<u128, usize>, blocks: &[u128]) -> (entries: Vec<i64>)
    ensures
        entries@.len() == blocks@.len(),
        forall|i: int|
            0 <= i < blocks@.len() ==> #[trigger] entries@[i] == entry_of(
                index_entries(*index),
                blocks@[i],
            ),
{
    blocks.par_iter().map(|block| lookup(index, *block)).collect()
}

/// The table entry for `block`: its place in the index, or `MISSING`.
fn lookup(index: &AHashMap<u128, usize>, block: u128) -> (entry: i64)
    ensures
        entry == entry_of(index_entries(*index), block),
{
    match index_get(index, block) {
        Some(place) => #[verifier::truncate]
        (place as i64),
        None => MISSING,
    }
}

/// Taking the last block from a probe changes the last place of that block
/// only.
proof fn lemma_block_index_push(linear: Seq<u128>)
    requires
        linear.len() > 0,
    ensures
        block_index(linear) == block_index(linear.drop_last()).insert(
            linear.last(),
            (linear.len() - 1) as usize,
        ),
{
    assert(block_index(linear) =~= block_index(linear.drop_last()).insert(
        linear.last(),
        (linear.len() - 1) as usize,
    ));
}

/// Builds the inverse-index table of `deswizzled` over the probe `linear`. A
/// block that `linear` holds more than once counts at its last place; a block
/// that it does not hold gives `MISSING`.
pub fn create_mip_deswizzle_lut(linear: &[u128], deswizzled: &[u128]) -> (lut: Vec<i64>)
    ensures
        lut@ == deswizzle_lut(linear@, deswizzled@),
{
    let count: usize = linear.len();
    let capacity: usize = if count <= CAPACITY_LIMIT {
        count
    } else {
        CAPACITY_LIMIT
    };
    let mut linear_index_by_block = index_with_capacity(capacity);
    let mut i: usize = 0;
    assert(index_entries(linear_index_by_block) =~= block_index(linear@.take(0)));
    while i < count
        invariant
            i <= count == linear@.len(),
            index_entries(linear_index_by_block) == block_index(linear@.take(i as int)),
        decreases count - i,
    {
        index_insert(&mut linear_index_by_block, linear[i], i);
        i += 1;
        proof {
            assert(linear@.take(i as int).drop_last() =~= linear@.take(i - 1));
            lemma_block_index_push(linear@.take(i as int));
        }
    }
    assert(linear@.take(count as int) =~= linear@);
    let lut = par_lookup(&linear_index_by_block, deswizzled);
    assert(lut@ =~= deswizzle_lut(linear@, deswizzled@));
    lut
}

/// Builds the inverse-index table of every level for which both chains have
/// one: the table of a level looks the blocks of its deswizzled image up in
/// its linear probe.
pub fn create_deswizzle_luts(
    linear_mipmaps: &[Vec<u128>],
    deswizzled_mipmaps: &[Vec<u128>],
) -> (luts: Vec<Vec<i64>>)
    ensures
        luts@.len() == (if linear_mipmaps@.len() <= deswizzled_mipmaps@.len() {
            linear_mipmaps@.len()
        } else {
            deswizzled_mipmaps@.len()
        }),
        forall|i: int|
            0 <= i < luts@.len() ==> (#[trigger] luts@[i])@ == deswizzle_lut(
                linear_mipmaps@[i]@,
                deswizzled_mipmaps@[i]@,
            ),
{
    let levels: usize = if linear_mipmaps.len() <= deswizzled_mipmaps.len() {
        linear_mipmaps.len()
    } else {
        deswizzled_mipmaps.len()
    };
    let mut luts: Vec<Vec<i64>> = Vec::new();
    let mut level: usize = 0;
    while level < levels
        invariant
            level <= levels,
            levels <= linear_mipmaps@.len(),
            levels <= deswizzled_mipmaps@.len(),
            luts@.len() == level,
            forall|i: int|
                0 <= i < level ==> (#[trigger] luts@[i])@ == deswizzle_lut(
                    linear_mipmaps@[i]@,
                    deswizzled_mipmaps@[i]@,
                ),
        decreases levels - level,
    {
        let mip_lut = create_mip_deswizzle_lut(
            linear_mipmaps[level].as_slice(),
            deswizzled_mipmaps[level].as_slice(),
        );
        luts.push(mip_lut);
        level += 1;
    }
    luts
}

/// The least entry of a table that is not empty.
pub open spec fn least_entry(lut: Seq<i64>) -> i64
    decreases lut.len(),
{
    if lut.len() <= 1 {
        lut[0]
    } else if lut.last() < least_entry(lut.drop_last()) {
        lut.last()
    } else {
        least_entry(lut.drop_last())
    }
}

/// The greatest entry of a table that is not empty.
pub open spec fn greatest_entry(lut: Seq<i64>) -> i64
    decreases lut.len(),
{
    if lut.len() <= 1 {
        lut[0]
    } else if lut.last() > greatest_entry(lut.drop_last()) {
        lut.last()
    } else {
        greatest_entry(lut.drop_last())
    }
}

/// The least and the greatest entry of a table are entries of it, and no
/// entry is less than the one or greater than the other.
pub proof fn lemma_entry_range(lut: Seq<i64>)
    requires
        lut.len() > 0,
    ensures
        lut.contains(least_entry(lut)),
        lut.contains(greatest_entry(lut)),
        forall|i: int|
            0 <= i < lut.len() ==> least_entry(lut) <= #[trigger] lut[i] <= greatest_entry(lut),
    decreases lut.len(),
{
    if lut.len() > 1 {
        let front = lut.drop_last();
        lemma_entry_range(front);
        let least = choose|i: int| 0 <= i < front.len() && front[i] == least_entry(front);
        let greatest = choose|i: int| 0 <= i < front.len() && front[i] == greatest_entry(front);
        assert(lut[least] == front[least]);
        assert(lut[greatest] == front[greatest]);
        assert(lut[lut.len() - 1] == lut.last());
        assert forall|i: int| 0 <= i < lut.len() implies least_entry(lut) <= #[trigger] lut[i]
            <= greatest_entry(lut) by {
            if i < front.len() {
                assert(front[i] == lut[i]);
            }
        }
    } else {
        assert(lut[0] == least_entry(lut));
    }
}

/// The least and the greatest entry of a table that is not empty.
pub fn get_mipmap_range(lut: &[i64]) -> (range: (i64, i64))
    requires
        lut@.len() > 0,
    ensures
        range == (least_entry(lut@), greatest_entry(lut@)),
{
    let mut least: i64 = lut[0];
    let mut greatest: i64 = lut[0];
    let mut i: usize = 1;
    assert(lut@.take(1).len() == 1);
    assert(lut@.take(1)[0] == lut@[0]);
    while i < lut.len()
        invariant
            1 <= i <= lut@.len(),
            least == least_entry(lut@.take(i as int)),
            greatest == greatest_entry(lut@.take(i as int)),
        decreases lut@.len() - i,
    {
        proof {
            assert(lut@.take(i + 1).drop_last() =~= lut@.take(i as int));
            assert(lut@.take(i + 1).last() == lut@[i as int]);
        }
        if lut[i] < least {
            least = lut[i];
        }
        if lut[i] > greatest {
            greatest = lut[i];
        }
        i += 1;
    }
    assert(lut@.take(lut@.len() as int) =~= lut@);
    (least, greatest)
}

/// No block stands at two places of `blocks`.
pub open spec fn pairwise_distinct(blocks: Seq<u128>) -> bool {
    forall|i: int, j: int|
        0 <= i < j < blocks.len() ==> #[trigger] blocks[i] != #[trigger] blocks[j]
}

/// `table` holds every number from zero up to its length exactly once.
pub open spec fn is_permutation(table: Seq<i64>) -> bool {
    &&& forall|i: int| 0 <= i < table.len() ==> 0 <= #[trigger] table[i] < table.len()
    &&& forall|i: int, j: int|
        0 <= i < j < table.len() ==> #[trigger] table[i] != #[trigger] table[j]
    &&& forall|p: int| 0 <= p < table.len() ==> #[trigger] table.contains(p as i64)
}

/// The last place of a block is a place of that block, and `linear` does not
/// hold the block where it has no last place.
pub proof fn lemma_last_place(linear: Seq<u128>, block: u128)
    ensures
        -1 <= last_place(linear, block) < linear.len(),
        last_place(linear, block) >= 0 ==> linear[last_place(linear, block)] == block,
        forall|j: int|
            last_place(linear, block) < j < linear.len() ==> #[trigger] linear[j] != block,
    decreases linear.len(),
{
    if linear.len() > 0 && linear.last() != block {
        lemma_last_place(linear.drop_last(), block);
        assert forall|j: int| last_place(linear, block) < j < linear.len() implies #[trigger]
        linear[j] != block by {
            if j < linear.len() - 1 {
                assert(linear.drop_last()[j] == linear[j]);
            }
        }
    }
}

/// In a probe without repeated blocks, the table entry for the block at
/// `place` is `place`.
pub proof fn lemma_entry_of_distinct(linear: Seq<u128>, place: int)
    requires
        pairwise_distinct(linear),
        0 <= place < linear.len(),
        linear.len() <= usize::MAX,
        linear.len() <= i64::MAX,
    ensures
        entry_of(block_index(linear), linear[place]) == place,
{
    let last = last_place(linear, linear[place]);
    lemma_last_place(linear, linear[place]);
    if last < place {
        assert(linear[place] != linear[place]);
    }
    if last > place {
        assert(linear[place] != linear[last]);
    }
    assert(last == place);
}

/// The table of a deswizzled image of as many blocks as the probe, all of them
/// blocks of the probe and none repeated on either side, is a permutation of
/// the places of the probe.
pub proof fn lemma_lut_is_permutation(linear: Seq<u128>, deswizzled: Seq<u128>)
    requires
        pairwise_distinct(linear),
        pairwise_distinct(deswizzled),
        linear.len() == deswizzled.len(),
        linear.len() <= usize::MAX,
        linear.len() <= i64::MAX,
        forall|i: int| 0 <= i < deswizzled.len() ==> linear.contains(#[trigger] deswizzled[i]),
    ensures
        is_permutation(deswizzle_lut(linear, deswizzled)),
{
    let table = deswizzle_lut(linear, deswizzled);
    let count = table.len() as int;
    assert forall|i: int| 0 <= i < table.len() implies 0 <= #[trigger] table[i] < table.len()
        && linear[table[i] as int] == deswizzled[i] by {
        let j = choose|j: int| 0 <= j < linear.len() && linear[j] == deswizzled[i];
        lemma_entry_of_distinct(linear, j);
    }
    // The entries are as many as the places and no two are alike, so every
    // place is an entry.
    let places = set_int_range(0, count);
    let entry = |i: int| table[i] as int;
    let found = places.map(entry);
    lemma_int_range(0, count);
    assert(injective_on(entry, places)) by {
        assert forall|i: int, j: int|
            places.contains(i) && places.contains(j) && #[trigger] entry(i) == #[trigger] entry(
                j,
            ) implies i == j by {
            if i < j {
                assert(table[i] != table[j]);
            }
            if j < i {
                assert(table[j] != table[i]);
            }
        }
    }
    lemma_map_size(places, found, entry);
    assert(found.subset_of(places)) by {
        assert forall|p: int| found.contains(p) implies places.contains(p) by {
            let i = choose|i: int| places.contains(i) && entry(i) == p;
            assert(0 <= table[i] < table.len());
        }
    }
    lemma_subset_equality(found, places);
    assert forall|p: int| 0 <= p < table.len() implies #[trigger] table.contains(p as i64) by {
        assert(places.contains(p));
        assert(found.contains(p));
        let i = choose|i: int| places.contains(i) && entry(i) == p;
        assert(table[i] == p as i64);
    }
}

} // verus!

//! When a pair of masks tiles a grid: the walk then visits every tile-aligned
//! offset of the buffer exactly once, and swizzling and deswizzling undo each
//! other.

use vstd::prelude::*;
use vstd::arithmetic::div_mod::lemma_fundamental_div_mod;
use vstd::arithmetic::div_mod::lemma_fundamental_div_mod_converse;
use vstd::arithmetic::div_mod::lemma_mod_bound;
use vstd::arithmetic::div_mod::lemma_small_mod;
use crate::lanes::{
    deposit,
    extract,
    in_lanes,
    lane_count,
    lemma_deposit_extract,
    lemma_deposit_in_lanes,
    lemma_deposit_last,
    lemma_deposit_zero,
    lemma_extract_deposit,
    lemma_lane_count_positive,
    lemma_walk_is_deposit,
};
use crate::walk::{gathered, last_writer, scattered, tile_address, walk};

verus! {

/// `address` is the offset of one of `tiles` tiles of `tile_bytes` bytes that
/// lie one after the other from offset zero.
pub open spec fn is_tile_offset(address: int, tiles: nat, tile_bytes: nat) -> bool {
    &&& 0 <= address
    &&& address % (tile_bytes as int) == 0
    &&& address + tile_bytes <= tiles * tile_bytes
}

/// The walk with these masks over a grid of `width` by `height` tiles is a
/// one-to-one map from the tiles onto the tile offsets of the buffer.
pub open spec fn walk_tiles_grid(
    x_mask: u32,
    y_mask: u32,
    width: nat,
    height: nat,
    tile_bytes: nat,
) -> bool {
    &&& tile_bytes > 0
    &&& forall|t: nat|
        t < width * height ==> is_tile_offset(
            #[trigger] tile_address(x_mask, y_mask, width, t),
            width * height,
            tile_bytes,
        )
    &&& forall|t: nat, u: nat|
        t < width * height && u < width * height && #[trigger] tile_address(
            x_mask,
            y_mask,
            width,
            t,
        ) == #[trigger] tile_address(x_mask, y_mask, width, u) ==> t == u
    &&& forall|a: int| #[trigger]
        is_tile_offset(a, width * height, tile_bytes) ==> exists|t: nat|
            t < width * height && #[trigger] tile_address(x_mask, y_mask, width, t) == a
}

/// `value` has exactly one bit set.
pub open spec fn is_single_bit(value: u64) -> bool {
    value != 0 && value & ((value - 1) as u64) == 0
}

/// The masks share no lane, have as many offsets in their lanes as the grid
/// has columns and rows, and together hold every address bit of the buffer
/// above the bits inside a tile.
pub open spec fn masks_fill_grid(
    x_mask: u32,
    y_mask: u32,
    width: nat,
    height: nat,
    tile_bytes: u32,
) -> bool {
    &&& is_single_bit(tile_bytes as u64)
    &&& x_mask & y_mask == 0
    &&& lane_count(x_mask) == width
    &&& lane_count(y_mask) == height
    &&& is_single_bit(((x_mask | y_mask) as u64 + tile_bytes as u64) as u64)
    &&& (x_mask | y_mask) + tile_bytes == width * height * tile_bytes
}

/// Offsets in the lanes of two masks that share no lane add up without carry,
/// and the sum gives both back.
proof fn lemma_disjoint_offsets(x_mask: u32, y_mask: u32, x: u32, y: u32)
    by (bit_vector)
    requires
        x_mask & y_mask == 0,
        x & x_mask == x,
        y & y_mask == y,
    ensures
        x + y == (x | y),
        (x | y) & x_mask == x,
        (x | y) & y_mask == y,
        (x | y) & (x_mask | y_mask) == (x | y),
{
}

/// Where the masks hold every address bit of the buffer above the bits inside
/// a tile, the offsets in their lanes are the tile offsets.
proof fn lemma_lanes_are_tile_offsets(full: u32, tile_bytes: u32, address: u32)
    by (bit_vector)
    requires
        tile_bytes != 0,
        tile_bytes as u64 & ((tile_bytes as u64 - 1) as u64) == 0,
        (full as u64 + tile_bytes as u64) as u64 != 0,
        ((full as u64 + tile_bytes as u64) as u64) & (((full as u64 + tile_bytes as u64) as u64
            - 1) as u64) == 0,
    ensures
        address & full == address <==> address % tile_bytes == 0 && address + tile_bytes <= full
            + tile_bytes,
{
}

/// An offset in the lanes of two masks that share no lane splits into an
/// offset in the lanes of each.
proof fn lemma_split_offset(x_mask: u32, y_mask: u32, address: u32)
    by (bit_vector)
    requires
        x_mask & y_mask == 0,
        address & (x_mask | y_mask) == address,
    ensures
        (address & x_mask) & x_mask == address & x_mask,
        (address & y_mask) & y_mask == address & y_mask,
        (address & x_mask) | (address & y_mask) == address,
{
}

/// In a grid whose masks have as many offsets in their lanes as it has columns
/// and rows, the walk stands at tile `row * width + column` on the x offset of
/// `column` and on the y offset of `row`.
pub proof fn lemma_walk_of_tile(x_mask: u32, y_mask: u32, width: nat, height: nat, tile: nat)
    requires
        lane_count(x_mask) == width,
        lane_count(y_mask) == height,
        tile < width * height,
    ensures
        width > 0,
        tile % width < width,
        tile / width < height,
        tile == (tile / width) * width + tile % width,
        walk(x_mask, tile) == deposit(x_mask, tile % width),
        walk(y_mask, tile / width) == deposit(y_mask, tile / width),
{
    lemma_lane_count_positive(x_mask);
    lemma_fundamental_div_mod(tile as int, width as int);
    lemma_mod_bound(tile as int, width as int);
    assert(tile / width < height) by (nonlinear_arith)
        requires
            tile == width * (tile / width) + tile % width,
            0 <= tile % width,
            tile < width * height,
            width > 0,
    ;
    assert(0 <= tile as int / width as int) by (nonlinear_arith)
        requires
            tile >= 0,
            width > 0,
    ;
    assert(width * (tile / width) == (tile / width) * width) by (nonlinear_arith);
    lemma_walk_is_deposit(x_mask, tile);
    lemma_walk_is_deposit(y_mask, tile / width);
    lemma_small_mod(tile / width, height);
}

/// Masks that fill a grid tile it.
pub proof fn lemma_filling_masks_tile_grid(
    x_mask: u32,
    y_mask: u32,
    width: nat,
    height: nat,
    tile_bytes: u32,
)
    requires
        masks_fill_grid(x_mask, y_mask, width, height, tile_bytes),
    ensures
        walk_tiles_grid(x_mask, y_mask, width, height, tile_bytes as nat),
{
    let tiles = width * height;
    let full = x_mask | y_mask;
    let bytes = tile_bytes as nat;
    assert forall|t: nat| t < tiles implies is_tile_offset(
        #[trigger] tile_address(x_mask, y_mask, width, t),
        tiles,
        bytes,
    ) by {
        lemma_walk_of_tile(x_mask, y_mask, width, height, t);
        let x = deposit(x_mask, t % width);
        let y = deposit(y_mask, t / width);
        lemma_deposit_in_lanes(x_mask, t % width);
        lemma_deposit_in_lanes(y_mask, t / width);
        lemma_disjoint_offsets(x_mask, y_mask, x, y);
        lemma_lanes_are_tile_offsets(full, tile_bytes, x | y);
    }
    assert forall|t: nat, u: nat|
        t < tiles && u < tiles && #[trigger] tile_address(x_mask, y_mask, width, t)
            == #[trigger] tile_address(x_mask, y_mask, width, u) implies t == u by {
        lemma_walk_of_tile(x_mask, y_mask, width, height, t);
        lemma_walk_of_tile(x_mask, y_mask, width, height, u);
        let xt = deposit(x_mask, t % width);
        let yt = deposit(y_mask, t / width);
        let xu = deposit(x_mask, u % width);
        let yu = deposit(y_mask, u / width);
        lemma_deposit_in_lanes(x_mask, t % width);
        lemma_deposit_in_lanes(y_mask, t / width);
        lemma_deposit_in_lanes(x_mask, u % width);
        lemma_deposit_in_lanes(y_mask, u / width);
        lemma_disjoint_offsets(x_mask, y_mask, xt, yt);
        lemma_disjoint_offsets(x_mask, y_mask, xu, yu);
        assert(xt == xu && yt == yu);
        lemma_extract_deposit(x_mask, t % width);
        lemma_extract_deposit(x_mask, u % width);
        lemma_extract_deposit(y_mask, t / width);
        lemma_extract_deposit(y_mask, u / width);
    }
    assert forall|a: int| #[trigger] is_tile_offset(a, tiles, bytes) implies exists|t: nat|
        t < tiles && #[trigger] tile_address(x_mask, y_mask, width, t) == a by {
        let address = a as u32;
        lemma_lanes_are_tile_offsets(full, tile_bytes, address);
        lemma_split_offset(x_mask, y_mask, address);
        let x = address & x_mask;
        let y = address & y_mask;
        lemma_deposit_extract(x_mask, x);
        lemma_deposit_extract(y_mask, y);
        let column = extract(x_mask, x);
        let row = extract(y_mask, y);
        let t = row * width + column;
        lemma_fundamental_div_mod_converse(t as int, width as int, row as int, column as int);
        assert(t < tiles) by (nonlinear_arith)
            requires
                t == row * width + column,
                column < width,
                row < height,
                tiles == width * height,
        ;
        lemma_walk_of_tile(x_mask, y_mask, width, height, t);
        lemma_disjoint_offsets(x_mask, y_mask, x, y);
        assert(tile_address(x_mask, y_mask, width, t) == a);
    }
}

/// A byte position lies in the tile whose offset is the position rounded down
/// to a multiple of the tile size, and in no other.
proof fn lemma_tile_of_position(address: int, position: int, tile_bytes: nat)
    requires
        tile_bytes > 0,
        address % (tile_bytes as int) == 0,
        address <= position < address + tile_bytes,
    ensures
        address == (position / (tile_bytes as int)) * tile_bytes,
        position - address == position % (tile_bytes as int),
{
    lemma_fundamental_div_mod(address, tile_bytes as int);
    assert((address / (tile_bytes as int)) * tile_bytes == tile_bytes * (address / (
    tile_bytes as int))) by (nonlinear_arith);
    lemma_fundamental_div_mod_converse(
        position,
        tile_bytes as int,
        address / (tile_bytes as int),
        position - address,
    );
}

/// Where the walk tiles the grid, a byte inside the swizzled place of a tile
/// was last written by that tile, once the walk has passed it.
proof fn lemma_last_writer_of_tile(
    x_mask: u32,
    y_mask: u32,
    width: nat,
    height: nat,
    tile_bytes: nat,
    done: nat,
    tile: nat,
    position: int,
)
    requires
        walk_tiles_grid(x_mask, y_mask, width, height, tile_bytes),
        done <= width * height,
        tile < width * height,
        tile_address(x_mask, y_mask, width, tile) <= position < tile_address(
            x_mask,
            y_mask,
            width,
            tile,
        ) + tile_bytes,
    ensures
        last_writer(x_mask, y_mask, width, tile_bytes, done, position) == (if tile < done {
            tile as int
        } else {
            -1
        }),
    decreases done,
{
    if done > 0 {
        let last = (done - 1) as nat;
        let a = tile_address(x_mask, y_mask, width, last);
        let b = tile_address(x_mask, y_mask, width, tile);
        assert(is_tile_offset(a, width * height, tile_bytes));
        assert(is_tile_offset(b, width * height, tile_bytes));
        if a <= position < a + tile_bytes {
            lemma_tile_of_position(a, position, tile_bytes);
            lemma_tile_of_position(b, position, tile_bytes);
        } else {
            lemma_last_writer_of_tile(
                x_mask,
                y_mask,
                width,
                height,
                tile_bytes,
                last,
                tile,
                position,
            );
        }
    }
}

/// The linear place of tile `tile`, byte `byte`, is in tile `tile`.
proof fn lemma_linear_place(tile: nat, byte: nat, tiles: nat, tile_bytes: nat)
    requires
        tile < tiles,
        byte < tile_bytes,
    ensures
        (tile * tile_bytes + byte) / tile_bytes == tile,
        (tile * tile_bytes + byte) % tile_bytes == byte,
        tile * tile_bytes + byte < tiles * tile_bytes,
{
    lemma_fundamental_div_mod_converse(
        (tile * tile_bytes + byte) as int,
        tile_bytes as int,
        tile as int,
        byte as int,
    );
    assert(tile * tile_bytes + byte < tiles * tile_bytes) by (nonlinear_arith)
        requires
            tile < tiles,
            byte < tile_bytes,
    ;
}

/// Where the walk tiles the grid, putting the tiles of a buffer of the grid's
/// size to their swizzled places and fetching them back gives the buffer
/// again, whatever the two destinations held before.
pub proof fn lemma_gather_undoes_scatter(
    x_mask: u32,
    y_mask: u32,
    width: nat,
    height: nat,
    tile_bytes: nat,
    linear: Seq<u8>,
    first: Seq<u8>,
    second: Seq<u8>,
)
    requires
        walk_tiles_grid(x_mask, y_mask, width, height, tile_bytes),
        linear.len() == width * height * tile_bytes,
        first.len() == linear.len(),
        second.len() == linear.len(),
    ensures
        gathered(
            x_mask,
            y_mask,
            width,
            width * height,
            tile_bytes,
            scattered(x_mask, y_mask, width, width * height, tile_bytes, linear, first),
            second,
        ) == linear,
{
    let tiles = width * height;
    let swizzled = scattered(x_mask, y_mask, width, tiles, tile_bytes, linear, first);
    let back = gathered(x_mask, y_mask, width, tiles, tile_bytes, swizzled, second);
    assert forall|p: int| 0 <= p < linear.len() implies back[p] == linear[p] by {
        lemma_fundamental_div_mod(p, tile_bytes as int);
        lemma_mod_bound(p, tile_bytes as int);
        let t = (p / (tile_bytes as int)) as nat;
        let k = (p % (tile_bytes as int)) as nat;
        assert(0 <= p / (tile_bytes as int) < tiles) by (nonlinear_arith)
            requires
                0 <= p < tiles * tile_bytes,
                tile_bytes > 0,
                p == tile_bytes * (p / (tile_bytes as int)) + p % (tile_bytes as int),
                0 <= p % (tile_bytes as int) < tile_bytes,
        ;
        let a = tile_address(x_mask, y_mask, width, t);
        assert(is_tile_offset(a, tiles, tile_bytes));
        lemma_last_writer_of_tile(x_mask, y_mask, width, height, tile_bytes, tiles, t, a + k);
        assert(t * tile_bytes == tile_bytes * t) by (nonlinear_arith);
    }
    assert(back =~= linear);
}

/// Where the walk tiles the grid, fetching the tiles of a buffer of the grid's
/// size from their swizzled places and putting them back gives the buffer
/// again, whatever the two destinations held before.
pub proof fn lemma_scatter_undoes_gather(
    x_mask: u32,
    y_mask: u32,
    width: nat,
    height: nat,
    tile_bytes: nat,
    swizzled: Seq<u8>,
    first: Seq<u8>,
    second: Seq<u8>,
)
    requires
        walk_tiles_grid(x_mask, y_mask, width, height, tile_bytes),
        swizzled.len() == width * height * tile_bytes,
        first.len() == swizzled.len(),
        second.len() == swizzled.len(),
    ensures
        scattered(
            x_mask,
            y_mask,
            width,
            width * height,
            tile_bytes,
            gathered(x_mask, y_mask, width, width * height, tile_bytes, swizzled, first),
            second,
        ) == swizzled,
{
    let tiles = width * height;
    let linear = gathered(x_mask, y_mask, width, tiles, tile_bytes, swizzled, first);
    let back = scattered(x_mask, y_mask, width, tiles, tile_bytes, linear, second);
    assert forall|p: int| 0 <= p < swizzled.len() implies back[p] == swizzled[p] by {
        lemma_fundamental_div_mod(p, tile_bytes as int);
        lemma_mod_bound(p, tile_bytes as int);
        let k = (p % (tile_bytes as int)) as nat;
        let a = p - k;
        assert(a == tile_bytes * (p / (tile_bytes as int)));
        assert(a % (tile_bytes as int) == 0) by (nonlinear_arith)
            requires
                a == tile_bytes * (p / (tile_bytes as int)),
                tile_bytes > 0,
        ;
        assert(a + tile_bytes <= tiles * tile_bytes) by (nonlinear_arith)
            requires
                a == tile_bytes * (p / (tile_bytes as int)),
                tile_bytes > 0,
                0 <= p < tiles * tile_bytes,
                p == a + k,
                0 <= k < tile_bytes,
        ;
        assert(0 <= a) by (nonlinear_arith)
            requires
                a == tile_bytes * (p / (tile_bytes as int)),
                tile_bytes > 0,
                0 <= p,
        ;
        assert(is_tile_offset(a, tiles, tile_bytes));
        let t = choose|t: nat| t < tiles && tile_address(x_mask, y_mask, width, t) == a;
        lemma_last_writer_of_tile(x_mask, y_mask, width, height, tile_bytes, tiles, t, p);
        lemma_linear_place(t, k, tiles, tile_bytes);
    }
    assert(back =~= swizzled);
}

/// The sums of an offset in the lanes of the x mask and an offset in the lanes
/// of the y mask.
pub open spec fn lane_sums(x_mask: u32, y_mask: u32) -> Set<int> {
    Set::new(
        |a: int|
            exists|x: u32, y: u32|
                #![trigger in_lanes(x, x_mask), in_lanes(y, y_mask)]
                in_lanes(x, x_mask) && in_lanes(y, y_mask) && a == x + y,
    )
}

/// The offsets of `tiles` tiles of `tile_bytes` bytes that lie one after the
/// other from offset zero.
pub open spec fn tile_offsets(tiles: nat, tile_bytes: nat) -> Set<int> {
    Set::new(|a: int| is_tile_offset(a, tiles, tile_bytes))
}

/// There are as many tile offsets as tiles.
pub proof fn lemma_tile_offsets_count(tiles: nat, tile_bytes: nat)
    requires
        tile_bytes > 0,
    ensures
        tile_offsets(tiles, tile_bytes).finite(),
        tile_offsets(tiles, tile_bytes).len() == tiles,
    decreases tiles,
{
    if tiles == 0 {
        assert(tile_offsets(tiles, tile_bytes) =~= Set::<int>::empty()) by {
            assert(0 * tile_bytes == 0) by (nonlinear_arith);
        }
    } else {
        let fewer = (tiles - 1) as nat;
        let last = fewer * tile_bytes;
        lemma_tile_offsets_count(fewer, tile_bytes);
        assert(tiles * tile_bytes == last + tile_bytes) by (nonlinear_arith)
            requires
                last == (tiles - 1) * tile_bytes,
        ;
        assert(0 <= last) by (nonlinear_arith)
            requires
                last == fewer * tile_bytes,
        ;
        assert((last as int) % (tile_bytes as int) == 0) by (nonlinear_arith)
            requires
                last == fewer * tile_bytes,
                tile_bytes > 0,
        ;
        assert forall|a: int| #[trigger]
            is_tile_offset(a, tiles, tile_bytes) <==> is_tile_offset(a, fewer, tile_bytes) || a
                == last by {
            if 0 <= a && a % (tile_bytes as int) == 0 && last < a + tile_bytes <= last
                + tile_bytes {
                lemma_tile_of_position(a, last as int, tile_bytes);
                lemma_fundamental_div_mod_converse(
                    last as int,
                    tile_bytes as int,
                    fewer as int,
                    0,
                );
            }
        }
        assert(tile_offsets(tiles, tile_bytes) =~= tile_offsets(fewer, tile_bytes).insert(
            last as int,
        ));
        assert(!tile_offsets(fewer, tile_bytes).contains(last as int));
    }
}

/// Where the masks fill the grid, the sums of their lane offsets are the tile
/// offsets of the buffer, as many as the grid has tiles.
pub proof fn lemma_lane_sums_are_tile_offsets(
    x_mask: u32,
    y_mask: u32,
    width: nat,
    height: nat,
    tile_bytes: u32,
)
    requires
        masks_fill_grid(x_mask, y_mask, width, height, tile_bytes),
    ensures
        lane_sums(x_mask, y_mask) == tile_offsets(width * height, tile_bytes as nat),
        lane_sums(x_mask, y_mask).finite(),
        lane_sums(x_mask, y_mask).len() == width * height,
{
    let tiles = width * height;
    let full = x_mask | y_mask;
    let bytes = tile_bytes as nat;
    assert forall|a: int| lane_sums(x_mask, y_mask).contains(a) implies tile_offsets(
        tiles,
        bytes,
    ).contains(a) by {
        let (x, y) = choose|x: u32, y: u32|
            #![trigger in_lanes(x, x_mask), in_lanes(y, y_mask)]
            in_lanes(x, x_mask) && in_lanes(y, y_mask) && a == x + y;
        lemma_disjoint_offsets(x_mask, y_mask, x, y);
        lemma_lanes_are_tile_offsets(full, tile_bytes, x | y);
    }
    assert forall|a: int| tile_offsets(tiles, bytes).contains(a) implies lane_sums(
        x_mask,
        y_mask,
    ).contains(a) by {
        let address = a as u32;
        lemma_lanes_are_tile_offsets(full, tile_bytes, address);
        lemma_split_offset(x_mask, y_mask, address);
        let x = address & x_mask;
        let y = address & y_mask;
        lemma_disjoint_offsets(x_mask, y_mask, x, y);
        assert(in_lanes(x, x_mask) && in_lanes(y, y_mask) && a == x + y);
    }
    assert(lane_sums(x_mask, y_mask) =~= tile_offsets(tiles, bytes));
    lemma_tile_offsets_count(tiles, bytes);
}

/// Where the width is a multiple of the number of offsets in the lanes of the
/// x mask, and the height of that of the y mask, the last tile of the first
/// row lies at the x mask, and the first tile of the last row at the y mask.
pub proof fn lemma_masks_at_corners(x_mask: u32, y_mask: u32, width: nat, height: nat)
    requires
        width >= 1,
        height >= 1,
        width % lane_count(x_mask) == 0,
        height % lane_count(y_mask) == 0,
    ensures
        width - 1 < width * height,
        0 <= width * (height - 1) < width * height,
        tile_address(x_mask, y_mask, width, (width - 1) as nat) == x_mask,
        tile_address(x_mask, y_mask, width, (width * (height - 1)) as nat) == y_mask,
{
    let x_lanes = lane_count(x_mask);
    let y_lanes = lane_count(y_mask);
    lemma_lane_count_positive(x_mask);
    lemma_lane_count_positive(y_mask);
    let first = (width - 1) as nat;
    let second = (width * (height - 1)) as nat;
    assert(first < width * height && second < width * height && 0 <= width * (height - 1))
        by (nonlinear_arith)
        requires
            width >= 1,
            height >= 1,
            first == width - 1,
            second == width * (height - 1),
    ;
    // The rows that the two tiles lie in.
    lemma_fundamental_div_mod_converse(first as int, width as int, 0, first as int);
    assert(width * (height - 1) == (height - 1) * width) by (nonlinear_arith);
    lemma_fundamental_div_mod_converse(second as int, width as int, height - 1, 0);
    // The steps along x: one less than a multiple of the lane count, and a
    // multiple of it.
    lemma_fundamental_div_mod(width as int, x_lanes as int);
    let x_rounds = width as int / x_lanes as int;
    assert(x_rounds >= 1) by (nonlinear_arith)
        requires
            width == x_lanes * x_rounds,
            width >= 1,
            x_lanes >= 1,
    ;
    assert(first == (x_rounds - 1) * x_lanes + (x_lanes - 1)) by (nonlinear_arith)
        requires
            width == x_lanes * x_rounds,
            first == width - 1,
    ;
    lemma_fundamental_div_mod_converse(
        first as int,
        x_lanes as int,
        x_rounds - 1,
        x_lanes - 1,
    );
    assert(second == (x_rounds * (height - 1)) * x_lanes) by (nonlinear_arith)
        requires
            width == x_lanes * x_rounds,
            second == width * (height - 1),
    ;
    lemma_fundamental_div_mod_converse(
        second as int,
        x_lanes as int,
        x_rounds * (height - 1),
        0,
    );
    // The steps along y: none, and one less than a multiple of the lane count.
    lemma_fundamental_div_mod(height as int, y_lanes as int);
    let y_rounds = height as int / y_lanes as int;
    assert(y_rounds >= 1) by (nonlinear_arith)
        requires
            height == y_lanes * y_rounds,
            height >= 1,
            y_lanes >= 1,
    ;
    assert(height - 1 == (y_rounds - 1) * y_lanes + (y_lanes - 1)) by (nonlinear_arith)
        requires
            height == y_lanes * y_rounds,
    ;
    lemma_fundamental_div_mod_converse(
        height - 1,
        y_lanes as int,
        y_rounds - 1,
        y_lanes - 1,
    );
    lemma_small_mod(0, y_lanes);
    lemma_walk_is_deposit(x_mask, first);
    lemma_walk_is_deposit(x_mask, second);
    lemma_walk_is_deposit(y_mask, 0);
    lemma_walk_is_deposit(y_mask, (height - 1) as nat);
    lemma_deposit_last(x_mask);
    lemma_deposit_last(y_mask);
    lemma_deposit_zero(x_mask);
    lemma_deposit_zero(y_mask);
}

} // verus!

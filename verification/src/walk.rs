//! The mask walker: copies every tile between its linear place and its swizzled
//! place, finding the swizzled places by stepping two offsets through the bit
//! lanes of the x mask and of the y mask.

use vstd::prelude::*;
use vstd::arithmetic::div_mod::lemma_fundamental_div_mod_converse;
use crate::error::SwizzleError;

verus! {

/// The offset that follows `offset` in the walk through the lanes of `mask`.
pub open spec fn mask_step(offset: u32, mask: u32) -> u32 {
    offset.wrapping_sub(mask) & mask
}

/// The offset reached from zero after `steps` steps through the lanes of `mask`.
pub open spec fn walk(mask: u32, steps: nat) -> u32
    decreases steps,
{
    if steps == 0 {
        0
    } else {
        mask_step(walk(mask, (steps - 1) as nat), mask)
    }
}

/// The swizzled byte address of tile number `tile`, counted row by row in a
/// grid `width` tiles wide. The x offset steps once per tile and is not reset
/// at the end of a row; the y offset steps once per row.
pub open spec fn tile_address(x_mask: u32, y_mask: u32, width: nat, tile: nat) -> int {
    walk(x_mask, tile) + walk(y_mask, tile / width)
}

/// Every one of the first `tiles` tiles lies, at its swizzled address, inside
/// a buffer of `limit` bytes.
pub open spec fn walk_in_bounds(
    x_mask: u32,
    y_mask: u32,
    width: nat,
    tiles: nat,
    tile_bytes: nat,
    limit: nat,
) -> bool {
    forall|t: nat| t < tiles ==> #[trigger] tile_address(x_mask, y_mask, width, t) + tile_bytes <= limit
}

/// The last of the first `tiles` tiles whose swizzled place holds byte
/// `position`, or -1 where none does.
pub open spec fn last_writer(
    x_mask: u32,
    y_mask: u32,
    width: nat,
    tile_bytes: nat,
    tiles: nat,
    position: int,
) -> int
    decreases tiles,
{
    if tiles == 0 {
        -1
    } else {
        let t = (tiles - 1) as nat;
        let a = tile_address(x_mask, y_mask, width, t);
        if a <= position < a + tile_bytes {
            t as int
        } else {
            last_writer(x_mask, y_mask, width, tile_bytes, t, position)
        }
    }
}

/// The destination after the first `tiles` tiles were fetched from their
/// swizzled places in `source` to their linear places: linear byte `p` of a
/// tile comes from the swizzled address of its tile, the rest is untouched.
pub open spec fn gathered(
    x_mask: u32,
    y_mask: u32,
    width: nat,
    tiles: nat,
    tile_bytes: nat,
    source: Seq<u8>,
    destination: Seq<u8>,
) -> Seq<u8> {
    Seq::new(
        destination.len(),
        |p: int|
            if p < tiles * tile_bytes {
                source[tile_address(x_mask, y_mask, width, (p / tile_bytes as int) as nat) + p
                    % tile_bytes as int]
            } else {
                destination[p]
            },
    )
}

/// The destination after the first `tiles` tiles were put from their linear
/// places in `source` to their swizzled places: a byte holds what the last
/// tile put over it wrote there, and is untouched where no tile did.
pub open spec fn scattered(
    x_mask: u32,
    y_mask: u32,
    width: nat,
    tiles: nat,
    tile_bytes: nat,
    source: Seq<u8>,
    destination: Seq<u8>,
) -> Seq<u8> {
    Seq::new(
        destination.len(),
        |p: int|
            {
                let t = last_writer(x_mask, y_mask, width, tile_bytes, tiles, p);
                if t >= 0 {
                    source[t * tile_bytes + p - tile_address(x_mask, y_mask, width, t as nat)]
                } else {
                    destination[p]
                }
            },
    )
}

/// What a walk over the first `tiles` tiles leaves in the destination.
pub open spec fn walked(
    x_mask: u32,
    y_mask: u32,
    width: nat,
    tiles: nat,
    tile_bytes: nat,
    source: Seq<u8>,
    destination: Seq<u8>,
    deswizzle: bool,
) -> Seq<u8> {
    if deswizzle {
        gathered(x_mask, y_mask, width, tiles, tile_bytes, source, destination)
    } else {
        scattered(x_mask, y_mask, width, tiles, tile_bytes, source, destination)
    }
}

/// The buffers can be walked: the tile size is not zero, both lengths are
/// multiples of it, both hold `width * height` tiles, and every swizzled
/// address lies inside the buffer on the swizzled side.
pub open spec fn walkable(
    x_mask: u32,
    y_mask: u32,
    width: nat,
    height: nat,
    tile_bytes: nat,
    source_len: nat,
    destination_len: nat,
    deswizzle: bool,
) -> bool {
    &&& tile_bytes > 0
    &&& source_len % tile_bytes == 0
    &&& destination_len % tile_bytes == 0
    &&& width * height * tile_bytes <= source_len
    &&& width * height * tile_bytes <= destination_len
    &&& walk_in_bounds(
        x_mask,
        y_mask,
        width,
        width * height,
        tile_bytes,
        if deswizzle {
            source_len
        } else {
            destination_len
        },
    )
}

/// How a walk ends: with success exactly where the buffers can be walked, and
/// then with the destination that the walk leaves; otherwise with
/// `InvalidBuffer` and the destination as it was.
pub open spec fn walk_outcome(
    x_mask: u32,
    y_mask: u32,
    width: nat,
    height: nat,
    tile_bytes: nat,
    source: Seq<u8>,
    before: Seq<u8>,
    after: Seq<u8>,
    deswizzle: bool,
    result: Result<(), SwizzleError>,
) -> bool {
    if walkable(
        x_mask,
        y_mask,
        width,
        height,
        tile_bytes,
        source.len(),
        before.len(),
        deswizzle,
    ) {
        &&& result is Ok
        &&& after == walked(
            x_mask,
            y_mask,
            width,
            width * height,
            tile_bytes,
            source,
            before,
            deswizzle,
        )
    } else {
        &&& result == Err::<(), SwizzleError>(SwizzleError::InvalidBuffer)
        &&& after == before
    }
}

/// Copies `count` bytes from `source` at `from` to `destination` at `to`.
fn copy_tile(source: &[u8], from: usize, destination: &mut [u8], to: usize, count: usize)
    requires
        from + count <= source@.len(),
        to + count <= old(destination)@.len(),
    ensures
        final(destination)@.len() == old(destination)@.len(),
        forall|p: int|
            0 <= p < old(destination)@.len() ==> #[trigger] final(destination)@[p] == (if to <= p
                < to + count {
                source@[from + p - to]
            } else {
                old(destination)@[p]
            }),
{
    let source_len: usize = source.len();
    let destination_len: usize = destination.len();
    let mut k: usize = 0;
    while k < count
        invariant
            k <= count,
            from + count <= source_len == source@.len(),
            to + count <= destination_len == destination@.len(),
            destination@.len() == old(destination)@.len(),
            forall|p: int|
                0 <= p < destination@.len() ==> #[trigger] destination@[p] == (if to <= p < to
                    + k {
                    source@[from + p - to]
                } else {
                    old(destination)@[p]
                }),
        decreases count - k,
    {
        destination[to + k] = source[from + k];
        k += 1;
    }
}

/// Tile `column` of row `row` is one of the grid's tiles, and its row is its
/// number divided by the width.
proof fn lemma_tile_of_grid(width: nat, height: nat, row: nat, column: nat)
    requires
        row < height,
        column < width,
    ensures
        row * width + column < width * height,
        (row * width + column) / width == row,
{
    lemma_fundamental_div_mod_converse(
        (row * width + column) as int,
        width as int,
        row as int,
        column as int,
    );
    assert(row * width + column < width * height) by (nonlinear_arith)
        requires
            row < height,
            column < width,
    ;
}

/// Tells whether every swizzled address of a walk over `width * height` tiles
/// lies inside a buffer of `limit` bytes.
fn walk_fits(
    x_mask: u32,
    y_mask: u32,
    width: usize,
    height: usize,
    tile_bytes: usize,
    limit: usize,
) -> (fits: bool)
    ensures
        fits == walk_in_bounds(
            x_mask,
            y_mask,
            width as nat,
            (width * height) as nat,
            tile_bytes as nat,
            limit as nat,
        ),
{
    if tile_bytes > limit {
        proof {
            assert(width * height == 0 <==> width == 0 || height == 0) by (nonlinear_arith);
            if width > 0 && height > 0 {
                assert(0int / (width as int) == 0) by (nonlinear_arith)
                    requires
                        width > 0,
                ;
                assert(tile_address(x_mask, y_mask, width as nat, 0) + tile_bytes > limit);
            }
        }
        return width == 0 || height == 0;
    }
    let room: u64 = (limit - tile_bytes) as u64;
    let mut offset_x: u32 = 0;
    let mut offset_y: u32 = 0;
    let mut row: usize = 0;
    let ghost mut tile: nat = 0;
    while row < height
        invariant
            row <= height,
            tile == row * width,
            offset_x == walk(x_mask, tile),
            offset_y == walk(y_mask, row as nat),
            room == limit - tile_bytes,
            walk_in_bounds(x_mask, y_mask, width as nat, tile, tile_bytes as nat, limit as nat),
        decreases height - row,
    {
        let mut column: usize = 0;
        while column < width
            invariant
                row < height,
                column <= width,
                tile == row * width + column,
                offset_x == walk(x_mask, tile),
                offset_y == walk(y_mask, row as nat),
                room == limit - tile_bytes,
                walk_in_bounds(x_mask, y_mask, width as nat, tile, tile_bytes as nat, limit as nat),
            decreases width - column,
        {
            proof {
                lemma_tile_of_grid(width as nat, height as nat, row as nat, column as nat);
            }
            let address: u64 = offset_x as u64 + offset_y as u64;
            assert(address == tile_address(x_mask, y_mask, width as nat, tile));
            if address > room {
                return false;
            }
            offset_x = offset_x.wrapping_sub(x_mask) & x_mask;
            column += 1;
            proof {
                tile = tile + 1;
            }
        }
        offset_y = offset_y.wrapping_sub(y_mask) & y_mask;
        row += 1;
        proof {
            assert(tile == row * width) by (nonlinear_arith)
                requires
                    tile == (row - 1) * width + width,
            ;
        }
    }
    proof {
        assert(tile == width * height) by (nonlinear_arith)
            requires
                tile == row * width,
                row == height,
        ;
    }
    true
}

/// Copies every tile between its linear and its swizzled place.
fn walk_copy(
    x_mask: u32,
    y_mask: u32,
    width: usize,
    height: usize,
    source: &[u8],
    destination: &mut [u8],
    deswizzle: bool,
    tile_bytes: usize,
)
    requires
        walkable(
            x_mask,
            y_mask,
            width as nat,
            height as nat,
            tile_bytes as nat,
            source@.len(),
            old(destination)@.len(),
            deswizzle,
        ),
    ensures
        final(destination)@ == walked(
            x_mask,
            y_mask,
            width as nat,
            (width * height) as nat,
            tile_bytes as nat,
            source@,
            old(destination)@,
            deswizzle,
        ),
{
    let source_len: usize = source.len();
    let destination_len: usize = destination.len();
    let ghost tiles: nat = (width * height) as nat;
    let ghost limit: nat = if deswizzle {
        source@.len()
    } else {
        destination@.len()
    };
    let mut offset_x: u32 = 0;
    let mut offset_y: u32 = 0;
    let mut row: usize = 0;
    let mut linear: usize = 0;
    let ghost mut tile: nat = 0;
    assert(destination@ =~= walked(
        x_mask,
        y_mask,
        width as nat,
        0,
        tile_bytes as nat,
        source@,
        old(destination)@,
        deswizzle,
    ));
    while row < height
        invariant
            row <= height,
            tile == row * width,
            tiles == width * height,
            linear == tile * tile_bytes,
            offset_x == walk(x_mask, tile),
            offset_y == walk(y_mask, row as nat),
            source_len == source@.len(),
            destination_len == destination@.len() == old(destination)@.len(),
            tiles * tile_bytes <= source_len,
            tiles * tile_bytes <= destination_len,
            limit == (if deswizzle {
                source_len
            } else {
                destination_len
            }),
            walk_in_bounds(x_mask, y_mask, width as nat, tiles, tile_bytes as nat, limit),
            destination@ == walked(
                x_mask,
                y_mask,
                width as nat,
                tile,
                tile_bytes as nat,
                source@,
                old(destination)@,
                deswizzle,
            ),
        decreases height - row,
    {
        let mut column: usize = 0;
        while column < width
            invariant
                row < height,
                column <= width,
                tile == row * width + column,
                tiles == width * height,
                linear == tile * tile_bytes,
                offset_x == walk(x_mask, tile),
                offset_y == walk(y_mask, row as nat),
                source_len == source@.len(),
                destination_len == destination@.len() == old(destination)@.len(),
                tiles * tile_bytes <= source_len,
                tiles * tile_bytes <= destination_len,
                limit == (if deswizzle {
                    source_len
                } else {
                    destination_len
                }),
                walk_in_bounds(x_mask, y_mask, width as nat, tiles, tile_bytes as nat, limit),
                destination@ == walked(
                    x_mask,
                    y_mask,
                    width as nat,
                    tile,
                    tile_bytes as nat,
                    source@,
                    old(destination)@,
                    deswizzle,
                ),
            decreases width - column,
        {
            let ghost before = destination@;
            proof {
                lemma_tile_of_grid(width as nat, height as nat, row as nat, column as nat);
                assert(tile_address(x_mask, y_mask, width as nat, tile) + tile_bytes <= limit);
                assert((tile + 1) * tile_bytes <= tiles * tile_bytes) by (nonlinear_arith)
                    requires
                        tile + 1 <= tiles,
                ;
                assert((tile + 1) * tile_bytes == tile * tile_bytes + tile_bytes)
                    by (nonlinear_arith);
            }
            let address: usize = (offset_x as u64 + offset_y as u64) as usize;
            if deswizzle {
                copy_tile(source, address, destination, linear, tile_bytes);
                proof {
                    let after = gathered(
                        x_mask,
                        y_mask,
                        width as nat,
                        tile + 1,
                        tile_bytes as nat,
                        source@,
                        old(destination)@,
                    );
                    assert forall|p: int| 0 <= p < after.len() implies destination@[p]
                        == after[p] by {
                        if linear <= p < linear + tile_bytes {
                            lemma_fundamental_div_mod_converse(
                                p,
                                tile_bytes as int,
                                tile as int,
                                p - linear,
                            );
                        }
                    }
                    assert(destination@ =~= after);
                }
            } else {
                copy_tile(source, linear, destination, address, tile_bytes);
                proof {
                    let after = scattered(
                        x_mask,
                        y_mask,
                        width as nat,
                        tile + 1,
                        tile_bytes as nat,
                        source@,
                        old(destination)@,
                    );
                    assert forall|p: int| 0 <= p < after.len() implies destination@[p]
                        == after[p] by {
                        assert(last_writer(
                            x_mask,
                            y_mask,
                            width as nat,
                            tile_bytes as nat,
                            tile + 1,
                            p,
                        ) == (if address <= p < address + tile_bytes {
                            tile as int
                        } else {
                            last_writer(
                                x_mask,
                                y_mask,
                                width as nat,
                                tile_bytes as nat,
                                tile,
                                p,
                            )
                        }));
                    }
                    assert(destination@ =~= after);
                }
            }
            offset_x = offset_x.wrapping_sub(x_mask) & x_mask;
            linear += tile_bytes;
            column += 1;
            proof {
                tile = tile + 1;
            }
        }
        offset_y = offset_y.wrapping_sub(y_mask) & y_mask;
        row += 1;
        proof {
            assert(tile == row * width) by (nonlinear_arith)
                requires
                    tile == (row - 1) * width + width,
            ;
        }
    }
    proof {
        assert(tile == width * height) by (nonlinear_arith)
            requires
                tile == row * width,
                row == height,
        ;
    }
}

/// Walks a grid of `width` by `height` tiles of `bytes_per_copy` bytes with the
/// masks `x_mask` and `y_mask`. With `deswizzle` set, every tile is fetched from
/// its swizzled address in `source` to its linear place in `destination`;
/// otherwise every tile is put from its linear place in `source` to its
/// swizzled address in `destination`.
///
/// Fails with `InvalidBuffer`, leaving the destination as it was, unless the
/// buffers can be walked (`walkable`).
pub fn mask_walk(
    x_mask: u32,
    y_mask: u32,
    width: usize,
    height: usize,
    source: &[u8],
    destination: &mut [u8],
    deswizzle: bool,
    bytes_per_copy: usize,
) -> (result: Result<(), SwizzleError>)
    ensures
        walk_outcome(
            x_mask,
            y_mask,
            width as nat,
            height as nat,
            bytes_per_copy as nat,
            source@,
            old(destination)@,
            final(destination)@,
            deswizzle,
            result,
        ),
{
    let source_len: usize = source.len();
    let destination_len: usize = destination.len();
    if bytes_per_copy == 0 || source_len % bytes_per_copy != 0 || destination_len
        % bytes_per_copy != 0 {
        return Err(SwizzleError::InvalidBuffer);
    }
    let tiles: usize = match width.checked_mul(height) {
        Some(tiles) => tiles,
        None => {
            proof {
                assert(width * height * bytes_per_copy >= width * height) by (nonlinear_arith)
                    requires
                        bytes_per_copy >= 1,
                        width * height >= 0,
                ;
            }
            return Err(SwizzleError::InvalidBuffer);
        },
    };
    let total: usize = match tiles.checked_mul(bytes_per_copy) {
        Some(total) => total,
        None => {
            return Err(SwizzleError::InvalidBuffer);
        },
    };
    if total > source_len || total > destination_len {
        return Err(SwizzleError::InvalidBuffer);
    }
    if tiles == 0 {
        // A grid without tiles: nothing is copied, however many empty rows
        // or columns it has.
        assert(destination@ =~= walked(
            x_mask,
            y_mask,
            width as nat,
            0,
            bytes_per_copy as nat,
            source@,
            destination@,
            deswizzle,
        ));
        return Ok(());
    }
    let limit: usize = if deswizzle {
        source_len
    } else {
        destination_len
    };
    if !walk_fits(x_mask, y_mask, width, height, bytes_per_copy, limit) {
        return Err(SwizzleError::InvalidBuffer);
    }
    walk_copy(x_mask, y_mask, width, height, source, destination, deswizzle, bytes_per_copy);
    Ok(())
}

/// Walks a grid of `width` by `height` tiles with the masks that `swizzle_x`
/// and `swizzle_y` give for these dimensions, taken as 32-bit numbers, and
/// copies every tile as `mask_walk` does.
pub fn swizzle_experimental<F: Fn(u32, u32) -> u32, G: Fn(u32, u32) -> u32>(
    swizzle_x: F,
    swizzle_y: G,
    width: usize,
    height: usize,
    source: &[u8],
    destination: &mut [u8],
    deswizzle: bool,
    bytes_per_copy: usize,
) -> (result: Result<(), SwizzleError>)
    requires
        call_requires(swizzle_x, (width as u32, height as u32)),
        call_requires(swizzle_y, (width as u32, height as u32)),
    ensures
        exists|x_mask: u32, y_mask: u32|
            {
                &&& call_ensures(swizzle_x, (width as u32, height as u32), x_mask)
                &&& call_ensures(swizzle_y, (width as u32, height as u32), y_mask)
                &&& walk_outcome(
                    x_mask,
                    y_mask,
                    width as nat,
                    height as nat,
                    bytes_per_copy as nat,
                    source@,
                    old(destination)@,
                    final(destination)@,
                    deswizzle,
                    result,
                )
            },
{
    let x_mask: u32 = swizzle_x(#[verifier::truncate] (width as u32), #[verifier::truncate] (height as u32));
    let y_mask: u32 = swizzle_y(#[verifier::truncate] (width as u32), #[verifier::truncate] (height as u32));
    mask_walk(x_mask, y_mask, width, height, source, destination, deswizzle, bytes_per_copy)
}

} // verus!

//! Tile grids: uniform tile layouts and tile group payloads.
use vstd::prelude::*;
use crate::entropy::obu::{append, le4};

verus! {

/// Tile grid configuration.
#[derive(Debug, Clone)]
pub struct TileConfig {
    /// Number of tile columns.
    pub tile_cols: u8,
    /// Number of tile rows.
    pub tile_rows: u8,
    /// Whether tiles are uniformly spaced.
    pub uniform_spacing: bool,
    /// Log2 of tile columns.
    pub tile_cols_log2: u8,
    /// Log2 of tile rows.
    pub tile_rows_log2: u8,
}

impl TileConfig {
    /// A uniform grid of `2^cols_log2` by `2^rows_log2` tiles.
    pub fn uniform(cols_log2: u8, rows_log2: u8) -> (r: Self)
        requires cols_log2 < 8, rows_log2 < 8,
        ensures
            r.tile_cols as nat == vstd::arithmetic::power2::pow2(cols_log2 as nat),
            r.tile_rows as nat == vstd::arithmetic::power2::pow2(rows_log2 as nat),
            r.uniform_spacing,
            r.tile_cols_log2 == cols_log2,
            r.tile_rows_log2 == rows_log2,
    {
        proof {
            vstd::bits::lemma_u8_pow2_no_overflow(cols_log2 as nat);
            vstd::bits::lemma_u8_pow2_no_overflow(rows_log2 as nat);
            vstd::bits::lemma_u8_shl_is_mul(1, cols_log2);
            vstd::bits::lemma_u8_shl_is_mul(1, rows_log2);
        }
        TileConfig {
            tile_cols: 1u8 << cols_log2,
            tile_rows: 1u8 << rows_log2,
            uniform_spacing: true,
            tile_cols_log2: cols_log2,
            tile_rows_log2: rows_log2,
        }
    }

    /// A single tile.
    pub fn single() -> (r: Self)
        ensures r.tile_cols == 1 && r.tile_rows == 1 && r.uniform_spacing && r.tile_cols_log2 == 0 && r.tile_rows_log2 == 0,
    {
        proof { vstd::arithmetic::power2::lemma2_to64(); }
        Self::uniform(0, 0)
    }

    /// Total number of tiles.
    pub fn num_tiles(&self) -> (r: usize)
        ensures r == self.tile_cols * self.tile_rows,
    {
        let c = self.tile_cols as usize;
        let r = self.tile_rows as usize;
        assert(c * r <= 255 * 255) by (nonlinear_arith) requires c <= 255, r <= 255;
        c * r
    }
}

/// One tile's coded data and position.
#[derive(Debug)]
pub struct TileData {
    pub tile_row: u8,
    pub tile_col: u8,
    pub data: Vec<u8>,
}

/// Tile `k` of a tile group: preceded by its 4-byte little-endian length unless last.
pub open spec fn group_piece(tiles: Seq<TileData>, k: int) -> Seq<u8> {
    if k < tiles.len() - 1 { le4(tiles[k].data@.len() as u32) + tiles[k].data@ } else { tiles[k].data@ }
}

/// Pieces of the first `i` tiles, in order.
pub open spec fn group_upto(tiles: Seq<TileData>, i: int) -> Seq<u8>
    decreases i,
{
    if i <= 0 { Seq::empty() } else { group_upto(tiles, i - 1) + group_piece(tiles, i - 1) }
}

/// The tile group payload: a single tile's data as is; otherwise every tile,
/// each but the last preceded by its length.
pub fn write_tile_group(tiles: &[TileData]) -> (r: Vec<u8>)
    ensures
        tiles@.len() == 1 ==> r@ == tiles@[0].data@,
        tiles@.len() != 1 ==> r@ == group_upto(tiles@, tiles@.len() as int),
{
    let n = tiles.len();
    let mut output: Vec<u8> = Vec::new();
    if n == 1 {
        append(&mut output, tiles[0].data.as_slice());
        proof { assert(output@ =~= tiles@[0].data@); }
        return output;
    }
    let mut i: usize = 0;
    while i < n
        invariant
            n == tiles@.len(),
            i <= n,
            output@ == group_upto(tiles@, i as int),
        decreases n - i,
    {
        let ghost before = output@;
        if i < n - 1 {
            let size: u32 = tiles[i].data.len() as u32;
            output.push((size % 256) as u8);
            output.push(((size / 256) % 256) as u8);
            output.push(((size / 65536) % 256) as u8);
            output.push(((size / 16777216) % 256) as u8);
            proof { assert(output@ =~= before + le4(size)); }
        }
        append(&mut output, tiles[i].data.as_slice());
        proof {
            assert(output@ =~= group_upto(tiles@, (i + 1) as int));
        }
        i = i + 1;
    }
    output
}

/// Pixel boundaries of a tile.
#[derive(Debug, Clone)]
pub struct TileBounds {
    pub col_start: u32,
    pub col_end: u32,
    pub row_start: u32,
    pub row_end: u32,
}

impl TileBounds {
    /// Width in pixels.
    pub fn width(&self) -> (r: u32)
        requires self.col_start <= self.col_end,
        ensures r == self.col_end - self.col_start,
    {
        self.col_end - self.col_start
    }

    /// Height in pixels.
    pub fn height(&self) -> (r: u32)
        requires self.row_start <= self.row_end,
        ensures r == self.row_end - self.row_start,
    {
        self.row_end - self.row_start
    }
}

/// Superblocks of `sb` pixels covering `len` pixels.
pub open spec fn sbs(len: nat, sb: nat) -> nat {
    len / sb + if len % sb != 0 { 1nat } else { 0nat }
}

/// Boundaries of tile `(tr, tc)`: superblock ranges split evenly, in pixels, clipped to the frame.
pub open spec fn tile_bounds_at(w: nat, h: nat, sb: nat, cols: nat, rows: nat, tr: nat, tc: nat) -> (nat, nat, nat, nat) {
    let sc = sbs(w, sb);
    let sr = sbs(h, sb);
    let c0 = (tc * sc) / cols;
    let c1 = ((tc + 1) * sc) / cols;
    let r0 = (tr * sr) / rows;
    let r1 = ((tr + 1) * sr) / rows;
    (c0 * sb, if c1 * sb < w { c1 * sb } else { w }, r0 * sb, if r1 * sb < h { r1 * sb } else { h })
}

/// Tile boundaries of a uniform grid, row by row.
pub fn compute_tile_boundaries(frame_width: u32, frame_height: u32, sb_size: u32, config: &TileConfig) -> (r: Vec<TileBounds>)
    requires
        sb_size > 0,
        frame_width as nat + sb_size as nat <= u32::MAX,
        frame_height as nat + sb_size as nat <= u32::MAX,
        config.tile_cols as nat * sbs(frame_width as nat, sb_size as nat) <= u32::MAX,
        config.tile_rows as nat * sbs(frame_height as nat, sb_size as nat) <= u32::MAX,
    ensures
        r@.len() == config.tile_rows * config.tile_cols,
        forall|tr: int, tc: int| 0 <= tr < config.tile_rows && 0 <= tc < config.tile_cols ==> {
            let b = #[trigger] r@[tr * config.tile_cols + tc];
            let t = tile_bounds_at(frame_width as nat, frame_height as nat, sb_size as nat,
                config.tile_cols as nat, config.tile_rows as nat, tr as nat, tc as nat);
            b.col_start == t.0 && b.col_end == t.1 && b.row_start == t.2 && b.row_end == t.3
        },
{
    let sb_cols: u32 = frame_width / sb_size + if frame_width % sb_size != 0 { 1 } else { 0 };
    let sb_rows: u32 = frame_height / sb_size + if frame_height % sb_size != 0 { 1 } else { 0 };
    let cols = config.tile_cols;
    let rows = config.tile_rows;
    proof {
        assert(sb_cols * sb_size <= frame_width + sb_size) by (nonlinear_arith)
            requires sb_cols == frame_width / sb_size + if frame_width % sb_size != 0 { 1u32 } else { 0u32 }, sb_size > 0;
        assert(sb_rows * sb_size <= frame_height + sb_size) by (nonlinear_arith)
            requires sb_rows == frame_height / sb_size + if frame_height % sb_size != 0 { 1u32 } else { 0u32 }, sb_size > 0;
    }
    let mut tiles: Vec<TileBounds> = Vec::new();
    let mut tr: u8 = 0;
    while tr < rows
        invariant
            rows == config.tile_rows, cols == config.tile_cols,
            sb_size > 0,
            sb_cols == sbs(frame_width as nat, sb_size as nat),
            sb_rows == sbs(frame_height as nat, sb_size as nat),
            cols * sb_cols <= u32::MAX, rows * sb_rows <= u32::MAX,
            sb_cols * sb_size <= frame_width + sb_size, sb_rows * sb_size <= frame_height + sb_size,
            frame_width as nat + sb_size as nat <= u32::MAX,
            frame_height as nat + sb_size as nat <= u32::MAX,
            tr <= rows,
            tiles@.len() == tr * cols,
            forall|a: int, c: int| 0 <= a < tr && 0 <= c < cols ==> {
                let b = #[trigger] tiles@[a * cols + c];
                let t = tile_bounds_at(frame_width as nat, frame_height as nat, sb_size as nat,
                    cols as nat, rows as nat, a as nat, c as nat);
                b.col_start == t.0 && b.col_end == t.1 && b.row_start == t.2 && b.row_end == t.3
            },
        decreases rows - tr,
    {
        let mut tc: u8 = 0;
        while tc < cols
            invariant
                rows == config.tile_rows, cols == config.tile_cols,
                sb_size > 0,
                sb_cols == sbs(frame_width as nat, sb_size as nat),
                sb_rows == sbs(frame_height as nat, sb_size as nat),
                cols * sb_cols <= u32::MAX, rows * sb_rows <= u32::MAX,
                sb_cols * sb_size <= frame_width + sb_size, sb_rows * sb_size <= frame_height + sb_size,
                frame_width as nat + sb_size as nat <= u32::MAX,
                frame_height as nat + sb_size as nat <= u32::MAX,
                tr < rows,
                tc <= cols,
                tiles@.len() == tr * cols + tc,
                forall|a: int, c: int| (0 <= a < tr && 0 <= c < cols) || (a == tr && 0 <= c < tc) ==> {
                    let b = #[trigger] tiles@[a * cols + c];
                    let t = tile_bounds_at(frame_width as nat, frame_height as nat, sb_size as nat,
                        cols as nat, rows as nat, a as nat, c as nat);
                    b.col_start == t.0 && b.col_end == t.1 && b.row_start == t.2 && b.row_end == t.3
                },
            decreases cols - tc,
        {
            proof {
                assert((tc as u32 + 1) * sb_cols <= cols * sb_cols) by (nonlinear_arith)
                    requires tc < cols;
                assert((tr as u32 + 1) * sb_rows <= rows * sb_rows) by (nonlinear_arith)
                    requires tr < rows;
                assert(tc as u32 * sb_cols <= (tc as u32 + 1) * sb_cols) by (nonlinear_arith);
                assert(tr as u32 * sb_rows <= (tr as u32 + 1) * sb_rows) by (nonlinear_arith);
            }
            let sb_col_start: u32 = (tc as u32 * sb_cols) / cols as u32;
            let sb_col_end: u32 = ((tc as u32 + 1) * sb_cols) / cols as u32;
            let sb_row_start: u32 = (tr as u32 * sb_rows) / rows as u32;
            let sb_row_end: u32 = ((tr as u32 + 1) * sb_rows) / rows as u32;
            proof {
                assert(sb_col_end <= sb_cols) by (nonlinear_arith)
                    requires sb_col_end == ((tc + 1) * sb_cols) / (cols as int), tc < cols;
                assert(sb_col_start <= sb_col_end) by (nonlinear_arith)
                    requires sb_col_end == ((tc + 1) * sb_cols) / (cols as int),
                        sb_col_start == (tc * sb_cols) / (cols as int), cols > 0;
                assert(sb_row_end <= sb_rows) by (nonlinear_arith)
                    requires sb_row_end == ((tr + 1) * sb_rows) / (rows as int), tr < rows;
                assert(sb_row_start <= sb_row_end) by (nonlinear_arith)
                    requires sb_row_end == ((tr + 1) * sb_rows) / (rows as int),
                        sb_row_start == (tr * sb_rows) / (rows as int), rows > 0;
                assert(sb_col_end * sb_size <= sb_cols * sb_size) by (nonlinear_arith)
                    requires sb_col_end <= sb_cols;
                assert(sb_row_end * sb_size <= sb_rows * sb_size) by (nonlinear_arith)
                    requires sb_row_end <= sb_rows;
                assert(sb_col_start * sb_size <= sb_col_end * sb_size) by (nonlinear_arith)
                    requires sb_col_start <= sb_col_end;
                assert(sb_row_start * sb_size <= sb_row_end * sb_size) by (nonlinear_arith)
                    requires sb_row_start <= sb_row_end;
            }
            let ce = sb_col_end * sb_size;
            let re = sb_row_end * sb_size;
            let b = TileBounds {
                col_start: sb_col_start * sb_size,
                col_end: if ce < frame_width { ce } else { frame_width },
                row_start: sb_row_start * sb_size,
                row_end: if re < frame_height { re } else { frame_height },
            };
            let ghost before = tiles@;
            tiles.push(b);
            proof {
                assert(tr * cols + tc == tiles@.len() - 1);
                assert forall|a: int, c: int| (0 <= a < tr && 0 <= c < cols) || (a == tr && 0 <= c < tc + 1) implies {
                    let bb = #[trigger] tiles@[a * cols + c];
                    let t = tile_bounds_at(frame_width as nat, frame_height as nat, sb_size as nat,
                        cols as nat, rows as nat, a as nat, c as nat);
                    bb.col_start == t.0 && bb.col_end == t.1 && bb.row_start == t.2 && bb.row_end == t.3
                } by {
                    if a < tr {
                        assert(a * cols + c < tr * cols) by (nonlinear_arith)
                            requires a < tr, c < cols, 0 <= c;
                        assert(tiles@[a * cols + c] == before[a * cols + c]);
                    } else if c < tc {
                        assert(tiles@[a * cols + c] == before[a * cols + c]);
                    }
                }
            }
            tc = tc + 1;
        }
        proof {
            assert((tr + 1) * cols == tr * cols + cols) by (nonlinear_arith);
            assert forall|a: int, c: int| 0 <= a < tr + 1 && 0 <= c < cols implies {
                let b = #[trigger] tiles@[a * cols + c];
                let t = tile_bounds_at(frame_width as nat, frame_height as nat, sb_size as nat,
                    cols as nat, rows as nat, a as nat, c as nat);
                b.col_start == t.0 && b.col_end == t.1 && b.row_start == t.2 && b.row_end == t.3
            } by {}
        }
        tr = tr + 1;
    }
    tiles
}

} // verus!

//! The 64x32 monochrome display: a boolean pixel grid with clear and
//! XOR-blit-with-collision, plus the plain frame buffer handed to renderers.
use vstd::prelude::*;

use vstd::arithmetic::div_mod::{
    lemma_add_mod_noop,
    lemma_add_mod_noop_right,
    lemma_fundamental_div_mod,
    lemma_fundamental_div_mod_converse,
    lemma_mod_bound,
    lemma_small_mod,
    lemma_sub_mod_noop,
    lemma_sub_mod_noop_right,
};

verus! {

/// Grid width in pixels.
pub const DISPLAY_WIDTH: usize = 64;

/// Grid height in pixels.
pub const DISPLAY_HEIGHT: usize = 32;

/// Total pixel count; the grid is stored row-major.
pub const DISPLAY_AREA: usize = 2048;

/// 2^k for 0 <= k < 8, written out so it unfolds without fuel.
pub open spec fn pow2k(k: int) -> int {
    if k <= 0 {
        1
    } else if k == 1 {
        2
    } else if k == 2 {
        4
    } else if k == 3 {
        8
    } else if k == 4 {
        16
    } else if k == 5 {
        32
    } else if k == 6 {
        64
    } else {
        128
    }
}

/// Bit `k` of a sprite row byte, bit 7 being the leftmost pixel.
pub open spec fn byte_bit(b: u8, k: int) -> bool {
    (b as int / pow2k(k)) % 2 == 1
}

/// How many sprite rows are drawn: rows at or beyond the grid height are
/// skipped, not wrapped.
pub open spec fn sprite_rows(s: Seq<u8>) -> int {
    if s.len() <= 32 {
        s.len() as int
    } else {
        32
    }
}

/// Whether the sprite drawn with top-left corner `(x, y)` flips the pixel at
/// `(px, py)`. Each drawn pixel wraps modulo the grid dimensions, and every
/// grid pixel is covered by at most one sprite bit.
pub open spec fn covers(s: Seq<u8>, x: int, y: int, px: int, py: int) -> bool {
    let row = (py - y) % 32;
    let col = (px - x) % 64;
    row < sprite_rows(s) && col < 8 && byte_bit(s[row], 7 - col)
}

/// `covers`, addressed by row-major pixel index.
pub open spec fn covers_idx(s: Seq<u8>, x: int, y: int, idx: int) -> bool {
    covers(s, x, y, idx % 64, idx / 64)
}

/// `covers` restricted to the sprite bits that precede row `rowlim`, column
/// `collim` in row-major drawing order; used to state loop invariants.
pub open spec fn covers_part(
    s: Seq<u8>,
    x: int,
    y: int,
    px: int,
    py: int,
    rowlim: int,
    collim: int,
) -> bool {
    let row = (py - y) % 32;
    let col = (px - x) % 64;
    row < sprite_rows(s) && col < 8 && (row < rowlim || (row == rowlim && col < collim))
        && byte_bit(s[row], 7 - col)
}

/// `covers_part`, addressed by row-major pixel index.
pub open spec fn covers_part_idx(
    s: Seq<u8>,
    x: int,
    y: int,
    idx: int,
    rowlim: int,
    collim: int,
) -> bool {
    covers_part(s, x, y, idx % 64, idx / 64, rowlim, collim)
}

/// The grid after XOR-blitting sprite `s` at `(x, y)`.
pub open spec fn draw_grid(g: Seq<bool>, s: Seq<u8>, x: int, y: int) -> Seq<bool> {
    Seq::new(g.len(), |idx: int| g[idx] != covers_idx(s, x, y, idx))
}

/// Whether blitting sprite `s` at `(x, y)` turns some lit pixel off.
pub open spec fn draw_collision(g: Seq<bool>, s: Seq<u8>, x: int, y: int) -> bool {
    exists|idx: int| 0 <= idx < g.len() && g[idx] && covers_idx(s, x, y, idx)
}

/// For `0 <= off < m` and `0 <= p < m`: `p` is `base + off` wrapped modulo
/// `m` exactly when `off` is recovered by `(p - base) % m`.
proof fn lemma_wrap_index(m: int, base: int, off: int, p: int)
    requires
        0 < m,
        0 <= off < m,
        0 <= p < m,
    ensures
        ((p - base) % m == off) <==> (p == ((base % m) + off) % m),
{
    lemma_small_mod(off as nat, m as nat);
    lemma_small_mod(p as nat, m as nat);
    lemma_add_mod_noop(base, off, m);
    lemma_sub_mod_noop(base + off, base, m);
    lemma_sub_mod_noop_right((base + off) % m, base, m);
    lemma_add_mod_noop_right(base, p - base, m);
}

/// Facts about processing the single sprite bit at (`row`, `col`): which grid
/// index it lands on, that that index was not covered by earlier bits, and
/// that no other index's coverage changes.
proof fn lemma_cover_step(s: Seq<u8>, x: int, y: int, row: int, col: int)
    requires
        0 <= row < sprite_rows(s),
        0 <= col < 8,
    ensures
        ({
            let py = ((y % 32) + row) % 32;
            let px = ((x % 64) + col) % 64;
            let idx0 = py * 64 + px;
            &&& 0 <= idx0 < 2048
            &&& idx0 % 64 == px
            &&& idx0 / 64 == py
            &&& !covers_part_idx(s, x, y, idx0, row, col)
            &&& covers_idx(s, x, y, idx0) == byte_bit(s[row], 7 - col)
            &&& covers_part_idx(s, x, y, idx0, row, col + 1) == byte_bit(s[row], 7 - col)
            &&& forall|idx: int|
                0 <= idx < 2048 && idx != idx0 ==> covers_part_idx(s, x, y, idx, row, col + 1)
                    == covers_part_idx(s, x, y, idx, row, col)
        }),
{
    let py = ((y % 32) + row) % 32;
    let px = ((x % 64) + col) % 64;
    let idx0 = py * 64 + px;
    lemma_mod_bound((y % 32) + row, 32);
    lemma_mod_bound((x % 64) + col, 64);
    lemma_fundamental_div_mod_converse(idx0, 64, py, px);
    lemma_wrap_index(32, y, row, py);
    lemma_wrap_index(64, x, col, px);
    assert((py - y) % 32 == row && (px - x) % 64 == col);
    assert forall|idx: int| 0 <= idx < 2048 && idx != idx0 implies covers_part_idx(
        s,
        x,
        y,
        idx,
        row,
        col + 1,
    ) == covers_part_idx(s, x, y, idx, row, col) by {
        let pxi = idx % 64;
        let pyi = idx / 64;
        lemma_fundamental_div_mod(idx, 64);
        lemma_mod_bound(idx, 64);
        if (pyi - y) % 32 == row && (pxi - x) % 64 == col {
            lemma_wrap_index(32, y, row, pyi);
            lemma_wrap_index(64, x, col, pxi);
            assert(pyi == py && pxi == px);
            assert(idx == idx0);
        }
    }
}

/// At the start of a row, nothing of that row is processed yet; the prefix is
/// the same as having finished the previous row.
proof fn lemma_cover_row_end(s: Seq<u8>, x: int, y: int, row: int)
    ensures
        forall|idx: int|
            covers_part_idx(s, x, y, idx, row, 8) == covers_part_idx(s, x, y, idx, row + 1, 0),
{
    assert forall|idx: int| covers_part_idx(s, x, y, idx, row, 8) == covers_part_idx(
        s,
        x,
        y,
        idx,
        row + 1,
        0,
    ) by {
        lemma_mod_bound((idx % 64) - x, 64);
    }
}

/// Having processed every drawn row, the prefix coverage is full coverage.
proof fn lemma_cover_full(s: Seq<u8>, x: int, y: int)
    ensures
        forall|idx: int|
            covers_part_idx(s, x, y, idx, sprite_rows(s), 0) == covers_idx(s, x, y, idx),
        forall|idx: int| !covers_part_idx(s, x, y, idx, 0, 0),
{
    assert forall|idx: int| !covers_part_idx(s, x, y, idx, 0, 0) by {
        lemma_mod_bound((idx / 64) - y, 32);
        lemma_mod_bound((idx % 64) - x, 64);
    }
}

/// Drawing the same sprite twice at the same position restores the prior grid
/// exactly, and the second draw reports a collision precisely when the first
/// draw turned some covered pixel on.
pub proof fn lemma_draw_involution(g: Seq<bool>, s: Seq<u8>, x: int, y: int)
    requires
        g.len() == 2048,
    ensures
        draw_grid(draw_grid(g, s, x, y), s, x, y) =~= g,
        draw_collision(draw_grid(g, s, x, y), s, x, y) <==> (exists|idx: int|
            0 <= idx < 2048 && !g[idx] && covers_idx(s, x, y, idx)),
{
    let g1 = draw_grid(g, s, x, y);
    assert(g1.len() == 2048);
    if draw_collision(g1, s, x, y) {
        let idx = choose|idx: int| 0 <= idx < 2048 && g1[idx] && covers_idx(s, x, y, idx);
        assert(!g[idx] && covers_idx(s, x, y, idx));
    }
    if exists|idx: int| 0 <= idx < 2048 && !g[idx] && covers_idx(s, x, y, idx) {
        let idx = choose|idx: int| 0 <= idx < 2048 && !g[idx] && covers_idx(s, x, y, idx);
        assert(g1[idx] && covers_idx(s, x, y, idx));
    }
}

/// Horizontal wraparound: a sprite drawn with x = 63 (the last column) puts
/// its second column (bit 6 of each row byte) at x = 0.
pub proof fn lemma_draw_wraps_horizontal(g: Seq<bool>, s: Seq<u8>, y: int, row: int)
    requires
        g.len() == 2048,
        0 <= row < sprite_rows(s),
    ensures
        ({
            let py = ((y % 32) + row) % 32;
            draw_grid(g, s, 63, y)[py * 64] == (g[py * 64] != byte_bit(s[row], 6))
        }),
{
    lemma_cover_step(s, 63, y, row, 1);
}

/// Vertical wraparound: a sprite drawn with y = 31 (the last row) puts its
/// second row byte at y = 0.
pub proof fn lemma_draw_wraps_vertical(g: Seq<bool>, s: Seq<u8>, x: int, col: int)
    requires
        g.len() == 2048,
        0 <= col < 8,
        sprite_rows(s) >= 2,
    ensures
        ({
            let px = ((x % 64) + col) % 64;
            draw_grid(g, s, x, 31)[px] == (g[px] != byte_bit(s[1], 7 - col))
        }),
{
    lemma_cover_step(s, x, 31, 1, col);
}

/// The pixel grid. Fixed 64x32 resolution; mutated only by `clear` and
/// `draw_sprite`.
pub struct Display {
    pub width: u32,
    pub height: u32,
    pub pixels: Vec<bool>,
}

impl Display {
    /// The grid keeps its fixed dimensions, stored row-major.
    pub open spec fn wf(self) -> bool {
        &&& self.width == 64u32
        &&& self.height == 32u32
        &&& self.pixels@.len() == DISPLAY_AREA
    }

    pub fn new(width: u32, height: u32) -> (d: Display)
        requires
            width == 64u32,
            height == 32u32,
        ensures
            d.wf(),
            forall|idx: int| 0 <= idx < DISPLAY_AREA ==> !d.pixels@[idx],
    {
        let mut pixels: Vec<bool> = Vec::new();
        let mut k: usize = 0;
        while k < DISPLAY_AREA
            invariant
                k == pixels@.len(),
                k <= DISPLAY_AREA,
                forall|idx: int| 0 <= idx < k ==> !pixels@[idx],
            decreases DISPLAY_AREA - k,
        {
            pixels.push(false);
            k = k + 1;
        }
        Display { width, height, pixels }
    }

    /// Set every pixel off.
    pub fn clear(&mut self)
        requires
            old(self).wf(),
        ensures
            final(self).wf(),
            forall|idx: int| 0 <= idx < DISPLAY_AREA ==> !final(self).pixels@[idx],
    {
        let mut k: usize = 0;
        while k < DISPLAY_AREA
            invariant
                self.wf(),
                k <= DISPLAY_AREA,
                forall|idx: int| 0 <= idx < k ==> !self.pixels@[idx],
            decreases DISPLAY_AREA - k,
        {
            self.pixels.set(k, false);
            k = k + 1;
        }
    }

    /// XOR-blit `sprite` with its top-left corner at `(x, y)`, both wrapped
    /// into the grid; returns whether any lit pixel was turned off. Collision
    /// is judged against the pixel value before the XOR.
    pub fn draw_sprite(&mut self, x: u8, y: u8, sprite: &Vec<u8>) -> (collision: bool)
        requires
            old(self).wf(),
        ensures
            final(self).wf(),
            final(self).pixels@ == draw_grid(old(self).pixels@, sprite@, x as int, y as int),
            collision == draw_collision(old(self).pixels@, sprite@, x as int, y as int),
    {
        let ghost g0 = self.pixels@;
        let ghost xs = x as int;
        let ghost ys = y as int;
        let xi: usize = (x as usize) % 64;
        let yi: usize = (y as usize) % 32;
        let nrows: usize = if sprite.len() <= 32 {
            sprite.len()
        } else {
            32
        };
        let mut collision = false;
        proof {
            lemma_cover_full(sprite@, xs, ys);
        }
        let mut row: usize = 0;
        while row < nrows
            invariant
                self.wf(),
                self.width == old(self).width,
                self.height == old(self).height,
                g0.len() == 2048,
                xi == xs % 64,
                yi == ys % 32,
                nrows == sprite_rows(sprite@),
                nrows <= sprite@.len(),
                row <= nrows,
                forall|idx: int|
                    0 <= idx < 2048 ==> self.pixels@[idx] == (g0[idx] != covers_part_idx(
                        sprite@,
                        xs,
                        ys,
                        idx,
                        row as int,
                        0,
                    )),
                collision == exists|idx: int|
                    0 <= idx < 2048 && g0[idx] && covers_part_idx(
                        sprite@,
                        xs,
                        ys,
                        idx,
                        row as int,
                        0,
                    ),
            decreases nrows - row,
        {
            let byte: u8 = sprite[row];
            let mut col: usize = 0;
            while col < 8
                invariant
                    self.wf(),
                    self.width == old(self).width,
                    self.height == old(self).height,
                    g0.len() == 2048,
                    xi == xs % 64,
                    yi == ys % 32,
                    nrows == sprite_rows(sprite@),
                    nrows <= sprite@.len(),
                    row < nrows,
                    col <= 8,
                    byte == sprite@[row as int],
                    forall|idx: int|
                        0 <= idx < 2048 ==> self.pixels@[idx] == (g0[idx] != covers_part_idx(
                            sprite@,
                            xs,
                            ys,
                            idx,
                            row as int,
                            col as int,
                        )),
                    collision == exists|idx: int|
                        0 <= idx < 2048 && g0[idx] && covers_part_idx(
                            sprite@,
                            xs,
                            ys,
                            idx,
                            row as int,
                            col as int,
                        ),
                decreases 8 - col,
            {
                proof {
                    lemma_cover_step(sprite@, xs, ys, row as int, col as int);
                }
                let k: usize = 7 - col;
                let divisor: u8 = if k == 0 {
                    1
                } else if k == 1 {
                    2
                } else if k == 2 {
                    4
                } else if k == 3 {
                    8
                } else if k == 4 {
                    16
                } else if k == 5 {
                    32
                } else if k == 6 {
                    64
                } else {
                    128
                };
                let bit: bool = (byte / divisor) % 2 == 1;
                assert(bit == byte_bit(sprite@[row as int], 7 - col as int));
                let px: usize = (xi + col) % 64;
                let py: usize = (yi + row) % 32;
                let idx: usize = py * 64 + px;
                assert(px == ((xs % 64) + col as int) % 64 && py == ((ys % 32) + row as int) % 32);
                if bit {
                    let cur: bool = self.pixels[idx];
                    assert(cur == g0[idx as int]);
                    if cur {
                        collision = true;
                    }
                    self.pixels.set(idx, !cur);
                    assert(collision == exists|j: int|
                        0 <= j < 2048 && g0[j] && covers_part_idx(
                            sprite@,
                            xs,
                            ys,
                            j,
                            row as int,
                            col as int + 1,
                        )) by {
                        if collision {
                            if cur {
                                assert(g0[idx as int] && covers_part_idx(
                                    sprite@,
                                    xs,
                                    ys,
                                    idx as int,
                                    row as int,
                                    col as int + 1,
                                ));
                            } else {
                                let w = choose|j: int|
                                    0 <= j < 2048 && g0[j] && covers_part_idx(
                                        sprite@,
                                        xs,
                                        ys,
                                        j,
                                        row as int,
                                        col as int,
                                    );
                                assert(covers_part_idx(
                                    sprite@,
                                    xs,
                                    ys,
                                    w,
                                    row as int,
                                    col as int + 1,
                                ));
                            }
                        } else {
                            assert forall|j: int|
                                0 <= j < 2048 && g0[j] implies !covers_part_idx(
                                sprite@,
                                xs,
                                ys,
                                j,
                                row as int,
                                col as int + 1,
                            ) by {
                                assert(!covers_part_idx(sprite@, xs, ys, j, row as int, col as int));
                                assert(!g0[idx as int]);
                            }
                        }
                    }
                } else {
                    assert(forall|j: int|
                        0 <= j < 2048 ==> covers_part_idx(
                            sprite@,
                            xs,
                            ys,
                            j,
                            row as int,
                            col as int + 1,
                        ) == covers_part_idx(sprite@, xs, ys, j, row as int, col as int));
                }
                col = col + 1;
            }
            proof {
                lemma_cover_row_end(sprite@, xs, ys, row as int);
            }
            row = row + 1;
        }
        proof {
            if nrows < 32 {
                assert(sprite_rows(sprite@) == sprite@.len());
            }
            assert(self.pixels@ =~= draw_grid(g0, sprite@, xs, ys));
        }
        collision
    }

    /// Export the current grid as a plain frame buffer.
    pub fn frame(&self) -> (f: PixelBuffer)
        requires
            self.wf(),
        ensures
            f.wf(),
            f.pixels@ == self.pixels@,
    {
        let mut pixels: Vec<bool> = Vec::new();
        let mut k: usize = 0;
        while k < DISPLAY_AREA
            invariant
                self.wf(),
                k == pixels@.len(),
                k <= DISPLAY_AREA,
                forall|idx: int| 0 <= idx < k ==> pixels@[idx] == self.pixels@[idx],
            decreases DISPLAY_AREA - k,
        {
            pixels.push(self.pixels[k]);
            k = k + 1;
        }
        let f = PixelBuffer { pixels };
        proof {
            assert(f.pixels@ =~= self.pixels@);
        }
        f
    }
}

/// A plain row-major frame of the fixed 64x32 grid, as handed to a renderer.
pub struct PixelBuffer {
    pub pixels: Vec<bool>,
}

impl Default for PixelBuffer {
    /// An all-off frame.
    fn default() -> (f: PixelBuffer)
        ensures
            f.wf(),
            forall|idx: int| 0 <= idx < DISPLAY_AREA ==> !f.pixels@[idx],
    {
        let mut pixels: Vec<bool> = Vec::new();
        let mut k: usize = 0;
        while k < DISPLAY_AREA
            invariant
                k == pixels@.len(),
                k <= DISPLAY_AREA,
                forall|idx: int| 0 <= idx < k ==> !pixels@[idx],
            decreases DISPLAY_AREA - k,
        {
            pixels.push(false);
            k = k + 1;
        }
        PixelBuffer { pixels }
    }
}

impl PixelBuffer {
    /// A frame always covers the whole fixed grid.
    pub open spec fn wf(self) -> bool {
        self.pixels@.len() == DISPLAY_AREA
    }

    /// Set every pixel off.
    pub fn clear(&mut self)
        requires
            old(self).wf(),
        ensures
            final(self).wf(),
            forall|idx: int| 0 <= idx < DISPLAY_AREA ==> !final(self).pixels@[idx],
    {
        let mut k: usize = 0;
        while k < DISPLAY_AREA
            invariant
                self.pixels@.len() == DISPLAY_AREA,
                k <= DISPLAY_AREA,
                forall|idx: int| 0 <= idx < k ==> !self.pixels@[idx],
            decreases DISPLAY_AREA - k,
        {
            self.pixels.set(k, false);
            k = k + 1;
        }
    }

    /// Write one pixel; coordinates outside the grid are ignored.
    pub fn set_pixel(&mut self, x: usize, y: usize, value: bool)
        requires
            old(self).wf(),
        ensures
            final(self).wf(),
            x < DISPLAY_WIDTH && y < DISPLAY_HEIGHT ==> final(self).pixels@ == old(
                self,
            ).pixels@.update(y * 64 + x, value),
            !(x < DISPLAY_WIDTH && y < DISPLAY_HEIGHT) ==> final(self).pixels@ == old(
                self,
            ).pixels@,
    {
        if x < DISPLAY_WIDTH && y < DISPLAY_HEIGHT {
            self.pixels.set(y * 64 + x, value);
        }
    }

    /// Read one pixel; coordinates outside the grid read as off.
    pub fn get_pixel(&self, x: usize, y: usize) -> (b: bool)
        requires
            self.wf(),
        ensures
            b == (x < DISPLAY_WIDTH && y < DISPLAY_HEIGHT && self.pixels@[y as int * 64 + x as int]),
    {
        if x < DISPLAY_WIDTH && y < DISPLAY_HEIGHT {
            self.pixels[y * 64 + x]
        } else {
            false
        }
    }
}

} // verus!

use vstd::prelude::*;
use vstd::arithmetic::div_mod::{
    lemma_fundamental_div_mod,
    lemma_fundamental_div_mod_converse,
    lemma_mod_pos_bound,
};

verus! {

/// Each agent is rendered as a square of `PIXEL_SCALE` x `PIXEL_SCALE` pixels.
pub const PIXEL_SCALE: usize = 10;

/// One agent to draw: the grid cell it is drawn at and its colour as `0xRRGGBB`.
#[derive(Clone, Copy, Debug, PartialEq, Eq, Structural)]
pub struct Sprite {
    pub px: usize,
    pub py: usize,
    pub rgb: u32,
}

/// Colour channels packed as `0xRRGGBB`.
pub open spec fn spec_pack_rgb(r: u8, g: u8, b: u8) -> int {
    r * 0x10000 + g * 0x100 + b
}

/// Packs colour channels as `0xRRGGBB`.
pub fn pack_rgb(r: u8, g: u8, b: u8) -> (c: u32)
    ensures
        c == spec_pack_rgb(r, g, b),
{
    assert(((r as u32) << 16u32) | ((g as u32) << 8u32) | (b as u32) == r * 0x10000 + g * 0x100 + b)
        by (bit_vector);
    ((r as u32) << 16) | ((g as u32) << 8) | (b as u32)
}

/// The channels can be read back from a packed colour.
pub proof fn lemma_pack_rgb_channels(r: u8, g: u8, b: u8)
    ensures
        spec_pack_rgb(r, g, b) <= 0xff_ffff,
        spec_pack_rgb(r, g, b) / 0x10000 == r,
        (spec_pack_rgb(r, g, b) / 0x100) % 0x100 == g,
        spec_pack_rgb(r, g, b) % 0x100 == b,
{
    let c = spec_pack_rgb(r, g, b);
    assert(c == r * 0x10000 + (g * 0x100 + b));
    lemma_fundamental_div_mod_converse(c, 0x10000, r as int, g * 0x100 + b);
    lemma_fundamental_div_mod_converse(c, 0x100, r * 0x100 + g, b as int);
    lemma_fundamental_div_mod_converse(r * 0x100 + g, 0x100, r as int, g as int);
}

/// Pixel `i` of a `ds` x `ds` display, row by row, lies in the square of
/// side `scale` drawn for `s`.
pub open spec fn spec_covers(s: Sprite, i: int, ds: int, scale: int) -> bool {
    let x = i % ds;
    let y = i / ds;
    &&& s.px * scale <= x < s.px * scale + scale
    &&& s.py * scale <= y < s.py * scale + scale
}

/// Colour of pixel `i` after drawing `sprites` in order on a cleared display:
/// that of the last sprite covering it, or black.
pub open spec fn spec_paint(sprites: Seq<Sprite>, i: int, ds: int, scale: int) -> u32
    decreases sprites.len(),
{
    if sprites.len() == 0 {
        0
    } else if spec_covers(sprites.last(), i, ds, scale) {
        sprites.last().rgb
    } else {
        spec_paint(sprites.drop_last(), i, ds, scale)
    }
}

/// The pixels of sprite `s` drawn so far: rows above `sy + dy`, and the
/// first `dx` pixels of row `sy + dy`.
spec fn spec_drawn(s: Sprite, i: int, ds: int, scale: int, dy: int, dx: int) -> bool {
    let x = i % ds;
    let y = i / ds;
    let sx = s.px * scale;
    let sy = s.py * scale;
    &&& sx <= x < sx + scale
    &&& sy <= y
    &&& (y < sy + dy || (y == sy + dy && x < sx + dx))
}

/// The number of pixels of `fb` that are not black.
pub open spec fn spec_lit_count(fb: Seq<u32>) -> nat
    decreases fb.len(),
{
    if fb.len() == 0 {
        0
    } else {
        spec_lit_count(fb.drop_last()) + if fb.last() != 0 {
            1nat
        } else {
            0nat
        }
    }
}

/// Software framebuffer of the grid, `PIXEL_SCALE` pixels per cell side.
pub struct Renderer {
    framebuffer: Vec<u32>,
    grid_size: usize,
    pixel_scale: usize,
}

impl Renderer {
    pub closed spec fn spec_framebuffer(&self) -> Seq<u32> {
        self.framebuffer@
    }

    pub closed spec fn spec_grid_size(&self) -> usize {
        self.grid_size
    }

    /// Side of the display in pixels.
    pub closed spec fn spec_display_size(&self) -> int {
        self.grid_size * self.pixel_scale
    }

    /// The framebuffer is the whole square display.
    pub closed spec fn wf(&self) -> bool {
        &&& self.pixel_scale == PIXEL_SCALE
        &&& self.framebuffer@.len() == self.spec_display_size() * self.spec_display_size()
    }

    /// A black display for a grid of side `grid_size`.
    pub fn new(grid_size: usize) -> (r: Self)
        requires
            (grid_size * PIXEL_SCALE) * (grid_size * PIXEL_SCALE) <= usize::MAX,
        ensures
            r.wf(),
            r.spec_grid_size() == grid_size,
            r.spec_display_size() == grid_size * PIXEL_SCALE,
            r.spec_framebuffer() == Seq::new(
                ((grid_size * PIXEL_SCALE) * (grid_size * PIXEL_SCALE)) as nat,
                |i: int| 0u32,
            ),
    {
        // 100x100 grid * 10 = 1000x1000 display
        let pixel_scale = PIXEL_SCALE;
        proof {
            lemma_side_fits(grid_size * PIXEL_SCALE);
        }
        let ds = grid_size * pixel_scale;
        let len = ds * ds;
        let mut framebuffer: Vec<u32> = Vec::new();
        let mut i: usize = 0;
        while i < len
            invariant
                i <= len,
                framebuffer@ == Seq::new(i as nat, |k: int| 0u32),
            decreases len - i,
        {
            framebuffer.push(0);
            i = i + 1;
            assert(framebuffer@ =~= Seq::new(i as nat, |k: int| 0u32));
        }
        Renderer { framebuffer, grid_size, pixel_scale }
    }

    /// Clears the display and draws `sprites` in order, each as a square of
    /// pixels at its cell.
    pub fn render(&mut self, sprites: &Vec<Sprite>)
        requires
            old(self).wf(),
        ensures
            final(self).wf(),
            final(self).spec_grid_size() == old(self).spec_grid_size(),
            final(self).spec_framebuffer().len() == old(self).spec_framebuffer().len(),
            forall|i: int|
                0 <= i < final(self).spec_framebuffer().len() ==> #[trigger] final(self).spec_framebuffer()[i] == spec_paint(
                    sprites@,
                    i,
                    old(self).spec_display_size(),
                    PIXEL_SCALE as int,
                ),
    {
        // Clear framebuffer
        let ghost g0 = self.grid_size;
        let len = self.framebuffer.len();
        let mut i: usize = 0;
        while i < len
            invariant
                self.wf(),
                self.grid_size == g0,
                len == self.framebuffer@.len(),
                i <= len,
                forall|k: int| 0 <= k < i ==> self.framebuffer@[k] == 0,
            decreases len - i,
        {
            self.framebuffer.set(i, 0);
            i = i + 1;
        }
        let n = sprites.len();
        let mut j: usize = 0;
        while j < n
            invariant
                self.wf(),
                self.grid_size == g0,
                len == self.framebuffer@.len(),
                n == sprites@.len(),
                j <= n,
                forall|k: int|
                    0 <= k < len ==> #[trigger] self.framebuffer@[k] == spec_paint(
                        sprites@.take(j as int),
                        k,
                        self.spec_display_size(),
                        PIXEL_SCALE as int,
                    ),
            decreases n - j,
        {
            let ghost before = self.framebuffer@;
            self.draw(sprites[j]);
            proof {
                let ds = self.spec_display_size();
                let t = sprites@.take(j + 1);
                assert(t.drop_last() =~= sprites@.take(j as int));
                assert(t.last() == sprites@[j as int]);
                assert forall|k: int| 0 <= k < len implies #[trigger] self.framebuffer@[k]
                    == spec_paint(t, k, ds, PIXEL_SCALE as int) by {
                    assert(before[k] == spec_paint(sprites@.take(j as int), k, ds, PIXEL_SCALE as int));
                }
            }
            j = j + 1;
        }
        proof {
            assert(sprites@.take(n as int) =~= sprites@);
        }
    }

    /// Draws one sprite as a square of pixels at its cell.
    fn draw(&mut self, s: Sprite)
        requires
            old(self).wf(),
        ensures
            final(self).wf(),
            final(self).grid_size == old(self).grid_size,
            final(self).framebuffer@.len() == old(self).framebuffer@.len(),
            forall|i: int|
                0 <= i < old(self).framebuffer@.len() ==> #[trigger] final(self).framebuffer@[i]
                    == if spec_covers(s, i, old(self).spec_display_size(), PIXEL_SCALE as int) {
                    s.rgb
                } else {
                    old(self).framebuffer@[i]
                },
    {
        let ghost old_fb = self.framebuffer@;
        let scale = self.pixel_scale;
        let g = self.grid_size;
        let len = self.framebuffer.len();
        proof {
            lemma_side_fits(g * scale);
        }
        let display_size = g * scale;
        let ghost ds = display_size as int;
        if s.px >= g || s.py >= g {
            // the square lies beyond the display
            proof {
                assert forall|i: int| 0 <= i < old_fb.len() implies !spec_covers(
                    s,
                    i,
                    ds,
                    scale as int,
                ) by {
                    lemma_pixel_in_display(i, ds);
                    assert(s.px * scale >= ds || s.py * scale >= ds) by (nonlinear_arith)
                        requires
                            s.px >= g || s.py >= g,
                            ds == g * scale,
                            scale == 10,
                    ;
                }
            }
            return ;
        }
        assert(s.px * scale + scale <= display_size && s.py * scale + scale <= display_size)
            by (nonlinear_arith)
            requires
                s.px < g,
                s.py < g,
                display_size == g * scale,
        ;
        let start_x = s.px * scale;
        let start_y = s.py * scale;
        let mut dy: usize = 0;
        while dy < scale
            invariant
                self.wf(),
                self.grid_size == g,
                scale == self.pixel_scale,
                scale == PIXEL_SCALE,
                display_size == g * scale,
                ds == display_size,
                len == self.framebuffer@.len(),
                len == ds * ds,
                start_x == s.px * scale,
                start_y == s.py * scale,
                start_x + scale <= display_size,
                start_y + scale <= display_size,
                dy <= scale,
                forall|i: int|
                    0 <= i < len ==> #[trigger] self.framebuffer@[i] == if spec_drawn(
                        s,
                        i,
                        ds,
                        scale as int,
                        dy as int,
                        0,
                    ) {
                        s.rgb
                    } else {
                        old_fb[i]
                    },
            decreases scale - dy,
        {
            let mut dx: usize = 0;
            while dx < scale
                invariant
                    self.wf(),
                    self.grid_size == g,
                    scale == self.pixel_scale,
                    scale == PIXEL_SCALE,
                    display_size == g * scale,
                    ds == display_size,
                    len == self.framebuffer@.len(),
                    len == ds * ds,
                    start_x == s.px * scale,
                    start_y == s.py * scale,
                    start_x + scale <= display_size,
                    start_y + scale <= display_size,
                    dy < scale,
                    dx <= scale,
                    forall|i: int|
                        0 <= i < len ==> #[trigger] self.framebuffer@[i] == if spec_drawn(
                            s,
                            i,
                            ds,
                            scale as int,
                            dy as int,
                            dx as int,
                        ) {
                            s.rgb
                        } else {
                            old_fb[i]
                        },
                decreases scale - dx,
            {
                let x = start_x + dx;
                let y = start_y + dy;
                if x < display_size && y < display_size {
                    assert(y * display_size + x < display_size * display_size) by (nonlinear_arith)
                        requires
                            x < display_size,
                            y < display_size,
                    ;
                    let idx = y * display_size + x;
                    if idx < len {
                        let ghost before = self.framebuffer@;
                        self.framebuffer.set(idx, s.rgb);
                        proof {
                            lemma_fundamental_div_mod_converse(idx as int, ds, y as int, x as int);
                            assert forall|i: int| 0 <= i < len implies #[trigger] self.framebuffer@[i]
                                == if spec_drawn(s, i, ds, scale as int, dy as int, dx + 1) {
                                s.rgb
                            } else {
                                old_fb[i]
                            } by {
                                lemma_pixel_in_display(i, ds);
                                if i != idx {
                                    lemma_fundamental_div_mod(i, ds);
                                    assert(before[i] == self.framebuffer@[i]);
                                    if i % ds == x && i / ds == y {
                                        assert(i == idx) by (nonlinear_arith)
                                            requires
                                                i == ds * (i / ds) + i % ds,
                                                i % ds == x,
                                                i / ds == y,
                                                idx == y * ds + x,
                                        ;
                                    }
                                }
                            }
                        }
                    }
                }
                dx = dx + 1;
            }
            proof {
                assert forall|i: int| 0 <= i < len implies #[trigger] self.framebuffer@[i] == if spec_drawn(
                    s,
                    i,
                    ds,
                    scale as int,
                    dy + 1,
                    0,
                ) {
                    s.rgb
                } else {
                    old_fb[i]
                } by {
                    lemma_pixel_in_display(i, ds);
                }
            }
            dy = dy + 1;
        }
        proof {
            assert forall|i: int| 0 <= i < len implies #[trigger] self.framebuffer@[i] == if spec_covers(
                s,
                i,
                ds,
                scale as int,
            ) {
                s.rgb
            } else {
                old_fb[i]
            } by {
                lemma_pixel_in_display(i, ds);
            }
        }
    }

    /// The pixels, row by row.
    pub fn get_framebuffer(&self) -> (fb: &[u32])
        ensures
            fb@ == self.spec_framebuffer(),
    {
        self.framebuffer.as_slice()
    }

    /// The number of pixels that are not black.
    pub fn active_pixels(&self) -> (n: usize)
        ensures
            n == spec_lit_count(self.spec_framebuffer()),
    {
        let len = self.framebuffer.len();
        let mut n: usize = 0;
        let mut i: usize = 0;
        while i < len
            invariant
                len == self.framebuffer@.len(),
                i <= len,
                n == spec_lit_count(self.framebuffer@.take(i as int)),
                n <= i,
            decreases len - i,
        {
            assert(self.framebuffer@.take(i + 1).drop_last() =~= self.framebuffer@.take(i as int));
            if self.framebuffer[i] != 0 {
                n = n + 1;
            }
            i = i + 1;
        }
        assert(self.framebuffer@.take(len as int) =~= self.framebuffer@);
        n
    }
}

/// A square display that fits in memory has a side that fits too.
proof fn lemma_side_fits(ds: int)
    requires
        0 <= ds,
        ds * ds <= usize::MAX,
    ensures
        ds <= usize::MAX,
{
    if ds > 0 {
        assert(ds <= ds * ds) by (nonlinear_arith)
            requires
                ds > 0,
        ;
    }
}

/// Pixel `i` of a `ds` x `ds` display has its column and row on the display.
proof fn lemma_pixel_in_display(i: int, ds: int)
    requires
        0 <= ds,
        0 <= i < ds * ds,
    ensures
        0 <= i % ds < ds,
        0 <= i / ds < ds,
{
    if ds == 0 {
        assert(ds * ds == 0);
    } else {
        lemma_mod_pos_bound(i, ds);
        lemma_fundamental_div_mod(i, ds);
        assert(i / ds < ds) by (nonlinear_arith)
            requires
                i == ds * (i / ds) + i % ds,
                0 <= i % ds,
                i < ds * ds,
                ds > 0,
        ;
        assert(0 <= i / ds) by (nonlinear_arith)
            requires
                i == ds * (i / ds) + i % ds,
                i % ds < ds,
                0 <= i,
                ds > 0,
        ;
    }
}

} // verus!

use vstd::prelude::*;

verus! {

/// Where pixel (x, y) lives in a buffer laid out row by row, `width` pixels per row.
pub open spec fn pixel_index(width: int, x: int, y: int) -> int {
    y * width + x
}

/// The grid is stored row by row, left to right: pixel (x, y) is entry
/// `y * width + x`, the pixel right of it is the next entry, and the first
/// pixel of the next row follows the last pixel of its row.
pub proof fn lemma_row_major_layout(width: int, x: int, y: int)
    requires
        0 <= x < width,
        0 <= y,
    ensures
        pixel_index(width, x, y) == y * width + x,
        pixel_index(width, 0, 0) == 0,
        x + 1 < width ==> pixel_index(width, x + 1, y) == pixel_index(width, x, y) + 1,
        pixel_index(width, 0, y + 1) == pixel_index(width, width - 1, y) + 1,
{
    assert((y + 1) * width == y * width + width) by (nonlinear_arith);
}

/// Every pixel of a `width` x `height` grid has its index inside the buffer.
pub proof fn lemma_pixel_index_in_bounds(width: int, height: int, x: int, y: int)
    requires
        0 <= x < width,
        0 <= y < height,
    ensures
        0 <= pixel_index(width, x, y) < width * height,
{
    assert(0 <= y * width + x < width * height) by (nonlinear_arith)
        requires
            0 <= x < width,
            0 <= y < height,
    ;
}

/// Two pixels of a row-by-row grid never share a buffer index.
pub proof fn lemma_pixel_index_injective(width: int, x1: int, y1: int, x2: int, y2: int)
    requires
        0 <= x1 < width,
        0 <= x2 < width,
        0 <= y1,
        0 <= y2,
        pixel_index(width, x1, y1) == pixel_index(width, x2, y2),
    ensures
        x1 == x2,
        y1 == y2,
{
    assert(y1 == y2) by (nonlinear_arith)
        requires
            0 <= x1 < width,
            0 <= x2 < width,
            0 <= y1,
            0 <= y2,
            y1 * width + x1 == y2 * width + x2,
    {
        if y1 < y2 {
            assert(y1 * width + width <= y2 * width);
        } else if y2 < y1 {
            assert(y2 * width + width <= y1 * width);
        }
    }
}

/// A `width` x `height` grid of 0xRRGGBB colours, stored row by row, with a
/// background colour that `clear` paints and a pen colour that `point` paints.
pub struct Framebuffer {
    pub width: usize,
    pub height: usize,
    pub buffer: Vec<u32>,
    pub background_color: u32,
    pub current_color: u32,
}

impl Framebuffer {
    /// The buffer holds exactly one entry per pixel.
    pub open spec fn wf(&self) -> bool {
        self.buffer@.len() == self.width * self.height
    }

    /// The colour that `clear` paints.
    pub open spec fn background(&self) -> u32 {
        self.background_color
    }

    /// The colour that `point` paints.
    pub open spec fn pen(&self) -> u32 {
        self.current_color
    }

    /// Whether (x, y) is a pixel of the grid.
    pub open spec fn in_bounds(&self, x: int, y: int) -> bool {
        0 <= x < self.width && 0 <= y < self.height
    }

    /// The colour of pixel (x, y).
    pub open spec fn pixel(&self, x: int, y: int) -> u32 {
        self.buffer@[y * self.width + x]
    }

    /// Same grid size, same background and pen colours.
    pub open spec fn same_frame(&self, other: &Framebuffer) -> bool {
        &&& self.width == other.width
        &&& self.height == other.height
        &&& self.background() == other.background()
    }

    /// A black `width` x `height` framebuffer with a black background and a white pen.
    pub fn new(width: usize, height: usize) -> (fb: Self)
        requires
            width * height <= usize::MAX,
        ensures
            fb.width == width,
            fb.height == height,
            fb.wf(),
            forall|i: int| 0 <= i < fb.buffer@.len() ==> fb.buffer@[i] == 0,
            fb.background() == 0,
            fb.pen() == 0xFFFFFF,
    {
        let buffer: Vec<u32> = vec![0; width * height];
        Framebuffer { width, height, buffer, background_color: 0x000000, current_color: 0xFFFFFF }
    }

    /// Paints every entry of the buffer with the background colour.
    pub fn clear(&mut self)
        ensures
            final(self).same_frame(old(self)),
            final(self).pen() == old(self).pen(),
            final(self).buffer@.len() == old(self).buffer@.len(),
            old(self).wf() ==> final(self).wf(),
            forall|i: int|
                0 <= i < final(self).buffer@.len() ==> final(self).buffer@[i] == old(
                    self,
                ).background(),
    {
        let n = self.buffer.len();
        let bg = self.background_color;
        for i in 0..n
            invariant
                n == self.buffer@.len(),
                self.same_frame(old(self)),
                self.pen() == old(self).pen(),
                bg == old(self).background(),
                forall|j: int| 0 <= j < i ==> self.buffer@[j] == bg,
        {
            self.buffer.set(i, bg);
        }
    }

    /// Paints pixel (x, y) with the pen colour; a pixel outside the grid is ignored.
    pub fn point(&mut self, x: usize, y: usize)
        requires
            old(self).wf(),
        ensures
            final(self).wf(),
            final(self).same_frame(old(self)),
            final(self).pen() == old(self).pen(),
            final(self).buffer@ == if x < old(self).width && y < old(self).height {
                old(self).buffer@.update(y * old(self).width + x, old(self).pen())
            } else {
                old(self).buffer@
            },
            forall|px: int, py: int|
                old(self).in_bounds(px, py) ==> #[trigger] final(self).pixel(px, py) == if px
                    == x && py == y {
                    old(self).pen()
                } else {
                    old(self).pixel(px, py)
                },
    {
        if x < self.width && y < self.height {
            let len = self.buffer.len();
            proof {
                lemma_pixel_index_in_bounds(self.width as int, self.height as int, x as int, y as int);
                assert(0 <= y * self.width <= y * self.width + x < len);
            }
            let idx = y * self.width + x;
            self.buffer.set(idx, self.current_color);
            proof {
                assert forall|px: int, py: int| old(self).in_bounds(px, py) && !(px == x && py == y)
                    implies #[trigger] self.pixel(px, py) == old(self).pixel(px, py) by {
                    lemma_pixel_index_in_bounds(self.width as int, self.height as int, px, py);
                    if pixel_index(self.width as int, px, py) == idx {
                        lemma_pixel_index_injective(self.width as int, px, py, x as int, y as int);
                    }
                }
            }
        }
    }

    /// Paints one covered pixel of a laid-out glyph: the glyph-local pixel
    /// (gx, gy) is moved by the glyph's bounding-box corner (min_x, min_y) and
    /// painted in `color` when it lands on the grid. The pen colour is not used.
    pub fn plot_glyph_pixel(&mut self, gx: u32, gy: u32, min_x: i32, min_y: i32, color: u32)
        requires
            old(self).wf(),
            i32::MIN <= (gx as i32) + min_x <= i32::MAX,
            i32::MIN <= (gy as i32) + min_y <= i32::MAX,
        ensures
            final(self).wf(),
            final(self).same_frame(old(self)),
            final(self).pen() == old(self).pen(),
            ({
                let px = (gx as i32) + min_x;
                let py = (gy as i32) + min_y;
                final(self).buffer@ == if 0 <= px < (old(self).width as i32) && 0 <= py < (old(
                    self,
                ).height as i32) {
                    old(self).buffer@.update(py * old(self).width + px, color)
                } else {
                    old(self).buffer@
                }
            }),
    {
        let px: i32 = gx as i32 + min_x;
        let py: i32 = gy as i32 + min_y;
        if px >= 0 && px < self.width as i32 && py >= 0 && py < self.height as i32 {
            let w: usize = self.width;
            let h: usize = self.height;
            assert((px as usize) < w) by (bit_vector)
                requires
                    0 <= px,
                    px < (w as i32),
            ;
            assert((py as usize) < h) by (bit_vector)
                requires
                    0 <= py,
                    py < (h as i32),
            ;
            let x: usize = px as usize;
            let y: usize = py as usize;
            let len = self.buffer.len();
            proof {
                lemma_pixel_index_in_bounds(w as int, h as int, x as int, y as int);
                assert(0 <= y * w <= y * w + x < len);
            }
            self.buffer.set(y * w + x, color);
        }
    }

    /// Sets the colour that `clear` paints.
    pub fn set_background_color(&mut self, color: u32)
        ensures
            final(self).width == old(self).width,
            final(self).height == old(self).height,
            final(self).buffer@ == old(self).buffer@,
            final(self).background() == color,
            final(self).pen() == old(self).pen(),
    {
        self.background_color = color;
    }

    /// Sets the colour that `point` paints.
    pub fn set_current_color(&mut self, color: u32)
        ensures
            final(self).same_frame(old(self)),
            final(self).buffer@ == old(self).buffer@,
            final(self).pen() == color,
    {
        self.current_color = color;
    }
}

} // verus!

use vstd::prelude::*;

use crate::framebuffer::Framebuffer;
use crate::maze::{cell, has_cell};

verus! {

/// Whether (x, y) lies in the half-open rectangle [x0, x1) x [y0, y1).
pub open spec fn in_rect(x: int, y: int, x0: int, x1: int, y0: int, y1: int) -> bool {
    x0 <= x < x1 && y0 <= y < y1
}

/// Paints, column by column, every grid pixel (x, y) with
/// `x_start <= x < x_end` and `y_start <= y < y_end` in `color`; the pen is
/// left at `color` when the rectangle is not empty.
pub fn fill_rect(
    fb: &mut Framebuffer,
    x_start: usize,
    x_end: usize,
    y_start: usize,
    y_end: usize,
    color: u32,
)
    requires
        old(fb).wf(),
    ensures
        final(fb).wf(),
        final(fb).same_frame(old(fb)),
        final(fb).pen() == if x_start < x_end && y_start < y_end {
            color
        } else {
            old(fb).pen()
        },
        forall|px: int, py: int|
            old(fb).in_bounds(px, py) ==> #[trigger] final(fb).pixel(px, py) == if in_rect(
                px,
                py,
                x_start as int,
                x_end as int,
                y_start as int,
                y_end as int,
            ) {
                color
            } else {
                old(fb).pixel(px, py)
            },
{
    let mut x = x_start;
    while x < x_end
        invariant
            x_start <= x,
            x_start < x_end ==> x <= x_end,
            x_end <= x_start ==> x == x_start,
            fb.wf(),
            fb.same_frame(old(fb)),
            fb.pen() == if x_start < x && y_start < y_end {
                color
            } else {
                old(fb).pen()
            },
            forall|px: int, py: int|
                old(fb).in_bounds(px, py) ==> #[trigger] fb.pixel(px, py) == if in_rect(
                    px,
                    py,
                    x_start as int,
                    x as int,
                    y_start as int,
                    y_end as int,
                ) {
                    color
                } else {
                    old(fb).pixel(px, py)
                },
        decreases x_end - x,
    {
        let mut y = y_start;
        while y < y_end
            invariant
                x_start <= x < x_end,
                y_start <= y,
                y_start < y_end ==> y <= y_end,
                y_end <= y_start ==> y == y_start,
                fb.wf(),
                fb.same_frame(old(fb)),
                fb.pen() == if (x_start < x && y_start < y_end) || y_start < y {
                    color
                } else {
                    old(fb).pen()
                },
                forall|px: int, py: int|
                    old(fb).in_bounds(px, py) ==> #[trigger] fb.pixel(px, py) == if in_rect(
                        px,
                        py,
                        x_start as int,
                        x as int,
                        y_start as int,
                        y_end as int,
                    ) || (px == x && y_start <= py < y) {
                        color
                    } else {
                        old(fb).pixel(px, py)
                    },
            decreases y_end - y,
        {
            let ghost before = *fb;
            fb.set_current_color(color);
            assert(forall|px: int, py: int| #[trigger] fb.pixel(px, py) == before.pixel(px, py));
            fb.point(x, y);
            y = y + 1;
        }
        x = x + 1;
    }
}

/// Sprite texel colour that is not drawn: the sprite's see-through parts.
pub const SPRITE_TRANSPARENT: u32 = 0xFFFFFF;

/// Colour of the ceiling half of the first-person view.
pub const CEILING_COLOR: u32 = 0x383838;

/// Colour of the floor half of the first-person view.
pub const FLOOR_COLOR: u32 = 0x717171;

/// Colour of a goal cell.
pub const GOAL_COLOR: u32 = 0x008000;

/// Colour of a cell that no rule gives a colour.
pub const DEFAULT_CELL_COLOR: u32 = 0x000000;

/// Colour of a wall block on the map.
pub const MAP_WALL_COLOR: u32 = 0x000000;

/// Colour of the player's marker on the top-down map.
pub const MAP_PLAYER_COLOR: u32 = 0xFFFFFF;

/// Left edge of the minimap.
pub const MINIMAP_X: usize = 10;

/// Top edge of the minimap.
pub const MINIMAP_Y: usize = 10;

/// Height of the minimap, and the side that the maze is scaled to.
pub const MINIMAP_SIZE: usize = 200;

/// How much wider than tall the minimap's backdrop is.
pub const MINIMAP_EXTRA_WIDTH: usize = 70;

/// Colour of the minimap's backdrop.
pub const MINIMAP_BACKGROUND: u32 = 0x222222;

/// Colour of the player's marker on the minimap.
pub const MINIMAP_PLAYER_COLOR: u32 = 0xFF0000;

/// Draws one maze cell as a `block_size` x `block_size` block whose top-left
/// corner is (xo, yo): every cell but an open one (' ') is painted in the map
/// wall colour; an open cell leaves the framebuffer as it was.
pub fn draw_cell(framebuffer: &mut Framebuffer, xo: usize, yo: usize, block_size: usize, cell: char)
    requires
        old(framebuffer).wf(),
        xo + block_size <= usize::MAX,
        yo + block_size <= usize::MAX,
    ensures
        final(framebuffer).wf(),
        final(framebuffer).same_frame(old(framebuffer)),
        final(framebuffer).pen() == if cell != ' ' && block_size > 0 {
            MAP_WALL_COLOR
        } else {
            old(framebuffer).pen()
        },
        forall|px: int, py: int|
            old(framebuffer).in_bounds(px, py) ==> #[trigger] final(framebuffer).pixel(px, py)
                == if cell != ' ' && in_rect(
                px,
                py,
                xo as int,
                xo + block_size,
                yo as int,
                yo + block_size,
            ) {
                MAP_WALL_COLOR
            } else {
                old(framebuffer).pixel(px, py)
            },
{
    if cell != ' ' {
        fill_rect(framebuffer, xo, xo + block_size, yo, yo + block_size, MAP_WALL_COLOR);
    }
}

/// Paints the minimap's backdrop: the rectangle of columns
/// `MINIMAP_X..MINIMAP_X + MINIMAP_SIZE + MINIMAP_EXTRA_WIDTH` and rows
/// `MINIMAP_Y..MINIMAP_Y + MINIMAP_SIZE`, in the backdrop colour.
pub fn draw_minimap_background(framebuffer: &mut Framebuffer)
    requires
        old(framebuffer).wf(),
    ensures
        final(framebuffer).wf(),
        final(framebuffer).same_frame(old(framebuffer)),
        final(framebuffer).pen() == MINIMAP_BACKGROUND,
        forall|px: int, py: int|
            old(framebuffer).in_bounds(px, py) ==> #[trigger] final(framebuffer).pixel(px, py)
                == if in_rect(
                px,
                py,
                MINIMAP_X as int,
                MINIMAP_X + MINIMAP_SIZE + MINIMAP_EXTRA_WIDTH,
                MINIMAP_Y as int,
                MINIMAP_Y + MINIMAP_SIZE,
            ) {
                MINIMAP_BACKGROUND
            } else {
                old(framebuffer).pixel(px, py)
            },
{
    fill_rect(
        framebuffer,
        MINIMAP_X,
        MINIMAP_X + MINIMAP_SIZE + MINIMAP_EXTRA_WIDTH,
        MINIMAP_Y,
        MINIMAP_Y + MINIMAP_SIZE,
        MINIMAP_BACKGROUND,
    );
}

/// Paints the upper half of the view (rows `y < height / 2`) in the ceiling
/// colour and the rest in the floor colour.
pub fn draw_ceiling_and_floor(framebuffer: &mut Framebuffer)
    requires
        old(framebuffer).wf(),
    ensures
        final(framebuffer).wf(),
        final(framebuffer).same_frame(old(framebuffer)),
        final(framebuffer).pen() == if old(framebuffer).width > 0 && old(framebuffer).height > 0 {
            FLOOR_COLOR
        } else {
            old(framebuffer).pen()
        },
        forall|px: int, py: int|
            old(framebuffer).in_bounds(px, py) ==> #[trigger] final(framebuffer).pixel(px, py)
                == if py < old(framebuffer).height / 2 {
                CEILING_COLOR
            } else {
                FLOOR_COLOR
            },
{
    let width = framebuffer.width;
    let height = framebuffer.height;
    let horizon = height / 2;
    fill_rect(framebuffer, 0, width, 0, horizon, CEILING_COLOR);
    fill_rect(framebuffer, 0, width, horizon, height, FLOOR_COLOR);
}

/// Paints the vertical run of pixels of column `x` from row `top` down, one
/// colour per row: row `top + k` gets `colors[k]`. The pen is left at the last
/// colour of the run.
pub fn draw_stake(framebuffer: &mut Framebuffer, x: usize, top: usize, colors: &Vec<u32>)
    requires
        old(framebuffer).wf(),
        top + colors.len() <= usize::MAX,
    ensures
        final(framebuffer).wf(),
        final(framebuffer).same_frame(old(framebuffer)),
        final(framebuffer).pen() == if colors.len() > 0 {
            colors@.last()
        } else {
            old(framebuffer).pen()
        },
        forall|px: int, py: int|
            old(framebuffer).in_bounds(px, py) ==> #[trigger] final(framebuffer).pixel(px, py)
                == if px == x && top <= py < top + colors.len() {
                colors@[py - top]
            } else {
                old(framebuffer).pixel(px, py)
            },
{
    let n = colors.len();
    let mut k: usize = 0;
    while k < n
        invariant
            k <= n,
            n == colors.len(),
            top + n <= usize::MAX,
            framebuffer.wf(),
            framebuffer.same_frame(old(framebuffer)),
            framebuffer.pen() == if k > 0 {
                colors@[k - 1]
            } else {
                old(framebuffer).pen()
            },
            forall|px: int, py: int|
                old(framebuffer).in_bounds(px, py) ==> #[trigger] framebuffer.pixel(px, py) == if px
                    == x && top <= py < top + k {
                    colors@[py - top]
                } else {
                    old(framebuffer).pixel(px, py)
                },
        decreases n - k,
    {
        let ghost before = *framebuffer;
        framebuffer.set_current_color(colors[k]);
        assert(forall|px: int, py: int| #[trigger] framebuffer.pixel(px, py) == before.pixel(px, py));
        framebuffer.point(x, top + k);
        k = k + 1;
    }
}

/// Draws one texel of a sprite at pixel (x, y): a see-through texel leaves the
/// framebuffer and the pen as they were; any other colour becomes the pen
/// colour and is painted at (x, y).
pub fn draw_sprite_pixel(framebuffer: &mut Framebuffer, x: usize, y: usize, color: u32)
    requires
        old(framebuffer).wf(),
    ensures
        final(framebuffer).wf(),
        final(framebuffer).same_frame(old(framebuffer)),
        final(framebuffer).pen() == if color != SPRITE_TRANSPARENT {
            color
        } else {
            old(framebuffer).pen()
        },
        forall|px: int, py: int|
            old(framebuffer).in_bounds(px, py) ==> #[trigger] final(framebuffer).pixel(px, py)
                == if color != SPRITE_TRANSPARENT && px == x && py == y {
                color
            } else {
                old(framebuffer).pixel(px, py)
            },
{
    if color != SPRITE_TRANSPARENT {
        let ghost before = *framebuffer;
        framebuffer.set_current_color(color);
        assert(forall|px: int, py: int| #[trigger] framebuffer.pixel(px, py) == before.pixel(px, py));
        framebuffer.point(x, y);
    }
}

/// The colour that the first-person view gives to a wall made of `cell`,
/// where `wall1_texel` and `wall2_texel` are the texels that the two wall
/// textures hold at the sampled texture coordinates: '-' shows the first
/// texture, '+' and '|' the second, 'g' (the goal) is green, anything else black.
pub open spec fn cell_color(cell: char, wall1_texel: u32, wall2_texel: u32) -> u32 {
    if cell == '+' || cell == '|' {
        wall2_texel
    } else if cell == '-' {
        wall1_texel
    } else if cell == 'g' {
        GOAL_COLOR
    } else {
        DEFAULT_CELL_COLOR
    }
}

/// Whatever the two texels are, a '+' or '|' wall shows exactly the second
/// texture's texel and a '-' wall exactly the first's; the goal is green
/// (0x008000) and every other cell black, whatever the texels.
pub proof fn lemma_wall_texture_choice(cell: char, wall1_texel: u32, wall2_texel: u32)
    ensures
        cell == '+' ==> cell_color(cell, wall1_texel, wall2_texel) == wall2_texel,
        cell == '|' ==> cell_color(cell, wall1_texel, wall2_texel) == wall2_texel,
        cell == '-' ==> cell_color(cell, wall1_texel, wall2_texel) == wall1_texel,
        cell == 'g' ==> cell_color(cell, wall1_texel, wall2_texel) == 0x008000,
        cell != '+' && cell != '|' && cell != '-' && cell != 'g' ==> cell_color(
            cell,
            wall1_texel,
            wall2_texel,
        ) == 0,
        forall|other: u32|
            (cell == '+' || cell == '|') ==> #[trigger] cell_color(cell, other, wall2_texel)
                == wall2_texel,
        forall|other: u32|
            cell == '-' ==> #[trigger] cell_color(cell, wall1_texel, other) == wall1_texel,
{
}

/// The colour of a wall made of `cell` in the first-person view (see `cell_color`).
pub fn cell_to_texture_color(cell: char, wall1_texel: u32, wall2_texel: u32) -> (color: u32)
    ensures
        color == cell_color(cell, wall1_texel, wall2_texel),
        cell == '+' ==> color == wall2_texel,
        cell == '|' ==> color == wall2_texel,
        cell == '-' ==> color == wall1_texel,
        cell == 'g' ==> color == 0x008000,
        cell != '+' && cell != '|' && cell != '-' && cell != 'g' ==> color == 0,
{
    match cell {
        '+' => wall2_texel,
        '-' => wall1_texel,
        '|' => wall2_texel,
        'g' => GOAL_COLOR,
        _ => DEFAULT_CELL_COLOR,
    }
}

/// The texture coordinate (on a 128-texel side) that a sprite drawn `size`
/// pixels wide shows `offset` pixels from its edge.
pub fn sprite_texel(offset: usize, size: usize) -> (t: u32)
    requires
        size > 0,
        offset * 128 <= usize::MAX,
    ensures
        t == ((offset * 128) as int / size as int) as u32,
{
    ((offset * 128) / size) as u32
}

/// Pixel p lies in block k of a row of `block_size`-wide blocks exactly when
/// `p / block_size == k`.
pub proof fn lemma_block_of(p: int, k: int, block_size: int)
    requires
        block_size > 0,
        p >= 0,
        k >= 0,
    ensures
        (k * block_size <= p < k * block_size + block_size) <==> p / block_size == k,
{
    vstd::arithmetic::div_mod::lemma_fundamental_div_mod(p, block_size);
    vstd::arithmetic::div_mod::lemma_mod_pos_bound(p, block_size);
    if k * block_size <= p < k * block_size + block_size {
        vstd::arithmetic::div_mod::lemma_fundamental_div_mod_converse_div(
            p,
            block_size,
            k,
            p - k * block_size,
        );
    }
    if p / block_size == k {
        assert(block_size * (p / block_size) == k * block_size) by (nonlinear_arith)
            requires
                p / block_size == k,
        ;
    }
}

/// Whether pixel (x, y) of the top-down map lies in a wall block: the map draws
/// cell (row, col) as the `block_size` x `block_size` block with top-left corner
/// (col * block_size, row * block_size), and every cell but an open one is a wall.
pub open spec fn map_wall_at(maze: Seq<Vec<char>>, block_size: int, x: int, y: int) -> bool {
    &&& block_size > 0
    &&& has_cell(maze, y / block_size, x / block_size)
    &&& cell(maze, y / block_size, x / block_size) != ' '
}

/// The fixed colours and the minimap's placement: map walls, default cells
/// and the ceiling/floor split, the goal's green, the see-through sprite
/// white, and the minimap backdrop at (10, 10), 270 x 200 pixels.
pub proof fn lemma_render_constants()
    ensures
        MAP_WALL_COLOR == 0x000000,
        DEFAULT_CELL_COLOR == 0x000000,
        CEILING_COLOR == 0x383838,
        FLOOR_COLOR == 0x717171,
        GOAL_COLOR == 0x008000,
        SPRITE_TRANSPARENT == 0xFFFFFF,
        MAP_PLAYER_COLOR == 0xFFFFFF,
        MINIMAP_PLAYER_COLOR == 0xFF0000,
        MINIMAP_BACKGROUND == 0x222222,
        MINIMAP_X == 10,
        MINIMAP_Y == 10,
        MINIMAP_X + MINIMAP_SIZE + MINIMAP_EXTRA_WIDTH == 280,
        MINIMAP_Y + MINIMAP_SIZE == 210,
{
}

/// A rectangle holds its left and top edges and not its right and bottom ones.
pub proof fn lemma_rect_is_half_open(x: int, y: int, x0: int, x1: int, y0: int, y1: int)
    ensures
        in_rect(x, y, x0, x1, y0, y1) <==> (x0 <= x && x < x1 && y0 <= y && y < y1),
        x0 < x1 && y0 < y1 ==> in_rect(x0, y0, x0, x1, y0, y1),
        !in_rect(x1, y, x0, x1, y0, y1),
        !in_rect(x, y1, x0, x1, y0, y1),
{
}

/// On the top-down map, a pixel inside the block of cell (row, col), that is
/// `col * block_size <= x < (col + 1) * block_size` and likewise for `y`, is a
/// wall pixel exactly when that cell is not open (' ').
pub proof fn lemma_map_wall_block(
    maze: Seq<Vec<char>>,
    block_size: int,
    row: int,
    col: int,
    x: int,
    y: int,
)
    requires
        block_size > 0,
        0 <= row < maze.len(),
        0 <= col < maze[row]@.len(),
        col * block_size <= x < col * block_size + block_size,
        row * block_size <= y < row * block_size + block_size,
    ensures
        map_wall_at(maze, block_size, x, y) <==> maze[row]@[col] != ' ',
{
    assert(0 <= col * block_size && 0 <= row * block_size) by (nonlinear_arith)
        requires
            block_size > 0,
            col >= 0,
            row >= 0,
    ;
    lemma_block_of(x, col, block_size);
    lemma_block_of(y, row, block_size);
}

/// Whether the maze has a cell that is drawn as a wall.
pub open spec fn has_wall_cell(maze: Seq<Vec<char>>) -> bool {
    exists|r: int, c: int| #[trigger] has_cell(maze, r, c) && cell(maze, r, c) != ' '
}

/// Whether the block of every cell of the maze has coordinates that fit in a `usize`.
pub open spec fn blocks_fit(maze: Seq<Vec<char>>, block_size: int) -> bool {
    forall|r: int, c: int|
        #[trigger] has_cell(maze, r, c) ==> (c + 1) * block_size <= usize::MAX && (r + 1)
            * block_size <= usize::MAX
}

/// Whether cell (r, c) comes before cell (row, col) in row-by-row order.
pub open spec fn cell_before(row: int, col: int, r: int, c: int) -> bool {
    r < row || (r == row && c < col)
}

/// Draws the top-down map of the maze: cell (row, col) becomes the block of
/// `block_size` x `block_size` pixels with top-left corner
/// (col * block_size, row * block_size), painted in the map wall colour unless
/// the cell is open. Pixels outside every wall block keep their colour.
pub fn draw_maze(framebuffer: &mut Framebuffer, maze: &[Vec<char>], block_size: usize)
    requires
        old(framebuffer).wf(),
        blocks_fit(maze@, block_size as int),
    ensures
        final(framebuffer).wf(),
        final(framebuffer).same_frame(old(framebuffer)),
        final(framebuffer).pen() == if block_size > 0 && has_wall_cell(maze@) {
            MAP_WALL_COLOR
        } else {
            old(framebuffer).pen()
        },
        forall|px: int, py: int|
            old(framebuffer).in_bounds(px, py) ==> #[trigger] final(framebuffer).pixel(px, py)
                == if map_wall_at(maze@, block_size as int, px, py) {
                MAP_WALL_COLOR
            } else {
                old(framebuffer).pixel(px, py)
            },
{
    let ghost m = maze@;
    let ghost bs = block_size as int;
    let rows = maze.len();
    let mut row: usize = 0;
    while row < rows
        invariant
            row <= rows,
            rows == m.len(),
            m == maze@,
            bs == block_size,
            blocks_fit(m, bs),
            framebuffer.wf(),
            framebuffer.same_frame(old(framebuffer)),
            framebuffer.pen() == if bs > 0 && exists|r: int, c: int|
                #[trigger] has_cell(m, r, c) && cell(m, r, c) != ' ' && cell_before(
                    row as int,
                    0,
                    r,
                    c,
                ) {
                MAP_WALL_COLOR
            } else {
                old(framebuffer).pen()
            },
            forall|px: int, py: int|
                old(framebuffer).in_bounds(px, py) ==> #[trigger] framebuffer.pixel(px, py) == if map_wall_at(m, bs, px, py)
                    && cell_before(row as int, 0, py / bs, px / bs) {
                    MAP_WALL_COLOR
                } else {
                    old(framebuffer).pixel(px, py)
                },
        decreases rows - row,
    {
        let cols = maze[row].len();
        let mut col: usize = 0;
        while col < cols
            invariant
                row < rows,
                col <= cols,
                rows == m.len(),
                cols == m[row as int]@.len(),
                m == maze@,
                bs == block_size,
                blocks_fit(m, bs),
                framebuffer.wf(),
                framebuffer.same_frame(old(framebuffer)),
                framebuffer.pen() == if bs > 0 && exists|r: int, c: int|
                    #[trigger] has_cell(m, r, c) && cell(m, r, c) != ' ' && cell_before(
                        row as int,
                        col as int,
                        r,
                        c,
                    ) {
                    MAP_WALL_COLOR
                } else {
                    old(framebuffer).pen()
                },
                forall|px: int, py: int|
                    old(framebuffer).in_bounds(px, py) ==> #[trigger] framebuffer.pixel(px, py)
                        == if map_wall_at(m, bs, px, py) && cell_before(
                        row as int,
                        col as int,
                        py / bs,
                        px / bs,
                    ) {
                        MAP_WALL_COLOR
                    } else {
                        old(framebuffer).pixel(px, py)
                    },
            decreases cols - col,
        {
            proof {
                assert(has_cell(m, row as int, col as int));
                assert(col * bs <= (col + 1) * bs && row * bs <= (row + 1) * bs
                    && (col + 1) * bs == col * bs + bs && (row + 1) * bs == row * bs + bs)
                    by (nonlinear_arith)
                    requires
                        bs >= 0,
                        col >= 0,
                        row >= 0,
                ;
            }
            let ch = maze[row][col];
            let ghost before = *framebuffer;
            draw_cell(framebuffer, col * block_size, row * block_size, block_size, ch);
            proof {
                assert forall|px: int, py: int|
                    old(framebuffer).in_bounds(px, py) implies #[trigger] framebuffer.pixel(px, py)
                        == if map_wall_at(m, bs, px, py) && cell_before(
                        row as int,
                        col as int + 1,
                        py / bs,
                        px / bs,
                    ) {
                        MAP_WALL_COLOR
                    } else {
                        old(framebuffer).pixel(px, py)
                    } by {
                    assert(before.pixel(px, py) == if map_wall_at(m, bs, px, py) && cell_before(
                        row as int,
                        col as int,
                        py / bs,
                        px / bs,
                    ) {
                        MAP_WALL_COLOR
                    } else {
                        old(framebuffer).pixel(px, py)
                    });
                    if bs > 0 {
                        lemma_block_of(px, col as int, bs);
                        lemma_block_of(py, row as int, bs);
                    }
                }
                if bs > 0 && ch != ' ' {
                    assert(has_cell(m, row as int, col as int) && cell(m, row as int, col as int)
                        != ' ' && cell_before(row as int, col as int + 1, row as int, col as int));
                }
            }
            col = col + 1;
        }
        proof {
            assert forall|px: int, py: int|
                old(framebuffer).in_bounds(px, py) implies #[trigger] framebuffer.pixel(px, py)
                    == if map_wall_at(m, bs, px, py) && cell_before(
                    row as int + 1,
                    0,
                    py / bs,
                    px / bs,
                ) {
                    MAP_WALL_COLOR
                } else {
                    old(framebuffer).pixel(px, py)
                } by {}
        }
        row = row + 1;
    }
    proof {
        if bs > 0 && has_wall_cell(m) {
            let (r, c) = choose|r: int, c: int| #[trigger] has_cell(m, r, c) && cell(m, r, c) != ' ';
            assert(has_cell(m, r, c) && cell(m, r, c) != ' ' && cell_before(row as int, 0, r, c));
        }
    }
}

} // verus!

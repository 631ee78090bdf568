//! The grid engine: a resizable rectangular character buffer ("window"),
//! together with the shapes that can be rasterized onto it.
//!
//! The buffer is stored row-major: the cell at column `x`, row `y` lives at
//! index `y * width + x`.  Every operation keeps the invariant that the
//! buffer length equals `width * height`.

use vstd::prelude::*;

verus! {

/// A grid-relative position.  It may lie outside the current grid bounds;
/// drawing clips silently.
#[derive(Debug, Clone, Copy, PartialEq, Eq, Structural)]
pub struct Point {
    pub x: isize,
    pub y: isize,
}

impl Point {
    pub fn new(x: isize, y: isize) -> (p: Point)
        ensures
            p.x == x,
            p.y == y,
    {
        Point { x, y }
    }
}

/// A shape to rasterize.  `Circle(radius)` is a filled disk.
/// `Square(half_width, half_height)` is a filled axis-aligned rectangle
/// reaching `half_width` columns and `half_height` rows away from its
/// center: despite the name, the two half-extents may differ.
#[derive(Debug, Clone, Copy, PartialEq, Eq, Structural)]
pub enum Shape {
    Square(isize, isize),
    Circle(isize),
}

/// Whether rasterizing `shape` centered at `p` marks the cell `(cx, cy)`.
///
/// A disk of radius `r` marks the cells at Euclidean distance at most `r`
/// from the center; a rectangle marks the cells within both half-extents.
/// A negative radius or half-extent marks nothing.
pub open spec fn covered(shape: Shape, p: Point, cx: int, cy: int) -> bool {
    match shape {
        Shape::Circle(r) => r >= 0 && (cx - p.x) * (cx - p.x) + (cy - p.y) * (cy - p.y) <= r * r,
        Shape::Square(hw, hh) => hw >= 0 && hh >= 0 && p.x - hw <= cx <= p.x + hw && p.y - hh <= cy
            <= p.y + hh,
    }
}

/// The character at column `x`, row `y` of a row-major buffer `w` columns
/// wide.
pub open spec fn at(s: Seq<char>, w: int, x: int, y: int) -> char {
    s[y * w + x]
}

/// `cells` with every occurrence of `a` replaced by `b`.
pub open spec fn replaced(cells: Seq<char>, a: char, b: char) -> Seq<char> {
    Seq::new(cells.len(), |i: int| if cells[i] == a { b } else { cells[i] })
}

/// The rectangular character grid.
pub struct Window {
    pub width: isize,
    pub height: isize,
    pub pixels: Vec<char>,
}

impl Window {
    /// Well-formedness: positive dimensions, a buffer of exactly
    /// `width * height` cells, and a cell count small enough that every
    /// row-major index fits in `isize`.
    pub open spec fn wf(self) -> bool {
        &&& 0 < self.width
        &&& 0 < self.height
        &&& self.width * self.height <= isize::MAX
        &&& self.pixels@.len() == self.width * self.height
    }

    /// The character at column `x`, row `y`.
    pub open spec fn cell(self, x: int, y: int) -> char {
        at(self.pixels@, self.width as int, x, y)
    }

    /// A blank window: every cell holds a space.
    pub fn new(width: isize, height: isize) -> (w: Window)
        requires
            0 < width,
            0 < height,
            width * height <= isize::MAX,
        ensures
            w.wf(),
            w.width == width,
            w.height == height,
            forall|x: int, y: int| 0 <= x < width && 0 <= y < height ==> w.cell(x, y) == ' ',
    {
        proof {
            lemma_dims(width as int, height as int);
        }
        let pixels = filled(' ', (width * height) as usize);
        let w = Window { width, height, pixels };
        proof {
            lemma_all_cells(w, ' ');
        }
        w
    }

    /// Reinitializes to a blank grid of the given size, discarding all
    /// prior content.
    pub fn comm_new(&mut self, width: isize, height: isize)
        requires
            0 < width,
            0 < height,
            width * height <= isize::MAX,
        ensures
            final(self).wf(),
            final(self).width == width,
            final(self).height == height,
            forall|x: int, y: int|
                0 <= x < width && 0 <= y < height ==> final(self).cell(x, y) == ' ',
    {
        proof {
            lemma_dims(width as int, height as int);
        }
        self.width = width;
        self.height = height;
        self.pixels = filled(' ', (width * height) as usize);
        proof {
            lemma_all_cells(*self, ' ');
        }
    }

    /// Resizes the grid to `width` x `height`, keeping every cell that
    /// lies within both the old and the new bounds and filling every other
    /// new cell with a space.
    pub fn resize(&mut self, width: isize, height: isize)
        requires
            old(self).wf(),
            0 < width,
            0 < height,
            width * height <= isize::MAX,
        ensures
            final(self).wf(),
            final(self).width == width,
            final(self).height == height,
            forall|x: int, y: int|
                0 <= x < width && 0 <= y < height ==> final(self).cell(x, y) == if x < old(
                    self,
                ).width && y < old(self).height {
                    old(self).cell(x, y)
                } else {
                    ' '
                },
    {
        let ghost g0 = *self;
        proof {
            lemma_dims(width as int, height as int);
        }
        let mut new_pixels = filled(' ', (width * height) as usize);
        let copy_w: isize = if self.width < width {
            self.width
        } else {
            width
        };
        let copy_h: isize = if self.height < height {
            self.height
        } else {
            height
        };
        proof {
            assert forall|cx: int, cy: int|
                0 <= cx < width && 0 <= cy < height implies #[trigger] at(
                new_pixels@,
                width as int,
                cx,
                cy,
            ) == ' ' by {
                lemma_idx(width as int, height as int, cx, cy);
            }
        }
        let mut y: isize = 0;
        while y < copy_h
            invariant
                *self == g0,
                g0.wf(),
                0 < width,
                0 < height,
                width * height <= isize::MAX,
                copy_w <= width,
                copy_w <= g0.width,
                copy_h <= height,
                copy_h <= g0.height,
                0 < copy_w,
                0 < copy_h,
                0 <= y <= copy_h,
                new_pixels@.len() == width * height,
                forall|cx: int, cy: int|
                    0 <= cx < width && 0 <= cy < height ==> #[trigger] at(
                        new_pixels@,
                        width as int,
                        cx,
                        cy,
                    ) == (if cx < copy_w && cy < y {
                        g0.cell(cx, cy)
                    } else {
                        ' '
                    }),
            decreases copy_h - y,
        {
            let mut x: isize = 0;
            while x < copy_w
                invariant
                    *self == g0,
                    g0.wf(),
                    0 < width,
                    0 < height,
                    width * height <= isize::MAX,
                    copy_w <= width,
                    copy_w <= g0.width,
                    copy_h <= height,
                    copy_h <= g0.height,
                    0 < copy_w,
                    0 < copy_h,
                    0 <= y < copy_h,
                    0 <= x <= copy_w,
                    new_pixels@.len() == width * height,
                    forall|cx: int, cy: int|
                        0 <= cx < width && 0 <= cy < height ==> #[trigger] at(
                            new_pixels@,
                            width as int,
                            cx,
                            cy,
                        ) == (if cx < copy_w && (cy < y || (cy == y && cx < x)) {
                            g0.cell(cx, cy)
                        } else {
                            ' '
                        }),
                decreases copy_w - x,
            {
                proof {
                    lemma_idx(g0.width as int, g0.height as int, x as int, y as int);
                    lemma_idx(width as int, height as int, x as int, y as int);
                }
                let v = self.pixels[(y * self.width + x) as usize];
                proof {
                    assert(v == g0.cell(x as int, y as int));
                }
                let ghost np0 = new_pixels@;
                new_pixels[(y * width + x) as usize] = v;
                proof {
                    assert(new_pixels@ == np0.update(y * width + x, v));
                    assert forall|cx: int, cy: int|
                        0 <= cx < width && 0 <= cy < height implies #[trigger] at(
                        new_pixels@,
                        width as int,
                        cx,
                        cy,
                    ) == (if cx < copy_w && (cy < y || (cy == y && cx < x + 1)) {
                        g0.cell(cx, cy)
                    } else {
                        ' '
                    }) by {
                        lemma_idx(width as int, height as int, cx, cy);
                        lemma_index_unique(width as int, cx, cy, x as int, y as int);
                        assert(at(np0, width as int, cx, cy) == (if cx < copy_w && (cy < y || (cy
                            == y && cx < x)) {
                            g0.cell(cx, cy)
                        } else {
                            ' '
                        }));
                    }
                }
                x = x + 1;
            }
            y = y + 1;
        }
        self.width = width;
        self.height = height;
        self.pixels = new_pixels;
        proof {
            assert forall|x: int, y: int|
                0 <= x < width && 0 <= y < height implies final(self).cell(x, y) == (if x
                < g0.width && y < g0.height {
                g0.cell(x, y)
            } else {
                ' '
            }) by {
                assert(at(new_pixels@, width as int, x, y) == (if x < copy_w && y < copy_h {
                    g0.cell(x, y)
                } else {
                    ' '
                }));
            }
        }
    }

    /// Rasterizes `shape` centered at `point` onto the grid: every
    /// in-bounds cell that the shape covers is set to `chr`, and every
    /// other cell is untouched.  Geometry reaching outside the grid is
    /// clipped silently; a degenerate shape draws nothing.
    pub fn draw(&mut self, point: Point, shape: Shape, chr: char)
        requires
            old(self).wf(),
        ensures
            final(self).wf(),
            final(self).width == old(self).width,
            final(self).height == old(self).height,
            forall|cx: int, cy: int|
                0 <= cx < old(self).width && 0 <= cy < old(self).height ==> final(self).cell(
                    cx,
                    cy,
                ) == (if covered(shape, point, cx, cy) {
                    chr
                } else {
                    old(self).cell(cx, cy)
                }),
    {
        let ghost g0 = *self;
        match shape {
            Shape::Circle(radius) => {
                if radius < 0 {
                    return ;
                }
                let x = point.x;
                let y = point.y;
                let x1: isize = if x < radius {
                    0
                } else {
                    x - radius
                };
                let x2: isize = if x > self.width - 1 - radius {
                    self.width - 1
                } else {
                    x + radius
                };
                let y1: isize = if y < radius {
                    0
                } else {
                    y - radius
                };
                let y2: isize = if y > self.height - 1 - radius {
                    self.height - 1
                } else {
                    y + radius
                };
                proof {
                    assert forall|cx: int, cy: int|
                        0 <= cx < g0.width && 0 <= cy < g0.height && covered(
                            shape,
                            point,
                            cx,
                            cy,
                        ) implies y1 <= cy <= y2 && x1 <= cx <= x2 by {
                        lemma_disk_in_box(cx - x, cy - y, radius as int);
                    }
                }
                if x1 > x2 || y1 > y2 {
                    return ;
                }
                let mut cur_y: isize = y1;
                while cur_y <= y2
                    invariant
                        self.width == g0.width,
                        self.height == g0.height,
                        self.pixels@.len() == g0.pixels@.len(),
                        g0.wf(),
                        shape == Shape::Circle(radius),
                        0 <= radius,
                        x == point.x,
                        y == point.y,
                        0 <= x1 <= x2 <= g0.width - 1,
                        0 <= y1 <= cur_y <= y2 + 1,
                        y2 <= g0.height - 1,
                        x - radius <= x1,
                        x2 <= x + radius,
                        y - radius <= y1,
                        y2 <= y + radius,
                        forall|cx: int, cy: int|
                            0 <= cx < g0.width && 0 <= cy < g0.height && covered(
                                shape,
                                point,
                                cx,
                                cy,
                            ) ==> y1 <= cy <= y2 && x1 <= cx <= x2,
                        forall|cx: int, cy: int|
                            0 <= cx < g0.width && 0 <= cy < g0.height ==> #[trigger] at(
                                self.pixels@,
                                g0.width as int,
                                cx,
                                cy,
                            ) == (if covered(shape, point, cx, cy) && cy < cur_y {
                                chr
                            } else {
                                g0.cell(cx, cy)
                            }),
                    decreases y2 + 1 - cur_y,
                {
                    let mut cur_x: isize = x1;
                    while cur_x <= x2
                        invariant
                            self.width == g0.width,
                            self.height == g0.height,
                            self.pixels@.len() == g0.pixels@.len(),
                            g0.wf(),
                            shape == Shape::Circle(radius),
                            0 <= radius,
                            x == point.x,
                            y == point.y,
                            0 <= x1 <= cur_x <= x2 + 1,
                            x2 <= g0.width - 1,
                            0 <= y1 <= cur_y <= y2,
                            y2 <= g0.height - 1,
                            x - radius <= x1,
                            x2 <= x + radius,
                            y - radius <= y1,
                            y2 <= y + radius,
                            forall|cx: int, cy: int|
                                0 <= cx < g0.width && 0 <= cy < g0.height && covered(
                                    shape,
                                    point,
                                    cx,
                                    cy,
                                ) ==> y1 <= cy <= y2 && x1 <= cx <= x2,
                            forall|cx: int, cy: int|
                                0 <= cx < g0.width && 0 <= cy < g0.height ==> #[trigger] at(
                                    self.pixels@,
                                    g0.width as int,
                                    cx,
                                    cy,
                                ) == (if covered(shape, point, cx, cy) && (cy < cur_y || (cy
                                    == cur_y && cx < cur_x)) {
                                    chr
                                } else {
                                    g0.cell(cx, cy)
                                }),
                        decreases x2 + 1 - cur_x,
                    {
                        let dx: i128 = cur_x as i128 - x as i128;
                        let dy: i128 = cur_y as i128 - y as i128;
                        proof {
                            lemma_sq_bound(dx as int, isize::MAX as int);
                            lemma_sq_bound(dy as int, isize::MAX as int);
                            lemma_sq_bound(radius as int, isize::MAX as int);
                            lemma_sq_bound(isize::MAX as int, 0x7fff_ffff_ffff_ffff);
                        }
                        let dist2: i128 = dx * dx + dy * dy;
                        let rr: i128 = radius as i128 * radius as i128;
                        if dist2 <= rr {
                            proof {
                                lemma_idx(
                                    g0.width as int,
                                    g0.height as int,
                                    cur_x as int,
                                    cur_y as int,
                                );
                            }
                            let ghost p0 = self.pixels@;
                            let idx = (cur_y * self.width + cur_x) as usize;
                            self.pixels[idx] = chr;
                            proof {
                                assert(covered(shape, point, cur_x as int, cur_y as int));
                                assert(self.pixels@ == p0.update(cur_y * g0.width + cur_x, chr));
                                assert forall|cx: int, cy: int|
                                    0 <= cx < g0.width && 0 <= cy < g0.height implies #[trigger] at(
                                    self.pixels@,
                                    g0.width as int,
                                    cx,
                                    cy,
                                ) == (if covered(shape, point, cx, cy) && (cy < cur_y || (cy
                                    == cur_y && cx < cur_x + 1)) {
                                    chr
                                } else {
                                    g0.cell(cx, cy)
                                }) by {
                                    lemma_idx(g0.width as int, g0.height as int, cx, cy);
                                    lemma_index_unique(
                                        g0.width as int,
                                        cx,
                                        cy,
                                        cur_x as int,
                                        cur_y as int,
                                    );
                                    assert(at(p0, g0.width as int, cx, cy) == (if covered(
                                        shape,
                                        point,
                                        cx,
                                        cy,
                                    ) && (cy < cur_y || (cy == cur_y && cx < cur_x)) {
                                        chr
                                    } else {
                                        g0.cell(cx, cy)
                                    }));
                                }
                            }
                        } else {
                            proof {
                                assert(!covered(shape, point, cur_x as int, cur_y as int));
                            }
                        }
                        cur_x = cur_x + 1;
                    }
                    cur_y = cur_y + 1;
                }
                proof {
                    lemma_final_cells(*self, g0, shape, point, chr);
                }
            },
            Shape::Square(half_w, half_h) => {
                if half_w < 0 || half_h < 0 {
                    return ;
                }
                let x = point.x;
                let y = point.y;
                let x1: isize = if x < half_w {
                    0
                } else {
                    x - half_w
                };
                let x2: isize = if x > self.width - 1 - half_w {
                    self.width - 1
                } else {
                    x + half_w
                };
                let y1: isize = if y < half_h {
                    0
                } else {
                    y - half_h
                };
                let y2: isize = if y > self.height - 1 - half_h {
                    self.height - 1
                } else {
                    y + half_h
                };
                if x1 > x2 || y1 > y2 {
                    return ;
                }
                let mut cur_y: isize = y1;
                while cur_y <= y2
                    invariant
                        self.width == g0.width,
                        self.height == g0.height,
                        self.pixels@.len() == g0.pixels@.len(),
                        g0.wf(),
                        shape == Shape::Square(half_w, half_h),
                        0 <= half_w,
                        0 <= half_h,
                        x == point.x,
                        y == point.y,
                        0 <= x1 <= x2 <= g0.width - 1,
                        0 <= y1 <= cur_y <= y2 + 1,
                        y2 <= g0.height - 1,
                        x - half_w <= x1,
                        x2 <= x + half_w,
                        y - half_h <= y1,
                        y2 <= y + half_h,
                        forall|cx: int, cy: int|
                            0 <= cx < g0.width && 0 <= cy < g0.height && covered(
                                shape,
                                point,
                                cx,
                                cy,
                            ) ==> y1 <= cy <= y2 && x1 <= cx <= x2,
                        forall|cx: int, cy: int|
                            0 <= cx < g0.width && 0 <= cy < g0.height ==> #[trigger] at(
                                self.pixels@,
                                g0.width as int,
                                cx,
                                cy,
                            ) == (if covered(shape, point, cx, cy) && cy < cur_y {
                                chr
                            } else {
                                g0.cell(cx, cy)
                            }),
                    decreases y2 + 1 - cur_y,
                {
                    let mut cur_x: isize = x1;
                    while cur_x <= x2
                        invariant
                            self.width == g0.width,
                            self.height == g0.height,
                            self.pixels@.len() == g0.pixels@.len(),
                            g0.wf(),
                            shape == Shape::Square(half_w, half_h),
                            0 <= half_w,
                            0 <= half_h,
                            x == point.x,
                            y == point.y,
                            0 <= x1 <= cur_x <= x2 + 1,
                            x2 <= g0.width - 1,
                            0 <= y1 <= cur_y <= y2,
                            y2 <= g0.height - 1,
                            x - half_w <= x1,
                            x2 <= x + half_w,
                            y - half_h <= y1,
                            y2 <= y + half_h,
                            forall|cx: int, cy: int|
                                0 <= cx < g0.width && 0 <= cy < g0.height && covered(
                                    shape,
                                    point,
                                    cx,
                                    cy,
                                ) ==> y1 <= cy <= y2 && x1 <= cx <= x2,
                            forall|cx: int, cy: int|
                                0 <= cx < g0.width && 0 <= cy < g0.height ==> #[trigger] at(
                                    self.pixels@,
                                    g0.width as int,
                                    cx,
                                    cy,
                                ) == (if covered(shape, point, cx, cy) && (cy < cur_y || (cy
                                    == cur_y && cx < cur_x)) {
                                    chr
                                } else {
                                    g0.cell(cx, cy)
                                }),
                        decreases x2 + 1 - cur_x,
                    {
                        proof {
                            lemma_idx(g0.width as int, g0.height as int, cur_x as int, cur_y as int);
                        }
                        let ghost p0 = self.pixels@;
                        let idx = (cur_y * self.width + cur_x) as usize;
                        self.pixels[idx] = chr;
                        proof {
                            assert(covered(shape, point, cur_x as int, cur_y as int));
                            assert(self.pixels@ == p0.update(cur_y * g0.width + cur_x, chr));
                            assert forall|cx: int, cy: int|
                                0 <= cx < g0.width && 0 <= cy < g0.height implies #[trigger] at(
                                self.pixels@,
                                g0.width as int,
                                cx,
                                cy,
                            ) == (if covered(shape, point, cx, cy) && (cy < cur_y || (cy == cur_y
                                && cx < cur_x + 1)) {
                                chr
                            } else {
                                g0.cell(cx, cy)
                            }) by {
                                lemma_idx(g0.width as int, g0.height as int, cx, cy);
                                lemma_index_unique(
                                    g0.width as int,
                                    cx,
                                    cy,
                                    cur_x as int,
                                    cur_y as int,
                                );
                                assert(at(p0, g0.width as int, cx, cy) == (if covered(
                                    shape,
                                    point,
                                    cx,
                                    cy,
                                ) && (cy < cur_y || (cy == cur_y && cx < cur_x)) {
                                    chr
                                } else {
                                    g0.cell(cx, cy)
                                }));
                            }
                        }
                        cur_x = cur_x + 1;
                    }
                    cur_y = cur_y + 1;
                }
                proof {
                    lemma_final_cells(*self, g0, shape, point, chr);
                }
            },
        }
    }

    /// Sets every cell to `chr`.
    pub fn fill(&mut self, chr: char)
        requires
            old(self).wf(),
        ensures
            final(self).wf(),
            final(self).width == old(self).width,
            final(self).height == old(self).height,
            forall|x: int, y: int|
                0 <= x < old(self).width && 0 <= y < old(self).height ==> final(self).cell(x, y)
                    == chr,
    {
        let n = self.pixels.len();
        self.pixels = filled(chr, n);
        proof {
            lemma_all_cells(*self, chr);
        }
    }

    /// Sets every cell currently equal to `old_chr` to `new_char`; all
    /// other cells are untouched.
    pub fn replace(&mut self, old_chr: char, new_char: char)
        requires
            old(self).wf(),
        ensures
            final(self).wf(),
            final(self).width == old(self).width,
            final(self).height == old(self).height,
            final(self).pixels@ == replaced(old(self).pixels@, old_chr, new_char),
    {
        let ghost g0 = *self;
        let n = self.pixels.len();
        let mut i: usize = 0;
        while i < n
            invariant
                n == self.pixels@.len(),
                n == g0.pixels@.len(),
                i <= n,
                self.width == g0.width,
                self.height == g0.height,
                g0.wf(),
                forall|j: int|
                    0 <= j < i ==> self.pixels@[j] == replaced(g0.pixels@, old_chr, new_char)[j],
                forall|j: int| i <= j < n ==> self.pixels@[j] == g0.pixels@[j],
            decreases n - i,
        {
            if self.pixels[i] == old_chr {
                self.pixels[i] = new_char;
            }
            i = i + 1;
        }
        proof {
            assert(self.pixels@ =~= replaced(g0.pixels@, old_chr, new_char));
        }
    }

    /// One row of the grid followed by a line break.
    pub open spec fn spec_row(self, y: int) -> Seq<char> {
        self.pixels@.subrange(y * self.width, y * self.width + self.width) + seq!['\n']
    }

    /// The first `y` rows of the rendered text.
    pub open spec fn render_upto(self, y: int) -> Seq<char>
        decreases y,
    {
        if y <= 0 {
            Seq::empty()
        } else {
            self.render_upto(y - 1) + self.spec_row(y - 1)
        }
    }

    /// The rendered text: `height` lines of `width` characters, row-major
    /// top to bottom, each line ended by a line break.
    pub open spec fn spec_render(self) -> Seq<char> {
        self.render_upto(self.height as int)
    }

    /// Renders the grid as text, one line per row.
    pub fn render(&self) -> (s: String)
        requires
            self.wf(),
        ensures
            s@ == self.spec_render(),
    {
        let mut out: Vec<char> = Vec::new();
        let mut y: isize = 0;
        while y < self.height
            invariant
                self.wf(),
                0 <= y <= self.height,
                out@ == self.render_upto(y as int),
            decreases self.height - y,
        {
            proof {
                lemma_idx(self.width as int, self.height as int, 0, y as int);
                assert(out@ =~= self.render_upto(y as int) + self.pixels@.subrange(
                    y * self.width,
                    y * self.width,
                ));
            }
            let mut x: isize = 0;
            while x < self.width
                invariant
                    self.wf(),
                    0 <= y < self.height,
                    0 <= x <= self.width,
                    out@ == self.render_upto(y as int) + self.pixels@.subrange(
                        y * self.width,
                        y * self.width + x,
                    ),
                decreases self.width - x,
            {
                proof {
                    lemma_idx(self.width as int, self.height as int, x as int, y as int);
                }
                let c = self.pixels[(y * self.width + x) as usize];
                out.push(c);
                proof {
                    assert(out@ =~= self.render_upto(y as int) + self.pixels@.subrange(
                        y * self.width,
                        y * self.width + x + 1,
                    ));
                }
                x = x + 1;
            }
            out.push('\n');
            proof {
                assert(out@ =~= self.render_upto(y as int + 1));
            }
            y = y + 1;
        }
        crate::text::chars_to_string(&out)
    }
}

/// `h` lines, each `w` copies of `c` followed by a line break.
pub open spec fn uniform_text(c: char, w: int, h: int) -> Seq<char>
    decreases h,
{
    if h <= 0 {
        Seq::empty()
    } else {
        uniform_text(c, w, h - 1) + Seq::new(w as nat, |i: int| c) + seq!['\n']
    }
}

/// A grid whose cells all hold `c` renders as `height` lines of `width`
/// copies of `c`.  With `c` a space this is the text of a freshly created
/// window; after `fill(c)` it is the text of the filled window.
pub proof fn lemma_render_uniform(g: Window, c: char)
    requires
        g.wf(),
        forall|x: int, y: int| 0 <= x < g.width && 0 <= y < g.height ==> g.cell(x, y) == c,
    ensures
        g.spec_render() == uniform_text(c, g.width as int, g.height as int),
{
    lemma_render_upto_uniform(g, c, g.height as int);
}

/// Induction step for `lemma_render_uniform`, row by row.
proof fn lemma_render_upto_uniform(g: Window, c: char, y: int)
    requires
        g.wf(),
        forall|x: int, yy: int| 0 <= x < g.width && 0 <= yy < g.height ==> g.cell(x, yy) == c,
        0 <= y <= g.height,
    ensures
        g.render_upto(y) == uniform_text(c, g.width as int, y),
    decreases y,
{
    if y > 0 {
        lemma_render_upto_uniform(g, c, y - 1);
        lemma_idx(g.width as int, g.height as int, 0, y - 1);
        lemma_idx(g.width as int, g.height as int, g.width - 1, y - 1);
        let row = g.pixels@.subrange((y - 1) * g.width, (y - 1) * g.width + g.width);
        assert forall|i: int| 0 <= i < g.width implies #[trigger] row[i] == c by {
            lemma_idx(g.width as int, g.height as int, i, y - 1);
            assert(g.cell(i, y - 1) == c);
        }
        assert(g.spec_row(y - 1) =~= Seq::new(g.width as nat, |i: int| c) + seq!['\n']);
        assert(g.render_upto(y) =~= uniform_text(c, g.width as int, y));
    }
}

/// Replacing a character that occurs nowhere leaves the cells unchanged.
pub proof fn lemma_replace_absent(cells: Seq<char>, a: char, b: char)
    requires
        forall|i: int| 0 <= i < cells.len() ==> cells[i] != a,
    ensures
        replaced(cells, a, b) == cells,
{
    assert(replaced(cells, a, b) =~= cells);
}

/// Replacing twice is the same as replacing once.
pub proof fn lemma_replace_idempotent(cells: Seq<char>, a: char, b: char)
    ensures
        replaced(replaced(cells, a, b), a, b) == replaced(cells, a, b),
{
    assert(replaced(replaced(cells, a, b), a, b) =~= replaced(cells, a, b));
}

/// A circle of radius zero covers exactly its center cell.
pub proof fn lemma_circle_radius_zero(p: Point, cx: int, cy: int)
    ensures
        covered(Shape::Circle(0), p, cx, cy) <==> (cx == p.x && cy == p.y),
{
    let dx = cx - p.x;
    let dy = cy - p.y;
    assert((dx * dx + dy * dy <= 0) <==> (dx == 0 && dy == 0)) by (nonlinear_arith);
}

/// A rectangle with unit half-extents covers exactly the three-by-three
/// block around its center.
pub proof fn lemma_square_unit(p: Point, cx: int, cy: int)
    ensures
        covered(Shape::Square(1, 1), p, cx, cy) <==> (p.x - 1 <= cx <= p.x + 1 && p.y - 1 <= cy
            <= p.y + 1),
{
}

/// In a positive grid, an in-bounds cell has an in-range row-major index.
proof fn lemma_idx(w: int, h: int, x: int, y: int)
    by (nonlinear_arith)
    requires
        0 < w,
        0 < h,
        0 <= x < w,
        0 <= y < h,
    ensures
        0 <= y * w + x < w * h,
{
}

/// A positive grid holds at least one full row and one full column.
proof fn lemma_dims(w: int, h: int)
    by (nonlinear_arith)
    requires
        0 < w,
        0 < h,
    ensures
        w <= w * h,
        h <= w * h,
{
}

/// Two in-bounds columns give the same row-major index only at the same
/// cell.
proof fn lemma_index_unique(w: int, x1: int, y1: int, x2: int, y2: int)
    by (nonlinear_arith)
    requires
        0 < w,
        0 <= x1 < w,
        0 <= x2 < w,
    ensures
        (y1 * w + x1 == y2 * w + x2) <==> (x1 == x2 && y1 == y2),
{
}

/// A cell of the disk of radius `r` lies within `r` of the center in each
/// coordinate.
proof fn lemma_disk_in_box(dx: int, dy: int, r: int)
    by (nonlinear_arith)
    requires
        r >= 0,
        dx * dx + dy * dy <= r * r,
    ensures
        -r <= dx <= r,
        -r <= dy <= r,
{
}

/// Squaring is monotone in the absolute value.
proof fn lemma_sq_bound(a: int, m: int)
    by (nonlinear_arith)
    requires
        -m <= a <= m,
        0 <= m,
    ensures
        0 <= a * a <= m * m,
{
}

/// Carries a completed rasterization loop's row-by-row account over to the
/// `draw` postcondition shape.
proof fn lemma_final_cells(w: Window, g0: Window, shape: Shape, point: Point, chr: char)
    requires
        g0.wf(),
        w.width == g0.width,
        w.height == g0.height,
        w.pixels@.len() == g0.pixels@.len(),
        forall|cx: int, cy: int|
            0 <= cx < g0.width && 0 <= cy < g0.height ==> #[trigger] at(
                w.pixels@,
                g0.width as int,
                cx,
                cy,
            ) == (if covered(shape, point, cx, cy) {
                chr
            } else {
                g0.cell(cx, cy)
            }),
    ensures
        forall|cx: int, cy: int|
            0 <= cx < g0.width && 0 <= cy < g0.height ==> w.cell(cx, cy) == (if covered(
                shape,
                point,
                cx,
                cy,
            ) {
                chr
            } else {
                g0.cell(cx, cy)
            }),
{
    assert forall|cx: int, cy: int|
        0 <= cx < g0.width && 0 <= cy < g0.height implies w.cell(cx, cy) == (if covered(
        shape,
        point,
        cx,
        cy,
    ) {
        chr
    } else {
        g0.cell(cx, cy)
    }) by {
        assert(at(w.pixels@, g0.width as int, cx, cy) == (if covered(shape, point, cx, cy) {
            chr
        } else {
            g0.cell(cx, cy)
        }));
    }
}

/// From "every buffer index holds `c`" to "every cell holds `c`".
proof fn lemma_all_cells(w: Window, c: char)
    requires
        0 < w.width,
        0 < w.height,
        w.pixels@.len() == w.width * w.height,
        forall|i: int| 0 <= i < w.pixels@.len() ==> w.pixels@[i] == c,
    ensures
        forall|x: int, y: int| 0 <= x < w.width && 0 <= y < w.height ==> w.cell(x, y) == c,
{
    assert forall|x: int, y: int|
        0 <= x < w.width && 0 <= y < w.height implies w.cell(x, y) == c by {
        lemma_idx(w.width as int, w.height as int, x, y);
    }
}

/// A vector of `n` copies of `c`.
fn filled(c: char, n: usize) -> (v: Vec<char>)
    ensures
        v@.len() == n,
        forall|i: int| 0 <= i < n ==> v@[i] == c,
{
    let mut v: Vec<char> = Vec::new();
    let mut i: usize = 0;
    while i < n
        invariant
            i <= n,
            v@.len() == i,
            forall|j: int| 0 <= j < i ==> v@[j] == c,
        decreases n - i,
    {
        v.push(c);
        i = i + 1;
    }
    v
}

} // verus!

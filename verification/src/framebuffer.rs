use vstd::prelude::*;
use crate::color::{blend_hex, Color};

verus! {

/// Row-major cell index of the pixel `(x, y)` on a plane `w` cells wide.
pub open spec fn pix_idx(w: int, x: int, y: int) -> int {
    y * w + x
}

/// The transition one depth-tested write makes on a single cell.
///
/// A cell holds a packed color and a depth key; the write carries a color and
/// a depth key. The write claims the cell exactly when its depth is strictly
/// nearer (smaller) than the stored one; otherwise the cell is untouched.
pub open spec fn depth_cell_step(cell: (u32, u32), write: (u32, u32)) -> (u32, u32) {
    if write.1 < cell.1 {
        write
    } else {
        cell
    }
}

/// Owns the per-pixel color cells and the parallel depth cells of one frame,
/// plus the current draw color that the point primitives consume.
///
/// Depth is a plain `u32` key ordered so that smaller means nearer;
/// `u32::MAX` stands for "farther than any surface" and is what `clear`
/// resets every depth cell to. Cells are stored row-major with the origin at
/// the top left.
pub struct Framebuffer {
    pub width: usize,
    pub height: usize,
    pub buffer: Vec<u32>,
    pub zbuffer: Vec<u32>,
    pub current_color: u32,
}

impl Framebuffer {
    /// Both storage planes cover exactly `width * height` cells.
    pub open spec fn wf(&self) -> bool {
        &&& self.buffer@.len() == self.width * self.height
        &&& self.zbuffer@.len() == self.width * self.height
    }

    /// The draw color that `point` and `point_no_depth` write.
    pub open spec fn draw_color(&self) -> u32 {
        self.current_color
    }

    pub open spec fn spec_in_bounds(&self, x: int, y: int) -> bool {
        0 <= x < self.width && 0 <= y < self.height
    }

    /// Row-major cell index of the pixel `(x, y)`.
    pub open spec fn spec_idx(&self, x: int, y: int) -> int {
        pix_idx(self.width as int, x, y)
    }

    pub fn new(width: usize, height: usize) -> (fb: Framebuffer)
        requires
            width * height <= usize::MAX,
        ensures
            fb.wf(),
            fb.width == width,
            fb.height == height,
            fb.draw_color() == 0,
            forall|i: int| 0 <= i < fb.buffer@.len() ==> fb.buffer@[i] == 0u32,
            forall|i: int| 0 <= i < fb.zbuffer@.len() ==> fb.zbuffer@[i] == u32::MAX,
    {
        let n = width * height;
        let mut buffer: Vec<u32> = Vec::new();
        let mut zbuffer: Vec<u32> = Vec::new();
        let mut i: usize = 0;
        while i < n
            invariant
                i <= n,
                buffer@.len() == i,
                zbuffer@.len() == i,
                forall|j: int| 0 <= j < i ==> buffer@[j] == 0u32,
                forall|j: int| 0 <= j < i ==> zbuffer@[j] == u32::MAX,
            decreases n - i,
        {
            buffer.push(0);
            zbuffer.push(u32::MAX);
            i = i + 1;
        }
        Framebuffer { width, height, buffer, zbuffer, current_color: 0 }
    }

    /// Resets every color cell to `color` and every depth cell to the
    /// farthest key, so that the next depth-tested write at any pixel
    /// succeeds.
    pub fn clear(&mut self, color: u32)
        requires
            old(self).wf(),
        ensures
            final(self).wf(),
            final(self).width == old(self).width,
            final(self).height == old(self).height,
            final(self).draw_color() == old(self).draw_color(),
            final(self).buffer@.len() == old(self).buffer@.len(),
            final(self).zbuffer@.len() == old(self).zbuffer@.len(),
            forall|i: int| 0 <= i < final(self).buffer@.len() ==> final(self).buffer@[i] == color,
            forall|i: int| 0 <= i < final(self).zbuffer@.len() ==> final(self).zbuffer@[i] == u32::MAX,
    {
        let n = self.buffer.len();
        let mut i: usize = 0;
        while i < n
            invariant
                i <= n,
                self.wf(),
                self.width == old(self).width,
                self.height == old(self).height,
                self.draw_color() == old(self).draw_color(),
                self.buffer@.len() == n,
                self.zbuffer@.len() == n,
                forall|j: int| 0 <= j < i ==> self.buffer@[j] == color,
                forall|j: int| 0 <= j < i ==> self.zbuffer@[j] == u32::MAX,
            decreases n - i,
        {
            self.buffer.set(i, color);
            self.zbuffer.set(i, u32::MAX);
            i = i + 1;
        }
    }

    /// Sets the shared draw color consumed by the two point primitives.
    pub fn set_current_color(&mut self, color: u32)
        ensures
            final(self).wf() == old(self).wf(),
            final(self).width == old(self).width,
            final(self).height == old(self).height,
            final(self).buffer@ == old(self).buffer@,
            final(self).zbuffer@ == old(self).zbuffer@,
            final(self).draw_color() == color,
    {
        self.current_color = color;
    }

    /// Depth-tested pixel write: out-of-bounds coordinates are silently
    /// ignored, and an in-bounds write claims the cell exactly when its depth
    /// key is strictly nearer than the stored one. This is the sole occlusion
    /// gate for triangle-pipeline output; depth cells never move away.
    pub fn point(&mut self, x: i32, y: i32, depth: u32)
        requires
            old(self).wf(),
        ensures
            final(self).wf(),
            final(self).width == old(self).width,
            final(self).height == old(self).height,
            final(self).draw_color() == old(self).draw_color(),
            old(self).spec_in_bounds(x as int, y as int) ==> {
                let i = old(self).spec_idx(x as int, y as int);
                let cell = depth_cell_step(
                    (old(self).buffer@[i], old(self).zbuffer@[i]),
                    (old(self).draw_color(), depth),
                );
                final(self).buffer@ == old(self).buffer@.update(i, cell.0)
                    && final(self).zbuffer@ == old(self).zbuffer@.update(i, cell.1)
            },
            !old(self).spec_in_bounds(x as int, y as int) ==> final(self).buffer@ == old(self).buffer@
                && final(self).zbuffer@ == old(self).zbuffer@,
            forall|i: int|
                0 <= i < final(self).zbuffer@.len() ==> final(self).zbuffer@[i] <= old(self).zbuffer@[i],
    {
        if x < 0 || y < 0 || x as usize >= self.width || y as usize >= self.height {
            return;
        }
        proof {
            lemma_idx_in_range(x as int, y as int, self.width as int, self.height as int);
            assert(self.zbuffer.len() == self.zbuffer@.len());
        }
        let idx = y as usize * self.width + x as usize;
        if depth < self.zbuffer[idx] {
            self.zbuffer.set(idx, depth);
            self.buffer.set(idx, self.current_color);
        } else {
            proof {
                assert(self.buffer@ =~= old(self).buffer@.update(
                    old(self).spec_idx(x as int, y as int),
                    old(self).buffer@[old(self).spec_idx(x as int, y as int)],
                ));
                assert(self.zbuffer@ =~= old(self).zbuffer@.update(
                    old(self).spec_idx(x as int, y as int),
                    old(self).zbuffer@[old(self).spec_idx(x as int, y as int)],
                ));
            }
        }
    }

    /// Unconditional pixel write used for overlay drawing that must ignore
    /// depth; only out-of-range coordinates are skipped. Depth cells are
    /// never touched.
    pub fn point_no_depth(&mut self, x: i32, y: i32)
        requires
            old(self).wf(),
        ensures
            final(self).wf(),
            final(self).width == old(self).width,
            final(self).height == old(self).height,
            final(self).draw_color() == old(self).draw_color(),
            final(self).zbuffer@ == old(self).zbuffer@,
            old(self).spec_in_bounds(x as int, y as int) ==> final(self).buffer@ == old(
                self,
            ).buffer@.update(old(self).spec_idx(x as int, y as int), old(self).draw_color()),
            !old(self).spec_in_bounds(x as int, y as int) ==> final(self).buffer@ == old(self).buffer@,
    {
        if x < 0 || y < 0 || x as usize >= self.width || y as usize >= self.height {
            return;
        }
        proof {
            lemma_idx_in_range(x as int, y as int, self.width as int, self.height as int);
            assert(self.zbuffer.len() == self.zbuffer@.len());
        }
        let idx = y as usize * self.width + x as usize;
        self.buffer.set(idx, self.current_color);
    }

    /// Read-only query of the stored depth key at an in-bounds pixel; the
    /// first half of the render loop's two-phase depth check.
    pub fn peek_depth(&self, x: usize, y: usize) -> (d: u32)
        requires
            self.wf(),
            x < self.width,
            y < self.height,
        ensures
            d == self.zbuffer@[self.spec_idx(x as int, y as int)],
    {
        proof {
            lemma_idx_in_range(x as int, y as int, self.width as int, self.height as int);
            assert(self.zbuffer.len() == self.zbuffer@.len());
        }
        self.zbuffer[y * self.width + x]
    }

    /// The second half of the two-phase depth check: sets the draw color and
    /// issues the depth-tested write, which re-validates depth on its own.
    pub fn commit(&mut self, x: i32, y: i32, depth: u32, color: u32)
        requires
            old(self).wf(),
        ensures
            final(self).wf(),
            final(self).width == old(self).width,
            final(self).height == old(self).height,
            final(self).draw_color() == color,
            old(self).spec_in_bounds(x as int, y as int) ==> {
                let i = old(self).spec_idx(x as int, y as int);
                let cell = depth_cell_step(
                    (old(self).buffer@[i], old(self).zbuffer@[i]),
                    (color, depth),
                );
                final(self).buffer@ == old(self).buffer@.update(i, cell.0)
                    && final(self).zbuffer@ == old(self).zbuffer@.update(i, cell.1)
            },
            !old(self).spec_in_bounds(x as int, y as int) ==> final(self).buffer@ == old(self).buffer@
                && final(self).zbuffer@ == old(self).zbuffer@,
    {
        self.set_current_color(color);
        self.point(x, y, depth);
    }

    /// Integer Bresenham line from `(x0, y0)` to `(x1, y1)`: exactly the
    /// pixels of [`bres_path`] are stamped with the current draw color
    /// through the depth-ignoring point primitive, both endpoints included,
    /// and every other cell - in particular everything outside the
    /// endpoints' bounding rectangle - is untouched, as is the whole depth
    /// plane. The coordinate bound keeps the error accumulator inside `i32`.
    pub fn draw_line(&mut self, x0: i32, y0: i32, x1: i32, y1: i32)
        requires
            old(self).wf(),
            -16000 <= x0 <= 16000,
            -16000 <= y0 <= 16000,
            -16000 <= x1 <= 16000,
            -16000 <= y1 <= 16000,
        ensures
            final(self).wf(),
            final(self).width == old(self).width,
            final(self).height == old(self).height,
            final(self).draw_color() == old(self).draw_color(),
            final(self).zbuffer@ == old(self).zbuffer@,
            final(self).buffer@.len() == old(self).buffer@.len(),
            forall|xx: int, yy: int|
                old(self).spec_in_bounds(xx, yy) ==> final(self).buffer@[#[trigger] pix_idx(
                    old(self).width as int,
                    xx,
                    yy,
                )] == (if bres_path(x0 as int, y0 as int, x1 as int, y1 as int).contains(
                    (xx, yy),
                ) {
                    old(self).draw_color()
                } else {
                    old(self).buffer@[pix_idx(old(self).width as int, xx, yy)]
                }),
            bres_path(x0 as int, y0 as int, x1 as int, y1 as int).contains((x0 as int, y0 as int)),
            bres_path(x0 as int, y0 as int, x1 as int, y1 as int).contains((x1 as int, y1 as int)),
            old(self).spec_in_bounds(x0 as int, y0 as int) ==> final(self).buffer@[old(
                self,
            ).spec_idx(x0 as int, y0 as int)] == old(self).draw_color(),
            old(self).spec_in_bounds(x1 as int, y1 as int) ==> final(self).buffer@[old(
                self,
            ).spec_idx(x1 as int, y1 as int)] == old(self).draw_color(),
            forall|xx: int, yy: int|
                old(self).spec_in_bounds(xx, yy) && !(in_span(x0 as int, x1 as int, xx) && in_span(
                    y0 as int,
                    y1 as int,
                    yy,
                )) ==> final(self).buffer@[#[trigger] pix_idx(old(self).width as int, xx, yy)]
                    == old(self).buffer@[pix_idx(old(self).width as int, xx, yy)],
    {
        let mut cx: i32 = x0;
        let mut cy: i32 = y0;
        let dx: i32 = if x1 >= x0 { x1 - x0 } else { x0 - x1 };
        let sx: i32 = if x0 < x1 { 1 } else { -1 };
        let dy: i32 = if y1 >= y0 { -(y1 - y0) } else { -(y0 - y1) };
        let sy: i32 = if y0 < y1 { 1 } else { -1 };
        let mut err: i32 = dx + dy;
        let ghost path = bres_path(x0 as int, y0 as int, x1 as int, y1 as int);
        let ghost mut done: Seq<(int, int)> = Seq::empty();
        proof {
            assert(rem_toward(cx as int, x1 as int, sx as int) == dx as int);
            assert(rem_toward(cy as int, y1 as int, sy as int) == -(dy as int));
            assert((-(dy as int)) * (dx as int) + (dx as int) * (dy as int) == 0)
                by (nonlinear_arith);
            assert(path =~= done + bres_path_from(
                cx as int,
                cy as int,
                err as int,
                x1 as int,
                y1 as int,
                dx as int,
                dy as int,
                sx as int,
                sy as int,
            ));
        }
        loop
            invariant_except_break
                path == done + bres_path_from(
                    cx as int,
                    cy as int,
                    err as int,
                    x1 as int,
                    y1 as int,
                    dx as int,
                    dy as int,
                    sx as int,
                    sy as int,
                ),
            invariant
                self.wf(),
                self.width == old(self).width,
                self.height == old(self).height,
                self.draw_color() == old(self).draw_color(),
                self.zbuffer@ == old(self).zbuffer@,
                self.buffer@.len() == old(self).buffer@.len(),
                -16000 <= x0 <= 16000,
                -16000 <= y0 <= 16000,
                -16000 <= x1 <= 16000,
                -16000 <= y1 <= 16000,
                dx == (if x1 >= x0 { x1 - x0 } else { x0 - x1 }),
                dy == (if y1 >= y0 { -(y1 - y0) } else { -(y0 - y1) }),
                sx == (if x0 < x1 { 1i32 } else { -1i32 }),
                sy == (if y0 < y1 { 1i32 } else { -1i32 }),
                bres_inv(
                    cx as int,
                    cy as int,
                    err as int,
                    x1 as int,
                    y1 as int,
                    dx as int,
                    dy as int,
                    sx as int,
                    sy as int,
                ),
                path == bres_path(x0 as int, y0 as int, x1 as int, y1 as int),
                done.len() == 0 ==> cx == x0 && cy == y0,
                done.len() > 0 ==> done.contains((x0 as int, y0 as int)),
                forall|xx: int, yy: int|
                    old(self).spec_in_bounds(xx, yy) ==> self.buffer@[#[trigger] pix_idx(
                        old(self).width as int,
                        xx,
                        yy,
                    )] == (if done.contains((xx, yy)) {
                        old(self).draw_color()
                    } else {
                        old(self).buffer@[pix_idx(old(self).width as int, xx, yy)]
                    }),
                forall|xx: int, yy: int|
                    old(self).spec_in_bounds(xx, yy) && !(in_span(x0 as int, x1 as int, xx)
                        && in_span(y0 as int, y1 as int, yy)) ==> self.buffer@[#[trigger] pix_idx(
                        old(self).width as int,
                        xx,
                        yy,
                    )] == old(self).buffer@[pix_idx(old(self).width as int, xx, yy)],
            ensures
                self.wf(),
                self.width == old(self).width,
                self.height == old(self).height,
                self.draw_color() == old(self).draw_color(),
                self.zbuffer@ == old(self).zbuffer@,
                self.buffer@.len() == old(self).buffer@.len(),
                forall|xx: int, yy: int|
                    old(self).spec_in_bounds(xx, yy) ==> self.buffer@[#[trigger] pix_idx(
                        old(self).width as int,
                        xx,
                        yy,
                    )] == (if path.contains((xx, yy)) {
                        old(self).draw_color()
                    } else {
                        old(self).buffer@[pix_idx(old(self).width as int, xx, yy)]
                    }),
                path.contains((x0 as int, y0 as int)),
                path.contains((x1 as int, y1 as int)),
                forall|xx: int, yy: int|
                    old(self).spec_in_bounds(xx, yy) && !(in_span(x0 as int, x1 as int, xx)
                        && in_span(y0 as int, y1 as int, yy)) ==> self.buffer@[#[trigger] pix_idx(
                        old(self).width as int,
                        xx,
                        yy,
                    )] == old(self).buffer@[pix_idx(old(self).width as int, xx, yy)],
            decreases rem_toward(cx as int, x1 as int, sx as int) + rem_toward(
                cy as int,
                y1 as int,
                sy as int,
            ),
        {
            let ghost cx0 = cx as int;
            let ghost cy0 = cy as int;
            let ghost err0 = err as int;
            let ghost prev_done = done;
            self.point_no_depth(cx, cy);
            proof {
                done = done.push((cx0, cy0));
                assert(done =~= prev_done + seq![(cx0, cy0)]);
                assert(done[done.len() - 1] == (cx0, cy0));
                assert(done.contains((cx0, cy0)));
                assert forall|q: (int, int)| #[trigger]
                    done.contains(q) implies prev_done.contains(q) || q == (cx0, cy0) by {
                    let i = choose|i: int| 0 <= i < done.len() && done[i] == q;
                    if i < prev_done.len() {
                        assert(prev_done[i] == q);
                    }
                }
                if prev_done.len() == 0 {
                    assert(done.contains((x0 as int, y0 as int)));
                } else {
                    let i = choose|i: int|
                        0 <= i < prev_done.len() && prev_done[i] == (x0 as int, y0 as int);
                    assert(done[i] == (x0 as int, y0 as int));
                    assert(done.contains((x0 as int, y0 as int)));
                }
                if self.spec_in_bounds(cx0, cy0) {
                    lemma_idx_in_range(cx0, cy0, old(self).width as int, old(self).height as int);
                }
                assert forall|xx: int, yy: int| old(self).spec_in_bounds(xx, yy) implies
                    self.buffer@[#[trigger] pix_idx(old(self).width as int, xx, yy)] == (
                    if done.contains((xx, yy)) {
                        old(self).draw_color()
                    } else {
                        old(self).buffer@[pix_idx(old(self).width as int, xx, yy)]
                    }) by {
                    lemma_idx_in_range(xx, yy, old(self).width as int, old(self).height as int);
                    if self.spec_in_bounds(cx0, cy0) && pix_idx(old(self).width as int, xx, yy)
                        == pix_idx(old(self).width as int, cx0, cy0) {
                        lemma_idx_injective(
                            xx,
                            yy,
                            cx0,
                            cy0,
                            old(self).width as int,
                            old(self).height as int,
                        );
                    }
                    if prev_done.contains((xx, yy)) {
                        assert(done.contains((xx, yy))) by {
                            let i = choose|i: int|
                                0 <= i < prev_done.len() && prev_done[i] == (xx, yy);
                            assert(done[i] == (xx, yy));
                        }
                    }
                }
                assert forall|xx: int, yy: int|
                    old(self).spec_in_bounds(xx, yy) && !(in_span(x0 as int, x1 as int, xx)
                        && in_span(y0 as int, y1 as int, yy)) implies self.buffer@[
                    #[trigger] pix_idx(old(self).width as int, xx, yy)
                ] == old(self).buffer@[pix_idx(old(self).width as int, xx, yy)] by {
                    lemma_idx_in_range(xx, yy, old(self).width as int, old(self).height as int);
                    if self.spec_in_bounds(cx0, cy0) && pix_idx(old(self).width as int, xx, yy)
                        == pix_idx(old(self).width as int, cx0, cy0) {
                        lemma_idx_injective(
                            xx,
                            yy,
                            cx0,
                            cy0,
                            old(self).width as int,
                            old(self).height as int,
                        );
                    }
                }
            }
            if cx == x1 && cy == y1 {
                proof {
                    assert(bres_path_from(
                        cx0,
                        cy0,
                        err0,
                        x1 as int,
                        y1 as int,
                        dx as int,
                        dy as int,
                        sx as int,
                        sy as int,
                    ) =~= seq![(cx0, cy0)]);
                    assert(path =~= done);
                }
                break;
            }
            proof {
                lemma_mul_bounds(
                    rem_toward(cy0, y1 as int, sy as int),
                    dx as int,
                    32000,
                    32000,
                );
                lemma_mul_neg_bounds(
                    rem_toward(cx0, x1 as int, sx as int),
                    dy as int,
                    32000,
                    32000,
                );
                bres_step_facts(
                    cx0,
                    cy0,
                    err0,
                    x1 as int,
                    y1 as int,
                    dx as int,
                    dy as int,
                    sx as int,
                    sy as int,
                );
            }
            let e2: i32 = 2 * err;
            if e2 >= dy {
                err = err + dy;
                cx = cx + sx;
            }
            if e2 <= dx {
                err = err + dx;
                cy = cy + sy;
            }
            proof {
                assert(bres_path_from(
                    cx0,
                    cy0,
                    err0,
                    x1 as int,
                    y1 as int,
                    dx as int,
                    dy as int,
                    sx as int,
                    sy as int,
                ) =~= seq![(cx0, cy0)] + bres_path_from(
                    cx as int,
                    cy as int,
                    err as int,
                    x1 as int,
                    y1 as int,
                    dx as int,
                    dy as int,
                    sx as int,
                    sy as int,
                ));
                assert(path =~= done + bres_path_from(
                    cx as int,
                    cy as int,
                    err as int,
                    x1 as int,
                    y1 as int,
                    dx as int,
                    dy as int,
                    sx as int,
                    sy as int,
                ));
            }
        }
    }

    /// Additively blends `add` into the color cell at `(x, y)` with
    /// saturating channel arithmetic, leaving depth alone; out-of-range
    /// coordinates are silently ignored. This is the write primitive of the
    /// glow compositor, which must stay visible regardless of depth.
    pub fn add_color(&mut self, x: i32, y: i32, add: Color)
        requires
            old(self).wf(),
        ensures
            final(self).wf(),
            final(self).width == old(self).width,
            final(self).height == old(self).height,
            final(self).draw_color() == old(self).draw_color(),
            final(self).zbuffer@ == old(self).zbuffer@,
            old(self).spec_in_bounds(x as int, y as int) ==> final(self).buffer@ == old(
                self,
            ).buffer@.update(
                old(self).spec_idx(x as int, y as int),
                blend_hex(old(self).buffer@[old(self).spec_idx(x as int, y as int)], add),
            ),
            !old(self).spec_in_bounds(x as int, y as int) ==> final(self).buffer@ == old(
                self,
            ).buffer@,
    {
        if x < 0 || y < 0 || x as usize >= self.width || y as usize >= self.height {
            return;
        }
        proof {
            lemma_idx_in_range(x as int, y as int, self.width as int, self.height as int);
            assert(self.buffer.len() == self.buffer@.len());
        }
        let idx = y as usize * self.width + x as usize;
        let px = self.buffer[idx];
        let r: u32 = (px >> 16) & 0xFF;
        let g: u32 = (px >> 8) & 0xFF;
        let b: u32 = px & 0xFF;
        proof {
            assert(((px >> 16) & 0xFF) == (px / 0x10000) % 0x100 && ((px >> 8) & 0xFF) == (px
                / 0x100) % 0x100 && (px & 0xFF) == px % 0x100) by (bit_vector);
        }
        let cur = Color::new(r as u8, g as u8, b as u8);
        let out = cur.add(add);
        let h = out.to_hex();
        self.buffer.set(idx, h);
    }
}

/// Whether `v` lies between `a` and `b`, inclusive, in either order.
pub open spec fn in_span(a: int, b: int, v: int) -> bool {
    a <= v <= b || b <= v <= a
}

/// How many unit steps remain from `c` to the target `t` when stepping by
/// `s`, which is `1` or `-1`.
pub open spec fn rem_toward(c: int, t: int, s: int) -> int {
    if s == 1 {
        t - c
    } else {
        c - t
    }
}

/// The Bresenham error accumulator as a function of the fixed extents and
/// the remaining step counts: each x step has added `dy` and each y step has
/// added `dx` to the initial value `dx + dy`.
pub open spec fn bres_err(dx: int, dy: int, rx: int, ry: int) -> int {
    dx + dy - ry * dx - rx * dy
}

/// The invariant of the Bresenham walk toward `(x1, y1)`: unit step
/// directions, remaining step counts inside the extents `dx >= 0 >= dy`,
/// and the error accumulator at its closed form over them.
pub open spec fn bres_inv(
    cx: int,
    cy: int,
    err: int,
    x1: int,
    y1: int,
    dx: int,
    dy: int,
    sx: int,
    sy: int,
) -> bool {
    &&& sx == 1 || sx == -1
    &&& sy == 1 || sy == -1
    &&& 0 <= rem_toward(cx, x1, sx) <= dx
    &&& 0 <= rem_toward(cy, y1, sy) <= -dy
    &&& err == bres_err(dx, dy, rem_toward(cx, x1, sx), rem_toward(cy, y1, sy))
}

/// The pixels the Bresenham walk visits from `(cx, cy)` with error
/// accumulator `err` up to and including `(x1, y1)`, in visiting order: an
/// x step fires when twice the error is at least `dy`, a y step when it is
/// at most `dx`, both judged against the same doubled error.
pub open spec fn bres_path_from(
    cx: int,
    cy: int,
    err: int,
    x1: int,
    y1: int,
    dx: int,
    dy: int,
    sx: int,
    sy: int,
) -> Seq<(int, int)>
    decreases rem_toward(cx, x1, sx) + rem_toward(cy, y1, sy),
        when bres_inv(cx, cy, err, x1, y1, dx, dy, sx, sy)
        via bres_path_from_decreases
{
    if cx == x1 && cy == y1 {
        seq![(cx, cy)]
    } else {
        let e2 = 2 * err;
        let nx = if e2 >= dy {
            cx + sx
        } else {
            cx
        };
        let ny = if e2 <= dx {
            cy + sy
        } else {
            cy
        };
        let nerr = err + (if e2 >= dy {
            dy
        } else {
            0
        }) + (if e2 <= dx {
            dx
        } else {
            0
        });
        seq![(cx, cy)] + bres_path_from(nx, ny, nerr, x1, y1, dx, dy, sx, sy)
    }
}

#[via_fn]
proof fn bres_path_from_decreases(
    cx: int,
    cy: int,
    err: int,
    x1: int,
    y1: int,
    dx: int,
    dy: int,
    sx: int,
    sy: int,
) {
    if bres_inv(cx, cy, err, x1, y1, dx, dy, sx, sy) && !(cx == x1 && cy == y1) {
        bres_step_facts(cx, cy, err, x1, y1, dx, dy, sx, sy);
    }
}

/// The pixels the Bresenham line from `(x0, y0)` to `(x1, y1)` visits, in
/// order, both endpoints included.
pub open spec fn bres_path(x0: int, y0: int, x1: int, y1: int) -> Seq<(int, int)> {
    let dx = if x1 >= x0 {
        x1 - x0
    } else {
        x0 - x1
    };
    let dy = if y1 >= y0 {
        -(y1 - y0)
    } else {
        -(y0 - y1)
    };
    let sx: int = if x0 < x1 {
        1
    } else {
        -1
    };
    let sy: int = if y0 < y1 {
        1
    } else {
        -1
    };
    bres_path_from(x0, y0, dx + dy, x1, y1, dx, dy, sx, sy)
}

/// Away from the target, the walk never overshoots: a firing x step still
/// has x distance to cover, a firing y step still has y distance, at least
/// one of the two fires, and the invariant carries to the stepped state.
proof fn bres_step_facts(
    cx: int,
    cy: int,
    err: int,
    x1: int,
    y1: int,
    dx: int,
    dy: int,
    sx: int,
    sy: int,
)
    requires
        bres_inv(cx, cy, err, x1, y1, dx, dy, sx, sy),
        !(cx == x1 && cy == y1),
    ensures
        2 * err >= dy || 2 * err <= dx,
        2 * err >= dy ==> rem_toward(cx, x1, sx) >= 1,
        2 * err <= dx ==> rem_toward(cy, y1, sy) >= 1,
        bres_inv(
            if 2 * err >= dy {
                cx + sx
            } else {
                cx
            },
            if 2 * err <= dx {
                cy + sy
            } else {
                cy
            },
            err + (if 2 * err >= dy {
                dy
            } else {
                0
            }) + (if 2 * err <= dx {
                dx
            } else {
                0
            }),
            x1,
            y1,
            dx,
            dy,
            sx,
            sy,
        ),
{
    let rx = rem_toward(cx, x1, sx);
    let ry = rem_toward(cy, y1, sy);
    let e2 = 2 * err;
    if e2 >= dy && rx == 0 {
        if ry == 0 {
            assert(false);
        } else {
            assert(rx * dy == 0) by (nonlinear_arith)
                requires
                    rx == 0,
            ;
            lemma_mul_at_least(ry, dx);
            assert(false);
        }
    }
    if e2 <= dx && ry == 0 {
        assert(ry * dx == 0) by (nonlinear_arith)
            requires
                ry == 0,
        ;
        if rx == 0 {
            assert(false);
        } else if dy == 0 {
            assert(rx * dy == 0) by (nonlinear_arith)
                requires
                    dy == 0,
            ;
            assert(false);
        } else {
            lemma_mul_at_most_neg(rx, dy);
            assert(false);
        }
    }
    if e2 >= dy {
        assert((rx - 1) * dy == rx * dy - dy) by (nonlinear_arith);
        assert(rem_toward(cx + sx, x1, sx) == rx - 1);
    }
    if e2 <= dx {
        assert((ry - 1) * dx == ry * dx - dx) by (nonlinear_arith);
        assert(rem_toward(cy + sy, y1, sy) == ry - 1);
    }
}

proof fn lemma_mul_bounds(a: int, b: int, ca: int, cb: int)
    by (nonlinear_arith)
    requires
        0 <= a <= ca,
        0 <= b <= cb,
    ensures
        0 <= a * b <= ca * cb,
{
}

proof fn lemma_mul_neg_bounds(a: int, b: int, ca: int, cb: int)
    by (nonlinear_arith)
    requires
        0 <= a <= ca,
        -cb <= b <= 0,
    ensures
        -(ca * cb) <= a * b <= 0,
{
}

proof fn lemma_mul_at_least(a: int, b: int)
    by (nonlinear_arith)
    requires
        a >= 1,
        b >= 0,
    ensures
        a * b >= b,
{
}

proof fn lemma_mul_at_most_neg(a: int, b: int)
    by (nonlinear_arith)
    requires
        a >= 1,
        b <= 0,
    ensures
        a * b <= b,
{
}

/// The least depth key among the writes, folded in order into the initial
/// depth `d0`.
pub open spec fn min_depth(d0: u32, writes: Seq<(u32, u32)>) -> u32
    decreases writes.len(),
{
    if writes.len() == 0 {
        d0
    } else {
        min_depth(
            if writes[0].1 < d0 {
                writes[0].1
            } else {
                d0
            },
            writes.subrange(1, writes.len() as int),
        )
    }
}

/// The least depth key among the writes alone, as an integer;
/// `0x1_0000_0000` when there are none, so that it compares above every key.
pub open spec fn writes_min(writes: Seq<(u32, u32)>) -> int
    decreases writes.len(),
{
    if writes.len() == 0 {
        0x1_0000_0000
    } else {
        let rest = writes_min(writes.subrange(1, writes.len() as int));
        if writes[0].1 <= rest {
            writes[0].1 as int
        } else {
            rest
        }
    }
}

/// The cell state after applying the depth-tested writes in order.
pub open spec fn depth_cell_run(cell: (u32, u32), writes: Seq<(u32, u32)>) -> (u32, u32)
    decreases writes.len(),
{
    if writes.len() == 0 {
        cell
    } else {
        depth_cell_run(depth_cell_step(cell, writes[0]), writes.subrange(1, writes.len() as int))
    }
}

/// The color a sequence of depth-tested writes leaves at a cell: the color
/// of the first write that reaches the overall minimum depth, when that
/// minimum beats the initial depth; otherwise the initial color. A later
/// write at an equal or greater depth never overwrites.
pub open spec fn winning_color(cell: (u32, u32), writes: Seq<(u32, u32)>) -> u32
    decreases writes.len(),
{
    if writes.len() == 0 {
        cell.0
    } else if writes[0].1 == min_depth(cell.1, writes) && writes[0].1 < cell.1 {
        writes[0].0
    } else {
        winning_color(cell, writes.subrange(1, writes.len() as int))
    }
}

proof fn lemma_min_depth_as_min(d0: u32, writes: Seq<(u32, u32)>)
    ensures
        0 <= writes_min(writes) <= 0x1_0000_0000,
        min_depth(d0, writes) == if writes_min(writes) < d0 {
            writes_min(writes) as u32
        } else {
            d0
        },
        min_depth(d0, writes) <= d0,
    decreases writes.len(),
{
    if writes.len() > 0 {
        let rest = writes.subrange(1, writes.len() as int);
        let d1: u32 = if writes[0].1 < d0 {
            writes[0].1
        } else {
            d0
        };
        lemma_min_depth_as_min(d1, rest);
    }
}

proof fn lemma_winning_color_stable(cell: (u32, u32), writes: Seq<(u32, u32)>)
    requires
        writes_min(writes) >= cell.1,
    ensures
        winning_color(cell, writes) == cell.0,
    decreases writes.len(),
{
    if writes.len() > 0 {
        let rest = writes.subrange(1, writes.len() as int);
        lemma_min_depth_as_min(cell.1, writes);
        lemma_winning_color_stable(cell, rest);
    }
}

proof fn lemma_winning_color_indep(c1: (u32, u32), c2: (u32, u32), writes: Seq<(u32, u32)>)
    requires
        writes_min(writes) < c1.1,
        writes_min(writes) < c2.1,
    ensures
        winning_color(c1, writes) == winning_color(c2, writes),
    decreases writes.len(),
{
    let rest = writes.subrange(1, writes.len() as int);
    lemma_min_depth_as_min(c1.1, writes);
    lemma_min_depth_as_min(c2.1, writes);
    if writes[0].1 != writes_min(writes) {
        lemma_winning_color_indep(c1, c2, rest);
    }
}

/// Z-buffer monotonicity: across an ordered sequence of depth-tested writes
/// at one cell, the stored depth ends at the minimum of the initial depth
/// and all written depths - so it never increases - and the stored color
/// ends at the draw color of the first write that reached that minimum,
/// when the minimum beats the initial depth; later writes at equal or
/// greater depth never overwrite. `Framebuffer::point` makes exactly one
/// `depth_cell_step` on the addressed cell, so this describes any ordered
/// sequence of `point` calls aimed at one pixel.
pub proof fn lemma_zbuffer_monotonic(cell: (u32, u32), writes: Seq<(u32, u32)>)
    ensures
        depth_cell_run(cell, writes).1 == min_depth(cell.1, writes),
        depth_cell_run(cell, writes).1 <= cell.1,
        depth_cell_run(cell, writes).0 == winning_color(cell, writes),
    decreases writes.len(),
{
    lemma_min_depth_as_min(cell.1, writes);
    if writes.len() > 0 {
        let rest = writes.subrange(1, writes.len() as int);
        let cell1 = depth_cell_step(cell, writes[0]);
        lemma_zbuffer_monotonic(cell1, rest);
        lemma_min_depth_as_min(cell1.1, rest);
        if writes[0].1 < cell.1 {
            if writes_min(rest) >= writes[0].1 {
                lemma_winning_color_stable(cell1, rest);
            } else {
                lemma_winning_color_indep(cell1, cell, rest);
            }
        }
    }
}

pub(crate) proof fn lemma_idx_in_range(x: int, y: int, w: int, h: int)
    by (nonlinear_arith)
    requires
        0 <= x < w,
        0 <= y < h,
    ensures
        0 <= y * w + x < w * h,
{
}

/// Distinct in-bounds pixels occupy distinct row-major cells.
pub(crate) proof fn lemma_idx_injective(x1: int, y1: int, x2: int, y2: int, w: int, h: int)
    by (nonlinear_arith)
    requires
        0 <= x1 < w,
        0 <= y1 < h,
        0 <= x2 < w,
        0 <= y2 < h,
        y1 * w + x1 == y2 * w + x2,
    ensures
        x1 == x2 && y1 == y2,
{
}

} // verus!

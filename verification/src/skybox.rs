use vstd::prelude::*;
use crate::color::Color;
use crate::framebuffer::{Framebuffer, lemma_idx_in_range, lemma_idx_injective, pix_idx};

verus! {

/// One background star: a pixel position and a packed grey color.
pub struct Star {
    pub x: i32,
    pub y: i32,
    pub c: u32,
}

/// A fixed starfield over a vertical gradient, drawn behind everything
/// through the depth-ignoring point primitive.
pub struct Skybox {
    stars: Vec<Star>,
    w: usize,
    h: usize,
}

/// Declares fastrand::Rng so that it can cross the wrappers below; its
/// values are opaque here.
#[verifier::external_type_specification]
#[verifier::external_body]
pub struct ExRng(fastrand::Rng);

/// Relies on fastrand::Rng::with_seed: builds a deterministic generator
/// from the seed.
#[verifier::external_body]
fn rng_with_seed(seed: u64) -> fastrand::Rng {
    fastrand::Rng::with_seed(seed)
}

/// Relies on fastrand::Rng::i32: a draw from `[0, bound)`; it panics on an
/// empty range, which the precondition rules out.
#[verifier::external_body]
fn rng_i32_below(rng: &mut fastrand::Rng, bound: i32) -> (r: i32)
    requires
        bound >= 1,
    ensures
        0 <= r < bound,
{
    rng.i32(0..bound)
}

/// Relies on fastrand::Rng::u8: a draw from `[lo, hi)`; it panics on an
/// empty range, which the precondition rules out.
#[verifier::external_body]
fn rng_u8_range(rng: &mut fastrand::Rng, lo: u8, hi: u8) -> (r: u8)
    requires
        lo < hi,
    ensures
        lo <= r < hi,
{
    rng.u8(lo..hi)
}

/// A packed grey whose three equal channels lie in the starlight band.
pub open spec fn star_grey(c: u32) -> bool {
    exists|v: u8| 180 <= v < 255 && c == (Color { r: v, g: v, b: v }).spec_hex()
}

/// A star that lies inside the `w x h` sky and carries a starlight grey.
pub open spec fn star_ok(s: Star, w: int, h: int) -> bool {
    &&& 0 <= s.x < w
    &&& 0 <= s.y < h
    &&& star_grey(s.c)
}

/// One channel of the background gradient: the top-row value `num / den`
/// (as a real ratio of 255ths) scaled linearly down to zero at the bottom
/// row.
pub open spec fn gradient_channel(num: int, den: int, y: int, h: int) -> u8 {
    if h <= 1 {
        (num / den) as u8
    } else {
        ((num * (h - 1 - y)) / (den * (h - 1))) as u8
    }
}

/// The packed background color of row `y` in a sky of height `h`: a dark
/// blue, `(5, 5, 12)` at the top, fading linearly to black at the bottom.
pub open spec fn spec_gradient(h: int, y: int) -> u32 {
    (Color {
        r: gradient_channel(51, 10, y, h),
        g: gradient_channel(51, 10, y, h),
        b: gradient_channel(51, 4, y, h),
    }).spec_hex()
}

/// The color that stamping the stars in order leaves at a pixel that
/// started at `base`: the color of the last star on that pixel, or `base`
/// when none covers it.
pub open spec fn star_paint(stars: Seq<Star>, xx: int, yy: int, base: u32) -> u32
    decreases stars.len(),
{
    if stars.len() == 0 {
        base
    } else if stars.last().x == xx && stars.last().y == yy {
        stars.last().c
    } else {
        star_paint(stars.drop_last(), xx, yy, base)
    }
}

impl Skybox {
    pub closed spec fn spec_stars(&self) -> Seq<Star> {
        self.stars@
    }

    pub closed spec fn spec_w(&self) -> int {
        self.w as int
    }

    pub closed spec fn spec_h(&self) -> int {
        self.h as int
    }

    /// The sky has a positive extent that fits pixel coordinates, and every
    /// star lies inside it with a starlight grey color.
    pub open spec fn wf(&self) -> bool {
        &&& 1 <= self.spec_w() <= i32::MAX
        &&& 1 <= self.spec_h() <= i32::MAX
        &&& forall|k: int|
            0 <= k < self.spec_stars().len() ==> star_ok(
                #[trigger] self.spec_stars()[k],
                self.spec_w(),
                self.spec_h(),
            )
    }

    /// Scatters `count` stars uniformly over the `w x h` sky with greys
    /// drawn from the starlight band, deterministically from `seed`.
    pub fn new(w: usize, h: usize, count: usize, seed: u64) -> (s: Skybox)
        requires
            1 <= w <= i32::MAX,
            1 <= h <= i32::MAX,
        ensures
            s.wf(),
            s.spec_w() == w,
            s.spec_h() == h,
            s.spec_stars().len() == count,
    {
        let mut rng = rng_with_seed(seed);
        let mut stars: Vec<Star> = Vec::new();
        let mut i: usize = 0;
        while i < count
            invariant
                i <= count,
                1 <= w <= i32::MAX,
                1 <= h <= i32::MAX,
                stars@.len() == i,
                forall|k: int| 0 <= k < i ==> star_ok(#[trigger] stars@[k], w as int, h as int),
            decreases count - i,
        {
            let x = rng_i32_below(&mut rng, w as i32);
            let y = rng_i32_below(&mut rng, h as i32);
            let g = rng_u8_range(&mut rng, 180, 255);
            let c = Color::new(g, g, g).to_hex();
            stars.push(Star { x, y, c });
            i = i + 1;
        }
        Skybox { stars, w, h }
    }

    /// Paints the row gradient over the `w x h` region of the framebuffer's
    /// color plane (clipped to the framebuffer's own bounds) and stamps
    /// every star on top, all through the depth-ignoring primitive.
    /// Afterwards each in-bounds cell of the region holds exactly the color
    /// of the last star at that pixel, or its row's gradient color when no
    /// star covers it; cells outside the region and the whole depth plane
    /// are untouched.
    pub fn render(&self, fb: &mut Framebuffer)
        requires
            self.wf(),
            old(fb).wf(),
        ensures
            final(fb).wf(),
            final(fb).width == old(fb).width,
            final(fb).height == old(fb).height,
            final(fb).zbuffer@ == old(fb).zbuffer@,
            final(fb).buffer@.len() == old(fb).buffer@.len(),
            forall|xx: int, yy: int|
                final(fb).spec_in_bounds(xx, yy) && xx < self.spec_w() && yy < self.spec_h()
                    ==> final(fb).buffer@[#[trigger] final(fb).spec_idx(xx, yy)] == star_paint(
                    self.spec_stars(),
                    xx,
                    yy,
                    spec_gradient(self.spec_h(), yy),
                ),
            forall|xx: int, yy: int|
                final(fb).spec_in_bounds(xx, yy) && !(xx < self.spec_w() && yy < self.spec_h())
                    ==> final(fb).buffer@[#[trigger] final(fb).spec_idx(xx, yy)] == old(
                    fb,
                ).buffer@[final(fb).spec_idx(xx, yy)],
    {
        let w = self.w;
        let h = self.h;
        let ghost fw = old(fb).width as int;
        let ghost fh = old(fb).height as int;
        let mut y: usize = 0;
        while y < h
            invariant
                self.wf(),
                fb.wf(),
                fb.width == old(fb).width,
                fb.height == old(fb).height,
                fb.zbuffer@ == old(fb).zbuffer@,
                fb.buffer@.len() == old(fb).buffer@.len(),
                fw == old(fb).width as int,
                fh == old(fb).height as int,
                w == self.spec_w(),
                h == self.spec_h(),
                y <= h,
                forall|xx: int, yy: int|
                    0 <= xx < fw && 0 <= yy < fh ==> fb.buffer@[#[trigger] pix_idx(fw, xx, yy)]
                        == (if xx < w && yy < y {
                        spec_gradient(h as int, yy)
                    } else {
                        old(fb).buffer@[pix_idx(fw, xx, yy)]
                    }),
            decreases h - y,
        {
            let row = gradient_color(y, h);
            fb.set_current_color(row);
            let mut x: usize = 0;
            while x < w
                invariant
                    self.wf(),
                    fb.wf(),
                    fb.width == old(fb).width,
                    fb.height == old(fb).height,
                    fb.zbuffer@ == old(fb).zbuffer@,
                    fb.buffer@.len() == old(fb).buffer@.len(),
                    fw == old(fb).width as int,
                    fh == old(fb).height as int,
                    w == self.spec_w(),
                    h == self.spec_h(),
                    y < h,
                    x <= w,
                    fb.draw_color() == spec_gradient(h as int, y as int),
                    forall|xx: int, yy: int|
                        0 <= xx < fw && 0 <= yy < fh ==> fb.buffer@[#[trigger] pix_idx(
                            fw,
                            xx,
                            yy,
                        )] == (if xx < w && (yy < y || (yy == y && xx < x)) {
                            spec_gradient(h as int, yy)
                        } else {
                            old(fb).buffer@[pix_idx(fw, xx, yy)]
                        }),
                decreases w - x,
            {
                fb.point_no_depth(x as i32, y as i32);
                proof {
                    assert forall|xx: int, yy: int| 0 <= xx < fw && 0 <= yy < fh implies fb.buffer@[
                        #[trigger] pix_idx(fw, xx, yy)
                    ] == (if xx < w && (yy < y || (yy == y && xx < x + 1)) {
                        spec_gradient(h as int, yy)
                    } else {
                        old(fb).buffer@[pix_idx(fw, xx, yy)]
                    }) by {
                        lemma_idx_in_range(xx, yy, fw, fh);
                        if (x as int) < fw && (y as int) < fh {
                            lemma_idx_in_range(x as int, y as int, fw, fh);
                            if pix_idx(fw, xx, yy) == pix_idx(fw, x as int, y as int) {
                                lemma_idx_injective(xx, yy, x as int, y as int, fw, fh);
                            }
                        }
                    }
                }
                x = x + 1;
            }
            y = y + 1;
        }
        let mut k: usize = 0;
        let n = self.stars.len();
        while k < n
            invariant
                self.wf(),
                fb.wf(),
                fb.width == old(fb).width,
                fb.height == old(fb).height,
                fb.zbuffer@ == old(fb).zbuffer@,
                fb.buffer@.len() == old(fb).buffer@.len(),
                fw == old(fb).width as int,
                fh == old(fb).height as int,
                w == self.spec_w(),
                h == self.spec_h(),
                n == self.spec_stars().len(),
                k <= n,
                forall|xx: int, yy: int|
                    0 <= xx < fw && 0 <= yy < fh && xx < w && yy < h ==> fb.buffer@[
                        #[trigger] pix_idx(fw, xx, yy)
                    ] == star_paint(
                        self.spec_stars().subrange(0, k as int),
                        xx,
                        yy,
                        spec_gradient(h as int, yy),
                    ),
                forall|xx: int, yy: int|
                    0 <= xx < fw && 0 <= yy < fh && !(xx < w && yy < h) ==> fb.buffer@[
                        #[trigger] pix_idx(fw, xx, yy)
                    ] == old(fb).buffer@[pix_idx(fw, xx, yy)],
            decreases n - k,
        {
            let sx = self.stars[k].x;
            let sy = self.stars[k].y;
            let sc = self.stars[k].c;
            fb.set_current_color(sc);
            fb.point_no_depth(sx, sy);
            proof {
                assert forall|xx: int, yy: int|
                    0 <= xx < fw && 0 <= yy < fh && xx < w && yy < h implies fb.buffer@[
                    #[trigger] pix_idx(fw, xx, yy)
                ] == star_paint(
                    self.spec_stars().subrange(0, k as int + 1),
                    xx,
                    yy,
                    spec_gradient(h as int, yy),
                ) by {
                    let pre = self.spec_stars().subrange(0, k as int);
                    let post = self.spec_stars().subrange(0, k as int + 1);
                    assert(post.drop_last() =~= pre);
                    assert(post.last() == self.spec_stars()[k as int]);
                    lemma_idx_in_range(xx, yy, fw, fh);
                    if (sx as int) < fw && (sy as int) < fh {
                        lemma_idx_in_range(sx as int, sy as int, fw, fh);
                        if pix_idx(fw, xx, yy) == pix_idx(fw, sx as int, sy as int) {
                            lemma_idx_injective(xx, yy, sx as int, sy as int, fw, fh);
                        }
                    }
                }
                assert forall|xx: int, yy: int|
                    0 <= xx < fw && 0 <= yy < fh && !(xx < w && yy < h) implies fb.buffer@[
                    #[trigger] pix_idx(fw, xx, yy)
                ] == old(fb).buffer@[pix_idx(fw, xx, yy)] by {
                    lemma_idx_in_range(xx, yy, fw, fh);
                    if (sx as int) < fw && (sy as int) < fh {
                        lemma_idx_in_range(sx as int, sy as int, fw, fh);
                        if pix_idx(fw, xx, yy) == pix_idx(fw, sx as int, sy as int) {
                            lemma_idx_injective(xx, yy, sx as int, sy as int, fw, fh);
                        }
                    }
                }
            }
            k = k + 1;
        }
        proof {
            assert(self.spec_stars().subrange(0, n as int) =~= self.spec_stars());
        }
    }
}

/// The packed gradient color of row `y` in a sky of height `h`, computed in
/// integer arithmetic; equals [`spec_gradient`].
fn gradient_color(y: usize, h: usize) -> (c: u32)
    requires
        1 <= h <= i32::MAX,
        y < h,
    ensures
        c == spec_gradient(h as int, y as int),
{
    if h == 1 {
        return Color::new(5, 5, 12).to_hex();
    }
    let t: u64 = (h - 1 - y) as u64;
    let m: u64 = (h - 1) as u64;
    proof {
        lemma_div_below(51 * t as int, 10 * m as int, 6);
        lemma_div_below(51 * t as int, 4 * m as int, 13);
    }
    let rg: u64 = (51 * t) / (10 * m);
    let bb: u64 = (51 * t) / (4 * m);
    Color::new(rg as u8, rg as u8, bb as u8).to_hex()
}

proof fn lemma_div_below(x: int, d: int, c: int)
    by (nonlinear_arith)
    requires
        0 <= x,
        1 <= d,
        x < c * d,
    ensures
        x / d < c,
{
}


} // verus!

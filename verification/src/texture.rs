//! The dynamic wall texture: a fixed-size color buffer rebuilt every
//! render frame from the recent visualization samples, and sampled by the
//! raycaster with distance-based shading.

use vstd::prelude::*;

use crate::fixed::ONE;

verus! {

/// Largest accepted texture width.
pub const TEX_MAX_W: usize = 65536;

/// Largest accepted texture height.
pub const TEX_MAX_H: usize = 4096;

/// An 8-bit RGBA color.
#[derive(Clone, Copy, Debug, PartialEq, Eq, Structural)]
pub struct Color {
    pub r: u8,
    pub g: u8,
    pub b: u8,
    pub a: u8,
}

impl Color {
    /// The texture background.
    pub fn white() -> (c: Color)
        ensures
            c == (Color { r: 255, g: 255, b: 255, a: 255 }),
    {
        Color { r: 255, g: 255, b: 255, a: 255 }
    }

    /// The waveform trace and out-of-range sample color.
    pub fn black() -> (c: Color)
        ensures
            c == (Color { r: 0, g: 0, b: 0, a: 255 }),
    {
        Color { r: 0, g: 0, b: 0, a: 255 }
    }

    /// Scales every channel by a Q16 factor in [0, ONE].
    pub fn scaled(&self, shade: i64) -> (c: Color)
        requires
            0 <= shade <= ONE,
        ensures
            c == spec_scaled(*self, shade as int),
    {
        Color {
            r: scale_one(self.r, shade),
            g: scale_one(self.g, shade),
            b: scale_one(self.b, shade),
            a: scale_one(self.a, shade),
        }
    }
}

/// One channel scaled by a Q16 factor, executable form.
fn scale_one(c: u8, shade: i64) -> (r: u8)
    requires
        0 <= shade <= ONE,
    ensures
        r as int == scale_channel(c, shade as int),
{
    proof {
        assert(0 <= c as i64 * shade <= 255 * ONE) by (nonlinear_arith)
            requires
                0 <= c <= 255,
                0 <= shade <= ONE,
        ;
        vstd::arithmetic::div_mod::lemma_div_pos_is_pos(c as int * shade, ONE as int);
        vstd::arithmetic::div_mod::lemma_div_is_ordered(c as int * shade, 255 * (ONE as int), ONE as int);
        vstd::arithmetic::div_mod::lemma_div_multiples_vanish(255, ONE as int);
        assert(255 * (ONE as int) == (ONE as int) * 255);
    }
    ((c as i64 * shade) / ONE) as u8
}

/// One channel scaled by a Q16 factor.
pub open spec fn scale_channel(c: u8, shade: int) -> int {
    (c * shade) / (ONE as int)
}

/// A color with every channel scaled by a Q16 factor.
pub open spec fn spec_scaled(c: Color, shade: int) -> Color {
    Color {
        r: scale_channel(c.r, shade) as u8,
        g: scale_channel(c.g, shade) as u8,
        b: scale_channel(c.b, shade) as u8,
        a: scale_channel(c.a, shade) as u8,
    }
}

/// A normalized Q16 sample clamped into [-ONE, ONE].
pub open spec fn clamp_sample(v: int) -> int {
    if v < -ONE {
        -(ONE as int)
    } else if v > ONE {
        ONE as int
    } else {
        v
    }
}

/// The texture row a sample is drawn at: the sample's value mapped
/// linearly from [-ONE, ONE] onto [0, h), midpoint at h / 2, rounded to
/// the nearest row and clamped into range.
pub open spec fn row_of(v: int, h: int) -> int {
    let r = ((clamp_sample(v) + ONE) * (h / 2) + ONE / 2) / (ONE as int);
    if r >= h {
        h - 1
    } else {
        r
    }
}

/// The dynamic wall texture.
pub struct Texture {
    width: usize,
    height: usize,
    buffer: Vec<Color>,
}

impl Texture {
    /// Texture width in texels.
    pub closed spec fn w(&self) -> int {
        self.width as int
    }

    /// Texture height in texels.
    pub closed spec fn h(&self) -> int {
        self.height as int
    }

    /// The color buffer, row-major: index `x + w * y`.
    pub closed spec fn texels(&self) -> Seq<Color> {
        self.buffer@
    }

    /// The color at texel (x, y).
    pub open spec fn pixel(&self, x: int, y: int) -> Color {
        self.texels()[x + self.w() * y]
    }

    /// Well-formedness: bounded sides and row-major storage.
    pub open spec fn wf(&self) -> bool {
        &&& 1 <= self.w() <= TEX_MAX_W
        &&& 1 <= self.h() <= TEX_MAX_H
        &&& self.texels().len() == self.w() * self.h()
    }

    /// Allocates a texture filled with the background color.
    pub fn new(width: usize, height: usize) -> (t: Texture)
        requires
            1 <= width <= TEX_MAX_W,
            1 <= height <= TEX_MAX_H,
        ensures
            t.wf(),
            t.w() == width,
            t.h() == height,
            forall|i: int| 0 <= i < t.texels().len() ==> #[trigger] t.texels()[i]
                == (Color { r: 255, g: 255, b: 255, a: 255 }),
    {
        proof {
            assert(width * height <= TEX_MAX_W * TEX_MAX_H) by (nonlinear_arith)
                requires
                    width <= TEX_MAX_W,
                    height <= TEX_MAX_H,
            ;
            assert(width * height >= 1) by (nonlinear_arith)
                requires
                    width >= 1,
                    height >= 1,
            ;
        }
        let n: usize = width * height;
        let mut buffer: Vec<Color> = Vec::new();
        let mut i: usize = 0;
        while i < n
            invariant
                i <= n,
                buffer@.len() == i,
                forall|j: int| 0 <= j < i ==> #[trigger] buffer@[j]
                    == (Color { r: 255, g: 255, b: 255, a: 255 }),
            decreases n - i,
        {
            buffer.push(Color::white());
            i = i + 1;
        }
        Texture { width, height, buffer }
    }

    /// Texture height accessor.
    pub fn height(&self) -> (r: usize)
        ensures
            r == self.h(),
    {
        self.height
    }

    /// Texture width accessor.
    pub fn width(&self) -> (r: usize)
        ensures
            r == self.w(),
    {
        self.width
    }

    /// Sets the color of one texel.
    pub fn set_color(&mut self, x: usize, y: usize, c: Color)
        requires
            old(self).wf(),
            x < old(self).w(),
            y < old(self).h(),
        ensures
            final(self).wf(),
            final(self).w() == old(self).w(),
            final(self).h() == old(self).h(),
            final(self).texels() == old(self).texels().update(x + old(self).w() * y, c),
            final(self).pixel(x as int, y as int) == c,
    {
        proof {
            lemma_texel_index(self.w(), self.h(), x as int, y as int);
            assert(self.width * y <= 65536 * 4095) by (nonlinear_arith)
                requires
                    self.width <= 65536,
                    y <= 4095,
            ;
        }
        let idx: usize = x + self.width * y;
        self.buffer.set(idx, c);
    }

    /// Reads the color of one texel.
    pub fn get_color(&self, x: usize, y: usize) -> (c: Color)
        requires
            self.wf(),
            x < self.w(),
            y < self.h(),
        ensures
            c == self.pixel(x as int, y as int),
    {
        proof {
            lemma_texel_index(self.w(), self.h(), x as int, y as int);
            assert(self.width * y <= 65536 * 4095) by (nonlinear_arith)
                requires
                    self.width <= 65536,
                    y <= 4095,
            ;
        }
        let idx: usize = x + self.width * y;
        self.buffer[idx]
    }

    /// Resets every texel to the background color.
    pub fn clear(&mut self)
        requires
            old(self).wf(),
        ensures
            final(self).wf(),
            final(self).w() == old(self).w(),
            final(self).h() == old(self).h(),
            forall|i: int| 0 <= i < final(self).texels().len() ==> #[trigger] final(self).texels()[i]
                == (Color { r: 255, g: 255, b: 255, a: 255 }),
    {
        let n: usize = self.buffer.len();
        let mut i: usize = 0;
        while i < n
            invariant
                i <= n,
                self.buffer@.len() == n,
                self.width == old(self).width,
                self.height == old(self).height,
                n == old(self).texels().len(),
                forall|j: int| 0 <= j < i ==> #[trigger] self.buffer@[j]
                    == (Color { r: 255, g: 255, b: 255, a: 255 }),
            decreases n - i,
        {
            self.buffer.set(i, Color::white());
            i = i + 1;
        }
    }

    /// Samples the texture at Q16 coordinates (u, v) in [0, ONE) each;
    /// out-of-range coordinates are rejected with the trace color rather
    /// than read out of bounds.
    pub fn sample_color(&self, u: i64, v: i64) -> (c: Color)
        requires
            self.wf(),
        ensures
            c == spec_sample(*self, u as int, v as int),
    {
        if u < 0 || u >= ONE || v < 0 || v >= ONE {
            Color::black()
        } else {
            proof {
                lemma_sample_index(self.w(), u as int);
                lemma_sample_index(self.h(), v as int);
            }
            let sx: usize = (((self.width as i64) * u) / ONE) as usize;
            let sy: usize = (((self.height as i64) * v) / ONE) as usize;
            self.get_color(sx, sy)
        }
    }

    /// Samples like `sample_color`, then darkens by a Q16 shading factor.
    pub fn sample_color_weighted(&self, u: i64, v: i64, shade: i64) -> (c: Color)
        requires
            self.wf(),
            0 <= shade <= ONE,
        ensures
            c == spec_scaled(spec_sample(*self, u as int, v as int), shade as int),
    {
        let base = self.sample_color(u, v);
        base.scaled(shade)
    }
}

/// The mathematical sampling map of a texture.
pub open spec fn spec_sample(t: Texture, u: int, v: int) -> Color {
    if 0 <= u < ONE && 0 <= v < ONE {
        t.pixel(t.w() * u / (ONE as int), t.h() * v / (ONE as int))
    } else {
        Color { r: 0, g: 0, b: 0, a: 255 }
    }
}

/// An in-bounds texel names a valid storage index.
proof fn lemma_texel_index(w: int, h: int, x: int, y: int)
    requires
        1 <= w,
        0 <= x < w,
        0 <= y < h,
    ensures
        0 <= x + w * y,
        x + w * y < w * h,
{
    assert(0 <= x + w * y && x + w * y < w * h) by (nonlinear_arith)
        requires
            1 <= w,
            0 <= x < w,
            0 <= y < h,
    ;
}

/// A Q16 coordinate in [0, ONE) scales into [0, side).
proof fn lemma_sample_index(side: int, u: int)
    requires
        1 <= side <= 65536,
        0 <= u < ONE,
    ensures
        0 <= side * u / (ONE as int) < side,
{
    assert(0 <= side * u <= side * (ONE - 1)) by (nonlinear_arith)
        requires
            1 <= side,
            0 <= u <= ONE - 1,
    ;
    vstd::arithmetic::div_mod::lemma_div_pos_is_pos(side * u, ONE as int);
    vstd::arithmetic::div_mod::lemma_div_is_ordered(side * u, side * (ONE as int) - side, ONE as int);
    assert(side * (ONE as int) - side == (ONE as int) * (side - 1) + ((ONE as int) - side))
        by (nonlinear_arith);
    vstd::arithmetic::div_mod::lemma_fundamental_div_mod_converse(
        side * (ONE as int) - side, ONE as int, side - 1, (ONE as int) - side);
}

} // verus!

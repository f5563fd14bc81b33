//! The texture store: per-material RGBA8 textures sampled with clamped
//! coordinates, optional tileable sky and ground textures sampled with
//! wrapping coordinates, a generated checkerboard placeholder for missing
//! assets, and the importer that normalizes raw texel data to RGBA8.

use vstd::prelude::*;
use crate::fixed::{FX_ONE, clamp_spec, euclid_mod, clamp_fx};
use crate::framebuffer::Color;

verus! {

/// Greatest accepted texture side length, in texels.
pub const TEX_DIM_LIMIT: u32 = 4096;

/// Side length of the generated placeholder texture.
pub const DUMMY_SIDE: u32 = 64;

/// A texture held on the CPU in normalized RGBA8 form.
pub struct CpuTexture {
    pub w: u32,
    pub h: u32,
    /// Texel bytes, row-major, 4 bytes per texel.
    pub pixels: Vec<u8>,
}

impl CpuTexture {
    pub open spec fn wf(self) -> bool {
        &&& 1 <= self.w <= TEX_DIM_LIMIT
        &&& 1 <= self.h <= TEX_DIM_LIMIT
        &&& self.pixels.len() == 4 * self.w * self.h
    }
}

/// The texel of `t` at in-range coordinates `(x, y)`.
pub open spec fn texel_spec(t: CpuTexture, x: int, y: int) -> Color {
    let i = 4 * (y * t.w + x);
    Color { r: t.pixels@[i], g: t.pixels@[i + 1], b: t.pixels@[i + 2], a: t.pixels@[i + 3] }
}

/// The color returned when a material has no texture.
pub open spec fn missing_color_spec() -> Color {
    Color { r: 255, g: 0, b: 255, a: 255 }
}

/// One byte of the generated checkerboard placeholder: 8x8 blocks
/// alternating between magenta and black, fully opaque.
pub open spec fn dummy_byte(j: int) -> u8 {
    let p = j / 4;
    let c = j % 4;
    let x = p % (DUMMY_SIDE as int);
    let y = p / (DUMMY_SIDE as int);
    if c == 3 {
        255
    } else if (x / 8 + y / 8) % 2 == 0 {
        if c == 1 {
            0
        } else {
            255
        }
    } else {
        0
    }
}

/// What the placeholder texture holds.
pub open spec fn is_dummy_texture(t: CpuTexture) -> bool {
    &&& t.w == DUMMY_SIDE
    &&& t.h == DUMMY_SIDE
    &&& t.pixels.len() == 4 * DUMMY_SIDE * DUMMY_SIDE
    &&& forall|j: int| 0 <= j < t.pixels.len() ==> t.pixels@[j] == dummy_byte(j)
}

/// Maps a material tag to its texture, plus optional tileable sky and ground
/// textures. A later insertion for the same tag shadows an earlier one.
pub struct TextureManager {
    pub tex: Vec<(char, CpuTexture)>,
    pub sky: Option<CpuTexture>,
    pub ground: Option<CpuTexture>,
}

/// The texture a tag resolves to: the most recently inserted entry for it.
pub open spec fn lookup(s: Seq<(char, CpuTexture)>, ch: char) -> Option<CpuTexture>
    decreases s.len(),
{
    if s.len() == 0 {
        None
    } else if s.last().0 == ch {
        Some(s.last().1)
    } else {
        lookup(s.drop_last(), ch)
    }
}

/// Appending an entry shadows exactly its own tag.
pub proof fn lemma_lookup_push(s: Seq<(char, CpuTexture)>, e: (char, CpuTexture), ch: char)
    ensures
        lookup(s.push(e), ch) == if e.0 == ch {
            Some(e.1)
        } else {
            lookup(s, ch)
        },
{
    assert(s.push(e).drop_last() =~= s);
    assert(s.push(e).last() == e);
}

/// A resolved texture of a well-formed store is well-formed.
pub proof fn lemma_lookup_wf(s: Seq<(char, CpuTexture)>, ch: char)
    requires
        forall|i: int| 0 <= i < s.len() ==> (#[trigger] s[i]).1.wf(),
    ensures
        lookup(s, ch) is Some ==> lookup(s, ch)->Some_0.wf(),
    decreases s.len(),
{
    if s.len() > 0 && s.last().0 != ch {
        lemma_lookup_wf(s.drop_last(), ch);
    }
}

/// Sampling a wall or sprite texture: coordinates clamp to the valid range;
/// a tag with no texture yields `missing_color_spec`.
pub open spec fn sample_spec(m: TextureManager, ch: char, tx: int, ty: int) -> Color {
    match lookup(m.tex@, ch) {
        Some(t) => {
            let x = if tx < t.w - 1 {
                tx
            } else {
                t.w - 1
            };
            let y = if ty < t.h - 1 {
                ty
            } else {
                t.h - 1
            };
            texel_spec(t, x, y)
        },
        None => missing_color_spec(),
    }
}

/// The sky gradient drawn when no sky texture is loaded: `v` runs from the
/// zenith (0) to the horizon (`FX_ONE`).
pub open spec fn sky_gradient_spec(v: int) -> Color {
    let t = clamp_spec(v, 0, FX_ONE as int);
    Color {
        r: ((30 * (FX_ONE as int) + 50 * ((FX_ONE as int) - t)) / (FX_ONE as int)) as u8,
        g: ((50 * (FX_ONE as int) + 80 * ((FX_ONE as int) - t)) / (FX_ONE as int)) as u8,
        b: ((120 * (FX_ONE as int) + 80 * t) / (FX_ONE as int)) as u8,
        a: 255,
    }
}

/// The color returned when no ground texture is loaded.
pub open spec fn ground_fallback_spec() -> Color {
    Color { r: 40, g: 40, b: 60, a: 255 }
}

/// Sampling the tileable sky: `u` wraps to `[0, FX_ONE)`, `v` clamps to
/// `[0, FX_ONE]`; the bottom clamp value falls back to the gradient, as does
/// a missing texture.
pub open spec fn sample_sky_spec(m: TextureManager, u: int, v: int) -> Color {
    match m.sky {
        Some(s) => {
            let uu = (u % (FX_ONE as int)) * s.w / (FX_ONE as int);
            let vv = clamp_spec(v, 0, FX_ONE as int) * s.h / (FX_ONE as int);
            if vv < s.h {
                texel_spec(s, uu, vv)
            } else {
                sky_gradient_spec(v)
            }
        },
        None => sky_gradient_spec(v),
    }
}

/// Sampling the tileable ground: both coordinates wrap to `[0, FX_ONE)`.
pub open spec fn sample_ground_spec(m: TextureManager, u: int, v: int) -> Color {
    match m.ground {
        Some(g) => {
            let uu = (u % (FX_ONE as int)) * g.w / (FX_ONE as int);
            let vv = (v % (FX_ONE as int)) * g.h / (FX_ONE as int);
            texel_spec(g, uu, vv)
        },
        None => ground_fallback_spec(),
    }
}

/// Scaling a fraction in `[0, FX_ONE)` to `n` buckets lands in `[0, n)`.
proof fn lemma_frac_scale(f: int, n: int)
    by (nonlinear_arith)
    requires
        0 <= f < FX_ONE,
        1 <= n <= TEX_DIM_LIMIT,
    ensures
        0 <= f * n <= 0x1000_0000,
        0 <= f * n / (FX_ONE as int) < n,
{
}

impl TextureManager {
    /// Every held texture is well-formed.
    pub open spec fn wf(self) -> bool {
        &&& forall|i: int| 0 <= i < self.tex@.len() ==> (#[trigger] self.tex@[i]).1.wf()
        &&& self.sky is Some ==> self.sky->Some_0.wf()
        &&& self.ground is Some ==> self.ground->Some_0.wf()
    }

    pub fn new() -> (m: TextureManager)
        ensures
            m.wf(),
            m.tex@.len() == 0,
            m.sky is None,
            m.ground is None,
    {
        TextureManager { tex: Vec::new(), sky: None, ground: None }
    }

    /// Install `t` for tag `ch`, shadowing any earlier entry for it.
    pub fn insert(&mut self, ch: char, t: CpuTexture)
        requires
            old(self).wf(),
            t.wf(),
        ensures
            final(self).wf(),
            final(self).sky == old(self).sky,
            final(self).ground == old(self).ground,
            forall|c2: char|
                #[trigger] lookup(final(self).tex@, c2) == if c2 == ch {
                    Some(t)
                } else {
                    lookup(old(self).tex@, c2)
                },
    {
        self.tex.push((ch, t));
        proof {
            assert forall|c2: char| #[trigger] lookup(self.tex@, c2) == if c2 == ch {
                Some(t)
            } else {
                lookup(old(self).tex@, c2)
            } by {
                lemma_lookup_push(old(self).tex@, (ch, t), c2);
            }
        }
    }

    pub fn set_sky(&mut self, t: CpuTexture)
        requires
            old(self).wf(),
            t.wf(),
        ensures
            final(self).wf(),
            *final(self) == (TextureManager { sky: Some(t), ..*old(self) }),
    {
        self.sky = Some(t);
    }

    pub fn set_ground(&mut self, t: CpuTexture)
        requires
            old(self).wf(),
            t.wf(),
        ensures
            final(self).wf(),
            *final(self) == (TextureManager { ground: Some(t), ..*old(self) }),
    {
        self.ground = Some(t);
    }

    /// Install the generated placeholder for `ch`.
    pub fn insert_dummy(&mut self, ch: char)
        requires
            old(self).wf(),
        ensures
            final(self).wf(),
            final(self).sky == old(self).sky,
            final(self).ground == old(self).ground,
            forall|c2: char|
                c2 != ch ==> #[trigger] lookup(final(self).tex@, c2) == lookup(
                    old(self).tex@,
                    c2,
                ),
            lookup(final(self).tex@, ch) is Some,
            is_dummy_texture(lookup(final(self).tex@, ch)->Some_0),
    {
        let t = make_dummy_texture();
        self.insert(ch, t);
    }

    /// Install placeholders for the standard wall and sprite tags; stands in
    /// for assets until real ones are supplied.
    pub fn load_defaults(&mut self)
        requires
            old(self).wf(),
        ensures
            final(self).wf(),
            final(self).sky == old(self).sky,
            final(self).ground == old(self).ground,
            forall|c2: char|
                default_tag(c2) ==> (#[trigger] lookup(final(self).tex@, c2)) is Some
                    && is_dummy_texture(lookup(final(self).tex@, c2)->Some_0),
    {
        self.insert_dummy('+');
        self.insert_dummy('-');
        self.insert_dummy('|');
        self.insert_dummy('e');
        self.insert_dummy('f');
        self.insert_dummy('k');
        self.insert_dummy('p');
    }

    /// Size of the texture for `ch`, or `(1, 1)` when none is installed.
    pub fn get_size(&self, ch: char) -> (r: (u32, u32))
        requires
            self.wf(),
        ensures
            r == match lookup(self.tex@, ch) {
                Some(t) => (t.w, t.h),
                None => (1u32, 1u32),
            },
    {
        match self.find_tex(ch) {
            Some(t) => (t.w, t.h),
            None => (1, 1),
        }
    }

    /// Sample the texture for `ch` at `(tx, ty)`, clamping the coordinates.
    pub fn sample(&self, ch: char, tx: u32, ty: u32) -> (c: Color)
        requires
            self.wf(),
        ensures
            c == sample_spec(*self, ch, tx as int, ty as int),
    {
        proof {
            lemma_lookup_wf(self.tex@, ch);
        }
        match self.find_tex(ch) {
            Some(t) => {
                let x: u32 = if tx < t.w - 1 {
                    tx
                } else {
                    t.w - 1
                };
                let y: u32 = if ty < t.h - 1 {
                    ty
                } else {
                    t.h - 1
                };
                proof {
                    lemma_texel_in_range(*t, x as int, y as int);
                }
                let i: usize = 4 * ((y as usize) * (t.w as usize) + (x as usize));
                Color { r: t.pixels[i], g: t.pixels[i + 1], b: t.pixels[i + 2], a: t.pixels[i + 3] }
            },
            None => Color { r: 255, g: 0, b: 255, a: 255 },
        }
    }

    /// Sample the tileable sky at `(u, v)` (fixed-point fractions): `u`
    /// wraps, `v` clamps, with a vertical gradient as fallback.
    pub fn sample_sky(&self, u: i64, v: i64) -> (c: Color)
        requires
            self.wf(),
            -0x4000_0000_0000_0000 <= u <= 0x4000_0000_0000_0000,
        ensures
            c == sample_sky_spec(*self, u as int, v as int),
    {
        match &self.sky {
            Some(s) => {
                let wrapped: i64 = euclid_mod(u, FX_ONE);
                let t: i64 = clamp_fx(v, 0, FX_ONE);
                proof {
                    lemma_frac_scale(wrapped as int, s.w as int);
                    lemma_scale_full_range(t as int, s.h as int);
                }
                let uu: i64 = wrapped * (s.w as i64) / FX_ONE;
                let vv: i64 = t * (s.h as i64) / FX_ONE;
                if vv < s.h as i64 {
                    proof {
                        lemma_texel_in_range(*s, uu as int, vv as int);
                    }
                    let i: usize = 4 * ((vv as usize) * (s.w as usize) + (uu as usize));
                    Color {
                        r: s.pixels[i],
                        g: s.pixels[i + 1],
                        b: s.pixels[i + 2],
                        a: s.pixels[i + 3],
                    }
                } else {
                    sky_gradient(v)
                }
            },
            None => sky_gradient(v),
        }
    }

    /// Sample the tileable ground at `(u, v)`: both coordinates wrap.
    pub fn sample_ground(&self, u: i64, v: i64) -> (c: Color)
        requires
            self.wf(),
            -0x4000_0000_0000_0000 <= u <= 0x4000_0000_0000_0000,
            -0x4000_0000_0000_0000 <= v <= 0x4000_0000_0000_0000,
        ensures
            c == sample_ground_spec(*self, u as int, v as int),
    {
        match &self.ground {
            Some(g) => {
                let wu: i64 = euclid_mod(u, FX_ONE);
                let wv: i64 = euclid_mod(v, FX_ONE);
                proof {
                    lemma_frac_scale(wu as int, g.w as int);
                    lemma_frac_scale(wv as int, g.h as int);
                }
                let uu: i64 = wu * (g.w as i64) / FX_ONE;
                let vv: i64 = wv * (g.h as i64) / FX_ONE;
                proof {
                    lemma_texel_in_range(*g, uu as int, vv as int);
                }
                let i: usize = 4 * ((vv as usize) * (g.w as usize) + (uu as usize));
                Color { r: g.pixels[i], g: g.pixels[i + 1], b: g.pixels[i + 2], a: g.pixels[i + 3] }
            },
            None => Color { r: 40, g: 40, b: 60, a: 255 },
        }
    }

    /// The most recently inserted entry for `ch`.
    #[verifier::loop_isolation(false)]
    fn find_tex(&self, ch: char) -> (r: Option<&CpuTexture>)
        ensures
            match r {
                Some(t) => lookup(self.tex@, ch) == Some(*t),
                None => lookup(self.tex@, ch) is None,
            },
    {
        let mut i: usize = self.tex.len();
        proof {
            assert(self.tex@.subrange(0, self.tex.len() as int) =~= self.tex@);
        }
        while i > 0
            invariant
                i <= self.tex.len(),
                lookup(self.tex@, ch) == lookup(self.tex@.subrange(0, i as int), ch),
            decreases i,
        {
            i = i - 1;
            proof {
                assert(self.tex@.subrange(0, i + 1).last() == self.tex@[i as int]);
                assert(self.tex@.subrange(0, i + 1).drop_last() =~= self.tex@.subrange(
                    0,
                    i as int,
                ));
            }
            if self.tex[i].0 == ch {
                return Some(&self.tex[i].1);
            }
        }
        proof {
            assert(self.tex@.subrange(0, 0).len() == 0);
        }
        None
    }
}

/// The sky gradient as executable code.
fn sky_gradient(v: i64) -> (c: Color)
    ensures
        c == sky_gradient_spec(v as int),
{
    let t: i64 = clamp_fx(v, 0, FX_ONE);
    let r: i64 = (30 * FX_ONE + 50 * (FX_ONE - t)) / FX_ONE;
    let g: i64 = (50 * FX_ONE + 80 * (FX_ONE - t)) / FX_ONE;
    let b: i64 = (120 * FX_ONE + 80 * t) / FX_ONE;
    Color { r: r as u8, g: g as u8, b: b as u8, a: 255 }
}

/// A texel with clamped in-range coordinates lies within the byte buffer.
proof fn lemma_texel_in_range(t: CpuTexture, x: int, y: int)
    by (nonlinear_arith)
    requires
        t.wf(),
        0 <= x < t.w,
        0 <= y < t.h,
    ensures
        0 <= 4 * (y * t.w + x),
        4 * (y * t.w + x) + 3 < t.pixels.len(),
{
}

/// Scaling a clamped fraction in `[0, FX_ONE]` to `n` buckets lands in
/// `[0, n]`.
proof fn lemma_scale_full_range(f: int, n: int)
    by (nonlinear_arith)
    requires
        0 <= f <= FX_ONE,
        1 <= n <= TEX_DIM_LIMIT,
    ensures
        0 <= f * n <= 0x1000_0000,
        0 <= f * n / (FX_ONE as int) <= n,
{
}

/// The standard wall and sprite tags that `load_defaults` covers.
pub open spec fn default_tag(c: char) -> bool {
    c == '+' || c == '-' || c == '|' || c == 'e' || c == 'f' || c == 'k' || c == 'p'
}

/// Build the checkerboard placeholder texture.
#[verifier::loop_isolation(false)]
fn make_dummy_texture() -> (t: CpuTexture)
    ensures
        t.wf(),
        is_dummy_texture(t),
{
    let side: u32 = DUMMY_SIDE;
    let n: usize = (side as usize) * (side as usize);
    let mut pixels: Vec<u8> = Vec::new();
    let mut p: usize = 0;
    while p < n
        invariant
            p <= n,
            n == DUMMY_SIDE * DUMMY_SIDE,
            pixels.len() == 4 * p,
            forall|j: int| 0 <= j < pixels.len() ==> pixels@[j] == dummy_byte(j),
        decreases n - p,
    {
        let x: usize = p % (side as usize);
        let y: usize = p / (side as usize);
        let bright: bool = (x / 8 + y / 8) % 2 == 0;
        let r: u8 = if bright {
            255
        } else {
            0
        };
        let g: u8 = 0;
        let b: u8 = if bright {
            255
        } else {
            0
        };
        pixels.push(r);
        pixels.push(g);
        pixels.push(b);
        pixels.push(255);
        proof {
            lemma_texel_bytes(p as int, x as int, y as int);
            assert forall|j: int| 0 <= j < pixels.len() implies pixels@[j] == dummy_byte(j) by {
                if j >= 4 * p {
                    assert(j == 4 * p || j == 4 * p + 1 || j == 4 * p + 2 || j == 4 * p + 3);
                }
            }
        }
        p += 1;
    }
    CpuTexture { w: side, h: side, pixels }
}

/// Relates a texel index to its byte indices and grid coordinates.
proof fn lemma_texel_bytes(p: int, x: int, y: int)
    by (nonlinear_arith)
    requires
        0 <= p,
        x == p % (DUMMY_SIDE as int),
        y == p / (DUMMY_SIDE as int),
    ensures
        (4 * p + 0) / 4 == p && (4 * p + 0) % 4 == 0,
        (4 * p + 1) / 4 == p && (4 * p + 1) % 4 == 1,
        (4 * p + 2) / 4 == p && (4 * p + 2) % 4 == 2,
        (4 * p + 3) / 4 == p && (4 * p + 3) % 4 == 3,
        0 <= x < DUMMY_SIDE,
        0 <= y,
{
}

/// Source texel layout of an imported image; compressed or exotic layouts
/// are not importable and fall back to the placeholder path.
#[derive(Clone, Copy, PartialEq, Eq, Structural, Debug)]
pub enum PixelKind {
    Rgba8,
    Rgb8,
    Gray8,
    GrayAlpha8,
    Unsupported,
}

pub open spec fn bpp_spec(k: PixelKind) -> int {
    match k {
        PixelKind::Rgba8 => 4,
        PixelKind::Rgb8 => 3,
        PixelKind::GrayAlpha8 => 2,
        PixelKind::Gray8 => 1,
        PixelKind::Unsupported => 4,
    }
}

/// Bytes per source texel.
pub fn bpp(k: PixelKind) -> (r: usize)
    ensures
        r == bpp_spec(k),
{
    match k {
        PixelKind::Rgba8 => 4,
        PixelKind::Rgb8 => 3,
        PixelKind::GrayAlpha8 => 2,
        PixelKind::Gray8 => 1,
        PixelKind::Unsupported => 4,
    }
}

/// Byte `j` of the RGBA8 normalization of raw texel data in layout `k`:
/// missing color channels replicate the gray value, a missing alpha channel
/// becomes fully opaque.
pub open spec fn decoded_byte(k: PixelKind, data: Seq<u8>, j: int) -> u8 {
    let p = j / 4;
    let c = j % 4;
    match k {
        PixelKind::Rgba8 => data[4 * p + c],
        PixelKind::Rgb8 => if c < 3 {
            data[3 * p + c]
        } else {
            255
        },
        PixelKind::Gray8 => if c < 3 {
            data[p]
        } else {
            255
        },
        PixelKind::GrayAlpha8 => if c < 3 {
            data[2 * p]
        } else {
            data[2 * p + 1]
        },
        PixelKind::Unsupported => 0,
    }
}

/// Byte indices of texel `p` map back to `(p, channel)`.
proof fn lemma_byte_slots(p: int)
    by (nonlinear_arith)
    requires
        0 <= p,
    ensures
        (4 * p + 0) / 4 == p && (4 * p + 0) % 4 == 0,
        (4 * p + 1) / 4 == p && (4 * p + 1) % 4 == 1,
        (4 * p + 2) / 4 == p && (4 * p + 2) % 4 == 2,
        (4 * p + 3) / 4 == p && (4 * p + 3) % 4 == 3,
{
}

/// Import raw texel data into normalized RGBA8 form. Returns `None` exactly
/// when the layout is unsupported, a side is out of range, or the data
/// length does not match the layout; such an image is replaced by the
/// placeholder elsewhere, never an error.
#[verifier::loop_isolation(false)]
pub fn to_cpu_texture(kind: PixelKind, w: u32, h: u32, data: &Vec<u8>) -> (r: Option<CpuTexture>)
    ensures
        r is Some <==> (kind != PixelKind::Unsupported && 1 <= w <= TEX_DIM_LIMIT && 1 <= h
            <= TEX_DIM_LIMIT && data.len() == bpp_spec(kind) * w * h),
        r is Some ==> ({
            let t = r->Some_0;
            &&& t.wf()
            &&& t.w == w
            &&& t.h == h
            &&& forall|j: int|
                0 <= j < t.pixels.len() ==> t.pixels@[j] == decoded_byte(kind, data@, j)
        }),
{
    if matches!(kind, PixelKind::Unsupported) {
        return None;
    }
    if w < 1 || w > TEX_DIM_LIMIT || h < 1 || h > TEX_DIM_LIMIT {
        return None;
    }
    proof {
        assert((w as int) * (h as int) <= (TEX_DIM_LIMIT as int) * (
        TEX_DIM_LIMIT as int)) by (nonlinear_arith)
            requires
                w <= TEX_DIM_LIMIT,
                h <= TEX_DIM_LIMIT,
        ;
    }
    let n: usize = (w as usize) * (h as usize);
    let b: usize = bpp(kind);
    proof {
        assert((b as int) * (n as int) == bpp_spec(kind) * (w as int) * (h as int) && (b as int) * (
        n as int) <= 0x400_0000_0) by (nonlinear_arith)
            requires
                n == (w as int) * (h as int),
                b == bpp_spec(kind),
                1 <= b <= 4,
                n <= 0x100_0000,
        ;
        assert(bpp_spec(kind) * (w as int) * (h as int) == bpp_spec(kind) * ((w as int) * (
        h as int))) by (nonlinear_arith);
    }
    if data.len() != b * n {
        return None;
    }
    let mut pixels: Vec<u8> = Vec::new();
    let mut p: usize = 0;
    while p < n
        invariant
            p <= n,
            pixels.len() == 4 * p,
            forall|j: int| 0 <= j < pixels.len() ==> pixels@[j] == decoded_byte(kind, data@, j),
        decreases n - p,
    {
        proof {
            lemma_byte_slots(p as int);
            assert((p + 1) * (b as int) <= n * (b as int) && (p as int) * (b as int) + b == (p + 1)
                * (b as int)) by (nonlinear_arith)
                requires
                    p < n,
                    b >= 1,
            ;
        }
        match kind {
            PixelKind::Rgba8 => {
                pixels.push(data[4 * p]);
                pixels.push(data[4 * p + 1]);
                pixels.push(data[4 * p + 2]);
                pixels.push(data[4 * p + 3]);
            },
            PixelKind::Rgb8 => {
                pixels.push(data[3 * p]);
                pixels.push(data[3 * p + 1]);
                pixels.push(data[3 * p + 2]);
                pixels.push(255);
            },
            PixelKind::Gray8 => {
                pixels.push(data[p]);
                pixels.push(data[p]);
                pixels.push(data[p]);
                pixels.push(255);
            },
            PixelKind::GrayAlpha8 => {
                pixels.push(data[2 * p]);
                pixels.push(data[2 * p]);
                pixels.push(data[2 * p]);
                pixels.push(data[2 * p + 1]);
            },
            PixelKind::Unsupported => {
                return None;
            },
        }
        proof {
            assert forall|j: int| 0 <= j < pixels.len() implies pixels@[j] == decoded_byte(
                kind,
                data@,
                j,
            ) by {
                if j >= 4 * p {
                    assert(j == 4 * p || j == 4 * p + 1 || j == 4 * p + 2 || j == 4 * p + 3);
                }
            }
        }
        p += 1;
    }
    proof {
        assert(4 * (w as int) * (h as int) == 4 * n) by (nonlinear_arith)
            requires
                n == (w as int) * (h as int),
        ;
    }
    Some(CpuTexture { w, h, pixels })
}

/// Install the RGBA8 normalization of raw texel data for `ch`, or the
/// generated placeholder when the data cannot be imported: a missing or
/// malformed asset degrades to a visibly distinct texture, never an error.
impl TextureManager {
    pub fn install_or_dummy(&mut self, ch: char, kind: PixelKind, w: u32, h: u32, data: &Vec<u8>)
        requires
            old(self).wf(),
        ensures
            final(self).wf(),
            final(self).sky == old(self).sky,
            final(self).ground == old(self).ground,
            forall|c2: char|
                c2 != ch ==> #[trigger] lookup(final(self).tex@, c2) == lookup(
                    old(self).tex@,
                    c2,
                ),
            lookup(final(self).tex@, ch) is Some,
            ({
                let t = lookup(final(self).tex@, ch)->Some_0;
                if kind != PixelKind::Unsupported && 1 <= w <= TEX_DIM_LIMIT && 1 <= h
                    <= TEX_DIM_LIMIT && data.len() == bpp_spec(kind) * w * h {
                    &&& t.w == w
                    &&& t.h == h
                    &&& forall|j: int|
                        0 <= j < t.pixels.len() ==> t.pixels@[j] == decoded_byte(kind, data@, j)
                } else {
                    is_dummy_texture(t)
                }
            }),
    {
        match to_cpu_texture(kind, w, h, data) {
            Some(t) => {
                self.insert(ch, t);
            },
            None => {
                self.insert_dummy(ch);
            },
        }
    }
}

/// Law: the tileable samplers are wrap-invariant. Shifting `u` (and for the
/// ground also `v`) by any whole number of texture widths leaves the sample
/// unchanged.
pub proof fn lemma_sample_wrap_invariant(m: TextureManager, u: int, v: int, k: int, j: int)
    ensures
        sample_ground_spec(m, u + k * (FX_ONE as int), v + j * (FX_ONE as int))
            == sample_ground_spec(m, u, v),
        sample_sky_spec(m, u + k * (FX_ONE as int), v) == sample_sky_spec(m, u, v),
{
    lemma_mod_multiples_vanish_both(u, k);
    lemma_mod_multiples_vanish_both(v, j);
}

/// Adding a multiple of the modulus does not change a Euclidean remainder.
proof fn lemma_mod_multiples_vanish_both(a: int, k: int)
    by (nonlinear_arith)
    ensures
        (a + k * (FX_ONE as int)) % (FX_ONE as int) == a % (FX_ONE as int),
{
}

} // verus!

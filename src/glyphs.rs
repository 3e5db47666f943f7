//! Glyph buffers, writing them in a line, and the cache of D'ni numerals.
use vstd::prelude::*;

use crate::buf2d::{GridView, Vec2d};
use crate::colors::{channels, Color, BG, FG};

verus! {

/// A glyph rendered to pixels.
pub type GlyphBuffer = Vec2d<Color>;

/// The brightness of a color: the sum of its red, green and blue channels.
pub open spec fn brightness(c: Color) -> int {
    channels(c).0 as int + channels(c).1 as int + channels(c).2 as int
}

/// A pixel is somewhat transparent when it is darker than the foreground by
/// more than 100 (out of 255) on average over its channels.
pub open spec fn somewhat_transparent(c: Color) -> bool {
    brightness(FG) - brightness(c) > 100 * 3
}

/// The predicate that composing glyphs tests destination pixels with.
pub open spec fn transparent_pixels() -> spec_fn(Color) -> bool {
    |c: Color| somewhat_transparent(c)
}

/// A simple wrapper over a buffer. It lets you write glyphs in a row.
pub struct TextBuffer {
    /// The buffer being written into.
    pub buf: GlyphBuffer,
    /// Where the next glyph should start, horizontally.
    pub x: usize,
    /// The top of the line of text (for the next glyph). The glyph is centered
    /// vertically if it's shorter than the line height, however.
    pub y: usize,
    /// The line height.
    pub height: usize,
}

impl TextBuffer {
    /// The row where the top of `glyph` goes: centered in the line.
    pub open spec fn glyph_top(self, glyph: GridView<Color>) -> int {
        self.y + (self.height - glyph.height()) / 2
    }

    /// `glyph` fits at the cursor, centered in the line.
    pub open spec fn can_write(self, glyph: GridView<Color>) -> bool {
        &&& self.buf@.wf()
        &&& glyph.wf()
        &&& glyph.height() <= self.height
        &&& self.buf@.fits(self.x as int, self.glyph_top(glyph), glyph)
    }

    /// Create a new empty one. It won't work in this state.
    pub fn new() -> (r: Self)
        ensures
            r.buf@.width == 0,
            r.buf@.cells.len() == 0,
            r.x == 0,
            r.y == 0,
            r.height == 0,
    {
        TextBuffer { buf: Vec2d::default(), x: 0, y: 0, height: 0 }
    }

    /// Writes a glyph and advances by its width.
    pub fn write_glyph(&mut self, glyph: &GlyphBuffer)
        requires
            old(self).can_write(glyph@),
        ensures
            final(self).buf@ == old(self).buf@.pasted(
                old(self).x as int,
                old(self).glyph_top(glyph@),
                glyph@,
            ),
            final(self).x == old(self).x + glyph@.width,
            final(self).y == old(self).y,
            final(self).height == old(self).height,
    {
        self._write_glyph::<false>(glyph)
    }

    /// Writes a glyph and advances by its width, only overwriting pixels that
    /// are somewhat transparent (so that it composes with the previous glyph).
    pub fn write_glyph_composing(&mut self, glyph: &GlyphBuffer)
        requires
            old(self).can_write(glyph@),
        ensures
            final(self).buf@ == old(self).buf@.pasted_if(
                old(self).x as int,
                old(self).glyph_top(glyph@),
                glyph@,
                transparent_pixels(),
            ),
            final(self).x == old(self).x + glyph@.width,
            final(self).y == old(self).y,
            final(self).height == old(self).height,
    {
        self._write_glyph::<true>(glyph)
    }

    fn _write_glyph<const COMPOSE: bool>(&mut self, glyph: &GlyphBuffer)
        requires
            old(self).can_write(glyph@),
        ensures
            final(self).buf@ == if COMPOSE {
                old(self).buf@.pasted_if(
                    old(self).x as int,
                    old(self).glyph_top(glyph@),
                    glyph@,
                    transparent_pixels(),
                )
            } else {
                old(self).buf@.pasted(old(self).x as int, old(self).glyph_top(glyph@), glyph@)
            },
            final(self).x == old(self).x + glyph@.width,
            final(self).y == old(self).y,
            final(self).height == old(self).height,
    {
        let height_diff = self.height - glyph.height();
        proof {
            self.buf.lemma_bounds();
        }
        let centered_y = self.y + height_diff / 2;
        if COMPOSE {
            self.buf.copy_to_from_if(
                self.x,
                centered_y,
                glyph,
                Self::pixel_is_somewhat_transparent,
            );
        } else {
            self.buf.copy_to_from(self.x, centered_y, glyph);
        }
        self.x += glyph.width();
    }

    /// Whether the pixel should be considered transparent against a background
    /// of `BG` (i.e., should be overwritten, when composing glyphs). This
    /// relies on `BG` being black.
    pub fn pixel_is_somewhat_transparent(px: Color) -> (r: bool)
        ensures
            r == somewhat_transparent(px),
    {
        let fg_rgb_sum = Self::sum_rgb(FG);
        let threshold: u16 = 100;
        fg_rgb_sum - Self::sum_rgb(px) > threshold * 3
    }

    /// Adds the red, green, and blue components.
    fn sum_rgb(color: Color) -> (r: u16)
        ensures
            r == brightness(color),
    {
        let (r, g, b) = crate::colors::to_u8_rgb(color);
        r as u16 + g as u16 + b as u16
    }
}

/// The ASCII codes of the characters that stand for the D'ni digits 0 to 24 in the D'ni
/// font, followed by one spare.
pub open spec fn dni_chars() -> Seq<u8> {
    seq![
        // 0 1 2 3 4 5 6 7 8 9
        48, 49, 50, 51, 52, 53, 54, 55, 56, 57,
        // ) ! @ # $ % ^ & * (
        41, 33, 64, 35, 36, 37, 94, 38, 42, 40,
        // [ ] \ { } |
        91, 93, 92, 123, 125, 124,
    ]
}

/// Converts a number to the ASCII character that stands for a single D'ni
/// digit.
pub fn n_to_dni(n: u8) -> (c: u8)
    requires
        n < 26,
    ensures
        c == dni_chars()[n as int],
{
    let digits: [u8; 26] = [
        // 0 1 2 3 4 5 6 7 8 9
        48, 49, 50, 51, 52, 53, 54, 55, 56, 57,
        // ) ! @ # $ % ^ & * (
        41, 33, 64, 35, 36, 37, 94, 38, 42, 40,
        // [ ] \ { } |
        91, 93, 92, 123, 125, 124,
    ];
    assert(digits@ == dni_chars());
    digits[n as usize]
}

/// The number of D'ni digits.
pub const DIGITS: usize = 25;

/// The number of two-digit numerals that are cached (00 to 59).
pub const NUMERALS: usize = 60;

/// The models of a sequence of buffers.
pub open spec fn views(v: Seq<GlyphBuffer>) -> Seq<GridView<Color>> {
    Seq::new(v.len(), |i: int| v[i]@)
}

/// A set of rendered digits: 25 complete glyphs of one height, each small
/// enough that two of them side by side fit in memory.
pub open spec fn digits_ok(digits: Seq<GridView<Color>>, overlap: nat) -> bool {
    &&& digits.len() == DIGITS
    &&& forall|i: int|
        0 <= i < DIGITS ==> {
            &&& (#[trigger] digits[i]).wf()
            &&& digits[i].height() == digits[0].height()
            &&& digits[i].width <= usize::MAX / 2
            &&& digits[i].cells.len() <= usize::MAX / 2
        }
}

/// The numeral `n` can be composed: both of its digits are at least
/// `overlap` wide, so that the ones digit can move left by `overlap` and the
/// tens digit still fits in the result.
pub open spec fn composable(digits: Seq<GridView<Color>>, overlap: nat, n: int) -> bool {
    &&& overlap <= digits[n % 25].width
    &&& overlap <= digits[n / 25].width
}

/// A blank buffer of `width` by `height` background pixels.
pub open spec fn blank(width: nat, height: nat) -> GridView<Color> {
    GridView { cells: Seq::new(width * height, |i: int| BG), width }
}

/// The two-digit numeral `n`: its tens digit, then its ones digit moved left
/// by `overlap` pixels, each written only over somewhat transparent pixels.
pub open spec fn composed(digits: Seq<GridView<Color>>, overlap: nat, n: int) -> GridView<Color> {
    let ones = digits[n % 25];
    let tens = digits[n / 25];
    let width = (tens.width + ones.width - overlap) as nat;
    let height = ones.height();
    blank(width, height).pasted_if(0, 0, tens, transparent_pixels()).pasted_if(
        tens.width - overlap,
        0,
        ones,
        transparent_pixels(),
    )
}

/// The rendered glyphs that the clock face is drawn from.
pub struct Glyphs {
    cache: Cache,
}

struct Cache {
    /// How many pixels the "walls" of consecutive digits overlap
    overlap: usize,
    /// The digits 0-24
    dni_digits: Vec<GlyphBuffer>,
    /// Numerals from 00-59, padded to two digits, filled in when first asked for
    dni_numerals: Vec<Option<GlyphBuffer>>,
    /// ASCII colon `':'`
    colon: GlyphBuffer,
}

impl Glyphs {
    pub closed spec fn digits(self) -> Seq<GridView<Color>> {
        views(self.cache.dni_digits@)
    }

    pub closed spec fn overlap(self) -> nat {
        self.cache.overlap as nat
    }

    pub closed spec fn colon(self) -> GridView<Color> {
        self.cache.colon@
    }

    /// The numeral cached for `n`, if it was composed already.
    pub closed spec fn cached(self, n: int) -> Option<GridView<Color>> {
        match self.cache.dni_numerals@[n] {
            Some(b) => Some(b@),
            None => None,
        }
    }

    pub closed spec fn wf(self) -> bool {
        &&& digits_ok(self.digits(), self.overlap())
        &&& self.cache.colon@.wf()
        &&& self.cache.dni_numerals@.len() == NUMERALS
        &&& forall|n: int|
            0 <= n < NUMERALS && (#[trigger] self.cached(n)).is_some() ==> self.cached(n)
                == Some(composed(self.digits(), self.overlap(), n))
    }

    /// Whether the numeral `n` can be composed from these digits.
    pub fn can_compose(&self, n: u8) -> (r: bool)
        requires
            self.wf(),
            n < NUMERALS,
        ensures
            r == composable(self.digits(), self.overlap(), n as int),
    {
        let ones = &self.cache.dni_digits[(n % 25) as usize];
        let tens = &self.cache.dni_digits[(n / 25) as usize];
        assert(self.digits()[n as int % 25] == ones@ && self.digits()[n as int / 25] == tens@);
        self.cache.overlap <= ones.width() && self.cache.overlap <= tens.width()
    }

    /// Builds the glyph set from the rendered digits 0-24 and colon, with
    /// the given overlap between the digits of a numeral. No numeral is
    /// composed yet. Returns `None` unless the digits are 25 complete glyphs
    /// of one height and the colon is complete.
    pub fn from_rendered(overlap: usize, dni_digits: Vec<GlyphBuffer>, colon: GlyphBuffer) -> (r:
        Option<Self>)
        ensures
            r.is_some() <==> digits_ok(views(dni_digits@), overlap as nat) && colon@.wf(),
            r matches Some(g) ==> {
                &&& g.wf()
                &&& g.digits() == views(dni_digits@)
                &&& g.overlap() == overlap
                &&& g.colon() == colon@
                &&& forall|n: int| 0 <= n < NUMERALS ==> (#[trigger] g.cached(n)).is_none()
            },
    {
        if dni_digits.len() != DIGITS || !colon.is_wf() {
            return None;
        }
        let ghost ds = views(dni_digits@);
        let mut i: usize = 0;
        while i < DIGITS
            invariant
                dni_digits@.len() == DIGITS,
                ds == views(dni_digits@),
                i <= DIGITS,
                forall|j: int|
                    0 <= j < i ==> {
                        &&& (#[trigger] ds[j]).wf()
                        &&& ds[j].height() == ds[0].height()
                        &&& ds[j].width <= usize::MAX / 2
                        &&& ds[j].cells.len() <= usize::MAX / 2
                    },
            decreases DIGITS - i,
        {
            let d = &dni_digits[i];
            assert(ds[i as int] == d@ && ds[0] == dni_digits@[0]@);
            if !d.is_wf() || d.width() > usize::MAX / 2 || d.as_1d().len() > usize::MAX / 2 {
                return None;
            }
            if d.height() != dni_digits[0].height() {
                return None;
            }
            i += 1;
        }
        let mut dni_numerals: Vec<Option<GlyphBuffer>> = Vec::new();
        let mut k: usize = 0;
        while k < NUMERALS
            invariant
                k <= NUMERALS,
                dni_numerals@.len() == k,
                forall|n: int| 0 <= n < k ==> (#[trigger] dni_numerals@[n]).is_none(),
            decreases NUMERALS - k,
        {
            dni_numerals.push(None);
            k += 1;
        }
        Some(Glyphs { cache: Cache { overlap, dni_digits, dni_numerals, colon } })
    }

    /// Get a single-digit numeral (0-24)
    pub fn get_dni_number_one_digit(&self, n: u8) -> (r: &GlyphBuffer)
        requires
            self.wf(),
            n < DIGITS,
        ensures
            r@ == self.digits()[n as int],
    {
        &self.cache.dni_digits[n as usize]
    }

    /// Get a colon (`':'`) glyph
    pub fn get_colon(&self) -> (r: &GlyphBuffer)
        ensures
            r@ == self.colon(),
    {
        &self.cache.colon
    }

    /// Get a numeral, padded to two digits (00-59), composing it on the first
    /// request and keeping it for the later ones.
    pub fn get_dni_number_two_digits(&mut self, n: u8) -> (r: &GlyphBuffer)
        requires
            old(self).wf(),
            n < NUMERALS,
            composable(old(self).digits(), old(self).overlap(), n as int),
        ensures
            r@ == composed(old(self).digits(), old(self).overlap(), n as int),
            final(self).wf(),
            final(self).digits() == old(self).digits(),
            final(self).overlap() == old(self).overlap(),
            final(self).colon() == old(self).colon(),
            final(self).cached(n as int) == Some(r@),
            forall|m: int|
                0 <= m < NUMERALS && m != n ==> #[trigger] final(self).cached(m) == old(
                    self,
                ).cached(m),
    {
        let ghost before = *self;
        let i = n as usize;
        if self.cache.dni_numerals[i].is_none() {
            let numeral = Cache::compose_numeral(self.cache.overlap, &self.cache.dni_digits, n);
            self.cache.dni_numerals.set(i, Some(numeral));
        }
        proof {
            assert forall|m: int|
                0 <= m < NUMERALS && (#[trigger] self.cached(m)).is_some() implies self.cached(m)
                == Some(composed(self.digits(), self.overlap(), m)) by {
                if m != n {
                    assert(self.cached(m) == before.cached(m));
                }
            }
        }
        assert(self.cached(n as int) == Some(composed(self.digits(), self.overlap(), n as int)));
        match &self.cache.dni_numerals[i] {
            Some(numeral) => numeral,
            None => &self.cache.colon,
        }
    }
}

impl Cache {
    /// Composes the two-digit D'ni numeral `n`: the tens digit, then the ones
    /// digit overlapping it by `overlap` pixels.
    fn compose_numeral(overlap: usize, dni_digits: &Vec<GlyphBuffer>, n: u8) -> (r: GlyphBuffer)
        requires
            digits_ok(views(dni_digits@), overlap as nat),
            n < NUMERALS,
            composable(views(dni_digits@), overlap as nat, n as int),
        ensures
            r@ == composed(views(dni_digits@), overlap as nat, n as int),
            r@.wf(),
            r@.height() == dni_digits@[n as int % 25]@.height(),
            r@.width == dni_digits@[n as int / 25]@.width + dni_digits@[n as int % 25]@.width - overlap,
    {
        let ghost ds = views(dni_digits@);
        let digit1 = n % 25;
        let digit2 = n / 25;
        let digit1_buf = &dni_digits[digit1 as usize];
        let digit2_buf = &dni_digits[digit2 as usize];
        assert(ds[digit1 as int] == digit1_buf@ && ds[digit2 as int] == digit2_buf@);
        let w1 = digit1_buf.width();
        let w2 = digit2_buf.width();
        let height = digit1_buf.height();
        let width = w1 + w2 - overlap;
        proof {
            crate::buf2d::lemma_height_bound(digit1_buf@);
            crate::buf2d::lemma_height_bound(digit2_buf@);
            lemma_composed_size(digit1_buf@, digit2_buf@, overlap as nat);
        }
        let mut n_buf = TextBuffer { buf: Vec2d::new(BG, width, height), x: 0, y: 0, height };
        assert(n_buf.buf@ == blank(width as nat, height as nat));
        n_buf.write_glyph_composing(digit2_buf);
        n_buf.x -= overlap;
        n_buf.write_glyph_composing(digit1_buf);
        n_buf.buf
    }
}

/// Two digits of one height, each at least `overlap` wide, fit side by side
/// in a buffer whose size is a `usize`.
proof fn lemma_composed_size(d1: GridView<Color>, d2: GridView<Color>, overlap: nat)
    requires
        d1.wf(),
        d2.wf(),
        d1.height() == d2.height(),
        overlap <= d1.width,
        overlap <= d2.width,
        d1.cells.len() <= usize::MAX / 2,
        d2.cells.len() <= usize::MAX / 2,
        d1.width <= usize::MAX / 2,
        d2.width <= usize::MAX / 2,
    ensures
        (d1.width + d2.width - overlap) * d1.height() <= usize::MAX,
        d1.width + d2.width <= usize::MAX,
{
    let h = d1.height() as int;
    let w1 = d1.width as int;
    let w2 = d2.width as int;
    if w1 > 0 {
        vstd::arithmetic::div_mod::lemma_fundamental_div_mod(d1.cells.len() as int, w1);
    }
    if w2 > 0 {
        vstd::arithmetic::div_mod::lemma_fundamental_div_mod(d2.cells.len() as int, w2);
    }
    assert(d1.cells.len() == w1 * h);
    assert(d2.cells.len() == w2 * h);
    assert((w1 + w2 - overlap) * h <= w1 * h + w2 * h) by (nonlinear_arith)
        requires
            0 <= overlap <= w1,
            0 <= h,
    ;
}

/// A composed numeral is as tall as a single digit, and as wide as its two
/// digits side by side less the overlap.
pub proof fn lemma_composed_dimensions(digits: Seq<GridView<Color>>, overlap: nat, n: int)
    requires
        digits_ok(digits, overlap),
        0 <= n < NUMERALS,
        composable(digits, overlap, n),
    ensures
        composed(digits, overlap, n).wf(),
        composed(digits, overlap, n).height() == digits[n % 25].height(),
        composed(digits, overlap, n).width == digits[n / 25].width + digits[n % 25].width
            - overlap,
{
    let ones = digits[n % 25];
    let tens = digits[n / 25];
    assert(ones.wf() && tens.wf());
    let width = (tens.width + ones.width - overlap) as nat;
    let h = ones.height();
    let b = blank(width, h);
    if width > 0 {
        vstd::arithmetic::div_mod::lemma_fundamental_div_mod_converse(
            (width * h) as int,
            width as int,
            h as int,
            0,
        );
    } else {
        assert(ones.width == 0);
        assert(ones.cells.len() == 0);
    }
    assert(b.wf());
    assert(b.height() == h);
}

/// A numeral found in a valid cache is the one that composing it afresh
/// gives, so asking for it again returns the same pixels.
pub proof fn lemma_cache_hit(g: Glyphs, n: int)
    requires
        g.wf(),
        0 <= n < NUMERALS,
        g.cached(n).is_some(),
    ensures
        g.cached(n) == Some(composed(g.digits(), g.overlap(), n)),
{
}

/// Each pixel of a composed numeral: left of the overlap it is the tens
/// digit's; in the overlap the tens digit's ink stays and the ones digit is
/// drawn over its somewhat transparent pixels; right of the tens digit it is
/// the ones digit's.
pub proof fn lemma_composed_cell(
    digits: Seq<GridView<Color>>,
    overlap: nat,
    n: int,
    x: int,
    y: int,
)
    requires
        digits_ok(digits, overlap),
        0 <= n < NUMERALS,
        composable(digits, overlap, n),
        0 <= x < digits[n / 25].width + digits[n % 25].width - overlap,
        0 <= y < digits[n % 25].height(),
    ensures
        composed(digits, overlap, n).cell(x, y) == if x < digits[n / 25].width - overlap || (x
            < digits[n / 25].width && !somewhat_transparent(digits[n / 25].cell(x, y))) {
            digits[n / 25].cell(x, y)
        } else {
            digits[n % 25].cell(x - (digits[n / 25].width - overlap), y)
        },
{
    let ones = digits[n % 25];
    let tens = digits[n / 25];
    assert(ones.wf() && tens.wf());
    assert(tens.height() == digits[0].height());
    let width = (tens.width + ones.width - overlap) as nat;
    let h = ones.height();
    let b = blank(width, h);
    lemma_composed_dimensions(digits, overlap, n);
    if width > 0 {
        vstd::arithmetic::div_mod::lemma_fundamental_div_mod_converse(
            (width * h) as int,
            width as int,
            h as int,
            0,
        );
    }
    assert(b.wf() && b.height() == h);
    assert(b.in_bounds(x, y));
    let step = b.pasted_if(0, 0, tens, transparent_pixels());
    crate::buf2d::lemma_pasted_if_cell(b, 0, 0, tens, transparent_pixels(), x, y);
    crate::buf2d::lemma_index(b, x, y);
    assert(b.cell(x, y) == BG);
    assert(crate::colors::channels(BG) == (0u8, 0u8, 0u8));
    assert(crate::colors::channels(FG) == (255u8, 255u8, 255u8));
    assert(somewhat_transparent(BG));
    assert(step.wf() && step.width == width && step.cells.len() == b.cells.len());
    assert(step.in_bounds(x, y));
    crate::buf2d::lemma_pasted_if_cell(
        step,
        tens.width - overlap,
        0,
        ones,
        transparent_pixels(),
        x,
        y,
    );
}

} // verus!

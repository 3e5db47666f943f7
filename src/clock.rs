//! Laying out one frame of the clock face: hour, colon, minute, colon, second.
use vstd::prelude::*;

use crate::buf2d::{GridView, Vec2d};
use crate::colors::{Color, BG};
use crate::glyphs::{blank, composable, composed, GlyphBuffer, Glyphs, TextBuffer, DIGITS, NUMERALS};

verus! {

pub const WINDOW_WIDTH: usize = 300;

pub const WINDOW_HEIGHT: usize = 70;

pub const MARGIN: usize = 10;

pub const LINE_HEIGHT: usize = WINDOW_HEIGHT - MARGIN - MARGIN;

/// The glyphs fit one after the other in the line, the first at `x`.
pub open spec fn line_fits(x: int, glyphs: Seq<GridView<Color>>) -> bool
    decreases glyphs.len(),
{
    if glyphs.len() == 0 {
        true
    } else {
        &&& glyphs[0].wf()
        &&& glyphs[0].height() <= LINE_HEIGHT
        &&& x + glyphs[0].width <= WINDOW_WIDTH
        &&& line_fits(x + glyphs[0].width, glyphs.drop_first())
    }
}

/// The widths of the glyphs, added up.
pub open spec fn total_width(glyphs: Seq<GridView<Color>>) -> int
    decreases glyphs.len(),
{
    if glyphs.len() == 0 {
        0
    } else {
        glyphs[0].width + total_width(glyphs.drop_first())
    }
}

/// `buf` after the glyphs are written one after the other in the line, the
/// first at `x`, each centered vertically.
pub open spec fn written(buf: GridView<Color>, x: int, glyphs: Seq<GridView<Color>>) -> GridView<
    Color,
>
    decreases glyphs.len(),
{
    if glyphs.len() == 0 {
        buf
    } else {
        written(
            buf.pasted(x, MARGIN + (LINE_HEIGHT - glyphs[0].height()) / 2, glyphs[0]),
            x + glyphs[0].width,
            glyphs.drop_first(),
        )
    }
}

/// The glyphs of a frame showing `hour:minute:second`.
pub open spec fn frame_glyphs(g: Glyphs, hour: int, minute: int, second: int) -> Seq<
    GridView<Color>,
> {
    seq![
        g.digits()[hour],
        g.colon(),
        composed(g.digits(), g.overlap(), minute),
        g.colon(),
        composed(g.digits(), g.overlap(), second),
    ]
}

/// The line as `written` lays it out, at a cursor in a frame-sized buffer.
pub open spec fn in_line(t: TextBuffer) -> bool {
    &&& t.buf@.wf()
    &&& t.buf@.width == WINDOW_WIDTH
    &&& t.buf@.height() == WINDOW_HEIGHT
    &&& t.y == MARGIN
    &&& t.height == LINE_HEIGHT
    &&& t.x <= WINDOW_WIDTH
}

/// Writes `glyph` at the cursor if it fits in the line; returns whether it
/// did, and leaves the buffer as it was if not.
fn write_in_line(buffer: &mut TextBuffer, glyph: &GlyphBuffer) -> (ok: bool)
    requires
        in_line(*old(buffer)),
    ensures
        ok == line_fits(old(buffer).x as int, seq![glyph@]),
        ok ==> final(buffer).buf@ == old(buffer).buf@.pasted(
            old(buffer).x as int,
            MARGIN + (LINE_HEIGHT - glyph@.height()) / 2,
            glyph@,
        ),
        ok ==> final(buffer).x == old(buffer).x + glyph@.width,
        !ok ==> *final(buffer) == *old(buffer),
        in_line(*final(buffer)),
{
    proof {
        reveal_with_fuel(line_fits, 2);
        assert(seq![glyph@].drop_first() =~= Seq::<GridView<Color>>::empty());
    }
    if !glyph.is_wf() || glyph.height() > LINE_HEIGHT || glyph.width() > WINDOW_WIDTH - buffer.x {
        return false;
    }
    buffer.write_glyph(glyph);
    true
}

/// One unfolding of `line_fits` and `written`.
proof fn lemma_step(buf: GridView<Color>, x: int, glyphs: Seq<GridView<Color>>)
    requires
        glyphs.len() > 0,
    ensures
        line_fits(x, glyphs) == (line_fits(x, seq![glyphs[0]]) && line_fits(
            x + glyphs[0].width,
            glyphs.drop_first(),
        )),
        written(buf, x, glyphs) == written(
            buf.pasted(x, MARGIN + (LINE_HEIGHT - glyphs[0].height()) / 2, glyphs[0]),
            x + glyphs[0].width,
            glyphs.drop_first(),
        ),
        total_width(glyphs) == glyphs[0].width + total_width(glyphs.drop_first()),
{
    reveal_with_fuel(line_fits, 2);
    assert(seq![glyphs[0]].drop_first() =~= Seq::<GridView<Color>>::empty());
}

/// Lays out the frame for `hour:minute:second` (hour in D'ni digits 0-24,
/// minute and second as two-digit numerals), composing the numerals that are
/// not cached yet. Returns `None` if the glyphs don't fit in the window.
pub fn update_time(hour: u8, minute: u8, second: u8, glyphs: &mut Glyphs) -> (r: Option<
    TextBuffer,
>)
    requires
        old(glyphs).wf(),
        hour < DIGITS,
        minute < NUMERALS,
        second < NUMERALS,
        composable(old(glyphs).digits(), old(glyphs).overlap(), minute as int),
        composable(old(glyphs).digits(), old(glyphs).overlap(), second as int),
    ensures
        final(glyphs).wf(),
        final(glyphs).digits() == old(glyphs).digits(),
        final(glyphs).overlap() == old(glyphs).overlap(),
        final(glyphs).colon() == old(glyphs).colon(),
        r.is_some() <==> line_fits(
            MARGIN as int,
            frame_glyphs(*old(glyphs), hour as int, minute as int, second as int),
        ),
        r matches Some(t) ==> t.buf@ == written(
            blank(WINDOW_WIDTH as nat, WINDOW_HEIGHT as nat),
            MARGIN as int,
            frame_glyphs(*old(glyphs), hour as int, minute as int, second as int),
        ),
        r matches Some(t) ==> {
            &&& t.buf@.width == WINDOW_WIDTH
            &&& t.buf@.height() == WINDOW_HEIGHT
            &&& t.y == MARGIN
            &&& t.height == LINE_HEIGHT
            &&& t.x == MARGIN + total_width(
                frame_glyphs(*old(glyphs), hour as int, minute as int, second as int),
            )
        },
{
    let ghost gl = frame_glyphs(*glyphs, hour as int, minute as int, second as int);
    let ghost b0 = blank(WINDOW_WIDTH as nat, WINDOW_HEIGHT as nat);
    let mut buffer = TextBuffer {
        buf: Vec2d::new(BG, WINDOW_WIDTH, WINDOW_HEIGHT),
        x: MARGIN,
        y: MARGIN,
        height: LINE_HEIGHT,
    };
    assert(buffer.buf@ == b0);
    proof {
        lemma_step(b0, MARGIN as int, gl);
    }
    if !write_in_line(&mut buffer, glyphs.get_dni_number_one_digit(hour)) {
        return None;
    }
    assert(gl.drop_first() =~= gl.subrange(1, 5));
    proof {
        lemma_step(buffer.buf@, buffer.x as int, gl.subrange(1, 5));
        assert(gl.subrange(1, 5).drop_first() =~= gl.subrange(2, 5));
    }
    if !write_in_line(&mut buffer, glyphs.get_colon()) {
        return None;
    }
    proof {
        lemma_step(buffer.buf@, buffer.x as int, gl.subrange(2, 5));
        assert(gl.subrange(2, 5).drop_first() =~= gl.subrange(3, 5));
    }
    if !write_in_line(&mut buffer, glyphs.get_dni_number_two_digits(minute)) {
        return None;
    }
    proof {
        lemma_step(buffer.buf@, buffer.x as int, gl.subrange(3, 5));
        assert(gl.subrange(3, 5).drop_first() =~= gl.subrange(4, 5));
    }
    if !write_in_line(&mut buffer, glyphs.get_colon()) {
        return None;
    }
    proof {
        lemma_step(buffer.buf@, buffer.x as int, gl.subrange(4, 5));
        assert(gl.subrange(4, 5).drop_first() =~= Seq::<GridView<Color>>::empty());
        assert(total_width(Seq::<GridView<Color>>::empty()) == 0);
    }
    if !write_in_line(&mut buffer, glyphs.get_dni_number_two_digits(second)) {
        return None;
    }
    Some(buffer)
}

} // verus!

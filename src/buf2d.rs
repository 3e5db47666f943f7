//! A 2D buffer stored as one contiguous sequence.
use vstd::arithmetic::div_mod::lemma_fundamental_div_mod_converse;
use vstd::prelude::*;

verus! {

/// The mathematical model of a [`Vec2d`]: its elements in row-major order and
/// its width.
pub struct GridView<T> {
    pub cells: Seq<T>,
    pub width: nat,
}

impl<T> GridView<T> {
    /// Every row is complete; a zero width means no elements.
    pub open spec fn wf(self) -> bool {
        &&& (self.width == 0 ==> self.cells.len() == 0)
        &&& (self.width > 0 ==> (self.cells.len() as int) % (self.width as int) == 0)
    }

    pub open spec fn height(self) -> nat {
        if self.width == 0 {
            0
        } else {
            ((self.cells.len() as int) / (self.width as int)) as nat
        }
    }

    pub open spec fn in_bounds(self, x: int, y: int) -> bool {
        0 <= x < self.width && 0 <= y < self.height()
    }

    pub open spec fn index(self, x: int, y: int) -> int {
        y * self.width + x
    }

    pub open spec fn cell(self, x: int, y: int) -> T {
        self.cells[self.index(x, y)]
    }

    /// The grid with the element at `(x, y)` replaced by `v`.
    pub open spec fn updated(self, x: int, y: int, v: T) -> GridView<T> {
        GridView { cells: self.cells.update(self.index(x, y), v), width: self.width }
    }

    /// `src` fits into `self` with its top left corner at `(sx, sy)`.
    pub open spec fn fits(self, sx: int, sy: int, src: GridView<T>) -> bool {
        &&& 0 <= sx
        &&& 0 <= sy
        &&& sx + src.width <= self.width
        &&& sy + src.height() <= self.height()
    }

    /// `(x, y)` lies under `src` when its top left corner is at `(sx, sy)`.
    pub open spec fn covered(sx: int, sy: int, src: GridView<T>, x: int, y: int) -> bool {
        sx <= x < sx + src.width && sy <= y < sy + src.height()
    }

    /// The grid after `src` is copied onto it with its top left corner at
    /// `(sx, sy)`: every covered element comes from `src`, the others stay.
    pub open spec fn pasted(self, sx: int, sy: int, src: GridView<T>) -> GridView<T> {
        GridView {
            cells: Seq::new(
                self.cells.len(),
                |i: int|
                    {
                        let x = i % (self.width as int);
                        let y = i / (self.width as int);
                        if Self::covered(sx, sy, src, x, y) {
                            src.cell(x - sx, y - sy)
                        } else {
                            self.cells[i]
                        }
                    },
            ),
            width: self.width,
        }
    }

    /// Like `pasted`, but a covered element is replaced only where `keep_new`
    /// holds of its value before the copy.
    pub open spec fn pasted_if(
        self,
        sx: int,
        sy: int,
        src: GridView<T>,
        keep_new: spec_fn(T) -> bool,
    ) -> GridView<T> {
        GridView {
            cells: Seq::new(
                self.cells.len(),
                |i: int|
                    {
                        let x = i % (self.width as int);
                        let y = i / (self.width as int);
                        if Self::covered(sx, sy, src, x, y) && keep_new(self.cells[i]) {
                            src.cell(x - sx, y - sy)
                        } else {
                            self.cells[i]
                        }
                    },
            ),
            width: self.width,
        }
    }
}

/// The position `(x, y)` of a valid grid has an index in range, from which
/// `x` and `y` can be read back.
pub proof fn lemma_index<T>(g: GridView<T>, x: int, y: int)
    requires
        g.wf(),
        g.in_bounds(x, y),
    ensures
        0 <= g.index(x, y) < g.cells.len(),
        g.index(x, y) % (g.width as int) == x,
        g.index(x, y) / (g.width as int) == y,
{
    let w = g.width as int;
    let h = g.height() as int;
    lemma_fundamental_div_mod_converse(g.index(x, y), w, y, x);
    assert(g.cells.len() == h * w) by {
        vstd::arithmetic::div_mod::lemma_fundamental_div_mod(g.cells.len() as int, w);
    }
    assert(y * w + x < h * w) by (nonlinear_arith)
        requires
            0 <= x < w,
            0 <= y < h,
    ;
    assert(0 <= y * w) by (nonlinear_arith)
        requires
            0 <= y,
            0 <= w,
    ;
}

/// The height of a grid is at most its number of elements.
pub proof fn lemma_height_bound<T>(g: GridView<T>)
    ensures
        g.height() <= g.cells.len(),
{
    if g.width > 0 {
        vstd::arithmetic::div_mod::lemma_div_is_ordered_by_denominator(
            g.cells.len() as int,
            1,
            g.width as int,
        );
    }
}

/// Every index of a valid grid is the index of a position in bounds.
proof fn lemma_position<T>(g: GridView<T>, i: int)
    requires
        g.wf(),
        0 <= i < g.cells.len(),
    ensures
        g.width > 0,
        g.in_bounds(i % (g.width as int), i / (g.width as int)),
        g.index(i % (g.width as int), i / (g.width as int)) == i,
{
    let w = g.width as int;
    vstd::arithmetic::div_mod::lemma_fundamental_div_mod(i, w);
    vstd::arithmetic::div_mod::lemma_div_is_ordered(i, g.cells.len() as int, w);
    vstd::arithmetic::div_mod::lemma_fundamental_div_mod(g.cells.len() as int, w);
    let y = i / w;
    let h = g.cells.len() as int / w;
    if y >= h {
        assert(y * w >= h * w) by (nonlinear_arith)
            requires
                y >= h,
                w > 0,
        ;
    }
    assert(0 <= y) by {
        vstd::arithmetic::div_mod::lemma_div_pos_is_pos(i, w);
    }
}

/// Two valid grids of one width and one length that agree at every position
/// are the same grid.
pub proof fn lemma_ext<T>(a: GridView<T>, b: GridView<T>)
    requires
        a.wf(),
        b.wf(),
        a.width == b.width,
        a.cells.len() == b.cells.len(),
        forall|x: int, y: int| a.in_bounds(x, y) ==> #[trigger] a.cell(x, y) == b.cell(x, y),
    ensures
        a == b,
{
    assert forall|i: int| 0 <= i < a.cells.len() implies a.cells[i] == b.cells[i] by {
        lemma_position(a, i);
        let x = i % (a.width as int);
        let y = i / (a.width as int);
        assert(a.cell(x, y) == b.cell(x, y));
    }
    assert(a.cells =~= b.cells);
}

/// Reading a position back after writing `v` there gives `v`; every other
/// position keeps its element.
pub proof fn lemma_get_after_set<T>(g: GridView<T>, x: int, y: int, v: T)
    requires
        g.wf(),
        g.in_bounds(x, y),
    ensures
        g.updated(x, y, v).wf(),
        g.updated(x, y, v).width == g.width,
        g.updated(x, y, v).cells.len() == g.cells.len(),
        g.updated(x, y, v).height() == g.height(),
        g.updated(x, y, v).cell(x, y) == v,
        forall|x2: int, y2: int|
            g.in_bounds(x2, y2) && (x2 != x || y2 != y) ==> #[trigger] g.updated(x, y, v).cell(
                x2,
                y2,
            ) == g.cell(x2, y2),
{
    lemma_index(g, x, y);
    assert forall|x2: int, y2: int|
        g.in_bounds(x2, y2) && (x2 != x || y2 != y) implies #[trigger] g.updated(x, y, v).cell(
        x2,
        y2,
    ) == g.cell(x2, y2) by {
        lemma_index(g, x2, y2);
    }
}

/// The element of `pasted_if` at each position in bounds.
pub proof fn lemma_pasted_if_cell<T>(
    g: GridView<T>,
    sx: int,
    sy: int,
    src: GridView<T>,
    keep_new: spec_fn(T) -> bool,
    x: int,
    y: int,
)
    requires
        g.wf(),
        g.in_bounds(x, y),
    ensures
        g.pasted_if(sx, sy, src, keep_new).cell(x, y) == if GridView::<T>::covered(
            sx,
            sy,
            src,
            x,
            y,
        ) && keep_new(g.cell(x, y)) {
            src.cell(x - sx, y - sy)
        } else {
            g.cell(x, y)
        },
        g.pasted_if(sx, sy, src, keep_new).wf(),
{
    lemma_index(g, x, y);
}

/// The element of `pasted` at each position in bounds.
pub proof fn lemma_pasted_cell<T>(g: GridView<T>, sx: int, sy: int, src: GridView<T>, x: int, y: int)
    requires
        g.wf(),
        g.in_bounds(x, y),
    ensures
        g.pasted(sx, sy, src).cell(x, y) == if GridView::<T>::covered(sx, sy, src, x, y) {
            src.cell(x - sx, y - sy)
        } else {
            g.cell(x, y)
        },
        g.pasted(sx, sy, src).wf(),
{
    lemma_index(g, x, y);
}

/// Copying is a total overwrite of the footprint of `src`: every covered
/// position holds the matching element of `src`, and every other position is
/// unchanged.
pub proof fn lemma_copy_overwrites<T>(g: GridView<T>, sx: int, sy: int, src: GridView<T>)
    requires
        g.wf(),
        src.wf(),
        g.fits(sx, sy, src),
    ensures
        g.pasted(sx, sy, src).wf(),
        g.pasted(sx, sy, src).width == g.width,
        g.pasted(sx, sy, src).height() == g.height(),
        forall|x: int, y: int|
            src.in_bounds(x, y) ==> #[trigger] g.pasted(sx, sy, src).cell(sx + x, sy + y)
                == src.cell(x, y),
        forall|x: int, y: int|
            g.in_bounds(x, y) && !GridView::<T>::covered(sx, sy, src, x, y) ==> #[trigger] g.pasted(
                sx,
                sy,
                src,
            ).cell(x, y) == g.cell(x, y),
{
    assert forall|x: int, y: int| src.in_bounds(x, y) implies #[trigger] g.pasted(sx, sy, src).cell(
        sx + x,
        sy + y,
    ) == src.cell(x, y) by {
        lemma_pasted_cell(g, sx, sy, src, sx + x, sy + y);
    }
    assert forall|x: int, y: int|
        g.in_bounds(x, y) && !GridView::<T>::covered(sx, sy, src, x, y) implies #[trigger] g.pasted(
        sx,
        sy,
        src,
    ).cell(x, y) == g.cell(x, y) by {
        lemma_pasted_cell(g, sx, sy, src, x, y);
    }
}

/// A conditional copy whose condition always holds is a plain copy; one whose
/// condition never holds leaves the grid unchanged.
pub proof fn lemma_copy_if_extremes<T>(
    g: GridView<T>,
    sx: int,
    sy: int,
    src: GridView<T>,
    keep_new: spec_fn(T) -> bool,
)
    requires
        g.wf(),
    ensures
        (forall|v: T| #[trigger] keep_new(v)) ==> g.pasted_if(sx, sy, src, keep_new) == g.pasted(
            sx,
            sy,
            src,
        ),
        (forall|v: T| !#[trigger] keep_new(v)) ==> g.pasted_if(sx, sy, src, keep_new) == g,
{
    if forall|v: T| #[trigger] keep_new(v) {
        assert(g.pasted_if(sx, sy, src, keep_new).cells =~= g.pasted(sx, sy, src).cells);
    }
    if forall|v: T| !#[trigger] keep_new(v) {
        assert(g.pasted_if(sx, sy, src, keep_new).cells =~= g.cells);
    }
}

/// Relies on `<[T]>::copy_from_slice`: for slices of equal length, `dst`
/// becomes an element-by-element copy of `src`.
#[verifier::external_body]
fn copy_slice<T: Copy>(dst: &mut [T], src: &[T])
    requires
        old(dst)@.len() == src@.len(),
    ensures
        final(dst)@ == src@,
{
    dst.copy_from_slice(src)
}

/// A 2D array with 1D access.
///
/// The elements are stored row after row in one `Vec`, so that the whole
/// buffer can be handed on as a contiguous sequence at no cost, while reads
/// and writes go by `(x, y)`.
pub struct Vec2d<T> {
    vec: Vec<T>,
    width: usize,
}

impl<T> View for Vec2d<T> {
    type V = GridView<T>;

    closed spec fn view(&self) -> GridView<T> {
        GridView { cells: self.vec@, width: self.width as nat }
    }
}

impl<T> Default for Vec2d<T> {
    /// An empty buffer of width zero.
    fn default() -> (r: Self)
        ensures
            r@.width == 0,
            r@.cells.len() == 0,
    {
        Vec2d { vec: Vec::new(), width: 0 }
    }
}

impl<T> Vec2d<T> {
    /// The width and the number of elements of a buffer are `usize` values.
    pub proof fn lemma_bounds(&self)
        ensures
            self@.width <= usize::MAX,
            self@.cells.len() <= usize::MAX,
            self@.height() <= self@.cells.len(),
    {
        assert(self.vec@.len() == self.vec.len());
        lemma_height_bound(self@);
    }

    pub fn width(&self) -> (r: usize)
        ensures
            r == self@.width,
    {
        self.width
    }

    pub fn height(&self) -> (r: usize)
        ensures
            r == self@.height(),
    {
        if self.width == 0 {
            0
        } else {
            self.vec.len() / self.width
        }
    }

    /// Whether every row is complete (which the constructors guarantee).
    pub fn is_wf(&self) -> (r: bool)
        ensures
            r == self@.wf(),
    {
        if self.width == 0 {
            self.vec.len() == 0
        } else {
            self.vec.len() % self.width == 0
        }
    }

    /// The elements as one sequence, row after row (which is how they are
    /// stored, so this is free).
    pub fn as_1d(&self) -> (r: &[T])
        ensures
            r@ == self@.cells,
    {
        self.vec.as_slice()
    }

    /// The row at `y`.
    pub fn row(&self, y: usize) -> (r: &[T])
        requires
            self@.wf(),
            y < self@.height(),
        ensures
            r@ == self@.cells.subrange(
                self@.index(0, y as int),
                self@.index(0, y as int) + self@.width,
            ),
    {
        proof {
            self.lemma_bounds();
        }
        proof {
            lemma_index(self@, self@.width - 1, y as int);
        }
        let range = Self::row_range(self.width, y);
        &self.vec.as_slice()[range]
    }

    /// The row at `y`, to write into.
    pub fn row_mut(&mut self, y: usize) -> (r: &mut [T])
        requires
            old(self)@.wf(),
            y < old(self)@.height(),
        ensures
            r@ == old(self)@.cells.subrange(
                old(self)@.index(0, y as int),
                old(self)@.index(0, y as int) + old(self)@.width,
            ),
            final(self)@.width == old(self)@.width,
            final(self)@.cells == old(self)@.cells.subrange(0, old(self)@.index(0, y as int))
                + final(r)@ + old(self)@.cells.subrange(
                old(self)@.index(0, y as int) + old(self)@.width,
                old(self)@.cells.len() as int,
            ),
    {
        proof {
            self.lemma_bounds();
        }
        proof {
            lemma_index(self@, self@.width - 1, y as int);
        }
        let range = Self::row_range(self.width, y);
        let all = self.vec.as_mut_slice();
        let (_, rest) = all.split_at_mut(range.start);
        let (row, _) = rest.split_at_mut(range.end - range.start);
        row
    }

    /// The position of `(x, y)` in the underlying sequence.
    fn index_2d_to_1d(width: usize, x: usize, y: usize) -> (r: usize)
        requires
            y * width + x <= usize::MAX,
        ensures
            r == y * width + x,
    {
        y * width + x
    }

    /// The positions of row `y` in the underlying sequence.
    fn row_range(width: usize, y: usize) -> (r: std::ops::Range<usize>)
        requires
            y * width + width <= usize::MAX,
        ensures
            r.start == y * width,
            r.end == y * width + width,
    {
        let row_index = y * width;
        row_index..(row_index + width)
    }
}

impl<T: Copy> Vec2d<T> {
    /// Creates a buffer of `width` by `height` elements, each `value`.
    pub fn new(value: T, width: usize, height: usize) -> (r: Self)
        requires
            width * height <= usize::MAX,
        ensures
            r@.wf(),
            r@.width == width,
            r@.cells == Seq::new((width * height) as nat, |i: int| value),
            width > 0 ==> r@.height() == height,
    {
        let n = width * height;
        let mut vec: Vec<T> = Vec::new();
        let mut i: usize = 0;
        while i < n
            invariant
                i <= n,
                vec@ == Seq::new(i as nat, |j: int| value),
            decreases n - i,
        {
            vec.push(value);
            i += 1;
            assert(vec@ =~= Seq::new(i as nat, |j: int| value));
        }
        proof {
            if width > 0 {
                assert(n as int == height as int * width as int) by (nonlinear_arith)
                    requires
                        n == width * height,
                ;
                lemma_fundamental_div_mod_converse(n as int, width as int, height as int, 0);
            }
        }
        Vec2d { vec, width }
    }

    /// The element at `(x, y)`.
    pub fn get(&self, x: usize, y: usize) -> (r: T)
        requires
            self@.wf(),
            self@.in_bounds(x as int, y as int),
        ensures
            r == self@.cell(x as int, y as int),
    {
        proof {
            self.lemma_bounds();
        }
        proof {
            lemma_index(self@, x as int, y as int);
        }
        self.vec[Self::index_2d_to_1d(self.width, x, y)]
    }

    /// Replaces the element at `(x, y)` by `v`.
    pub fn set(&mut self, x: usize, y: usize, v: T)
        requires
            old(self)@.wf(),
            old(self)@.in_bounds(x as int, y as int),
        ensures
            final(self)@ == old(self)@.updated(x as int, y as int, v),
    {
        proof {
            self.lemma_bounds();
        }
        proof {
            lemma_index(self@, x as int, y as int);
        }
        let i = Self::index_2d_to_1d(self.width, x, y);
        self.vec.set(i, v);
    }

    /// Overwrites the `src_row.len()` elements of row `y` from column `x` on
    /// with `src_row`.
    fn copy_row(&mut self, x: usize, y: usize, src_row: &[T])
        requires
            old(self)@.wf(),
            y < old(self)@.height(),
            x + src_row@.len() <= old(self)@.width,
        ensures
            final(self)@.width == old(self)@.width,
            final(self)@.cells == old(self)@.cells.subrange(0, old(self)@.index(x as int, y as int))
                + src_row@ + old(self)@.cells.subrange(
                old(self)@.index(x as int, y as int) + src_row@.len(),
                old(self)@.cells.len() as int,
            ),
    {
        proof {
            self.lemma_bounds();
        }
        proof {
            lemma_index(self@, self@.width - 1, y as int);
        }
        let start = Self::index_2d_to_1d(self.width, x, y);
        let all = self.vec.as_mut_slice();
        let (_, rest) = all.split_at_mut(start);
        let (target, _) = rest.split_at_mut(src_row.len());
        copy_slice(target, src_row);
    }

    /// Copies `src` into `self`, the top left of `src` going to
    /// `(start_x, start_y)`, one row at a time.
    pub fn copy_to_from(&mut self, start_x: usize, start_y: usize, src: &Self)
        requires
            old(self)@.wf(),
            src@.wf(),
            old(self)@.fits(start_x as int, start_y as int, src@),
        ensures
            final(self)@ == old(self)@.pasted(start_x as int, start_y as int, src@),
    {
        let ghost g0 = self@;
        let ghost (sx, sy) = (start_x as int, start_y as int);
        let w = src.width();
        let h = src.height();
        proof {
            self.lemma_bounds();
        }
        proof {
            lemma_height_bound(g0);
        }
        let mut src_y: usize = 0;
        while src_y < h
            invariant
                g0.cells.len() <= usize::MAX,
                g0.height() <= g0.cells.len(),
                src@.wf(),
                g0.wf(),
                g0.fits(sx, sy, src@),
                sx == start_x,
                sy == start_y,
                w == src@.width,
                h == src@.height(),
                src_y <= h,
                self@.width == g0.width,
                self@.cells.len() == g0.cells.len(),
                forall|x: int, y: int|
                    #![trigger self@.cell(x, y)]
                    g0.in_bounds(x, y) ==> self@.cell(x, y) == if GridView::<T>::covered(
                        sx,
                        sy,
                        src@,
                        x,
                        y,
                    ) && y - sy < src_y {
                        src@.cell(x - sx, y - sy)
                    } else {
                        g0.cell(x, y)
                    },
            decreases h - src_y,
        {
            let self_y = src_y + start_y;
            let ghost before = self@;
            proof {
                lemma_index(src@, src@.width - 1, src_y as int);
                lemma_index(before, sx + w - 1, self_y as int);
                lemma_index(before, sx, self_y as int);
            }
            let src_row = src.row(src_y);
            self.copy_row(start_x, self_y, src_row);
            proof {
                let wd = g0.width as int;
                let s0 = before.index(sx, self_y as int);
                lemma_index(src@, 0, src_y as int);
                assert forall|x: int, y: int| g0.in_bounds(x, y) implies #[trigger] self@.cell(x, y)
                    == if GridView::<T>::covered(sx, sy, src@, x, y) && y - sy < src_y + 1 {
                    src@.cell(x - sx, y - sy)
                } else {
                    g0.cell(x, y)
                } by {
                    lemma_index(before, x, y);
                    let i = before.index(x, y);
                    assert(before.cell(x, y) == before.cells[i]);
                    if s0 <= i < s0 + w {
                        lemma_fundamental_div_mod_converse(i, wd, self_y as int, sx + (i - s0));
                        lemma_index(src@, x - sx, src_y as int);
                        assert(self@.cells[i] == src_row@[i - s0]);
                    } else {
                        if y == self_y && sx <= x < sx + w {
                            assert(s0 <= i < s0 + w);
                        }
                        assert(self@.cells[i] == before.cells[i]);
                    }
                }
            }
            src_y += 1;
        }
        proof {
            let goal = g0.pasted(sx, sy, src@);
            assert forall|x: int, y: int| self@.in_bounds(x, y) implies #[trigger] self@.cell(x, y)
                == goal.cell(x, y) by {
                lemma_pasted_cell(g0, sx, sy, src@, x, y);
            }
            lemma_ext(self@, goal);
        }
    }

    /// Copies `src` into `self`, the top left of `src` going to
    /// `(start_x, start_y)`, but only over elements whose current value
    /// `should_overwrite` accepts; the others are left as they are.
    ///
    /// The result is stated for every spec predicate `keep` that agrees with
    /// each result `should_overwrite` may return.
    pub fn copy_to_from_if<F: Fn(T) -> bool>(
        &mut self,
        start_x: usize,
        start_y: usize,
        src: &Self,
        should_overwrite: F,
    )
        requires
            old(self)@.wf(),
            src@.wf(),
            old(self)@.fits(start_x as int, start_y as int, src@),
            forall|v: T| should_overwrite.requires((v,)),
        ensures
            final(self)@.width == old(self)@.width,
            final(self)@.cells.len() == old(self)@.cells.len(),
            forall|x: int, y: int|
                #![trigger final(self)@.cell(x, y)]
                old(self)@.in_bounds(x, y) ==> if GridView::<T>::covered(
                    start_x as int,
                    start_y as int,
                    src@,
                    x,
                    y,
                ) {
                    (final(self)@.cell(x, y) == src@.cell(x - start_x, y - start_y)
                        && should_overwrite.ensures((old(self)@.cell(x, y),), true))
                        || (final(self)@.cell(x, y) == old(self)@.cell(x, y)
                        && should_overwrite.ensures((old(self)@.cell(x, y),), false))
                } else {
                    final(self)@.cell(x, y) == old(self)@.cell(x, y)
                },
            forall|keep: spec_fn(T) -> bool|
                (forall|v: T, r: bool| should_overwrite.ensures((v,), r) ==> r == keep(v))
                    ==> final(self)@ == #[trigger] old(self)@.pasted_if(
                    start_x as int,
                    start_y as int,
                    src@,
                    keep,
                ),
    {
        let ghost g0 = self@;
        let ghost (sx, sy) = (start_x as int, start_y as int);
        let w = src.width();
        let h = src.height();
        proof {
            self.lemma_bounds();
        }
        proof {
            lemma_height_bound(g0);
        }
        let mut src_x: usize = 0;
        while src_x < w
            invariant
                src@.wf(),
                g0.wf(),
                g0.fits(sx, sy, src@),
                sx == start_x,
                sy == start_y,
                w == src@.width,
                h == src@.height(),
                g0.cells.len() <= usize::MAX,
                g0.height() <= g0.cells.len(),
                forall|v: T| should_overwrite.requires((v,)),
                src_x <= w,
                self@.width == g0.width,
                self@.cells.len() == g0.cells.len(),
                forall|x: int, y: int|
                    #![trigger self@.cell(x, y)]
                    g0.in_bounds(x, y) ==> if GridView::<T>::covered(sx, sy, src@, x, y) && x - sx
                        < src_x {
                        (self@.cell(x, y) == src@.cell(x - sx, y - sy) && should_overwrite.ensures(
                            (g0.cell(x, y),),
                            true,
                        )) || (self@.cell(x, y) == g0.cell(x, y) && should_overwrite.ensures(
                            (g0.cell(x, y),),
                            false,
                        ))
                    } else {
                        self@.cell(x, y) == g0.cell(x, y)
                    },
            decreases w - src_x,
        {
            let mut src_y: usize = 0;
            while src_y < h
                invariant
                    src@.wf(),
                    g0.wf(),
                    g0.fits(sx, sy, src@),
                    sx == start_x,
                    sy == start_y,
                    w == src@.width,
                    h == src@.height(),
                    g0.cells.len() <= usize::MAX,
                    g0.height() <= g0.cells.len(),
                    src_x < w,
                    src_y <= h,
                    self@.width == g0.width,
                    self@.cells.len() == g0.cells.len(),
                    forall|v: T| should_overwrite.requires((v,)),
                    forall|x: int, y: int|
                        #![trigger self@.cell(x, y)]
                        g0.in_bounds(x, y) ==> if GridView::<T>::covered(sx, sy, src@, x, y) && (x
                            - sx < src_x || (x - sx == src_x && y - sy < src_y)) {
                            (self@.cell(x, y) == src@.cell(x - sx, y - sy)
                                && should_overwrite.ensures((g0.cell(x, y),), true)) || (self@.cell(
                                x,
                                y,
                            ) == g0.cell(x, y) && should_overwrite.ensures(
                                (g0.cell(x, y),),
                                false,
                            ))
                        } else {
                            self@.cell(x, y) == g0.cell(x, y)
                        },
                decreases h - src_y,
            {
                let self_x = src_x + start_x;
                let self_y = src_y + start_y;
                let current_value = self.get(self_x, self_y);
                assert(current_value == g0.cell(self_x as int, self_y as int));
                if should_overwrite(current_value) {
                    let v = src.get(src_x, src_y);
                    let ghost before = self@;
                    self.set(self_x, self_y, v);
                    proof {
                        lemma_get_after_set(before, self_x as int, self_y as int, v);
                    }
                }
                src_y += 1;
            }
            src_x += 1;
        }
        proof {
            assert forall|keep: spec_fn(T) -> bool|
                (forall|v: T, r: bool| should_overwrite.ensures((v,), r) ==> r == keep(v))
                    implies self@ == #[trigger] g0.pasted_if(sx, sy, src@, keep) by {
                let goal = g0.pasted_if(sx, sy, src@, keep);
                assert forall|x: int, y: int| self@.in_bounds(x, y) implies #[trigger] self@.cell(
                    x,
                    y,
                ) == goal.cell(x, y) by {
                    lemma_pasted_if_cell(g0, sx, sy, src@, keep, x, y);
                }
                lemma_ext(self@, goal);
            }
        }
    }
}

} // verus!

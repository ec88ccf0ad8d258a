//! A dense two-dimensional field of values in row-major order.

use vstd::prelude::*;

verus! {

/// Flat offset of the cell in column `x` and row `y` of a grid `width` cells wide.
pub open spec fn offset(width: nat, x: int, y: int) -> int {
    x + y * width
}

/// The coordinate nearest to `c` that lies strictly inside `0 .. limit`,
/// for a side of at least three cells.
pub open spec fn nearest_inner(limit: nat, c: int) -> int {
    if c < 1 {
        1
    } else if c > limit - 2 {
        limit - 2
    } else {
        c
    }
}

/// Every cell of a grid has its offset inside the backing sequence.
pub proof fn lemma_offset_in_range(width: nat, height: nat, x: int, y: int)
    requires
        0 <= x < width,
        0 <= y < height,
    ensures
        0 <= offset(width, x, y) < width * height,
{
    assert(0 <= y * width) by (nonlinear_arith)
        requires
            0 <= y,
            0 <= width,
    ;
    assert(y * width + width <= height * width) by (nonlinear_arith)
        requires
            0 <= y < height,
            0 <= width,
    ;
    assert(height * width == width * height) by (nonlinear_arith);
}

/// Two cells of one grid that share an offset are the same cell.
pub proof fn lemma_offset_injective(width: nat, x1: int, y1: int, x2: int, y2: int)
    requires
        0 <= x1 < width,
        0 <= x2 < width,
        offset(width, x1, y1) == offset(width, x2, y2),
    ensures
        x1 == x2,
        y1 == y2,
{
    if y1 < y2 {
        assert(y1 * width + width <= y2 * width) by (nonlinear_arith)
            requires
                y1 < y2,
                0 <= width,
        ;
    } else if y2 < y1 {
        assert(y2 * width + width <= y1 * width) by (nonlinear_arith)
            requires
                y2 < y1,
                0 <= width,
        ;
    }
}

/// The mathematical content of a field: its sides and its cells row by row.
pub struct FieldView<T> {
    pub width: nat,
    pub height: nat,
    pub cells: Seq<T>,
}

impl<T> FieldView<T> {
    /// Both sides are positive and there is exactly one value per cell.
    pub open spec fn well_formed(self) -> bool {
        &&& self.width >= 1
        &&& self.height >= 1
        &&& self.cells.len() == self.width * self.height
    }

    /// `(x, y)` names a cell of the grid.
    pub open spec fn contains(self, x: int, y: int) -> bool {
        0 <= x < self.width && 0 <= y < self.height
    }

    /// The value of the cell `(x, y)`.
    pub open spec fn at(self, x: int, y: int) -> T
        recommends
            self.contains(x, y),
    {
        self.cells[offset(self.width, x, y)]
    }

    /// `(x, y)` lies in the outermost ring of cells.
    pub open spec fn on_border(self, x: int, y: int) -> bool {
        self.contains(x, y) && (x == 0 || y == 0 || x == self.width - 1 || y == self.height - 1)
    }

    /// `(x, y)` is a cell with four neighbours inside the grid.
    pub open spec fn in_interior(self, x: int, y: int) -> bool {
        1 <= x < self.width - 1 && 1 <= y < self.height - 1
    }

    /// The grid has at least one interior cell.
    pub open spec fn has_interior(self) -> bool {
        self.width >= 3 && self.height >= 3
    }

    /// Same sides as `other`.
    pub open spec fn same_shape(self, other: FieldView<T>) -> bool {
        self.width == other.width && self.height == other.height
    }
}

/// Every offset inside the backing sequence belongs to a cell of the grid.
pub proof fn lemma_offset_is_a_cell(width: nat, height: nat, i: int)
    requires
        0 <= i < width * height,
    ensures
        0 <= i % (width as int) < width,
        0 <= i / (width as int) < height,
        offset(width, i % (width as int), i / (width as int)) == i,
{
    let w = width as int;
    assert(w > 0) by (nonlinear_arith)
        requires
            0 <= i < w * height,
            w >= 0,
    ;
    vstd::arithmetic::div_mod::lemma_fundamental_div_mod(i, w);
    vstd::arithmetic::div_mod::lemma_mod_pos_bound(i, w);
    vstd::arithmetic::div_mod::lemma_div_pos_is_pos(i, w);
    let q = i / w;
    assert(w * q == q * w) by (nonlinear_arith);
    assert(q < height) by (nonlinear_arith)
        requires
            q * w <= i,
            i < w * height,
            0 < w,
    ;
}

/// Two well-formed fields of one shape that agree at every cell are equal.
pub proof fn lemma_equal_cells<T>(a: FieldView<T>, b: FieldView<T>)
    requires
        a.well_formed(),
        b.well_formed(),
        a.same_shape(b),
        forall|x: int, y: int| a.contains(x, y) ==> #[trigger] a.at(x, y) == b.at(x, y),
    ensures
        a == b,
{
    assert forall|i: int| 0 <= i < a.cells.len() implies a.cells[i] == b.cells[i] by {
        lemma_offset_is_a_cell(a.width, a.height, i);
        let x = i % (a.width as int);
        let y = i / (a.width as int);
        assert(a.contains(x, y));
        assert(a.at(x, y) == b.at(x, y));
    }
    assert(a.cells =~= b.cells);
}

/// A buffer of `count` copies of `fill`.
fn filled<T: Copy>(count: usize, fill: T) -> (cells: Vec<T>)
    ensures
        cells@ == Seq::new(count as nat, |i: int| fill),
{
    let mut cells: Vec<T> = Vec::with_capacity(count);
    let mut i: usize = 0;
    while i < count
        invariant
            i <= count,
            cells@ == Seq::new(i as nat, |k: int| fill),
        decreases count - i,
    {
        cells.push(fill);
        i += 1;
        assert(cells@ =~= Seq::new(i as nat, |k: int| fill));
    }
    cells
}

/// A `width` by `height` grid of values kept in one flat buffer, row after row.
pub struct Field<T> {
    width: usize,
    height: usize,
    cells: Vec<T>,
}

impl<T> View for Field<T> {
    type V = FieldView<T>;

    closed spec fn view(&self) -> FieldView<T> {
        FieldView { width: self.width as nat, height: self.height as nat, cells: self.cells@ }
    }
}

impl<T: Copy> Field<T> {
    /// The representation invariant, stated over the view.
    pub open spec fn wf(&self) -> bool {
        self@.well_formed()
    }

    /// A field with every cell equal to `fill`, or `None` when a side is zero
    /// or the number of cells does not fit in `usize`.
    pub fn new(width: usize, height: usize, fill: T) -> (r: Option<Field<T>>)
        ensures
            r is Some <==> width >= 1 && height >= 1 && width * height <= usize::MAX,
            r matches Some(f) ==> {
                &&& f.wf()
                &&& f@.width == width
                &&& f@.height == height
                &&& f@.cells == Seq::new((width * height) as nat, |i: int| fill)
                &&& forall|x: int, y: int| f@.contains(x, y) ==> #[trigger] f@.at(x, y) == fill
            },
    {
        if width == 0 || height == 0 {
            return None;
        }
        match width.checked_mul(height) {
            None => None,
            Some(count) => {
                let f = Field { width, height, cells: filled(count, fill) };
                proof {
                    assert forall|x: int, y: int| f@.contains(x, y) implies #[trigger] f@.at(x, y)
                        == fill by {
                        lemma_offset_in_range(width as nat, height as nat, x, y);
                    }
                }
                Some(f)
            },
        }
    }

    /// A fresh field of the same shape with every cell equal to `fill`.
    pub fn blank(&self, fill: T) -> (r: Field<T>)
        requires
            self.wf(),
        ensures
            r.wf(),
            r@.same_shape(self@),
            r@.cells == Seq::new(self@.cells.len(), |i: int| fill),
            forall|x: int, y: int| r@.contains(x, y) ==> #[trigger] r@.at(x, y) == fill,
    {
        let cells = filled(self.cells.len(), fill);
        let r = Field { width: self.width, height: self.height, cells };
        proof {
            assert forall|x: int, y: int| r@.contains(x, y) implies #[trigger] r@.at(x, y)
                == fill by {
                lemma_offset_in_range(r@.width, r@.height, x, y);
            }
        }
        r
    }

    /// A copy of the field that shares nothing with it.
    pub fn duplicate(&self) -> (r: Field<T>)
        ensures
            r@ == self@,
    {
        let count = self.cells.len();
        let mut cells: Vec<T> = Vec::with_capacity(count);
        let mut i: usize = 0;
        while i < count
            invariant
                count == self.cells@.len(),
                i <= count,
                cells@ == self.cells@.take(i as int),
            decreases count - i,
        {
            cells.push(self.cells[i]);
            i += 1;
            assert(cells@ =~= self.cells@.take(i as int));
        }
        assert(cells@ =~= self.cells@);
        Field { width: self.width, height: self.height, cells }
    }

    /// Number of columns.
    pub fn width(&self) -> (w: usize)
        ensures
            w == self@.width,
    {
        self.width
    }

    /// Number of rows.
    pub fn height(&self) -> (h: usize)
        ensures
            h == self@.height,
    {
        self.height
    }

    /// The flat offset of a cell of the grid.
    fn offset_of(&self, x: usize, y: usize) -> (i: usize)
        requires
            self.wf(),
            self@.contains(x as int, y as int),
        ensures
            i == offset(self@.width, x as int, y as int),
            i < self@.cells.len(),
    {
        let count = self.cells.len();
        proof {
            lemma_offset_in_range(self@.width, self@.height, x as int, y as int);
            assert(0 <= y * self.width) by (nonlinear_arith)
                requires
                    0 <= y,
                    0 <= self.width,
            ;
            assert(x + y * self.width < count);
        }
        x + y * self.width
    }

    /// The flat offset of `(x, y)`, or `None` when the cell is outside the grid.
    pub fn index(&self, x: usize, y: usize) -> (r: Option<usize>)
        requires
            self.wf(),
        ensures
            r == if self@.contains(x as int, y as int) {
                Some(offset(self@.width, x as int, y as int) as usize)
            } else {
                None
            },
            r matches Some(i) ==> i == offset(self@.width, x as int, y as int) && i
                < self@.cells.len(),
    {
        if x < self.width && y < self.height {
            Some(self.offset_of(x, y))
        } else {
            None
        }
    }

    /// The value at `(x, y)`, or `None` when the cell is outside the grid.
    pub fn get(&self, x: usize, y: usize) -> (r: Option<T>)
        requires
            self.wf(),
        ensures
            r == if self@.contains(x as int, y as int) {
                Some(self@.at(x as int, y as int))
            } else {
                None
            },
    {
        match self.index(x, y) {
            Some(i) => Some(self.cells[i]),
            None => None,
        }
    }

    /// The value at a cell of the grid.
    pub fn read(&self, x: usize, y: usize) -> (r: T)
        requires
            self.wf(),
            self@.contains(x as int, y as int),
        ensures
            r == self@.at(x as int, y as int),
    {
        let i = self.offset_of(x, y);
        self.cells[i]
    }

    /// Stores `value` at `(x, y)`; a cell outside the grid leaves the field as it was.
    /// Returns whether the cell was inside.
    pub fn set(&mut self, x: usize, y: usize, value: T) -> (stored: bool)
        requires
            old(self).wf(),
        ensures
            final(self).wf(),
            final(self)@.same_shape(old(self)@),
            stored == old(self)@.contains(x as int, y as int),
            stored ==> final(self)@.cells == old(self)@.cells.update(
                offset(old(self)@.width, x as int, y as int),
                value,
            ),
            !stored ==> final(self)@ == old(self)@,
            forall|x2: int, y2: int|
                old(self)@.contains(x2, y2) ==> #[trigger] final(self)@.at(x2, y2) == if x2 == x
                    && y2 == y {
                    value
                } else {
                    old(self)@.at(x2, y2)
                },
    {
        match self.index(x, y) {
            Some(i) => {
                self.cells[i] = value;
                proof {
                    let w = old(self)@.width;
                    assert forall|x2: int, y2: int| old(self)@.contains(x2, y2) implies (
                    #[trigger] self@.at(x2, y2)) == if x2 == x && y2 == y {
                        value
                    } else {
                        old(self)@.at(x2, y2)
                    } by {
                        lemma_offset_in_range(w, old(self)@.height, x2, y2);
                        if offset(w, x2, y2) == offset(w, x as int, y as int) {
                            lemma_offset_injective(w, x2, y2, x as int, y as int);
                        }
                    }
                }
                true
            },
            None => false,
        }
    }

    /// Overwrites every cell of the outermost ring with `value` and leaves the
    /// other cells alone.
    pub fn pin_border(&mut self, value: T)
        requires
            old(self).wf(),
        ensures
            final(self).wf(),
            final(self)@.same_shape(old(self)@),
            forall|x: int, y: int|
                old(self)@.contains(x, y) ==> #[trigger] final(self)@.at(x, y) == if old(
                    self,
                )@.on_border(x, y) {
                    value
                } else {
                    old(self)@.at(x, y)
                },
    {
        let w = self.width;
        let h = self.height;
        let mut i: usize = 0;
        while i < w
            invariant
                self.wf(),
                self@.same_shape(old(self)@),
                w == self@.width,
                h == self@.height,
                i <= w,
                forall|x: int, y: int|
                    old(self)@.contains(x, y) ==> #[trigger] self@.at(x, y) == if (y == 0 || y
                        == h - 1) && x < i {
                        value
                    } else {
                        old(self)@.at(x, y)
                    },
            decreases w - i,
        {
            self.set(i, 0, value);
            self.set(i, h - 1, value);
            i += 1;
        }
        let mut j: usize = 0;
        while j < h
            invariant
                self.wf(),
                self@.same_shape(old(self)@),
                w == self@.width,
                h == self@.height,
                j <= h,
                forall|x: int, y: int|
                    old(self)@.contains(x, y) ==> #[trigger] self@.at(x, y) == if y == 0 || y
                        == h - 1 || ((x == 0 || x == w - 1) && y < j) {
                        value
                    } else {
                        old(self)@.at(x, y)
                    },
            decreases h - j,
        {
            self.set(0, j, value);
            self.set(w - 1, j, value);
            j += 1;
        }
    }

    /// Gives every cell of the outermost ring the value of the interior cell
    /// nearest to it. A grid without interior cells is left as it was.
    pub fn mirror_border(&mut self)
        requires
            old(self).wf(),
        ensures
            final(self).wf(),
            final(self)@.same_shape(old(self)@),
            !old(self)@.has_interior() ==> final(self)@ == old(self)@,
            old(self)@.has_interior() ==> forall|x: int, y: int|
                old(self)@.contains(x, y) ==> #[trigger] final(self)@.at(x, y) == old(self)@.at(
                    nearest_inner(old(self)@.width, x),
                    nearest_inner(old(self)@.height, y),
                ),
    {
        let w = self.width;
        let h = self.height;
        if w < 3 || h < 3 {
            return ;
        }
        let mut i: usize = 1;
        while i < w - 1
            invariant
                self.wf(),
                self@.same_shape(old(self)@),
                w == self@.width,
                h == self@.height,
                w >= 3,
                h >= 3,
                1 <= i <= w - 1,
                forall|x: int, y: int|
                    old(self)@.contains(x, y) ==> #[trigger] self@.at(x, y) == if (y == 0 || y
                        == h - 1) && 1 <= x < i {
                        old(self)@.at(x, nearest_inner(h as nat, y))
                    } else {
                        old(self)@.at(x, y)
                    },
            decreases w - i,
        {
            let top = self.read(i, 1);
            let bottom = self.read(i, h - 2);
            self.set(i, 0, top);
            self.set(i, h - 1, bottom);
            i += 1;
        }
        let mut j: usize = 1;
        while j < h - 1
            invariant
                self.wf(),
                self@.same_shape(old(self)@),
                w == self@.width,
                h == self@.height,
                w >= 3,
                h >= 3,
                1 <= j <= h - 1,
                forall|x: int, y: int|
                    old(self)@.contains(x, y) ==> #[trigger] self@.at(x, y) == if (y == 0 || y
                        == h - 1) && 1 <= x < w - 1 {
                        old(self)@.at(x, nearest_inner(h as nat, y))
                    } else if (x == 0 || x == w - 1) && 1 <= y < j {
                        old(self)@.at(nearest_inner(w as nat, x), y)
                    } else {
                        old(self)@.at(x, y)
                    },
            decreases h - j,
        {
            let left = self.read(1, j);
            let right = self.read(w - 2, j);
            self.set(0, j, left);
            self.set(w - 1, j, right);
            j += 1;
        }
        let top_left = self.read(1, 1);
        let top_right = self.read(w - 2, 1);
        let bottom_left = self.read(1, h - 2);
        let bottom_right = self.read(w - 2, h - 2);
        self.set(0, 0, top_left);
        self.set(w - 1, 0, top_right);
        self.set(0, h - 1, bottom_left);
        self.set(w - 1, h - 1, bottom_right);
    }
}

} // verus!

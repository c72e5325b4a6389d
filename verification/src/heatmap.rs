use vstd::prelude::*;

verus! {

/// A heatmap is a 2D canvas that records the magnitude of a phenomenon per
/// pixel. The magnitudes are stored as a dense row-major grid of `u64`
/// words; an export layer may later turn the grid into a grayscale raster.
#[derive(Clone, Debug)]
pub struct Heatmap {
    inner: Vec<u64>,
    width: u32,
    height: u32,
}

impl Heatmap {
    /// The grid's cells, row-major.
    pub closed spec fn cells(&self) -> Seq<u64> {
        self.inner@
    }

    /// The grid's width.
    pub closed spec fn spec_width(&self) -> u32 {
        self.width
    }

    /// The grid's height.
    pub closed spec fn spec_height(&self) -> u32 {
        self.height
    }

    /// A well-formed heatmap holds exactly `width * height` cells, and that
    /// count fits in a `u32` so row-major indices can be computed in `u32`.
    pub open spec fn wf(&self) -> bool {
        &&& self.cells().len() == self.spec_width() * self.spec_height()
        &&& self.spec_width() * self.spec_height() <= u32::MAX
    }

    /// Whether `(x, y)` lies inside the grid.
    pub open spec fn in_range(&self, x: u32, y: u32) -> bool {
        x < self.spec_width() && y < self.spec_height()
    }

    /// The cell at `(x, y)`, row-major.
    pub open spec fn spec_at(&self, x: u32, y: u32) -> u64 {
        self.cells()[y * self.spec_width() + x]
    }

    /// Instanciates a new heatmap with the given dimensions, every cell zero.
    pub fn new(width: u32, height: u32) -> (r: Self)
        requires
            width * height <= u32::MAX,
        ensures
            r.wf(),
            r.spec_width() == width,
            r.spec_height() == height,
            forall|i: int| 0 <= i < r.cells().len() ==> r.cells()[i] == 0,
    {
        let n: u32 = width * height;
        Heatmap { inner: zeros(n as usize), width, height }
    }

    /// Instanciates a new heatmap with the given dimensions and fills it
    /// with the values produced by a user-provided closure. The closure
    /// takes `x` and `y` coordinates as arguments and returns the `u64`
    /// magnitude of that cell; it is invoked once per coordinate, in
    /// row-major order. Every cell of the result holds a value the closure
    /// may return for that cell's coordinates, so a deterministic closure is
    /// read back exactly.
    pub fn from_fn<F: Fn(u32, u32) -> u64>(width: u32, height: u32, f: F) -> (r: Self)
        requires
            width * height <= u32::MAX,
            forall|x: u32, y: u32|
                x < width && y < height ==> #[trigger] call_requires(f, (x, y)),
        ensures
            r.wf(),
            r.spec_width() == width,
            r.spec_height() == height,
            filled_with(r, f),
    {
        let mut inner: Vec<u64> = Vec::new();
        let mut y: u32 = 0;
        while y < height
            invariant
                y <= height,
                width * height <= u32::MAX,
                forall|a: u32, b: u32|
                    a < width && b < height ==> #[trigger] call_requires(f, (a, b)),
                inner@.len() == y * width,
                forall|a: u32, b: u32|
                    a < width && b < y ==> call_ensures(
                        f,
                        (a, b),
                        #[trigger] inner@[b * width + a],
                    ),
            decreases height - y,
        {
            let mut x: u32 = 0;
            while x < width
                invariant
                    x <= width,
                    y < height,
                    width * height <= u32::MAX,
                    forall|a: u32, b: u32|
                        a < width && b < height ==> #[trigger] call_requires(f, (a, b)),
                    inner@.len() == y * width + x,
                    forall|a: u32, b: u32|
                        a < width && b < y ==> call_ensures(
                            f,
                            (a, b),
                            #[trigger] inner@[b * width + a],
                        ),
                    forall|a: u32|
                        a < x ==> call_ensures(f, (a, y), #[trigger] inner@[y * width + a]),
                decreases width - x,
            {
                proof {
                    assert(y * width + x < width * height) by (nonlinear_arith)
                        requires
                            x < width,
                            y < height,
                    ;
                }
                let cell: u64 = f(x, y);
                inner.push(cell);
                x += 1;
                proof {
                    assert forall|a: u32, b: u32| a < width && b < y implies call_ensures(
                        f,
                        (a, b),
                        #[trigger] inner@[b * width + a],
                    ) by {
                        lemma_row_major_prefix(width as int, y as int, a as int, b as int);
                    }
                }
            }
            proof {
                assert((y + 1) * width == y * width + width) by (nonlinear_arith);
                assert forall|a: u32, b: u32| a < width && b < y + 1 implies call_ensures(
                    f,
                    (a, b),
                    #[trigger] inner@[b * width + a],
                ) by {
                    lemma_row_major_prefix(width as int, y as int + 1, a as int, b as int);
                    if b == y {
                        assert(inner@[b * width + a] == inner@[y * width + a]);
                    }
                }
            }
            y += 1;
        }
        proof {
            assert(height * width == width * height) by (nonlinear_arith);
        }
        Heatmap { inner, width, height }
    }

    /// Returns the dimensions of the current heatmap.
    pub fn dimensions(&self) -> (r: (u32, u32))
        ensures
            r == (self.spec_width(), self.spec_height()),
    {
        (self.width, self.height)
    }

    /// Returns the width of the current heatmap.
    pub fn width(&self) -> (r: u32)
        ensures
            r == self.spec_width(),
    {
        self.width
    }

    /// Returns the height of the current heatmap.
    pub fn height(&self) -> (r: u32)
        ensures
            r == self.spec_height(),
    {
        self.height
    }

    /// Clears the current heatmap: every cell is reset to zero and the
    /// dimensions are unchanged.
    pub fn clear(&mut self)
        requires
            old(self).wf(),
        ensures
            final(self).wf(),
            final(self).spec_width() == old(self).spec_width(),
            final(self).spec_height() == old(self).spec_height(),
            forall|i: int| 0 <= i < final(self).cells().len() ==> final(self).cells()[i] == 0,
    {
        let n: u32 = self.width * self.height;
        self.inner = zeros(n as usize);
    }

    /// Retrieves a reference to a pixel contained in the heatmap thanks
    /// to user-supplied coordinates. The result is absent exactly when the
    /// coordinates fall outside the grid.
    pub fn get_pixel(&self, x: u32, y: u32) -> (r: Option<&u64>)
        requires
            self.wf(),
        ensures
            r is Some <==> self.in_range(x, y),
            r is Some ==> *r.unwrap() == self.spec_at(x, y),
    {
        if x < self.width && y < self.height {
            proof {
                lemma_in_range_flat_index(*self, x, y);
            }
            Some(&self.inner[(y * self.width + x) as usize])
        } else {
            None
        }
    }

    /// Retrieves a mutable reference to a pixel contained in the heatmap
    /// thanks to user-supplied coordinates. The result is absent exactly
    /// when the coordinates fall outside the grid; in that case the heatmap
    /// is untouched. Writing through the reference updates the one cell at
    /// `(x, y)` and nothing else.
    pub fn get_pixel_mut(&mut self, x: u32, y: u32) -> (r: Option<&mut u64>)
        requires
            old(self).wf(),
        ensures
            r is Some <==> old(self).in_range(x, y),
            !old(self).in_range(x, y) ==> *final(self) == *old(self),
            old(self).in_range(x, y) ==> {
                &&& *r.unwrap() == old(self).spec_at(x, y)
                &&& final(self).spec_width() == old(self).spec_width()
                &&& final(self).spec_height() == old(self).spec_height()
                &&& final(self).cells() == old(self).cells().update(
                    y * old(self).spec_width() + x,
                    *final(r.unwrap()),
                )
            },
            final(self).wf(),
    {
        if x < self.width && y < self.height {
            proof {
                lemma_in_range_flat_index(*self, x, y);
            }
            let idx: u32 = y * self.width + x;
            Some(&mut self.inner[idx as usize])
        } else {
            None
        }
    }

    /// The largest magnitude recorded anywhere in the grid, or zero when the
    /// grid is empty.
    pub fn max_heat(&self) -> (r: u64)
        ensures
            forall|i: int| 0 <= i < self.cells().len() ==> self.cells()[i] <= r,
            self.cells().len() == 0 ==> r == 0,
            self.cells().len() > 0 ==> exists|i: int|
                0 <= i < self.cells().len() && self.cells()[i] == r,
    {
        let mut max: u64 = 0;
        let mut i: usize = 0;
        while i < self.inner.len()
            invariant
                i <= self.cells().len(),
                forall|k: int| 0 <= k < i ==> self.cells()[k] <= max,
                i == 0 ==> max == 0,
                i > 0 ==> exists|k: int| 0 <= k < i && self.cells()[k] == max,
            decreases self.cells().len() - i,
        {
            if self.inner[i] > max {
                max = self.inner[i];
            }
            i += 1;
        }
        max
    }

    /// The merge of `a` and `b`, built cell by cell in row-major order.
    fn merged(a: &Heatmap, b: &Heatmap) -> (r: Heatmap)
        requires
            a.wf(),
            b.wf(),
            merge_fits(*a, *b),
        ensures
            is_merge_of(r, *a, *b),
    {
        let width: u32 = if a.width <= b.width {
            a.width
        } else {
            b.width
        };
        let height: u32 = if a.height <= b.height {
            a.height
        } else {
            b.height
        };
        let mut inner: Vec<u64> = Vec::new();
        let mut y: u32 = 0;
        while y < height
            invariant
                y <= height,
                a.wf(),
                b.wf(),
                merge_fits(*a, *b),
                width == merge_width(*a, *b),
                height == merge_height(*a, *b),
                inner@.len() == y * width,
                forall|i: u32, j: u32|
                    i < width && j < y ==> #[trigger] inner@[j * width + i] == a.spec_at(i, j)
                        + b.spec_at(i, j),
            decreases height - y,
        {
            let mut x: u32 = 0;
            while x < width
                invariant
                    x <= width,
                    y < height,
                    a.wf(),
                    b.wf(),
                    merge_fits(*a, *b),
                    width == merge_width(*a, *b),
                    height == merge_height(*a, *b),
                    inner@.len() == y * width + x,
                    forall|i: u32, j: u32|
                        i < width && j < y ==> #[trigger] inner@[j * width + i] == a.spec_at(
                            i,
                            j,
                        ) + b.spec_at(i, j),
                    forall|i: u32|
                        i < x ==> #[trigger] inner@[y * width + i] == a.spec_at(i, y)
                            + b.spec_at(i, y),
                decreases width - x,
            {
                proof {
                    lemma_in_range_flat_index(*a, x, y);
                    lemma_in_range_flat_index(*b, x, y);
                }
                let va: u64 = a.inner[(y * a.width + x) as usize];
                let vb: u64 = b.inner[(y * b.width + x) as usize];
                proof {
                    assert(va == a.spec_at(x, y));
                    assert(vb == b.spec_at(x, y));
                }
                inner.push(va + vb);
                x += 1;
                proof {
                    assert forall|i: u32, j: u32| i < width && j < y implies #[trigger] inner@[j
                        * width + i] == a.spec_at(i, j) + b.spec_at(i, j) by {
                        lemma_row_major_prefix(width as int, y as int, i as int, j as int);
                    }
                }
            }
            proof {
                assert((y + 1) * width == y * width + width) by (nonlinear_arith);
                assert forall|i: u32, j: u32| i < width && j < y + 1 implies #[trigger] inner@[j
                    * width + i] == a.spec_at(i, j) + b.spec_at(i, j) by {
                    lemma_row_major_prefix(width as int, y as int + 1, i as int, j as int);
                    if j == y {
                        assert(inner@[j * width + i] == inner@[y * width + i]);
                    }
                }
            }
            y += 1;
        }
        proof {
            assert(height * width == width * height) by (nonlinear_arith);
            assert(width * height <= a.spec_width() * a.spec_height()) by (nonlinear_arith)
                requires
                    0 <= width <= a.spec_width(),
                    0 <= height <= a.spec_height(),
            ;
            assert forall|x: u32, y: u32| x < width && y < height implies #[trigger] inner@[y
                * width + x] == a.spec_at(x, y) + b.spec_at(x, y) by {
                lemma_row_major_prefix(width as int, height as int, x as int, y as int);
            }
        }
        Heatmap { inner, width, height }
    }

    /// Merges the current heatmap with another one into a new heatmap. The
    /// result's dimensions are the element-wise minimum of the operands'
    /// dimensions — the larger grid is silently truncated, the merge never
    /// fails — and every retained cell is the sum of the two source cells at
    /// the same coordinates.
    pub fn add(self, other: Self) -> (r: Self)
        requires
            self.wf(),
            other.wf(),
            merge_fits(self, other),
        ensures
            is_merge_of(r, self, other),
    {
        Self::merged(&self, &other)
    }

    /// Merges another heatmap into the current one in place, with the same
    /// truncation and cell-wise-sum semantics as `add`.
    pub fn add_assign(&mut self, other: Self)
        requires
            old(self).wf(),
            other.wf(),
            merge_fits(*old(self), other),
        ensures
            is_merge_of(*final(self), *old(self), other),
    {
        let merged = Self::merged(&*self, &other);
        *self = merged;
    }
}

/// The width of the merge of two heatmaps: the smaller of the two widths.
pub open spec fn merge_width(a: Heatmap, b: Heatmap) -> u32 {
    if a.spec_width() <= b.spec_width() {
        a.spec_width()
    } else {
        b.spec_width()
    }
}

/// The height of the merge of two heatmaps: the smaller of the two heights.
pub open spec fn merge_height(a: Heatmap, b: Heatmap) -> u32 {
    if a.spec_height() <= b.spec_height() {
        a.spec_height()
    } else {
        b.spec_height()
    }
}

/// Every retained cell of the merge of `a` and `b` can be summed without
/// overflowing a `u64`.
pub open spec fn merge_fits(a: Heatmap, b: Heatmap) -> bool {
    forall|x: u32, y: u32|
        x < merge_width(a, b) && y < merge_height(a, b) ==> #[trigger] a.spec_at(x, y)
            + #[trigger] b.spec_at(x, y) <= u64::MAX
}

/// `r` is the merge of `a` and `b`: its dimensions are the element-wise
/// minimum of the two operands' dimensions (the larger grid is silently
/// truncated rather than the merge failing), and every retained cell is the
/// sum of the two source cells at the same coordinates.
pub open spec fn is_merge_of(r: Heatmap, a: Heatmap, b: Heatmap) -> bool {
    &&& r.wf()
    &&& r.spec_width() == merge_width(a, b)
    &&& r.spec_height() == merge_height(a, b)
    &&& forall|x: u32, y: u32|
        x < merge_width(a, b) && y < merge_height(a, b) ==> #[trigger] r.spec_at(x, y)
            == a.spec_at(x, y) + b.spec_at(x, y)
}

/// Every in-range cell of `hm` holds a value that the closure `f` may return
/// for that cell's coordinates.
pub open spec fn filled_with<F: Fn(u32, u32) -> u64>(hm: Heatmap, f: F) -> bool {
    forall|x: u32, y: u32|
        hm.in_range(x, y) ==> call_ensures(f, (x, y), #[trigger] hm.spec_at(x, y))
}

/// A flat row-major index taken in a row strictly before row `y` lies below
/// the start of row `y`.
proof fn lemma_row_major_prefix(w: int, y: int, a: int, b: int)
    requires
        0 <= a < w,
        0 <= b < y,
    ensures
        b * w + a < y * w,
{
    assert(b * w + a < y * w) by (nonlinear_arith)
        requires
            0 <= a < w,
            0 <= b < y,
    ;
}

/// In a well-formed heatmap, the row-major flat index of an in-range
/// coordinate fits in `u32` and lies inside the cell sequence.
pub proof fn lemma_in_range_flat_index(hm: Heatmap, x: u32, y: u32)
    requires
        hm.wf(),
        hm.in_range(x, y),
    ensures
        y * hm.spec_width() + x < hm.cells().len(),
        y * hm.spec_width() + x <= u32::MAX,
{
    let w = hm.spec_width() as int;
    let h = hm.spec_height() as int;
    assert(y * w + x < w * h) by (nonlinear_arith)
        requires
            x < w,
            y < h,
            0 <= x,
            0 <= y,
    ;
}

impl PartialEq for Heatmap {
    fn eq(&self, other: &Self) -> (r: bool) {
        self.width == other.width && self.height == other.height && cells_eq(
            &self.inner,
            &other.inner,
        )
    }
}

impl vstd::std_specs::cmp::PartialEqSpecImpl for Heatmap {
    open spec fn obeys_eq_spec() -> bool {
        true
    }

    /// Two heatmaps are equal exactly when they have the same width, the
    /// same height and the same cell-by-cell magnitudes.
    open spec fn eq_spec(&self, other: &Heatmap) -> bool {
        self.spec_width() == other.spec_width() && self.spec_height() == other.spec_height()
            && self.cells() == other.cells()
    }
}

impl Eq for Heatmap {}

impl PartialEq<Vec<u64>> for Heatmap {
    fn eq(&self, other: &Vec<u64>) -> (r: bool) {
        cells_eq(&self.inner, other)
    }
}

impl vstd::std_specs::cmp::PartialEqSpecImpl<Vec<u64>> for Heatmap {
    open spec fn obeys_eq_spec() -> bool {
        true
    }

    /// A heatmap equals a plain vector of magnitudes exactly when its cells,
    /// row-major, are that sequence.
    open spec fn eq_spec(&self, other: &Vec<u64>) -> bool {
        self.cells() == other@
    }
}

impl PartialEq<Heatmap> for Vec<u64> {
    fn eq(&self, other: &Heatmap) -> (r: bool) {
        cells_eq(self, &other.inner)
    }
}

impl vstd::std_specs::cmp::PartialEqSpecImpl<Heatmap> for Vec<u64> {
    open spec fn obeys_eq_spec() -> bool {
        true
    }

    /// A plain vector of magnitudes equals a heatmap exactly when it is the
    /// heatmap's row-major cell sequence.
    open spec fn eq_spec(&self, other: &Heatmap) -> bool {
        self@ == other.cells()
    }
}

/// True exactly when the two vectors hold the same sequence of words.
fn cells_eq(a: &Vec<u64>, b: &Vec<u64>) -> (r: bool)
    ensures
        r == (a@ == b@),
{
    if a.len() != b.len() {
        return false;
    }
    let mut i: usize = 0;
    while i < a.len()
        invariant
            a@.len() == b@.len(),
            i <= a@.len(),
            forall|k: int| 0 <= k < i ==> a@[k] == b@[k],
        decreases a@.len() - i,
    {
        if a[i] != b[i] {
            return false;
        }
        i += 1;
    }
    proof {
        assert(a@ =~= b@);
    }
    true
}

/// Law: merging is commutative — a heatmap is the merge of `a` and `b`
/// exactly when it is the merge of `b` and `a`. Either way the retained
/// region is the element-wise minimum of the two operands' dimensions and
/// each retained cell is the sum of the two source cells at its coordinates.
pub proof fn lemma_merge_commutes(r: Heatmap, a: Heatmap, b: Heatmap)
    ensures
        is_merge_of(r, a, b) <==> is_merge_of(r, b, a),
{
    assert(merge_width(a, b) == merge_width(b, a));
    assert(merge_height(a, b) == merge_height(b, a));
}

/// Law: a heatmap built by a filling closure reads back exactly — when the
/// closure returns one fixed value for given in-range coordinates, the cell
/// at those coordinates holds that value.
pub proof fn lemma_filled_reads_exactly<F: Fn(u32, u32) -> u64>(
    hm: Heatmap,
    f: F,
    x: u32,
    y: u32,
    v: u64,
)
    requires
        filled_with(hm, f),
        hm.in_range(x, y),
        forall|ret: u64| call_ensures(f, (x, y), ret) ==> ret == v,
    ensures
        hm.spec_at(x, y) == v,
{
    assert(call_ensures(f, (x, y), hm.spec_at(x, y)));
}

/// Law: a well-formed heatmap whose cells are all zero — for instance one
/// that was just cleared — reads zero at every in-range coordinate.
pub proof fn lemma_zeroed_reads_zero(hm: Heatmap, x: u32, y: u32)
    requires
        hm.wf(),
        forall|i: int| 0 <= i < hm.cells().len() ==> hm.cells()[i] == 0,
        hm.in_range(x, y),
    ensures
        hm.spec_at(x, y) == 0,
{
    lemma_in_range_flat_index(hm, x, y);
}

/// A vector of `n` zeroed cells.
fn zeros(n: usize) -> (v: Vec<u64>)
    ensures
        v@.len() == n,
        forall|i: int| 0 <= i < n ==> v@[i] == 0,
{
    let mut v: Vec<u64> = Vec::new();
    let mut i: usize = 0;
    while i < n
        invariant
            i == v@.len(),
            i <= n,
            forall|k: int| 0 <= k < i ==> v@[k] == 0,
        decreases n - i,
    {
        v.push(0);
        i += 1;
    }
    v
}

} // verus!

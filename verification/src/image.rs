use vstd::prelude::*;

verus! {

/// How reads outside the buffer extent are resolved.
#[derive(Copy, Clone)]
pub enum EdgeStrategy {
    /// Out-of-range coordinates are clamped to the nearest edge sample.
    EdgeReplication,
}

/// Dense 2D grid of 8-bit samples, stored row-major, with boundary-clamped
/// read access.
pub struct GreyscaleImage {
    data: Vec<u8>,
    width: usize,
    height: usize,
    edge_strategy: EdgeStrategy,
}

impl View for GreyscaleImage {
    type V = Seq<u8>;

    closed spec fn view(&self) -> Seq<u8> {
        self.data@
    }
}

impl GreyscaleImage {
    pub closed spec fn spec_width(self) -> int {
        self.width as int
    }

    pub closed spec fn spec_height(self) -> int {
        self.height as int
    }

    /// The backing store covers exactly `width * height` samples, and both
    /// extents (as well as the whole sample count) fit signed indexing.
    pub open spec fn wf(self) -> bool {
        &&& self@.len() == self.spec_width() * self.spec_height()
        &&& self.spec_width() * self.spec_height() <= isize::MAX as int
        &&& self.spec_width() <= isize::MAX as int
        &&& self.spec_height() <= isize::MAX as int
    }

    pub open spec fn in_range(self, x: int, y: int) -> bool {
        0 <= x < self.spec_width() && 0 <= y < self.spec_height()
    }

    /// The sample at in-range coordinates, without any boundary policy.
    pub open spec fn pix(self, x: int, y: int) -> u8 {
        self@[y * self.spec_width() + x]
    }

    pub open spec fn clamp_coord(v: int, extent: int) -> int {
        if v < 0 {
            0
        } else if v > extent - 1 {
            extent - 1
        } else {
            v
        }
    }

    /// The sample read at arbitrary signed coordinates under edge replication.
    pub open spec fn pix_clamped(self, x: int, y: int) -> u8 {
        self.pix(
            Self::clamp_coord(x, self.spec_width()),
            Self::clamp_coord(y, self.spec_height()),
        )
    }

    /// A zero-filled buffer of the given extents.
    pub fn new(width: usize, height: usize) -> (r: Self)
        requires
            width * height <= isize::MAX as usize,
            width <= isize::MAX as usize,
            height <= isize::MAX as usize,
        ensures
            r.wf(),
            r.spec_width() == width,
            r.spec_height() == height,
            forall|x: int, y: int| r.in_range(x, y) ==> r.pix(x, y) == 0u8,
    {
        let n = width * height;
        let mut data: Vec<u8> = Vec::new();
        while data.len() < n
            invariant
                data@.len() <= n,
                forall|i: int| 0 <= i < data@.len() ==> data@[i] == 0u8,
            decreases n - data@.len(),
        {
            data.push(0);
        }
        let r = GreyscaleImage { data, width, height, edge_strategy: EdgeStrategy::EdgeReplication };
        proof {
            assert forall|x: int, y: int| r.in_range(x, y) implies r.pix(x, y) == 0u8 by {
                lemma_flat_index_bounds(x, y, r.spec_width(), r.spec_height());
            }
        }
        r
    }

    pub fn width(&self) -> (r: usize)
        ensures
            r == self.spec_width(),
    {
        self.width
    }

    pub fn height(&self) -> (r: usize)
        ensures
            r == self.spec_height(),
    {
        self.height
    }

    /// Clamp a signed column index into the valid extent.
    fn x(&self, x: isize) -> (r: isize)
        requires
            self.wf(),
            self.spec_width() >= 1,
        ensures
            r == Self::clamp_coord(x as int, self.spec_width()),
    {
        let wm1 = (self.width - 1) as isize;
        if x < 0 {
            0
        } else if x > wm1 {
            wm1
        } else {
            x
        }
    }

    /// Clamp a signed row index into the valid extent.
    fn y(&self, y: isize) -> (r: isize)
        requires
            self.wf(),
            self.spec_height() >= 1,
        ensures
            r == Self::clamp_coord(y as int, self.spec_height()),
    {
        let hm1 = (self.height - 1) as isize;
        if y < 0 {
            0
        } else if y > hm1 {
            hm1
        } else {
            y
        }
    }

    /// Boundary-clamped read: total for every signed coordinate pair.
    pub fn at(&self, x: isize, y: isize) -> (r: u8)
        requires
            self.wf(),
            self.spec_width() >= 1,
            self.spec_height() >= 1,
        ensures
            r == self.pix_clamped(x as int, y as int),
    {
        match self.edge_strategy {
            EdgeStrategy::EdgeReplication => {
                let cx = self.x(x);
                let cy = self.y(y);
                proof {
                    lemma_flat_index_bounds(cx as int, cy as int, self.spec_width(), self.spec_height());
                }
                self.data[(cy * self.width as isize + cx) as usize]
            }
        }
    }

    /// Duplicates samples, extents and boundary policy.
    pub fn copy_from(other: &GreyscaleImage) -> (r: Self)
        requires
            other.wf(),
        ensures
            r.wf(),
            r.spec_width() == other.spec_width(),
            r.spec_height() == other.spec_height(),
            r@ == other@,
    {
        let mut data: Vec<u8> = Vec::new();
        let n = other.data.len();
        while data.len() < n
            invariant
                n == other@.len(),
                data@.len() <= n,
                data@ == other@.subrange(0, data@.len() as int),
            decreases n - data@.len(),
        {
            let i = data.len();
            data.push(other.data[i]);
            proof {
                assert(data@ =~= other@.subrange(0, data@.len() as int));
            }
        }
        proof {
            assert(data@ =~= other@);
        }
        Self {
            width: other.width,
            height: other.height,
            data,
            edge_strategy: other.edge_strategy,
        }
    }

    /// Wrap an existing row-major sample array in a buffer.
    pub fn from_samples(width: usize, height: usize, samples: Vec<u8>) -> (r: Self)
        requires
            samples@.len() == width * height,
            width * height <= isize::MAX as usize,
            width <= isize::MAX as usize,
            height <= isize::MAX as usize,
        ensures
            r.wf(),
            r.spec_width() == width,
            r.spec_height() == height,
            r@ == samples@,
    {
        GreyscaleImage {
            data: samples,
            width,
            height,
            edge_strategy: EdgeStrategy::EdgeReplication,
        }
    }

    /// Hand the row-major sample array back out.
    pub fn into_samples(self) -> (r: Vec<u8>)
        ensures
            r@ == self@,
    {
        self.data
    }

    /// One buffer holds, sample for sample, the transpose of another.
    pub open spec fn is_transpose_of(self, other: Self) -> bool {
        &&& self.spec_width() == other.spec_height()
        &&& self.spec_height() == other.spec_width()
        &&& forall|x: int, y: int| self.in_range(x, y) ==> self.pix(x, y) == other.pix(y, x)
    }

    /// Swap rows for columns, copying through fixed-size row blocks.
    pub fn transpose(&mut self)
        requires
            old(self).wf(),
        ensures
            final(self).wf(),
            final(self).is_transpose_of(*old(self)),
    {
        let n = self.height;
        let p = self.width;
        let total = p * n;
        let mut dst: Vec<u8> = Vec::new();
        while dst.len() < total
            invariant
                dst@.len() <= total,
            decreases total - dst@.len(),
        {
            dst.push(0);
        }
        let ghost src = self.data@;
        let mut i: usize = 0;
        while i < n
            invariant
                self.wf(),
                n == self.spec_height(),
                p == self.spec_width(),
                src == self.data@,
                total == p * n,
                dst@.len() == total,
                i <= n,
                forall|r: int, j: int|
                    0 <= r < i && 0 <= j < p ==> (#[trigger] dst@[j * n + r]) == src[r * p + j],
            decreases n - i,
        {
            let bend = if n - i < 32 {
                n
            } else {
                i + 32
            };
            let mut j: usize = 0;
            while j < p
                invariant
                    self.wf(),
                    n == self.spec_height(),
                    p == self.spec_width(),
                    src == self.data@,
                    total == p * n,
                    dst@.len() == total,
                    i < n,
                    i < bend <= n,
                    j <= p,
                    forall|r: int, jj: int|
                        0 <= r < i && 0 <= jj < p ==> (#[trigger] dst@[jj * n + r]) == src[r * p + jj],
                    forall|r: int, jj: int|
                        i <= r < bend && 0 <= jj < j ==> (#[trigger] dst@[jj * n + r]) == src[r * p + jj],
                decreases p - j,
            {
                let mut b: usize = i;
                while b < bend
                    invariant
                        self.wf(),
                        n == self.spec_height(),
                        p == self.spec_width(),
                        src == self.data@,
                        total == p * n,
                        dst@.len() == total,
                        i < n,
                        i < bend <= n,
                        j < p,
                        i <= b <= bend,
                        forall|r: int, jj: int|
                            0 <= r < i && 0 <= jj < p ==> (#[trigger] dst@[jj * n + r]) == src[r * p + jj],
                        forall|r: int, jj: int|
                            i <= r < bend && 0 <= jj < j ==> (#[trigger] dst@[jj * n + r]) == src[r * p + jj],
                        forall|r: int| i <= r < b ==> (#[trigger] dst@[j * n + r]) == src[r * p + j],
                    decreases bend - b,
                {
                    proof {
                        lemma_flat_index_bounds(b as int, j as int, n as int, p as int);
                        lemma_flat_index_bounds(j as int, b as int, p as int, n as int);
                    }
                    let v = self.data[b * p + j];
                    dst.set(j * n + b, v);
                    proof {
                        assert forall|r: int, jj: int|
                            0 <= r < i && 0 <= jj < p implies (#[trigger] dst@[jj * n + r]) == src[r * p + jj] by {
                            lemma_flat_index_bounds(r, jj, n as int, p as int);
                            lemma_flat_index_injective(r, jj, b as int, j as int, n as int, p as int);
                        }
                        assert forall|r: int, jj: int|
                            i <= r < bend && 0 <= jj < j implies (#[trigger] dst@[jj * n + r]) == src[r * p
                            + jj] by {
                            lemma_flat_index_bounds(r, jj, n as int, p as int);
                            lemma_flat_index_injective(r, jj, b as int, j as int, n as int, p as int);
                        }
                        assert forall|r: int| i <= r < b + 1 implies (#[trigger] dst@[j * n + r]) == src[r * p
                            + j] by {
                            lemma_flat_index_bounds(r, j as int, n as int, p as int);
                            if r < b {
                                lemma_flat_index_injective(
                                    r,
                                    j as int,
                                    b as int,
                                    j as int,
                                    n as int,
                                    p as int,
                                );
                            }
                        }
                    }
                    b = b + 1;
                }
                j = j + 1;
            }
            i = bend;
        }
        self.width = n;
        self.height = p;
        self.data = dst;
        proof {
            assert forall|x: int, y: int| self.in_range(x, y) implies self.pix(x, y) == old(
                self,
            ).pix(y, x) by {
                lemma_flat_index_bounds(x, y, n as int, p as int);
            }
            assert(self.wf()) by (nonlinear_arith)
                requires
                    self.spec_width() == n as int,
                    self.spec_height() == p as int,
                    self@.len() == (p * n) as int,
                    n as int * (p as int) <= isize::MAX as int,
                    n <= isize::MAX as usize,
                    p <= isize::MAX as usize,
            ;
        }
    }

    /// Write one sample at in-range coordinates; every other sample is kept.
    pub fn set(&mut self, x: usize, y: usize, value: u8)
        requires
            old(self).wf(),
            x < old(self).spec_width(),
            y < old(self).spec_height(),
        ensures
            final(self).wf(),
            final(self).spec_width() == old(self).spec_width(),
            final(self).spec_height() == old(self).spec_height(),
            forall|xx: int, yy: int|
                final(self).in_range(xx, yy) ==> final(self).pix(xx, yy) == (if xx == x as int
                    && yy == y as int {
                    value
                } else {
                    old(self).pix(xx, yy)
                }),
    {
        proof {
            lemma_flat_index_bounds(x as int, y as int, self.spec_width(), self.spec_height());
        }
        let idx = y * self.width + x;
        self.data.set(idx, value);
        proof {
            assert forall|xx: int, yy: int| self.in_range(xx, yy) implies self.pix(xx, yy) == (
            if xx == x as int && yy == y as int {
                value
            } else {
                old(self).pix(xx, yy)
            }) by {
                lemma_flat_index_bounds(xx, yy, self.spec_width(), self.spec_height());
                if !(xx == x as int && yy == y as int) {
                    lemma_flat_index_injective(
                        xx,
                        yy,
                        x as int,
                        y as int,
                        self.spec_width(),
                        self.spec_height(),
                    );
                }
            }
        }
    }
}

/// Law: transposing a buffer twice restores every sample and both extents.
pub proof fn lemma_transpose_involution(a: GreyscaleImage, b: GreyscaleImage, c: GreyscaleImage)
    requires
        a.wf(),
        b.wf(),
        c.wf(),
        b.is_transpose_of(a),
        c.is_transpose_of(b),
    ensures
        c.spec_width() == a.spec_width(),
        c.spec_height() == a.spec_height(),
        c@ =~= a@,
{
    let w = a.spec_width();
    let h = a.spec_height();
    assert forall|i: int| 0 <= i < a@.len() implies c@[i] == a@[i] by {
        let x = i % w;
        let y = i / w;
        assert(w > 0 && h > 0) by (nonlinear_arith)
            requires
                w >= 0,
                h >= 0,
                0 <= i < w * h,
        ;
        vstd::arithmetic::div_mod::lemma_mod_bound(i, w);
        vstd::arithmetic::div_mod::lemma_multiply_divide_lt(i, w, h);
        vstd::arithmetic::div_mod::lemma_fundamental_div_mod(i, w);
        vstd::arithmetic::mul::lemma_mul_is_commutative(w, y);
        assert(c.pix(x, y) == b.pix(y, x));
        assert(b.pix(y, x) == a.pix(x, y));
    }
}

/// Row-major flattening keeps in-range coordinates inside the store.
proof fn lemma_flat_index_bounds(x: int, y: int, w: int, h: int)
    by (nonlinear_arith)
    requires
        0 <= x < w,
        0 <= y < h,
    ensures
        0 <= y * w + x < w * h,
        y * w + x < h * w,
{
}

/// Row-major flattening maps distinct coordinate pairs to distinct indices.
proof fn lemma_flat_index_injective(x1: int, y1: int, x2: int, y2: int, w: int, h: int)
    by (nonlinear_arith)
    requires
        0 <= x1 < w,
        0 <= y1 < h,
        0 <= x2 < w,
        0 <= y2 < h,
        !(x1 == x2 && y1 == y2),
    ensures
        y1 * w + x1 != y2 * w + x2,
{
}

/// Bounded accessor over one row of working data: reads outside the row
/// yield zero, which expresses the filter's implicit zero padding at the
/// row edges without branching at the call sites.
pub struct Row<'a> {
    inner: &'a [u8],
}

impl<'a> Row<'a> {
    pub closed spec fn contents(self) -> Seq<u8> {
        self.inner@
    }

    pub fn new(inner: &'a [u8]) -> (r: Self)
        requires
            inner@.len() <= isize::MAX as usize,
        ensures
            r.contents() == inner@,
            r.contents().len() <= isize::MAX as int,
    {
        Self { inner }
    }

    /// Zero-defaulted read at any signed index.
    pub fn at(&self, index: isize) -> (r: u8)
        requires
            self.contents().len() <= isize::MAX as int,
        ensures
            r == (if 0 <= index < self.contents().len() {
                self.contents()[index as int]
            } else {
                0u8
            }),
    {
        if index < 0 {
            0
        } else if index >= self.inner.len() as isize {
            0
        } else {
            self.inner[index as usize]
        }
    }
}

} // verus!

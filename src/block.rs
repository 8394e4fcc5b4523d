//! The pixel buffer: a `width` x `height` grid of 32-bit cells held as
//! `width * height * 4` contiguous bytes, cell `(x, y)` at byte offset
//! `(x + y * width) * 4`, each cell stored most significant byte first.

use vstd::prelude::*;
use crate::pack::{pack_be, bytes_be, lemma_pack_bytes_be};
use crate::text::{cell_text, push_cell_text};

verus! {

/// Cell `(x, y)` of a grid `w` cells wide is cell number `x + y * w`, which lies
/// below `w * h` when `y < h`.
proof fn lemma_cell_below_area(w: int, h: int, x: int, y: int)
    requires
        0 <= x < w,
        0 <= y < h,
    ensures
        0 <= x + y * w < w * h,
{
    assert(0 <= y * w <= (h - 1) * w) by (nonlinear_arith)
        requires 0 <= y < h, 0 < w;
    assert((h - 1) * w == w * h - w) by (nonlinear_arith);
}

/// Two in-range cells with the same cell number are the same cell.
proof fn lemma_cell_unique(w: int, x1: int, y1: int, x2: int, y2: int)
    requires
        0 <= x1 < w,
        0 <= x2 < w,
        0 <= y1,
        0 <= y2,
        x1 + y1 * w == x2 + y2 * w,
    ensures
        x1 == x2,
        y1 == y2,
{
    if y1 < y2 {
        assert(y1 * w + w <= y2 * w) by (nonlinear_arith)
            requires y1 < y2, 0 < w;
    } else if y2 < y1 {
        assert(y2 * w + w <= y1 * w) by (nonlinear_arith)
            requires y2 < y1, 0 < w;
    }
}

/// `s` with the four bytes from offset `b` replaced by the bytes of `v`,
/// most significant first.
pub open spec fn store_be(s: Seq<u8>, b: int, v: u32) -> Seq<u8> {
    Seq::new(s.len(), |i: int| if b <= i < b + 4 { bytes_be(v)[i - b] } else { s[i] })
}

/// Cell `(px, py)` of the destination receives a source cell once the copy at
/// `origin` has gone through the source rows before `rows`, and then the first
/// `cols` cells of row `rows`.
spec fn copied(origin: (usize, usize), sw: int, rows: int, cols: int, px: int, py: int) -> bool {
    let (ox, oy) = (origin.0 as int, origin.1 as int);
    (ox <= px < ox + sw && oy <= py < oy + rows) || (py == oy + rows && ox <= px < ox + cols)
}

/// A grid of 32-bit pixels in one owned, contiguous byte region.
#[derive(Debug)]
pub struct MemBlock {
    slc: Vec<u8>,
    size: (usize, usize),
}

impl View for MemBlock {
    type V = Seq<u8>;

    /// The raw bytes of the grid.
    closed spec fn view(&self) -> Seq<u8> {
        self.slc@
    }
}

impl Clone for MemBlock {
    /// A grid of the same shape holding the same bytes.
    fn clone(&self) -> (r: Self)
        ensures
            r@ == self@,
            r.width() == self.width(),
            r.height() == self.height(),
    {
        MemBlock { slc: self.slc.clone(), size: self.size }
    }
}

impl MemBlock {
    /// Number of cells in a row.
    pub closed spec fn width(&self) -> nat {
        self.size.0 as nat
    }

    /// Number of rows.
    pub closed spec fn height(&self) -> nat {
        self.size.1 as nat
    }

    /// The byte region holds exactly four bytes for each cell.
    pub open spec fn wf(&self) -> bool {
        self@.len() == self.width() * self.height() * 4
    }

    /// `(x, y)` names a cell of the grid.
    pub open spec fn in_bounds(&self, x: int, y: int) -> bool {
        0 <= x < self.width() && 0 <= y < self.height()
    }

    /// Byte offset of the first byte of cell `(x, y)`.
    pub open spec fn offset(&self, x: int, y: int) -> int {
        (x + y * self.width()) * 4
    }

    /// The value of cell `(x, y)`: its four bytes read most significant first.
    pub open spec fn pixel(&self, x: int, y: int) -> u32 {
        let b = self.offset(x, y);
        pack_be(self@[b], self@[b + 1], self@[b + 2], self@[b + 3])
    }

    /// The four bytes of an in-range cell lie inside the byte region.
    pub proof fn lemma_cell_in_region(&self, x: int, y: int)
        requires
            self.wf(),
            self.in_bounds(x, y),
        ensures
            0 <= self.offset(x, y),
            self.offset(x, y) + 4 <= self@.len(),
    {
        lemma_cell_below_area(self.width() as int, self.height() as int, x, y);
    }

    /// A zero-filled grid of `size.0` cells by `size.1` rows.
    /// At least one dimension must be positive.
    pub fn new(size: (usize, usize)) -> (r: Self)
        requires
            size.0 > 0 || size.1 > 0,
            size.0 * size.1 * 4 <= isize::MAX,
        ensures
            r.wf(),
            r.width() == size.0,
            r.height() == size.1,
            forall|i: int| 0 <= i < r@.len() ==> #[trigger] r@[i] == 0,
            forall|x: int, y: int| r.in_bounds(x, y) ==> #[trigger] r.pixel(x, y) == 0,
    {
        let n: usize = size.0 * size.1 * 4;
        let mut slc: Vec<u8> = Vec::new();
        let mut i: usize = 0;
        while i < n
            invariant
                i <= n,
                slc@.len() == i,
                forall|j: int| 0 <= j < i ==> #[trigger] slc@[j] == 0,
            decreases n - i,
        {
            slc.push(0u8);
            i = i + 1;
        }
        let r = MemBlock { slc, size };
        assert(pack_be(0, 0, 0, 0) == 0) by (bit_vector);
        assert forall|x: int, y: int| r.in_bounds(x, y) implies #[trigger] r.pixel(x, y) == 0 by {
            r.lemma_cell_in_region(x, y);
        }
        r
    }

    /// A grid of `size.0` cells by `size.1` rows, every cell holding `value`.
    pub fn new_with_value(size: (usize, usize), value: u32) -> (r: Self)
        requires
            size.0 * size.1 * 4 <= isize::MAX,
        ensures
            r.wf(),
            r.width() == size.0,
            r.height() == size.1,
            forall|i: int| 0 <= i < r@.len() ==> #[trigger] r@[i] == bytes_be(value)[i % 4],
            forall|x: int, y: int| r.in_bounds(x, y) ==> #[trigger] r.pixel(x, y) == value,
    {
        let cells: usize = size.0 * size.1;
        let b0 = (value >> 24u32) as u8;
        let b1 = (value >> 16u32) as u8;
        let b2 = (value >> 8u32) as u8;
        let b3 = value as u8;
        let mut slc: Vec<u8> = Vec::new();
        let mut c: usize = 0;
        while c < cells
            invariant
                cells == size.0 * size.1,
                cells * 4 <= isize::MAX,
                c <= cells,
                slc@.len() == c * 4,
                b0 == bytes_be(value)[0],
                b1 == bytes_be(value)[1],
                b2 == bytes_be(value)[2],
                b3 == bytes_be(value)[3],
                forall|j: int| 0 <= j < slc@.len() ==> #[trigger] slc@[j] == bytes_be(value)[j % 4],
            decreases cells - c,
        {
            slc.push(b0);
            slc.push(b1);
            slc.push(b2);
            slc.push(b3);
            c = c + 1;
        }
        let r = MemBlock { slc, size };
        assert forall|x: int, y: int| r.in_bounds(x, y) implies #[trigger] r.pixel(x, y) == value by {
            r.lemma_cell_in_region(x, y);
            let b = r.offset(x, y);
            assert(r@[b] == bytes_be(value)[0]);
            assert(r@[b + 1] == bytes_be(value)[1]);
            assert(r@[b + 2] == bytes_be(value)[2]);
            assert(r@[b + 3] == bytes_be(value)[3]);
            lemma_pack_bytes_be(value);
        }
        r
    }

    /// The byte at offset `index`.
    fn read_u8(&self, index: usize) -> (r: u8)
        requires
            self.wf(),
            index < self.width() * self.height() * 4,
        ensures
            r == self@[index as int],
    {
        self.slc[index]
    }

    /// Sets the byte at offset `index` to `data`.
    fn write_u8(&mut self, index: usize, data: u8)
        requires
            old(self).wf(),
            index < old(self).width() * old(self).height() * 4,
        ensures
            final(self).wf(),
            final(self).width() == old(self).width(),
            final(self).height() == old(self).height(),
            final(self)@ == old(self)@.update(index as int, data),
    {
        self.slc.set(index, data);
    }

    /// Byte offset of in-range cell `index`; it and the three bytes after it lie
    /// in the region.
    fn cell_offset(&self, index: (usize, usize)) -> (r: usize)
        requires
            self.wf(),
            self.in_bounds(index.0 as int, index.1 as int),
        ensures
            r == self.offset(index.0 as int, index.1 as int),
            r + 4 <= self.width() * self.height() * 4,
    {
        proof {
            self.lemma_cell_in_region(index.0 as int, index.1 as int);
        }
        // The region's length fits in a usize, and so does every offset below it.
        let _len: usize = self.slc.len();
        let w: usize = self.size.0;
        assert(index.1 * w <= index.0 + index.1 * w);
        (index.0 + index.1 * w) * 4
    }

    /// The value of cell `index = (x, y)`, its bytes read most significant first.
    /// The cell must lie in the grid.
    pub fn read(&self, index: (usize, usize)) -> (r: u32)
        requires
            self.wf(),
            self.in_bounds(index.0 as int, index.1 as int),
        ensures
            r == self.pixel(index.0 as int, index.1 as int),
    {
        let b: usize = self.cell_offset(index);
        let b0 = self.read_u8(b);
        let b1 = self.read_u8(b + 1);
        let b2 = self.read_u8(b + 2);
        let b3 = self.read_u8(b + 3);
        ((b0 as u32) << 24u32) | ((b1 as u32) << 16u32) | ((b2 as u32) << 8u32) | (b3 as u32)
    }

    /// Stores `data` in cell `index = (x, y)`, most significant byte first.
    /// The cell must lie in the grid; no other cell changes.
    pub fn write(&mut self, index: (usize, usize), data: u32)
        requires
            old(self).wf(),
            old(self).in_bounds(index.0 as int, index.1 as int),
        ensures
            final(self).wf(),
            final(self).width() == old(self).width(),
            final(self).height() == old(self).height(),
            final(self)@ == store_be(old(self)@, old(self).offset(index.0 as int, index.1 as int), data),
            final(self).pixel(index.0 as int, index.1 as int) == data,
            forall|x: int, y: int|
                final(self).in_bounds(x, y) && (x, y) != (index.0 as int, index.1 as int)
                    ==> #[trigger] final(self).pixel(x, y) == old(self).pixel(x, y),
    {
        let ghost pre = *self;
        let b: usize = self.cell_offset(index);
        self.write_u8(b, (data >> 24u32) as u8);
        self.write_u8(b + 1, (data >> 16u32) as u8);
        self.write_u8(b + 2, (data >> 8u32) as u8);
        self.write_u8(b + 3, data as u8);
        assert(self@ =~= store_be(pre@, b as int, data));
        proof {
            lemma_pack_bytes_be(data);
            assert forall|x: int, y: int|
                self.in_bounds(x, y) && (x, y) != (index.0 as int, index.1 as int)
                implies #[trigger] self.pixel(x, y) == pre.pixel(x, y) by {
                self.lemma_cell_in_region(x, y);
                if x + y * self.width() == index.0 + index.1 * self.width() {
                    lemma_cell_unique(self.width() as int, x, y, index.0 as int, index.1 as int);
                }
            }
        }
    }

    /// The text of the first `n` cells of row `y`.
    pub open spec fn row_text(&self, y: int, n: nat) -> Seq<u8>
        decreases n,
    {
        if n == 0 {
            seq![]
        } else {
            self.row_text(y, (n - 1) as nat) + cell_text(self.pixel(n - 1, y))
        }
    }

    /// The text of the first `rows` rows, each ending in a line feed.
    pub open spec fn rows_text(&self, rows: nat) -> Seq<u8>
        decreases rows,
    {
        if rows == 0 {
            seq![]
        } else {
            self.rows_text((rows - 1) as nat) + self.row_text(rows - 1, self.width()) + seq![10u8]
        }
    }

    /// The grid as ASCII text: one line per row, top to bottom, each cell
    /// written as a space and eight upper-case hexadecimal digits.
    pub fn table_text(&self) -> (r: Vec<u8>)
        requires
            self.wf(),
        ensures
            r@ == self.rows_text(self.height()),
    {
        let w: usize = self.size.0;
        let h: usize = self.size.1;
        let mut out: Vec<u8> = Vec::new();
        let mut y: usize = 0;
        while y < h
            invariant
                self.wf(),
                w == self.width(),
                h == self.height(),
                y <= h,
                out@ == self.rows_text(y as nat),
            decreases h - y,
        {
            let mut x: usize = 0;
            while x < w
                invariant
                    self.wf(),
                    w == self.width(),
                    h == self.height(),
                    y < h,
                    x <= w,
                    out@ == self.rows_text(y as nat) + self.row_text(y as int, x as nat),
                decreases w - x,
            {
                let v = self.read((x, y));
                push_cell_text(&mut out, v);
                x = x + 1;
                assert(out@ =~= self.rows_text(y as nat) + self.row_text(y as int, x as nat));
            }
            out.push(10u8);
            y = y + 1;
        }
        out
    }

    /// No source cell placed at `origin` lands inside this grid: the origin lies at
    /// or past its right or bottom edge, or the source has no cells.
    pub open spec fn misses(&self, origin: (usize, usize), source: &MemBlock) -> bool {
        origin.0 >= self.width() || origin.1 >= self.height() || source.width() == 0
            || source.height() == 0
    }

    /// The value that cell `(x, y)` holds after `source` is copied onto `pre` with
    /// its cell `(0, 0)` at `origin`.
    pub open spec fn blitted(pre: &MemBlock, origin: (usize, usize), source: &MemBlock, x: int, y: int) -> u32 {
        let (ox, oy) = (origin.0 as int, origin.1 as int);
        if ox <= x < ox + source.width() && oy <= y < oy + source.height() {
            source.pixel(x - ox, y - oy)
        } else {
            pre.pixel(x, y)
        }
    }

    /// Copies `source` onto this grid, source cell `(sx, sy)` going to cell
    /// `(index.0 + sx, index.1 + sy)`. Source cells that land past the right or
    /// bottom edge are skipped.
    pub fn dma(&mut self, index: (usize, usize), source: &Self)
        requires
            old(self).wf(),
            source.wf(),
        ensures
            final(self).wf(),
            final(self).width() == old(self).width(),
            final(self).height() == old(self).height(),
            forall|x: int, y: int| final(self).in_bounds(x, y) ==>
                #[trigger] final(self).pixel(x, y) == Self::blitted(old(self), index, source, x, y),
            old(self).misses(index, source) ==> final(self)@ == old(self)@,
    {
        let ghost pre = *self;
        let w: usize = self.size.0;
        let h: usize = self.size.1;
        let sw: usize = source.size.0;
        let sh: usize = source.size.1;
        let mut y: usize = 0;
        while y < sh
            invariant
                self.wf(),
                self.width() == pre.width() == w,
                self.height() == pre.height() == h,
                source.width() == sw,
                source.height() == sh,
                source.wf(),
                y <= sh,
                forall|px: int, py: int| self.in_bounds(px, py) ==>
                    #[trigger] self.pixel(px, py) == if copied(index, sw as int, y as int, 0, px, py) {
                        source.pixel(px - index.0, py - index.1)
                    } else {
                        pre.pixel(px, py)
                    },
                pre.misses(index, source) ==> self@ == pre@,
            decreases sh - y,
        {
            let mut x: usize = 0;
            while x < sw
                invariant
                    self.wf(),
                    self.width() == pre.width() == w,
                    self.height() == pre.height() == h,
                    source.width() == sw,
                    source.height() == sh,
                    source.wf(),
                    y < sh,
                    x <= sw,
                    forall|px: int, py: int| self.in_bounds(px, py) ==>
                        #[trigger] self.pixel(px, py) == if copied(index, sw as int, y as int, x as int, px, py) {
                            source.pixel(px - index.0, py - index.1)
                        } else {
                            pre.pixel(px, py)
                        },
                    pre.misses(index, source) ==> self@ == pre@,
                decreases sw - x,
            {
                if index.0 < w && x < w - index.0 && index.1 < h && y < h - index.1 {
                    let v = source.read((x, y));
                    self.write((index.0 + x, index.1 + y), v);
                }
                x = x + 1;
            }
            y = y + 1;
        }
    }

    /// The raw bytes, borrowed for reading.
    pub fn as_bytes(&self) -> (r: &[u8])
        ensures
            r@ == self@,
    {
        self.slc.as_slice()
    }

    /// The raw bytes, borrowed for writing; the shape stays as it is.
    pub fn as_bytes_mut(&mut self) -> (r: &mut [u8])
        ensures
            r@ == old(self)@,
            final(self)@ == final(r)@,
            final(self).width() == old(self).width(),
            final(self).height() == old(self).height(),
    {
        self.slc.as_mut_slice()
    }

    /// The grid's shape: cells per row, and rows.
    pub fn size(&self) -> (r: (usize, usize))
        ensures
            r.0 == self.width(),
            r.1 == self.height(),
    {
        self.size
    }
}

} // verus!

//! Greyscale rasters and the binary masks thresholded from them.
use vstd::prelude::*;

verus! {

/// Number of `true` entries of `s`.
pub open spec fn count_true(s: Seq<bool>) -> nat
    decreases s.len(),
{
    if s.len() == 0 {
        0
    } else {
        count_true(s.drop_last()) + if s.last() {
            1nat
        } else {
            0nat
        }
    }
}

/// The cells that binary thresholding at `threshold` makes FOREGROUND:
/// a cell is FOREGROUND exactly when its luma is at least the threshold.
pub open spec fn threshold_cells(luma: Seq<u8>, threshold: int) -> Seq<bool> {
    Seq::new(luma.len(), |i: int| luma[i] as int >= threshold)
}

/// Largest pixel count that a raster may hold: the labelling of components
/// numbers pixels with `u32` values.
pub const MAX_PIXELS: u64 = 0xffff_ffff;

/// A greyscale raster: one 8-bit luma sample per pixel, row-major, origin top-left.
pub struct Raster {
    width: u32,
    height: u32,
    luma: Vec<u8>,
}

impl Raster {
    pub closed spec fn spec_width(&self) -> nat {
        self.width as nat
    }

    pub closed spec fn spec_height(&self) -> nat {
        self.height as nat
    }

    pub closed spec fn view_luma(&self) -> Seq<u8> {
        self.luma@
    }

    /// The samples fill the grid exactly, and the grid is small enough to label.
    pub open spec fn wf(&self) -> bool {
        &&& self.view_luma().len() == self.spec_width() * self.spec_height()
        &&& self.view_luma().len() <= MAX_PIXELS
    }

    /// Builds a raster of `width` x `height` samples given row by row.
    /// `None` when the sample count is not `width * height`, or exceeds `MAX_PIXELS`.
    pub fn new(width: u32, height: u32, luma: Vec<u8>) -> (r: Option<Raster>)
        ensures
            r.is_some() <==> (luma@.len() == width as nat * height as nat && luma@.len()
                <= MAX_PIXELS),
            r matches Some(raster) ==> raster.wf() && raster.spec_width() == width
                && raster.spec_height() == height && raster.view_luma() == luma@,
    {
        proof {
            assert(width as nat * height as nat <= 0xffff_ffffnat * 0xffff_ffffnat) by (nonlinear_arith)
                requires
                    width <= 0xffff_ffffu32,
                    height <= 0xffff_ffffu32,
            ;
        }
        let n: u64 = width as u64 * height as u64;
        if luma.len() as u64 != n || n > MAX_PIXELS {
            None
        } else {
            Some(Raster { width, height, luma })
        }
    }

    pub fn width(&self) -> (r: u32)
        ensures
            r == self.spec_width(),
    {
        self.width
    }

    pub fn height(&self) -> (r: u32)
        ensures
            r == self.spec_height(),
    {
        self.height
    }

    pub fn luma(&self) -> (r: &Vec<u8>)
        ensures
            r@ == self.view_luma(),
    {
        &self.luma
    }
}

impl Clone for Raster {
    fn clone(&self) -> (r: Raster)
        ensures
            r.spec_width() == self.spec_width(),
            r.spec_height() == self.spec_height(),
            r.view_luma() == self.view_luma(),
    {
        Raster { width: self.width, height: self.height, luma: self.luma.clone() }
    }
}

/// A binary mask: `true` is FOREGROUND (white), `false` is BACKGROUND (black).
pub struct Mask {
    width: u32,
    height: u32,
    cells: Vec<bool>,
}

impl Mask {
    pub closed spec fn spec_width(&self) -> nat {
        self.width as nat
    }

    pub closed spec fn spec_height(&self) -> nat {
        self.height as nat
    }

    pub closed spec fn view_cells(&self) -> Seq<bool> {
        self.cells@
    }

    pub open spec fn wf(&self) -> bool {
        &&& self.view_cells().len() == self.spec_width() * self.spec_height()
        &&& self.view_cells().len() <= MAX_PIXELS
    }

    /// Builds a mask of `width` x `height` cells given row by row.
    /// `None` when the cell count is not `width * height`, or exceeds `MAX_PIXELS`.
    pub fn new(width: u32, height: u32, cells: Vec<bool>) -> (r: Option<Mask>)
        ensures
            r.is_some() <==> (cells@.len() == width as nat * height as nat && cells@.len()
                <= MAX_PIXELS),
            r matches Some(mask) ==> mask.wf() && mask.spec_width() == width
                && mask.spec_height() == height && mask.view_cells() == cells@,
    {
        proof {
            assert(width as nat * height as nat <= 0xffff_ffffnat * 0xffff_ffffnat) by (nonlinear_arith)
                requires
                    width <= 0xffff_ffffu32,
                    height <= 0xffff_ffffu32,
            ;
        }
        let n: u64 = width as u64 * height as u64;
        if cells.len() as u64 != n || n > MAX_PIXELS {
            None
        } else {
            Some(Mask { width, height, cells })
        }
    }

    pub fn width(&self) -> (r: u32)
        ensures
            r == self.spec_width(),
    {
        self.width
    }

    pub fn height(&self) -> (r: u32)
        ensures
            r == self.spec_height(),
    {
        self.height
    }

    pub fn cells(&self) -> (r: &Vec<bool>)
        ensures
            r@ == self.view_cells(),
    {
        &self.cells
    }

    /// Number of FOREGROUND cells.
    pub fn foreground_count(&self) -> (r: usize)
        ensures
            r == count_true(self.view_cells()),
    {
        let mut count: usize = 0;
        let mut i: usize = 0;
        while i < self.cells.len()
            invariant
                i <= self.cells@.len(),
                count == count_true(self.cells@.subrange(0, i as int)),
                count <= i,
            decreases self.cells@.len() - i,
        {
            assert(self.cells@.subrange(0, i + 1).drop_last() =~= self.cells@.subrange(0, i as int));
            if self.cells[i] {
                count = count + 1;
            }
            i = i + 1;
        }
        assert(self.cells@.subrange(0, i as int) =~= self.cells@);
        count
    }
}

/// Binary thresholding: a pixel is FOREGROUND exactly when its luma is at
/// least `threshold`. Every threshold is accepted: at or below 0 every pixel
/// is FOREGROUND, above 255 none is.
pub fn binarize(raster: &Raster, threshold: i32) -> (m: Mask)
    requires
        raster.wf(),
    ensures
        m.wf(),
        m.spec_width() == raster.spec_width(),
        m.spec_height() == raster.spec_height(),
        m.view_cells() == threshold_cells(raster.view_luma(), threshold as int),
{
    let mut cells: Vec<bool> = Vec::with_capacity(raster.luma.len());
    let mut i: usize = 0;
    while i < raster.luma.len()
        invariant
            i <= raster.luma@.len(),
            cells@ =~= threshold_cells(raster.luma@.subrange(0, i as int), threshold as int),
        decreases raster.luma@.len() - i,
    {
        cells.push(raster.luma[i] as i32 >= threshold);
        i = i + 1;
        assert(cells@ =~= threshold_cells(raster.luma@.subrange(0, i as int), threshold as int));
    }
    assert(raster.luma@.subrange(0, i as int) =~= raster.luma@);
    Mask { width: raster.width, height: raster.height, cells }
}

/// Raising the threshold never adds FOREGROUND pixels: for `t1 < t2` the
/// FOREGROUND count at `t2` is at most the count at `t1`.
pub proof fn lemma_threshold_monotone(luma: Seq<u8>, t1: int, t2: int)
    requires
        t1 < t2,
    ensures
        count_true(threshold_cells(luma, t2)) <= count_true(threshold_cells(luma, t1)),
    decreases luma.len(),
{
    if luma.len() > 0 {
        assert(threshold_cells(luma, t1).drop_last() =~= threshold_cells(luma.drop_last(), t1));
        assert(threshold_cells(luma, t2).drop_last() =~= threshold_cells(luma.drop_last(), t2));
        lemma_threshold_monotone(luma.drop_last(), t1, t2);
    }
}

} // verus!

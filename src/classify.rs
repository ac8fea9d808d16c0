//! Per-pixel classification into pore (included) and material (reference)
//! pixels, under size bounds and an optional region of interest.
use vstd::prelude::*;
use vstd::arithmetic::div_mod::lemma_fundamental_div_mod_converse;
use crate::labeling::{
    component_size, connected, lemma_connected_same_component, lemma_size_of_component,
    ComponentSizes, LabelMap, Polarity,
};
use crate::raster::{Mask, MAX_PIXELS};

verus! {

/// Size bounds and threshold of one analysis. Component sizes are pixel counts.
#[derive(Clone, Copy, Debug, PartialEq, Eq, Structural)]
pub struct AnalysisParams {
    /// A pixel is FOREGROUND when its luma is at least this value.
    pub threshold: i32,
    /// A BACKGROUND component is a pore when its size is strictly above this bound...
    pub pore_size_low: u64,
    /// ...and strictly below this one.
    pub pore_size_high: u64,
    /// When positive, FOREGROUND components strictly smaller than this are
    /// counted as void rather than material.
    pub included_min_feature_size: u64,
}

/// Default upper pore bound, the largest `i32`: in effect no upper bound.
pub const DEFAULT_PORE_SIZE_HIGH: u64 = 2147483647;

impl Default for AnalysisParams {
    fn default() -> (r: AnalysisParams)
        ensures
            r.threshold == 0,
            r.pore_size_low == 0,
            r.pore_size_high == DEFAULT_PORE_SIZE_HIGH,
            r.included_min_feature_size == 0,
    {
        AnalysisParams {
            threshold: 0,
            pore_size_low: 0,
            pore_size_high: DEFAULT_PORE_SIZE_HIGH,
            included_min_feature_size: 0,
        }
    }
}

/// A rectangular region of interest, given by two opposite corners in image
/// coordinates whose y axis runs up from the bottom edge of the image.
#[derive(Clone, Copy, Debug, PartialEq, Eq, Structural)]
pub struct Region {
    pub start_x: u32,
    pub start_y: u32,
    pub end_x: u32,
    pub end_y: u32,
}

pub open spec fn min_u32(a: u32, b: u32) -> u32 {
    if a <= b {
        a
    } else {
        b
    }
}

pub open spec fn max_u32(a: u32, b: u32) -> u32 {
    if a <= b {
        b
    } else {
        a
    }
}

impl Region {
    /// The region spans more than a line in both directions.
    pub open spec fn has_area(self) -> bool {
        &&& min_u32(self.start_x, self.end_x) < max_u32(self.start_x, self.end_x)
        &&& min_u32(self.start_y, self.end_y) < max_u32(self.start_y, self.end_y)
    }

    /// Pixel at column `x`, raster row `y` (counted from the top) of an image
    /// `height` rows high lies in the region, bounds included. The region's y
    /// bounds are flipped into rows by subtracting them from `height`. A region
    /// without area holds no pixel.
    pub open spec fn spec_contains(self, height: nat, x: int, y: int) -> bool {
        &&& self.has_area()
        &&& min_u32(self.start_x, self.end_x) <= x <= max_u32(self.start_x, self.end_x)
        &&& height - max_u32(self.start_y, self.end_y) <= y <= height - min_u32(
            self.start_y,
            self.end_y,
        )
    }

    /// The region with each corner moved into an image of `width` x `height`
    /// pixels: x values above `width` become `width`, y values above `height`
    /// become `height`.
    pub fn clamped(&self, width: u32, height: u32) -> (r: Region)
        ensures
            r.start_x == min_u32(self.start_x, width),
            r.start_y == min_u32(self.start_y, height),
            r.end_x == min_u32(self.end_x, width),
            r.end_y == min_u32(self.end_y, height),
    {
        Region {
            start_x: if self.start_x <= width { self.start_x } else { width },
            start_y: if self.start_y <= height { self.start_y } else { height },
            end_x: if self.end_x <= width { self.end_x } else { width },
            end_y: if self.end_y <= height { self.end_y } else { height },
        }
    }

    pub fn contains(&self, height: u32, x: u32, y: u32) -> (r: bool)
        ensures
            r == self.spec_contains(height as nat, x as int, y as int),
    {
        let (x_min, x_max) = if self.start_x <= self.end_x {
            (self.start_x, self.end_x)
        } else {
            (self.end_x, self.start_x)
        };
        let (y_min, y_max) = if self.start_y <= self.end_y {
            (self.start_y, self.end_y)
        } else {
            (self.end_y, self.start_y)
        };
        x_min < x_max && y_min < y_max && x_min <= x && x <= x_max && height as u64 <= y as u64
            + y_max as u64 && y as u64 + y_min as u64 <= height as u64
    }
}

/// Pixel at column `x`, row `y` is considered at all: there is no region, or it lies inside.
pub open spec fn in_scope(region: Option<Region>, height: nat, x: int, y: int) -> bool {
    match region {
        None => true,
        Some(r) => r.spec_contains(height, x, y),
    }
}

/// Column and row of cell `i` of a row-major grid of the given width.
pub open spec fn coord(width: nat, i: int) -> (u32, u32) {
    ((i % (width as int)) as u32, (i / (width as int)) as u32)
}

/// Cell `i` is FOREGROUND, the small-feature rule is on, and its FOREGROUND
/// component is smaller than the minimal feature size.
pub open spec fn is_speck(cells: Seq<bool>, width: nat, params: AnalysisParams, i: int) -> bool {
    &&& cells[i]
    &&& params.included_min_feature_size > 0
    &&& component_size(cells, width, i) < params.included_min_feature_size
}

/// Cell `i` is BACKGROUND and its BACKGROUND component's size lies strictly
/// between the pore bounds.
pub open spec fn is_pore(cells: Seq<bool>, width: nat, params: AnalysisParams, i: int) -> bool {
    &&& !cells[i]
    &&& params.pore_size_low < component_size(cells, width, i)
    &&& component_size(cells, width, i) < params.pore_size_high
}

/// Cell `i` counts as void: it is in scope and is a pore or a speck.
pub open spec fn is_included(
    cells: Seq<bool>,
    width: nat,
    height: nat,
    params: AnalysisParams,
    region: Option<Region>,
    i: int,
) -> bool {
    &&& in_scope(region, height, coord(width, i).0 as int, coord(width, i).1 as int)
    &&& (is_pore(cells, width, params, i) || is_speck(cells, width, params, i))
}

/// Cell `i` counts as material: it is in scope, FOREGROUND and no speck.
pub open spec fn is_reference(
    cells: Seq<bool>,
    width: nat,
    height: nat,
    params: AnalysisParams,
    region: Option<Region>,
    i: int,
) -> bool {
    &&& in_scope(region, height, coord(width, i).0 as int, coord(width, i).1 as int)
    &&& cells[i]
    &&& !is_speck(cells, width, params, i)
}

/// Coordinates of the included cells among the first `n`, in row-major order.
pub open spec fn included_upto(
    cells: Seq<bool>,
    width: nat,
    height: nat,
    params: AnalysisParams,
    region: Option<Region>,
    n: nat,
) -> Seq<(u32, u32)>
    decreases n,
{
    if n == 0 {
        Seq::empty()
    } else {
        let prev = included_upto(cells, width, height, params, region, (n - 1) as nat);
        if is_included(cells, width, height, params, region, n - 1) {
            prev.push(coord(width, n - 1))
        } else {
            prev
        }
    }
}

/// Coordinates of the reference cells among the first `n`, in row-major order.
pub open spec fn reference_upto(
    cells: Seq<bool>,
    width: nat,
    height: nat,
    params: AnalysisParams,
    region: Option<Region>,
    n: nat,
) -> Seq<(u32, u32)>
    decreases n,
{
    if n == 0 {
        Seq::empty()
    } else {
        let prev = reference_upto(cells, width, height, params, region, (n - 1) as nat);
        if is_reference(cells, width, height, params, region, n - 1) {
            prev.push(coord(width, n - 1))
        } else {
            prev
        }
    }
}

/// All included cells of a `width` x `height` grid, in row-major order.
pub open spec fn spec_included(
    cells: Seq<bool>,
    width: nat,
    height: nat,
    params: AnalysisParams,
    region: Option<Region>,
) -> Seq<(u32, u32)> {
    included_upto(cells, width, height, params, region, cells.len())
}

/// All reference cells of a `width` x `height` grid, in row-major order.
pub open spec fn spec_reference(
    cells: Seq<bool>,
    width: nat,
    height: nat,
    params: AnalysisParams,
    region: Option<Region>,
) -> Seq<(u32, u32)> {
    reference_upto(cells, width, height, params, region, cells.len())
}

/// The two pixel sets of one classification, each in row-major order.
#[derive(Debug)]
pub struct Classification {
    /// Void pixels: pores and, under the small-feature rule, specks.
    pub included: Vec<(u32, u32)>,
    /// Material pixels, the denominator of the density.
    pub reference: Vec<(u32, u32)>,
}

/// Classifies every pixel of `mask` (every pixel of `region`, when given)
/// from the labellings of both polarities and their size tables.
pub fn classify(
    mask: &Mask,
    fg_labels: &LabelMap,
    fg_sizes: &ComponentSizes,
    bg_labels: &LabelMap,
    bg_sizes: &ComponentSizes,
    params: &AnalysisParams,
    region: Option<Region>,
) -> (r: Classification)
    requires
        mask.wf(),
        fg_labels.labels_mask(mask, Polarity::Foreground),
        fg_sizes.counts_labels(fg_labels.view_labels()),
        bg_labels.labels_mask(mask, Polarity::Background),
        bg_sizes.counts_labels(bg_labels.view_labels()),
    ensures
        r.included@ == spec_included(
            mask.view_cells(),
            mask.spec_width(),
            mask.spec_height(),
            *params,
            region,
        ),
        r.reference@ == spec_reference(
            mask.view_cells(),
            mask.spec_width(),
            mask.spec_height(),
            *params,
            region,
        ),
{
    let ghost cells = mask.view_cells();
    let cell_vec = mask.cells();
    let fg = fg_labels.labels();
    let bg = bg_labels.labels();
    let width = mask.width();
    let height = mask.height();
    let n = cell_vec.len();
    let mut included: Vec<(u32, u32)> = Vec::new();
    let mut reference: Vec<(u32, u32)> = Vec::new();
    let mut i: usize = 0;
    let mut x: u32 = 0;
    let mut y: u32 = 0;
    proof {
        assert(n > 0 ==> width > 0) by (nonlinear_arith)
            requires
                n == width as nat * height as nat,
        ;
    }
    while i < n
        invariant
            cells == cell_vec@,
            cells == mask.view_cells(),
            n == cells.len(),
            n == width as nat * height as nat,
            n <= MAX_PIXELS,
            fg@ == fg_labels.view_labels(),
            bg@ == bg_labels.view_labels(),
            fg_labels.labels_mask(mask, Polarity::Foreground),
            fg_sizes.counts_labels(fg_labels.view_labels()),
            bg_labels.labels_mask(mask, Polarity::Background),
            bg_sizes.counts_labels(bg_labels.view_labels()),
            width == mask.spec_width(),
            height == mask.spec_height(),
            mask.wf(),
            i <= n,
            n > 0 ==> x < width && i == y as nat * width as nat + x as nat,
            included@ == included_upto(cells, width as nat, height as nat, *params, region, i as nat),
            reference@ == reference_upto(cells, width as nat, height as nat, *params, region, i as nat),
        decreases n - i,
    {
        proof {
            lemma_fundamental_div_mod_converse(i as int, width as int, y as int, x as int);
            assert(coord(width as nat, i as int) == (x, y));
        }
        let fg_cell = cell_vec[i];
        let size: usize = if fg_cell {
            proof {
                lemma_size_of_component(mask, Polarity::Foreground, fg_labels, fg_sizes, i as int);
            }
            fg_sizes.size_of(fg[i])
        } else {
            proof {
                lemma_size_of_component(mask, Polarity::Background, bg_labels, bg_sizes, i as int);
            }
            bg_sizes.size_of(bg[i])
        };
        assert(size == component_size(cells, width as nat, i as int));
        let scope = match region {
            None => true,
            Some(r) => r.contains(height, x, y),
        };
        let speck = fg_cell && params.included_min_feature_size > 0 && (size as u64)
            < params.included_min_feature_size;
        let pore = !fg_cell && params.pore_size_low < size as u64 && (size as u64)
            < params.pore_size_high;
        if scope && (pore || speck) {
            included.push((x, y));
        }
        if scope && fg_cell && !speck {
            reference.push((x, y));
        }
        proof {
            assert(y as nat * width as nat + x as nat + 1 <= n);
            assert(y as nat <= y as nat * width as nat) by (nonlinear_arith)
                requires
                    width > 0,
            ;
        }
        if x + 1 == width {
            proof {
                assert((y as nat + 1) * width as nat == y as nat * width as nat + x as nat + 1) by (nonlinear_arith)
                    requires
                        x + 1 == width,
                ;
                assert(y as nat + 1 <= (y as nat + 1) * width as nat) by (nonlinear_arith)
                    requires
                        width > 0,
                ;
            }
            x = 0;
            y = y + 1;
        } else {
            x = x + 1;
        }
        i = i + 1;
    }
    Classification { included, reference }
}

proof fn lemma_reference_upto_shrinks(
    cells: Seq<bool>,
    width: nat,
    height: nat,
    params: AnalysisParams,
    region: Region,
    n: nat,
)
    ensures
        reference_upto(cells, width, height, params, Some(region), n).len() <= reference_upto(
            cells,
            width,
            height,
            params,
            None,
            n,
        ).len(),
    decreases n,
{
    if n > 0 {
        lemma_reference_upto_shrinks(cells, width, height, params, region, (n - 1) as nat);
    }
}

/// Restricting the analysis to a region never adds reference pixels: there
/// are at most as many as over the whole image.
pub proof fn lemma_region_shrinks_reference(
    cells: Seq<bool>,
    width: nat,
    height: nat,
    params: AnalysisParams,
    region: Region,
)
    ensures
        spec_reference(cells, width, height, params, Some(region)).len() <= spec_reference(
            cells,
            width,
            height,
            params,
            None,
        ).len(),
{
    lemma_reference_upto_shrinks(cells, width, height, params, region, cells.len());
}

/// Every entry of `s` lies in `region`.
pub open spec fn all_in_region(s: Seq<(u32, u32)>, region: Region, height: nat) -> bool {
    forall|k: int|
        #![trigger s[k]]
        0 <= k < s.len() ==> region.spec_contains(height, s[k].0 as int, s[k].1 as int)
}

proof fn lemma_upto_in_region(
    cells: Seq<bool>,
    width: nat,
    height: nat,
    params: AnalysisParams,
    region: Region,
    n: nat,
)
    ensures
        all_in_region(
            included_upto(cells, width, height, params, Some(region), n),
            region,
            height,
        ),
        all_in_region(
            reference_upto(cells, width, height, params, Some(region), n),
            region,
            height,
        ),
    decreases n,
{
    if n > 0 {
        lemma_upto_in_region(cells, width, height, params, region, (n - 1) as nat);
        let prev_i = included_upto(cells, width, height, params, Some(region), (n - 1) as nat);
        let cur_i = included_upto(cells, width, height, params, Some(region), n);
        assert forall|k: int| 0 <= k < cur_i.len() implies region.spec_contains(
            height,
            #[trigger] cur_i[k].0 as int,
            cur_i[k].1 as int,
        ) by {
            if k < prev_i.len() {
                assert(cur_i[k] == prev_i[k]);
            }
        }
        let prev_r = reference_upto(cells, width, height, params, Some(region), (n - 1) as nat);
        let cur_r = reference_upto(cells, width, height, params, Some(region), n);
        assert forall|k: int| 0 <= k < cur_r.len() implies region.spec_contains(
            height,
            #[trigger] cur_r[k].0 as int,
            cur_r[k].1 as int,
        ) by {
            if k < prev_r.len() {
                assert(cur_r[k] == prev_r[k]);
            }
        }
    }
}

/// With a region, both pixel sets hold in-region coordinates only.
pub proof fn lemma_classified_pixels_in_region(
    cells: Seq<bool>,
    width: nat,
    height: nat,
    params: AnalysisParams,
    region: Region,
)
    ensures
        all_in_region(spec_included(cells, width, height, params, Some(region)), region, height),
        all_in_region(spec_reference(cells, width, height, params, Some(region)), region, height),
{
    lemma_upto_in_region(cells, width, height, params, region, cells.len());
}

proof fn lemma_upto_empty_without_area(
    cells: Seq<bool>,
    width: nat,
    height: nat,
    params: AnalysisParams,
    region: Region,
    n: nat,
)
    requires
        !region.has_area(),
    ensures
        included_upto(cells, width, height, params, Some(region), n).len() == 0,
        reference_upto(cells, width, height, params, Some(region), n).len() == 0,
    decreases n,
{
    if n > 0 {
        lemma_upto_empty_without_area(cells, width, height, params, region, (n - 1) as nat);
    }
}

/// A region without area (its corners share a row or a column) selects no
/// pixel: both sets are empty.
pub proof fn lemma_region_without_area_selects_nothing(
    cells: Seq<bool>,
    width: nat,
    height: nat,
    params: AnalysisParams,
    region: Region,
)
    requires
        !region.has_area(),
    ensures
        spec_included(cells, width, height, params, Some(region)).len() == 0,
        spec_reference(cells, width, height, params, Some(region)).len() == 0,
{
    lemma_upto_empty_without_area(cells, width, height, params, region, cells.len());
}

/// Row-major position of a coordinate in a grid of the given width.
pub open spec fn row_major_index(width: nat, c: (u32, u32)) -> int {
    c.1 as int * width as int + c.0 as int
}

/// The entries of `s` sit at strictly increasing row-major positions, all below `n`.
pub open spec fn strictly_row_major(s: Seq<(u32, u32)>, width: nat, n: nat) -> bool {
    &&& forall|k: int| 0 <= k < s.len() ==> #[trigger] row_major_index(width, s[k]) < n
    &&& forall|a: int, b: int|
        0 <= a < b < s.len() ==> #[trigger] row_major_index(width, s[a]) < #[trigger] row_major_index(
            width,
            s[b],
        )
}

proof fn lemma_coord_index(width: nat, i: int)
    requires
        width > 0,
        0 <= i <= MAX_PIXELS,
    ensures
        row_major_index(width, coord(width, i)) == i,
{
    let w = width as int;
    vstd::arithmetic::div_mod::lemma_fundamental_div_mod(i, w);
    assert(0 <= i % w < w) by {
        vstd::arithmetic::div_mod::lemma_mod_bound(i, w);
    }
    assert(0 <= i / w <= i) by {
        vstd::arithmetic::div_mod::lemma_div_is_ordered_by_denominator(i, 1, w);
        vstd::arithmetic::div_mod::lemma_div_pos_is_pos(i, w);
    }
    assert(i % w <= i) by {
        if i < w {
            vstd::arithmetic::div_mod::lemma_small_mod(i as nat, w as nat);
        }
    }
    assert((i / w) * w == w * (i / w)) by (nonlinear_arith);
    let c = coord(width, i);
    assert(c.0 as int == i % w);
    assert(c.1 as int == i / w);
}

proof fn lemma_upto_row_major(
    cells: Seq<bool>,
    width: nat,
    height: nat,
    params: AnalysisParams,
    region: Option<Region>,
    n: nat,
)
    requires
        width > 0,
        n <= MAX_PIXELS,
    ensures
        strictly_row_major(included_upto(cells, width, height, params, region, n), width, n),
        strictly_row_major(reference_upto(cells, width, height, params, region, n), width, n),
    decreases n,
{
    if n > 0 {
        lemma_upto_row_major(cells, width, height, params, region, (n - 1) as nat);
        lemma_coord_index(width, n - 1);
    }
}

proof fn lemma_row_major_unique(s: Seq<(u32, u32)>, width: nat, n: nat)
    requires
        strictly_row_major(s, width, n),
    ensures
        s.no_duplicates(),
{
    assert forall|a: int, b: int| 0 <= a < s.len() && 0 <= b < s.len() && a != b implies s[a] != s[b] by {
        if a < b {
            assert(row_major_index(width, s[a]) < row_major_index(width, s[b]));
        } else {
            assert(row_major_index(width, s[b]) < row_major_index(width, s[a]));
        }
    }
}

/// Each pixel set holds every coordinate at most once, even where a pixel
/// meets several rules.
pub proof fn lemma_classified_pixels_unique(
    cells: Seq<bool>,
    width: nat,
    height: nat,
    params: AnalysisParams,
    region: Option<Region>,
)
    requires
        cells.len() == width * height,
        cells.len() <= MAX_PIXELS,
    ensures
        spec_included(cells, width, height, params, region).no_duplicates(),
        spec_reference(cells, width, height, params, region).no_duplicates(),
{
    if width > 0 {
        lemma_upto_row_major(cells, width, height, params, region, cells.len());
        lemma_row_major_unique(spec_included(cells, width, height, params, region), width, cells.len());
        lemma_row_major_unique(spec_reference(cells, width, height, params, region), width, cells.len());
    } else {
        assert(cells.len() == 0);
    }
}

proof fn lemma_upto_members(
    cells: Seq<bool>,
    width: nat,
    height: nat,
    params: AnalysisParams,
    region: Option<Region>,
    n: nat,
)
    requires
        width > 0,
        n <= MAX_PIXELS,
    ensures
        forall|k: int|
            #![trigger included_upto(cells, width, height, params, region, n)[k]]
            0 <= k < included_upto(cells, width, height, params, region, n).len() ==> {
                let c = included_upto(cells, width, height, params, region, n)[k];
                &&& 0 <= row_major_index(width, c) < n
                &&& c == coord(width, row_major_index(width, c))
                &&& is_included(cells, width, height, params, region, row_major_index(width, c))
            },
        forall|j: int|
            0 <= j < n && #[trigger] is_included(cells, width, height, params, region, j)
                ==> included_upto(cells, width, height, params, region, n).contains(coord(width, j)),
        forall|k: int|
            #![trigger reference_upto(cells, width, height, params, region, n)[k]]
            0 <= k < reference_upto(cells, width, height, params, region, n).len() ==> {
                let c = reference_upto(cells, width, height, params, region, n)[k];
                &&& 0 <= row_major_index(width, c) < n
                &&& c == coord(width, row_major_index(width, c))
                &&& is_reference(cells, width, height, params, region, row_major_index(width, c))
            },
        forall|j: int|
            0 <= j < n && #[trigger] is_reference(cells, width, height, params, region, j)
                ==> reference_upto(cells, width, height, params, region, n).contains(coord(width, j)),
    decreases n,
{
    if n > 0 {
        let m = (n - 1) as nat;
        lemma_upto_members(cells, width, height, params, region, m);
        lemma_coord_index(width, m as int);
        let pi = included_upto(cells, width, height, params, region, m);
        let ci = included_upto(cells, width, height, params, region, n);
        assert forall|j: int|
            0 <= j < n && #[trigger] is_included(cells, width, height, params, region, j)
                implies ci.contains(coord(width, j)) by {
            if j < m {
                let k = choose|k: int| 0 <= k < pi.len() && pi[k] == coord(width, j);
                assert(ci[k] == pi[k]);
            } else {
                assert(ci[ci.len() - 1] == coord(width, j));
            }
        }
        assert forall|k: int| 0 <= k < ci.len() implies {
            let c = #[trigger] ci[k];
            &&& 0 <= row_major_index(width, c) < n
            &&& c == coord(width, row_major_index(width, c))
            &&& is_included(cells, width, height, params, region, row_major_index(width, c))
        } by {
            if k < pi.len() {
                assert(ci[k] == pi[k]);
            }
        }
        let pr = reference_upto(cells, width, height, params, region, m);
        let cr = reference_upto(cells, width, height, params, region, n);
        assert forall|j: int|
            0 <= j < n && #[trigger] is_reference(cells, width, height, params, region, j)
                implies cr.contains(coord(width, j)) by {
            if j < m {
                let k = choose|k: int| 0 <= k < pr.len() && pr[k] == coord(width, j);
                assert(cr[k] == pr[k]);
            } else {
                assert(cr[cr.len() - 1] == coord(width, j));
            }
        }
        assert forall|k: int| 0 <= k < cr.len() implies {
            let c = #[trigger] cr[k];
            &&& 0 <= row_major_index(width, c) < n
            &&& c == coord(width, row_major_index(width, c))
            &&& is_reference(cells, width, height, params, region, row_major_index(width, c))
        } by {
            if k < pr.len() {
                assert(cr[k] == pr[k]);
            }
        }
    }
}

/// A pixel is in the included set exactly when it is included, and in the
/// reference set exactly when it is a reference pixel.
pub proof fn lemma_pixel_membership(
    cells: Seq<bool>,
    width: nat,
    height: nat,
    params: AnalysisParams,
    region: Option<Region>,
    j: int,
)
    requires
        cells.len() == width * height,
        cells.len() <= MAX_PIXELS,
        0 <= j < cells.len(),
    ensures
        spec_included(cells, width, height, params, region).contains(coord(width, j))
            <==> is_included(cells, width, height, params, region, j),
        spec_reference(cells, width, height, params, region).contains(coord(width, j))
            <==> is_reference(cells, width, height, params, region, j),
{
    assert(width > 0) by (nonlinear_arith)
        requires
            0 <= j < cells.len(),
            cells.len() == width * height,
    ;
    let n = cells.len();
    lemma_upto_members(cells, width, height, params, region, n);
    lemma_coord_index(width, j);
    let inc = spec_included(cells, width, height, params, region);
    if inc.contains(coord(width, j)) {
        let k = choose|k: int| 0 <= k < inc.len() && inc[k] == coord(width, j);
        assert(inc[k] == coord(width, j));
    }
    let rf = spec_reference(cells, width, height, params, region);
    if rf.contains(coord(width, j)) {
        let k = choose|k: int| 0 <= k < rf.len() && rf[k] == coord(width, j);
        assert(rf[k] == coord(width, j));
    }
}

/// Classification depends on components, not on single pixels: two
/// eight-connected pixels of the whole image are both in the included set or
/// both out of it, and likewise for the reference set.
pub proof fn lemma_connected_pixels_classified_alike(
    cells: Seq<bool>,
    width: nat,
    height: nat,
    params: AnalysisParams,
    a: int,
    b: int,
)
    requires
        cells.len() == width * height,
        cells.len() <= MAX_PIXELS,
        0 <= a < cells.len(),
        0 <= b < cells.len(),
        connected(cells, width, a, b),
    ensures
        spec_included(cells, width, height, params, None).contains(coord(width, a))
            <==> spec_included(cells, width, height, params, None).contains(coord(width, b)),
        spec_reference(cells, width, height, params, None).contains(coord(width, a))
            <==> spec_reference(cells, width, height, params, None).contains(coord(width, b)),
{
    lemma_connected_same_component(cells, width, a, b);
    lemma_pixel_membership(cells, width, height, params, None, a);
    lemma_pixel_membership(cells, width, height, params, None, b);
}

/// With a region, each pixel set is exactly the whole-image set cut to the
/// region: a coordinate is in it when it is in the whole-image set and inside
/// the region, and only then.
pub proof fn lemma_region_cuts_whole_image_sets(
    cells: Seq<bool>,
    width: nat,
    height: nat,
    params: AnalysisParams,
    region: Region,
)
    requires
        cells.len() == width * height,
        cells.len() <= MAX_PIXELS,
    ensures
        forall|c: (u32, u32)|
            #![trigger spec_included(cells, width, height, params, Some(region)).contains(c)]
            spec_included(cells, width, height, params, Some(region)).contains(c) <==> (spec_included(
                cells,
                width,
                height,
                params,
                None,
            ).contains(c) && region.spec_contains(height, c.0 as int, c.1 as int)),
        forall|c: (u32, u32)|
            #![trigger spec_reference(cells, width, height, params, Some(region)).contains(c)]
            spec_reference(cells, width, height, params, Some(region)).contains(c) <==> (
            spec_reference(cells, width, height, params, None).contains(c) && region.spec_contains(
                height,
                c.0 as int,
                c.1 as int,
            )),
{
    let n = cells.len();
    if width == 0 {
        assert(n == 0);
    } else {
        lemma_upto_members(cells, width, height, params, Some(region), n);
        lemma_upto_members(cells, width, height, params, None, n);
        let ir = spec_included(cells, width, height, params, Some(region));
        let iw = spec_included(cells, width, height, params, None);
        let rr = spec_reference(cells, width, height, params, Some(region));
        let rw = spec_reference(cells, width, height, params, None);
        assert forall|c: (u32, u32)| #[trigger] ir.contains(c) <==> (iw.contains(c) && region.spec_contains(
            height,
            c.0 as int,
            c.1 as int,
        )) by {
            if ir.contains(c) {
                let k = choose|k: int| 0 <= k < ir.len() && ir[k] == c;
                assert(ir[k] == c);
                let j = row_major_index(width, c);
                assert(is_included(cells, width, height, params, None, j));
            }
            if iw.contains(c) && region.spec_contains(height, c.0 as int, c.1 as int) {
                let k = choose|k: int| 0 <= k < iw.len() && iw[k] == c;
                assert(iw[k] == c);
                let j = row_major_index(width, c);
                assert(is_included(cells, width, height, params, Some(region), j));
            }
        }
        assert forall|c: (u32, u32)| #[trigger] rr.contains(c) <==> (rw.contains(c) && region.spec_contains(
            height,
            c.0 as int,
            c.1 as int,
        )) by {
            if rr.contains(c) {
                let k = choose|k: int| 0 <= k < rr.len() && rr[k] == c;
                assert(rr[k] == c);
                let j = row_major_index(width, c);
                assert(is_reference(cells, width, height, params, None, j));
            }
            if rw.contains(c) && region.spec_contains(height, c.0 as int, c.1 as int) {
                let k = choose|k: int| 0 <= k < rw.len() && rw[k] == c;
                assert(rw[k] == c);
                let j = row_major_index(width, c);
                assert(is_reference(cells, width, height, params, Some(region), j));
            }
        }
    }
}

} // verus!

//! One full analysis of a raster: threshold, label both polarities, size,
//! classify and take the density.
use vstd::prelude::*;
use crate::classify::{classify, spec_included, spec_reference, AnalysisParams, Region};
use crate::density::{density, spec_density, Density, DensityUndefined};
use crate::labeling::{label, sizes, Polarity};
use crate::raster::{binarize, threshold_cells, Raster};

verus! {

/// What one analysis produces. Immutable once made.
#[derive(Debug)]
pub struct AnalysisResult {
    /// Void pixels, row-major.
    pub included: Vec<(u32, u32)>,
    /// Material pixels, row-major.
    pub reference: Vec<(u32, u32)>,
    pub density: Result<Density, DensityUndefined>,
}

/// The mask that an analysis of `raster` under `params` works on.
pub open spec fn analysis_cells(raster: Raster, params: AnalysisParams) -> Seq<bool> {
    threshold_cells(raster.view_luma(), params.threshold as int)
}

/// The void pixels that an analysis of `raster` finds.
pub open spec fn analysis_included(raster: Raster, params: AnalysisParams, region: Option<Region>) -> Seq<(u32, u32)> {
    spec_included(analysis_cells(raster, params), raster.spec_width(), raster.spec_height(), params, region)
}

/// The material pixels that an analysis of `raster` finds.
pub open spec fn analysis_reference(raster: Raster, params: AnalysisParams, region: Option<Region>) -> Seq<(u32, u32)> {
    spec_reference(analysis_cells(raster, params), raster.spec_width(), raster.spec_height(), params, region)
}

/// The density that an analysis of `raster` reports.
pub open spec fn analysis_density(raster: Raster, params: AnalysisParams, region: Option<Region>) -> Result<Density, DensityUndefined> {
    spec_density(
        analysis_included(raster, params, region).len(),
        analysis_reference(raster, params, region).len(),
    )
}

impl AnalysisResult {
    /// `self` is what an analysis of `raster` under `params` and `region` yields.
    pub open spec fn is_analysis_of(&self, raster: Raster, params: AnalysisParams, region: Option<Region>) -> bool {
        &&& self.included@ == analysis_included(raster, params, region)
        &&& self.reference@ == analysis_reference(raster, params, region)
        &&& self.density == analysis_density(raster, params, region)
    }
}

/// Runs the whole pipeline on `raster`: binarize at `params.threshold`,
/// label FOREGROUND and BACKGROUND components, count their sizes, classify
/// every pixel (of `region`, when given) and compute the density.
pub fn analyze(raster: &Raster, params: &AnalysisParams, region: Option<Region>) -> (r: AnalysisResult)
    requires
        raster.wf(),
    ensures
        r.is_analysis_of(*raster, *params, region),
{
    let mask = binarize(raster, params.threshold);
    let fg_labels = label(&mask, Polarity::Foreground);
    let fg_sizes = sizes(&fg_labels);
    let bg_labels = label(&mask, Polarity::Background);
    let bg_sizes = sizes(&bg_labels);
    let classes = classify(&mask, &fg_labels, &fg_sizes, &bg_labels, &bg_sizes, params, region);
    let d = density(&classes.included, &classes.reference);
    AnalysisResult { included: classes.included, reference: classes.reference, density: d }
}

/// The analysis is reproducible: two rasters with the same samples and size,
/// under the same parameters and region, give the same pixel sets, in the
/// same order, and the same density.
pub proof fn lemma_analysis_reproducible(
    a: Raster,
    b: Raster,
    params: AnalysisParams,
    region: Option<Region>,
)
    requires
        a.view_luma() == b.view_luma(),
        a.spec_width() == b.spec_width(),
        a.spec_height() == b.spec_height(),
    ensures
        analysis_included(a, params, region) == analysis_included(b, params, region),
        analysis_reference(a, params, region) == analysis_reference(b, params, region),
        analysis_density(a, params, region) == analysis_density(b, params, region),
{
}

} // verus!

//! Image records and the working set of them: parameters per image, runs
//! numbered by generation so that only the latest run's result is kept, and
//! a selected image that moves forward and back through the set.
use vstd::prelude::*;
use crate::classify::{AnalysisParams, Region, DEFAULT_PORE_SIZE_HIGH};
use crate::pipeline::{analyze, AnalysisResult};
use crate::raster::Raster;

verus! {

/// Where an image record stands with its analysis.
#[derive(Clone, Copy, Debug, PartialEq, Eq, Structural)]
pub enum RunStatus {
    /// No run was started yet.
    Idle,
    /// A run was started and its result has not arrived.
    Running,
    /// The latest run's result is in place.
    Complete,
}

/// The generation that follows `g`.
pub open spec fn next_generation(g: u64) -> u64 {
    if g < u64::MAX {
        (g + 1) as u64
    } else {
        0
    }
}

/// A snapshot of everything a run needs, taken when the run starts: later
/// edits of the record do not reach it.
pub struct AnalysisJob {
    /// Position of the record in its working set.
    pub record: usize,
    pub generation: u64,
    pub raster: Raster,
    pub params: AnalysisParams,
    pub region: Option<Region>,
}

/// The result of one run, tagged with the run's record and generation.
pub struct AnalysisOutcome {
    pub record: usize,
    pub generation: u64,
    pub result: AnalysisResult,
}

impl AnalysisJob {
    /// Performs the run. Needs nothing from the record: it may run on any thread.
    pub fn run(self) -> (r: AnalysisOutcome)
        requires
            self.raster.wf(),
        ensures
            r.record == self.record,
            r.generation == self.generation,
            r.result.is_analysis_of(self.raster, self.params, self.region),
    {
        let result = analyze(&self.raster, &self.params, self.region);
        AnalysisOutcome { record: self.record, generation: self.generation, result }
    }
}

/// One loaded image with its own parameters, region and latest result.
pub struct ImageData {
    source: String,
    raster: Raster,
    params: AnalysisParams,
    region: Option<Region>,
    generation: u64,
    status: RunStatus,
    result: Option<AnalysisResult>,
}

impl ImageData {
    pub closed spec fn spec_source(&self) -> Seq<char> {
        self.source@
    }

    pub closed spec fn spec_raster(&self) -> Raster {
        self.raster
    }

    pub closed spec fn spec_params(&self) -> AnalysisParams {
        self.params
    }

    pub closed spec fn spec_region(&self) -> Option<Region> {
        self.region
    }

    pub closed spec fn spec_generation(&self) -> u64 {
        self.generation
    }

    pub closed spec fn spec_status(&self) -> RunStatus {
        self.status
    }

    pub closed spec fn spec_result(&self) -> Option<AnalysisResult> {
        self.result
    }

    pub open spec fn wf(&self) -> bool {
        self.spec_raster().wf()
    }

    /// A fresh record for the image read from `source`: default parameters,
    /// no region, no run yet.
    pub fn new(source: String, raster: Raster) -> (r: ImageData)
        requires
            raster.wf(),
        ensures
            r.wf(),
            r.spec_source() == source@,
            r.spec_raster() == raster,
            r.spec_params() == (AnalysisParams {
                threshold: 0,
                pore_size_low: 0,
                pore_size_high: DEFAULT_PORE_SIZE_HIGH,
                included_min_feature_size: 0,
            }),
            r.spec_region() == None::<Region>,
            r.spec_generation() == 0,
            r.spec_status() == RunStatus::Idle,
            r.spec_result().is_none(),
    {
        ImageData {
            source,
            raster,
            params: AnalysisParams::default(),
            region: None,
            generation: 0,
            status: RunStatus::Idle,
            result: None,
        }
    }

    pub fn source(&self) -> (r: &String)
        ensures
            r@ == self.spec_source(),
    {
        &self.source
    }

    pub fn raster(&self) -> (r: &Raster)
        ensures
            *r == self.spec_raster(),
    {
        &self.raster
    }

    pub fn params(&self) -> (r: AnalysisParams)
        ensures
            r == self.spec_params(),
    {
        self.params
    }

    pub fn region(&self) -> (r: Option<Region>)
        ensures
            r == self.spec_region(),
    {
        self.region
    }

    pub fn generation(&self) -> (r: u64)
        ensures
            r == self.spec_generation(),
    {
        self.generation
    }

    pub fn status(&self) -> (r: RunStatus)
        ensures
            r == self.spec_status(),
    {
        self.status
    }

    pub fn result(&self) -> (r: &Option<AnalysisResult>)
        ensures
            *r == self.spec_result(),
    {
        &self.result
    }

    /// Starts a new run on a snapshot of the current raster, parameters and
    /// region. The generation moves on, so any run still in flight is stale.
    pub fn analyze_image(&mut self, record: usize) -> (job: AnalysisJob)
        requires
            old(self).wf(),
        ensures
            final(self).wf(),
            final(self).spec_generation() == next_generation(old(self).spec_generation()),
            final(self).spec_status() == RunStatus::Running,
            final(self).spec_source() == old(self).spec_source(),
            final(self).spec_raster() == old(self).spec_raster(),
            final(self).spec_params() == old(self).spec_params(),
            final(self).spec_region() == old(self).spec_region(),
            final(self).spec_result() == old(self).spec_result(),
            job.record == record,
            job.generation == final(self).spec_generation(),
            job.raster.wf(),
            job.raster.view_luma() == old(self).spec_raster().view_luma(),
            job.raster.spec_width() == old(self).spec_raster().spec_width(),
            job.raster.spec_height() == old(self).spec_raster().spec_height(),
            job.params == old(self).spec_params(),
            job.region == old(self).spec_region(),
    {
        self.generation = if self.generation < u64::MAX {
            self.generation + 1
        } else {
            0
        };
        self.status = RunStatus::Running;
        AnalysisJob {
            record,
            generation: self.generation,
            raster: self.raster.clone(),
            params: self.params,
            region: self.region,
        }
    }

    /// Replaces the parameters and starts a run with them.
    pub fn set_params(&mut self, record: usize, params: AnalysisParams) -> (job: AnalysisJob)
        requires
            old(self).wf(),
        ensures
            final(self).wf(),
            final(self).spec_params() == params,
            final(self).spec_region() == old(self).spec_region(),
            final(self).spec_source() == old(self).spec_source(),
            final(self).spec_raster() == old(self).spec_raster(),
            final(self).spec_result() == old(self).spec_result(),
            final(self).spec_generation() == next_generation(old(self).spec_generation()),
            final(self).spec_status() == RunStatus::Running,
            job.record == record,
            job.generation == final(self).spec_generation(),
            job.raster.wf(),
            job.raster.view_luma() == old(self).spec_raster().view_luma(),
            job.raster.spec_width() == old(self).spec_raster().spec_width(),
            job.raster.spec_height() == old(self).spec_raster().spec_height(),
            job.params == params,
            job.region == old(self).spec_region(),
    {
        self.params = params;
        self.analyze_image(record)
    }

    /// Replaces the region (`None` analyses the whole image) and starts a run.
    pub fn set_region(&mut self, record: usize, region: Option<Region>) -> (job: AnalysisJob)
        requires
            old(self).wf(),
        ensures
            final(self).wf(),
            final(self).spec_region() == region,
            final(self).spec_params() == old(self).spec_params(),
            final(self).spec_source() == old(self).spec_source(),
            final(self).spec_raster() == old(self).spec_raster(),
            final(self).spec_result() == old(self).spec_result(),
            final(self).spec_generation() == next_generation(old(self).spec_generation()),
            final(self).spec_status() == RunStatus::Running,
            job.record == record,
            job.generation == final(self).spec_generation(),
            job.raster.wf(),
            job.raster.view_luma() == old(self).spec_raster().view_luma(),
            job.raster.spec_width() == old(self).spec_raster().spec_width(),
            job.raster.spec_height() == old(self).spec_raster().spec_height(),
            job.params == old(self).spec_params(),
            job.region == region,
    {
        self.region = region;
        self.analyze_image(record)
    }

    /// Takes the outcome of a run. It is applied, and the record is then
    /// complete, exactly when it comes from the latest run started; an outcome
    /// of a superseded run is dropped and leaves the record as it was.
    pub fn complete(&mut self, outcome: AnalysisOutcome) -> (applied: bool)
        requires
            old(self).wf(),
        ensures
            final(self).wf(),
            applied == (outcome.generation == old(self).spec_generation()
                && old(self).spec_status() == RunStatus::Running),
            applied ==> final(self).spec_result() == Some(outcome.result) && final(self).spec_status()
                == RunStatus::Complete,
            !applied ==> *final(self) == *old(self),
            final(self).spec_generation() == old(self).spec_generation(),
            final(self).spec_source() == old(self).spec_source(),
            final(self).spec_raster() == old(self).spec_raster(),
            final(self).spec_params() == old(self).spec_params(),
            final(self).spec_region() == old(self).spec_region(),
    {
        if outcome.generation == self.generation && self.status == RunStatus::Running {
            self.result = Some(outcome.result);
            self.status = RunStatus::Complete;
            true
        } else {
            false
        }
    }
}

} // verus!

verus! {

/// `new` is `old` after `analyze_image`: a fresh generation, running, the rest kept.
pub open spec fn run_started(new: ImageData, old: ImageData) -> bool {
    &&& new.wf()
    &&& new.spec_generation() == next_generation(old.spec_generation())
    &&& new.spec_status() == RunStatus::Running
    &&& new.spec_source() == old.spec_source()
    &&& new.spec_raster() == old.spec_raster()
    &&& new.spec_params() == old.spec_params()
    &&& new.spec_region() == old.spec_region()
    &&& new.spec_result() == old.spec_result()
}

/// `job` is the snapshot of record `index` whose state is now `rec`.
pub open spec fn job_of(job: AnalysisJob, index: usize, rec: ImageData) -> bool {
    &&& job.record == index
    &&& job.generation == rec.spec_generation()
    &&& job.raster.wf()
    &&& job.raster.view_luma() == rec.spec_raster().view_luma()
    &&& job.raster.spec_width() == rec.spec_raster().spec_width()
    &&& job.raster.spec_height() == rec.spec_raster().spec_height()
    &&& job.params == rec.spec_params()
    &&& job.region == rec.spec_region()
}

/// The loaded images in load order, with the selected one and the one
/// selected before it.
pub struct Images {
    records: Vec<ImageData>,
    selected: Option<usize>,
    previous: Option<usize>,
}

impl Images {
    pub closed spec fn view_records(&self) -> Seq<ImageData> {
        self.records@
    }

    pub closed spec fn spec_selected(&self) -> Option<usize> {
        self.selected
    }

    pub closed spec fn spec_previous(&self) -> Option<usize> {
        self.previous
    }

    pub open spec fn wf(&self) -> bool {
        &&& forall|i: int|
            #![trigger self.view_records()[i]]
            0 <= i < self.view_records().len() ==> self.view_records()[i].wf()
        &&& self.spec_selected() matches Some(s) ==> s < self.view_records().len()
        &&& self.spec_previous() matches Some(p) ==> p < self.view_records().len()
    }

    pub fn new() -> (r: Images)
        ensures
            r.wf(),
            r.view_records().len() == 0,
            r.spec_selected().is_none(),
            r.spec_previous().is_none(),
    {
        Images { records: Vec::new(), selected: None, previous: None }
    }

    /// Appends a record; load order is kept.
    pub fn add(&mut self, record: ImageData)
        requires
            old(self).wf(),
            record.wf(),
        ensures
            final(self).wf(),
            final(self).view_records() == old(self).view_records().push(record),
            final(self).spec_selected() == old(self).spec_selected(),
            final(self).spec_previous() == old(self).spec_previous(),
    {
        self.records.push(record);
        proof {
            assert forall|i: int| 0 <= i < self.records@.len() implies #[trigger] self.records@[i].wf() by {
                if i < old(self).records@.len() {
                    assert(old(self).view_records()[i].wf());
                }
            }
        }
    }

    pub fn len(&self) -> (r: usize)
        ensures
            r == self.view_records().len(),
    {
        self.records.len()
    }

    pub fn record(&self, index: usize) -> (r: &ImageData)
        requires
            index < self.view_records().len(),
        ensures
            *r == self.view_records()[index as int],
    {
        &self.records[index]
    }

    pub fn selected(&self) -> (r: Option<usize>)
        ensures
            r == self.spec_selected(),
    {
        self.selected
    }

    pub fn previous(&self) -> (r: Option<usize>)
        ensures
            r == self.spec_previous(),
    {
        self.previous
    }

    /// Starts a run of record `index`, leaving the others and the selection as they are.
    pub fn analyze_image(&mut self, index: usize) -> (job: AnalysisJob)
        requires
            old(self).wf(),
            index < old(self).view_records().len(),
        ensures
            final(self).wf(),
            final(self).view_records().len() == old(self).view_records().len(),
            run_started(final(self).view_records()[index as int], old(self).view_records()[index as int]),
            forall|i: int|
                #![trigger final(self).view_records()[i]]
                0 <= i < old(self).view_records().len() && i != index ==> final(self).view_records()[i]
                    == old(self).view_records()[i],
            job_of(job, index, final(self).view_records()[index as int]),
            final(self).spec_selected() == old(self).spec_selected(),
            final(self).spec_previous() == old(self).spec_previous(),
    {
        let mut rec = self.records.remove(index);
        assert(rec.wf());
        let job = rec.analyze_image(index);
        self.records.insert(index, rec);
        proof {
            assert(self.records@ =~= old(self).records@.update(index as int, rec));
            assert forall|i: int| 0 <= i < self.records@.len() implies #[trigger] self.records@[i].wf() by {
                if i != index {
                    assert(old(self).view_records()[i].wf());
                }
            }
        }
        job
    }

    /// Replaces the parameters of record `index` and starts its run.
    pub fn set_params(&mut self, index: usize, params: AnalysisParams) -> (job: AnalysisJob)
        requires
            old(self).wf(),
            index < old(self).view_records().len(),
        ensures
            final(self).wf(),
            final(self).view_records().len() == old(self).view_records().len(),
            final(self).view_records()[index as int].spec_params() == params,
            final(self).view_records()[index as int].spec_region() == old(self).view_records()[index as int].spec_region(),
            final(self).view_records()[index as int].spec_generation() == next_generation(old(self).view_records()[index as int].spec_generation()),
            final(self).view_records()[index as int].spec_status() == RunStatus::Running,
            final(self).view_records()[index as int].spec_source() == old(self).view_records()[index as int].spec_source(),
            final(self).view_records()[index as int].spec_raster() == old(self).view_records()[index as int].spec_raster(),
            final(self).view_records()[index as int].spec_result() == old(self).view_records()[index as int].spec_result(),
            forall|i: int|
                #![trigger final(self).view_records()[i]]
                0 <= i < old(self).view_records().len() && i != index ==> final(self).view_records()[i]
                    == old(self).view_records()[i],
            job_of(job, index, final(self).view_records()[index as int]),
            final(self).spec_selected() == old(self).spec_selected(),
            final(self).spec_previous() == old(self).spec_previous(),
    {
        let mut rec = self.records.remove(index);
        assert(rec.wf());
        let job = rec.set_params(index, params);
        self.records.insert(index, rec);
        proof {
            assert(self.records@ =~= old(self).records@.update(index as int, rec));
            assert forall|i: int| 0 <= i < self.records@.len() implies #[trigger] self.records@[i].wf() by {
                if i != index {
                    assert(old(self).view_records()[i].wf());
                }
            }
        }
        job
    }

    /// Replaces the region of record `index` (`None`: whole image) and starts its run.
    pub fn set_region(&mut self, index: usize, region: Option<Region>) -> (job: AnalysisJob)
        requires
            old(self).wf(),
            index < old(self).view_records().len(),
        ensures
            final(self).wf(),
            final(self).view_records().len() == old(self).view_records().len(),
            final(self).view_records()[index as int].spec_region() == region,
            final(self).view_records()[index as int].spec_params() == old(self).view_records()[index as int].spec_params(),
            final(self).view_records()[index as int].spec_generation() == next_generation(old(self).view_records()[index as int].spec_generation()),
            final(self).view_records()[index as int].spec_status() == RunStatus::Running,
            final(self).view_records()[index as int].spec_source() == old(self).view_records()[index as int].spec_source(),
            final(self).view_records()[index as int].spec_raster() == old(self).view_records()[index as int].spec_raster(),
            final(self).view_records()[index as int].spec_result() == old(self).view_records()[index as int].spec_result(),
            forall|i: int|
                #![trigger final(self).view_records()[i]]
                0 <= i < old(self).view_records().len() && i != index ==> final(self).view_records()[i]
                    == old(self).view_records()[i],
            job_of(job, index, final(self).view_records()[index as int]),
            final(self).spec_selected() == old(self).spec_selected(),
            final(self).spec_previous() == old(self).spec_previous(),
    {
        let mut rec = self.records.remove(index);
        assert(rec.wf());
        let job = rec.set_region(index, region);
        self.records.insert(index, rec);
        proof {
            assert(self.records@ =~= old(self).records@.update(index as int, rec));
            assert forall|i: int| 0 <= i < self.records@.len() implies #[trigger] self.records@[i].wf() by {
                if i != index {
                    assert(old(self).view_records()[i].wf());
                }
            }
        }
        job
    }

    /// Hands the outcome of a run to its record. It is applied only when it
    /// comes from that record's latest run; otherwise nothing changes.
    pub fn receive_image_data(&mut self, outcome: AnalysisOutcome) -> (applied: bool)
        requires
            old(self).wf(),
        ensures
            final(self).wf(),
            final(self).view_records().len() == old(self).view_records().len(),
            applied == (outcome.record < old(self).view_records().len()
                && outcome.generation == old(self).view_records()[outcome.record as int].spec_generation()
                && old(self).view_records()[outcome.record as int].spec_status() == RunStatus::Running),
            applied ==> final(self).view_records()[outcome.record as int].spec_result() == Some(outcome.result),
            !applied ==> final(self).view_records() == old(self).view_records(),
            forall|i: int|
                #![trigger final(self).view_records()[i]]
                0 <= i < old(self).view_records().len() && i != outcome.record ==> final(self).view_records()[i]
                    == old(self).view_records()[i],
            final(self).spec_selected() == old(self).spec_selected(),
            final(self).spec_previous() == old(self).spec_previous(),
    {
        let index = outcome.record;
        if index >= self.records.len() {
            return false;
        }
        let mut rec = self.records.remove(index);
        assert(rec.wf());
        let applied = rec.complete(outcome);
        self.records.insert(index, rec);
        proof {
            assert(self.records@ =~= old(self).records@.update(index as int, rec));
            assert forall|i: int| 0 <= i < self.records@.len() implies #[trigger] self.records@[i].wf() by {
                if i != index {
                    assert(old(self).view_records()[i].wf());
                }
            }
            if !applied {
                assert(self.records@ =~= old(self).records@);
            }
        }
        applied
    }

    /// Makes `index` (the first image, for `None`) the selected image, keeps
    /// the former selection as the previous one, and starts a run of the newly
    /// selected image.
    pub fn reload_image(&mut self, index: Option<usize>) -> (job: AnalysisJob)
        requires
            old(self).wf(),
            old(self).view_records().len() > 0,
            index matches Some(k) ==> k < old(self).view_records().len(),
        ensures
            final(self).wf(),
            final(self).spec_previous() == old(self).spec_selected(),
            final(self).spec_selected() == Some(
                match index {
                    Some(k) => k,
                    None => 0usize,
                },
            ),
            final(self).view_records().len() == old(self).view_records().len(),
            ({
                let k = final(self).spec_selected().unwrap() as int;
                &&& run_started(final(self).view_records()[k], old(self).view_records()[k])
                &&& job_of(job, k as usize, final(self).view_records()[k])
                &&& forall|i: int|
                    #![trigger final(self).view_records()[i]]
                    0 <= i < old(self).view_records().len() && i != k ==> final(self).view_records()[i]
                        == old(self).view_records()[i]
            }),
    {
        self.previous = self.selected;
        let k = match index {
            Some(k) => k,
            None => 0,
        };
        self.selected = Some(k);
        self.analyze_image(k)
    }

    /// Moves the selection to the next image, from the last back to the
    /// first, and starts its run. Nothing happens while no image is selected.
    pub fn select_next(&mut self) -> (job: Option<AnalysisJob>)
        requires
            old(self).wf(),
        ensures
            final(self).wf(),
            final(self).view_records().len() == old(self).view_records().len(),
            old(self).spec_selected().is_none() ==> job.is_none() && *final(self) == *old(self),
            old(self).spec_selected() matches Some(s) ==> {
                &&& job.is_some()
                &&& final(self).spec_previous() == Some(s)
                &&& final(self).spec_selected() == Some(
                    if s + 1 < old(self).view_records().len() {
                        (s + 1) as usize
                    } else {
                        0usize
                    },
                )
                &&& job_of(job.unwrap(), final(self).spec_selected().unwrap(), final(self).view_records()[final(self).spec_selected().unwrap() as int])
                &&& run_started(
                    final(self).view_records()[final(self).spec_selected().unwrap() as int],
                    old(self).view_records()[final(self).spec_selected().unwrap() as int],
                )
                &&& forall|i: int|
                    #![trigger final(self).view_records()[i]]
                    0 <= i < old(self).view_records().len() && i != final(self).spec_selected().unwrap()
                        ==> final(self).view_records()[i] == old(self).view_records()[i]
            },
    {
        match self.selected {
            None => None,
            Some(s) => {
                if s < self.records.len() - 1 {
                    Some(self.reload_image(Some(s + 1)))
                } else {
                    Some(self.reload_image(None))
                }
            },
        }
    }

    /// Moves the selection to the previous image, from the first round to the
    /// last, and starts its run. Nothing happens while no image is selected.
    pub fn select_previous(&mut self) -> (job: Option<AnalysisJob>)
        requires
            old(self).wf(),
        ensures
            final(self).wf(),
            final(self).view_records().len() == old(self).view_records().len(),
            old(self).spec_selected().is_none() ==> job.is_none() && *final(self) == *old(self),
            old(self).spec_selected() matches Some(s) ==> {
                &&& job.is_some()
                &&& final(self).spec_previous() == Some(s)
                &&& final(self).spec_selected() == Some(
                    if s > 0 {
                        (s - 1) as usize
                    } else {
                        (old(self).view_records().len() - 1) as usize
                    },
                )
                &&& job_of(job.unwrap(), final(self).spec_selected().unwrap(), final(self).view_records()[final(self).spec_selected().unwrap() as int])
                &&& run_started(
                    final(self).view_records()[final(self).spec_selected().unwrap() as int],
                    old(self).view_records()[final(self).spec_selected().unwrap() as int],
                )
                &&& forall|i: int|
                    #![trigger final(self).view_records()[i]]
                    0 <= i < old(self).view_records().len() && i != final(self).spec_selected().unwrap()
                        ==> final(self).view_records()[i] == old(self).view_records()[i]
            },
    {
        match self.selected {
            None => None,
            Some(s) => {
                if s > 0 {
                    Some(self.reload_image(Some(s - 1)))
                } else {
                    let last = self.records.len() - 1;
                    Some(self.reload_image(Some(last)))
                }
            },
        }
    }

    /// Gives the selected image the parameters of the previously selected
    /// one, and its region when it has one, then starts the selected image's
    /// run (the selection itself becomes the previous one). Nothing happens
    /// unless both a selected and a previous image exist.
    pub fn apply_previous_settings(&mut self) -> (job: Option<AnalysisJob>)
        requires
            old(self).wf(),
        ensures
            final(self).wf(),
            final(self).view_records().len() == old(self).view_records().len(),
            (old(self).spec_previous().is_none() || old(self).spec_selected().is_none()) ==> job.is_none()
                && *final(self) == *old(self),
            old(self).spec_previous() matches Some(p) ==> old(self).spec_selected() matches Some(s) ==> {
                let from = old(self).view_records()[p as int];
                let before = old(self).view_records()[s as int];
                let after = final(self).view_records()[s as int];
                &&& job.is_some()
                &&& final(self).spec_selected() == Some(s)
                &&& final(self).spec_previous() == Some(s)
                &&& after.spec_params() == from.spec_params()
                &&& after.spec_region() == if from.spec_region().is_some() {
                    from.spec_region()
                } else {
                    before.spec_region()
                }
                &&& after.spec_source() == before.spec_source()
                &&& after.spec_raster() == before.spec_raster()
                &&& after.spec_result() == before.spec_result()
                &&& after.spec_generation() == next_generation(before.spec_generation())
                &&& after.spec_status() == RunStatus::Running
                &&& job_of(job.unwrap(), s, after)
                &&& forall|i: int|
                    #![trigger final(self).view_records()[i]]
                    0 <= i < old(self).view_records().len() && i != s ==> final(self).view_records()[i]
                        == old(self).view_records()[i]
            },
    {
        let (p, s) = match (self.previous, self.selected) {
            (Some(p), Some(s)) => (p, s),
            _ => {
                return None;
            },
        };
        let params = self.records[p].params();
        let from_region = self.records[p].region();
        let mut rec = self.records.remove(s);
        rec.params = params;
        if from_region.is_some() {
            rec.region = from_region;
        }
        self.records.insert(s, rec);
        proof {
            assert(self.records@ =~= old(self).records@.update(s as int, rec));
            assert forall|i: int| 0 <= i < self.records@.len() implies #[trigger] self.view_records()[i].wf() by {
                if i != s {
                    assert(old(self).view_records()[i].wf());
                }
            }
        }
        Some(self.reload_image(Some(s)))
    }
}

} // verus!

//! The processing pass over a loaded cloud: which steps run, in what order,
//! and what the status reports before and after.
//!
//! The steps themselves need coordinate arithmetic before each call into the
//! store, so the caller drives them; this module decides what is to be done.

use vstd::prelude::*;

verus! {

/// The guard of the outlier filter where the caller names none.
pub const DEFAULT_OUTLIER_K: usize = 20;

/// Where a processing pass stands.
#[derive(Clone, Copy, Debug, PartialEq, Eq, Structural)]
pub enum Stage {
    /// No pass was started yet.
    Idle,
    /// A pass is running.
    Processing,
    /// The last pass ran to its end.
    Complete,
}

/// A snapshot of the latest processing pass.
#[derive(Clone, Copy, Debug)]
pub struct ProcessingStatus {
    pub stage: Stage,
    /// The number of points left by the last pass that ran to its end.
    pub point_count: usize,
}

/// What a caller asks of a processing pass.
#[derive(Clone, Copy, Debug)]
pub struct ProcessOptions {
    /// Deduplicate by voxel cell.
    pub downsample: bool,
    /// Remove outliers.
    pub remove_outliers: bool,
    /// The guard of the outlier filter; `DEFAULT_OUTLIER_K` where `None`.
    pub outlier_k: Option<usize>,
}

/// One step of a processing pass.
#[derive(Clone, Copy, Debug, PartialEq, Eq, Structural)]
pub enum Step {
    /// Voxel deduplication.
    Downsample,
    /// Outlier removal, inert on clouds of fewer than `k` points.
    RemoveOutliers { k: usize },
}

/// Why a processing pass did not start.
#[derive(Clone, Copy, Debug, PartialEq, Eq, Structural)]
pub enum ProcessError {
    /// No cloud is loaded.
    NoCloud,
}

impl ProcessOptions {
    /// The guard of the outlier filter that these options ask for.
    pub open spec fn spec_outlier_k(self) -> usize {
        match self.outlier_k {
            Some(k) => k,
            None => DEFAULT_OUTLIER_K,
        }
    }

    /// The steps that these options ask for: deduplication first, if asked
    /// for, then outlier removal, if asked for.
    pub open spec fn spec_steps(self) -> Seq<Step> {
        let first = if self.downsample {
            seq![Step::Downsample]
        } else {
            Seq::empty()
        };
        let second = if self.remove_outliers {
            seq![Step::RemoveOutliers { k: self.spec_outlier_k() }]
        } else {
            Seq::empty()
        };
        first + second
    }

    /// The guard of the outlier filter that these options ask for.
    pub fn effective_outlier_k(&self) -> (k: usize)
        ensures
            k == self.spec_outlier_k(),
    {
        match self.outlier_k {
            Some(k) => k,
            None => DEFAULT_OUTLIER_K,
        }
    }

    /// The steps of the pass, in the order in which they run.
    pub fn steps(&self) -> (plan: Vec<Step>)
        ensures
            plan@ == self.spec_steps(),
    {
        let mut plan: Vec<Step> = Vec::new();
        if self.downsample {
            plan.push(Step::Downsample);
        }
        if self.remove_outliers {
            plan.push(Step::RemoveOutliers { k: self.effective_outlier_k() });
        }
        assert(plan@ =~= self.spec_steps());
        plan
    }
}

impl ProcessError {
    /// The message shown to the user.
    pub fn message(&self) -> (text: &'static str)
        ensures
            text@ == "No point cloud loaded"@,
    {
        "No point cloud loaded"
    }
}

impl ProcessingStatus {
    /// The status before any pass: idle, no points counted.
    pub fn new() -> (status: Self)
        ensures
            status.stage == Stage::Idle,
            status.point_count == 0,
    {
        ProcessingStatus { stage: Stage::Idle, point_count: 0 }
    }

    /// Starts a pass if a cloud is loaded: the stage becomes `Processing` and
    /// the count of the pass before stays. Without a cloud nothing changes.
    pub fn begin(&mut self, cloud_loaded: bool) -> (r: Result<(), ProcessError>)
        ensures
            cloud_loaded ==> r is Ok,
            cloud_loaded ==> final(self).stage == Stage::Processing,
            cloud_loaded ==> final(self).point_count == old(self).point_count,
            !cloud_loaded ==> r == Err::<(), ProcessError>(ProcessError::NoCloud),
            !cloud_loaded ==> *final(self) == *old(self),
    {
        if !cloud_loaded {
            return Err(ProcessError::NoCloud);
        }
        self.stage = Stage::Processing;
        Ok(())
    }

    /// Ends a pass that left `point_count` points.
    pub fn complete(&mut self, point_count: usize)
        ensures
            final(self).stage == Stage::Complete,
            final(self).point_count == point_count,
    {
        self.stage = Stage::Complete;
        self.point_count = point_count;
    }

    /// How far the pass is, in percent: 100 once complete, 0 before.
    pub fn progress_percent(&self) -> (percent: u8)
        ensures
            percent == (if self.stage == Stage::Complete {
                100u8
            } else {
                0u8
            }),
    {
        match self.stage {
            Stage::Complete => 100,
            _ => 0,
        }
    }

    /// The name of the stage: empty before the first pass.
    pub fn stage_name(&self) -> (name: &'static str)
        ensures
            name@ == (match self.stage {
                Stage::Idle => ""@,
                Stage::Processing => "Processing"@,
                Stage::Complete => "Complete"@,
            }),
    {
        match self.stage {
            Stage::Idle => "",
            Stage::Processing => "Processing",
            Stage::Complete => "Complete",
        }
    }
}

impl Default for ProcessingStatus {
    fn default() -> (status: Self)
        ensures
            status.stage == Stage::Idle,
            status.point_count == 0,
    {
        ProcessingStatus::new()
    }
}

} // verus!

//! What can go wrong, as values and as their mathematical views.

use vstd::prelude::*;

verus! {

/// One of the four controls that a profile sets.
#[derive(Debug, Clone, Copy, PartialEq, Eq, Structural)]
pub enum Step {
    /// The scaling governor of a core.
    Governor,
    /// The lower scaling bound of a core.
    MinFreq,
    /// The upper scaling bound of a core.
    MaxFreq,
    /// The machine-wide turbo switch.
    Turbo,
}

/// A failure of this library.
#[derive(Debug, PartialEq, Eq)]
pub enum Error {
    /// A control file could not be read or written.
    Io { path: String },
    /// A file held something that could not be understood.
    Parse { path: String, raw: String },
    /// A frequency lies outside the hardware bounds of its core.
    OutOfRange { value: u32, min: u32, max: u32 },
    /// A governor is not among those that the core offers.
    UnknownGovernor { name: String },
    /// Turbo control was asked of a driver whose encoding is not known.
    UnsupportedDriverOperation,
    /// Some cores failed in an operation on all cores; the others succeeded.
    PartialFailure { failures: Vec<CoreFailure> },
    /// Some writes of a profile failed; the others stay in effect.
    ProfileFailure { steps: Vec<StepFailure> },
    /// Discovery at construction failed.
    Init,
    /// A core index is not below the number of cores.
    InvalidCore { core: usize, count: usize },
    /// A zone index is not below the number of thermal zones.
    InvalidZone { zone: usize, count: usize },
    /// A maximum was asked over no thermal zone.
    NoZones,
}

/// The failure of one core within an operation on all cores.
#[derive(Debug, PartialEq, Eq)]
pub struct CoreFailure {
    pub core: usize,
    pub error: Error,
}

/// The failure of one write of a profile. `core` is `None` for the turbo
/// switch, which belongs to no core.
#[derive(Debug, PartialEq, Eq)]
pub struct StepFailure {
    pub step: Step,
    pub core: Option<usize>,
    pub error: Error,
}

/// The mathematical view of an [`Error`].
pub enum ErrorView {
    Io { path: Seq<char> },
    Parse { path: Seq<char>, raw: Seq<char> },
    OutOfRange { value: u32, min: u32, max: u32 },
    UnknownGovernor { name: Seq<char> },
    UnsupportedDriverOperation,
    PartialFailure { failures: Seq<(usize, ErrorView)> },
    ProfileFailure { steps: Seq<(Step, Option<usize>, ErrorView)> },
    Init,
    InvalidCore { core: usize, count: usize },
    InvalidZone { zone: usize, count: usize },
    NoZones,
}

impl View for Error {
    type V = ErrorView;

    open spec fn view(&self) -> ErrorView
        decreases self, 1int,
    {
        match self {
            Error::Io { path } => ErrorView::Io { path: path@ },
            Error::Parse { path, raw } => ErrorView::Parse { path: path@, raw: raw@ },
            Error::OutOfRange { value, min, max } => ErrorView::OutOfRange {
                value: *value,
                min: *min,
                max: *max,
            },
            Error::UnknownGovernor { name } => ErrorView::UnknownGovernor { name: name@ },
            Error::UnsupportedDriverOperation => ErrorView::UnsupportedDriverOperation,
            Error::PartialFailure { failures } => ErrorView::PartialFailure {
                failures: core_failures(failures@),
            },
            Error::ProfileFailure { steps } => ErrorView::ProfileFailure {
                steps: step_failures(steps@),
            },
            Error::Init => ErrorView::Init,
            Error::InvalidCore { core, count } => ErrorView::InvalidCore {
                core: *core,
                count: *count,
            },
            Error::InvalidZone { zone, count } => ErrorView::InvalidZone {
                zone: *zone,
                count: *count,
            },
            Error::NoZones => ErrorView::NoZones,
        }
    }
}

/// The views of a list of core failures.
pub open spec fn core_failures(failures: Seq<CoreFailure>) -> Seq<(usize, ErrorView)>
    decreases failures, 0int,
{
    if failures.len() == 0 {
        Seq::empty()
    } else {
        core_failures(failures.drop_last()).push((failures.last().core, failures.last().error@))
    }
}

/// The views of a list of step failures.
pub open spec fn step_failures(failures: Seq<StepFailure>) -> Seq<
    (Step, Option<usize>, ErrorView),
>
    decreases failures, 0int,
{
    if failures.len() == 0 {
        Seq::empty()
    } else {
        step_failures(failures.drop_last()).push(
            (failures.last().step, failures.last().core, failures.last().error@),
        )
    }
}

/// A result with its error taken by its view.
pub open spec fn outcome<T>(r: Result<T, Error>) -> Result<T, ErrorView> {
    match r {
        Ok(v) => Ok(v),
        Err(e) => Err(e@),
    }
}

/// A textual result with both sides taken by their views.
pub open spec fn text_outcome(r: Result<String, Error>) -> Result<Seq<char>, ErrorView> {
    match r {
        Ok(v) => Ok(v@),
        Err(e) => Err(e@),
    }
}

/// The view of a list of core failures has the list's length and holds, at
/// each index, the view of the failure at that index.
pub proof fn lemma_core_failures(failures: Seq<CoreFailure>)
    ensures
        core_failures(failures).len() == failures.len(),
        forall|i: int|
            0 <= i < failures.len() ==> core_failures(failures)[i] == (
                failures[i].core,
                failures[i].error@,
            ),
    decreases failures.len(),
{
    if failures.len() > 0 {
        lemma_core_failures(failures.drop_last());
        assert(core_failures(failures) == core_failures(failures.drop_last()).push((failures.last().core, failures.last().error@)));
    } else {
        assert(core_failures(failures) == Seq::<(usize, ErrorView)>::empty());
    }
}

/// The view of a list of step failures has the list's length and holds, at
/// each index, the view of the failure at that index.
pub proof fn lemma_step_failures(failures: Seq<StepFailure>)
    ensures
        step_failures(failures).len() == failures.len(),
        forall|i: int|
            0 <= i < failures.len() ==> step_failures(failures)[i] == (
                failures[i].step,
                failures[i].core,
                failures[i].error@,
            ),
    decreases failures.len(),
{
    if failures.len() > 0 {
        lemma_step_failures(failures.drop_last());
        assert(step_failures(failures) == step_failures(failures.drop_last()).push(
            (failures.last().step, failures.last().core, failures.last().error@),
        ));
    } else {
        assert(step_failures(failures) == Seq::<(Step, Option<usize>, ErrorView)>::empty());
    }
}

} // verus!

//! Writes to control files as data: what is to be written, and what the
//! attempts amount to once the caller has made them.
//!
//! The library never touches a file. A mutating operation returns the writes
//! it has decided on; the caller performs them in the order given, notes for
//! each whether it succeeded, and hands the outcomes back to `conclude`.

use crate::error::{
    core_failures, lemma_core_failures, outcome, CoreFailure, Error, ErrorView, Step,
};
use vstd::prelude::*;

verus! {

/// One write to a control file.
#[derive(Debug, PartialEq, Eq)]
pub struct WriteRequest {
    pub path: String,
    pub content: String,
}

/// The mathematical view of a [`WriteRequest`].
pub struct WriteView {
    pub path: Seq<char>,
    pub content: Seq<char>,
}

impl View for WriteRequest {
    type V = WriteView;

    open spec fn view(&self) -> WriteView {
        WriteView { path: self.path@, content: self.content@ }
    }
}

/// A decision on one write with the write or the error taken by its view.
pub open spec fn decision(request: Result<WriteRequest, Error>) -> Result<WriteView, ErrorView> {
    match request {
        Ok(w) => Ok(w@),
        Err(e) => Err(e@),
    }
}

/// What becomes of a decided write: the error that rejected it, an I/O error
/// on its path where the write was attempted and failed, or nothing.
pub open spec fn write_failure(request: Result<WriteView, ErrorView>, written: bool) -> Option<
    ErrorView,
> {
    match request {
        Err(e) => Some(e),
        Ok(w) => if written {
            None
        } else {
            Some(ErrorView::Io { path: w.path })
        },
    }
}

/// Whether the caller reported the write at index `i` as done. A write
/// without a report counts as not done.
pub open spec fn was_written(outcomes: Seq<bool>, i: int) -> bool {
    0 <= i < outcomes.len() && outcomes[i]
}

impl WriteRequest {
    /// The result of this write, given whether the caller managed to
    /// perform it.
    pub fn conclude(self, written: bool) -> (r: Result<(), Error>)
        ensures
            outcome(r) == (match write_failure(Ok(self@), written) {
                Some(e) => Err(e),
                None => Ok(()),
            }),
    {
        if written {
            Ok(())
        } else {
            Err(Error::Io { path: self.path })
        }
    }
}

/// A write decided for one core: the request, or the error that rejected
/// it before anything was written.
#[derive(Debug, PartialEq, Eq)]
pub struct CoreWrite {
    pub core: usize,
    pub step: Step,
    pub request: Result<WriteRequest, Error>,
}

/// The mathematical view of a [`CoreWrite`].
pub struct CoreWriteView {
    pub core: usize,
    pub step: Step,
    pub request: Result<WriteView, ErrorView>,
}

impl View for CoreWrite {
    type V = CoreWriteView;

    open spec fn view(&self) -> CoreWriteView {
        CoreWriteView { core: self.core, step: self.step, request: decision(self.request) }
    }
}

/// The views of a list of decided writes.
pub open spec fn writes_view(writes: Seq<CoreWrite>) -> Seq<CoreWriteView> {
    writes.map_values(|w: CoreWrite| w@)
}

/// The failures among `plan`, in the plan's order, each with its core.
pub open spec fn failed_cores(plan: Seq<CoreWriteView>, outcomes: Seq<bool>) -> Seq<
    (usize, ErrorView),
>
    decreases plan.len(),
{
    if plan.len() == 0 {
        Seq::empty()
    } else {
        let rest = failed_cores(plan.drop_last(), outcomes);
        match write_failure(plan.last().request, was_written(outcomes, plan.len() - 1)) {
            Some(e) => rest.push((plan.last().core, e)),
            None => rest,
        }
    }
}

/// The failures among `plan`, in the plan's order, each with its step and
/// core.
pub open spec fn failed_steps(plan: Seq<CoreWriteView>, outcomes: Seq<bool>) -> Seq<
    (Step, Option<usize>, ErrorView),
>
    decreases plan.len(),
{
    if plan.len() == 0 {
        Seq::empty()
    } else {
        let rest = failed_steps(plan.drop_last(), outcomes);
        match write_failure(plan.last().request, was_written(outcomes, plan.len() - 1)) {
            Some(e) => rest.push((plan.last().step, Some(plan.last().core), e)),
            None => rest,
        }
    }
}

/// No write of `plan` failed.
pub open spec fn all_succeeded(plan: Seq<CoreWriteView>, outcomes: Seq<bool>) -> bool {
    forall|i: int|
        0 <= i < plan.len() ==> write_failure(
            #[trigger] plan[i].request,
            was_written(outcomes, i),
        ) is None
}

/// The result of an operation on all cores: success where nothing failed,
/// else the failures.
pub open spec fn core_conclusion(plan: Seq<CoreWriteView>, outcomes: Seq<bool>) -> Result<
    (),
    ErrorView,
> {
    if failed_cores(plan, outcomes).len() == 0 {
        Ok(())
    } else {
        Err(ErrorView::PartialFailure { failures: failed_cores(plan, outcomes) })
    }
}

/// There are failures exactly where some write failed.
pub proof fn lemma_failed_cores_empty(plan: Seq<CoreWriteView>, outcomes: Seq<bool>)
    ensures
        failed_cores(plan, outcomes).len() == 0 <==> all_succeeded(plan, outcomes),
        failed_steps(plan, outcomes).len() == failed_cores(plan, outcomes).len(),
        failed_cores(plan, outcomes).len() <= plan.len(),
    decreases plan.len(),
{
    if plan.len() > 0 {
        let front = plan.drop_last();
        lemma_failed_cores_empty(front, outcomes);
        if all_succeeded(plan, outcomes) {
            assert forall|i: int| 0 <= i < front.len() implies write_failure(
                #[trigger] front[i].request,
                was_written(outcomes, i),
            ) is None by {
                assert(front[i] == plan[i]);
            }
            assert(plan.last() == plan[plan.len() - 1]);
        }
        if failed_cores(plan, outcomes).len() == 0 {
            assert forall|i: int| 0 <= i < plan.len() implies write_failure(
                #[trigger] plan[i].request,
                was_written(outcomes, i),
            ) is None by {
                if i < front.len() {
                    assert(front[i] == plan[i]);
                }
            }
        }
    }
}

/// The writes that an operation on all cores has decided on, in the order
/// in which the caller is to perform them.
#[derive(Debug, PartialEq, Eq)]
pub struct CorePlan {
    pub writes: Vec<CoreWrite>,
}

impl View for CorePlan {
    type V = Seq<CoreWriteView>;

    open spec fn view(&self) -> Seq<CoreWriteView> {
        writes_view(self.writes@)
    }
}

impl CorePlan {
    /// The number of decided writes.
    pub fn len(&self) -> (n: usize)
        ensures
            n == self@.len(),
    {
        self.writes.len()
    }

    /// The write to perform at index `i`; `None` where `i` is out of range
    /// or the write was rejected.
    pub fn request(&self, i: usize) -> (r: Option<&WriteRequest>)
        ensures
            match r {
                Some(w) => i < self@.len() && self@[i as int].request == Ok::<
                    WriteView,
                    ErrorView,
                >(w@),
                None => i >= self@.len() || self@[i as int].request is Err,
            },
    {
        if i < self.writes.len() {
            match &self.writes[i].request {
                Ok(w) => Some(w),
                Err(_) => None,
            }
        } else {
            None
        }
    }

    /// The result of the operation, given for each decided write whether
    /// the caller managed to perform it (`outcomes[i]` for the write at
    /// index `i`; a missing entry counts as a failed write, an entry for a
    /// rejected write is ignored). Every failure is reported with its core,
    /// in the plan's order.
    pub fn conclude(self, outcomes: &Vec<bool>) -> (r: Result<(), Error>)
        ensures
            outcome(r) == core_conclusion(self@, outcomes@),
    {
        let ghost plan = self@;
        let mut failures: Vec<CoreFailure> = Vec::new();
        let writes = self.writes;
        let n: usize = writes.len();
        let mut i: usize = 0;
        assert(core_failures(failures@) =~= failed_cores(plan.take(0), outcomes@));
        for item in it: writes
            invariant
                i == it.index(),
                n == plan.len(),
                it.seq().len() == n,
                forall|k: int| 0 <= k < n ==> (#[trigger] it.seq()[k])@ == plan[k],
                core_failures(failures@) == failed_cores(plan.take(i as int), outcomes@),
        {
            let ghost before = failures@;
            let written = i < outcomes.len() && outcomes[i];
            proof {
                assert(item@ == plan[i as int]);
                assert(plan.take(i + 1).drop_last() =~= plan.take(i as int));
                assert(plan.take(i + 1).last() == plan[i as int]);
            }
            match item.request {
                Ok(w) => {
                    if !written {
                        failures.push(
                            CoreFailure { core: item.core, error: Error::Io { path: w.path } },
                        );
                        proof {
                            assert(failures@.drop_last() =~= before);
                            assert(core_failures(failures@) == core_failures(before).push(
                                (failures@.last().core, failures@.last().error@),
                            ));
                        }
                    }
                },
                Err(e) => {
                    failures.push(CoreFailure { core: item.core, error: e });
                    proof {
                        assert(failures@.drop_last() =~= before);
                        assert(core_failures(failures@) == core_failures(before).push(
                            (failures@.last().core, failures@.last().error@),
                        ));
                    }
                },
            }
            i = i + 1;
        }
        proof {
            assert(plan.take(n as int) =~= plan);
            lemma_core_failures(failures@);
        }
        if failures.len() == 0 {
            Ok(())
        } else {
            Err(Error::PartialFailure { failures })
        }
    }
}

} // verus!

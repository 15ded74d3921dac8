//! A picture of the control files and of what the caller's writes do to
//! them, to say what an operation leaves behind.
//!
//! The picture is the kernel's as far as this library relies on it: a file
//! that took a write hands the value back with a line end behind it, and a
//! write that failed, or was never decided on, changes nothing.

use crate::error::ErrorView;
use crate::paths::core_file;
use crate::plan::{was_written, CoreWriteView, WriteView};
use crate::text::{decimal, lemma_decimal_round_trip};
use vstd::prelude::*;

verus! {

/// The content of the file at `path`, or `None` where there is none.
pub open spec fn content_at(files: Map<Seq<char>, Seq<char>>, path: Seq<char>) -> Option<
    Seq<char>,
> {
    if files.contains_key(path) {
        Some(files[path])
    } else {
        None
    }
}

/// Whether a decided write was made: it was not rejected, and the caller
/// reports it as done.
pub open spec fn made(request: Result<WriteView, ErrorView>, written: bool) -> bool {
    request is Ok && written
}

/// The files after the caller has dealt with one decided write.
pub open spec fn after_write(
    files: Map<Seq<char>, Seq<char>>,
    request: Result<WriteView, ErrorView>,
    written: bool,
) -> Map<Seq<char>, Seq<char>> {
    if made(request, written) {
        files.insert(request->Ok_0.path, request->Ok_0.content + seq!['\n'])
    } else {
        files
    }
}

/// The files after the caller has dealt with the decided writes of `plan`
/// in their order.
pub open spec fn after_plan(
    files: Map<Seq<char>, Seq<char>>,
    plan: Seq<CoreWriteView>,
    outcomes: Seq<bool>,
) -> Map<Seq<char>, Seq<char>>
    decreases plan.len(),
{
    if plan.len() == 0 {
        files
    } else {
        after_write(
            after_plan(files, plan.drop_last(), outcomes),
            plan.last().request,
            was_written(outcomes, plan.len() - 1),
        )
    }
}

/// Whether the write at index `i` of `plan` was made to the file at `path`.
pub open spec fn made_to(plan: Seq<CoreWriteView>, outcomes: Seq<bool>, i: int, path: Seq<char>) -> bool {
    &&& 0 <= i < plan.len()
    &&& made(plan[i].request, was_written(outcomes, i))
    &&& plan[i].request->Ok_0.path == path
}

/// A file to which no write of the plan was made is as it was.
pub proof fn lemma_untouched(
    files: Map<Seq<char>, Seq<char>>,
    plan: Seq<CoreWriteView>,
    outcomes: Seq<bool>,
    path: Seq<char>,
)
    requires
        forall|i: int| !made_to(plan, outcomes, i, path),
    ensures
        content_at(after_plan(files, plan, outcomes), path) == content_at(files, path),
    decreases plan.len(),
{
    if plan.len() > 0 {
        let front = plan.drop_last();
        assert forall|i: int| !made_to(front, outcomes, i, path) by {
            if 0 <= i < front.len() {
                assert(front[i] == plan[i]);
                assert(!made_to(plan, outcomes, i, path));
            }
        }
        lemma_untouched(files, front, outcomes, path);
        assert(!made_to(plan, outcomes, plan.len() - 1, path));
    }
}

/// A file holds what the last write made to it stored, with a line end
/// behind it.
pub proof fn lemma_last_write_stays(
    files: Map<Seq<char>, Seq<char>>,
    plan: Seq<CoreWriteView>,
    outcomes: Seq<bool>,
    path: Seq<char>,
    i: int,
)
    requires
        made_to(plan, outcomes, i, path),
        forall|j: int| i < j ==> !made_to(plan, outcomes, j, path),
    ensures
        content_at(after_plan(files, plan, outcomes), path) == Some(
            plan[i].request->Ok_0.content + seq!['\n'],
        ),
    decreases plan.len(),
{
    let front = plan.drop_last();
    let last = plan.len() - 1;
    if i < last {
        assert(front[i] == plan[i]);
        assert(made_to(front, outcomes, i, path));
        assert forall|j: int| i < j implies !made_to(front, outcomes, j, path) by {
            if j < front.len() {
                assert(front[j] == plan[j]);
                assert(!made_to(plan, outcomes, j, path));
            }
        }
        lemma_last_write_stays(files, front, outcomes, path, i);
        assert(!made_to(plan, outcomes, last, path));
    }
}

/// The files of different cores are different files.
pub proof fn lemma_core_files_differ(a: nat, b: nat, file: Seq<char>)
    requires
        a != b,
    ensures
        core_file(a, file) != core_file(b, file),
{
    let x = core_file(a, file);
    let y = core_file(b, file);
    if x == y {
        let head = crate::paths::cpu_root() + "/cpu"@;
        let tail = "/cpufreq/"@ + file;
        let da = decimal(a);
        let db = decimal(b);
        assert(x =~= head + da + tail);
        assert(y =~= head + db + tail);
        assert(da.len() == db.len());
        assert(da =~= x.subrange(head.len() as int, (head.len() + da.len()) as int));
        assert(db =~= y.subrange(head.len() as int, (head.len() + db.len()) as int));
        lemma_decimal_round_trip(a);
        lemma_decimal_round_trip(b);
    }
}

/// Files of different names are different files, whichever cores they
/// belong to.
pub proof fn lemma_core_files_differ_by_name(a: nat, b: nat, first: Seq<char>, second: Seq<char>)
    requires
        first != second,
        first.len() == second.len(),
    ensures
        core_file(a, first) != core_file(b, second),
{
    let x = core_file(a, first);
    let y = core_file(b, second);
    if x == y {
        assert(first =~= x.subrange(x.len() - first.len(), x.len() as int));
        assert(second =~= y.subrange(y.len() - second.len(), y.len() as int));
    }
}

/// The three files that a profile writes for a core have different names
/// of one length.
pub proof fn lemma_control_names_differ()
    ensures
        "scaling_governor"@.len() == "scaling_min_freq"@.len() == "scaling_max_freq"@.len(),
        "scaling_governor"@ != "scaling_min_freq"@,
        "scaling_governor"@ != "scaling_max_freq"@,
        "scaling_min_freq"@ != "scaling_max_freq"@,
{
    reveal_strlit("scaling_governor");
    reveal_strlit("scaling_min_freq");
    reveal_strlit("scaling_max_freq");
    assert("scaling_governor"@[8] == 'g');
    assert("scaling_min_freq"@[8] == 'm');
    assert("scaling_max_freq"@[8] == 'm');
    assert("scaling_min_freq"@[9] == 'i');
    assert("scaling_max_freq"@[9] == 'a');
}

} // verus!

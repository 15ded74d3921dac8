//! Snapshots that are all or nothing: a table read element by element is
//! worth something only if every element could be read.

use crate::error::{Error, ErrorView};
use vstd::prelude::*;

verus! {

/// The values of `results` if all of them are values, else the error of the
/// first that is one.
pub open spec fn collect<T>(results: Seq<Result<T, ErrorView>>) -> Result<Seq<T>, ErrorView>
    decreases results.len(),
{
    if results.len() == 0 {
        Ok(Seq::empty())
    } else {
        match collect(results.drop_last()) {
            Err(e) => Err(e),
            Ok(items) => match results.last() {
                Ok(v) => Ok(items.push(v)),
                Err(e) => Err(e),
            },
        }
    }
}

/// What `collect` returns, said directly: every value in its place, or the
/// error at the first index that holds one.
pub proof fn lemma_collect<T>(results: Seq<Result<T, ErrorView>>)
    ensures
        match collect(results) {
            Ok(items) => {
                &&& items.len() == results.len()
                &&& forall|i: int|
                    0 <= i < results.len() ==> results[i] == Ok::<T, ErrorView>(items[i])
            },
            Err(e) => exists|k: int|
                {
                    &&& 0 <= k < results.len()
                    &&& #[trigger] results[k] == Err::<T, ErrorView>(e)
                    &&& forall|i: int| 0 <= i < k ==> results[i] is Ok
                },
        },
    decreases results.len(),
{
    if results.len() > 0 {
        let front = results.drop_last();
        lemma_collect(front);
        match collect(front) {
            Err(e) => {
                let k = choose|k: int|
                    {
                        &&& 0 <= k < front.len()
                        &&& #[trigger] front[k] == Err::<T, ErrorView>(e)
                        &&& forall|i: int| 0 <= i < k ==> front[i] is Ok
                    };
                assert(results[k] == Err::<T, ErrorView>(e));
                assert forall|i: int| 0 <= i < k implies results[i] is Ok by {
                    assert(front[i] is Ok);
                }
            },
            Ok(items) => {
                match results.last() {
                    Ok(v) => {
                        assert forall|i: int| 0 <= i < results.len() implies results[i] == Ok::<
                            T,
                            ErrorView,
                        >(items.push(v)[i]) by {
                            if i < front.len() {
                                assert(front[i] == results[i]);
                            }
                        }
                    },
                    Err(e) => {
                        let k = results.len() - 1;
                        assert(results[k] == Err::<T, ErrorView>(e));
                        assert forall|i: int| 0 <= i < k implies results[i] is Ok by {
                            assert(front[i] == results[i]);
                        }
                    },
                }
            },
        }
    }
}

/// Where everything before index `k` is a value and `k` holds an error,
/// that error is what `collect` returns.
pub proof fn lemma_collect_error<T>(results: Seq<Result<T, ErrorView>>, k: int)
    requires
        0 <= k < results.len(),
        collect(results.take(k)) is Ok,
        results[k] is Err,
    ensures
        collect(results) == Err::<Seq<T>, ErrorView>(results[k]->Err_0),
    decreases results.len(),
{
    let front = results.drop_last();
    if k == results.len() - 1 {
        assert(front =~= results.take(k));
    } else {
        assert(front.take(k) =~= results.take(k));
        lemma_collect_error(front, k);
    }
}

/// A vector of values, or an error taken by its view.
pub open spec fn values_outcome<T>(r: Result<Vec<T>, Error>) -> Result<Seq<T>, ErrorView> {
    match r {
        Ok(values) => Ok(values@),
        Err(e) => Err(e@),
    }
}

/// The greatest element of a sequence that is not empty.
pub open spec fn max_of(s: Seq<i32>) -> i32
    decreases s.len(),
{
    if s.len() <= 1 {
        s[0]
    } else if max_of(s.drop_last()) >= s.last() {
        max_of(s.drop_last())
    } else {
        s.last()
    }
}

/// `max_of` is an element of the sequence and no element is above it.
pub proof fn lemma_max_of(s: Seq<i32>)
    requires
        s.len() > 0,
    ensures
        s.contains(max_of(s)),
        forall|i: int| 0 <= i < s.len() ==> s[i] <= max_of(s),
    decreases s.len(),
{
    if s.len() > 1 {
        let front = s.drop_last();
        lemma_max_of(front);
        let k = choose|k: int| 0 <= k < front.len() && front[k] == max_of(front);
        assert(s[k] == front[k]);
        assert(s[s.len() - 1] == s.last());
        assert forall|i: int| 0 <= i < s.len() implies s[i] <= max_of(s) by {
            if i < front.len() {
                assert(front[i] == s[i]);
            }
        }
    } else {
        assert(s[0] == max_of(s));
    }
}

/// The greatest of `values`, or `None` where there is none.
pub fn greatest(values: &Vec<i32>) -> (r: Option<i32>)
    ensures
        r == (if values@.len() == 0 {
            None
        } else {
            Some(max_of(values@))
        }),
{
    let n: usize = values.len();
    if n == 0 {
        return None;
    }
    let mut best: i32 = values[0];
    let mut i: usize = 1;
    assert(values@.take(1).len() == 1);
    while i < n
        invariant
            1 <= i <= n,
            n == values.len(),
            best == max_of(values@.take(i as int)),
        decreases n - i,
    {
        proof {
            assert(values@.take(i + 1).drop_last() =~= values@.take(i as int));
        }
        if values[i] > best {
            best = values[i];
        }
        i = i + 1;
    }
    assert(values@.take(n as int) =~= values@);
    Some(best)
}

} // verus!

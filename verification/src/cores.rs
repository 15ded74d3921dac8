//! The logical cores of the machine and where their control files are.

use crate::error::{text_outcome, Error, ErrorView};
use crate::paths::{core_file, core_file_path};
use crate::text::{decimal, decimal_string, parse_u32, texts, to_chars, u32_of};
use crate::words::starts_with;
use vstd::prelude::*;
use vstd::string::StringExecFns;

verus! {

/// The number of the core whose directory is named `name`: the name is
/// `cpu` and then the number in its shortest decimal writing. Other
/// entries of the directory, such as `cpufreq` and `cpuidle`, name no core.
pub open spec fn core_number(name: Seq<char>) -> Option<u32> {
    let prefix = "cpu"@;
    if prefix.is_prefix_of(name) {
        let digits = name.skip(prefix.len() as int);
        match u32_of(digits) {
            Some(n) => if digits == decimal(n as nat) {
                Some(n)
            } else {
                None
            },
            None => None,
        }
    } else {
        None
    }
}

/// Whether `entries` holds the directory of the core with number `n`.
pub open spec fn lists_core(entries: Seq<Seq<char>>, n: u32) -> bool {
    exists|i: int| 0 <= i < entries.len() && #[trigger] core_number(entries[i]) == Some(n)
}

/// Each number is below all that follow it.
pub open spec fn ascending(numbers: Seq<u32>) -> bool {
    forall|i: int, j: int| 0 <= i < j < numbers.len() ==> numbers[i] < numbers[j]
}

/// What `numbers` must be to be the cores found among `entries`: the
/// numbers of the cores listed, each once, in ascending order.
pub open spec fn enumerated(numbers: Seq<u32>, entries: Seq<Seq<char>>) -> bool {
    &&& ascending(numbers)
    &&& forall|n: u32| numbers.contains(n) <==> lists_core(entries, n)
}

/// The number of the core whose directory is named `name`, if it names
/// one.
pub fn parse_core_name(name: &str) -> (r: Option<u32>)
    ensures
        r == core_number(name@),
{
    proof {
        reveal_strlit("cpu");
    }
    let chars = to_chars(name);
    let prefix = to_chars("cpu");
    if !starts_with(&chars, &prefix) {
        return None;
    }
    let digits = name.substring_char(3, chars.len());
    assert(digits@ =~= name@.skip(3));
    match parse_u32(digits) {
        None => None,
        Some(n) => {
            let canonical = decimal_string(n as u64);
            let given = String::from_str(digits);
            if canonical == given {
                Some(n)
            } else {
                None
            }
        },
    }
}

/// Puts `n` into the ascending list `numbers`, unless it is there.
fn insert_number(numbers: &mut Vec<u32>, n: u32)
    requires
        ascending(old(numbers)@),
    ensures
        ascending(final(numbers)@),
        forall|x: u32| final(numbers)@.contains(x) <==> (old(numbers)@.contains(x) || x == n),
{
    let ghost before = numbers@;
    let len: usize = numbers.len();
    let mut p: usize = 0;
    while p < len && numbers[p] < n
        invariant
            p <= len,
            len == numbers.len(),
            numbers@ == before,
            forall|i: int| 0 <= i < p ==> before[i] < n,
        decreases len - p,
    {
        p = p + 1;
    }
    if p < len && numbers[p] == n {
        assert(before.contains(n));
        return ;
    }
    numbers.insert(p, n);
    proof {
        let after = numbers@;
        assert(after == before.insert(p as int, n));
        assert forall|i: int, j: int| 0 <= i < j < after.len() implies after[i] < after[j] by {
            if i < p && j > p {
                assert(before[i] < n);
                assert(after[j] == before[j - 1]);
                if j - 1 > p {
                    assert(before[p as int] < before[j - 1]);
                }
            } else if i > p {
                assert(after[i] == before[i - 1] && after[j] == before[j - 1]);
            }
        }
        assert forall|x: u32| after.contains(x) <==> (before.contains(x) || x == n) by {
            if before.contains(x) {
                let i = choose|i: int| 0 <= i < before.len() && before[i] == x;
                if i < p {
                    assert(after[i] == x);
                } else {
                    assert(after[i + 1] == x);
                }
            }
            if x == n {
                assert(after[p as int] == n);
            }
            if after.contains(x) {
                let i = choose|i: int| 0 <= i < after.len() && after[i] == x;
                if i < p {
                    assert(before[i] == x);
                } else if i > p {
                    assert(before[i - 1] == x);
                }
            }
        }
    }
}

/// The cores of the machine: the numbers of their directories in ascending
/// order. The core with index `k` is the one with the `k`-th smallest
/// number; on the usual machine index and number are the same.
pub struct CoreTable {
    numbers: Vec<u32>,
}

impl CoreTable {
    #[verifier::type_invariant]
    spec fn holds(&self) -> bool {
        self.wf()
    }

    /// The directory numbers of the cores, by core index.
    pub closed spec fn numbers(&self) -> Seq<u32> {
        self.numbers@
    }

    /// A table holds at least one core, and its numbers ascend.
    pub open spec fn wf(&self) -> bool {
        self.numbers().len() > 0 && ascending(self.numbers())
    }

    /// The number of cores.
    pub open spec fn count(&self) -> nat {
        self.numbers().len()
    }

    /// The path of the file `file` of core `core`.
    pub open spec fn path(&self, core: usize, file: Seq<char>) -> Result<Seq<char>, ErrorView> {
        if core >= self.count() {
            Err(ErrorView::InvalidCore { core, count: self.count() as usize })
        } else {
            Ok(core_file(self.numbers()[core as int] as nat, file))
        }
    }

    /// The cores can be counted in a machine word.
    pub proof fn lemma_count_fits(&self)
        ensures
            self.count() <= usize::MAX,
    {
        assert(self.numbers@.len() == self.numbers.len());
    }

    /// The number of cores.
    pub fn len(&self) -> (n: usize)
        ensures
            n == self.count(),
            n > 0,
            self.wf(),
    {
        proof {
            use_type_invariant(self);
        }
        self.numbers.len()
    }

    /// The path of the frequency-scaling file `file` of core `core`.
    pub fn file_path(&self, core: usize, file: &str) -> (r: Result<String, Error>)
        ensures
            text_outcome(r) == self.path(core, file@),
    {
        if core >= self.numbers.len() {
            Err(Error::InvalidCore { core, count: self.numbers.len() })
        } else {
            Ok(core_file_path(self.numbers[core], file))
        }
    }
}

/// Finds the cores of the machine.
pub struct CoreEnumerator;

impl CoreEnumerator {
    /// The cores among the entries of the directory of the cores (`None`:
    /// the directory could not be listed). An error where the directory
    /// could not be listed or lists no core.
    pub fn discover(entries: Option<Vec<String>>) -> (r: Result<CoreTable, Error>)
        ensures
            match r {
                Ok(table) => {
                    &&& entries is Some
                    &&& table.wf()
                    &&& enumerated(table.numbers(), texts(entries->Some_0@))
                },
                Err(e) => {
                    &&& e@ == ErrorView::Init
                    &&& entries is Some ==> forall|n: u32| !lists_core(texts(entries->Some_0@), n)
                },
            },
    {
        let listed = match entries {
            None => {
                return Err(Error::Init);
            },
            Some(listed) => listed,
        };
        let ghost names = texts(listed@);
        let mut numbers: Vec<u32> = Vec::new();
        let len: usize = listed.len();
        let mut i: usize = 0;
        while i < len
            invariant
                i <= len,
                len == listed.len(),
                names == texts(listed@),
                enumerated(numbers@, names.take(i as int)),
            decreases len - i,
        {
            let ghost before = numbers@;
            let found = parse_core_name(listed[i].as_str());
            if let Some(n) = found {
                insert_number(&mut numbers, n);
            }
            proof {
                let seen = names.take(i as int);
                let next = names.take(i + 1);
                assert(next[i as int] == listed@[i as int]@);
                assert forall|x: u32| numbers@.contains(x) <==> lists_core(next, x) by {
                    if lists_core(seen, x) {
                        let k = choose|k: int|
                            0 <= k < seen.len() && #[trigger] core_number(seen[k]) == Some(x);
                        assert(next[k] == seen[k]);
                    }
                    if found == Some(x) {
                        assert(core_number(next[i as int]) == Some(x));
                    }
                    if lists_core(next, x) {
                        let k = choose|k: int|
                            0 <= k < next.len() && #[trigger] core_number(next[k]) == Some(x);
                        if k < i {
                            assert(seen[k] == next[k]);
                        }
                    }
                }
            }
            i = i + 1;
        }
        proof {
            assert(names.take(len as int) =~= names);
        }
        if numbers.len() == 0 {
            proof {
                assert forall|n: u32| !lists_core(names, n) by {
                    if lists_core(names, n) {
                        assert(numbers@.contains(n));
                    }
                }
            }
            return Err(Error::Init);
        }
        Ok(CoreTable { numbers })
    }
}

} // verus!

//! The processor's model name, as the system identification lists it.

use crate::text::{to_chars, trim, trimmed};
use crate::words::matches_at;
use vstd::prelude::*;
use vstd::string::StringExecFns;

verus! {

/// How many characters `s` starts with that are not `stop`.
pub open spec fn run_before(s: Seq<char>, stop: char) -> nat
    decreases s.len(),
{
    if s.len() > 0 && s.first() != stop {
        1 + run_before(s.drop_first(), stop)
    } else {
        0
    }
}

/// The model that a line of the identification names: the line starts
/// with `model name`, and the model is what follows its first colon,
/// without the white space around it.
pub open spec fn model_in_line(line: Seq<char>) -> Option<Seq<char>> {
    let colon = run_before(line, ':');
    if "model name"@.is_prefix_of(line) && colon < line.len() {
        Some(trimmed(line.skip(colon as int + 1)))
    } else {
        None
    }
}

/// The model that the first line of `text` names which names one.
pub open spec fn model_name(text: Seq<char>) -> Option<Seq<char>>
    decreases text.len(),
{
    let end = run_before(text, '\n');
    match model_in_line(text.take(end as int)) {
        Some(model) => Some(model),
        None => if end < text.len() {
            model_name(text.skip(end as int + 1))
        } else {
            None
        },
    }
}

proof fn lemma_run_before(s: Seq<char>, stop: char, n: int)
    requires
        0 <= n <= s.len(),
        forall|i: int| 0 <= i < n ==> s[i] != stop,
        n == s.len() || s[n] == stop,
    ensures
        run_before(s, stop) == n,
    decreases n,
{
    if n > 0 {
        lemma_run_before(s.drop_first(), stop, n - 1);
    }
}

/// The index of the first `stop` in `chars` at or after `from` and before
/// `to`; `to` where there is none.
fn find(chars: &Vec<char>, from: usize, to: usize, stop: char) -> (r: usize)
    requires
        from <= to <= chars.len(),
    ensures
        from <= r <= to,
        r - from == run_before(chars@.subrange(from as int, to as int), stop),
{
    let mut i: usize = from;
    while i < to && chars[i] != stop
        invariant
            from <= i <= to,
            to <= chars.len(),
            forall|k: int| from <= k < i ==> chars@[k] != stop,
        decreases to - i,
    {
        i = i + 1;
    }
    proof {
        let part = chars@.subrange(from as int, to as int);
        assert forall|k: int| 0 <= k < i - from implies part[k] != stop by {
            assert(part[k] == chars@[from + k]);
        }
        lemma_run_before(part, stop, i - from);
    }
    i
}

/// The model name that the processor identification `text` gives, if it
/// gives one.
pub fn parse_model(text: &str) -> (r: Option<String>)
    ensures
        match r {
            Some(model) => model_name(text@) == Some(model@),
            None => model_name(text@) is None,
        },
{
    let chars = to_chars(text);
    let label = to_chars("model name");
    let n: usize = chars.len();
    let mut start: usize = 0;
    assert(text@.skip(0) =~= text@);
    loop
        invariant
            start <= n,
            n == chars.len(),
            chars@ == text@,
            label@ == "model name"@,
            model_name(text@) == model_name(text@.skip(start as int)),
        decreases n - start,
    {
        let ghost rest = text@.skip(start as int);
        let end = find(&chars, start, n, '\n');
        let ghost line = rest.take(end - start);
        proof {
            assert(chars@.subrange(start as int, n as int) =~= rest);
            assert(line =~= chars@.subrange(start as int, end as int));
        }
        let labelled = label.len() <= end - start && matches_at(&chars, &label, start);
        proof {
            if label@.len() <= line.len() {
                assert(line.take(label@.len() as int) =~= chars@.subrange(
                    start as int,
                    start + label@.len(),
                ));
            }
            assert(labelled == label@.is_prefix_of(line));
        }
        if labelled {
            let colon = find(&chars, start, end, ':');
            if colon < end {
                let tail = text.substring_char(colon + 1, end);
                proof {
                    assert(tail@ =~= line.skip(colon - start + 1));
                }
                return Some(String::from_str(trim(tail)));
            }
        }
        if end >= n {
            return None;
        }
        proof {
            assert(rest.skip(end - start + 1) =~= text@.skip(end + 1));
        }
        start = end + 1;
    }
}

} // verus!

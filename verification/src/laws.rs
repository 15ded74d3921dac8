//! What holds of the library as a whole, beyond the contract of any one
//! function.

use crate::cores::{ascending, enumerated};
use crate::cpu::{
    available_at, hw_max_at, hw_min_at, kilohertz_text, megahertz, CoreReading, CpuManager,
};
use crate::driver::{
    lemma_turbo_round_trip, turbo_control, turbo_state, turbo_write, DriverView,
};
use crate::error::{ErrorView, Step};
use crate::order::{lemma_lex_le_antisymmetric, lemma_lex_le_total, lemma_lex_le_transitive};
use crate::plan::{
    all_succeeded, core_conclusion, failed_cores, failed_steps, lemma_failed_cores_empty,
    was_written, write_failure, CoreWriteView, WriteView,
};
use crate::profile::{
    cap_step, profile_conclusion, profile_failures, profile_plan, reset_step, turbo_failure,
    ProfileView,
};
use crate::snapshot::{collect, lemma_collect, lemma_max_of};
use crate::store::{
    after_plan, after_write, content_at, lemma_control_names_differ, lemma_core_files_differ,
    lemma_core_files_differ_by_name, lemma_last_write_stays, lemma_untouched, made, made_to,
};
use crate::text::{
    is_space, lemma_decimal_round_trip, lemma_decimal_trimmed, lemma_trimmed_line, lex_le,
    opt_string, trimmed, u32_of, word_len, words,
};
use crate::thermal::{
    discovered, examined, is_cpu_type, is_first_cpu_zone, leading_contents,
    lemma_leading_contents, temp_at, trip_point, trip_points, trip_type_of, type_at,
    ThermalManager, TripPointView, TripReading, ZoneReading,
};
use vstd::prelude::*;

verus! {

/// A run of characters without white space has the length of the run and
/// holds no white space before its end.
pub proof fn lemma_word_len_bound(s: Seq<char>)
    ensures
        word_len(s) <= s.len(),
        forall|i: int| 0 <= i < word_len(s) ==> !is_space(s[i]),
    decreases s.len(),
{
    if s.len() > 0 && !is_space(s.first()) {
        lemma_word_len_bound(s.drop_first());
        assert forall|i: int| 0 <= i < word_len(s) implies !is_space(s[i]) by {
            if i > 0 {
                assert(s[i] == s.drop_first()[i - 1]);
            }
        }
    }
}

/// A word of a text is not empty and holds no white space, so that it is
/// its own trimmed part, also with a line end behind it.
pub proof fn lemma_words_are_trimmed(s: Seq<char>, word: Seq<char>)
    requires
        words(s).contains(word),
    ensures
        word.len() > 0,
        forall|i: int| 0 <= i < word.len() ==> !is_space(word[i]),
        trimmed(word) == word,
        trimmed(word + seq!['\n']) == word,
    decreases s.len(),
{
    if s.len() == 0 {
    } else if is_space(s.first()) {
        lemma_words_are_trimmed(s.drop_first(), word);
    } else {
        let n = word_len(s) as int;
        lemma_word_len_bound(s);
        let k = choose|k: int| 0 <= k < words(s).len() && words(s)[k] == word;
        if k == 0 {
            assert(word == s.take(n));
            lemma_trimmed_line(word);
        } else {
            assert(words(s.skip(n))[k - 1] == word);
            lemma_words_are_trimmed(s.skip(n), word);
        }
    }
}

/// Where the kernel reports a hardware minimum that is not above the
/// hardware maximum, the minimum that this library reports for a core is
/// not above the maximum either: going over to megahertz keeps the order.
pub proof fn lemma_hardware_bounds_ordered(
    cpu: &CpuManager,
    core: usize,
    hw_min: Seq<char>,
    hw_max: Seq<char>,
)
    requires
        core < cpu.count(),
        u32_of(trimmed(hw_min)) is Some,
        u32_of(trimmed(hw_max)) is Some,
        u32_of(trimmed(hw_min))->Some_0 <= u32_of(trimmed(hw_max))->Some_0,
    ensures
        cpu.hardware_min(core, Some(hw_min)) is Ok,
        cpu.hardware_max(core, Some(hw_max)) is Ok,
        cpu.hardware_min(core, Some(hw_min))->Ok_0 <= cpu.hardware_max(core, Some(hw_max))->Ok_0,
{
}

/// A bound is written only with a frequency within the hardware bounds of
/// its core, and the kernel's file then reports that frequency. With
/// readable bounds, a frequency outside them is rejected as out of range:
/// there is no write.
pub proof fn lemma_bound_within_hardware(
    cpu: &CpuManager,
    core: usize,
    file: Seq<char>,
    freq: u32,
    hw_min: Option<Seq<char>>,
    hw_max: Option<Seq<char>>,
)
    ensures
        match cpu.bound_write(core, file, freq, hw_min, hw_max) {
            Ok(w) => {
                &&& cpu.hardware_min(core, hw_min) is Ok
                &&& cpu.hardware_max(core, hw_max) is Ok
                &&& cpu.hardware_min(core, hw_min)->Ok_0 <= freq <= cpu.hardware_max(
                    core,
                    hw_max,
                )->Ok_0
                &&& w.content == kilohertz_text(freq)
                &&& megahertz(w.path, Some(w.content)) == Ok::<u32, ErrorView>(freq)
                &&& megahertz(w.path, Some(w.content + seq!['\n'])) == Ok::<u32, ErrorView>(freq)
            },
            Err(e) => cpu.hardware_min(core, hw_min) is Ok && cpu.hardware_max(core, hw_max) is Ok
                ==> {
                &&& !(cpu.hardware_min(core, hw_min)->Ok_0 <= freq <= cpu.hardware_max(
                    core,
                    hw_max,
                )->Ok_0)
                &&& e == (ErrorView::OutOfRange {
                    value: freq,
                    min: cpu.hardware_min(core, hw_min)->Ok_0,
                    max: cpu.hardware_max(core, hw_max)->Ok_0,
                })
            },
        },
{
    if cpu.bound_write(core, file, freq, hw_min, hw_max) is Ok {
        let khz = freq as nat * 1000;
        lemma_decimal_round_trip(khz);
        lemma_decimal_trimmed(khz);
        assert(khz <= u32::MAX);
        assert(khz / 1000 == freq);
    }
}

/// The failures of an operation on all cores are those of the writes that
/// failed, each with the core of its write.
pub proof fn lemma_failed_cores_members(
    plan: Seq<CoreWriteView>,
    outcomes: Seq<bool>,
    core: usize,
    error: ErrorView,
)
    ensures
        failed_cores(plan, outcomes).contains((core, error)) <==> exists|i: int|
            {
                &&& 0 <= i < plan.len()
                &&& (#[trigger] plan[i]).core == core
                &&& write_failure(plan[i].request, was_written(outcomes, i)) == Some(error)
            },
    decreases plan.len(),
{
    let listed = failed_cores(plan, outcomes);
    if plan.len() > 0 {
        let front = plan.drop_last();
        let rest = failed_cores(front, outcomes);
        let last = plan.len() - 1;
        lemma_failed_cores_members(front, outcomes, core, error);
        let failure = write_failure(plan.last().request, was_written(outcomes, last));
        if listed.contains((core, error)) {
            let k = choose|k: int| 0 <= k < listed.len() && listed[k] == (core, error);
            if k < rest.len() {
                assert(rest[k] == (core, error));
                let i = choose|i: int|
                    {
                        &&& 0 <= i < front.len()
                        &&& (#[trigger] front[i]).core == core
                        &&& write_failure(front[i].request, was_written(outcomes, i)) == Some(
                            error,
                        )
                    };
                assert(plan[i] == front[i]);
            } else {
                assert(plan[last].core == core);
            }
        }
        if exists|i: int|
            {
                &&& 0 <= i < plan.len()
                &&& (#[trigger] plan[i]).core == core
                &&& write_failure(plan[i].request, was_written(outcomes, i)) == Some(error)
            } {
            let i = choose|i: int|
                {
                    &&& 0 <= i < plan.len()
                    &&& (#[trigger] plan[i]).core == core
                    &&& write_failure(plan[i].request, was_written(outcomes, i)) == Some(error)
                };
            if i < last {
                assert(front[i] == plan[i]);
                let k = choose|k: int| 0 <= k < rest.len() && rest[k] == (core, error);
                assert(listed[k] == (core, error));
            } else {
                assert(listed[listed.len() - 1] == (core, error));
            }
        }
    }
}

/// Where exactly one write fails, exactly that one is reported.
pub proof fn lemma_single_failure(plan: Seq<CoreWriteView>, outcomes: Seq<bool>, k: int)
    requires
        0 <= k < plan.len(),
        forall|i: int|
            0 <= i < plan.len() ==> (write_failure(
                (#[trigger] plan[i]).request,
                was_written(outcomes, i),
            ) is Some <==> i == k),
    ensures
        failed_cores(plan, outcomes) == seq![
            (plan[k].core, write_failure(plan[k].request, was_written(outcomes, k))->Some_0),
        ],
    decreases plan.len(),
{
    let front = plan.drop_last();
    let last = plan.len() - 1;
    assert(plan.last() == plan[last]);
    if k == last {
        assert forall|i: int| 0 <= i < front.len() implies write_failure(
            #[trigger] front[i].request,
            was_written(outcomes, i),
        ) is None by {
            assert(front[i] == plan[i]);
        }
        lemma_failed_cores_empty(front, outcomes);
        assert(failed_cores(front, outcomes) =~= Seq::empty());
        assert(failed_cores(plan, outcomes) =~= seq![
            (plan[k].core, write_failure(plan[k].request, was_written(outcomes, k))->Some_0),
        ]);
    } else {
        assert forall|i: int| 0 <= i < front.len() implies (write_failure(
            (#[trigger] front[i]).request,
            was_written(outcomes, i),
        ) is Some <==> i == k) by {
            assert(front[i] == plan[i]);
        }
        lemma_single_failure(front, outcomes, k);
        assert(front[k] == plan[k]);
    }
}

/// Giving every core a governor that every core offers, on a machine
/// where the kernel takes the write of every core but one: the error
/// names that core and no other, with the file that was not written, and
/// every other core was handed the governor and reports it when read
/// again.
pub proof fn lemma_one_core_rejects(
    cpu: &CpuManager,
    name: Seq<char>,
    readings: Seq<CoreReading>,
    outcomes: Seq<bool>,
    k: usize,
)
    requires
        k < cpu.count(),
        forall|c: int|
            0 <= c < cpu.count() ==> (#[trigger] cpu.governor_write(
                c as usize,
                name,
                available_at(readings, c),
            )) is Ok,
        forall|c: int| 0 <= c < cpu.count() ==> (#[trigger] was_written(outcomes, c) <==> c != k),
    ensures
        core_conclusion(cpu.governor_plan(name, readings), outcomes) == Err::<(), ErrorView>(
            ErrorView::PartialFailure {
                failures: seq![
                    (k, ErrorView::Io { path: cpu.table().path(k, "scaling_governor"@)->Ok_0 }),
                ],
            },
        ),
        forall|c: int|
            0 <= c < cpu.count() && c != k ==> {
                &&& (#[trigger] cpu.governor_plan(name, readings)[c]).request == Ok::<
                    WriteView,
                    ErrorView,
                >(
                    WriteView {
                        path: cpu.table().path(c as usize, "scaling_governor"@)->Ok_0,
                        content: name,
                    },
                )
                &&& cpu.governor(c as usize, Some(name)) == Ok::<Seq<char>, ErrorView>(name)
                &&& cpu.governor(c as usize, Some(name + seq!['\n'])) == Ok::<
                    Seq<char>,
                    ErrorView,
                >(name)
            },
{
    let plan = cpu.governor_plan(name, readings);
    assert forall|i: int| 0 <= i < plan.len() implies (write_failure(
        (#[trigger] plan[i]).request,
        was_written(outcomes, i),
    ) is Some <==> i == k) by {
        assert(cpu.governor_write(i as usize, name, available_at(readings, i)) is Ok);
        assert(was_written(outcomes, i) <==> i != k);
    }
    lemma_single_failure(plan, outcomes, k as int);
    assert(cpu.governor_write(k, name, available_at(readings, k as int)) is Ok);
    assert(was_written(outcomes, k as int) <==> k != k);
    let offered = cpu.available_governors(k, available_at(readings, k as int))->Ok_0;
    assert(offered.contains(name));
    lemma_words_are_trimmed(available_at(readings, k as int)->Some_0, name);
    assert forall|c: int| 0 <= c < cpu.count() && c != k implies {
        &&& (#[trigger] plan[c]).request == Ok::<WriteView, ErrorView>(
            WriteView {
                path: cpu.table().path(c as usize, "scaling_governor"@)->Ok_0,
                content: name,
            },
        )
        &&& cpu.governor(c as usize, Some(name)) == Ok::<Seq<char>, ErrorView>(name)
        &&& cpu.governor(c as usize, Some(name + seq!['\n'])) == Ok::<Seq<char>, ErrorView>(name)
    } by {
        assert(cpu.governor_write(c as usize, name, available_at(readings, c)) is Ok);
    }
}

/// What applying a profile writes, by position: first the governor of
/// every core in the order of the cores; with a cap, then the reset of
/// every lower bound and then the cap on every upper bound, each in the
/// order of the cores; and the turbo switch is written, last of all,
/// exactly if the profile sets turbo.
pub proof fn lemma_profile_plan_order(
    profile: ProfileView,
    cpu: &CpuManager,
    readings: Seq<CoreReading>,
)
    ensures
        ({
            let plan = profile_plan(profile, cpu, readings);
            let n = cpu.count() as int;
            &&& plan.cores.len() == (if profile.max_freq is Some {
                3 * n
            } else {
                n
            })
            &&& forall|c: int|
                0 <= c < n ==> (#[trigger] plan.cores[c]).step == Step::Governor
                    && plan.cores[c].core == c
            &&& profile.max_freq is Some ==> forall|c: int|
                0 <= c < n ==> {
                    &&& (#[trigger] plan.cores[n + c]).step == Step::MinFreq
                    &&& plan.cores[n + c].core == c
                    &&& plan.cores[2 * n + c].step == Step::MaxFreq
                    &&& plan.cores[2 * n + c].core == c
                }
            &&& plan.turbo is Some <==> profile.turbo is Some
        }),
{
    cpu.table().lemma_count_fits();
    let plan = profile_plan(profile, cpu, readings);
    let n = cpu.count() as int;
    let governors = cpu.governor_plan(profile.governor, readings);
    assert forall|c: int| 0 <= c < n implies (#[trigger] plan.cores[c]).step == Step::Governor
        && plan.cores[c].core == c by {
        assert(plan.cores[c] == governors[c]);
    }
    if profile.max_freq is Some {
        let resets = reset_step(cpu, readings);
        let caps = cap_step(cpu, profile.max_freq->Some_0, readings);
        assert forall|c: int| 0 <= c < n implies {
            &&& (#[trigger] plan.cores[n + c]).step == Step::MinFreq
            &&& plan.cores[n + c].core == c
            &&& plan.cores[2 * n + c].step == Step::MaxFreq
            &&& plan.cores[2 * n + c].core == c
        } by {
            assert(plan.cores[n + c] == resets[c]);
            assert(plan.cores[2 * n + c] == caps[c]);
        }
    } else {
        assert(plan.cores =~= governors);
    }
}

/// Where every write of a profile to a core is made and the write of the
/// turbo switch fails, the error reports the turbo switch and nothing
/// else.
pub proof fn lemma_only_turbo_fails(
    profile: ProfileView,
    cpu: &CpuManager,
    readings: Seq<CoreReading>,
    outcomes: Seq<bool>,
)
    requires
        profile.turbo is Some,
        !(cpu.driver() is Unknown),
        all_succeeded(profile_plan(profile, cpu, readings).cores, outcomes),
        !was_written(outcomes, profile_plan(profile, cpu, readings).cores.len() as int),
    ensures
        profile_conclusion(profile_plan(profile, cpu, readings), outcomes) == Err::<
            (),
            ErrorView,
        >(
            ErrorView::ProfileFailure {
                steps: seq![
                    (
                        Step::Turbo,
                        None::<usize>,
                        ErrorView::Io { path: turbo_control(cpu.driver())->Some_0 },
                    ),
                ],
            },
        ),
{
    let plan = profile_plan(profile, cpu, readings);
    lemma_failed_cores_empty(plan.cores, outcomes);
    assert(failed_steps(plan.cores, outcomes) =~= Seq::empty());
    assert(profile_failures(plan, outcomes) =~= turbo_failure(plan, outcomes));
}

/// A trip point whose type file cannot be read does not end the discovery
/// of trip points. Where every temperature file up to the first that is
/// missing can be read and understood, there is one trip point for each,
/// numbered from 0, and its type is the placeholder exactly where its type
/// file could not be read.
pub proof fn lemma_unreadable_type_keeps_discovery(zone: Seq<char>, found: Vec<TripReading>)
    requires
        examined(found@) == leading_contents(found@),
        forall|k: int|
            0 <= k < leading_contents(found@) ==> (#[trigger] trip_point(zone, k, found@[k])) is Ok,
    ensures
        trip_points(zone, found@) is Ok,
        trip_points(zone, found@)->Ok_0.len() == leading_contents(found@),
        forall|k: int|
            0 <= k < leading_contents(found@) ==> {
                &&& (#[trigger] trip_points(zone, found@)->Ok_0[k]).id == k
                &&& trip_points(zone, found@)->Ok_0[k].trip_type == trip_type_of(
                    opt_string(found@[k].trip_type),
                )
                &&& found@[k].trip_type is None ==> trip_points(zone, found@)->Ok_0[k].trip_type
                    == "unknown"@
            },
{
    let trips = found@;
    assert(trips.len() == found.len());
    let results = Seq::new(examined(trips), |k: int| trip_point(zone, k, trips[k]));
    lemma_collect(results);
    lemma_leading_contents(trips);
    match collect(results) {
        Ok(points) => {
            assert forall|k: int| 0 <= k < leading_contents(trips) implies {
                &&& (#[trigger] points[k]).id == k
                &&& points[k].trip_type == trip_type_of(opt_string(trips[k].trip_type))
            } by {
                assert(results[k] == trip_point(zone, k, trips[k]));
            }
        },
        Err(e) => {
            let k = choose|k: int|
                {
                    &&& 0 <= k < results.len()
                    &&& #[trigger] results[k] == Err::<TripPointView, ErrorView>(e)
                    &&& forall|i: int| 0 <= i < k ==> results[i] is Ok
                };
            assert(trip_point(zone, k, trips[k]) is Ok);
        },
    }
}

/// The first zone whose label names a sensor of the processor decides the
/// temperature of the processor, wherever among the zones it stands and
/// whatever the zones behind it report.
pub proof fn lemma_first_cpu_zone_decides(
    manager: &ThermalManager,
    readings: Seq<ZoneReading>,
    zone: int,
)
    requires
        is_first_cpu_zone(readings, manager.count(), zone),
    ensures
        manager.cpu_temperature(readings) == manager.temperature(
            zone as usize,
            temp_at(readings, zone),
        ),
{
    let chosen = choose|z: int| is_first_cpu_zone(readings, manager.count(), z);
    assert(chosen == zone);
}

/// Where no label names a sensor of the processor, the temperature of the
/// processor is the greatest of all zones: one of the temperatures read,
/// and none is above it.
pub proof fn lemma_cpu_temperature_falls_back(manager: &ThermalManager, readings: Seq<ZoneReading>)
    requires
        forall|z: int| 0 <= z < manager.count() ==> !is_cpu_type(#[trigger] type_at(readings, z)),
    ensures
        manager.cpu_temperature(readings) == manager.max_temperature(readings),
        match manager.max_temperature(readings) {
            Ok(t) => {
                let temps = manager.temperatures(readings)->Ok_0;
                &&& manager.temperatures(readings) is Ok
                &&& temps.contains(t)
                &&& forall|z: int| 0 <= z < temps.len() ==> temps[z] <= t
            },
            Err(e) => manager.temperatures(readings) == Err::<Seq<i32>, ErrorView>(e)
                || manager.count() == 0 && e == ErrorView::NoZones,
        },
{
    assert forall|z: int| !is_first_cpu_zone(readings, manager.count(), z) by {
        if 0 <= z < manager.count() {
            assert(!is_cpu_type(type_at(readings, z)));
        }
    }
    match manager.temperatures(readings) {
        Ok(temps) => {
            lemma_collect(
                Seq::new(
                    manager.count(),
                    |z: int| manager.temperature(z as usize, temp_at(readings, z)),
                ),
            );
            if temps.len() > 0 {
                lemma_max_of(temps);
            }
        },
        Err(_) => {},
    }
}

/// The zones among the entries of the thermal root are one list and no
/// other: two lists that both are what discovery asks for are equal.
pub proof fn lemma_discovery_is_unique(
    first: Seq<Seq<char>>,
    second: Seq<Seq<char>>,
    entries: Seq<Seq<char>>,
)
    requires
        discovered(first, entries),
        discovered(second, entries),
    ensures
        first == second,
{
    let before = |a: Seq<char>, b: Seq<char>| lex_le(a, b);
    assert(vstd::relations::total_ordering(before)) by {
        assert forall|a: Seq<char>| #[trigger] before(a, a) by {
            lemma_lex_le_total(a, a);
        }
        assert forall|a: Seq<char>, b: Seq<char>| #[trigger]
            before(a, b) && before(b, a) implies a == b by {
            lemma_lex_le_antisymmetric(a, b);
        }
        assert forall|a: Seq<char>, b: Seq<char>, c: Seq<char>| #[trigger]
            before(a, b) && #[trigger] before(b, c) implies before(a, c) by {
            lemma_lex_le_transitive(a, b, c);
        }
        assert forall|a: Seq<char>, b: Seq<char>| #[trigger] before(a, b) || #[trigger] before(b, a) by {
            lemma_lex_le_total(a, b);
        }
    }
    assert(vstd::relations::sorted_by(first, before));
    assert(vstd::relations::sorted_by(second, before));
    vstd::seq_lib::lemma_sorted_unique(first, second, before);
}

/// Two ascending lists that hold the same numbers are the same list.
pub proof fn lemma_ascending_unique(first: Seq<u32>, second: Seq<u32>)
    requires
        ascending(first),
        ascending(second),
        forall|n: u32| first.contains(n) <==> second.contains(n),
    ensures
        first == second,
    decreases first.len(),
{
    if first.len() == 0 {
        if second.len() > 0 {
            assert(second.contains(second[0]));
        }
        assert(first =~= second);
    } else {
        let top = first.last();
        assert(first.contains(top));
        let j = choose|j: int| 0 <= j < second.len() && second[j] == top;
        assert(second.contains(second.last()));
        let i = choose|i: int| 0 <= i < first.len() && first[i] == second.last();
        assert(second.last() == top);
        let a = first.drop_last();
        let b = second.drop_last();
        assert forall|n: u32| a.contains(n) <==> b.contains(n) by {
            if a.contains(n) {
                let k = choose|k: int| 0 <= k < a.len() && a[k] == n;
                assert(first[k] == n);
                assert(first.contains(n));
                let m = choose|m: int| 0 <= m < second.len() && second[m] == n;
                assert(b[m] == n);
            }
            if b.contains(n) {
                let k = choose|k: int| 0 <= k < b.len() && b[k] == n;
                assert(second[k] == n);
                assert(second.contains(n));
                let m = choose|m: int| 0 <= m < first.len() && first[m] == n;
                assert(a[m] == n);
            }
        }
        lemma_ascending_unique(a, b);
        assert(first =~= a.push(top));
        assert(second =~= b.push(top));
    }
}

/// The cores among the entries of the directory of the cores are one
/// table and no other.
pub proof fn lemma_enumeration_is_unique(
    first: Seq<u32>,
    second: Seq<u32>,
    entries: Seq<Seq<char>>,
)
    requires
        enumerated(first, entries),
        enumerated(second, entries),
    ensures
        first == second,
{
    lemma_ascending_unique(first, second);
}

/// A frequency that is rejected leaves every file as it was, whatever the
/// caller does; one that is accepted and written is what the bound then
/// reports.
pub proof fn lemma_rejection_touches_no_file(
    cpu: &CpuManager,
    core: usize,
    file: Seq<char>,
    freq: u32,
    hw_min: Option<Seq<char>>,
    hw_max: Option<Seq<char>>,
    files: Map<Seq<char>, Seq<char>>,
    written: bool,
)
    ensures
        match cpu.bound_write(core, file, freq, hw_min, hw_max) {
            Err(_) => after_write(
                files,
                cpu.bound_write(core, file, freq, hw_min, hw_max),
                written,
            ) == files,
            Ok(w) => written ==> megahertz(
                w.path,
                content_at(
                    after_write(files, cpu.bound_write(core, file, freq, hw_min, hw_max), written),
                    w.path,
                ),
            ) == Ok::<u32, ErrorView>(freq),
        },
{
    lemma_bound_within_hardware(cpu, core, file, freq, hw_min, hw_max);
}

/// Once the turbo switch has been written, asking for the state of turbo
/// gives what was written, under every driver whose encoding is known.
pub proof fn lemma_turbo_stays_as_set(
    driver: DriverView,
    enabled: bool,
    files: Map<Seq<char>, Seq<char>>,
)
    requires
        !(driver is Unknown),
    ensures
        turbo_state(
            driver,
            content_at(
                after_write(files, turbo_write(driver, enabled), true),
                turbo_control(driver)->Some_0,
            ),
        ) == Ok::<bool, ErrorView>(enabled),
{
    lemma_turbo_round_trip(driver, enabled);
}

/// The path of the governor file of the core with index `core`.
pub open spec fn governor_file(cpu: &CpuManager, core: int) -> Seq<char> {
    cpu.table().path(core as usize, "scaling_governor"@)->Ok_0
}

/// Giving every core a governor that every core offers, on a machine
/// where the kernel takes the write of every core but one: afterwards
/// every other core reports the new governor, and the file of the core
/// that rejected the write is as it was.
pub proof fn lemma_rejecting_core_keeps_its_governor(
    cpu: &CpuManager,
    name: Seq<char>,
    readings: Seq<CoreReading>,
    outcomes: Seq<bool>,
    files: Map<Seq<char>, Seq<char>>,
    k: usize,
)
    requires
        cpu.wf(),
        k < cpu.count(),
        forall|c: int|
            0 <= c < cpu.count() ==> (#[trigger] cpu.governor_write(
                c as usize,
                name,
                available_at(readings, c),
            )) is Ok,
        forall|c: int| 0 <= c < cpu.count() ==> (#[trigger] was_written(outcomes, c) <==> c != k),
    ensures
        ({
            let after = after_plan(files, cpu.governor_plan(name, readings), outcomes);
            &&& forall|c: int|
                0 <= c < cpu.count() && c != k ==> cpu.governor(
                    c as usize,
                    content_at(after, #[trigger] governor_file(cpu, c)),
                ) == Ok::<Seq<char>, ErrorView>(name)
            &&& content_at(after, governor_file(cpu, k as int)) == content_at(
                files,
                governor_file(cpu, k as int),
            )
        }),
{
    cpu.table().lemma_count_fits();
    let plan = cpu.governor_plan(name, readings);
    let after = after_plan(files, plan, outcomes);
    let numbers = cpu.table().numbers();
    lemma_one_core_rejects(cpu, name, readings, outcomes, k);
    assert forall|c: int, j: int|
        0 <= c < cpu.count() && 0 <= j < cpu.count() && c != j implies #[trigger] governor_file(
        cpu,
        c,
    ) != #[trigger] governor_file(cpu, j) by {
        if c < j {
            assert(numbers[c] < numbers[j]);
        } else {
            assert(numbers[j] < numbers[c]);
        }
        lemma_core_files_differ(numbers[c] as nat, numbers[j] as nat, "scaling_governor"@);
    }
    assert forall|j: int| 0 <= j < plan.len() implies (#[trigger] plan[j]).request->Ok_0.path
        == governor_file(cpu, j) && plan[j].request is Ok by {
        assert(cpu.governor_write(j as usize, name, available_at(readings, j)) is Ok);
    }
    assert forall|c: int| 0 <= c < cpu.count() && c != k implies cpu.governor(
        c as usize,
        content_at(after, #[trigger] governor_file(cpu, c)),
    ) == Ok::<Seq<char>, ErrorView>(name) by {
        let path = governor_file(cpu, c);
        assert(was_written(outcomes, c) <==> c != k);
        assert(plan[c].request->Ok_0.path == path);
        assert(made_to(plan, outcomes, c, path));
        assert forall|j: int| c < j implies !made_to(plan, outcomes, j, path) by {
            if j < plan.len() {
                assert(plan[j].request->Ok_0.path == governor_file(cpu, j));
                assert(governor_file(cpu, c) != governor_file(cpu, j));
            }
        }
        lemma_last_write_stays(files, plan, outcomes, path, c);
    }
    let own = governor_file(cpu, k as int);
    assert forall|j: int| !made_to(plan, outcomes, j, own) by {
        if 0 <= j < plan.len() {
            if j == k {
                assert(was_written(outcomes, j) <==> j != k);
            } else {
                assert(plan[j].request->Ok_0.path == governor_file(cpu, j));
                assert(governor_file(cpu, k as int) != governor_file(cpu, j));
            }
        }
    }
    lemma_untouched(files, plan, outcomes, own);
}

/// The path of the file `file` of the core with index `core`.
pub open spec fn file_of(cpu: &CpuManager, core: int, file: Seq<char>) -> Seq<char> {
    cpu.table().path(core as usize, file)->Ok_0
}

/// The files of different cores, or of different controls of cores, are
/// different files.
pub proof fn lemma_files_of_cores_differ(
    cpu: &CpuManager,
    c: int,
    j: int,
    first: Seq<char>,
    second: Seq<char>,
)
    requires
        cpu.wf(),
        0 <= c < cpu.count(),
        0 <= j < cpu.count(),
        first.len() == second.len(),
        c != j || first != second,
    ensures
        file_of(cpu, c, first) != file_of(cpu, j, second),
{
    cpu.table().lemma_count_fits();
    let numbers = cpu.table().numbers();
    if first != second {
        lemma_core_files_differ_by_name(numbers[c] as nat, numbers[j] as nat, first, second);
    } else {
        if c < j {
            assert(numbers[c] < numbers[j]);
        } else {
            assert(numbers[j] < numbers[c]);
        }
        lemma_core_files_differ(numbers[c] as nat, numbers[j] as nat, first);
    }
}

/// A profile with a cap whose writes to the cores are all made leaves
/// every core with the profile's governor, with its lower bound at its
/// hardware minimum and with its upper bound at the cap; and a turbo
/// switch that then fails to be written changes none of it.
pub proof fn lemma_failed_turbo_keeps_frequencies(
    profile: ProfileView,
    cpu: &CpuManager,
    readings: Seq<CoreReading>,
    outcomes: Seq<bool>,
    files: Map<Seq<char>, Seq<char>>,
)
    requires
        cpu.wf(),
        profile.max_freq is Some,
        all_succeeded(profile_plan(profile, cpu, readings).cores, outcomes),
    ensures
        ({
            let plan = profile_plan(profile, cpu, readings);
            let after = after_plan(files, plan.cores, outcomes);
            &&& plan.turbo is Some ==> after_write(after, plan.turbo->Some_0, false) == after
            &&& forall|c: int|
                0 <= c < cpu.count() ==> {
                    &&& cpu.governor(
                        c as usize,
                        content_at(after, #[trigger] file_of(cpu, c, "scaling_governor"@)),
                    ) == Ok::<Seq<char>, ErrorView>(profile.governor)
                    &&& cpu.hardware_min(c as usize, hw_min_at(readings, c)) == megahertz(
                        file_of(cpu, c, "scaling_min_freq"@),
                        content_at(after, file_of(cpu, c, "scaling_min_freq"@)),
                    )
                    &&& megahertz(
                        file_of(cpu, c, "scaling_max_freq"@),
                        content_at(after, file_of(cpu, c, "scaling_max_freq"@)),
                    ) == Ok::<u32, ErrorView>(profile.max_freq->Some_0)
                }
        }),
{
    cpu.table().lemma_count_fits();
    lemma_control_names_differ();
    lemma_profile_plan_order(profile, cpu, readings);
    let plan = profile_plan(profile, cpu, readings).cores;
    let after = after_plan(files, plan, outcomes);
    let n = cpu.count() as int;
    let freq = profile.max_freq->Some_0;
    let governors = cpu.governor_plan(profile.governor, readings);
    let resets = reset_step(cpu, readings);
    let caps = cap_step(cpu, freq, readings);
    let governor = "scaling_governor"@;
    let lower = "scaling_min_freq"@;
    let upper = "scaling_max_freq"@;
    assert forall|j: int| 0 <= j < 3 * n implies {
        &&& made((#[trigger] plan[j]).request, was_written(outcomes, j))
        &&& 0 <= j < n ==> plan[j] == governors[j] && plan[j].request->Ok_0.path == file_of(
            cpu,
            j,
            governor,
        )
        &&& n <= j < 2 * n ==> plan[j] == resets[j - n] && plan[j].request->Ok_0.path == file_of(
            cpu,
            j - n,
            lower,
        )
        &&& 2 * n <= j ==> plan[j] == caps[j - 2 * n] && plan[j].request->Ok_0.path == file_of(
            cpu,
            j - 2 * n,
            upper,
        )
    } by {
        assert(write_failure(plan[j].request, was_written(outcomes, j)) is None);
    }
    assert forall|c: int| 0 <= c < n implies {
        &&& cpu.governor(
            c as usize,
            content_at(after, #[trigger] file_of(cpu, c, governor)),
        ) == Ok::<Seq<char>, ErrorView>(profile.governor)
        &&& cpu.hardware_min(c as usize, hw_min_at(readings, c)) == megahertz(
            file_of(cpu, c, lower),
            content_at(after, file_of(cpu, c, lower)),
        )
        &&& megahertz(file_of(cpu, c, upper), content_at(after, file_of(cpu, c, upper))) == Ok::<
            u32,
            ErrorView,
        >(freq)
    } by {
        assert(made(plan[c].request, was_written(outcomes, c)));
        assert(made(plan[n + c].request, was_written(outcomes, n + c)));
        assert(made(plan[2 * n + c].request, was_written(outcomes, 2 * n + c)));
        assert forall|j: int| c < j implies !made_to(plan, outcomes, j, file_of(cpu, c, governor)) by {
            if j < plan.len() {
                assert(made(plan[j].request, was_written(outcomes, j)));
                if j < n {
                    lemma_files_of_cores_differ(cpu, c, j, governor, governor);
                } else if j < 2 * n {
                    lemma_files_of_cores_differ(cpu, c, j - n, governor, lower);
                } else {
                    lemma_files_of_cores_differ(cpu, c, j - 2 * n, governor, upper);
                }
            }
        }
        lemma_last_write_stays(files, plan, outcomes, file_of(cpu, c, governor), c);
        let offered = cpu.available_governors(c as usize, available_at(readings, c))->Ok_0;
        assert(offered.contains(profile.governor));
        lemma_words_are_trimmed(available_at(readings, c)->Some_0, profile.governor);
        assert forall|j: int| n + c < j implies !made_to(plan, outcomes, j, file_of(cpu, c, lower)) by {
            if j < plan.len() {
                assert(made(plan[j].request, was_written(outcomes, j)));
                if j < 2 * n {
                    lemma_files_of_cores_differ(cpu, c, j - n, lower, lower);
                } else {
                    lemma_files_of_cores_differ(cpu, c, j - 2 * n, lower, upper);
                }
            }
        }
        lemma_last_write_stays(files, plan, outcomes, file_of(cpu, c, lower), n + c);
        let hw_min = cpu.hardware_min(c as usize, hw_min_at(readings, c));
        lemma_bound_within_hardware(
            cpu,
            c as usize,
            lower,
            hw_min->Ok_0,
            hw_min_at(readings, c),
            hw_max_at(readings, c),
        );
        assert forall|j: int| 2 * n + c < j implies !made_to(
            plan,
            outcomes,
            j,
            file_of(cpu, c, upper),
        ) by {
            if j < plan.len() {
                assert(made(plan[j].request, was_written(outcomes, j)));
                lemma_files_of_cores_differ(cpu, c, j - 2 * n, upper, upper);
            }
        }
        lemma_last_write_stays(files, plan, outcomes, file_of(cpu, c, upper), 2 * n + c);
        lemma_bound_within_hardware(
            cpu,
            c as usize,
            upper,
            freq,
            hw_min_at(readings, c),
            hw_max_at(readings, c),
        );
    }
}

} // verus!

//! Named power policies, and what applying one writes.

use crate::cpu::{hw_max_at, hw_min_at, CoreReading, CpuManager};
use crate::driver::turbo_write;
use crate::error::{
    lemma_step_failures, outcome, step_failures, Error, ErrorView, Step, StepFailure,
};
use crate::plan::{
    decision, failed_steps, was_written, write_failure, writes_view, CorePlan, CoreWrite,
    CoreWriteView, WriteRequest, WriteView,
};
use crate::text::as_text;
use vstd::prelude::*;
use vstd::string::StringExecFns;

verus! {

/// A named power policy: a governor, and optionally a cap on the frequency
/// in megahertz and a setting of the turbo switch.
#[derive(Debug, Clone, PartialEq, Eq)]
pub struct Profile {
    pub name: String,
    pub description: String,
    pub governor: String,
    pub max_freq: Option<u32>,
    pub turbo: Option<bool>,
}

/// The mathematical view of a [`Profile`].
pub struct ProfileView {
    pub name: Seq<char>,
    pub description: Seq<char>,
    pub governor: Seq<char>,
    pub max_freq: Option<u32>,
    pub turbo: Option<bool>,
}

impl View for Profile {
    type V = ProfileView;

    open spec fn view(&self) -> ProfileView {
        ProfileView {
            name: self.name@,
            description: self.description@,
            governor: self.governor@,
            max_freq: self.max_freq,
            turbo: self.turbo,
        }
    }
}

/// The views of a list of profiles.
pub open spec fn profile_views(list: Seq<Profile>) -> Seq<ProfileView> {
    list.map_values(|p: Profile| p@)
}

/// The profile that saves power.
pub open spec fn power_saver() -> ProfileView {
    ProfileView {
        name: "power-saver"@,
        description: "Lowest power draw: powersave governor, turbo off"@,
        governor: "powersave"@,
        max_freq: None,
        turbo: Some(false),
    }
}

/// The profile for everyday use.
pub open spec fn balanced() -> ProfileView {
    ProfileView {
        name: "balanced"@,
        description: "Everyday use: schedutil governor, turbo on"@,
        governor: "schedutil"@,
        max_freq: None,
        turbo: Some(true),
    }
}

/// The profile for the highest speed.
pub open spec fn performance() -> ProfileView {
    ProfileView {
        name: "performance"@,
        description: "Highest speed: performance governor, turbo on"@,
        governor: "performance"@,
        max_freq: None,
        turbo: Some(true),
    }
}

/// The profiles that every manager starts with, in their order.
pub open spec fn built_in() -> Seq<ProfileView> {
    seq![power_saver(), balanced(), performance()]
}

/// The writes that a profile has decided on, in the order in which the
/// caller is to perform them: first those of the cores, then that of the
/// turbo switch.
#[derive(Debug, PartialEq, Eq)]
pub struct ProfilePlan {
    pub cores: CorePlan,
    pub turbo: Option<Result<WriteRequest, Error>>,
}

/// The mathematical view of a [`ProfilePlan`].
pub struct ProfilePlanView {
    pub cores: Seq<CoreWriteView>,
    pub turbo: Option<Result<WriteView, ErrorView>>,
}

impl View for ProfilePlan {
    type V = ProfilePlanView;

    open spec fn view(&self) -> ProfilePlanView {
        ProfilePlanView {
            cores: self.cores@,
            turbo: match self.turbo {
                Some(request) => Some(decision(request)),
                None => None,
            },
        }
    }
}

/// The write that resets the lower bound of core `core` to the hardware
/// minimum of that core.
pub open spec fn reset_write(
    cpu: &CpuManager,
    core: usize,
    hw_min: Option<Seq<char>>,
    hw_max: Option<Seq<char>>,
) -> Result<WriteView, ErrorView> {
    match cpu.hardware_min(core, hw_min) {
        Err(e) => Err(e),
        Ok(min) => cpu.bound_write(core, "scaling_min_freq"@, min, hw_min, hw_max),
    }
}

/// What is decided for each core when the lower bounds are reset.
pub open spec fn reset_step(cpu: &CpuManager, readings: Seq<CoreReading>) -> Seq<CoreWriteView> {
    Seq::new(
        cpu.count(),
        |c: int|
            CoreWriteView {
                core: c as usize,
                step: Step::MinFreq,
                request: reset_write(
                    cpu,
                    c as usize,
                    hw_min_at(readings, c),
                    hw_max_at(readings, c),
                ),
            },
    )
}

/// What is decided for each core when the upper bounds are set to `freq`.
pub open spec fn cap_step(cpu: &CpuManager, freq: u32, readings: Seq<CoreReading>) -> Seq<
    CoreWriteView,
> {
    Seq::new(
        cpu.count(),
        |c: int|
            CoreWriteView {
                core: c as usize,
                step: Step::MaxFreq,
                request: cpu.bound_write(
                    c as usize,
                    "scaling_max_freq"@,
                    freq,
                    hw_min_at(readings, c),
                    hw_max_at(readings, c),
                ),
            },
    )
}

/// What applying `profile` decides on: the governor of every core; with
/// a cap, the reset of every lower bound and then the cap on every upper
/// bound; with a turbo setting, the turbo switch.
pub open spec fn profile_plan(
    profile: ProfileView,
    cpu: &CpuManager,
    readings: Seq<CoreReading>,
) -> ProfilePlanView {
    ProfilePlanView {
        cores: cpu.governor_plan(profile.governor, readings) + (match profile.max_freq {
            Some(freq) => reset_step(cpu, readings) + cap_step(cpu, freq, readings),
            None => Seq::empty(),
        }),
        turbo: match profile.turbo {
            Some(enabled) => Some(turbo_write(cpu.driver(), enabled)),
            None => None,
        },
    }
}

/// The failure of the turbo switch, if it was decided on and failed. Its
/// outcome stands behind those of the cores.
pub open spec fn turbo_failure(plan: ProfilePlanView, outcomes: Seq<bool>) -> Seq<
    (Step, Option<usize>, ErrorView),
> {
    match plan.turbo {
        Some(request) => match write_failure(
            request,
            was_written(outcomes, plan.cores.len() as int),
        ) {
            Some(e) => seq![(Step::Turbo, None::<usize>, e)],
            None => Seq::empty(),
        },
        None => Seq::empty(),
    }
}

/// Every failure of a profile, in the plan's order.
pub open spec fn profile_failures(plan: ProfilePlanView, outcomes: Seq<bool>) -> Seq<
    (Step, Option<usize>, ErrorView),
> {
    failed_steps(plan.cores, outcomes) + turbo_failure(plan, outcomes)
}

/// The result of applying a profile: success where nothing failed, else
/// every failure.
pub open spec fn profile_conclusion(plan: ProfilePlanView, outcomes: Seq<bool>) -> Result<
    (),
    ErrorView,
> {
    if profile_failures(plan, outcomes).len() == 0 {
        Ok(())
    } else {
        Err(ErrorView::ProfileFailure { steps: profile_failures(plan, outcomes) })
    }
}

impl ProfilePlan {
    /// The write to perform at index `i`: those of the cores come first,
    /// then that of the turbo switch. `None` where `i` is out of range or
    /// the write was rejected.
    pub fn request(&self, i: usize) -> (r: Option<&WriteRequest>)
        ensures
            match r {
                Some(w) => if i < self@.cores.len() {
                    self@.cores[i as int].request == Ok::<WriteView, ErrorView>(w@)
                } else {
                    i == self@.cores.len() && self@.turbo == Some(Ok::<WriteView, ErrorView>(w@))
                },
                None => if i < self@.cores.len() {
                    self@.cores[i as int].request is Err
                } else {
                    i > self@.cores.len() || !(self@.turbo matches Some(Ok(_)))
                },
            },
    {
        let n = self.cores.len();
        if i < n {
            self.cores.request(i)
        } else if i == n {
            match &self.turbo {
                Some(Ok(w)) => Some(w),
                _ => None,
            }
        } else {
            None
        }
    }

    /// The result of applying the profile, given for each decided write
    /// whether the caller managed to perform it (`outcomes[i]` for the
    /// write at index `i`; a missing entry counts as a failed write, an
    /// entry for a rejected write is ignored). Every failure is reported
    /// with its step and core, in the plan's order; what succeeded stays
    /// in effect.
    pub fn conclude(self, outcomes: &Vec<bool>) -> (r: Result<(), Error>)
        ensures
            outcome(r) == profile_conclusion(self@, outcomes@),
    {
        let ghost plan = self@;
        let mut failures: Vec<StepFailure> = Vec::new();
        let writes = self.cores.writes;
        let n: usize = writes.len();
        let mut i: usize = 0;
        assert(step_failures(failures@) =~= failed_steps(plan.cores.take(0), outcomes@));
        for item in it: writes
            invariant
                i == it.index(),
                n == plan.cores.len(),
                it.seq().len() == n,
                forall|k: int| 0 <= k < n ==> (#[trigger] it.seq()[k])@ == plan.cores[k],
                step_failures(failures@) == failed_steps(plan.cores.take(i as int), outcomes@),
        {
            let ghost before = failures@;
            let written = i < outcomes.len() && outcomes[i];
            proof {
                assert(item@ == plan.cores[i as int]);
                assert(plan.cores.take(i + 1).drop_last() =~= plan.cores.take(i as int));
                assert(plan.cores.take(i + 1).last() == plan.cores[i as int]);
            }
            match item.request {
                Ok(w) => {
                    if !written {
                        failures.push(
                            StepFailure {
                                step: item.step,
                                core: Some(item.core),
                                error: Error::Io { path: w.path },
                            },
                        );
                        proof {
                            assert(failures@.drop_last() =~= before);
                            assert(step_failures(failures@) == step_failures(before).push(
                                (
                                    failures@.last().step,
                                    failures@.last().core,
                                    failures@.last().error@,
                                ),
                            ));
                        }
                    }
                },
                Err(e) => {
                    failures.push(StepFailure { step: item.step, core: Some(item.core), error: e });
                    proof {
                        assert(failures@.drop_last() =~= before);
                        assert(step_failures(failures@) == step_failures(before).push(
                            (
                                failures@.last().step,
                                failures@.last().core,
                                failures@.last().error@,
                            ),
                        ));
                    }
                },
            }
            i = i + 1;
        }
        proof {
            assert(plan.cores.take(n as int) =~= plan.cores);
        }
        let ghost before = failures@;
        let written = n < outcomes.len() && outcomes[n];
        match self.turbo {
            Some(Ok(w)) => {
                if !written {
                    failures.push(
                        StepFailure { step: Step::Turbo, core: None, error: Error::Io { path: w.path } },
                    );
                    proof {
                        assert(failures@.drop_last() =~= before);
                        assert(step_failures(failures@) == step_failures(before).push(
                            (failures@.last().step, failures@.last().core, failures@.last().error@),
                        ));
                    }
                }
            },
            Some(Err(e)) => {
                failures.push(StepFailure { step: Step::Turbo, core: None, error: e });
                proof {
                    assert(failures@.drop_last() =~= before);
                    assert(step_failures(failures@) == step_failures(before).push(
                        (failures@.last().step, failures@.last().core, failures@.last().error@),
                    ));
                }
            },
            None => {},
        }
        proof {
            assert(step_failures(failures@) =~= profile_failures(plan, outcomes@));
            lemma_step_failures(failures@);
        }
        if failures.len() == 0 {
            Ok(())
        } else {
            Err(Error::ProfileFailure { steps: failures })
        }
    }
}

/// The registry of profiles: the built-in ones, and behind them those that
/// the caller supplied.
pub struct ProfileManager {
    profiles: Vec<Profile>,
}

impl ProfileManager {
    /// The profiles of the registry, in their order.
    pub closed spec fn profiles(&self) -> Seq<ProfileView> {
        profile_views(self.profiles@)
    }

    /// A registry with the built-in profiles.
    pub fn new() -> (r: ProfileManager)
        ensures
            r.profiles() == built_in(),
    {
        let mut profiles: Vec<Profile> = Vec::new();
        profiles.push(
            Profile {
                name: String::from_str("power-saver"),
                description: String::from_str("Lowest power draw: powersave governor, turbo off"),
                governor: String::from_str("powersave"),
                max_freq: None,
                turbo: Some(false),
            },
        );
        profiles.push(
            Profile {
                name: String::from_str("balanced"),
                description: String::from_str("Everyday use: schedutil governor, turbo on"),
                governor: String::from_str("schedutil"),
                max_freq: None,
                turbo: Some(true),
            },
        );
        profiles.push(
            Profile {
                name: String::from_str("performance"),
                description: String::from_str("Highest speed: performance governor, turbo on"),
                governor: String::from_str("performance"),
                max_freq: None,
                turbo: Some(true),
            },
        );
        assert(profile_views(profiles@) =~= built_in());
        ProfileManager { profiles }
    }

    /// The profiles of the registry, in their order.
    pub fn get_profiles(&self) -> (r: &Vec<Profile>)
        ensures
            profile_views(r@) == self.profiles(),
    {
        &self.profiles
    }

    /// Adds a profile that the caller supplies behind those that are
    /// there.
    pub fn add_profile(&mut self, profile: Profile)
        ensures
            final(self).profiles() == old(self).profiles().push(profile@),
    {
        proof {
            assert(profile_views(self.profiles@.push(profile)) =~= profile_views(
                self.profiles@,
            ).push(profile@));
        }
        self.profiles.push(profile);
    }

    /// The first profile of the registry with the name `name`.
    pub fn get_profile(&self, name: &str) -> (r: Option<&Profile>)
        ensures
            match r {
                Some(p) => exists|i: int|
                    {
                        &&& 0 <= i < self.profiles().len()
                        &&& #[trigger] self.profiles()[i] == p@
                        &&& p@.name == name@
                        &&& forall|k: int| 0 <= k < i ==> self.profiles()[k].name != name@
                    },
                None => forall|k: int|
                    0 <= k < self.profiles().len() ==> self.profiles()[k].name != name@,
            },
    {
        let wanted = String::from_str(name);
        let n: usize = self.profiles.len();
        let mut i: usize = 0;
        while i < n
            invariant
                i <= n,
                n == self.profiles.len(),
                wanted@ == name@,
                forall|k: int| 0 <= k < i ==> self.profiles()[k].name != name@,
            decreases n - i,
        {
            if self.profiles[i].name == wanted {
                assert(self.profiles()[i as int] == self.profiles[i as int]@);
                return Some(&self.profiles[i]);
            }
            i = i + 1;
        }
        None
    }

    /// What applying `profile` writes, in this order: the governor of
    /// every core; if the profile caps the frequency, the reset of every
    /// core's lower bound to that core's hardware minimum, then the cap on
    /// every core's upper bound; if the profile sets turbo, the turbo
    /// switch. A write that is rejected stops no other (`readings[c]` is
    /// what the caller found of core `c`).
    pub fn apply(&self, profile: &Profile, cpu: &CpuManager, readings: &Vec<CoreReading>) -> (plan:
        ProfilePlan)
        ensures
            plan@ == profile_plan(profile@, cpu, readings@),
    {
        let governors = cpu.set_governor_all(profile.governor.as_str(), readings);
        let mut writes = governors.writes;
        let count: usize = cpu.core_count();
        if let Some(freq) = profile.max_freq {
            let ghost first = writes_view(writes@);
            let mut core: usize = 0;
            assert(writes_view(writes@) =~= first + reset_step(cpu, readings@).take(0));
            while core < count
                invariant
                    core <= count,
                    count == cpu.count(),
                    writes_view(writes@) == first + reset_step(cpu, readings@).take(core as int),
                decreases count - core,
            {
                let hw_min = if core < readings.len() {
                    as_text(&readings[core].hw_min)
                } else {
                    None
                };
                let hw_max = if core < readings.len() {
                    as_text(&readings[core].hw_max)
                } else {
                    None
                };
                let request = match cpu.get_hardware_min_freq(core, hw_min) {
                    Err(e) => Err(e),
                    Ok(min) => cpu.set_scaling_min_freq(core, min, hw_min, hw_max),
                };
                let item = CoreWrite { core, step: Step::MinFreq, request };
                proof {
                    let step = reset_step(cpu, readings@);
                    assert(step[core as int] == item@);
                    assert(writes_view(writes@.push(item)) =~= writes_view(writes@).push(item@));
                    assert(step.take(core + 1) =~= step.take(core as int).push(step[core as int]));
                    assert(first + step.take(core + 1) =~= (first + step.take(core as int)).push(
                        item@,
                    ));
                }
                writes.push(item);
                core = core + 1;
            }
            let ghost second = writes_view(writes@);
            proof {
                assert(reset_step(cpu, readings@).take(count as int) =~= reset_step(
                    cpu,
                    readings@,
                ));
                assert(second =~= second + cap_step(cpu, freq, readings@).take(0));
            }
            core = 0;
            while core < count
                invariant
                    core <= count,
                    count == cpu.count(),
                    second == first + reset_step(cpu, readings@),
                    writes_view(writes@) == second + cap_step(cpu, freq, readings@).take(
                        core as int,
                    ),
                decreases count - core,
            {
                let hw_min = if core < readings.len() {
                    as_text(&readings[core].hw_min)
                } else {
                    None
                };
                let hw_max = if core < readings.len() {
                    as_text(&readings[core].hw_max)
                } else {
                    None
                };
                let request = cpu.set_scaling_max_freq(core, freq, hw_min, hw_max);
                let item = CoreWrite { core, step: Step::MaxFreq, request };
                proof {
                    let step = cap_step(cpu, freq, readings@);
                    assert(step[core as int] == item@);
                    assert(writes_view(writes@.push(item)) =~= writes_view(writes@).push(item@));
                    assert(step.take(core + 1) =~= step.take(core as int).push(step[core as int]));
                    assert(second + step.take(core + 1) =~= (second + step.take(core as int)).push(
                        item@,
                    ));
                }
                writes.push(item);
                core = core + 1;
            }
            proof {
                let cap = cap_step(cpu, freq, readings@);
                assert(cap.take(count as int) =~= cap);
                assert(first + reset_step(cpu, readings@) + cap =~= first + (reset_step(
                    cpu,
                    readings@,
                ) + cap));
            }
        } else {
            assert(writes_view(writes@) =~= writes_view(writes@) + Seq::<CoreWriteView>::empty());
        }
        let turbo = match profile.turbo {
            Some(enabled) => Some(cpu.set_turbo(enabled)),
            None => None,
        };
        ProfilePlan { cores: CorePlan { writes }, turbo }
    }
}

} // verus!

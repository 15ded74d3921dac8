use std::collections::{BTreeMap, BTreeSet};

use cpu_power_manager::cores::CoreEnumerator;
use cpu_power_manager::cpu::{CoreReading, CpuManager};
use cpu_power_manager::error::{Error, Step, StepFailure};
use cpu_power_manager::plan::WriteRequest;
use cpu_power_manager::profile::{Profile, ProfileManager, ProfilePlan};

const NO_TURBO: &str = "/sys/devices/system/cpu/intel_pstate/no_turbo";

struct Files {
    content: BTreeMap<String, String>,
    refusing: BTreeSet<String>,
    written: Vec<(String, String)>,
}

fn path(core: usize, file: &str) -> String {
    format!("/sys/devices/system/cpu/cpu{}/cpufreq/{}", core, file)
}

impl Files {
    fn machine(cores: usize) -> Files {
        let mut content = BTreeMap::new();
        for core in 0..cores {
            content.insert(path(core, "scaling_governor"), "powersave\n".to_string());
            content.insert(path(core, "scaling_available_governors"), "performance powersave\n".to_string());
            content.insert(path(core, "scaling_min_freq"), "1200000\n".to_string());
            content.insert(path(core, "scaling_max_freq"), "3600000\n".to_string());
            content.insert(path(core, "cpuinfo_min_freq"), format!("{}\n", 800_000 + 1000 * core));
            content.insert(path(core, "cpuinfo_max_freq"), "4600000\n".to_string());
        }
        content.insert(NO_TURBO.to_string(), "1\n".to_string());
        Files { content, refusing: BTreeSet::new(), written: Vec::new() }
    }

    fn read(&self, path: &str) -> Option<String> {
        self.content.get(path).cloned()
    }

    fn write(&mut self, request: &WriteRequest) -> bool {
        if self.refusing.contains(&request.path) || !self.content.contains_key(&request.path) {
            return false;
        }
        self.content.insert(request.path.clone(), format!("{}\n", request.content));
        self.written.push((request.path.clone(), request.content.clone()));
        true
    }

    fn manager(&self, cores: usize) -> CpuManager {
        let entries: Vec<String> = (0..cores).map(|core| format!("cpu{}", core)).collect();
        let table = CoreEnumerator::discover(Some(entries)).unwrap();
        CpuManager::new(table, Some("intel_pstate\n"), Some("800000\n"), Some("4600000\n")).unwrap()
    }

    fn readings(&self, cores: usize) -> Vec<CoreReading> {
        (0..cores)
            .map(|core| CoreReading {
                governor: self.read(&path(core, "scaling_governor")),
                available_governors: self.read(&path(core, "scaling_available_governors")),
                cur_freq: self.read(&path(core, "scaling_cur_freq")),
                hw_min: self.read(&path(core, "cpuinfo_min_freq")),
                hw_max: self.read(&path(core, "cpuinfo_max_freq")),
            })
            .collect()
    }

    fn perform(&mut self, plan: &ProfilePlan) -> Vec<bool> {
        let mut outcomes = Vec::new();
        for i in 0..=plan.cores.len() {
            outcomes.push(match plan.request(i) {
                Some(request) => self.write(request),
                None => false,
            });
        }
        outcomes
    }
}

fn fast() -> Profile {
    Profile {
        name: "fast".to_string(),
        description: "capped performance".to_string(),
        governor: "performance".to_string(),
        max_freq: Some(4200),
        turbo: Some(true),
    }
}

#[test]
fn registry_starts_with_the_built_in_profiles() {
    let registry = ProfileManager::new();
    let names: Vec<&str> = registry.get_profiles().iter().map(|p| p.name.as_str()).collect();
    assert_eq!(names, vec!["power-saver", "balanced", "performance"]);
    let saver = registry.get_profile("power-saver").unwrap();
    assert_eq!(saver.governor, "powersave");
    assert_eq!(saver.max_freq, None);
    assert_eq!(saver.turbo, Some(false));
    let balanced = registry.get_profile("balanced").unwrap();
    assert_eq!(balanced.governor, "schedutil");
    assert_eq!(balanced.turbo, Some(true));
    let performance = registry.get_profile("performance").unwrap();
    assert_eq!(performance.governor, "performance");
    assert_eq!(performance.turbo, Some(true));
    assert!(!performance.description.is_empty());
    assert_eq!(registry.get_profile("turbo"), None);
}

#[test]
fn supplied_profiles_come_behind_the_built_in_ones() {
    let mut registry = ProfileManager::new();
    registry.add_profile(fast());
    let mut shadow = fast();
    shadow.governor = "powersave".to_string();
    registry.add_profile(shadow);
    assert_eq!(registry.get_profiles().len(), 5);
    assert_eq!(registry.get_profiles()[3], fast());
    assert_eq!(registry.get_profile("fast"), Some(&fast()));
}

#[test]
fn a_full_profile_writes_governors_resets_caps_and_turbo_in_that_order() {
    let mut files = Files::machine(4);
    let manager = files.manager(4);
    let registry = ProfileManager::new();
    let plan = registry.apply(&fast(), &manager, &files.readings(4));
    assert_eq!(plan.cores.len(), 12);
    let steps: Vec<(Step, usize)> = plan.cores.writes.iter().map(|w| (w.step, w.core)).collect();
    let mut expected = Vec::new();
    for step in [Step::Governor, Step::MinFreq, Step::MaxFreq] {
        for core in 0..4 {
            expected.push((step, core));
        }
    }
    assert_eq!(steps, expected);
    let outcomes = files.perform(&plan);
    assert_eq!(outcomes.len(), 13);
    let mut written = Vec::new();
    for core in 0..4 {
        written.push((path(core, "scaling_governor"), "performance".to_string()));
    }
    for core in 0..4 {
        written.push((path(core, "scaling_min_freq"), format!("{}", 800_000 + 1000 * core)));
    }
    for core in 0..4 {
        written.push((path(core, "scaling_max_freq"), "4200000".to_string()));
    }
    written.push((NO_TURBO.to_string(), "0".to_string()));
    assert_eq!(files.written, written);
    assert_eq!(plan.conclude(&outcomes), Ok(()));
}

#[test]
fn a_failed_turbo_write_is_all_that_is_reported() {
    let mut files = Files::machine(4);
    files.refusing.insert(NO_TURBO.to_string());
    let manager = files.manager(4);
    let plan = ProfileManager::new().apply(&fast(), &manager, &files.readings(4));
    let outcomes = files.perform(&plan);
    assert_eq!(files.written.len(), 12);
    assert_eq!(
        plan.conclude(&outcomes),
        Err(Error::ProfileFailure {
            steps: vec![StepFailure { step: Step::Turbo, core: None, error: Error::Io { path: NO_TURBO.to_string() } }]
        })
    );
    for core in 0..4 {
        assert_eq!(files.read(&path(core, "scaling_governor")), Some("performance\n".to_string()));
        assert_eq!(files.read(&path(core, "scaling_min_freq")), Some(format!("{}\n", 800_000 + 1000 * core)));
        assert_eq!(files.read(&path(core, "scaling_max_freq")), Some("4200000\n".to_string()));
    }
    assert_eq!(files.read(NO_TURBO), Some("1\n".to_string()));
}

#[test]
fn a_profile_without_cap_or_turbo_only_sets_governors() {
    let mut files = Files::machine(2);
    let manager = files.manager(2);
    let quiet = Profile {
        name: "quiet".to_string(),
        description: String::new(),
        governor: "powersave".to_string(),
        max_freq: None,
        turbo: None,
    };
    let plan = ProfileManager::new().apply(&quiet, &manager, &files.readings(2));
    assert_eq!(plan.cores.len(), 2);
    assert_eq!(plan.turbo, None);
    assert_eq!(plan.request(2), None);
    let outcomes = files.perform(&plan);
    assert_eq!(
        files.written,
        vec![
            (path(0, "scaling_governor"), "powersave".to_string()),
            (path(1, "scaling_governor"), "powersave".to_string()),
        ]
    );
    assert_eq!(plan.conclude(&outcomes), Ok(()));
}

#[test]
fn every_step_is_attempted_and_every_failure_named() {
    let mut files = Files::machine(2);
    files.content.insert(path(0, "scaling_available_governors"), "powersave\n".to_string());
    files.content.remove(&path(1, "cpuinfo_min_freq"));
    files.content.insert(path(0, "cpuinfo_max_freq"), "4000000\n".to_string());
    files.refusing.insert(path(0, "scaling_min_freq"));
    let table = CoreEnumerator::discover(Some(vec!["cpu0".to_string(), "cpu1".to_string()])).unwrap();
    let manager = CpuManager::new(table, Some("zzz"), Some("800000"), Some("4600000")).unwrap();
    let plan = ProfileManager::new().apply(&fast(), &manager, &files.readings(2));
    let outcomes = files.perform(&plan);
    assert_eq!(files.written, vec![(path(1, "scaling_governor"), "performance".to_string())]);
    assert_eq!(
        plan.conclude(&outcomes),
        Err(Error::ProfileFailure {
            steps: vec![
                StepFailure {
                    step: Step::Governor,
                    core: Some(0),
                    error: Error::UnknownGovernor { name: "performance".to_string() }
                },
                StepFailure {
                    step: Step::MinFreq,
                    core: Some(0),
                    error: Error::Io { path: path(0, "scaling_min_freq") }
                },
                StepFailure {
                    step: Step::MinFreq,
                    core: Some(1),
                    error: Error::Io { path: path(1, "cpuinfo_min_freq") }
                },
                StepFailure {
                    step: Step::MaxFreq,
                    core: Some(0),
                    error: Error::OutOfRange { value: 4200, min: 800, max: 4000 }
                },
                StepFailure {
                    step: Step::MaxFreq,
                    core: Some(1),
                    error: Error::Io { path: path(1, "cpuinfo_min_freq") }
                },
                StepFailure { step: Step::Turbo, core: None, error: Error::UnsupportedDriverOperation },
            ]
        })
    );
}

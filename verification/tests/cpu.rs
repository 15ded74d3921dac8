use std::collections::{BTreeMap, BTreeSet};

use cpu_power_manager::cores::{parse_core_name, CoreEnumerator, CoreTable};
use cpu_power_manager::cpu::{CoreReading, CoreStatus, CpuManager};
use cpu_power_manager::driver::Driver;
use cpu_power_manager::error::{CoreFailure, Error, Step};
use cpu_power_manager::plan::{CorePlan, CoreWrite, WriteRequest};

/// Control files in memory: what each holds, and which of them refuse a write.
struct Files {
    content: BTreeMap<String, String>,
    refusing: BTreeSet<String>,
    written: Vec<(String, String)>,
}

impl Files {
    fn machine(cores: usize, driver: &str) -> Files {
        let mut files = Files { content: BTreeMap::new(), refusing: BTreeSet::new(), written: Vec::new() };
        for core in 0..cores {
            files.put(core, "scaling_governor", "powersave\n");
            files.put(core, "scaling_available_governors", "performance powersave\n");
            files.put(core, "scaling_cur_freq", &format!("{}\n", 1_800_000 + 100_000 * core));
            files.put(core, "scaling_min_freq", "800000\n");
            files.put(core, "scaling_max_freq", "3600000\n");
            files.put(core, "cpuinfo_min_freq", "800000\n");
            files.put(core, "cpuinfo_max_freq", "4600000\n");
            files.put(core, "scaling_driver", driver);
        }
        files
    }

    fn path(core: usize, file: &str) -> String {
        format!("/sys/devices/system/cpu/cpu{}/cpufreq/{}", core, file)
    }

    fn put(&mut self, core: usize, file: &str, content: &str) {
        self.content.insert(Files::path(core, file), content.to_string());
    }

    fn remove(&mut self, core: usize, file: &str) {
        self.content.remove(&Files::path(core, file));
    }

    fn refuse(&mut self, core: usize, file: &str) {
        self.refusing.insert(Files::path(core, file));
    }

    fn read(&self, path: &str) -> Option<String> {
        self.content.get(path).cloned()
    }

    fn write(&mut self, request: &WriteRequest) -> bool {
        if self.refusing.contains(&request.path) || !self.content.contains_key(&request.path) {
            return false;
        }
        self.content.insert(request.path.clone(), format!("{}\n", request.content));
        self.written.push((request.path.clone(), request.content.clone()));
        true
    }

    fn entries(&self, cores: usize) -> Option<Vec<String>> {
        let mut names: Vec<String> = vec!["cpufreq".to_string(), "cpuidle".to_string(), "online".to_string()];
        for core in (0..cores).rev() {
            names.push(format!("cpu{}", core));
        }
        Some(names)
    }

    fn reading(&self, table: &CoreTable, core: usize) -> CoreReading {
        let read = |file: &str| self.read(&table.file_path(core, file).unwrap());
        CoreReading {
            governor: read("scaling_governor"),
            available_governors: read("scaling_available_governors"),
            cur_freq: read("scaling_cur_freq"),
            hw_min: read("cpuinfo_min_freq"),
            hw_max: read("cpuinfo_max_freq"),
        }
    }

    fn readings(&self, manager: &CpuManager) -> Vec<CoreReading> {
        (0..manager.core_count()).map(|core| self.reading(manager.cores(), core)).collect()
    }

    fn perform(&mut self, plan: &CorePlan) -> Vec<bool> {
        let mut outcomes = Vec::new();
        for i in 0..plan.len() {
            outcomes.push(match plan.request(i) {
                Some(request) => self.write(request),
                None => false,
            });
        }
        outcomes
    }

    fn manager(&self, cores: usize) -> CpuManager {
        let table = CoreEnumerator::discover(self.entries(cores)).unwrap();
        let driver = self.read(&table.file_path(0, "scaling_driver").unwrap());
        let min = self.read(&table.file_path(0, "cpuinfo_min_freq").unwrap());
        let max = self.read(&table.file_path(0, "cpuinfo_max_freq").unwrap());
        CpuManager::new(table, driver.as_deref(), min.as_deref(), max.as_deref()).unwrap()
    }
}

fn io(core: usize, file: &str) -> Error {
    Error::Io { path: Files::path(core, file) }
}

#[test]
fn core_directories_are_told_from_other_entries() {
    assert_eq!(parse_core_name("cpu0"), Some(0));
    assert_eq!(parse_core_name("cpu17"), Some(17));
    assert_eq!(parse_core_name("cpu4294967295"), Some(4294967295));
    assert_eq!(parse_core_name("cpu4294967296"), None);
    assert_eq!(parse_core_name("cpu"), None);
    assert_eq!(parse_core_name("cpufreq"), None);
    assert_eq!(parse_core_name("cpuidle"), None);
    assert_eq!(parse_core_name("cpu01"), None);
    assert_eq!(parse_core_name("cpu+1"), None);
    assert_eq!(parse_core_name("cpu-1"), None);
    assert_eq!(parse_core_name("xcpu1"), None);
    assert_eq!(parse_core_name("cpu1 "), None);
}

#[test]
fn cores_are_counted_once_and_in_order() {
    let entries: Vec<String> =
        ["cpu10", "cpu2", "cpufreq", "cpu0", "cpu2", "cpu1", "online"].iter().map(|s| s.to_string()).collect();
    let table = CoreEnumerator::discover(Some(entries)).unwrap();
    assert_eq!(table.len(), 4);
    assert_eq!(table.file_path(0, "scaling_governor"), Ok(Files::path(0, "scaling_governor")));
    assert_eq!(table.file_path(2, "scaling_governor"), Ok(Files::path(2, "scaling_governor")));
    assert_eq!(table.file_path(3, "scaling_cur_freq"), Ok(Files::path(10, "scaling_cur_freq")));
    assert_eq!(table.file_path(4, "scaling_cur_freq"), Err(Error::InvalidCore { core: 4, count: 4 }));
}

#[test]
fn no_core_or_no_listing_is_an_init_error() {
    assert_eq!(CoreEnumerator::discover(None).err(), Some(Error::Init));
    assert_eq!(CoreEnumerator::discover(Some(Vec::new())).err(), Some(Error::Init));
    let others: Vec<String> = ["cpufreq", "cpuidle"].iter().map(|s| s.to_string()).collect();
    assert_eq!(CoreEnumerator::discover(Some(others)).err(), Some(Error::Init));
}

#[test]
fn construction_reads_driver_and_bounds_of_core_zero() {
    let files = Files::machine(4, "intel_pstate\n");
    let manager = files.manager(4);
    assert_eq!(manager.core_count(), 4);
    assert_eq!(manager.get_driver(), &Driver::IntelPstate);
    let info = manager.get_cpu_info(Some("model name\t: Test CPU\n")).unwrap();
    assert_eq!(info.model, "Test CPU");
    assert_eq!(info.core_count, 4);
    assert_eq!(info.driver, Driver::IntelPstate);
    assert_eq!(info.min_freq, 800);
    assert_eq!(info.max_freq, 4600);
}

#[test]
fn construction_fails_fast() {
    let table = || CoreEnumerator::discover(Some(vec!["cpu0".to_string()])).unwrap();
    assert_eq!(
        CpuManager::new(table(), Some("intel_pstate"), None, Some("4600000")).err(),
        Some(io(0, "cpuinfo_min_freq"))
    );
    assert_eq!(
        CpuManager::new(table(), Some("intel_pstate"), Some("800000"), None).err(),
        Some(io(0, "cpuinfo_max_freq"))
    );
    assert_eq!(
        CpuManager::new(table(), Some("intel_pstate"), Some("fast"), Some("4600000")).err(),
        Some(Error::Parse { path: Files::path(0, "cpuinfo_min_freq"), raw: "fast".to_string() })
    );
    assert_eq!(
        CpuManager::new(table(), Some("intel_pstate"), Some("4600000"), Some("800000")).err(),
        Some(Error::Init)
    );
    assert!(CpuManager::new(table(), None, Some("800000"), Some("800000")).is_ok());
}

#[test]
fn unreadable_driver_degrades_to_unknown() {
    let table = CoreEnumerator::discover(Some(vec!["cpu0".to_string()])).unwrap();
    let manager = CpuManager::new(table, None, Some("800000"), Some("4600000")).unwrap();
    assert_eq!(manager.get_driver(), &Driver::Unknown(String::new()));
    assert_eq!(manager.set_turbo(true), Err(Error::UnsupportedDriverOperation));
    assert_eq!(manager.is_turbo_enabled(Some("1")), Err(Error::UnsupportedDriverOperation));
    assert_eq!(manager.get_governor(0, Some("powersave\n")), Ok("powersave".to_string()));
}

#[test]
fn model_lookup_failures() {
    let manager = Files::machine(1, "intel_pstate\n").manager(1);
    assert_eq!(manager.get_cpu_info(None), Err(Error::Io { path: "/proc/cpuinfo".to_string() }));
    assert_eq!(
        manager.get_cpu_info(Some("processor : 0\n")),
        Err(Error::Parse { path: "/proc/cpuinfo".to_string(), raw: "processor : 0\n".to_string() })
    );
}

#[test]
fn governor_queries() {
    let manager = Files::machine(2, "acpi-cpufreq\n").manager(2);
    assert_eq!(manager.get_governor(1, Some("schedutil\n")), Ok("schedutil".to_string()));
    assert_eq!(manager.get_governor(1, None), Err(io(1, "scaling_governor")));
    assert_eq!(manager.get_governor(2, Some("schedutil\n")), Err(Error::InvalidCore { core: 2, count: 2 }));
    assert_eq!(
        manager.get_available_governors(0, Some("conservative ondemand userspace powersave performance schedutil \n")),
        Ok(vec![
            "conservative".to_string(),
            "ondemand".to_string(),
            "userspace".to_string(),
            "powersave".to_string(),
            "performance".to_string(),
            "schedutil".to_string()
        ])
    );
    assert_eq!(manager.get_available_governors(0, None), Err(io(0, "scaling_available_governors")));
    assert_eq!(manager.get_available_governors(7, Some("x")), Err(Error::InvalidCore { core: 7, count: 2 }));
}

#[test]
fn frequencies_are_megahertz() {
    let manager = Files::machine(2, "acpi-cpufreq\n").manager(2);
    assert_eq!(manager.get_frequency(0, Some("3600000\n")), Ok(3600));
    assert_eq!(manager.get_frequency(0, Some("3600999\n")), Ok(3600));
    assert_eq!(manager.get_frequency(0, Some("999\n")), Ok(0));
    assert_eq!(manager.get_hardware_min_freq(1, Some("800000\n")), Ok(800));
    assert_eq!(manager.get_hardware_max_freq(1, Some("4600000\n")), Ok(4600));
    assert_eq!(manager.get_hardware_max_freq(1, None), Err(io(1, "cpuinfo_max_freq")));
    assert_eq!(manager.get_hardware_min_freq(1, None), Err(io(1, "cpuinfo_min_freq")));
    assert_eq!(
        manager.get_hardware_min_freq(1, Some("-800000\n")),
        Err(Error::Parse { path: Files::path(1, "cpuinfo_min_freq"), raw: "-800000\n".to_string() })
    );
    assert_eq!(manager.get_hardware_min_freq(2, Some("800000\n")), Err(Error::InvalidCore { core: 2, count: 2 }));
}

#[test]
fn hardware_minimum_is_not_above_the_maximum() {
    let files = Files::machine(4, "intel_pstate\n");
    let manager = files.manager(4);
    for core in 0..4 {
        let reading = files.reading(manager.cores(), core);
        let min = manager.get_hardware_min_freq(core, reading.hw_min.as_deref()).unwrap();
        let max = manager.get_hardware_max_freq(core, reading.hw_max.as_deref()).unwrap();
        assert!(min <= max);
    }
    assert_eq!(manager.get_hardware_min_freq(0, Some("1999999")), Ok(1999));
    assert_eq!(manager.get_hardware_max_freq(0, Some("2000000")), Ok(2000));
}

#[test]
fn frequency_snapshot_is_all_or_nothing() {
    let mut files = Files::machine(4, "intel_pstate\n");
    let manager = files.manager(4);
    assert_eq!(manager.get_all_frequencies(&files.readings(&manager)), Ok(vec![1800, 1900, 2000, 2100]));
    files.remove(2, "scaling_cur_freq");
    files.put(3, "scaling_cur_freq", "soon\n");
    assert_eq!(manager.get_all_frequencies(&files.readings(&manager)), Err(io(2, "scaling_cur_freq")));
    files.put(1, "scaling_cur_freq", "soon\n");
    assert_eq!(
        manager.get_all_frequencies(&files.readings(&manager)),
        Err(Error::Parse { path: Files::path(1, "scaling_cur_freq"), raw: "soon\n".to_string() })
    );
}

#[test]
fn a_core_without_a_reading_counts_as_unreadable() {
    let files = Files::machine(3, "intel_pstate\n");
    let manager = files.manager(3);
    let mut readings = files.readings(&manager);
    readings.truncate(2);
    assert_eq!(manager.get_all_frequencies(&readings), Err(io(2, "scaling_cur_freq")));
    assert_eq!(manager.get_all_core_status(&readings), Err(io(2, "scaling_cur_freq")));
    assert_eq!(manager.get_all_frequencies(&Vec::new()), Err(io(0, "scaling_cur_freq")));
}

#[test]
fn status_snapshot_lists_every_core() {
    let mut files = Files::machine(2, "intel_pstate\n");
    files.put(1, "scaling_governor", "performance\n");
    let manager = files.manager(2);
    assert_eq!(
        manager.get_all_core_status(&files.readings(&manager)),
        Ok(vec![
            CoreStatus { core_id: 0, current_freq: 1800, governor: "powersave".to_string() },
            CoreStatus { core_id: 1, current_freq: 1900, governor: "performance".to_string() },
        ])
    );
    files.remove(0, "scaling_governor");
    files.remove(1, "scaling_cur_freq");
    assert_eq!(manager.get_all_core_status(&files.readings(&manager)), Err(io(0, "scaling_governor")));
    assert_eq!(
        manager.get_core_status(1, &files.reading(manager.cores(), 1)),
        Err(io(1, "scaling_cur_freq"))
    );
}

#[test]
fn governor_must_be_offered() {
    let manager = Files::machine(2, "intel_pstate\n").manager(2);
    assert_eq!(
        manager.set_governor(1, "performance", Some("performance powersave\n")),
        Ok(WriteRequest { path: Files::path(1, "scaling_governor"), content: "performance".to_string() })
    );
    assert_eq!(
        manager.set_governor(1, "ondemand", Some("performance powersave\n")),
        Err(Error::UnknownGovernor { name: "ondemand".to_string() })
    );
    assert_eq!(
        manager.set_governor(1, "perform", Some("performance powersave\n")),
        Err(Error::UnknownGovernor { name: "perform".to_string() })
    );
    assert_eq!(
        manager.set_governor(1, "", Some("performance powersave\n")),
        Err(Error::UnknownGovernor { name: String::new() })
    );
    assert_eq!(manager.set_governor(1, "performance", None), Err(io(1, "scaling_available_governors")));
    assert_eq!(
        manager.set_governor(2, "performance", Some("performance")),
        Err(Error::InvalidCore { core: 2, count: 2 })
    );
}

#[test]
fn bounds_are_validated_not_clamped() {
    let manager = Files::machine(2, "intel_pstate\n").manager(2);
    let min = Some("800000\n");
    let max = Some("4600000\n");
    assert_eq!(
        manager.set_scaling_max_freq(0, 4200, min, max),
        Ok(WriteRequest { path: Files::path(0, "scaling_max_freq"), content: "4200000".to_string() })
    );
    assert_eq!(
        manager.set_scaling_min_freq(1, 800, min, max),
        Ok(WriteRequest { path: Files::path(1, "scaling_min_freq"), content: "800000".to_string() })
    );
    assert_eq!(
        manager.set_scaling_max_freq(0, 4600, min, max).map(|w| w.content),
        Ok("4600000".to_string())
    );
    assert_eq!(
        manager.set_scaling_max_freq(0, 4601, min, max),
        Err(Error::OutOfRange { value: 4601, min: 800, max: 4600 })
    );
    assert_eq!(
        manager.set_scaling_min_freq(0, 799, min, max),
        Err(Error::OutOfRange { value: 799, min: 800, max: 4600 })
    );
    assert_eq!(
        manager.set_scaling_max_freq(0, u32::MAX, min, max),
        Err(Error::OutOfRange { value: u32::MAX, min: 800, max: 4600 })
    );
    assert_eq!(manager.set_scaling_max_freq(0, 4200, None, max), Err(io(0, "cpuinfo_min_freq")));
    assert_eq!(manager.set_scaling_max_freq(0, 4200, min, None), Err(io(0, "cpuinfo_max_freq")));
    assert_eq!(
        manager.set_scaling_max_freq(5, 4200, min, max),
        Err(Error::InvalidCore { core: 5, count: 2 })
    );
}

#[test]
fn a_rejected_frequency_touches_no_file() {
    let mut files = Files::machine(1, "intel_pstate\n");
    let manager = files.manager(1);
    let reading = files.reading(manager.cores(), 0);
    let before = files.content.clone();
    let decided = manager.set_scaling_max_freq(0, 9000, reading.hw_min.as_deref(), reading.hw_max.as_deref());
    assert_eq!(decided, Err(Error::OutOfRange { value: 9000, min: 800, max: 4600 }));
    if let Ok(request) = &decided {
        files.write(request);
    }
    assert_eq!(files.content, before);
    assert!(files.written.is_empty());
}

#[test]
fn an_accepted_frequency_reads_back_within_the_bounds() {
    let mut files = Files::machine(1, "intel_pstate\n");
    let manager = files.manager(1);
    let reading = files.reading(manager.cores(), 0);
    for freq in [800u32, 801, 2400, 4599, 4600] {
        let request = manager
            .set_scaling_max_freq(0, freq, reading.hw_min.as_deref(), reading.hw_max.as_deref())
            .unwrap();
        assert!(files.write(&request));
        let stored = files.read(&request.path);
        assert_eq!(manager.get_frequency(0, stored.as_deref()).map_err(|_| ()), Ok(freq));
        let min = manager.get_hardware_min_freq(0, reading.hw_min.as_deref()).unwrap();
        let max = manager.get_hardware_max_freq(0, reading.hw_max.as_deref()).unwrap();
        assert!(min <= freq && freq <= max);
    }
}

#[test]
fn a_write_concludes_by_its_outcome() {
    let request = || WriteRequest { path: "/p".to_string(), content: "1".to_string() };
    assert_eq!(request().conclude(true), Ok(()));
    assert_eq!(request().conclude(false), Err(Error::Io { path: "/p".to_string() }));
}

#[test]
fn turbo_reads_back_true_under_each_known_driver() {
    for driver in ["intel_pstate\n", "acpi-cpufreq\n", "amd-pstate\n"] {
        let mut files = Files::machine(2, driver);
        files.content.insert("/sys/devices/system/cpu/intel_pstate/no_turbo".to_string(), "1\n".to_string());
        files.content.insert("/sys/devices/system/cpu/cpufreq/boost".to_string(), "0\n".to_string());
        let manager = files.manager(2);
        let path = manager.get_driver().turbo_path().unwrap();
        assert_eq!(manager.is_turbo_enabled(files.read(&path).as_deref()), Ok(false));
        let request = manager.set_turbo(true).unwrap();
        assert_eq!(request.path, path);
        assert!(files.write(&request));
        assert_eq!(manager.is_turbo_enabled(files.read(&path).as_deref()), Ok(true));
        let request = manager.set_turbo(false).unwrap();
        assert!(files.write(&request));
        assert_eq!(manager.is_turbo_enabled(files.read(&path).as_deref()), Ok(false));
    }
}

#[test]
fn governor_for_all_cores_succeeds_where_every_write_does() {
    let mut files = Files::machine(4, "intel_pstate\n");
    let manager = files.manager(4);
    let plan = manager.set_governor_all("performance", &files.readings(&manager));
    assert_eq!(plan.len(), 4);
    let outcomes = files.perform(&plan);
    assert_eq!(plan.conclude(&outcomes), Ok(()));
    for core in 0..4 {
        let stored = files.read(&Files::path(core, "scaling_governor"));
        assert_eq!(manager.get_governor(core, stored.as_deref()), Ok("performance".to_string()));
    }
}

#[test]
fn one_core_that_rejects_the_write_is_named_and_the_others_are_set() {
    for failing in 0..4 {
        let mut files = Files::machine(4, "intel_pstate\n");
        files.refuse(failing, "scaling_governor");
        let manager = files.manager(4);
        let plan = manager.set_governor_all("performance", &files.readings(&manager));
        let outcomes = files.perform(&plan);
        assert_eq!(outcomes.len(), 4);
        assert_eq!(
            plan.conclude(&outcomes),
            Err(Error::PartialFailure {
                failures: vec![CoreFailure { core: failing, error: io(failing, "scaling_governor") }]
            })
        );
        for core in 0..4 {
            let stored = files.read(&Files::path(core, "scaling_governor"));
            let expected = if core == failing { "powersave" } else { "performance" };
            assert_eq!(manager.get_governor(core, stored.as_deref()), Ok(expected.to_string()));
        }
    }
}

#[test]
fn every_core_is_attempted_whatever_fails() {
    let mut files = Files::machine(4, "intel_pstate\n");
    files.put(0, "scaling_available_governors", "powersave\n");
    files.remove(1, "scaling_available_governors");
    files.refuse(3, "scaling_governor");
    let manager = files.manager(4);
    let plan = manager.set_governor_all("performance", &files.readings(&manager));
    assert_eq!(
        plan.writes,
        vec![
            CoreWrite {
                core: 0,
                step: Step::Governor,
                request: Err(Error::UnknownGovernor { name: "performance".to_string() })
            },
            CoreWrite { core: 1, step: Step::Governor, request: Err(io(1, "scaling_available_governors")) },
            CoreWrite {
                core: 2,
                step: Step::Governor,
                request: Ok(WriteRequest {
                    path: Files::path(2, "scaling_governor"),
                    content: "performance".to_string()
                })
            },
            CoreWrite {
                core: 3,
                step: Step::Governor,
                request: Ok(WriteRequest {
                    path: Files::path(3, "scaling_governor"),
                    content: "performance".to_string()
                })
            },
        ]
    );
    let outcomes = files.perform(&plan);
    assert_eq!(outcomes, vec![false, false, true, false]);
    assert_eq!(files.written, vec![(Files::path(2, "scaling_governor"), "performance".to_string())]);
    assert_eq!(
        plan.conclude(&outcomes),
        Err(Error::PartialFailure {
            failures: vec![
                CoreFailure { core: 0, error: Error::UnknownGovernor { name: "performance".to_string() } },
                CoreFailure { core: 1, error: io(1, "scaling_available_governors") },
                CoreFailure { core: 3, error: io(3, "scaling_governor") },
            ]
        })
    );
}

#[test]
fn missing_outcomes_count_as_failed_writes() {
    let files = Files::machine(2, "intel_pstate\n");
    let manager = files.manager(2);
    let plan = manager.set_governor_all("performance", &files.readings(&manager));
    assert_eq!(
        plan.conclude(&vec![true]),
        Err(Error::PartialFailure { failures: vec![CoreFailure { core: 1, error: io(1, "scaling_governor") }] })
    );
}

#[test]
fn pinning_writes_the_lower_and_then_the_upper_bound_of_each_core() {
    let mut files = Files::machine(2, "acpi-cpufreq\n");
    let manager = files.manager(2);
    let plan = manager.set_frequency_all(2400, &files.readings(&manager));
    let outcomes = files.perform(&plan);
    assert_eq!(
        files.written,
        vec![
            (Files::path(0, "scaling_min_freq"), "2400000".to_string()),
            (Files::path(0, "scaling_max_freq"), "2400000".to_string()),
            (Files::path(1, "scaling_min_freq"), "2400000".to_string()),
            (Files::path(1, "scaling_max_freq"), "2400000".to_string()),
        ]
    );
    assert_eq!(plan.conclude(&outcomes), Ok(()));
}

#[test]
fn pinning_reports_each_core_that_is_out_of_range() {
    let mut files = Files::machine(3, "acpi-cpufreq\n");
    files.put(1, "cpuinfo_max_freq", "2000000\n");
    files.refuse(2, "scaling_max_freq");
    let manager = files.manager(3);
    let plan = manager.set_frequency_all(2400, &files.readings(&manager));
    assert_eq!(plan.len(), 5);
    let outcomes = files.perform(&plan);
    assert_eq!(
        files.written,
        vec![
            (Files::path(0, "scaling_min_freq"), "2400000".to_string()),
            (Files::path(0, "scaling_max_freq"), "2400000".to_string()),
            (Files::path(2, "scaling_min_freq"), "2400000".to_string()),
        ]
    );
    assert_eq!(
        plan.conclude(&outcomes),
        Err(Error::PartialFailure {
            failures: vec![
                CoreFailure { core: 1, error: Error::OutOfRange { value: 2400, min: 800, max: 2000 } },
                CoreFailure { core: 2, error: io(2, "scaling_max_freq") },
            ]
        })
    );
}

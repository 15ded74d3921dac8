use cpu_power_manager::error::Error;
use cpu_power_manager::thermal::{Probe, ThermalManager, TripReading, ZoneReading};

fn names(list: &[&str]) -> Option<Vec<String>> {
    Some(list.iter().map(|s| s.to_string()).collect())
}

fn zone(temp: Option<&str>, label: Option<&str>) -> ZoneReading {
    ZoneReading {
        temp: temp.map(|s| s.to_string()),
        type_label: label.map(|s| s.to_string()),
        trips: Vec::new(),
    }
}

#[test]
fn test_thermal_manager() {
    let manager = ThermalManager::new(names(&["cooling_device0", "thermal_zone0", "thermal_zone1"]));
    if manager.is_ok() {
        let manager = manager.unwrap();
        assert!(manager.get_zone_count() > 0);
    }
}

#[test]
fn unreadable_root_is_an_init_error() {
    assert_eq!(ThermalManager::new(None).err(), Some(Error::Init));
}

#[test]
fn cpu_temperature_prefers_the_package_sensor() {
    let manager = ThermalManager::new(names(&["thermal_zone0", "thermal_zone1"])).unwrap();
    let readings = vec![
        zone(Some("41000\n"), Some("iwlwifi_1\n")),
        zone(Some("55200\n"), Some("x86_pkg_temp\n")),
    ];
    assert_eq!(manager.get_cpu_temperature(&readings), Ok(55200));
    let swapped = vec![
        zone(Some("55200\n"), Some("x86_pkg_temp\n")),
        zone(Some("41000\n"), Some("iwlwifi_1\n")),
    ];
    assert_eq!(manager.get_cpu_temperature(&swapped), Ok(55200));
}

#[test]
fn trip_point_without_type_gets_the_placeholder() {
    let manager = ThermalManager::new(names(&["thermal_zone0"])).unwrap();
    let trips = vec![
        TripReading { temp: Probe::Content("95000\n".to_string()), trip_type: Some("critical\n".to_string()) },
        TripReading { temp: Probe::Content("85000\n".to_string()), trip_type: None },
        TripReading { temp: Probe::Content("75000\n".to_string()), trip_type: Some("passive\n".to_string()) },
        TripReading { temp: Probe::Missing, trip_type: None },
    ];
    let points = manager.get_trip_points(0, &trips).unwrap();
    assert_eq!(points.len(), 3);
    assert_eq!(points[1].id, 1);
    assert_eq!(points[1].trip_type, "unknown");
    assert_eq!(points[1].temp_millicelsius, 85000);
    assert_eq!(points[2].trip_type, "passive");
}

#[test]
fn zones_are_the_entries_that_start_with_the_zone_prefix() {
    let manager = ThermalManager::new(names(&[
        "thermal_zone2",
        "cooling_device0",
        "thermal_zone10",
        "thermal_zone0",
        "thermal",
        "xthermal_zone1",
        "thermal_zone1",
    ]))
    .unwrap();
    assert_eq!(manager.get_zone_count(), 4);
    assert_eq!(manager.zone_path(0, "temp"), Ok("/sys/class/thermal/thermal_zone0/temp".to_string()));
    assert_eq!(manager.zone_path(1, "temp"), Ok("/sys/class/thermal/thermal_zone1/temp".to_string()));
    assert_eq!(manager.zone_path(2, "type"), Ok("/sys/class/thermal/thermal_zone10/type".to_string()));
    assert_eq!(manager.zone_path(3, "type"), Ok("/sys/class/thermal/thermal_zone2/type".to_string()));
    assert_eq!(manager.zone_path(4, "type"), Err(Error::InvalidZone { zone: 4, count: 4 }));
    assert_eq!(
        manager.trip_path(2, 11, "_temp"),
        Ok("/sys/class/thermal/thermal_zone10/trip_point_11_temp".to_string())
    );
    assert_eq!(manager.trip_path(9, 0, "_type"), Err(Error::InvalidZone { zone: 9, count: 4 }));
}

#[test]
fn a_machine_without_zones_is_valid() {
    let manager = ThermalManager::new(names(&["cooling_device0"])).unwrap();
    assert_eq!(manager.get_zone_count(), 0);
    assert_eq!(manager.get_all_temperatures(&Vec::new()), Ok(Vec::new()));
    assert_eq!(manager.get_all_zones(&Vec::new()), Ok(Vec::new()));
    assert_eq!(manager.get_max_temperature(&Vec::new()), Err(Error::NoZones));
    assert_eq!(manager.get_cpu_temperature(&Vec::new()), Err(Error::NoZones));
    assert_eq!(manager.get_temperature(0, Some("1000")), Err(Error::InvalidZone { zone: 0, count: 0 }));
}

#[test]
fn temperature_is_read_in_millidegrees() {
    let manager = ThermalManager::new(names(&["thermal_zone0"])).unwrap();
    assert_eq!(manager.get_temperature(0, Some("55200\n")), Ok(55200));
    assert_eq!(manager.get_temperature(0, Some("-5000\n")), Ok(-5000));
    assert_eq!(manager.get_temperature(0, Some("  0  ")), Ok(0));
    assert_eq!(
        manager.get_temperature(0, None),
        Err(Error::Io { path: "/sys/class/thermal/thermal_zone0/temp".to_string() })
    );
    assert_eq!(
        manager.get_temperature(0, Some("55.2\n")),
        Err(Error::Parse { path: "/sys/class/thermal/thermal_zone0/temp".to_string(), raw: "55.2\n".to_string() })
    );
    assert_eq!(
        manager.get_temperature(0, Some("")),
        Err(Error::Parse { path: "/sys/class/thermal/thermal_zone0/temp".to_string(), raw: String::new() })
    );
    assert_eq!(manager.get_temperature(1, Some("55200\n")), Err(Error::InvalidZone { zone: 1, count: 1 }));
}

#[test]
fn zone_type_is_the_trimmed_label() {
    let manager = ThermalManager::new(names(&["thermal_zone0"])).unwrap();
    assert_eq!(manager.get_zone_type(0, Some("x86_pkg_temp\n")), Ok("x86_pkg_temp".to_string()));
    assert_eq!(
        manager.get_zone_type(0, None),
        Err(Error::Io { path: "/sys/class/thermal/thermal_zone0/type".to_string() })
    );
    assert_eq!(manager.get_zone_type(3, Some("acpitz")), Err(Error::InvalidZone { zone: 3, count: 1 }));
}

#[test]
fn discovery_of_trip_points_stops_at_the_first_missing_temperature() {
    let manager = ThermalManager::new(names(&["thermal_zone0"])).unwrap();
    let content = |t: &str| Probe::Content(t.to_string());
    let trips = vec![
        TripReading { temp: content("95000"), trip_type: Some("critical".to_string()) },
        TripReading { temp: Probe::Missing, trip_type: None },
        TripReading { temp: content("75000"), trip_type: Some("passive".to_string()) },
    ];
    let points = manager.get_trip_points(0, &trips).unwrap();
    assert_eq!(points.len(), 1);
    assert_eq!(points[0].id, 0);
    assert_eq!(points[0].temp_millicelsius, 95000);
    assert_eq!(points[0].trip_type, "critical");
    assert_eq!(manager.get_trip_points(0, &Vec::new()), Ok(Vec::new()));
    assert_eq!(manager.get_trip_points(1, &trips), Err(Error::InvalidZone { zone: 1, count: 1 }));
}

#[test]
fn the_caller_probes_until_a_temperature_file_is_missing() {
    let content = |t: &str| TripReading { temp: Probe::Content(t.to_string()), trip_type: None };
    let mut trips = Vec::new();
    assert!(ThermalManager::needs_next_trip(&trips));
    trips.push(content("95000"));
    assert!(ThermalManager::needs_next_trip(&trips));
    trips.push(content("85000"));
    assert!(ThermalManager::needs_next_trip(&trips));
    trips.push(TripReading { temp: Probe::Missing, trip_type: None });
    assert!(!ThermalManager::needs_next_trip(&trips));
    let unreadable = vec![content("1"), TripReading { temp: Probe::Unreadable, trip_type: None }];
    assert!(!ThermalManager::needs_next_trip(&unreadable));
}

#[test]
fn a_trip_temperature_that_cannot_be_read_or_understood_fails_the_zone() {
    let manager = ThermalManager::new(names(&["thermal_zone7"])).unwrap();
    let content = |t: &str| Probe::Content(t.to_string());
    let unreadable = vec![
        TripReading { temp: content("95000"), trip_type: None },
        TripReading { temp: Probe::Unreadable, trip_type: Some("passive".to_string()) },
    ];
    assert_eq!(
        manager.get_trip_points(0, &unreadable),
        Err(Error::Io { path: "/sys/class/thermal/thermal_zone7/trip_point_1_temp".to_string() })
    );
    let malformed = vec![
        TripReading { temp: content("hot"), trip_type: None },
        TripReading { temp: Probe::Unreadable, trip_type: None },
    ];
    assert_eq!(
        manager.get_trip_points(0, &malformed),
        Err(Error::Parse {
            path: "/sys/class/thermal/thermal_zone7/trip_point_0_temp".to_string(),
            raw: "hot".to_string()
        })
    );
}

#[test]
fn zone_info_gathers_temperature_label_and_trip_points() {
    let manager = ThermalManager::new(names(&["thermal_zone0", "thermal_zone1"])).unwrap();
    let reading = ZoneReading {
        temp: Some("47000\n".to_string()),
        type_label: Some("acpitz\n".to_string()),
        trips: vec![TripReading { temp: Probe::Content("105000\n".to_string()), trip_type: Some("critical\n".to_string()) }],
    };
    let info = manager.get_zone_info(1, &reading).unwrap();
    assert_eq!(info.id, 1);
    assert_eq!(info.type_label, "acpitz");
    assert_eq!(info.temp_millicelsius, 47000);
    assert_eq!(info.trip_points.len(), 1);
    assert_eq!(info.trip_points[0].trip_type, "critical");
    assert_eq!(info.trip_points[0].temp_millicelsius, 105000);
    let unlabelled = zone(Some("47000\n"), None);
    assert_eq!(
        manager.get_zone_info(1, &unlabelled),
        Err(Error::Io { path: "/sys/class/thermal/thermal_zone1/type".to_string() })
    );
    assert_eq!(
        manager.get_zone_info(1, &zone(None, None)),
        Err(Error::Io { path: "/sys/class/thermal/thermal_zone1/temp".to_string() })
    );
    assert_eq!(manager.get_zone_info(2, &reading), Err(Error::InvalidZone { zone: 2, count: 2 }));
}

#[test]
fn zone_snapshots_are_all_or_nothing() {
    let manager = ThermalManager::new(names(&["thermal_zone0", "thermal_zone1", "thermal_zone2"])).unwrap();
    let good = vec![
        zone(Some("41000\n"), Some("acpitz\n")),
        zone(Some("55200\n"), Some("x86_pkg_temp\n")),
        zone(Some("39000\n"), Some("iwlwifi_1\n")),
    ];
    assert_eq!(manager.get_all_temperatures(&good), Ok(vec![41000, 55200, 39000]));
    let zones = manager.get_all_zones(&good).unwrap();
    assert_eq!(zones.len(), 3);
    assert_eq!(zones[2].id, 2);
    assert_eq!(zones[2].type_label, "iwlwifi_1");
    assert_eq!(manager.get_max_temperature(&good), Ok(55200));
    let bad = vec![
        zone(Some("41000\n"), Some("acpitz\n")),
        zone(None, Some("x86_pkg_temp\n")),
        zone(Some("n/a"), None),
    ];
    let first = Error::Io { path: "/sys/class/thermal/thermal_zone1/temp".to_string() };
    assert_eq!(manager.get_all_temperatures(&bad), Err(Error::Io { path: "/sys/class/thermal/thermal_zone1/temp".to_string() }));
    assert_eq!(manager.get_all_zones(&bad), Err(Error::Io { path: "/sys/class/thermal/thermal_zone1/temp".to_string() }));
    assert_eq!(manager.get_max_temperature(&bad), Err(first));
    let short = vec![zone(Some("41000\n"), Some("acpitz\n"))];
    assert_eq!(
        manager.get_all_temperatures(&short),
        Err(Error::Io { path: "/sys/class/thermal/thermal_zone1/temp".to_string() })
    );
}

#[test]
fn maximum_is_the_greatest_temperature() {
    let manager = ThermalManager::new(names(&["thermal_zone0", "thermal_zone1", "thermal_zone2"])).unwrap();
    let readings = vec![zone(Some("-3000"), None), zone(Some("-1000"), None), zone(Some("-2000"), None)];
    assert_eq!(manager.get_max_temperature(&readings), Ok(-1000));
    let equal = vec![zone(Some("5"), None), zone(Some("5"), None), zone(Some("5"), None)];
    assert_eq!(manager.get_max_temperature(&equal), Ok(5));
}

#[test]
fn cpu_temperature_falls_back_to_the_maximum() {
    let manager = ThermalManager::new(names(&["thermal_zone0", "thermal_zone1"])).unwrap();
    let readings = vec![zone(Some("41000\n"), Some("acpitz\n")), zone(Some("39000\n"), Some("iwlwifi_1\n"))];
    assert_eq!(manager.get_cpu_temperature(&readings), Ok(41000));
    let unlabelled = vec![zone(Some("41000\n"), None), zone(Some("43000\n"), None)];
    assert_eq!(manager.get_cpu_temperature(&unlabelled), Ok(43000));
}

#[test]
fn cpu_labels_are_matched_in_any_case() {
    let manager = ThermalManager::new(names(&["thermal_zone0", "thermal_zone1"])).unwrap();
    for label in ["CPU-thermal\n", "Core 0\n", "X86_PKG_TEMP\n", "soc_cpu0\n", "coretemp"] {
        let readings = vec![zone(Some("99000\n"), Some("battery\n")), zone(Some("50000\n"), Some(label))];
        assert_eq!(manager.get_cpu_temperature(&readings), Ok(50000), "label {:?}", label);
    }
    assert!(cpu_power_manager::thermal::is_cpu_zone(Some("CPU\n")));
    assert!(!cpu_power_manager::thermal::is_cpu_zone(Some("gpu\n")));
    assert!(!cpu_power_manager::thermal::is_cpu_zone(None));
    assert!(cpu_power_manager::thermal::names_cpu_sensor("cpu"));
    assert!(!cpu_power_manager::thermal::names_cpu_sensor("CPU"));
}

#[test]
fn the_first_cpu_zone_decides_even_if_it_fails() {
    let manager = ThermalManager::new(names(&["thermal_zone0", "thermal_zone1", "thermal_zone2"])).unwrap();
    let readings = vec![
        zone(Some("99000\n"), Some("battery\n")),
        zone(None, Some("cpu\n")),
        zone(Some("50000\n"), Some("x86_pkg_temp\n")),
    ];
    assert_eq!(
        manager.get_cpu_temperature(&readings),
        Err(Error::Io { path: "/sys/class/thermal/thermal_zone1/temp".to_string() })
    );
}

#[test]
fn zones_with_the_same_name_are_all_kept_in_order() {
    let manager = ThermalManager::new(names(&[
        "thermal_zone2",
        "thermal_zone0",
        "thermal_zone10",
        "thermal_zone1",
        "thermal_zone0",
    ]))
    .unwrap();
    let listed: Vec<String> = (0..manager.get_zone_count()).map(|z| manager.zone_path(z, "temp").unwrap()).collect();
    let expected: Vec<String> = ["thermal_zone0", "thermal_zone0", "thermal_zone1", "thermal_zone10", "thermal_zone2"]
        .iter()
        .map(|name| format!("/sys/class/thermal/{}/temp", name))
        .collect();
    assert_eq!(listed, expected);
}

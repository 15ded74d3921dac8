use cpu_power_manager::driver::{Driver, DriverProbe};
use cpu_power_manager::error::Error;
use cpu_power_manager::plan::WriteRequest;

const NO_TURBO: &str = "/sys/devices/system/cpu/intel_pstate/no_turbo";
const BOOST: &str = "/sys/devices/system/cpu/cpufreq/boost";

fn known() -> Vec<Driver> {
    vec![Driver::IntelPstate, Driver::AcpiCpufreq, Driver::AmdPstate]
}

#[test]
fn known_identifiers_are_classified() {
    assert_eq!(DriverProbe::detect(Some("intel_pstate\n")), Driver::IntelPstate);
    assert_eq!(DriverProbe::detect(Some("acpi-cpufreq\n")), Driver::AcpiCpufreq);
    assert_eq!(DriverProbe::detect(Some("amd-pstate\n")), Driver::AmdPstate);
    assert_eq!(DriverProbe::detect(Some("amd-pstate-epp\n")), Driver::AmdPstate);
}

#[test]
fn other_identifiers_are_kept_as_unknown() {
    assert_eq!(DriverProbe::detect(Some("cppc_cpufreq\n")), Driver::Unknown("cppc_cpufreq".to_string()));
    assert_eq!(DriverProbe::detect(Some("")), Driver::Unknown(String::new()));
    assert_eq!(DriverProbe::detect(None), Driver::Unknown(String::new()));
}

#[test]
fn intel_writes_the_inverse_to_the_disable_control() {
    assert_eq!(
        Driver::IntelPstate.encode_turbo(true),
        Ok(WriteRequest { path: NO_TURBO.to_string(), content: "0".to_string() })
    );
    assert_eq!(
        Driver::IntelPstate.encode_turbo(false),
        Ok(WriteRequest { path: NO_TURBO.to_string(), content: "1".to_string() })
    );
}

#[test]
fn the_others_write_the_flag_to_the_boost_control() {
    for driver in [Driver::AcpiCpufreq, Driver::AmdPstate] {
        assert_eq!(
            driver.encode_turbo(true),
            Ok(WriteRequest { path: BOOST.to_string(), content: "1".to_string() })
        );
        assert_eq!(
            driver.encode_turbo(false),
            Ok(WriteRequest { path: BOOST.to_string(), content: "0".to_string() })
        );
    }
}

#[test]
fn unknown_driver_has_no_turbo_control() {
    let driver = Driver::Unknown("mystery".to_string());
    assert_eq!(driver.turbo_path(), None);
    assert_eq!(driver.encode_turbo(true), Err(Error::UnsupportedDriverOperation));
    assert_eq!(driver.encode_turbo(false), Err(Error::UnsupportedDriverOperation));
    assert_eq!(driver.decode_turbo(Some("1\n")), Err(Error::UnsupportedDriverOperation));
    assert_eq!(driver.decode_turbo(None), Err(Error::UnsupportedDriverOperation));
}

#[test]
fn turbo_reads_back_as_it_was_set() {
    for driver in known() {
        for enabled in [true, false] {
            let write = driver.encode_turbo(enabled).unwrap();
            assert_eq!(Some(write.path.clone()), driver.turbo_path());
            assert_eq!(driver.decode_turbo(Some(&write.content)), Ok(enabled));
            let line = format!("{}\n", write.content);
            assert_eq!(driver.decode_turbo(Some(&line)), Ok(enabled));
        }
    }
}

#[test]
fn intel_flag_is_read_upside_down() {
    assert_eq!(Driver::IntelPstate.decode_turbo(Some("0\n")), Ok(true));
    assert_eq!(Driver::IntelPstate.decode_turbo(Some("1\n")), Ok(false));
    assert_eq!(Driver::AcpiCpufreq.decode_turbo(Some("0\n")), Ok(false));
    assert_eq!(Driver::AmdPstate.decode_turbo(Some("1\n")), Ok(true));
}

#[test]
fn unreadable_or_malformed_turbo_control_is_an_error() {
    assert_eq!(Driver::IntelPstate.decode_turbo(None), Err(Error::Io { path: NO_TURBO.to_string() }));
    assert_eq!(Driver::AcpiCpufreq.decode_turbo(None), Err(Error::Io { path: BOOST.to_string() }));
    assert_eq!(
        Driver::AmdPstate.decode_turbo(Some("yes\n")),
        Err(Error::Parse { path: BOOST.to_string(), raw: "yes\n".to_string() })
    );
    assert_eq!(
        Driver::IntelPstate.decode_turbo(Some("2\n")),
        Err(Error::Parse { path: NO_TURBO.to_string(), raw: "2\n".to_string() })
    );
}

#[test]
fn a_copy_of_a_driver_equals_it() {
    for driver in [Driver::IntelPstate, Driver::Unknown("x".to_string())] {
        assert_eq!(driver.duplicate(), driver);
    }
}

//! Where the kernel keeps its control files.

use crate::text::{decimal, push_decimal};
use vstd::prelude::*;
use vstd::string::StringExecFns;

verus! {

/// The directory that holds one directory per logical core.
pub open spec fn cpu_root() -> Seq<char> {
    "/sys/devices/system/cpu"@
}

/// The file that identifies the processor model.
pub open spec fn model_source() -> Seq<char> {
    "/proc/cpuinfo"@
}

/// The control with which the intel_pstate driver switches turbo off.
pub open spec fn no_turbo_control() -> Seq<char> {
    "/sys/devices/system/cpu/intel_pstate/no_turbo"@
}

/// The control with which the other known drivers switch boost on.
pub open spec fn boost_control() -> Seq<char> {
    "/sys/devices/system/cpu/cpufreq/boost"@
}

/// The directory that holds one directory per thermal zone.
pub open spec fn thermal_root() -> Seq<char> {
    "/sys/class/thermal"@
}

/// The frequency-scaling file `file` of the core whose directory carries
/// the number `number`.
pub open spec fn core_file(number: nat, file: Seq<char>) -> Seq<char> {
    cpu_root() + "/cpu"@ + decimal(number) + "/cpufreq/"@ + file
}

/// The file `file` of the thermal zone whose directory is named `zone`.
pub open spec fn zone_file(zone: Seq<char>, file: Seq<char>) -> Seq<char> {
    thermal_root() + "/"@ + zone + "/"@ + file
}

/// The file of trip point `trip` of a thermal zone that ends in `suffix`.
pub open spec fn trip_file(zone: Seq<char>, trip: nat, suffix: Seq<char>) -> Seq<char> {
    zone_file(zone, "trip_point_"@ + decimal(trip) + suffix)
}

/// The path of the directory of the cores.
pub fn cpu_root_path() -> (r: String)
    ensures
        r@ == cpu_root(),
{
    String::from_str("/sys/devices/system/cpu")
}

/// The path of the processor identification.
pub fn model_source_path() -> (r: String)
    ensures
        r@ == model_source(),
{
    String::from_str("/proc/cpuinfo")
}

/// The path of the intel_pstate turbo switch.
pub fn no_turbo_path() -> (r: String)
    ensures
        r@ == no_turbo_control(),
{
    String::from_str("/sys/devices/system/cpu/intel_pstate/no_turbo")
}

/// The path of the shared boost switch.
pub fn boost_path() -> (r: String)
    ensures
        r@ == boost_control(),
{
    String::from_str("/sys/devices/system/cpu/cpufreq/boost")
}

/// The path of the directory of the thermal zones.
pub fn thermal_root_path() -> (r: String)
    ensures
        r@ == thermal_root(),
{
    String::from_str("/sys/class/thermal")
}

/// The path of a frequency-scaling file of a core.
pub fn core_file_path(number: u32, file: &str) -> (r: String)
    ensures
        r@ == core_file(number as nat, file@),
{
    let mut path = String::from_str("/sys/devices/system/cpu");
    path.append("/cpu");
    push_decimal(&mut path, number as u64);
    path.append("/cpufreq/");
    path.append(file);
    path
}

/// The path of a file of a thermal zone.
pub fn zone_file_path(zone: &str, file: &str) -> (r: String)
    ensures
        r@ == zone_file(zone@, file@),
{
    let mut path = String::from_str("/sys/class/thermal");
    path.append("/");
    path.append(zone);
    path.append("/");
    path.append(file);
    path
}

/// The path of a file of a trip point of a thermal zone.
pub fn trip_file_path(zone: &str, trip: usize, suffix: &str) -> (r: String)
    ensures
        r@ == trip_file(zone@, trip as nat, suffix@),
{
    let mut path = String::from_str("/sys/class/thermal");
    path.append("/");
    path.append(zone);
    path.append("/");
    path.append("trip_point_");
    push_decimal(&mut path, trip as u64);
    path.append(suffix);
    assert(path@ =~= trip_file(zone@, trip as nat, suffix@));
    path
}

} // verus!

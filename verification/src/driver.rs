//! Scaling drivers, and the one place that knows how each of them encodes
//! the turbo switch.

use crate::error::{outcome, Error, ErrorView};
use crate::paths::{boost_control, boost_path, no_turbo_control, no_turbo_path};
use crate::plan::{decision, WriteRequest, WriteView};
use crate::text::{
    contains_text, decimal, lemma_decimal_round_trip, lemma_decimal_trimmed, opt_text, parse_u32,
    trim, trimmed, u32_of,
};
use crate::words::text_contains;
use vstd::prelude::*;
use vstd::string::StringExecFns;

verus! {

/// The family of a scaling driver.
#[derive(Debug, PartialEq, Eq)]
pub enum Driver {
    IntelPstate,
    AcpiCpufreq,
    AmdPstate,
    /// A driver that is none of the above, with its identifier.
    Unknown(String),
}

/// The mathematical view of a [`Driver`].
pub enum DriverView {
    IntelPstate,
    AcpiCpufreq,
    AmdPstate,
    Unknown(Seq<char>),
}

impl View for Driver {
    type V = DriverView;

    open spec fn view(&self) -> DriverView {
        match self {
            Driver::IntelPstate => DriverView::IntelPstate,
            Driver::AcpiCpufreq => DriverView::AcpiCpufreq,
            Driver::AmdPstate => DriverView::AmdPstate,
            Driver::Unknown(id) => DriverView::Unknown(id@),
        }
    }
}

/// The family that a driver identifier names. The identifier is taken
/// without the white space around it; `intel_pstate` is looked for first,
/// then `amd-pstate`, then `acpi-cpufreq`.
pub open spec fn classify(raw: Seq<char>) -> DriverView {
    let id = trimmed(raw);
    if contains_text(id, "intel_pstate"@) {
        DriverView::IntelPstate
    } else if contains_text(id, "amd-pstate"@) {
        DriverView::AmdPstate
    } else if contains_text(id, "acpi-cpufreq"@) {
        DriverView::AcpiCpufreq
    } else {
        DriverView::Unknown(id)
    }
}

/// The family that the content of a core's `scaling_driver` file names. A
/// file that could not be read names the unknown driver without identifier.
pub open spec fn detected(raw: Option<Seq<char>>) -> DriverView {
    match raw {
        Some(text) => classify(text),
        None => DriverView::Unknown(Seq::empty()),
    }
}

/// The control file of the turbo switch, for the drivers that have one.
pub open spec fn turbo_control(driver: DriverView) -> Option<Seq<char>> {
    match driver {
        DriverView::IntelPstate => Some(no_turbo_control()),
        DriverView::AcpiCpufreq => Some(boost_control()),
        DriverView::AmdPstate => Some(boost_control()),
        DriverView::Unknown(_) => None,
    }
}

/// Whether the driver's turbo control holds the flag upside down: set
/// means that turbo is off.
pub open spec fn turbo_inverted(driver: DriverView) -> bool {
    driver is IntelPstate
}

/// The text of a flag.
pub open spec fn flag_text(set: bool) -> Seq<char> {
    if set {
        "1"@
    } else {
        "0"@
    }
}

/// The flag that the content of a control file holds: `0` or `1`, with
/// white space around it allowed.
pub open spec fn flag_of(raw: Seq<char>) -> Option<bool> {
    match u32_of(trimmed(raw)) {
        Some(v) => if v == 0 {
            Some(false)
        } else if v == 1 {
            Some(true)
        } else {
            None
        },
        None => None,
    }
}

/// The write that switches turbo on or off under `driver`.
pub open spec fn turbo_write(driver: DriverView, enabled: bool) -> Result<WriteView, ErrorView> {
    match turbo_control(driver) {
        Some(path) => Ok(
            WriteView { path, content: flag_text(enabled != turbo_inverted(driver)) },
        ),
        None => Err(ErrorView::UnsupportedDriverOperation),
    }
}

/// Whether turbo is on under `driver`, given what its control file holds
/// (`None`: the file could not be read).
pub open spec fn turbo_state(driver: DriverView, raw: Option<Seq<char>>) -> Result<
    bool,
    ErrorView,
> {
    match turbo_control(driver) {
        None => Err(ErrorView::UnsupportedDriverOperation),
        Some(path) => match raw {
            None => Err(ErrorView::Io { path }),
            Some(text) => match flag_of(text) {
                Some(set) => Ok(set != turbo_inverted(driver)),
                None => Err(ErrorView::Parse { path, raw: text }),
            },
        },
    }
}

/// The texts of the two flags mean those flags.
pub proof fn lemma_flag_round_trip(set: bool)
    ensures
        flag_of(flag_text(set)) == Some(set),
        flag_of(flag_text(set) + seq!['\n']) == Some(set),
{
    reveal_strlit("0");
    reveal_strlit("1");
    let n: nat = if set { 1 } else { 0 };
    assert(flag_text(set) =~= decimal(n));
    lemma_decimal_round_trip(n);
    lemma_decimal_trimmed(n);
}

/// Switching turbo and then asking for its state gives what was asked
/// for, under every driver whose encoding is known, whether the kernel
/// hands the flag back as written or with a line end behind it.
pub proof fn lemma_turbo_round_trip(driver: DriverView, enabled: bool)
    requires
        !(driver is Unknown),
    ensures
        turbo_write(driver, enabled) is Ok,
        turbo_control(driver) == Some(turbo_write(driver, enabled)->Ok_0.path),
        turbo_state(driver, Some(turbo_write(driver, enabled)->Ok_0.content)) == Ok::<
            bool,
            ErrorView,
        >(enabled),
        turbo_state(driver, Some(turbo_write(driver, enabled)->Ok_0.content + seq!['\n']))
            == Ok::<bool, ErrorView>(enabled),
{
    lemma_flag_round_trip(enabled != turbo_inverted(driver));
}

/// Probes the scaling driver of a core.
pub struct DriverProbe;

impl DriverProbe {
    /// The driver family that the content of a core's `scaling_driver`
    /// file names (`None`: the file could not be read). An identifier that
    /// is not recognised is kept; nothing fails.
    pub fn detect(raw: Option<&str>) -> (r: Driver)
        ensures
            r@ == detected(opt_text(raw)),
    {
        match raw {
            None => Driver::Unknown(String::new()),
            Some(text) => {
                let id = trim(text);
                if text_contains(id, "intel_pstate") {
                    Driver::IntelPstate
                } else if text_contains(id, "amd-pstate") {
                    Driver::AmdPstate
                } else if text_contains(id, "acpi-cpufreq") {
                    Driver::AcpiCpufreq
                } else {
                    Driver::Unknown(String::from_str(id))
                }
            },
        }
    }
}

impl Driver {
    /// A copy of this driver.
    pub fn duplicate(&self) -> (r: Driver)
        ensures
            r@ == self@,
    {
        match self {
            Driver::IntelPstate => Driver::IntelPstate,
            Driver::AcpiCpufreq => Driver::AcpiCpufreq,
            Driver::AmdPstate => Driver::AmdPstate,
            Driver::Unknown(id) => Driver::Unknown(id.clone()),
        }
    }

    /// The path of the control file of the turbo switch, if the driver has
    /// one that is known.
    pub fn turbo_path(&self) -> (r: Option<String>)
        ensures
            match r {
                Some(p) => turbo_control(self@) == Some(p@),
                None => turbo_control(self@) is None,
            },
    {
        match self {
            Driver::IntelPstate => Some(no_turbo_path()),
            Driver::AcpiCpufreq => Some(boost_path()),
            Driver::AmdPstate => Some(boost_path()),
            Driver::Unknown(_) => None,
        }
    }

    /// The write that switches turbo on (`enabled`) or off in this
    /// driver's encoding, or `UnsupportedDriverOperation`.
    pub fn encode_turbo(&self, enabled: bool) -> (r: Result<WriteRequest, Error>)
        ensures
            decision(r) == turbo_write(self@, enabled),
    {
        match self.turbo_path() {
            None => Err(Error::UnsupportedDriverOperation),
            Some(path) => {
                let inverted = match self {
                    Driver::IntelPstate => true,
                    _ => false,
                };
                let content = if enabled != inverted {
                    String::from_str("1")
                } else {
                    String::from_str("0")
                };
                Ok(WriteRequest { path, content })
            },
        }
    }

    /// Whether turbo is on, read from what the driver's control file holds
    /// (`None`: the file could not be read).
    pub fn decode_turbo(&self, raw: Option<&str>) -> (r: Result<bool, Error>)
        ensures
            outcome(r) == turbo_state(self@, opt_text(raw)),
    {
        match self.turbo_path() {
            None => Err(Error::UnsupportedDriverOperation),
            Some(path) => match raw {
                None => Err(Error::Io { path }),
                Some(text) => {
                    let inverted = match self {
                        Driver::IntelPstate => true,
                        _ => false,
                    };
                    match parse_u32(trim(text)) {
                        Some(v) => {
                            if v == 0 {
                                Ok(inverted)
                            } else if v == 1 {
                                Ok(!inverted)
                            } else {
                                Err(Error::Parse { path, raw: String::from_str(text) })
                            }
                        },
                        None => Err(Error::Parse { path, raw: String::from_str(text) }),
                    }
                },
            },
        }
    }
}

} // verus!

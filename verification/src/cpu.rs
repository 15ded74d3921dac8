//! Frequency, governor and turbo control of the cores, the same under every
//! known driver.
//!
//! Frequencies are whole megahertz on this side and whole kilohertz in the
//! kernel's files. A core is named by its index, from 0 up to the number of
//! cores. What a function needs of the files it is handed by the caller, as
//! the content read or `None` where the file could not be read; what it
//! wants written it returns.

use crate::cores::CoreTable;
use crate::driver::{detected, turbo_state, turbo_write, Driver, DriverProbe, DriverView};
use crate::error::{outcome, text_outcome, Error, ErrorView, Step};
use crate::model::{model_name, parse_model};
use crate::paths::{model_source, model_source_path};
use crate::plan::{decision, CorePlan, CoreWrite, CoreWriteView, WriteRequest, WriteView};
use crate::snapshot::{collect, lemma_collect_error, values_outcome};
use crate::text::{
    as_text, decimal, decimal_string, opt_string, opt_text, parse_u32, texts, trim, trimmed,
    u32_of, words,
};
use crate::words::split_words;
use vstd::prelude::*;
use vstd::string::StringExecFns;

verus! {

/// What the caller found of the control files of one core. A content is
/// `None` where the file could not be read.
#[derive(Debug, PartialEq, Eq)]
pub struct CoreReading {
    /// `scaling_governor`
    pub governor: Option<String>,
    /// `scaling_available_governors`
    pub available_governors: Option<String>,
    /// `scaling_cur_freq`
    pub cur_freq: Option<String>,
    /// `cpuinfo_min_freq`
    pub hw_min: Option<String>,
    /// `cpuinfo_max_freq`
    pub hw_max: Option<String>,
}

/// Facts about the processor.
#[derive(Debug, PartialEq, Eq)]
pub struct CpuInfo {
    pub model: String,
    pub core_count: usize,
    pub driver: Driver,
    pub min_freq: u32,
    pub max_freq: u32,
}

/// The mathematical view of a [`CpuInfo`].
pub struct CpuInfoView {
    pub model: Seq<char>,
    pub core_count: usize,
    pub driver: DriverView,
    pub min_freq: u32,
    pub max_freq: u32,
}

impl View for CpuInfo {
    type V = CpuInfoView;

    open spec fn view(&self) -> CpuInfoView {
        CpuInfoView {
            model: self.model@,
            core_count: self.core_count,
            driver: self.driver@,
            min_freq: self.min_freq,
            max_freq: self.max_freq,
        }
    }
}

/// The state of one core at the time of a snapshot.
#[derive(Debug, PartialEq, Eq)]
pub struct CoreStatus {
    pub core_id: usize,
    pub current_freq: u32,
    pub governor: String,
}

/// The mathematical view of a [`CoreStatus`].
pub struct CoreStatusView {
    pub core_id: usize,
    pub current_freq: u32,
    pub governor: Seq<char>,
}

impl View for CoreStatus {
    type V = CoreStatusView;

    open spec fn view(&self) -> CoreStatusView {
        CoreStatusView {
            core_id: self.core_id,
            current_freq: self.current_freq,
            governor: self.governor@,
        }
    }
}

/// The views of a list of core states.
pub open spec fn status_views(list: Seq<CoreStatus>) -> Seq<CoreStatusView> {
    list.map_values(|s: CoreStatus| s@)
}

/// The whole megahertz that the file at `path` reports in kilohertz.
pub open spec fn megahertz(path: Seq<char>, raw: Option<Seq<char>>) -> Result<u32, ErrorView> {
    match raw {
        None => Err(ErrorView::Io { path }),
        Some(text) => match u32_of(trimmed(text)) {
            Some(khz) => Ok(khz / 1000),
            None => Err(ErrorView::Parse { path, raw: text }),
        },
    }
}

/// The text that sets a bound to `mhz` megahertz: the kilohertz in decimal.
pub open spec fn kilohertz_text(mhz: u32) -> Seq<char> {
    decimal(mhz as nat * 1000)
}

/// The content of `scaling_governor` of core `core` among `readings`; a
/// core without a reading counts as unreadable.
pub open spec fn governor_at(readings: Seq<CoreReading>, core: int) -> Option<Seq<char>> {
    if 0 <= core < readings.len() {
        opt_string(readings[core].governor)
    } else {
        None
    }
}

/// The content of `scaling_available_governors` of core `core` among
/// `readings`.
pub open spec fn available_at(readings: Seq<CoreReading>, core: int) -> Option<Seq<char>> {
    if 0 <= core < readings.len() {
        opt_string(readings[core].available_governors)
    } else {
        None
    }
}

/// The content of `scaling_cur_freq` of core `core` among `readings`.
pub open spec fn cur_freq_at(readings: Seq<CoreReading>, core: int) -> Option<Seq<char>> {
    if 0 <= core < readings.len() {
        opt_string(readings[core].cur_freq)
    } else {
        None
    }
}

/// The content of `cpuinfo_min_freq` of core `core` among `readings`.
pub open spec fn hw_min_at(readings: Seq<CoreReading>, core: int) -> Option<Seq<char>> {
    if 0 <= core < readings.len() {
        opt_string(readings[core].hw_min)
    } else {
        None
    }
}

/// The content of `cpuinfo_max_freq` of core `core` among `readings`.
pub open spec fn hw_max_at(readings: Seq<CoreReading>, core: int) -> Option<Seq<char>> {
    if 0 <= core < readings.len() {
        opt_string(readings[core].hw_max)
    } else {
        None
    }
}

/// A list of texts, or an error, taken by its view.
pub open spec fn texts_outcome(r: Result<Vec<String>, Error>) -> Result<
    Seq<Seq<char>>,
    ErrorView,
> {
    match r {
        Ok(list) => Ok(texts(list@)),
        Err(e) => Err(e@),
    }
}

/// A list of core states, or an error, taken by its view.
pub open spec fn statuses_outcome(r: Result<Vec<CoreStatus>, Error>) -> Result<
    Seq<CoreStatusView>,
    ErrorView,
> {
    match r {
        Ok(list) => Ok(status_views(list@)),
        Err(e) => Err(e@),
    }
}

/// Facts about the processor, or an error, taken by its view.
pub open spec fn info_outcome(r: Result<CpuInfo, Error>) -> Result<CpuInfoView, ErrorView> {
    match r {
        Ok(info) => Ok(info@),
        Err(e) => Err(e@),
    }
}

/// Reads whole megahertz from the content of the file at `path`.
pub fn read_megahertz(path: String, raw: Option<&str>) -> (r: Result<u32, Error>)
    ensures
        outcome(r) == megahertz(path@, opt_text(raw)),
{
    match raw {
        None => Err(Error::Io { path }),
        Some(text) => match parse_u32(trim(text)) {
            Some(khz) => Ok(khz / 1000),
            None => Err(Error::Parse { path, raw: String::from_str(text) }),
        },
    }
}

/// Tells whether `name` is one of `list`.
pub fn offers(list: &Vec<String>, name: &str) -> (r: bool)
    ensures
        r == texts(list@).contains(name@),
{
    let wanted = String::from_str(name);
    let n: usize = list.len();
    let mut i: usize = 0;
    while i < n
        invariant
            i <= n,
            n == list.len(),
            wanted@ == name@,
            forall|k: int| 0 <= k < i ==> texts(list@)[k] != name@,
        decreases n - i,
    {
        if list[i] == wanted {
            assert(texts(list@)[i as int] == name@);
            return true;
        }
        i = i + 1;
    }
    false
}

/// The frequency scaling of the machine.
pub struct CpuManager {
    table: CoreTable,
    driver: Driver,
    min_freq: u32,
    max_freq: u32,
}

impl CpuManager {
    #[verifier::type_invariant]
    spec fn holds(&self) -> bool {
        self.wf()
    }

    /// The cores.
    pub closed spec fn table(&self) -> CoreTable {
        self.table
    }

    /// The driver found at construction.
    pub closed spec fn driver(&self) -> DriverView {
        self.driver@
    }

    /// The hardware minimum of core 0 found at construction, in megahertz.
    pub closed spec fn min_freq(&self) -> u32 {
        self.min_freq
    }

    /// The hardware maximum of core 0 found at construction, in megahertz.
    pub closed spec fn max_freq(&self) -> u32 {
        self.max_freq
    }

    /// There is a core, and the hardware minimum is not above the maximum.
    pub open spec fn wf(&self) -> bool {
        self.table().wf() && self.min_freq() <= self.max_freq()
    }

    /// The number of cores.
    pub open spec fn count(&self) -> nat {
        self.table().count()
    }

    /// The governor of core `core`, given the content of its
    /// `scaling_governor` file.
    pub open spec fn governor(&self, core: usize, raw: Option<Seq<char>>) -> Result<
        Seq<char>,
        ErrorView,
    > {
        match self.table().path(core, "scaling_governor"@) {
            Err(e) => Err(e),
            Ok(path) => match raw {
                None => Err(ErrorView::Io { path }),
                Some(text) => Ok(trimmed(text)),
            },
        }
    }

    /// The governors that core `core` offers, in the kernel's order, given
    /// the content of its `scaling_available_governors` file.
    pub open spec fn available_governors(&self, core: usize, raw: Option<Seq<char>>) -> Result<
        Seq<Seq<char>>,
        ErrorView,
    > {
        match self.table().path(core, "scaling_available_governors"@) {
            Err(e) => Err(e),
            Ok(path) => match raw {
                None => Err(ErrorView::Io { path }),
                Some(text) => Ok(words(text)),
            },
        }
    }

    /// The megahertz that the file `file` of core `core` reports.
    pub open spec fn reported(&self, core: usize, file: Seq<char>, raw: Option<Seq<char>>) -> Result<
        u32,
        ErrorView,
    > {
        match self.table().path(core, file) {
            Err(e) => Err(e),
            Ok(path) => megahertz(path, raw),
        }
    }

    /// The current frequency of core `core`.
    pub open spec fn frequency(&self, core: usize, raw: Option<Seq<char>>) -> Result<
        u32,
        ErrorView,
    > {
        self.reported(core, "scaling_cur_freq"@, raw)
    }

    /// The hardware minimum of core `core`.
    pub open spec fn hardware_min(&self, core: usize, raw: Option<Seq<char>>) -> Result<
        u32,
        ErrorView,
    > {
        self.reported(core, "cpuinfo_min_freq"@, raw)
    }

    /// The hardware maximum of core `core`.
    pub open spec fn hardware_max(&self, core: usize, raw: Option<Seq<char>>) -> Result<
        u32,
        ErrorView,
    > {
        self.reported(core, "cpuinfo_max_freq"@, raw)
    }

    /// The state of core `core`: its current frequency, then its governor;
    /// the first of these that fails decides.
    pub open spec fn status(
        &self,
        core: usize,
        cur_freq: Option<Seq<char>>,
        governor: Option<Seq<char>>,
    ) -> Result<CoreStatusView, ErrorView> {
        match self.frequency(core, cur_freq) {
            Err(e) => Err(e),
            Ok(freq) => match self.governor(core, governor) {
                Err(e) => Err(e),
                Ok(name) => Ok(CoreStatusView { core_id: core, current_freq: freq, governor: name }),
            },
        }
    }

    /// The current frequencies of all cores, or the error of the first
    /// core that fails.
    pub open spec fn frequencies(&self, readings: Seq<CoreReading>) -> Result<
        Seq<u32>,
        ErrorView,
    > {
        collect(
            Seq::new(self.count(), |c: int| self.frequency(c as usize, cur_freq_at(readings, c))),
        )
    }

    /// The states of all cores, or the error of the first core that fails.
    pub open spec fn statuses(&self, readings: Seq<CoreReading>) -> Result<
        Seq<CoreStatusView>,
        ErrorView,
    > {
        collect(
            Seq::new(
                self.count(),
                |c: int|
                    self.status(c as usize, cur_freq_at(readings, c), governor_at(readings, c)),
            ),
        )
    }

    /// Facts about the processor, given the content of the system
    /// identification.
    pub open spec fn info(&self, identification: Option<Seq<char>>) -> Result<
        CpuInfoView,
        ErrorView,
    > {
        match identification {
            None => Err(ErrorView::Io { path: model_source() }),
            Some(text) => match model_name(text) {
                None => Err(ErrorView::Parse { path: model_source(), raw: text }),
                Some(model) => Ok(
                    CpuInfoView {
                        model,
                        core_count: self.count() as usize,
                        driver: self.driver(),
                        min_freq: self.min_freq(),
                        max_freq: self.max_freq(),
                    },
                ),
            },
        }
    }

    /// The write that gives core `core` the governor `name`: the name must
    /// be among those that the core offers.
    pub open spec fn governor_write(
        &self,
        core: usize,
        name: Seq<char>,
        available: Option<Seq<char>>,
    ) -> Result<WriteView, ErrorView> {
        match self.available_governors(core, available) {
            Err(e) => Err(e),
            Ok(offered) => if offered.contains(name) {
                Ok(
                    WriteView {
                        path: self.table().path(core, "scaling_governor"@)->Ok_0,
                        content: name,
                    },
                )
            } else {
                Err(ErrorView::UnknownGovernor { name })
            },
        }
    }

    /// The write that sets the bound `file` of core `core` to `freq`
    /// megahertz: the frequency must lie within the hardware bounds of the
    /// core, which are read first, the minimum before the maximum.
    pub open spec fn bound_write(
        &self,
        core: usize,
        file: Seq<char>,
        freq: u32,
        hw_min: Option<Seq<char>>,
        hw_max: Option<Seq<char>>,
    ) -> Result<WriteView, ErrorView> {
        match self.hardware_min(core, hw_min) {
            Err(e) => Err(e),
            Ok(min) => match self.hardware_max(core, hw_max) {
                Err(e) => Err(e),
                Ok(max) => if min <= freq <= max {
                    Ok(
                        WriteView {
                            path: self.table().path(core, file)->Ok_0,
                            content: kilohertz_text(freq),
                        },
                    )
                } else {
                    Err(ErrorView::OutOfRange { value: freq, min, max })
                },
            },
        }
    }

    /// What is decided for each core when all get the governor `name`.
    pub open spec fn governor_plan(&self, name: Seq<char>, readings: Seq<CoreReading>) -> Seq<
        CoreWriteView,
    > {
        Seq::new(
            self.count(),
            |c: int|
                CoreWriteView {
                    core: c as usize,
                    step: Step::Governor,
                    request: self.governor_write(c as usize, name, available_at(readings, c)),
                },
        )
    }

    /// What is decided for one core when it is pinned to `freq`: the
    /// rejection, or the write of the lower bound and then that of the
    /// upper bound.
    pub open spec fn pin(
        &self,
        core: usize,
        freq: u32,
        hw_min: Option<Seq<char>>,
        hw_max: Option<Seq<char>>,
    ) -> Seq<CoreWriteView> {
        let lower = self.bound_write(core, "scaling_min_freq"@, freq, hw_min, hw_max);
        let upper = self.bound_write(core, "scaling_max_freq"@, freq, hw_min, hw_max);
        if lower is Ok {
            seq![
                CoreWriteView { core, step: Step::MinFreq, request: lower },
                CoreWriteView { core, step: Step::MaxFreq, request: upper },
            ]
        } else {
            seq![CoreWriteView { core, step: Step::MinFreq, request: lower }]
        }
    }

    /// What is decided for the first `cores` cores when all are pinned to
    /// `freq`.
    pub open spec fn frequency_plan(&self, freq: u32, readings: Seq<CoreReading>, cores: nat) -> Seq<
        CoreWriteView,
    >
        decreases cores,
    {
        if cores == 0 {
            Seq::empty()
        } else {
            let core = (cores - 1) as int;
            self.frequency_plan(freq, readings, (cores - 1) as nat) + self.pin(
                core as usize,
                freq,
                hw_min_at(readings, core),
                hw_max_at(readings, core),
            )
        }
    }

    /// A manager of the cores of `table`, from the contents of three files
    /// of core 0: `scaling_driver`, `cpuinfo_min_freq` and
    /// `cpuinfo_max_freq`. A driver that is unreadable or not known is
    /// kept as unknown. A bound that cannot be read or understood is an
    /// error, and so is a minimum above the maximum.
    pub fn new(
        table: CoreTable,
        driver: Option<&str>,
        hw_min: Option<&str>,
        hw_max: Option<&str>,
    ) -> (r: Result<CpuManager, Error>)
        ensures
            match r {
                Ok(manager) => {
                    &&& manager.wf()
                    &&& manager.table() == table
                    &&& manager.driver() == detected(opt_text(driver))
                    &&& Ok::<u32, ErrorView>(manager.min_freq()) == megahertz(
                        table.path(0, "cpuinfo_min_freq"@)->Ok_0,
                        opt_text(hw_min),
                    )
                    &&& Ok::<u32, ErrorView>(manager.max_freq()) == megahertz(
                        table.path(0, "cpuinfo_max_freq"@)->Ok_0,
                        opt_text(hw_max),
                    )
                },
                Err(e) => {
                    let min = megahertz(
                        table.path(0, "cpuinfo_min_freq"@)->Ok_0,
                        opt_text(hw_min),
                    );
                    let max = megahertz(
                        table.path(0, "cpuinfo_max_freq"@)->Ok_0,
                        opt_text(hw_max),
                    );
                    if min is Err {
                        min == Err::<u32, ErrorView>(e@)
                    } else if max is Err {
                        max == Err::<u32, ErrorView>(e@)
                    } else {
                        e@ == ErrorView::Init && min->Ok_0 > max->Ok_0
                    }
                },
            },
    {
        let count: usize = table.len();
        assert(count > 0);
        let min_path = match table.file_path(0, "cpuinfo_min_freq") {
            Ok(p) => p,
            Err(e) => {
                return Err(e);
            },
        };
        let min_freq = match read_megahertz(min_path, hw_min) {
            Ok(v) => v,
            Err(e) => {
                return Err(e);
            },
        };
        let max_path = match table.file_path(0, "cpuinfo_max_freq") {
            Ok(p) => p,
            Err(e) => {
                return Err(e);
            },
        };
        let max_freq = match read_megahertz(max_path, hw_max) {
            Ok(v) => v,
            Err(e) => {
                return Err(e);
            },
        };
        if min_freq > max_freq {
            return Err(Error::Init);
        }
        Ok(CpuManager { table, driver: DriverProbe::detect(driver), min_freq, max_freq })
    }

    /// The number of cores.
    pub fn core_count(&self) -> (n: usize)
        ensures
            n == self.count(),
            n > 0,
    {
        self.table.len()
    }

    /// The cores and their paths.
    pub fn cores(&self) -> (t: &CoreTable)
        ensures
            *t == self.table(),
    {
        &self.table
    }

    /// The driver found at construction.
    pub fn get_driver(&self) -> (d: &Driver)
        ensures
            d@ == self.driver(),
    {
        &self.driver
    }

    /// Facts about the processor: the model from the content of the system
    /// identification (`None`: it could not be read), the rest as found at
    /// construction.
    pub fn get_cpu_info(&self, identification: Option<&str>) -> (r: Result<CpuInfo, Error>)
        ensures
            info_outcome(r) == self.info(opt_text(identification)),
            r is Ok ==> r->Ok_0.min_freq <= r->Ok_0.max_freq && r->Ok_0.core_count > 0,
    {
        proof {
            use_type_invariant(self);
        }
        match identification {
            None => Err(Error::Io { path: model_source_path() }),
            Some(text) => match parse_model(text) {
                None => Err(Error::Parse { path: model_source_path(), raw: String::from_str(text) }),
                Some(model) => Ok(
                    CpuInfo {
                        model,
                        core_count: self.table.len(),
                        driver: self.driver.duplicate(),
                        min_freq: self.min_freq,
                        max_freq: self.max_freq,
                    },
                ),
            },
        }
    }

    /// The governor of core `core`, from the content of its
    /// `scaling_governor` file.
    pub fn get_governor(&self, core: usize, raw: Option<&str>) -> (r: Result<String, Error>)
        ensures
            text_outcome(r) == self.governor(core, opt_text(raw)),
    {
        let path = match self.table.file_path(core, "scaling_governor") {
            Ok(p) => p,
            Err(e) => {
                return Err(e);
            },
        };
        match raw {
            None => Err(Error::Io { path }),
            Some(text) => Ok(String::from_str(trim(text))),
        }
    }

    /// The governors that core `core` offers, in the kernel's order, from
    /// the content of its `scaling_available_governors` file.
    pub fn get_available_governors(&self, core: usize, raw: Option<&str>) -> (r: Result<
        Vec<String>,
        Error,
    >)
        ensures
            texts_outcome(r) == self.available_governors(core, opt_text(raw)),
    {
        let path = match self.table.file_path(core, "scaling_available_governors") {
            Ok(p) => p,
            Err(e) => {
                return Err(e);
            },
        };
        match raw {
            None => Err(Error::Io { path }),
            Some(text) => Ok(split_words(text)),
        }
    }

    fn get_reported(&self, core: usize, file: &str, raw: Option<&str>) -> (r: Result<u32, Error>)
        ensures
            outcome(r) == self.reported(core, file@, opt_text(raw)),
    {
        match self.table.file_path(core, file) {
            Ok(path) => read_megahertz(path, raw),
            Err(e) => Err(e),
        }
    }

    /// The current frequency of core `core` in megahertz, from the content
    /// of its `scaling_cur_freq` file.
    pub fn get_frequency(&self, core: usize, raw: Option<&str>) -> (r: Result<u32, Error>)
        ensures
            outcome(r) == self.frequency(core, opt_text(raw)),
    {
        self.get_reported(core, "scaling_cur_freq", raw)
    }

    /// The hardware minimum of core `core` in megahertz, from the content
    /// of its `cpuinfo_min_freq` file.
    pub fn get_hardware_min_freq(&self, core: usize, raw: Option<&str>) -> (r: Result<u32, Error>)
        ensures
            outcome(r) == self.hardware_min(core, opt_text(raw)),
    {
        self.get_reported(core, "cpuinfo_min_freq", raw)
    }

    /// The hardware maximum of core `core` in megahertz, from the content
    /// of its `cpuinfo_max_freq` file.
    pub fn get_hardware_max_freq(&self, core: usize, raw: Option<&str>) -> (r: Result<u32, Error>)
        ensures
            outcome(r) == self.hardware_max(core, opt_text(raw)),
    {
        self.get_reported(core, "cpuinfo_max_freq", raw)
    }

    /// The current frequencies of all cores in the order of their indices
    /// (`readings[c]` for core `c`; a core without a reading counts as
    /// unreadable). One core that fails, and the whole snapshot fails with
    /// the error of the first such core.
    pub fn get_all_frequencies(&self, readings: &Vec<CoreReading>) -> (r: Result<Vec<u32>, Error>)
        ensures
            values_outcome(r) == self.frequencies(readings@),
    {
        let count: usize = self.table.len();
        let ghost results = Seq::new(
            self.count(),
            |c: int| self.frequency(c as usize, cur_freq_at(readings@, c)),
        );
        let mut freqs: Vec<u32> = Vec::new();
        let mut core: usize = 0;
        proof {
            assert(results.take(0) =~= Seq::<Result<u32, ErrorView>>::empty());
        }
        while core < count
            invariant
                core <= count,
                count == self.count(),
                results == Seq::new(
                    self.count(),
                    |c: int| self.frequency(c as usize, cur_freq_at(readings@, c)),
                ),
                collect(results.take(core as int)) == Ok::<Seq<u32>, ErrorView>(freqs@),
            decreases count - core,
        {
            let raw = if core < readings.len() {
                as_text(&readings[core].cur_freq)
            } else {
                None
            };
            proof {
                assert(results.take(core + 1).drop_last() =~= results.take(core as int));
                assert(results.take(core + 1).last() == results[core as int]);
            }
            match self.get_frequency(core, raw) {
                Ok(f) => {
                    freqs.push(f);
                },
                Err(e) => {
                    proof {
                        lemma_collect_error(results, core as int);
                    }
                    return Err(e);
                },
            }
            core = core + 1;
        }
        proof {
            assert(results.take(count as int) =~= results);
        }
        Ok(freqs)
    }

    /// The state of core `core`, from what the caller found of it.
    pub fn get_core_status(&self, core: usize, reading: &CoreReading) -> (r: Result<
        CoreStatus,
        Error,
    >)
        ensures
            match r {
                Ok(s) => self.status(
                    core,
                    opt_string(reading.cur_freq),
                    opt_string(reading.governor),
                ) == Ok::<CoreStatusView, ErrorView>(s@),
                Err(e) => self.status(
                    core,
                    opt_string(reading.cur_freq),
                    opt_string(reading.governor),
                ) == Err::<CoreStatusView, ErrorView>(e@),
            },
    {
        let current_freq = match self.get_frequency(core, as_text(&reading.cur_freq)) {
            Ok(f) => f,
            Err(e) => {
                return Err(e);
            },
        };
        let governor = match self.get_governor(core, as_text(&reading.governor)) {
            Ok(g) => g,
            Err(e) => {
                return Err(e);
            },
        };
        Ok(CoreStatus { core_id: core, current_freq, governor })
    }

    /// The states of all cores in the order of their indices, each read
    /// anew (`readings[c]` for core `c`; a core without a reading counts
    /// as unreadable). One core that fails, and the whole snapshot fails
    /// with the error of the first such core.
    pub fn get_all_core_status(&self, readings: &Vec<CoreReading>) -> (r: Result<
        Vec<CoreStatus>,
        Error,
    >)
        ensures
            statuses_outcome(r) == self.statuses(readings@),
    {
        let count: usize = self.table.len();
        let ghost results = Seq::new(
            self.count(),
            |c: int| self.status(c as usize, cur_freq_at(readings@, c), governor_at(readings@, c)),
        );
        let unread = unread_core();
        let mut list: Vec<CoreStatus> = Vec::new();
        let mut core: usize = 0;
        proof {
            assert(results.take(0) =~= Seq::<Result<CoreStatusView, ErrorView>>::empty());
            assert(status_views(list@) =~= Seq::<CoreStatusView>::empty());
        }
        while core < count
            invariant
                core <= count,
                count == self.count(),
                is_unread(unread),
                results == Seq::new(
                    self.count(),
                    |c: int|
                        self.status(
                            c as usize,
                            cur_freq_at(readings@, c),
                            governor_at(readings@, c),
                        ),
                ),
                collect(results.take(core as int)) == Ok::<Seq<CoreStatusView>, ErrorView>(
                    status_views(list@),
                ),
            decreases count - core,
        {
            let reading = if core < readings.len() {
                &readings[core]
            } else {
                &unread
            };
            proof {
                assert(results.take(core + 1).drop_last() =~= results.take(core as int));
                assert(results.take(core + 1).last() == results[core as int]);
            }
            match self.get_core_status(core, reading) {
                Ok(status) => {
                    proof {
                        assert(status_views(list@.push(status)) =~= status_views(list@).push(
                            status@,
                        ));
                    }
                    list.push(status);
                },
                Err(e) => {
                    proof {
                        lemma_collect_error(results, core as int);
                    }
                    return Err(e);
                },
            }
            core = core + 1;
        }
        proof {
            assert(results.take(count as int) =~= results);
        }
        Ok(list)
    }

    /// Whether turbo is on, from the content of the driver's turbo control
    /// (see [`Driver::turbo_path`]): one answer under every known driver,
    /// `UnsupportedDriverOperation` under an unknown one.
    pub fn is_turbo_enabled(&self, raw: Option<&str>) -> (r: Result<bool, Error>)
        ensures
            outcome(r) == turbo_state(self.driver(), opt_text(raw)),
    {
        self.driver.decode_turbo(raw)
    }

    /// The write that switches turbo on (`enabled`) or off in the
    /// driver's encoding; `UnsupportedDriverOperation` under an unknown
    /// driver.
    pub fn set_turbo(&self, enabled: bool) -> (r: Result<WriteRequest, Error>)
        ensures
            decision(r) == turbo_write(self.driver(), enabled),
    {
        self.driver.encode_turbo(enabled)
    }

    /// The write that gives core `core` the governor `name`, or the reason
    /// why nothing is to be written: `available` is the content of the
    /// core's `scaling_available_governors` file, and `name` must be one
    /// of the governors it lists.
    pub fn set_governor(&self, core: usize, name: &str, available: Option<&str>) -> (r: Result<
        WriteRequest,
        Error,
    >)
        ensures
            decision(r) == self.governor_write(core, name@, opt_text(available)),
    {
        let offered = match self.get_available_governors(core, available) {
            Ok(list) => list,
            Err(e) => {
                return Err(e);
            },
        };
        if !offers(&offered, name) {
            return Err(Error::UnknownGovernor { name: String::from_str(name) });
        }
        match self.table.file_path(core, "scaling_governor") {
            Ok(path) => Ok(WriteRequest { path, content: String::from_str(name) }),
            Err(e) => Err(e),
        }
    }

    fn set_bound(
        &self,
        core: usize,
        file: &str,
        freq: u32,
        hw_min: Option<&str>,
        hw_max: Option<&str>,
    ) -> (r: Result<WriteRequest, Error>)
        ensures
            decision(r) == self.bound_write(core, file@, freq, opt_text(hw_min), opt_text(hw_max)),
    {
        let min = match self.get_hardware_min_freq(core, hw_min) {
            Ok(v) => v,
            Err(e) => {
                return Err(e);
            },
        };
        let max = match self.get_hardware_max_freq(core, hw_max) {
            Ok(v) => v,
            Err(e) => {
                return Err(e);
            },
        };
        if freq < min || freq > max {
            return Err(Error::OutOfRange { value: freq, min, max });
        }
        match self.table.file_path(core, file) {
            Ok(path) => {
                let khz: u64 = freq as u64 * 1000;
                Ok(WriteRequest { path, content: decimal_string(khz) })
            },
            Err(e) => Err(e),
        }
    }

    /// The write that sets the lower scaling bound of core `core` to
    /// `freq` megahertz, or the reason why nothing is to be written:
    /// `hw_min` and `hw_max` are the contents of the core's
    /// `cpuinfo_min_freq` and `cpuinfo_max_freq` files, and `freq` must lie
    /// within them. A frequency outside is rejected, never brought into
    /// range.
    pub fn set_scaling_min_freq(
        &self,
        core: usize,
        freq: u32,
        hw_min: Option<&str>,
        hw_max: Option<&str>,
    ) -> (r: Result<WriteRequest, Error>)
        ensures
            decision(r) == self.bound_write(
                core,
                "scaling_min_freq"@,
                freq,
                opt_text(hw_min),
                opt_text(hw_max),
            ),
    {
        self.set_bound(core, "scaling_min_freq", freq, hw_min, hw_max)
    }

    /// The write that sets the upper scaling bound of core `core` to
    /// `freq` megahertz, or the reason why nothing is to be written:
    /// `hw_min` and `hw_max` are the contents of the core's
    /// `cpuinfo_min_freq` and `cpuinfo_max_freq` files, and `freq` must lie
    /// within them. A frequency outside is rejected, never brought into
    /// range.
    pub fn set_scaling_max_freq(
        &self,
        core: usize,
        freq: u32,
        hw_min: Option<&str>,
        hw_max: Option<&str>,
    ) -> (r: Result<WriteRequest, Error>)
        ensures
            decision(r) == self.bound_write(
                core,
                "scaling_max_freq"@,
                freq,
                opt_text(hw_min),
                opt_text(hw_max),
            ),
    {
        self.set_bound(core, "scaling_max_freq", freq, hw_min, hw_max)
    }

    /// What is to be written to give every core the governor `name`: for
    /// each core, in the order of the indices, the write or the reason why
    /// the core is left alone (`readings[c]` for core `c`). No core is
    /// skipped because another was rejected.
    pub fn set_governor_all(&self, name: &str, readings: &Vec<CoreReading>) -> (plan: CorePlan)
        ensures
            plan@ == self.governor_plan(name@, readings@),
    {
        let count: usize = self.table.len();
        let mut writes: Vec<CoreWrite> = Vec::new();
        let mut core: usize = 0;
        while core < count
            invariant
                core <= count,
                count == self.count(),
                crate::plan::writes_view(writes@) == self.governor_plan(name@, readings@).take(
                    core as int,
                ),
            decreases count - core,
        {
            let available = if core < readings.len() {
                as_text(&readings[core].available_governors)
            } else {
                None
            };
            let request = self.set_governor(core, name, available);
            let item = CoreWrite { core, step: Step::Governor, request };
            proof {
                let plan = self.governor_plan(name@, readings@);
                assert(plan[core as int] == item@);
                assert(crate::plan::writes_view(writes@.push(item)) =~= crate::plan::writes_view(
                    writes@,
                ).push(item@));
                assert(plan.take(core + 1) =~= plan.take(core as int).push(plan[core as int]));
            }
            writes.push(item);
            core = core + 1;
        }
        proof {
            assert(self.governor_plan(name@, readings@).take(count as int)
                =~= self.governor_plan(name@, readings@));
        }
        CorePlan { writes }
    }

    /// What is to be written to pin every core to `freq` megahertz: for
    /// each core, in the order of the indices, the write of the lower
    /// bound and then that of the upper bound, or the reason why the core
    /// is left alone (`readings[c]` for core `c`). No core is skipped
    /// because another was rejected.
    pub fn set_frequency_all(&self, freq: u32, readings: &Vec<CoreReading>) -> (plan: CorePlan)
        ensures
            plan@ == self.frequency_plan(freq, readings@, self.count()),
    {
        let count: usize = self.table.len();
        let mut writes: Vec<CoreWrite> = Vec::new();
        let mut core: usize = 0;
        assert(crate::plan::writes_view(writes@) =~= self.frequency_plan(freq, readings@, 0));
        while core < count
            invariant
                core <= count,
                count == self.count(),
                crate::plan::writes_view(writes@) == self.frequency_plan(
                    freq,
                    readings@,
                    core as nat,
                ),
            decreases count - core,
        {
            let hw_min = if core < readings.len() {
                as_text(&readings[core].hw_min)
            } else {
                None
            };
            let hw_max = if core < readings.len() {
                as_text(&readings[core].hw_max)
            } else {
                None
            };
            let ghost before = writes@;
            let lower = self.set_scaling_min_freq(core, freq, hw_min, hw_max);
            if lower.is_ok() {
                let upper = self.set_scaling_max_freq(core, freq, hw_min, hw_max);
                let first = CoreWrite { core, step: Step::MinFreq, request: lower };
                let second = CoreWrite { core, step: Step::MaxFreq, request: upper };
                proof {
                    assert(crate::plan::writes_view(before.push(first).push(second))
                        =~= crate::plan::writes_view(before) + seq![first@, second@]);
                }
                writes.push(first);
                writes.push(second);
            } else {
                let only = CoreWrite { core, step: Step::MinFreq, request: lower };
                proof {
                    assert(crate::plan::writes_view(before.push(only)) =~= crate::plan::writes_view(
                        before,
                    ) + seq![only@]);
                }
                writes.push(only);
            }
            core = core + 1;
        }
        CorePlan { writes }
    }
}

/// What stands for the reading of a core that the caller did not supply.
pub open spec fn is_unread(reading: CoreReading) -> bool {
    &&& reading.governor is None
    &&& reading.available_governors is None
    &&& reading.cur_freq is None
    &&& reading.hw_min is None
    &&& reading.hw_max is None
}

/// The reading of a core of which nothing could be read.
pub fn unread_core() -> (r: CoreReading)
    ensures
        is_unread(r),
{
    CoreReading { governor: None, available_governors: None, cur_freq: None, hw_min: None, hw_max: None }
}

} // verus!

//! Thermal zones: which there are, what their files mean, and which of them
//! tells the temperature of the processor.
//!
//! Temperatures are whole millidegrees Celsius, as the kernel reports them.
//! Zones keep the order of their directory names as texts, so that
//! `thermal_zone10` comes before `thermal_zone2`.

use crate::error::{outcome, text_outcome, Error, ErrorView};
use crate::order::insert_sorted;
use crate::paths::{trip_file, trip_file_path, zone_file, zone_file_path};
use crate::snapshot::{collect, greatest, lemma_collect_error, max_of, values_outcome};
use crate::text::{
    as_text, contains_text, i32_of, lex_sorted, opt_string, opt_text, parse_i32, texts, trim,
    trimmed,
};
use crate::words::{lowercase_of, text_contains, text_starts_with, to_lowercase};
use vstd::prelude::*;
use vstd::string::StringExecFns;

verus! {

/// A temperature threshold of a thermal zone.
#[derive(Debug, PartialEq, Eq)]
pub struct TripPoint {
    pub id: usize,
    pub temp_millicelsius: i32,
    pub trip_type: String,
}

/// The mathematical view of a [`TripPoint`].
pub struct TripPointView {
    pub id: usize,
    pub temp_millicelsius: i32,
    pub trip_type: Seq<char>,
}

impl View for TripPoint {
    type V = TripPointView;

    open spec fn view(&self) -> TripPointView {
        TripPointView {
            id: self.id,
            temp_millicelsius: self.temp_millicelsius,
            trip_type: self.trip_type@,
        }
    }
}

/// The views of a list of trip points.
pub open spec fn trip_views(points: Seq<TripPoint>) -> Seq<TripPointView> {
    points.map_values(|p: TripPoint| p@)
}

/// A thermal zone as it was read.
#[derive(Debug, PartialEq, Eq)]
pub struct ThermalZone {
    pub id: usize,
    pub type_label: String,
    pub temp_millicelsius: i32,
    pub trip_points: Vec<TripPoint>,
}

/// The mathematical view of a [`ThermalZone`].
pub struct ThermalZoneView {
    pub id: usize,
    pub type_label: Seq<char>,
    pub temp_millicelsius: i32,
    pub trip_points: Seq<TripPointView>,
}

impl View for ThermalZone {
    type V = ThermalZoneView;

    open spec fn view(&self) -> ThermalZoneView {
        ThermalZoneView {
            id: self.id,
            type_label: self.type_label@,
            temp_millicelsius: self.temp_millicelsius,
            trip_points: trip_views(self.trip_points@),
        }
    }
}

/// The views of a list of zones.
pub open spec fn zone_views(zones: Seq<ThermalZone>) -> Seq<ThermalZoneView> {
    zones.map_values(|z: ThermalZone| z@)
}

/// What the caller found of a file that need not exist.
#[derive(Debug, PartialEq, Eq)]
pub enum Probe {
    /// There is no such file.
    Missing,
    /// The file exists and could not be read.
    Unreadable,
    /// The file's content.
    Content(String),
}

/// What the caller found of one trip point.
#[derive(Debug, PartialEq, Eq)]
pub struct TripReading {
    /// The temperature file.
    pub temp: Probe,
    /// The content of the type file; `None` where it could not be read.
    pub trip_type: Option<String>,
}

/// What the caller found of one thermal zone. A content is `None` where
/// the file could not be read.
#[derive(Debug, PartialEq, Eq)]
pub struct ZoneReading {
    pub temp: Option<String>,
    pub type_label: Option<String>,
    /// The trip points from index 0 on, as far as the caller probed them.
    pub trips: Vec<TripReading>,
}

/// Whether a directory of the thermal root is that of a zone.
pub open spec fn is_zone_name(name: Seq<char>) -> bool {
    "thermal_zone"@.is_prefix_of(name)
}

/// What `names` must be to be the zones found among `entries`: the entries
/// that name a zone, each as often as it was listed, in dictionary order.
pub open spec fn discovered(names: Seq<Seq<char>>, entries: Seq<Seq<char>>) -> bool {
    &&& lex_sorted(names)
    &&& names.to_multiset() == entries.filter(|n: Seq<char>| is_zone_name(n)).to_multiset()
}

/// The whole millidegrees that the file at `path` reports.
pub open spec fn millidegrees(path: Seq<char>, raw: Option<Seq<char>>) -> Result<i32, ErrorView> {
    match raw {
        None => Err(ErrorView::Io { path }),
        Some(text) => match i32_of(trimmed(text)) {
            Some(v) => Ok(v),
            None => Err(ErrorView::Parse { path, raw: text }),
        },
    }
}

/// The temperature of the zone `zone`, given the content of its `temp`
/// file.
pub open spec fn zone_temperature(zone: Seq<char>, raw: Option<Seq<char>>) -> Result<
    i32,
    ErrorView,
> {
    millidegrees(zone_file(zone, "temp"@), raw)
}

/// The label of the zone `zone`, given the content of its `type` file.
pub open spec fn zone_type(zone: Seq<char>, raw: Option<Seq<char>>) -> Result<
    Seq<char>,
    ErrorView,
> {
    match raw {
        None => Err(ErrorView::Io { path: zone_file(zone, "type"@) }),
        Some(text) => Ok(trimmed(text)),
    }
}

/// How many trip points, from index 0 on, have a temperature file that
/// was read.
pub open spec fn leading_contents(trips: Seq<TripReading>) -> nat
    decreases trips.len(),
{
    if trips.len() > 0 && trips.first().temp is Content {
        1 + leading_contents(trips.drop_first())
    } else {
        0
    }
}

/// How many trip points the discovery looks at: those whose temperature
/// file was read, from index 0 on, and the next one if its file exists and
/// could not be read. Discovery ends at the first index without a
/// temperature file, whatever lies behind it.
pub open spec fn examined(trips: Seq<TripReading>) -> nat {
    let n = leading_contents(trips);
    if n < trips.len() && trips[n as int].temp is Unreadable {
        n + 1
    } else {
        n
    }
}

/// The type of a trip point: the content of its type file without the
/// white space around it, or the placeholder where the file could not be
/// read.
pub open spec fn trip_type_of(raw: Option<Seq<char>>) -> Seq<char> {
    match raw {
        Some(text) => trimmed(text),
        None => "unknown"@,
    }
}

/// The trip point `id` of the zone `zone`, given what was found of it.
pub open spec fn trip_point(zone: Seq<char>, id: int, trip: TripReading) -> Result<
    TripPointView,
    ErrorView,
> {
    let path = trip_file(zone, id as nat, "_temp"@);
    match trip.temp {
        Probe::Content(raw) => match millidegrees(path, Some(raw@)) {
            Ok(t) => Ok(
                TripPointView {
                    id: id as usize,
                    temp_millicelsius: t,
                    trip_type: trip_type_of(opt_string(trip.trip_type)),
                },
            ),
            Err(e) => Err(e),
        },
        _ => Err(ErrorView::Io { path }),
    }
}

/// The trip points of the zone `zone`, given what was found of them.
pub open spec fn trip_points(zone: Seq<char>, trips: Seq<TripReading>) -> Result<
    Seq<TripPointView>,
    ErrorView,
> {
    collect(Seq::new(examined(trips), |k: int| trip_point(zone, k, trips[k])))
}

/// Whether a zone label, in lower case, names a sensor of the processor.
pub open spec fn is_cpu_label(lowered: Seq<char>) -> bool {
    ||| contains_text(lowered, "x86_pkg_temp"@)
    ||| contains_text(lowered, "cpu"@)
    ||| contains_text(lowered, "core"@)
}

/// Whether the content of a zone's `type` file names a sensor of the
/// processor, whatever the case of its letters. A file that could not be
/// read names none.
pub open spec fn is_cpu_type(raw: Option<Seq<char>>) -> bool {
    match raw {
        Some(text) => is_cpu_label(lowercase_of(trimmed(text))),
        None => false,
    }
}

/// The content of the `temp` file of zone `zone` among `readings`; a zone
/// without a reading counts as unreadable.
pub open spec fn temp_at(readings: Seq<ZoneReading>, zone: int) -> Option<Seq<char>> {
    if 0 <= zone < readings.len() {
        opt_string(readings[zone].temp)
    } else {
        None
    }
}

/// The content of the `type` file of zone `zone` among `readings`; a zone
/// without a reading counts as unreadable.
pub open spec fn type_at(readings: Seq<ZoneReading>, zone: int) -> Option<Seq<char>> {
    if 0 <= zone < readings.len() {
        opt_string(readings[zone].type_label)
    } else {
        None
    }
}

/// What was found of the trip points of zone `zone` among `readings`; a
/// zone without a reading has none.
pub open spec fn trips_at(readings: Seq<ZoneReading>, zone: int) -> Seq<TripReading> {
    if 0 <= zone < readings.len() {
        readings[zone].trips@
    } else {
        Seq::empty()
    }
}

/// Zone `zone` is the first whose label names a sensor of the processor.
pub open spec fn is_first_cpu_zone(readings: Seq<ZoneReading>, count: nat, zone: int) -> bool {
    &&& 0 <= zone < count
    &&& is_cpu_type(type_at(readings, zone))
    &&& forall|earlier: int| 0 <= earlier < zone ==> !is_cpu_type(type_at(readings, earlier))
}

/// The thermal zones of the machine.
pub struct ThermalManager {
    zones: Vec<String>,
}

impl ThermalManager {
    /// The names of the zone directories, in the order of the zone indices.
    pub closed spec fn names(&self) -> Seq<Seq<char>> {
        texts(self.zones@)
    }

    /// The number of zones.
    pub open spec fn count(&self) -> nat {
        self.names().len()
    }

    /// The temperature of zone `zone`, given the content of its `temp` file.
    pub open spec fn temperature(&self, zone: usize, raw: Option<Seq<char>>) -> Result<
        i32,
        ErrorView,
    > {
        if zone >= self.count() {
            Err(ErrorView::InvalidZone { zone, count: self.count() as usize })
        } else {
            zone_temperature(self.names()[zone as int], raw)
        }
    }

    /// The label of zone `zone`, given the content of its `type` file.
    pub open spec fn label(&self, zone: usize, raw: Option<Seq<char>>) -> Result<
        Seq<char>,
        ErrorView,
    > {
        if zone >= self.count() {
            Err(ErrorView::InvalidZone { zone, count: self.count() as usize })
        } else {
            zone_type(self.names()[zone as int], raw)
        }
    }

    /// The trip points of zone `zone`, given what was found of them.
    pub open spec fn trips(&self, zone: usize, trips: Seq<TripReading>) -> Result<
        Seq<TripPointView>,
        ErrorView,
    > {
        if zone >= self.count() {
            Err(ErrorView::InvalidZone { zone, count: self.count() as usize })
        } else {
            trip_points(self.names()[zone as int], trips)
        }
    }

    /// Zone `zone` in full: its temperature, then its label, then its trip
    /// points; the first of these that fails decides.
    pub open spec fn info(
        &self,
        zone: usize,
        temp: Option<Seq<char>>,
        label: Option<Seq<char>>,
        trips: Seq<TripReading>,
    ) -> Result<ThermalZoneView, ErrorView> {
        match self.temperature(zone, temp) {
            Err(e) => Err(e),
            Ok(t) => match self.label(zone, label) {
                Err(e) => Err(e),
                Ok(name) => match self.trips(zone, trips) {
                    Err(e) => Err(e),
                    Ok(points) => Ok(
                        ThermalZoneView {
                            id: zone,
                            type_label: name,
                            temp_millicelsius: t,
                            trip_points: points,
                        },
                    ),
                },
            },
        }
    }

    /// The temperatures of all zones, or the error of the first zone that
    /// fails.
    pub open spec fn temperatures(&self, readings: Seq<ZoneReading>) -> Result<
        Seq<i32>,
        ErrorView,
    > {
        collect(
            Seq::new(self.count(), |z: int| self.temperature(z as usize, temp_at(readings, z))),
        )
    }

    /// All zones in full, or the error of the first zone that fails.
    pub open spec fn zones(&self, readings: Seq<ZoneReading>) -> Result<
        Seq<ThermalZoneView>,
        ErrorView,
    > {
        collect(
            Seq::new(
                self.count(),
                |z: int|
                    self.info(
                        z as usize,
                        temp_at(readings, z),
                        type_at(readings, z),
                        trips_at(readings, z),
                    ),
            ),
        )
    }

    /// The greatest temperature of all zones.
    pub open spec fn max_temperature(&self, readings: Seq<ZoneReading>) -> Result<i32, ErrorView> {
        match self.temperatures(readings) {
            Err(e) => Err(e),
            Ok(temps) => if temps.len() == 0 {
                Err(ErrorView::NoZones)
            } else {
                Ok(max_of(temps))
            },
        }
    }

    /// The temperature of the processor: that of the first zone whose label
    /// names a sensor of the processor, or the greatest of all zones where
    /// no label does.
    pub open spec fn cpu_temperature(&self, readings: Seq<ZoneReading>) -> Result<i32, ErrorView> {
        if exists|z: int| is_first_cpu_zone(readings, self.count(), z) {
            let z = choose|z: int| is_first_cpu_zone(readings, self.count(), z);
            self.temperature(z as usize, temp_at(readings, z))
        } else {
            self.max_temperature(readings)
        }
    }

    /// The zones among the entries of the thermal root (`None`: the root
    /// could not be listed, which is an error; no zone at all is none).
    pub fn new(entries: Option<Vec<String>>) -> (r: Result<ThermalManager, Error>)
        ensures
            match r {
                Ok(manager) => entries is Some && discovered(
                    manager.names(),
                    texts(entries->Some_0@),
                ),
                Err(e) => entries is None && e@ == ErrorView::Init,
            },
    {
        match entries {
            None => Err(Error::Init),
            Some(listed) => {
                let zones = Self::discover_thermal_zones(&listed);
                Ok(ThermalManager { zones })
            },
        }
    }

    fn discover_thermal_zones(entries: &Vec<String>) -> (zones: Vec<String>)
        ensures
            discovered(texts(zones@), texts(entries@)),
    {
        let ghost is_zone = |n: Seq<char>| is_zone_name(n);
        let mut zones: Vec<String> = Vec::new();
        let n: usize = entries.len();
        let mut i: usize = 0;
        proof {
            assert(texts(entries@).take(0) =~= Seq::<Seq<char>>::empty());
            assert(texts(zones@) =~= Seq::<Seq<char>>::empty());
            assert(Seq::<Seq<char>>::empty().filter(is_zone) =~= Seq::<Seq<char>>::empty()) by {
                reveal(Seq::filter);
            }
        }
        while i < n
            invariant
                i <= n,
                n == entries.len(),
                is_zone == (|n: Seq<char>| is_zone_name(n)),
                lex_sorted(texts(zones@)),
                texts(zones@).to_multiset() == texts(entries@).take(i as int).filter(
                    is_zone,
                ).to_multiset(),
            decreases n - i,
        {
            let name = &entries[i];
            proof {
                let seen = texts(entries@).take(i as int);
                assert(texts(entries@).take(i + 1) =~= seen.push(name@));
                Seq::lemma_filter_push(seen, name@, is_zone);
                vstd::seq_lib::to_multiset_build(seen.filter(is_zone), name@);
            }
            if text_starts_with(name.as_str(), "thermal_zone") {
                insert_sorted(&mut zones, name.clone());
            }
            i = i + 1;
        }
        proof {
            assert(texts(entries@).take(n as int) =~= texts(entries@));
        }
        zones
    }

    /// The number of zones.
    pub fn get_zone_count(&self) -> (n: usize)
        ensures
            n == self.count(),
    {
        self.zones.len()
    }

    fn no_such_zone(&self, zone: usize) -> (e: Error)
        ensures
            e@ == (ErrorView::InvalidZone { zone, count: self.count() as usize }),
    {
        Error::InvalidZone { zone, count: self.zones.len() }
    }

    /// The path of the file `file` of zone `zone`.
    pub fn zone_path(&self, zone: usize, file: &str) -> (r: Result<String, Error>)
        ensures
            text_outcome(r) == (if zone >= self.count() {
                Err(ErrorView::InvalidZone { zone, count: self.count() as usize })
            } else {
                Ok(zone_file(self.names()[zone as int], file@))
            }),
    {
        if zone >= self.zones.len() {
            Err(self.no_such_zone(zone))
        } else {
            Ok(zone_file_path(self.zones[zone].as_str(), file))
        }
    }

    /// The path of the file of trip point `trip` of zone `zone` that ends
    /// in `suffix` (`_temp` or `_type`).
    pub fn trip_path(&self, zone: usize, trip: usize, suffix: &str) -> (r: Result<String, Error>)
        ensures
            text_outcome(r) == (if zone >= self.count() {
                Err(ErrorView::InvalidZone { zone, count: self.count() as usize })
            } else {
                Ok(trip_file(self.names()[zone as int], trip as nat, suffix@))
            }),
    {
        if zone >= self.zones.len() {
            Err(self.no_such_zone(zone))
        } else {
            Ok(trip_file_path(self.zones[zone].as_str(), trip, suffix))
        }
    }

    /// The temperature of zone `zone` in millidegrees, from the content of
    /// its `temp` file (`None`: the file could not be read).
    pub fn get_temperature(&self, zone: usize, raw: Option<&str>) -> (r: Result<i32, Error>)
        ensures
            outcome(r) == self.temperature(zone, opt_text(raw)),
    {
        if zone >= self.zones.len() {
            return Err(self.no_such_zone(zone));
        }
        read_millidegrees(zone_file_path(self.zones[zone].as_str(), "temp"), raw)
    }

    /// The label of zone `zone`, from the content of its `type` file
    /// (`None`: the file could not be read).
    pub fn get_zone_type(&self, zone: usize, raw: Option<&str>) -> (r: Result<String, Error>)
        ensures
            text_outcome(r) == self.label(zone, opt_text(raw)),
    {
        if zone >= self.zones.len() {
            return Err(self.no_such_zone(zone));
        }
        match raw {
            None => Err(Error::Io { path: zone_file_path(self.zones[zone].as_str(), "type") }),
            Some(text) => Ok(String::from_str(trim(text))),
        }
    }

    /// Whether the caller is to probe one more trip point: it is, as long
    /// as every trip point probed so far had a temperature file that could
    /// be read.
    pub fn needs_next_trip(trips: &Vec<TripReading>) -> (r: bool)
        ensures
            r == (leading_contents(trips@) == trips@.len()),
    {
        count_contents(trips) == trips.len()
    }

    /// The trip points of zone `zone`, from what the caller found of them.
    /// Discovery ends at the first trip point without a temperature file.
    /// A type file that could not be read gives the type `unknown`.
    pub fn get_trip_points(&self, zone: usize, trips: &Vec<TripReading>) -> (r: Result<
        Vec<TripPoint>,
        Error,
    >)
        ensures
            points_outcome(r) == self.trips(zone, trips@),
    {
        if zone >= self.zones.len() {
            return Err(self.no_such_zone(zone));
        }
        let name = self.zones[zone].as_str();
        let n: usize = count_contents(trips);
        let ghost results = Seq::new(examined(trips@), |k: int| trip_point(name@, k, trips@[k]));
        let mut points: Vec<TripPoint> = Vec::new();
        let mut k: usize = 0;
        proof {
            lemma_leading_contents(trips@);
            assert(results.take(0) =~= Seq::<Result<TripPointView, ErrorView>>::empty());
            assert(trip_views(points@) =~= Seq::<TripPointView>::empty());
        }
        while k < n
            invariant
                k <= n,
                zone < self.count(),
                name@ == self.names()[zone as int],
                n == leading_contents(trips@),
                n <= trips.len(),
                n <= examined(trips@),
                forall|j: int| 0 <= j < n ==> trips@[j].temp is Content,
                results == Seq::new(examined(trips@), |k: int| trip_point(name@, k, trips@[k])),
                collect(results.take(k as int)) == Ok::<Seq<TripPointView>, ErrorView>(
                    trip_views(points@),
                ),
            decreases n - k,
        {
            let trip = &trips[k];
            proof {
                assert(results.take(k + 1).drop_last() =~= results.take(k as int));
                assert(results.take(k + 1).last() == results[k as int]);
            }
            match &trip.temp {
                Probe::Content(raw) => {
                    let path = trip_file_path(name, k, "_temp");
                    match read_millidegrees(path, Some(raw.as_str())) {
                        Err(e) => {
                            proof {
                                lemma_collect_error(results, k as int);
                            }
                            return Err(e);
                        },
                        Ok(t) => {
                            let trip_type = match &trip.trip_type {
                                Some(text) => String::from_str(trim(text.as_str())),
                                None => String::from_str("unknown"),
                            };
                            let point = TripPoint { id: k, temp_millicelsius: t, trip_type };
                            proof {
                                assert(trip_views(points@.push(point)) =~= trip_views(
                                    points@,
                                ).push(point@));
                            }
                            points.push(point);
                        },
                    }
                },
                _ => {
                    assert(false);
                },
            }
            k = k + 1;
        }
        if n < trips.len() {
            match &trips[n].temp {
                Probe::Unreadable => {
                    proof {
                        lemma_collect_error(results, n as int);
                    }
                    return Err(Error::Io { path: trip_file_path(name, n, "_temp") });
                },
                _ => {},
            }
        }
        proof {
            assert(results.take(n as int) =~= results);
        }
        Ok(points)
    }

    /// Zone `zone` in full, from what the caller found of it: its
    /// temperature, its label and its trip points. The first of these that
    /// fails is the error.
    pub fn get_zone_info(&self, zone: usize, reading: &ZoneReading) -> (r: Result<
        ThermalZone,
        Error,
    >)
        ensures
            zone_outcome(r) == self.info(
                zone,
                opt_string(reading.temp),
                opt_string(reading.type_label),
                reading.trips@,
            ),
    {
        let temp_millicelsius = match self.get_temperature(zone, as_text(&reading.temp)) {
            Ok(t) => t,
            Err(e) => {
                return Err(e);
            },
        };
        let type_label = match self.get_zone_type(zone, as_text(&reading.type_label)) {
            Ok(t) => t,
            Err(e) => {
                return Err(e);
            },
        };
        let trip_points = match self.get_trip_points(zone, &reading.trips) {
            Ok(t) => t,
            Err(e) => {
                return Err(e);
            },
        };
        Ok(ThermalZone { id: zone, type_label, temp_millicelsius, trip_points })
    }

    /// The temperatures of all zones in the order of their indices, from
    /// what the caller found of each (`readings[z]` for zone `z`; a zone
    /// without a reading counts as unreadable). One zone that fails, and
    /// the whole snapshot fails with the error of the first such zone.
    pub fn get_all_temperatures(&self, readings: &Vec<ZoneReading>) -> (r: Result<Vec<i32>, Error>)
        ensures
            values_outcome(r) == self.temperatures(readings@),
    {
        let count: usize = self.zones.len();
        let ghost results = Seq::new(
            self.count(),
            |z: int| self.temperature(z as usize, temp_at(readings@, z)),
        );
        let mut temps: Vec<i32> = Vec::new();
        let mut zone: usize = 0;
        proof {
            assert(results.take(0) =~= Seq::<Result<i32, ErrorView>>::empty());
        }
        while zone < count
            invariant
                zone <= count,
                count == self.count(),
                results == Seq::new(
                    self.count(),
                    |z: int| self.temperature(z as usize, temp_at(readings@, z)),
                ),
                collect(results.take(zone as int)) == Ok::<Seq<i32>, ErrorView>(temps@),
            decreases count - zone,
        {
            let raw = if zone < readings.len() {
                as_text(&readings[zone].temp)
            } else {
                None
            };
            proof {
                assert(results.take(zone + 1).drop_last() =~= results.take(zone as int));
                assert(results.take(zone + 1).last() == results[zone as int]);
            }
            match self.get_temperature(zone, raw) {
                Ok(t) => {
                    temps.push(t);
                },
                Err(e) => {
                    proof {
                        lemma_collect_error(results, zone as int);
                    }
                    return Err(e);
                },
            }
            zone = zone + 1;
        }
        proof {
            assert(results.take(count as int) =~= results);
        }
        Ok(temps)
    }

    /// All zones in full, in the order of their indices, from what the
    /// caller found of each (`readings[z]` for zone `z`; a zone without a
    /// reading counts as unreadable). One zone that fails, and the whole
    /// snapshot fails with the error of the first such zone.
    pub fn get_all_zones(&self, readings: &Vec<ZoneReading>) -> (r: Result<
        Vec<ThermalZone>,
        Error,
    >)
        ensures
            zones_outcome(r) == self.zones(readings@),
    {
        let count: usize = self.zones.len();
        let ghost results = Seq::new(
            self.count(),
            |z: int|
                self.info(
                    z as usize,
                    temp_at(readings@, z),
                    type_at(readings@, z),
                    trips_at(readings@, z),
                ),
        );
        let unread = ZoneReading { temp: None, type_label: None, trips: Vec::new() };
        let mut zones: Vec<ThermalZone> = Vec::new();
        let mut zone: usize = 0;
        proof {
            assert(results.take(0) =~= Seq::<Result<ThermalZoneView, ErrorView>>::empty());
            assert(zone_views(zones@) =~= Seq::<ThermalZoneView>::empty());
        }
        while zone < count
            invariant
                zone <= count,
                count == self.count(),
                unread.temp is None,
                unread.type_label is None,
                unread.trips@.len() == 0,
                results == Seq::new(
                    self.count(),
                    |z: int|
                        self.info(
                            z as usize,
                            temp_at(readings@, z),
                            type_at(readings@, z),
                            trips_at(readings@, z),
                        ),
                ),
                collect(results.take(zone as int)) == Ok::<Seq<ThermalZoneView>, ErrorView>(
                    zone_views(zones@),
                ),
            decreases count - zone,
        {
            let reading = if zone < readings.len() {
                &readings[zone]
            } else {
                &unread
            };
            proof {
                assert(results.take(zone + 1).drop_last() =~= results.take(zone as int));
                assert(results.take(zone + 1).last() == results[zone as int]);
                assert(reading.trips@ =~= trips_at(readings@, zone as int));
            }
            match self.get_zone_info(zone, reading) {
                Ok(info) => {
                    proof {
                        assert(zone_views(zones@.push(info)) =~= zone_views(zones@).push(info@));
                    }
                    zones.push(info);
                },
                Err(e) => {
                    proof {
                        lemma_collect_error(results, zone as int);
                    }
                    return Err(e);
                },
            }
            zone = zone + 1;
        }
        proof {
            assert(results.take(count as int) =~= results);
        }
        Ok(zones)
    }

    /// The greatest temperature of all zones; an error where a zone fails
    /// or where there is no zone.
    pub fn get_max_temperature(&self, readings: &Vec<ZoneReading>) -> (r: Result<i32, Error>)
        ensures
            outcome(r) == self.max_temperature(readings@),
    {
        match self.get_all_temperatures(readings) {
            Err(e) => Err(e),
            Ok(temps) => match greatest(&temps) {
                Some(t) => Ok(t),
                None => Err(Error::NoZones),
            },
        }
    }

    /// The temperature of the processor: that of the first zone, in the
    /// order of the indices, whose label names a sensor of the processor
    /// in whatever case (`x86_pkg_temp`, `cpu`, `core`); where no label
    /// does, the greatest temperature of all zones.
    pub fn get_cpu_temperature(&self, readings: &Vec<ZoneReading>) -> (r: Result<i32, Error>)
        ensures
            outcome(r) == self.cpu_temperature(readings@),
    {
        let count: usize = self.zones.len();
        let mut zone: usize = 0;
        while zone < count
            invariant
                zone <= count,
                count == self.count(),
                forall|earlier: int|
                    0 <= earlier < zone ==> !is_cpu_type(type_at(readings@, earlier)),
            decreases count - zone,
        {
            if zone < readings.len() {
                let reading = &readings[zone];
                if is_cpu_zone(as_text(&reading.type_label)) {
                    proof {
                        assert(is_first_cpu_zone(readings@, self.count(), zone as int));
                        let z = choose|z: int| is_first_cpu_zone(readings@, self.count(), z);
                        assert(z == zone);
                    }
                    return self.get_temperature(zone, as_text(&reading.temp));
                }
            }
            zone = zone + 1;
        }
        self.get_max_temperature(readings)
    }
}

/// A zone, or an error, taken by its view.
pub open spec fn zone_outcome(r: Result<ThermalZone, Error>) -> Result<ThermalZoneView, ErrorView> {
    match r {
        Ok(zone) => Ok(zone@),
        Err(e) => Err(e@),
    }
}

/// A list of zones, or an error, taken by its view.
pub open spec fn zones_outcome(r: Result<Vec<ThermalZone>, Error>) -> Result<
    Seq<ThermalZoneView>,
    ErrorView,
> {
    match r {
        Ok(zones) => Ok(zone_views(zones@)),
        Err(e) => Err(e@),
    }
}

/// A list of trip points, or an error, taken by its view.
pub open spec fn points_outcome(r: Result<Vec<TripPoint>, Error>) -> Result<
    Seq<TripPointView>,
    ErrorView,
> {
    match r {
        Ok(points) => Ok(trip_views(points@)),
        Err(e) => Err(e@),
    }
}

/// The leading trip points whose temperature file was read are within the
/// list, and the next one, if any, is not of them.
pub proof fn lemma_leading_contents(trips: Seq<TripReading>)
    ensures
        leading_contents(trips) <= trips.len(),
        forall|j: int| 0 <= j < leading_contents(trips) ==> trips[j].temp is Content,
        leading_contents(trips) < trips.len() ==> !(trips[leading_contents(
            trips,
        ) as int].temp is Content),
        leading_contents(trips) <= examined(trips) <= trips.len(),
    decreases trips.len(),
{
    if trips.len() > 0 && trips.first().temp is Content {
        let rest = trips.drop_first();
        lemma_leading_contents(rest);
        assert forall|j: int| 0 <= j < leading_contents(trips) implies trips[j].temp is Content by {
            if j > 0 {
                assert(trips[j] == rest[j - 1]);
            }
        }
        if leading_contents(trips) < trips.len() {
            assert(trips[leading_contents(trips) as int] == rest[leading_contents(rest) as int]);
        }
    }
}

proof fn lemma_leading_count(trips: Seq<TripReading>, n: int)
    requires
        0 <= n <= trips.len(),
        forall|j: int| 0 <= j < n ==> trips[j].temp is Content,
        n == trips.len() || !(trips[n].temp is Content),
    ensures
        leading_contents(trips) == n,
    decreases n,
{
    if n > 0 {
        lemma_leading_count(trips.drop_first(), n - 1);
    }
}

/// How many trip points, from index 0 on, have a temperature file that was
/// read.
pub fn count_contents(trips: &Vec<TripReading>) -> (n: usize)
    ensures
        n == leading_contents(trips@),
{
    let len: usize = trips.len();
    let mut n: usize = 0;
    loop
        invariant
            n <= len,
            len == trips.len(),
            forall|j: int| 0 <= j < n ==> trips@[j].temp is Content,
        decreases len - n,
    {
        if n == len {
            proof {
                lemma_leading_count(trips@, n as int);
            }
            return n;
        }
        match &trips[n].temp {
            Probe::Content(_) => {},
            _ => {
                proof {
                    lemma_leading_count(trips@, n as int);
                }
                return n;
            },
        }
        n = n + 1;
    }
}

/// Reads whole millidegrees from the content of the file at `path`.
pub fn read_millidegrees(path: String, raw: Option<&str>) -> (r: Result<i32, Error>)
    ensures
        outcome(r) == millidegrees(path@, opt_text(raw)),
{
    match raw {
        None => Err(Error::Io { path }),
        Some(text) => match parse_i32(trim(text)) {
            Some(v) => Ok(v),
            None => Err(Error::Parse { path, raw: String::from_str(text) }),
        },
    }
}

/// Tells whether a zone label, in lower case, names a sensor of the
/// processor.
pub fn names_cpu_sensor(lowered: &str) -> (r: bool)
    ensures
        r == is_cpu_label(lowered@),
{
    text_contains(lowered, "x86_pkg_temp") || text_contains(lowered, "cpu") || text_contains(
        lowered,
        "core",
    )
}

/// Tells whether the content of a zone's `type` file names a sensor of the
/// processor (`None`: the file could not be read).
pub fn is_cpu_zone(raw: Option<&str>) -> (r: bool)
    ensures
        r == is_cpu_type(opt_text(raw)),
{
    match raw {
        None => false,
        Some(text) => {
            let lowered = to_lowercase(trim(text));
            names_cpu_sensor(lowered.as_str())
        },
    }
}

} // verus!

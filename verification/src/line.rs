//! The upstream transit-line records consumed by the assembler.
//!
//! These are the already-decoded entities handed over by the data layer:
//! lines with their route sections, stops, timetables and raw geometry
//! sequences.  Coordinates are fixed-point integers (ten-thousandths of a
//! degree) and interval offsets are whole minutes, so the record fields
//! are exact values; the data layer converts from its wire formats.

use vstd::prelude::*;
use crate::strutil::str_eq;

verus! {

/// A stop point: id, display name, fixed-point coordinates, and child
/// stops (sub-platforms) that share the parent's coordinates for GTFS
/// purposes.
#[derive(Debug)]
pub struct Stop {
    pub naptan_id: String,
    pub common_name: String,
    /// Latitude in 1/10,000 degree.
    pub lat: i64,
    /// Longitude in 1/10,000 degree.
    pub lon: i64,
    pub children: Vec<Stop>,
}

/// A station referenced from inside a timetable.
#[derive(Clone, Debug)]
pub struct Station {
    pub id: String,
    pub name: String,
    /// Latitude in 1/10,000 degree.
    pub lat: i64,
    /// Longitude in 1/10,000 degree.
    pub lon: i64,
}

/// One stop of a station interval: the stop reached and the whole-minute
/// offset from the journey's departure.
#[derive(Clone, Debug)]
pub struct Interval {
    pub stop_id: String,
    /// Minutes from departure to arrival, already rounded down.
    pub time_to_arrival: u64,
}

/// An ordered list of arrival offsets, keyed by a small integer id.
#[derive(Clone, Debug)]
pub struct StationInterval {
    pub id: i64,
    pub intervals: Vec<Interval>,
}

/// A scheduled departure: the interval pattern it follows and the
/// departure hour and minute as decimal strings.
#[derive(Clone, Debug)]
pub struct KnownJourney {
    pub interval_id: i64,
    pub hour: String,
    pub minute: String,
}

/// A named set of known journeys.
#[derive(Clone, Debug)]
pub struct Schedule {
    pub name: String,
    pub known_journeys: Vec<KnownJourney>,
}

/// One raw timetable variant.
#[derive(Clone, Debug)]
pub struct TimeTable {
    pub station_intervals: Vec<StationInterval>,
    pub schedules: Vec<Schedule>,
}

/// The timetable variants of a response.
#[derive(Clone, Debug)]
pub struct RoutesTimeTables {
    pub routes: Vec<TimeTable>,
}

/// A timetable response: the stations and stops it references, its
/// timetable variants, and an optional error message; if the message is
/// present, no valid timetable exists for the section.
#[derive(Clone, Debug)]
pub struct TimeTableResponse {
    pub stations: Vec<Station>,
    pub stops: Vec<Station>,
    pub timetable: RoutesTimeTables,
    pub status_error_message: Option<String>,
    pub line_id: String,
}

/// A route section: direction ("inbound"/"outbound"), origin and
/// destination stop ids, and the timetable fetched for it, if any.
#[derive(Clone, Debug)]
pub struct RouteSection {
    pub name: String,
    pub direction: String,
    pub originator: String,
    pub destination: String,
    pub timetable: Option<TimeTableResponse>,
}

/// A line's raw geometry: a list of JSON-encoded linestring fragments.
#[derive(Clone, Debug)]
pub struct Sequence {
    pub line_strings: Vec<String>,
}

/// A transit line with its enrichment fields.  The route colour is pure
/// reference data supplied by the data layer together with the record.
#[derive(Debug)]
pub struct Line {
    pub id: String,
    pub name: String,
    pub mode_name: String,
    /// Display colour for the route, supplied by the data layer's static
    /// colour table.
    pub color: String,
    pub route_sections: Vec<RouteSection>,
    pub stops: Option<Vec<Stop>>,
    pub inbound_sequence: Option<Sequence>,
    pub outbound_sequence: Option<Sequence>,
}

impl TimeTableResponse {
    /// The first timetable variant, if the response is usable.
    pub open spec fn first_timetable_spec(self) -> Option<TimeTable> {
        if self.status_error_message is Some || self.timetable.routes@.len() == 0 {
            None
        } else {
            Some(self.timetable.routes@[0])
        }
    }

    /// The first timetable variant: present exactly when the response
    /// carries no error message and has at least one variant.
    pub fn first_timetable(&self) -> (r: Option<&TimeTable>)
        ensures
            (r is Some) == (self.first_timetable_spec() is Some),
            r matches Some(t) ==> Some(*t) == self.first_timetable_spec(),
    {
        if self.status_error_message.is_some() {
            None
        } else if self.timetable.routes.len() > 0 {
            Some(&self.timetable.routes[0])
        } else {
            None
        }
    }

    /// The names occurring among the schedules of a timetable.
    pub open spec fn schedule_name_set(t: TimeTable) -> Set<Seq<char>> {
        Set::new(
            |n: Seq<char>|
                exists|j: int|
                    0 <= j < t.schedules@.len() && (#[trigger] t.schedules@[j]).name@ == n,
        )
    }

    /// The distinct schedule names of the first timetable variant, empty
    /// when the response is unusable.
    pub fn schedule_names(&self) -> (r: Vec<String>)
        ensures
            r@.map_values(|s: String| s@).no_duplicates(),
            ({
                let names = r@.map_values(|s: String| s@).to_set();
                match self.first_timetable_spec() {
                    Some(t) => names == TimeTableResponse::schedule_name_set(t),
                    None => names == Set::<Seq<char>>::empty(),
                }
            }),
    {
        let mut r: Vec<String> = Vec::new();
        let record = self.first_timetable();
        match record {
            None => {
                proof {
                    assert(r@.map_values(|s: String| s@).to_set() =~= Set::<Seq<char>>::empty());
                }
                r
            },
            Some(datum) => {
                let mut j: usize = 0;
                while j < datum.schedules.len()
                    invariant
                        j <= datum.schedules@.len(),
                        Some(*datum) == self.first_timetable_spec(),
                        r@.map_values(|s: String| s@).no_duplicates(),
                        r@.map_values(|s: String| s@).to_set() == Set::new(
                            |n: Seq<char>|
                                exists|k: int|
                                    0 <= k < j && (#[trigger] datum.schedules@[k]).name@ == n,
                        ),
                    decreases datum.schedules@.len() - j,
                {
                    let name = &datum.schedules[j].name;
                    let ghost views0 = r@.map_values(|s: String| s@);
                    let ghost target0 = Set::new(
                        |n: Seq<char>|
                            exists|k: int|
                                0 <= k < j && (#[trigger] datum.schedules@[k]).name@ == n,
                    );
                    let present = contains_string(&r, name.as_str());
                    if !present {
                        r.push(name.clone());
                        proof {
                            let views1 = r@.map_values(|s: String| s@);
                            assert(views1 =~= views0.push(name@));
                            views0.lemma_push_to_set_commute(name@);
                            assert(!views0.contains(name@));
                            assert forall|x: int, y: int|
                                0 <= x < y < views1.len() implies views1[x] != views1[y] by {
                                if y == views1.len() - 1 {
                                    assert(views1[x] == views0[x]);
                                    assert(views0.contains(views0[x]));
                                }
                            }
                            assert(views1.no_duplicates());
                        }
                    }
                    proof {
                        let views = r@.map_values(|s: String| s@);
                        let target1 = Set::new(
                            |n: Seq<char>|
                                exists|k: int|
                                    0 <= k < j + 1 && (#[trigger] datum.schedules@[k]).name@ == n,
                        );
                        assert forall|n: Seq<char>| target1.contains(n) implies views.to_set(
                        ).contains(n) by {
                            let k = choose|k: int|
                                0 <= k < j + 1 && (#[trigger] datum.schedules@[k]).name@ == n;
                            if k < j {
                                assert(target0.contains(n));
                                assert(views0.to_set().contains(n));
                            } else {
                                assert(n == name@);
                                if present {
                                    assert(views0.contains(name@));
                                } else {
                                    assert(views.to_set() == views0.to_set().insert(name@));
                                }
                            }
                        }
                        assert forall|n: Seq<char>| views.to_set().contains(n) implies target1.contains(
                            n,
                        ) by {
                            if present {
                                assert(views0.to_set().contains(n));
                                assert(target0.contains(n));
                                let k = choose|k: int|
                                    0 <= k < j && (#[trigger] datum.schedules@[k]).name@ == n;
                                assert(0 <= k < j + 1 && datum.schedules@[k].name@ == n);
                            } else {
                                if views0.to_set().contains(n) {
                                    assert(target0.contains(n));
                                    let k = choose|k: int|
                                        0 <= k < j && (#[trigger] datum.schedules@[k]).name@ == n;
                                    assert(0 <= k < j + 1 && datum.schedules@[k].name@ == n);
                                } else {
                                    assert(n == name@);
                                    assert(datum.schedules@[j as int].name@ == n);
                                }
                            }
                        }
                        assert(views.to_set() =~= target1);
                    }
                    j = j + 1;
                }
                proof {
                    assert(r@.map_values(|s: String| s@).to_set()
                        =~= TimeTableResponse::schedule_name_set(*datum));
                }
                r
            },
        }
    }
}

/// Whether `v` holds a string whose contents equal `s`.
pub fn contains_string(v: &Vec<String>, s: &str) -> (r: bool)
    ensures
        r == v@.map_values(|t: String| t@).contains(s@),
{
    let mut i: usize = 0;
    while i < v.len()
        invariant
            i <= v@.len(),
            forall|k: int| 0 <= k < i ==> (#[trigger] v@[k])@ != s@,
        decreases v@.len() - i,
    {
        if str_eq(v[i].as_str(), s) {
            proof {
                assert(v@.map_values(|t: String| t@)[i as int] == s@);
            }
            return true;
        }
        i = i + 1;
    }
    proof {
        if v@.map_values(|t: String| t@).contains(s@) {
            let views = v@.map_values(|t: String| t@);
            let k = choose|k: int| 0 <= k < views.len() && #[trigger] views[k] == s@;
            assert(v@[k]@ == s@);
        }
    }
    false
}

} // verus!

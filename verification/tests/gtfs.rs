use tfl_gtfs::gtfs::{
    build_gtfs, calendar_rows, feed_files, route_section_id, route_type, time_offset_fmt,
    trip_id, trips_rows,
};
use tfl_gtfs::line::{
    Interval, KnownJourney, Line, RouteSection, RoutesTimeTables, Schedule, Station,
    StationInterval, Stop, TimeTable, TimeTableResponse,
};

fn journey(hour: &str, minute: &str) -> KnownJourney {
    KnownJourney { interval_id: 1, hour: hour.to_owned(), minute: minute.to_owned() }
}

fn timetable(journeys: Vec<KnownJourney>) -> TimeTableResponse {
    TimeTableResponse {
        stations: Vec::new(),
        stops: Vec::new(),
        timetable: RoutesTimeTables {
            routes: vec![
                TimeTable {
                    station_intervals: vec![
                        StationInterval {
                            id: 1,
                            intervals: vec![
                                Interval { stop_id: "B".to_owned(), time_to_arrival: 5 },
                            ],
                        },
                    ],
                    schedules: vec![
                        Schedule { name: "Daily".to_owned(), known_journeys: journeys },
                    ],
                },
            ],
        },
        status_error_message: None,
        line_id: "test".to_owned(),
    }
}

fn section(ttr: Option<TimeTableResponse>) -> RouteSection {
    RouteSection {
        name: "A to B".to_owned(),
        direction: "inbound".to_owned(),
        originator: "A".to_owned(),
        destination: "B".to_owned(),
        timetable: ttr,
    }
}

fn stop(id: &str, lat: i64, lon: i64) -> Stop {
    Stop {
        naptan_id: id.to_owned(),
        common_name: id.to_owned(),
        lat,
        lon,
        children: Vec::new(),
    }
}

fn synthetic_line(sections: Vec<RouteSection>) -> Line {
    Line {
        id: "test".to_owned(),
        name: "Test Line".to_owned(),
        mode_name: "tube".to_owned(),
        color: "0019A8".to_owned(),
        route_sections: sections,
        stops: Some(vec![stop("A", 515000, -1000), stop("B", 515100, -1200)]),
        inbound_sequence: Some(tfl_gtfs::line::Sequence {
            line_strings: vec!["[[-0.1,51.5],[-0.12,51.51]]".to_owned()],
        }),
        outbound_sequence: None,
    }
}

#[test]
fn time_arithmetic_crosses_midnight_without_wrap() {
    let j = journey("23", "50");
    assert_eq!(time_offset_fmt(&j, 25).unwrap(), "24:15:00");
    assert_eq!(time_offset_fmt(&j, 0).unwrap(), "23:50:00");
    assert_eq!(time_offset_fmt(&journey("9", "5"), 0).unwrap(), "09:05:00");
    assert!(time_offset_fmt(&journey("", "50"), 0).is_none());
    assert!(time_offset_fmt(&journey("2x", "50"), 0).is_none());
}

#[test]
fn trip_ids_are_deterministic_and_distinct() {
    let line = synthetic_line(vec![section(None)]);
    let sec = section(None);
    let sched = Schedule { name: "Daily".to_owned(), known_journeys: Vec::new() };
    let j1 = journey("23", "50");
    let id_a = trip_id(&line, &sec, &sched, &j1).unwrap();
    let id_b = trip_id(&line, &sec, &sched, &journey("23", "50")).unwrap();
    assert_eq!(id_a, id_b);
    // the identifier is a digest, not the key itself
    assert_eq!(id_a.len(), 32);
    assert!(id_a.chars().all(|c| c.is_ascii_hexdigit()));
    // a different departure minute gives a different identifier
    let id_c = trip_id(&line, &sec, &sched, &journey("23", "51")).unwrap();
    assert_ne!(id_a, id_c);
    // so does a different departure hour
    let id_d = trip_id(&line, &sec, &sched, &journey("22", "50")).unwrap();
    assert_ne!(id_a, id_d);
    // an unparsable departure time yields no trip
    assert!(trip_id(&line, &sec, &sched, &journey("23", "x")).is_none());
}

#[test]
fn duplicate_sections_get_one_pass() {
    let line = synthetic_line(vec![
        section(Some(timetable(vec![journey("10", "0")]))),
        section(Some(timetable(vec![journey("10", "0")]))),
    ]);
    let rows = trips_rows(&vec![line]);
    assert_eq!(rows.len(), 1);
}

#[test]
fn section_id_concatenates_fields() {
    let line = synthetic_line(Vec::new());
    let sec = section(None);
    assert_eq!(route_section_id(&line, &sec), "test A to B");
}

#[test]
fn mode_name_maps_to_route_type() {
    assert_eq!(route_type("tube"), "1");
    assert_eq!(route_type("dlr"), "0");
    assert_eq!(route_type("tram"), "0");
    assert_eq!(route_type("national-rail"), "2");
    assert_eq!(route_type("bus"), "3");
    assert_eq!(route_type("river-bus"), "4");
    assert_eq!(route_type("cable-car"), "5");
    assert_eq!(route_type("spaceship"), "");
}

#[test]
fn calendar_is_static_reference_data() {
    let rows = calendar_rows();
    assert_eq!(rows.len(), 33);
    assert_eq!(rows[22][0], "Daily");
    assert_eq!(rows[22][1], "1");
    assert_eq!(rows[22][8], "20151031");
    assert_eq!(rows[22][9], "20161031");
}

#[test]
fn end_to_end_synthetic_feed() {
    let line = synthetic_line(vec![section(Some(timetable(vec![journey("10", "0")])))]);
    let feed = build_gtfs(&vec![line]);
    assert_eq!(feed.agency.len(), 1);
    assert_eq!(feed.routes.len(), 1);
    assert_eq!(feed.routes[0], vec!["test", "tfl", "0019A8", "Test Line", "", "1"]);
    assert_eq!(feed.stops.len(), 2);
    assert_eq!(feed.stops[0], vec!["A", "A", "51.5", "-0.1"]);
    // one trip
    assert_eq!(feed.trips.len(), 1);
    assert_eq!(feed.trips[0][0], "test");
    assert_eq!(feed.trips[0][1], "Daily");
    assert_eq!(feed.trips[0][3], "1");
    assert_eq!(feed.trips[0][4], "test A to B");
    // origin departure plus one interval stop
    assert_eq!(feed.stop_times.len(), 2);
    assert_eq!(feed.stop_times[0][1], "A");
    assert_eq!(feed.stop_times[0][2], "1");
    assert_eq!(feed.stop_times[0][3], "10:00:00");
    assert_eq!(feed.stop_times[1][1], "B");
    assert_eq!(feed.stop_times[1][2], "2");
    assert_eq!(feed.stop_times[1][3], "10:05:00");
    // the shape has exactly the two ordered geometry points
    assert_eq!(feed.shapes.len(), 2);
    assert_eq!(feed.shapes[0], vec!["test A to B", "51.5", "-0.1", "0"]);
    assert_eq!(feed.shapes[1], vec!["test A to B", "51.51", "-0.12", "1"]);
}

#[test]
fn feed_files_are_csv_encoded() {
    let feed = build_gtfs(&Vec::new());
    let files = feed_files(&feed);
    assert_eq!(files.len(), 7);
    assert_eq!(files[0].0, "agency.txt");
    assert_eq!(
        files[0].1,
        "agency_id,agency_name,agency_url,agency_timezone\n\
         tfl,Transport For London,https://tfl.gov.uk,Europe/London\n"
    );
    assert_eq!(files[1].0, "routes.txt");
    assert_eq!(files[6].0, "shapes.txt");
    // a field holding the separator is quoted by the encoder
    let line = synthetic_line(Vec::new());
    let mut named = line;
    named.name = "Hammersmith, City".to_owned();
    let feed2 = build_gtfs(&vec![named]);
    let files2 = feed_files(&feed2);
    assert!(files2[1].1.contains("\"Hammersmith, City\""));
}

#[test]
fn error_timetable_yields_no_trips() {
    let mut ttr = timetable(vec![journey("10", "0")]);
    ttr.status_error_message = Some("no such timetable".to_owned());
    let line = synthetic_line(vec![section(Some(ttr))]);
    let rows = trips_rows(&vec![line]);
    assert_eq!(rows.len(), 0);
}

#[test]
fn missing_interval_skips_journey_stop_times() {
    let mut ttr = timetable(vec![journey("10", "0")]);
    ttr.timetable.routes[0].station_intervals[0].id = 9;
    let line = synthetic_line(vec![section(Some(ttr))]);
    let feed = build_gtfs(&vec![line]);
    // the journey has no matching interval pattern: no stop times at all,
    // but the trip row itself is still emitted
    assert_eq!(feed.stop_times.len(), 0);
    assert_eq!(feed.trips.len(), 1);
}

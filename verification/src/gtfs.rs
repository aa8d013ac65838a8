//! The GTFS assembler: maps transit-line records into the seven GTFS
//! tables with deterministic identifiers and deduplication.
//!
//! Each table is built as a list of rows (lists of field strings); the
//! row contents are pinned exactly by spec functions over the input
//! records.  Encoding a row as a CSV line is delegated to the csv crate
//! behind a trusted wrapper; trip identifiers are MD5 digests of a
//! deterministic key string, computed by the crypto crate behind a
//! trusted wrapper.

use vstd::prelude::*;
use vstd::string::StringExecFns;

use crypto::digest::Digest;
use crypto::md5::Md5;

use crate::geometry::Path;
use crate::graph::RouteGraph;
use crate::line::{KnownJourney, Line, RouteSection, Schedule};
use crate::strutil::{
    all_digits, dec_str, dec_val, pad2_str, str_eq, parse_u64, u128_to_dec, u64_to_dec, u64_to_pad2,
};

verus! {

/// One table row at the specification level: a list of field contents.
pub type RowS = Seq<Seq<char>>;

/// The field contents of a row.
pub open spec fn row_view(r: Vec<String>) -> RowS {
    r@.map_values(|s: String| s@)
}

/// The contents of a table: its rows' field contents.
pub open spec fn table_view(t: Seq<Vec<String>>) -> Seq<RowS> {
    t.map_values(|r: Vec<String>| row_view(r))
}

/// The MD5 digest of a character sequence, as lowercase hex.
pub uninterp spec fn md5_hex_of(s: Seq<char>) -> Seq<char>;

/// Relies on the crypto crate's `Md5` digest: the hex digest is a
/// function of the input characters alone.
#[verifier::external_body]
fn md5_hex(s: &str) -> (r: String)
    ensures
        r@ == md5_hex_of(s@),
{
    let mut hasher = Md5::new();
    hasher.input_str(s);
    hasher.result_str()
}

/// The CSV encoding of one record, terminator included.
pub uninterp spec fn csv_line_of(fields: RowS) -> Seq<char>;

/// Relies on the csv crate's `Writer`: encoding one record (quoting
/// where needed, with a trailing line terminator) is a function of the
/// field contents alone.
#[verifier::external_body]
fn csv_record_line(fields: &Vec<String>) -> (r: String)
    ensures
        r@ == csv_line_of(row_view(*fields)),
{
    let mut wtr = csv::Writer::from_writer(Vec::new());
    let _ = wtr.write_record(fields);
    match wtr.into_inner() {
        Ok(bytes) => String::from_utf8(bytes).unwrap_or_default(),
        Err(_) => String::new(),
    }
}

/// The CSV encoding of a whole table: one encoded line per row.
pub open spec fn table_csv(rows: Seq<RowS>) -> Seq<char>
    decreases rows.len(),
{
    if rows.len() == 0 {
        Seq::empty()
    } else {
        table_csv(rows.drop_last()) + csv_line_of(rows.last())
    }
}

/// Encodes a table (headers first, then data rows) as CSV text.
pub fn encode_table(header: &Vec<String>, rows: &Vec<Vec<String>>) -> (r: String)
    ensures
        r@ == table_csv(seq![row_view(*header)] + table_view(rows@)),
{
    let mut out = csv_record_line(header);
    let ghost whole = seq![row_view(*header)] + table_view(rows@);
    proof {
        assert(whole.take(1).drop_last() =~= Seq::<RowS>::empty());
        assert(whole.take(1).last() == row_view(*header));
        assert(table_csv(Seq::<RowS>::empty()) == Seq::<char>::empty());
        assert(table_csv(whole.take(1)) == table_csv(Seq::<RowS>::empty()) + csv_line_of(
            row_view(*header),
        ));
        assert(out@ =~= table_csv(whole.take(1)));
    }
    let mut i: usize = 0;
    while i < rows.len()
        invariant
            i <= rows@.len(),
            whole == seq![row_view(*header)] + table_view(rows@),
            whole.len() == 1 + rows@.len(),
            out@ == table_csv(whole.take(i as int + 1)),
        decreases rows@.len() - i,
    {
        let line = csv_record_line(&rows[i]);
        out.append(line.as_str());
        proof {
            assert(whole.take(i as int + 2).drop_last() =~= whole.take(i as int + 1));
            assert(whole.take(i as int + 2).last() == table_view(rows@)[i as int]);
        }
        i = i + 1;
    }
    proof {
        assert(whole.take(whole.len() as int) =~= whole);
    }
    out
}

/// The fixed agency record.
pub open spec fn agency_spec() -> Seq<RowS> {
    seq![
        seq![
            "tfl"@,
            "Transport For London"@,
            "https://tfl.gov.uk"@,
            "Europe/London"@,
        ],
    ]
}

/// The header of `agency.txt`.
pub fn agency_header() -> (r: Vec<String>)
    ensures
        row_view(r) == seq!["agency_id"@, "agency_name"@, "agency_url"@, "agency_timezone"@],
{
    let mut r: Vec<String> = Vec::new();
    r.push("agency_id".to_owned());
    r.push("agency_name".to_owned());
    r.push("agency_url".to_owned());
    r.push("agency_timezone".to_owned());
    proof {
        assert(row_view(r) =~= seq![
            "agency_id"@,
            "agency_name"@,
            "agency_url"@,
            "agency_timezone"@,
        ]);
    }
    r
}

/// The single data row of `agency.txt`.
pub fn agency_rows() -> (r: Vec<Vec<String>>)
    ensures
        table_view(r@) == agency_spec(),
{
    let mut row: Vec<String> = Vec::new();
    row.push("tfl".to_owned());
    row.push("Transport For London".to_owned());
    row.push("https://tfl.gov.uk".to_owned());
    row.push("Europe/London".to_owned());
    let ghost rv = row_view(row);
    let mut r: Vec<Vec<String>> = Vec::new();
    r.push(row);
    proof {
        assert(rv =~= agency_spec()[0]);
        assert(table_view(r@) =~= agency_spec());
    }
    r
}

/// The GTFS route type for a mode name.
pub open spec fn route_type_spec(mode: Seq<char>) -> Seq<char> {
    if mode == "dlr"@ || mode == "tram"@ {
        "0"@
    } else if mode == "tube"@ || mode == "overground"@ {
        "1"@
    } else if mode == "national-rail"@ || mode == "tflrail"@ {
        "2"@
    } else if mode == "bus"@ {
        "3"@
    } else if mode == "river-tour"@ || mode == "river-bus"@ {
        "4"@
    } else if mode == "cable-car"@ {
        "5"@
    } else {
        ""@
    }
}

/// Derives the GTFS route type from a line's mode name; an unmapped mode
/// yields the empty type.
pub fn route_type(mode: &str) -> (r: &'static str)
    ensures
        r@ == route_type_spec(mode@),
{
    if str_eq(mode, "dlr") || str_eq(mode, "tram") {
        "0"
    } else if str_eq(mode, "tube") || str_eq(mode, "overground") {
        "1"
    } else if str_eq(mode, "national-rail") || str_eq(mode, "tflrail") {
        "2"
    } else if str_eq(mode, "bus") {
        "3"
    } else if str_eq(mode, "river-tour") || str_eq(mode, "river-bus") {
        "4"
    } else if str_eq(mode, "cable-car") {
        "5"
    } else {
        ""
    }
}

/// The route record of one line.
pub open spec fn route_row_spec(l: Line) -> RowS {
    seq![l.id@, "tfl"@, l.color@, l.name@, ""@, route_type_spec(l.mode_name@)]
}

/// The header of `routes.txt`.
pub fn routes_header() -> (r: Vec<String>)
    ensures
        row_view(r) == seq![
            "route_id"@,
            "agency_id"@,
            "route_color"@,
            "route_short_name"@,
            "route_long_name"@,
            "route_type"@,
        ],
{
    let mut r: Vec<String> = Vec::new();
    r.push("route_id".to_owned());
    r.push("agency_id".to_owned());
    r.push("route_color".to_owned());
    r.push("route_short_name".to_owned());
    r.push("route_long_name".to_owned());
    r.push("route_type".to_owned());
    proof {
        assert(row_view(r) =~= seq![
            "route_id"@,
            "agency_id"@,
            "route_color"@,
            "route_short_name"@,
            "route_long_name"@,
            "route_type"@,
        ]);
    }
    r
}

/// One route record per line, in order.
pub fn routes_rows(lines: &Vec<Line>) -> (r: Vec<Vec<String>>)
    ensures
        table_view(r@) == lines@.map_values(|l: Line| route_row_spec(l)),
{
    let mut r: Vec<Vec<String>> = Vec::new();
    let mut i: usize = 0;
    while i < lines.len()
        invariant
            i <= lines@.len(),
            table_view(r@) == lines@.take(i as int).map_values(|l: Line| route_row_spec(l)),
        decreases lines@.len() - i,
    {
        let line = &lines[i];
        let mut row: Vec<String> = Vec::new();
        row.push(line.id.clone());
        row.push("tfl".to_owned());
        row.push(line.color.clone());
        row.push(line.name.clone());
        row.push("".to_owned());
        row.push(route_type(line.mode_name.as_str()).to_owned());
        proof {
            assert(row_view(row) =~= route_row_spec(lines@[i as int]));
        }
        let ghost r0 = r@;
        r.push(row);
        proof {
            let f = |l: Line| route_row_spec(l);
            assert(r0.len() == i as int) by {
                assert(table_view(r0).len() == i as int);
            }
            assert forall|k: int| 0 <= k < i + 1 implies table_view(r@)[k] == lines@.take(
                i as int + 1,
            ).map_values(f)[k] by {
                if k < i {
                    assert(table_view(r0)[k] == lines@.take(i as int).map_values(f)[k]);
                    assert(r@[k] == r0[k]);
                    assert(lines@.take(i as int)[k] == lines@.take(i as int + 1)[k]);
                } else {
                    assert(r@[k] == row);
                }
            }
            assert(table_view(r@) =~= lines@.take(i as int + 1).map_values(f));
        }
        i = i + 1;
    }
    proof {
        assert(lines@.take(lines@.len() as int) =~= lines@);
    }
    r
}

/// The shape and trip grouping identifier of a route section:
/// `line id + " " + origin + " to " + destination`.
pub open spec fn route_section_id_spec(l: Line, sec: RouteSection) -> Seq<char> {
    l.id@ + " "@ + sec.originator@ + " to "@ + sec.destination@
}

/// Builds the grouping identifier of a route section.
pub fn route_section_id(line: &Line, section: &RouteSection) -> (r: String)
    ensures
        r@ == route_section_id_spec(*line, *section),
{
    let mut r = line.id.clone();
    r.append(" ");
    r.append(section.originator.as_str());
    r.append(" to ");
    r.append(section.destination.as_str());
    r
}

/// The `HH:MM:SS` rendering of an hour and minute, with two-digit
/// zero-padded fields; the hour may exceed 23.
pub open spec fn hm_fmt(h: int, m: int) -> Seq<char> {
    pad2_str(h) + seq![':'] + pad2_str(m) + seq![':', '0', '0']
}

/// Whether a journey's departure hour and minute are well-formed decimal
/// strings whose values fit in a machine word.
pub open spec fn journey_dep_ok(j: KnownJourney) -> bool {
    &&& j.hour@.len() > 0
    &&& all_digits(j.hour@)
    &&& dec_val(j.hour@) <= u64::MAX
    &&& j.minute@.len() > 0
    &&& all_digits(j.minute@)
    &&& dec_val(j.minute@) <= u64::MAX
}

/// The formatted time of a journey's departure plus `off` whole minutes:
/// the minute offset is added to the departure minute, the hour advances
/// by the carry, and no modulo-24 wrap is applied.
pub open spec fn time_fmt_spec(j: KnownJourney, off: int) -> Option<Seq<char>> {
    if journey_dep_ok(j) {
        let h = dec_val(j.hour@);
        let m = dec_val(j.minute@);
        if m + off <= u64::MAX && h + (m + off) / 60 <= u64::MAX {
            Some(hm_fmt(h + (m + off) / 60, (m + off) % 60))
        } else {
            None
        }
    } else {
        None
    }
}

/// Formats a journey's departure time shifted by `offset` whole minutes.
/// Fails exactly when the journey's hour or minute does not parse, or the
/// shifted time does not fit in a machine word.
pub fn time_offset_fmt(journey: &KnownJourney, offset: u64) -> (r: Option<String>)
    ensures
        (r is Some) == (time_fmt_spec(*journey, offset as int) is Some),
        r matches Some(t) ==> Some(t@) == time_fmt_spec(*journey, offset as int),
{
    let dep_hour = match parse_u64(journey.hour.as_str()) {
        None => {
            return None;
        },
        Some(h) => h,
    };
    let dep_minute = match parse_u64(journey.minute.as_str()) {
        None => {
            return None;
        },
        Some(m) => m,
    };
    proof {
        crate::strutil::lemma_dec_val_nonneg(journey.hour@);
        crate::strutil::lemma_dec_val_nonneg(journey.minute@);
    }
    if dep_minute > u64::MAX - offset {
        return None;
    }
    let minute_offset = dep_minute + offset;
    if dep_hour > u64::MAX - minute_offset / 60 {
        return None;
    }
    let hour = dep_hour + minute_offset / 60;
    let minute = minute_offset % 60;
    let mut out = u64_to_pad2(hour);
    out.append(":");
    let ms = u64_to_pad2(minute);
    out.append(ms.as_str());
    out.append(":00");
    proof {
        reveal_strlit(":");
        reveal_strlit(":00");
        assert(out@ =~= hm_fmt(hour as int, minute as int));
    }
    Some(out)
}

/// The deterministic key a trip identifier is derived from:
/// the concatenation of line id, origin, destination, schedule name and
/// formatted departure time.
pub open spec fn trip_key_spec(
    l: Line,
    sec: RouteSection,
    sched: Schedule,
    j: KnownJourney,
) -> Option<Seq<char>> {
    match time_fmt_spec(j, 0) {
        Some(t) => Some(l.id@ + sec.originator@ + sec.destination@ + sched.name@ + t),
        None => None,
    }
}

/// The trip identifier of a journey: the MD5 hex digest of its key.
/// The same line, section, schedule and journey always yield the same
/// identifier; fails exactly when the departure time does not parse.
pub fn trip_id(
    line: &Line,
    section: &RouteSection,
    schedule: &Schedule,
    journey: &KnownJourney,
) -> (r: Option<String>)
    ensures
        (r is Some) == (trip_key_spec(*line, *section, *schedule, *journey) is Some),
        r matches Some(id) ==> id@ == md5_hex_of(
            trip_key_spec(*line, *section, *schedule, *journey)->Some_0,
        ),
{
    let tfmt = match time_offset_fmt(journey, 0) {
        None => {
            return None;
        },
        Some(t) => t,
    };
    let mut input = line.id.clone();
    input.append(section.originator.as_str());
    input.append(section.destination.as_str());
    input.append(schedule.name.as_str());
    input.append(tfmt.as_str());
    Some(md5_hex(input.as_str()))
}

/// The fixed service-day patterns of `calendar.txt`: static reference
/// data covering one full year window, not derived from the input.
pub open spec fn calendar_spec() -> Seq<RowS> {
    seq![
        seq!["School Monday"@, "1"@, "0"@, "0"@, "0"@, "0"@, "0"@, "0"@, "20151031"@, "20161031"@],
        seq!["Sunday Night/Monday Morning"@, "1"@, "0"@, "0"@, "0"@, "0"@, "0"@, "1"@, "20151031"@, "20161031"@],
        seq!["School Monday, Tuesday, Thursday & Friday"@, "1"@, "1"@, "0"@, "1"@, "1"@, "0"@, "0"@, "20151031"@, "20161031"@],
        seq!["Tuesday"@, "0"@, "1"@, "0"@, "0"@, "0"@, "0"@, "0"@, "20151031"@, "20161031"@],
        seq!["Monday - Thursday"@, "1"@, "1"@, "1"@, "1"@, "0"@, "0"@, "0"@, "20151031"@, "20161031"@],
        seq!["Saturday"@, "0"@, "0"@, "0"@, "0"@, "0"@, "0"@, "1"@, "20151031"@, "20161031"@],
        seq!["Saturday and Sunday"@, "0"@, "0"@, "0"@, "0"@, "0"@, "1"@, "1"@, "20151031"@, "20161031"@],
        seq!["Sunday"@, "0"@, "0"@, "0"@, "0"@, "0"@, "0"@, "1"@, "20151031"@, "20161031"@],
        seq!["School Tuesday"@, "0"@, "1"@, "0"@, "0"@, "0"@, "0"@, "0"@, "20151031"@, "20161031"@],
        seq!["Saturday Night/Sunday Morning"@, "0"@, "0"@, "0"@, "0"@, "0"@, "1"@, "1"@, "20151031"@, "20161031"@],
        seq!["Mo-Fr Night/Tu-Sat Morning"@, "1"@, "1"@, "1"@, "1"@, "1"@, "1"@, "0"@, "20151031"@, "20161031"@],
        seq!["Monday to Thursday"@, "1"@, "1"@, "1"@, "1"@, "0"@, "0"@, "0"@, "20151031"@, "20161031"@],
        seq!["Mo-Th Nights/Tu-Fr Morning"@, "1"@, "1"@, "1"@, "1"@, "1"@, "0"@, "0"@, "20151031"@, "20161031"@],
        seq!["Saturday (also Good Friday)"@, "0"@, "0"@, "0"@, "0"@, "0"@, "1"@, "0"@, "20151031"@, "20161031"@],
        seq!["Mon-Th Schooldays"@, "1"@, "1"@, "1"@, "1"@, "0"@, "0"@, "0"@, "20151031"@, "20161031"@],
        seq!["Saturdays and Public Holidays"@, "0"@, "0"@, "0"@, "0"@, "0"@, "1"@, "0"@, "20151031"@, "20161031"@],
        seq!["Friday Night/Saturday Morning"@, "0"@, "0"@, "0"@, "0"@, "1"@, "1"@, "0"@, "20151031"@, "20161031"@],
        seq!["Friday"@, "0"@, "0"@, "0"@, "0"@, "1"@, "0"@, "0"@, "20151031"@, "20161031"@],
        seq!["Thursdays"@, "0"@, "0"@, "0"@, "1"@, "0"@, "0"@, "0"@, "20151031"@, "20161031"@],
        seq!["Sunday night/Monday morning - Thursday night/Friday morning"@, "1"@, "1"@, "1"@, "1"@, "1"@, "0"@, "1"@, "20151031"@, "20161031"@],
        seq!["School Thursday"@, "0"@, "0"@, "0"@, "1"@, "0"@, "0"@, "0"@, "20151031"@, "20161031"@],
        seq!["School Friday"@, "0"@, "0"@, "0"@, "0"@, "1"@, "0"@, "0"@, "20151031"@, "20161031"@],
        seq!["Daily"@, "1"@, "1"@, "1"@, "1"@, "1"@, "1"@, "1"@, "20151031"@, "20161031"@],
        seq!["Tuesday, Wednesday & Thursday"@, "0"@, "1"@, "1"@, "1"@, "0"@, "0"@, "0"@, "20151031"@, "20161031"@],
        seq!["Mon-Fri Schooldays"@, "1"@, "1"@, "1"@, "1"@, "1"@, "0"@, "0"@, "20151031"@, "20161031"@],
        seq!["Wednesday"@, "0"@, "0"@, "1"@, "0"@, "0"@, "0"@, "0"@, "20151031"@, "20161031"@],
        seq!["Monday, Tuesday and Thursday"@, "1"@, "1"@, "0"@, "1"@, "0"@, "0"@, "0"@, "20151031"@, "20161031"@],
        seq!["Wednesdays"@, "0"@, "0"@, "1"@, "0"@, "0"@, "0"@, "0"@, "20151031"@, "20161031"@],
        seq!["Monday to Friday"@, "1"@, "1"@, "1"@, "1"@, "1"@, "0"@, "0"@, "20151031"@, "20161031"@],
        seq!["Monday"@, "1"@, "0"@, "0"@, "0"@, "0"@, "0"@, "0"@, "20151031"@, "20161031"@],
        seq!["Sunday and other Public Holidays"@, "0"@, "0"@, "0"@, "0"@, "0"@, "0"@, "1"@, "20151031"@, "20161031"@],
        seq!["School Wednesday"@, "0"@, "0"@, "1"@, "0"@, "0"@, "0"@, "0"@, "20151031"@, "20161031"@],
        seq!["Monday - Friday"@, "1"@, "1"@, "1"@, "1"@, "1"@, "0"@, "0"@, "20151031"@, "20161031"@],
    ]
}

/// Builds one calendar row.
fn cal_row(
    a: &str,
    b: &str,
    c: &str,
    d: &str,
    e: &str,
    f: &str,
    g: &str,
    h: &str,
    i: &str,
    j: &str,
) -> (r: Vec<String>)
    ensures
        row_view(r) == seq![a@, b@, c@, d@, e@, f@, g@, h@, i@, j@],
{
    let mut r: Vec<String> = Vec::new();
    r.push(a.to_owned());
    r.push(b.to_owned());
    r.push(c.to_owned());
    r.push(d.to_owned());
    r.push(e.to_owned());
    r.push(f.to_owned());
    r.push(g.to_owned());
    r.push(h.to_owned());
    r.push(i.to_owned());
    r.push(j.to_owned());
    proof {
        assert(row_view(r) =~= seq![a@, b@, c@, d@, e@, f@, g@, h@, i@, j@]);
    }
    r
}

/// The header of `calendar.txt`.
pub fn calendar_header() -> (r: Vec<String>)
    ensures
        row_view(r) == seq![
            "service_id"@,
            "monday"@,
            "tuesday"@,
            "wednesday"@,
            "thursday"@,
            "friday"@,
            "saturday"@,
            "sunday"@,
            "start_date"@,
            "end_date"@,
        ],
{
    let r = cal_row(
        "service_id",
        "monday",
        "tuesday",
        "wednesday",
        "thursday",
        "friday",
        "saturday",
        "sunday",
        "start_date",
        "end_date",
    );
    r
}

/// The data rows of `calendar.txt`.
pub fn calendar_rows() -> (r: Vec<Vec<String>>)
    ensures
        table_view(r@) == calendar_spec(),
{
    let mut r: Vec<Vec<String>> = Vec::new();
    r.push(cal_row("School Monday", "1", "0", "0", "0", "0", "0", "0", "20151031", "20161031"));
    proof {
        assert(table_view(r@) =~= calendar_spec().take(1));
    }
    r.push(cal_row("Sunday Night/Monday Morning", "1", "0", "0", "0", "0", "0", "1", "20151031", "20161031"));
    proof {
        assert(table_view(r@) =~= calendar_spec().take(2));
    }
    r.push(cal_row("School Monday, Tuesday, Thursday & Friday", "1", "1", "0", "1", "1", "0", "0", "20151031", "20161031"));
    proof {
        assert(table_view(r@) =~= calendar_spec().take(3));
    }
    r.push(cal_row("Tuesday", "0", "1", "0", "0", "0", "0", "0", "20151031", "20161031"));
    proof {
        assert(table_view(r@) =~= calendar_spec().take(4));
    }
    r.push(cal_row("Monday - Thursday", "1", "1", "1", "1", "0", "0", "0", "20151031", "20161031"));
    proof {
        assert(table_view(r@) =~= calendar_spec().take(5));
    }
    r.push(cal_row("Saturday", "0", "0", "0", "0", "0", "0", "1", "20151031", "20161031"));
    proof {
        assert(table_view(r@) =~= calendar_spec().take(6));
    }
    r.push(cal_row("Saturday and Sunday", "0", "0", "0", "0", "0", "1", "1", "20151031", "20161031"));
    proof {
        assert(table_view(r@) =~= calendar_spec().take(7));
    }
    r.push(cal_row("Sunday", "0", "0", "0", "0", "0", "0", "1", "20151031", "20161031"));
    proof {
        assert(table_view(r@) =~= calendar_spec().take(8));
    }
    r.push(cal_row("School Tuesday", "0", "1", "0", "0", "0", "0", "0", "20151031", "20161031"));
    proof {
        assert(table_view(r@) =~= calendar_spec().take(9));
    }
    r.push(cal_row("Saturday Night/Sunday Morning", "0", "0", "0", "0", "0", "1", "1", "20151031", "20161031"));
    proof {
        assert(table_view(r@) =~= calendar_spec().take(10));
    }
    r.push(cal_row("Mo-Fr Night/Tu-Sat Morning", "1", "1", "1", "1", "1", "1", "0", "20151031", "20161031"));
    proof {
        assert(table_view(r@) =~= calendar_spec().take(11));
    }
    r.push(cal_row("Monday to Thursday", "1", "1", "1", "1", "0", "0", "0", "20151031", "20161031"));
    proof {
        assert(table_view(r@) =~= calendar_spec().take(12));
    }
    r.push(cal_row("Mo-Th Nights/Tu-Fr Morning", "1", "1", "1", "1", "1", "0", "0", "20151031", "20161031"));
    proof {
        assert(table_view(r@) =~= calendar_spec().take(13));
    }
    r.push(cal_row("Saturday (also Good Friday)", "0", "0", "0", "0", "0", "1", "0", "20151031", "20161031"));
    proof {
        assert(table_view(r@) =~= calendar_spec().take(14));
    }
    r.push(cal_row("Mon-Th Schooldays", "1", "1", "1", "1", "0", "0", "0", "20151031", "20161031"));
    proof {
        assert(table_view(r@) =~= calendar_spec().take(15));
    }
    r.push(cal_row("Saturdays and Public Holidays", "0", "0", "0", "0", "0", "1", "0", "20151031", "20161031"));
    proof {
        assert(table_view(r@) =~= calendar_spec().take(16));
    }
    r.push(cal_row("Friday Night/Saturday Morning", "0", "0", "0", "0", "1", "1", "0", "20151031", "20161031"));
    proof {
        assert(table_view(r@) =~= calendar_spec().take(17));
    }
    r.push(cal_row("Friday", "0", "0", "0", "0", "1", "0", "0", "20151031", "20161031"));
    proof {
        assert(table_view(r@) =~= calendar_spec().take(18));
    }
    r.push(cal_row("Thursdays", "0", "0", "0", "1", "0", "0", "0", "20151031", "20161031"));
    proof {
        assert(table_view(r@) =~= calendar_spec().take(19));
    }
    r.push(cal_row("Sunday night/Monday morning - Thursday night/Friday morning", "1", "1", "1", "1", "1", "0", "1", "20151031", "20161031"));
    proof {
        assert(table_view(r@) =~= calendar_spec().take(20));
    }
    r.push(cal_row("School Thursday", "0", "0", "0", "1", "0", "0", "0", "20151031", "20161031"));
    proof {
        assert(table_view(r@) =~= calendar_spec().take(21));
    }
    r.push(cal_row("School Friday", "0", "0", "0", "0", "1", "0", "0", "20151031", "20161031"));
    proof {
        assert(table_view(r@) =~= calendar_spec().take(22));
    }
    r.push(cal_row("Daily", "1", "1", "1", "1", "1", "1", "1", "20151031", "20161031"));
    proof {
        assert(table_view(r@) =~= calendar_spec().take(23));
    }
    r.push(cal_row("Tuesday, Wednesday & Thursday", "0", "1", "1", "1", "0", "0", "0", "20151031", "20161031"));
    proof {
        assert(table_view(r@) =~= calendar_spec().take(24));
    }
    r.push(cal_row("Mon-Fri Schooldays", "1", "1", "1", "1", "1", "0", "0", "20151031", "20161031"));
    proof {
        assert(table_view(r@) =~= calendar_spec().take(25));
    }
    r.push(cal_row("Wednesday", "0", "0", "1", "0", "0", "0", "0", "20151031", "20161031"));
    proof {
        assert(table_view(r@) =~= calendar_spec().take(26));
    }
    r.push(cal_row("Monday, Tuesday and Thursday", "1", "1", "0", "1", "0", "0", "0", "20151031", "20161031"));
    proof {
        assert(table_view(r@) =~= calendar_spec().take(27));
    }
    r.push(cal_row("Wednesdays", "0", "0", "1", "0", "0", "0", "0", "20151031", "20161031"));
    proof {
        assert(table_view(r@) =~= calendar_spec().take(28));
    }
    r.push(cal_row("Monday to Friday", "1", "1", "1", "1", "1", "0", "0", "20151031", "20161031"));
    proof {
        assert(table_view(r@) =~= calendar_spec().take(29));
    }
    r.push(cal_row("Monday", "1", "0", "0", "0", "0", "0", "0", "20151031", "20161031"));
    proof {
        assert(table_view(r@) =~= calendar_spec().take(30));
    }
    r.push(cal_row("Sunday and other Public Holidays", "0", "0", "0", "0", "0", "0", "1", "20151031", "20161031"));
    proof {
        assert(table_view(r@) =~= calendar_spec().take(31));
    }
    r.push(cal_row("School Wednesday", "0", "0", "1", "0", "0", "0", "0", "20151031", "20161031"));
    proof {
        assert(table_view(r@) =~= calendar_spec().take(32));
    }
    r.push(cal_row("Monday - Friday", "1", "1", "1", "1", "1", "0", "0", "20151031", "20161031"));
    proof {
        assert(table_view(r@) =~= calendar_spec().take(33));
    }
    proof {
        assert(calendar_spec().take(33) =~= calendar_spec());
    }
    r
}

/// A stop record at the specification level.
pub struct SRec {
    pub id: Seq<char>,
    pub name: Seq<char>,
    pub lat: int,
    pub lon: int,
}

/// A flattened stop entry: id, display name, and fixed-point coordinates.
#[derive(Debug)]
pub struct StopRecord {
    pub id: String,
    pub name: String,
    /// Latitude in 1/10,000 degree.
    pub lat: i64,
    /// Longitude in 1/10,000 degree.
    pub lon: i64,
}

/// The specification-level value of a stop entry.
pub open spec fn srec_of(s: StopRecord) -> SRec {
    SRec { id: s.id@, name: s.name@, lat: s.lat as int, lon: s.lon as int }
}

/// The specification-level values of a list of stop entries.
pub open spec fn recs_view(v: Seq<StopRecord>) -> Seq<SRec> {
    v.map_values(|s: StopRecord| srec_of(s))
}

/// The records of one stop and its descendants; every descendant borrows
/// the root stop's coordinates.
pub open spec fn stop_recs(s: crate::line::Stop) -> Seq<SRec>
    decreases s, 0int,
{
    seq![SRec { id: s.naptan_id@, name: s.common_name@, lat: s.lat as int, lon: s.lon as int }]
        + children_recs(s.children@, 0, s.lat, s.lon)
}

/// The records of the descendants listed from index `i`, all at the
/// given coordinates.
pub open spec fn children_recs(cs: Seq<crate::line::Stop>, i: int, lat: i64, lon: i64) -> Seq<SRec>
    decreases cs, cs.len() - i,
{
    if i < 0 || i >= cs.len() {
        Seq::empty()
    } else {
        desc_recs(cs[i], lat, lon) + children_recs(cs, i + 1, lat, lon)
    }
}

/// The records of one descendant stop and its own descendants.
pub open spec fn desc_recs(c: crate::line::Stop, lat: i64, lon: i64) -> Seq<SRec>
    decreases c, 0int,
{
    seq![SRec { id: c.naptan_id@, name: c.common_name@, lat: lat as int, lon: lon as int }]
        + children_recs(c.children@, 0, lat, lon)
}

/// The records of the stations listed from index `i`.
pub open spec fn station_recs(sts: Seq<crate::line::Station>, i: int) -> Seq<SRec>
    decreases sts.len() - i,
{
    if i < 0 || i >= sts.len() {
        Seq::empty()
    } else {
        seq![
            SRec {
                id: sts[i].id@,
                name: sts[i].name@,
                lat: sts[i].lat as int,
                lon: sts[i].lon as int,
            },
        ] + station_recs(sts, i + 1)
    }
}

/// The records of a line's own stop list, from index `i`.
pub open spec fn stops_list_recs(ss: Seq<crate::line::Stop>, i: int) -> Seq<SRec>
    decreases ss, ss.len() - i,
{
    if i < 0 || i >= ss.len() {
        Seq::empty()
    } else {
        stop_recs(ss[i]) + stops_list_recs(ss, i + 1)
    }
}

/// The records referenced by a line's route sections, from index `i`:
/// the stations and stops of each section's timetable response.
pub open spec fn section_recs(secs: Seq<crate::line::RouteSection>, i: int) -> Seq<SRec>
    decreases secs.len() - i,
{
    if i < 0 || i >= secs.len() {
        Seq::empty()
    } else {
        (match secs[i].timetable {
            Some(ttr) => station_recs(ttr.stations@, 0) + station_recs(ttr.stops@, 0),
            None => Seq::empty(),
        }) + section_recs(secs, i + 1)
    }
}

/// The records contributed by one line, in emission order: its own stop
/// list (with descendants), then its sections' timetable references.
pub open spec fn line_recs(l: Line) -> Seq<SRec> {
    (match l.stops {
        Some(ss) => stops_list_recs(ss@, 0),
        None => Seq::empty(),
    }) + section_recs(l.route_sections@, 0)
}

/// All records of a batch of lines, from index `i`.
pub open spec fn flat_recs(lines: Seq<Line>, i: int) -> Seq<SRec>
    decreases lines.len() - i,
{
    if i < 0 || i >= lines.len() {
        Seq::empty()
    } else {
        line_recs(lines[i]) + flat_recs(lines, i + 1)
    }
}

/// First occurrence wins: keeps the first record of each distinct id,
/// scanning from index `i` with `seen` ids already emitted.
pub open spec fn dedup_recs(rs: Seq<SRec>, i: int, seen: Set<Seq<char>>) -> Seq<SRec>
    decreases rs.len() - i,
{
    if i < 0 || i >= rs.len() {
        Seq::empty()
    } else if seen.contains(rs[i].id) {
        dedup_recs(rs, i + 1, seen)
    } else {
        seq![rs[i]] + dedup_recs(rs, i + 1, seen.insert(rs[i].id))
    }
}

/// The stop table of a batch of lines: every record encountered, in
/// order, deduplicated by stop id with the first occurrence winning.
pub open spec fn stops_recs_spec(lines: Seq<Line>) -> Seq<SRec> {
    dedup_recs(flat_recs(lines, 0), 0, Set::empty())
}

/// Appends the record of `s` and all its descendants to `out`.
fn append_stop_recs(s: &crate::line::Stop, out: &mut Vec<StopRecord>)
    ensures
        recs_view(final(out)@) == recs_view(old(out)@) + stop_recs(*s),
    decreases *s, 0int,
{
    let ghost base = out@;
    out.push(
        StopRecord { id: s.naptan_id.clone(), name: s.common_name.clone(), lat: s.lat, lon: s.lon },
    );
    proof {
        assert(recs_view(out@) =~= recs_view(base) + seq![
            SRec {
                id: s.naptan_id@,
                name: s.common_name@,
                lat: s.lat as int,
                lon: s.lon as int,
            },
        ]);
    }
    let mut i: usize = 0;
    while i < s.children.len()
        invariant
            i <= s.children@.len(),
            recs_view(out@) + children_recs(s.children@, i as int, s.lat, s.lon) == recs_view(
                base,
            ) + stop_recs(*s),
        decreases s.children@.len() - i,
    {
        let ghost pre = out@;
        proof {
            assert(decreases_to!(*s, 0int => s.children@[i as int], 0int));
        }
        append_desc_recs(&s.children[i], s.lat, s.lon, out);
        proof {
            assert((recs_view(pre) + desc_recs(s.children@[i as int], s.lat, s.lon))
                + children_recs(s.children@, i as int + 1, s.lat, s.lon) =~= recs_view(pre) + (
            desc_recs(s.children@[i as int], s.lat, s.lon) + children_recs(
                s.children@,
                i as int + 1,
                s.lat,
                s.lon,
            )));
        }
        i = i + 1;
    }
}

/// Appends the record of a descendant stop and its own descendants,
/// all at the root's coordinates.
fn append_desc_recs(c: &crate::line::Stop, lat: i64, lon: i64, out: &mut Vec<StopRecord>)
    ensures
        recs_view(final(out)@) == recs_view(old(out)@) + desc_recs(*c, lat, lon),
    decreases *c, 0int,
{
    let ghost base = out@;
    out.push(StopRecord { id: c.naptan_id.clone(), name: c.common_name.clone(), lat, lon });
    proof {
        assert(recs_view(out@) =~= recs_view(base) + seq![
            SRec { id: c.naptan_id@, name: c.common_name@, lat: lat as int, lon: lon as int },
        ]);
    }
    let mut i: usize = 0;
    while i < c.children.len()
        invariant
            i <= c.children@.len(),
            recs_view(out@) + children_recs(c.children@, i as int, lat, lon) == recs_view(base)
                + desc_recs(*c, lat, lon),
        decreases c.children@.len() - i,
    {
        let ghost pre = out@;
        proof {
            assert(decreases_to!(*c, 0int => c.children@[i as int], 0int));
        }
        append_desc_recs(&c.children[i], lat, lon, out);
        proof {
            assert((recs_view(pre) + desc_recs(c.children@[i as int], lat, lon)) + children_recs(
                c.children@,
                i as int + 1,
                lat,
                lon,
            ) =~= recs_view(pre) + (desc_recs(c.children@[i as int], lat, lon) + children_recs(
                c.children@,
                i as int + 1,
                lat,
                lon,
            )));
        }
        i = i + 1;
    }
}

/// Collects every stop record of a batch of lines, in emission order,
/// without deduplication.
fn collect_flat_recs(lines: &Vec<Line>) -> (r: Vec<StopRecord>)
    ensures
        recs_view(r@) == flat_recs(lines@, 0),
{
    let mut out: Vec<StopRecord> = Vec::new();
    let mut i: usize = 0;
    while i < lines.len()
        invariant
            i <= lines@.len(),
            recs_view(out@) + flat_recs(lines@, i as int) == flat_recs(lines@, 0),
        decreases lines@.len() - i,
    {
        let ghost pre0 = out@;
        let line = &lines[i];
        match &line.stops {
            Some(ss) => {
                let mut k: usize = 0;
                while k < ss.len()
                    invariant
                        k <= ss@.len(),
                        Some(*ss) == lines@[i as int].stops,
                        recs_view(out@) + stops_list_recs(ss@, k as int) == recs_view(pre0)
                            + stops_list_recs(ss@, 0),
                    decreases ss@.len() - k,
                {
                    let ghost pre = out@;
                    append_stop_recs(&ss[k], &mut out);
                    proof {
                        assert((recs_view(pre) + stop_recs(ss@[k as int])) + stops_list_recs(
                            ss@,
                            k as int + 1,
                        ) =~= recs_view(pre) + (stop_recs(ss@[k as int]) + stops_list_recs(
                            ss@,
                            k as int + 1,
                        )));
                    }
                    k = k + 1;
                }
            },
            None => {},
        }
        let ghost mid = out@;
        let mut j: usize = 0;
        while j < line.route_sections.len()
            invariant
                j <= line.route_sections@.len(),
                line == &lines@[i as int],
                recs_view(out@) + section_recs(line.route_sections@, j as int) == recs_view(mid)
                    + section_recs(line.route_sections@, 0),
            decreases line.route_sections@.len() - j,
        {
            let ghost pre = out@;
            let section = &line.route_sections[j];
            match &section.timetable {
                Some(ttr) => {
                    append_station_recs(&ttr.stations, &mut out);
                    append_station_recs(&ttr.stops, &mut out);
                    proof {
                        assert((recs_view(pre) + station_recs(ttr.stations@, 0)) + station_recs(
                            ttr.stops@,
                            0,
                        ) =~= recs_view(pre) + (station_recs(ttr.stations@, 0) + station_recs(
                            ttr.stops@,
                            0,
                        )));
                    }
                },
                None => {},
            }
            proof {
                assert((recs_view(pre) + (match line.route_sections@[j as int].timetable {
                    Some(ttr) => station_recs(ttr.stations@, 0) + station_recs(ttr.stops@, 0),
                    None => Seq::<SRec>::empty(),
                })) + section_recs(line.route_sections@, j as int + 1) =~= recs_view(pre) + ((
                match line.route_sections@[j as int].timetable {
                    Some(ttr) => station_recs(ttr.stations@, 0) + station_recs(ttr.stops@, 0),
                    None => Seq::<SRec>::empty(),
                }) + section_recs(line.route_sections@, j as int + 1)));
                if line.route_sections@[j as int].timetable is None {
                    assert(recs_view(out@) =~= recs_view(pre) + Seq::<SRec>::empty());
                }
            }
            j = j + 1;
        }
        proof {
            assert(recs_view(out@) =~= recs_view(pre0) + line_recs(lines@[i as int]));
            assert((recs_view(pre0) + line_recs(lines@[i as int])) + flat_recs(
                lines@,
                i as int + 1,
            ) =~= recs_view(pre0) + (line_recs(lines@[i as int]) + flat_recs(lines@, i as int + 1)));
        }
        i = i + 1;
    }
    proof {
        assert(recs_view(out@) =~= flat_recs(lines@, 0));
    }
    out
}

/// Appends the records of a station list to `out`.
fn append_station_recs(sts: &Vec<crate::line::Station>, out: &mut Vec<StopRecord>)
    ensures
        recs_view(final(out)@) == recs_view(old(out)@) + station_recs(sts@, 0),
{
    let ghost base = out@;
    let mut i: usize = 0;
    while i < sts.len()
        invariant
            i <= sts@.len(),
            recs_view(out@) + station_recs(sts@, i as int) == recs_view(base) + station_recs(
                sts@,
                0,
            ),
        decreases sts@.len() - i,
    {
        let ghost pre = out@;
        let st = &sts[i];
        out.push(StopRecord { id: st.id.clone(), name: st.name.clone(), lat: st.lat, lon: st.lon });
        proof {
            let r = SRec {
                id: st.id@,
                name: st.name@,
                lat: st.lat as int,
                lon: st.lon as int,
            };
            assert(recs_view(out@) =~= recs_view(pre) + seq![r]);
            assert((recs_view(pre) + seq![r]) + station_recs(sts@, i as int + 1) =~= recs_view(
                pre,
            ) + (seq![r] + station_recs(sts@, i as int + 1)));
        }
        i = i + 1;
    }
}

/// Deduplicates stop records by id; the first occurrence wins.
fn dedup_stop_records(flat: Vec<StopRecord>) -> (r: Vec<StopRecord>)
    ensures
        recs_view(r@) == dedup_recs(recs_view(flat@), 0, Set::empty()),
{
    let mut out: Vec<StopRecord> = Vec::new();
    let mut seen: Vec<String> = Vec::new();
    let ghost all = recs_view(flat@);
    let ghost seenset = Set::<Seq<char>>::empty();
    proof {
        assert(seen@.map_values(|t: String| t@).to_set() =~= seenset);
    }
    let mut i: usize = 0;
    while i < flat.len()
        invariant
            i <= flat@.len(),
            all == recs_view(flat@),
            seen@.map_values(|t: String| t@).to_set() == seenset,
            recs_view(out@) + dedup_recs(all, i as int, seenset) == dedup_recs(
                all,
                0,
                Set::empty(),
            ),
        decreases flat@.len() - i,
    {
        let ghost pre = out@;
        let ghost seen0 = seen@;
        let rec = &flat[i];
        if !crate::line::contains_string(&seen, rec.id.as_str()) {
            proof {
                assert(!seenset.contains(rec.id@));
            }
            out.push(
                StopRecord {
                    id: rec.id.clone(),
                    name: rec.name.clone(),
                    lat: rec.lat,
                    lon: rec.lon,
                },
            );
            seen.push(rec.id.clone());
            proof {
                assert(recs_view(out@) =~= recs_view(pre) + seq![all[i as int]]);
                assert(seen@.map_values(|t: String| t@) =~= seen0.map_values(|t: String| t@).push(
                    rec.id@,
                ));
                seen0.map_values(|t: String| t@).lemma_push_to_set_commute(rec.id@);
                assert((recs_view(pre) + seq![all[i as int]]) + dedup_recs(
                    all,
                    i as int + 1,
                    seenset.insert(all[i as int].id),
                ) =~= recs_view(pre) + (seq![all[i as int]] + dedup_recs(
                    all,
                    i as int + 1,
                    seenset.insert(all[i as int].id),
                )));
            }
            proof {
                seenset = seenset.insert(rec.id@);
            }
        } else {
            proof {
                assert(seenset.contains(rec.id@));
            }
        }
        i = i + 1;
    }
    proof {
        assert(recs_view(out@) =~= dedup_recs(all, 0, Set::empty()));
    }
    out
}

/// Builds the deduplicated stop table of a batch of lines.
pub fn stop_records(lines: &Vec<Line>) -> (r: Vec<StopRecord>)
    ensures
        recs_view(r@) == stops_recs_spec(lines@),
{
    let flat = collect_flat_recs(lines);
    dedup_stop_records(flat)
}

/// The `stops.txt` row of a stop record.
pub open spec fn stop_row_spec(r: SRec) -> RowS {
    seq![r.id, r.name, crate::strutil::fixed4_str(r.lat), crate::strutil::fixed4_str(r.lon)]
}

/// The header of `stops.txt`.
pub fn stops_header() -> (r: Vec<String>)
    ensures
        row_view(r) == seq!["stop_id"@, "stop_name"@, "stop_lat"@, "stop_lon"@],
{
    let mut r: Vec<String> = Vec::new();
    r.push("stop_id".to_owned());
    r.push("stop_name".to_owned());
    r.push("stop_lat".to_owned());
    r.push("stop_lon".to_owned());
    proof {
        assert(row_view(r) =~= seq!["stop_id"@, "stop_name"@, "stop_lat"@, "stop_lon"@]);
    }
    r
}

/// One row per deduplicated stop record, in order.
pub fn stops_rows(recs: &Vec<StopRecord>) -> (r: Vec<Vec<String>>)
    ensures
        table_view(r@) == recs_view(recs@).map_values(|x: SRec| stop_row_spec(x)),
{
    let ghost f = |x: SRec| stop_row_spec(x);
    let mut r: Vec<Vec<String>> = Vec::new();
    let mut i: usize = 0;
    while i < recs.len()
        invariant
            i <= recs@.len(),
            table_view(r@) == recs_view(recs@).take(i as int).map_values(f),
            f == (|x: SRec| stop_row_spec(x)),
        decreases recs@.len() - i,
    {
        let rec = &recs[i];
        let mut row: Vec<String> = Vec::new();
        row.push(rec.id.clone());
        row.push(rec.name.clone());
        row.push(crate::strutil::fixed4_to_string(rec.lat));
        row.push(crate::strutil::fixed4_to_string(rec.lon));
        proof {
            assert(row_view(row) =~= stop_row_spec(recs_view(recs@)[i as int]));
        }
        let ghost r0 = r@;
        r.push(row);
        proof {
            assert(r0.len() == i as int) by {
                assert(table_view(r0).len() == i as int);
            }
            assert forall|k: int| 0 <= k < i + 1 implies table_view(r@)[k] == recs_view(
                recs@,
            ).take(i as int + 1).map_values(f)[k] by {
                if k < i {
                    assert(table_view(r0)[k] == recs_view(recs@).take(i as int).map_values(f)[k]);
                    assert(r@[k] == r0[k]);
                }
            }
            assert(table_view(r@) =~= recs_view(recs@).take(i as int + 1).map_values(f));
        }
        i = i + 1;
    }
    proof {
        assert(recs_view(recs@).take(recs@.len() as int) =~= recs_view(recs@));
    }
    r
}

/// The first record with the given id, if any.
pub open spec fn rec_lookup(rs: Seq<SRec>, id: Seq<char>) -> Option<SRec>
    decreases rs.len(),
{
    if rs.len() == 0 {
        None
    } else if rs[0].id == id {
        Some(rs[0])
    } else {
        rec_lookup(rs.skip(1), id)
    }
}

/// Finds the first stop record with the given id.
pub fn find_stop<'a>(recs: &'a Vec<StopRecord>, id: &str) -> (r: Option<&'a StopRecord>)
    ensures
        (r is Some) == (rec_lookup(recs_view(recs@), id@) is Some),
        r matches Some(x) ==> Some(srec_of(*x)) == rec_lookup(recs_view(recs@), id@),
{
    let mut i: usize = 0;
    proof {
        assert(recs_view(recs@).skip(0) =~= recs_view(recs@));
    }
    while i < recs.len()
        invariant
            i <= recs@.len(),
            rec_lookup(recs_view(recs@), id@) == rec_lookup(
                recs_view(recs@).skip(i as int),
                id@,
            ),
        decreases recs@.len() - i,
    {
        proof {
            assert(recs_view(recs@).skip(i as int)[0] == recs_view(recs@)[i as int]);
            assert(recs_view(recs@).skip(i as int).skip(1) =~= recs_view(recs@).skip(
                i as int + 1,
            ));
        }
        if str_eq(recs[i].id.as_str(), id) {
            return Some(&recs[i]);
        }
        i = i + 1;
    }
    proof {
        assert(recs_view(recs@).skip(recs@.len() as int) =~= Seq::<SRec>::empty());
    }
    None
}

/// The GTFS direction flag of a route section: "1" for inbound, "0" for
/// outbound, empty otherwise.
pub open spec fn direction_spec(sec: RouteSection) -> Seq<char> {
    if sec.direction@ == "inbound"@ {
        "1"@
    } else if sec.direction@ == "outbound"@ {
        "0"@
    } else {
        ""@
    }
}

/// The direction flag of a route section.
pub fn direction_str(section: &RouteSection) -> (r: &'static str)
    ensures
        r@ == direction_spec(*section),
{
    if str_eq(section.direction.as_str(), "inbound") {
        "1"
    } else if str_eq(section.direction.as_str(), "outbound") {
        "0"
    } else {
        ""
    }
}

/// The trip record of one journey.
pub open spec fn trip_row_spec(l: Line, sec: RouteSection, sched: Schedule, id: Seq<char>) -> RowS {
    seq![l.id@, sched.name@, id, direction_spec(sec), route_section_id_spec(l, sec)]
}

/// The trip records of the journeys of `sched` from index `i`, with
/// `seen` trip ids already emitted; a journey whose departure time does
/// not parse, or whose trip id was already emitted, yields no record.
pub open spec fn trips_journeys(
    l: Line,
    sec: RouteSection,
    sched: Schedule,
    js: Seq<KnownJourney>,
    i: int,
    seen: Set<Seq<char>>,
) -> (Seq<RowS>, Set<Seq<char>>)
    decreases js.len() - i,
{
    if i < 0 || i >= js.len() {
        (Seq::empty(), seen)
    } else {
        match trip_key_spec(l, sec, sched, js[i]) {
            None => trips_journeys(l, sec, sched, js, i + 1, seen),
            Some(key) => {
                let id = md5_hex_of(key);
                if seen.contains(id) {
                    trips_journeys(l, sec, sched, js, i + 1, seen)
                } else {
                    let rest = trips_journeys(l, sec, sched, js, i + 1, seen.insert(id));
                    (seq![trip_row_spec(l, sec, sched, id)] + rest.0, rest.1)
                }
            },
        }
    }
}

/// The trip records of the schedules of a timetable from index `i`,
/// threading the set of emitted trip ids.
pub open spec fn trips_schedules(
    l: Line,
    sec: RouteSection,
    ss: Seq<Schedule>,
    i: int,
    seen: Set<Seq<char>>,
) -> (Seq<RowS>, Set<Seq<char>>)
    decreases ss.len() - i,
{
    if i < 0 || i >= ss.len() {
        (Seq::empty(), seen)
    } else {
        let head = trips_journeys(l, sec, ss[i], ss[i].known_journeys@, 0, seen);
        let rest = trips_schedules(l, sec, ss, i + 1, head.1);
        (head.0 + rest.0, rest.1)
    }
}

/// The trip records of one route section: the journeys of every schedule
/// of its first timetable variant, deduplicated by trip id.
pub open spec fn section_trip_rows(l: Line, sec: RouteSection) -> Seq<RowS> {
    match sec.timetable {
        None => Seq::empty(),
        Some(ttr) => match ttr.first_timetable_spec() {
            None => Seq::empty(),
            Some(tt) => trips_schedules(l, sec, tt.schedules@, 0, Set::empty()).0,
        },
    }
}

/// The trip records of one line's sections from index `i`, processing
/// each distinct section grouping id once.
pub open spec fn line_trip_rows(
    l: Line,
    secs: Seq<RouteSection>,
    i: int,
    seen: Set<Seq<char>>,
) -> Seq<RowS>
    decreases secs.len() - i,
{
    if i < 0 || i >= secs.len() {
        Seq::empty()
    } else {
        let sid = route_section_id_spec(l, secs[i]);
        if seen.contains(sid) {
            line_trip_rows(l, secs, i + 1, seen)
        } else {
            section_trip_rows(l, secs[i]) + line_trip_rows(l, secs, i + 1, seen.insert(sid))
        }
    }
}

/// The trip records of a batch of lines from index `i`.
pub open spec fn trips_spec(lines: Seq<Line>, i: int) -> Seq<RowS>
    decreases lines.len() - i,
{
    if i < 0 || i >= lines.len() {
        Seq::empty()
    } else {
        line_trip_rows(lines[i], lines[i].route_sections@, 0, Set::empty()) + trips_spec(
            lines,
            i + 1,
        )
    }
}

/// Appends the trip records of one route section.
#[verifier::loop_isolation(false)]
fn append_section_trips(line: &Line, section: &RouteSection, out: &mut Vec<Vec<String>>)
    ensures
        table_view(final(out)@) == table_view(old(out)@) + section_trip_rows(*line, *section),
{
    let ghost base = out@;
    let shape_id = route_section_id(line, section);
    let direction = direction_str(section);
    let ttr = match &section.timetable {
        None => {
            proof {
                assert(table_view(out@) =~= table_view(base) + section_trip_rows(
                    *line,
                    *section,
                ));
            }
            return ;
        },
        Some(ttr) => ttr,
    };
    let tt = match ttr.first_timetable() {
        None => {
            proof {
                assert(table_view(out@) =~= table_view(base) + section_trip_rows(
                    *line,
                    *section,
                ));
            }
            return ;
        },
        Some(tt) => tt,
    };
    let mut seen: Vec<String> = Vec::new();
    let ghost sset = Set::<Seq<char>>::empty();
    proof {
        assert(seen@.map_values(|t: String| t@).to_set() =~= sset);
    }
    let mut k: usize = 0;
    while k < tt.schedules.len()
        invariant
            k <= tt.schedules@.len(),
            Some(*tt) == ttr.first_timetable_spec(),
            section.timetable == Some(*ttr),
            seen@.map_values(|t: String| t@).to_set() == sset,
            table_view(out@) + trips_schedules(
                *line,
                *section,
                tt.schedules@,
                k as int,
                sset,
            ).0 == table_view(base) + trips_schedules(
                *line,
                *section,
                tt.schedules@,
                0,
                Set::empty(),
            ).0,
            trips_schedules(*line, *section, tt.schedules@, k as int, sset).1 == trips_schedules(
                *line,
                *section,
                tt.schedules@,
                0,
                Set::empty(),
            ).1,
        decreases tt.schedules@.len() - k,
    {
        let sched = &tt.schedules[k];
        let ghost sched_base = out@;
        let ghost sset0 = sset;
        let mut m: usize = 0;
        while m < sched.known_journeys.len()
            invariant
                m <= sched.known_journeys@.len(),
                sched == &tt.schedules@[k as int],
                seen@.map_values(|t: String| t@).to_set() == sset,
                table_view(out@) + trips_journeys(
                    *line,
                    *section,
                    *sched,
                    sched.known_journeys@,
                    m as int,
                    sset,
                ).0 == table_view(sched_base) + trips_journeys(
                    *line,
                    *section,
                    *sched,
                    sched.known_journeys@,
                    0,
                    sset0,
                ).0,
                trips_journeys(
                    *line,
                    *section,
                    *sched,
                    sched.known_journeys@,
                    m as int,
                    sset,
                ).1 == trips_journeys(
                    *line,
                    *section,
                    *sched,
                    sched.known_journeys@,
                    0,
                    sset0,
                ).1,
            decreases sched.known_journeys@.len() - m,
        {
            let journey = &sched.known_journeys[m];
            match trip_id(line, section, sched, journey) {
                None => {},
                Some(id) => {
                    if !crate::line::contains_string(&seen, id.as_str()) {
                        proof {
                            assert(!sset.contains(id@));
                        }
                        let ghost pre = out@;
                        let ghost seen0 = seen@;
                        let mut row: Vec<String> = Vec::new();
                        row.push(line.id.clone());
                        row.push(sched.name.clone());
                        row.push(id.clone());
                        row.push(direction.to_owned());
                        row.push(shape_id.clone());
                        proof {
                            assert(row_view(row) =~= trip_row_spec(*line, *section, *sched, id@));
                        }
                        out.push(row);
                        seen.push(id);
                        proof {
                            assert(table_view(out@) =~= table_view(pre) + seq![
                                trip_row_spec(
                                    *line,
                                    *section,
                                    *sched,
                                    md5_hex_of(
                                        trip_key_spec(
                                            *line,
                                            *section,
                                            *sched,
                                            sched.known_journeys@[m as int],
                                        )->Some_0,
                                    ),
                                ),
                            ]);
                            assert(seen@.map_values(|t: String| t@) =~= seen0.map_values(
                                |t: String| t@,
                            ).push(
                                md5_hex_of(
                                    trip_key_spec(
                                        *line,
                                        *section,
                                        *sched,
                                        sched.known_journeys@[m as int],
                                    )->Some_0,
                                ),
                            ));
                            seen0.map_values(|t: String| t@).lemma_push_to_set_commute(
                                md5_hex_of(
                                    trip_key_spec(
                                        *line,
                                        *section,
                                        *sched,
                                        sched.known_journeys@[m as int],
                                    )->Some_0,
                                ),
                            );
                            let newid = md5_hex_of(
                                trip_key_spec(
                                    *line,
                                    *section,
                                    *sched,
                                    sched.known_journeys@[m as int],
                                )->Some_0,
                            );
                            let rest = trips_journeys(
                                *line,
                                *section,
                                *sched,
                                sched.known_journeys@,
                                m as int + 1,
                                sset.insert(newid),
                            );
                            assert((table_view(pre) + seq![
                                trip_row_spec(*line, *section, *sched, newid),
                            ]) + rest.0 =~= table_view(pre) + (seq![
                                trip_row_spec(*line, *section, *sched, newid),
                            ] + rest.0));
                            sset = sset.insert(newid);
                        }
                    } else {
                        proof {
                            assert(sset.contains(id@));
                        }
                    }
                },
            }
            m = m + 1;
        }
        proof {
            sset = trips_journeys(
                *line,
                *section,
                *sched,
                sched.known_journeys@,
                0,
                sset0,
            ).1;
        }
        k = k + 1;
    }
}

/// Appends the trip records of one line, processing each distinct
/// section grouping id once.
fn append_line_trips(line: &Line, out: &mut Vec<Vec<String>>)
    ensures
        table_view(final(out)@) == table_view(old(out)@) + line_trip_rows(
            *line,
            line.route_sections@,
            0,
            Set::empty(),
        ),
{
    let ghost base = out@;
    let mut seen: Vec<String> = Vec::new();
    let ghost sset = Set::<Seq<char>>::empty();
    proof {
        assert(seen@.map_values(|t: String| t@).to_set() =~= sset);
    }
    let mut j: usize = 0;
    while j < line.route_sections.len()
        invariant
            j <= line.route_sections@.len(),
            seen@.map_values(|t: String| t@).to_set() == sset,
            table_view(out@) + line_trip_rows(*line, line.route_sections@, j as int, sset)
                == table_view(base) + line_trip_rows(
                *line,
                line.route_sections@,
                0,
                Set::empty(),
            ),
        decreases line.route_sections@.len() - j,
    {
        let section = &line.route_sections[j];
        let sid = route_section_id(line, section);
        if !crate::line::contains_string(&seen, sid.as_str()) {
            proof {
                assert(!sset.contains(sid@));
            }
            let ghost pre = out@;
            let ghost seen0 = seen@;
            append_section_trips(line, section, out);
            seen.push(sid);
            proof {
                let sidv = route_section_id_spec(*line, line.route_sections@[j as int]);
                assert(seen@.map_values(|t: String| t@) =~= seen0.map_values(|t: String| t@).push(
                    sidv,
                ));
                seen0.map_values(|t: String| t@).lemma_push_to_set_commute(sidv);
                let rest = line_trip_rows(
                    *line,
                    line.route_sections@,
                    j as int + 1,
                    sset.insert(sidv),
                );
                assert((table_view(pre) + section_trip_rows(
                    *line,
                    line.route_sections@[j as int],
                )) + rest =~= table_view(pre) + (section_trip_rows(
                    *line,
                    line.route_sections@[j as int],
                ) + rest));
                sset = sset.insert(sidv);
            }
        } else {
            proof {
                assert(sset.contains(route_section_id_spec(
                    *line,
                    line.route_sections@[j as int],
                )));
            }
        }
        j = j + 1;
    }
}

/// The header of `trips.txt`.
pub fn trips_header() -> (r: Vec<String>)
    ensures
        row_view(r) == seq!["route_id"@, "service_id"@, "trip_id"@, "direction"@, "shape_id"@],
{
    let mut r: Vec<String> = Vec::new();
    r.push("route_id".to_owned());
    r.push("service_id".to_owned());
    r.push("trip_id".to_owned());
    r.push("direction".to_owned());
    r.push("shape_id".to_owned());
    proof {
        assert(row_view(r) =~= seq![
            "route_id"@,
            "service_id"@,
            "trip_id"@,
            "direction"@,
            "shape_id"@,
        ]);
    }
    r
}

/// The trip records of a batch of lines: per line, per distinct route
/// section, per schedule, one record per known journey, deduplicated by
/// trip id within the section.
pub fn trips_rows(lines: &Vec<Line>) -> (r: Vec<Vec<String>>)
    ensures
        table_view(r@) == trips_spec(lines@, 0),
{
    let mut out: Vec<Vec<String>> = Vec::new();
    let mut i: usize = 0;
    while i < lines.len()
        invariant
            i <= lines@.len(),
            table_view(out@) + trips_spec(lines@, i as int) == trips_spec(lines@, 0),
        decreases lines@.len() - i,
    {
        let ghost pre = out@;
        append_line_trips(&lines[i], &mut out);
        proof {
            let head = line_trip_rows(
                lines@[i as int],
                lines@[i as int].route_sections@,
                0,
                Set::empty(),
            );
            assert((table_view(pre) + head) + trips_spec(lines@, i as int + 1) =~= table_view(
                pre,
            ) + (head + trips_spec(lines@, i as int + 1)));
        }
        i = i + 1;
    }
    proof {
        assert(table_view(out@) =~= trips_spec(lines@, 0));
    }
    out
}

/// The station interval with the given id, if any; a later entry with
/// the same id shadows an earlier one.
pub open spec fn find_interval_spec(
    sis: Seq<crate::line::StationInterval>,
    id: int,
) -> Option<crate::line::StationInterval>
    decreases sis.len(),
{
    if sis.len() == 0 {
        None
    } else if sis.last().id == id {
        Some(sis.last())
    } else {
        find_interval_spec(sis.drop_last(), id)
    }
}

/// Finds the station interval matching a journey's interval id.
fn find_interval<'a>(
    sis: &'a Vec<crate::line::StationInterval>,
    id: i64,
) -> (r: Option<&'a crate::line::StationInterval>)
    ensures
        (r is Some) == (find_interval_spec(sis@, id as int) is Some),
        r matches Some(x) ==> Some(*x) == find_interval_spec(sis@, id as int),
{
    let mut i: usize = sis.len();
    proof {
        assert(sis@.take(i as int) =~= sis@);
    }
    while i > 0
        invariant
            i <= sis@.len(),
            find_interval_spec(sis@, id as int) == find_interval_spec(
                sis@.take(i as int),
                id as int,
            ),
        decreases i,
    {
        i = i - 1;
        proof {
            assert(sis@.take(i as int + 1).drop_last() =~= sis@.take(i as int));
            assert(sis@.take(i as int + 1).last() == sis@[i as int]);
        }
        if sis[i].id == id {
            return Some(&sis[i]);
        }
    }
    None
}

/// The stop-time records of the arrival intervals of one journey from
/// index `i`, numbered from `seqno`; an interval whose shifted time does
/// not fit is skipped, but the numbering still advances.
pub open spec fn st_interval_rows(
    j: KnownJourney,
    ivs: Seq<crate::line::Interval>,
    i: int,
    trip: Seq<char>,
    seqno: int,
) -> Seq<RowS>
    decreases ivs.len() - i,
{
    if i < 0 || i >= ivs.len() {
        Seq::empty()
    } else {
        (match time_fmt_spec(j, ivs[i].time_to_arrival as int) {
            Some(t) => seq![seq![trip, ivs[i].stop_id@, dec_str(seqno), t, t]],
            None => Seq::empty(),
        }) + st_interval_rows(j, ivs, i + 1, trip, seqno + 1)
    }
}

/// The stop-time records of one journey: the section origin at the
/// departure time, then one record per arrival interval, with the
/// departure time shifted by the interval's whole-minute offset.
pub open spec fn st_journey_rows(
    sec: RouteSection,
    j: KnownJourney,
    iv: crate::line::StationInterval,
    trip: Seq<char>,
) -> Seq<RowS> {
    match time_fmt_spec(j, 0) {
        None => Seq::empty(),
        Some(dep) => seq![seq![trip, sec.originator@, dec_str(1), dep, dep]] + st_interval_rows(
            j,
            iv.intervals@,
            0,
            trip,
            2,
        ),
    }
}

/// The stop-time records of the journeys of `sched` from index `i`: a
/// journey is emitted when its trip id is new and its interval pattern
/// exists; a journey with no matching station interval is skipped.
pub open spec fn st_journeys(
    l: Line,
    sec: RouteSection,
    tt: crate::line::TimeTable,
    sched: Schedule,
    js: Seq<KnownJourney>,
    i: int,
    seen: Set<Seq<char>>,
) -> (Seq<RowS>, Set<Seq<char>>)
    decreases js.len() - i,
{
    if i < 0 || i >= js.len() {
        (Seq::empty(), seen)
    } else {
        match trip_key_spec(l, sec, sched, js[i]) {
            None => st_journeys(l, sec, tt, sched, js, i + 1, seen),
            Some(key) => {
                let id = md5_hex_of(key);
                match find_interval_spec(tt.station_intervals@, js[i].interval_id as int) {
                    None => st_journeys(l, sec, tt, sched, js, i + 1, seen),
                    Some(iv) => {
                        if seen.contains(id) {
                            st_journeys(l, sec, tt, sched, js, i + 1, seen)
                        } else {
                            let rest = st_journeys(l, sec, tt, sched, js, i + 1, seen.insert(id));
                            (st_journey_rows(sec, js[i], iv, id) + rest.0, rest.1)
                        }
                    },
                }
            },
        }
    }
}

/// The stop-time records of the schedules of a timetable from index `i`,
/// threading the set of emitted trip ids.
pub open spec fn st_schedules(
    l: Line,
    sec: RouteSection,
    tt: crate::line::TimeTable,
    ss: Seq<Schedule>,
    i: int,
    seen: Set<Seq<char>>,
) -> (Seq<RowS>, Set<Seq<char>>)
    decreases ss.len() - i,
{
    if i < 0 || i >= ss.len() {
        (Seq::empty(), seen)
    } else {
        let head = st_journeys(l, sec, tt, ss[i], ss[i].known_journeys@, 0, seen);
        let rest = st_schedules(l, sec, tt, ss, i + 1, head.1);
        (head.0 + rest.0, rest.1)
    }
}

/// The stop-time records of one route section.
pub open spec fn section_st_rows(l: Line, sec: RouteSection) -> Seq<RowS> {
    match sec.timetable {
        None => Seq::empty(),
        Some(ttr) => match ttr.first_timetable_spec() {
            None => Seq::empty(),
            Some(tt) => st_schedules(l, sec, tt, tt.schedules@, 0, Set::empty()).0,
        },
    }
}

/// The stop-time records of one line's sections from index `i`,
/// processing each distinct section grouping id once.
pub open spec fn line_st_rows(
    l: Line,
    secs: Seq<RouteSection>,
    i: int,
    seen: Set<Seq<char>>,
) -> Seq<RowS>
    decreases secs.len() - i,
{
    if i < 0 || i >= secs.len() {
        Seq::empty()
    } else {
        let sid = route_section_id_spec(l, secs[i]);
        if seen.contains(sid) {
            line_st_rows(l, secs, i + 1, seen)
        } else {
            section_st_rows(l, secs[i]) + line_st_rows(l, secs, i + 1, seen.insert(sid))
        }
    }
}

/// The stop-time records of a batch of lines from index `i`.
pub open spec fn stop_times_spec(lines: Seq<Line>, i: int) -> Seq<RowS>
    decreases lines.len() - i,
{
    if i < 0 || i >= lines.len() {
        Seq::empty()
    } else {
        line_st_rows(lines[i], lines[i].route_sections@, 0, Set::empty()) + stop_times_spec(
            lines,
            i + 1,
        )
    }
}

/// Appends the stop-time records of one journey.
#[verifier::loop_isolation(false)]
fn append_journey_stop_times(
    section: &RouteSection,
    journey: &KnownJourney,
    interval: &crate::line::StationInterval,
    trip: &String,
    out: &mut Vec<Vec<String>>,
)
    ensures
        table_view(final(out)@) == table_view(old(out)@) + st_journey_rows(
            *section,
            *journey,
            *interval,
            trip@,
        ),
{
    let ghost base = out@;
    let dep = match time_offset_fmt(journey, 0) {
        None => {
            proof {
                assert(table_view(out@) =~= table_view(base) + st_journey_rows(
                    *section,
                    *journey,
                    *interval,
                    trip@,
                ));
            }
            return ;
        },
        Some(t) => t,
    };
    let mut row: Vec<String> = Vec::new();
    row.push(trip.clone());
    row.push(section.originator.clone());
    row.push(u64_to_dec(1));
    row.push(dep.clone());
    row.push(dep);
    proof {
        assert(row_view(row) =~= seq![
            trip@,
            section.originator@,
            dec_str(1),
            time_fmt_spec(*journey, 0)->Some_0,
            time_fmt_spec(*journey, 0)->Some_0,
        ]);
    }
    out.push(row);
    proof {
        assert(table_view(out@) =~= table_view(base) + seq![
            seq![
                trip@,
                section.originator@,
                dec_str(1),
                time_fmt_spec(*journey, 0)->Some_0,
                time_fmt_spec(*journey, 0)->Some_0,
            ],
        ]);
    }
    let ghost mid = out@;
    let mut i: usize = 0;
    while i < interval.intervals.len()
        invariant
            i <= interval.intervals@.len(),
            table_view(out@) + st_interval_rows(
                *journey,
                interval.intervals@,
                i as int,
                trip@,
                i as int + 2,
            ) == table_view(mid) + st_interval_rows(*journey, interval.intervals@, 0, trip@, 2),
        decreases interval.intervals@.len() - i,
    {
        let ghost pre = out@;
        let stop = &interval.intervals[i];
        match time_offset_fmt(journey, stop.time_to_arrival) {
            None => {
                proof {
                    assert(table_view(out@) =~= table_view(pre) + Seq::<RowS>::empty());
                }
            },
            Some(t) => {
                let seqno = u128_to_dec((i as u128) + 2);
                let mut row: Vec<String> = Vec::new();
                row.push(trip.clone());
                row.push(stop.stop_id.clone());
                row.push(seqno);
                row.push(t.clone());
                row.push(t);
                proof {
                    assert(row_view(row) =~= seq![
                        trip@,
                        interval.intervals@[i as int].stop_id@,
                        dec_str(i as int + 2),
                        time_fmt_spec(
                            *journey,
                            interval.intervals@[i as int].time_to_arrival as int,
                        )->Some_0,
                        time_fmt_spec(
                            *journey,
                            interval.intervals@[i as int].time_to_arrival as int,
                        )->Some_0,
                    ]);
                }
                out.push(row);
                proof {
                    let hd = seq![
                        seq![
                            trip@,
                            interval.intervals@[i as int].stop_id@,
                            dec_str(i as int + 2),
                            time_fmt_spec(
                                *journey,
                                interval.intervals@[i as int].time_to_arrival as int,
                            )->Some_0,
                            time_fmt_spec(
                                *journey,
                                interval.intervals@[i as int].time_to_arrival as int,
                            )->Some_0,
                        ],
                    ];
                    assert(table_view(out@) =~= table_view(pre) + hd);
                    assert((table_view(pre) + hd) + st_interval_rows(
                        *journey,
                        interval.intervals@,
                        i as int + 1,
                        trip@,
                        i as int + 3,
                    ) =~= table_view(pre) + (hd + st_interval_rows(
                        *journey,
                        interval.intervals@,
                        i as int + 1,
                        trip@,
                        i as int + 3,
                    )));
                }
            },
        }
        i = i + 1;
    }
}

/// Appends the stop-time records of one route section.
#[verifier::loop_isolation(false)]
fn append_section_stop_times(line: &Line, section: &RouteSection, out: &mut Vec<Vec<String>>)
    ensures
        table_view(final(out)@) == table_view(old(out)@) + section_st_rows(*line, *section),
{
    let ghost base = out@;
    let ttr = match &section.timetable {
        None => {
            proof {
                assert(table_view(out@) =~= table_view(base) + section_st_rows(*line, *section));
            }
            return ;
        },
        Some(ttr) => ttr,
    };
    let tt = match ttr.first_timetable() {
        None => {
            proof {
                assert(table_view(out@) =~= table_view(base) + section_st_rows(*line, *section));
            }
            return ;
        },
        Some(tt) => tt,
    };
    let mut seen: Vec<String> = Vec::new();
    let ghost sset = Set::<Seq<char>>::empty();
    proof {
        assert(seen@.map_values(|t: String| t@).to_set() =~= sset);
    }
    let mut k: usize = 0;
    while k < tt.schedules.len()
        invariant
            k <= tt.schedules@.len(),
            seen@.map_values(|t: String| t@).to_set() == sset,
            table_view(out@) + st_schedules(
                *line,
                *section,
                *tt,
                tt.schedules@,
                k as int,
                sset,
            ).0 == table_view(base) + st_schedules(
                *line,
                *section,
                *tt,
                tt.schedules@,
                0,
                Set::empty(),
            ).0,
            st_schedules(*line, *section, *tt, tt.schedules@, k as int, sset).1 == st_schedules(
                *line,
                *section,
                *tt,
                tt.schedules@,
                0,
                Set::empty(),
            ).1,
        decreases tt.schedules@.len() - k,
    {
        let sched = &tt.schedules[k];
        let ghost sched_base = out@;
        let ghost sset0 = sset;
        let mut m: usize = 0;
        while m < sched.known_journeys.len()
            invariant
                m <= sched.known_journeys@.len(),
                sched == &tt.schedules@[k as int],
                seen@.map_values(|t: String| t@).to_set() == sset,
                table_view(out@) + st_journeys(
                    *line,
                    *section,
                    *tt,
                    *sched,
                    sched.known_journeys@,
                    m as int,
                    sset,
                ).0 == table_view(sched_base) + st_journeys(
                    *line,
                    *section,
                    *tt,
                    *sched,
                    sched.known_journeys@,
                    0,
                    sset0,
                ).0,
                st_journeys(
                    *line,
                    *section,
                    *tt,
                    *sched,
                    sched.known_journeys@,
                    m as int,
                    sset,
                ).1 == st_journeys(
                    *line,
                    *section,
                    *tt,
                    *sched,
                    sched.known_journeys@,
                    0,
                    sset0,
                ).1,
            decreases sched.known_journeys@.len() - m,
        {
            let journey = &sched.known_journeys[m];
            match trip_id(line, section, sched, journey) {
                None => {},
                Some(id) => {
                    match find_interval(&tt.station_intervals, journey.interval_id) {
                        None => {},
                        Some(interval) => {
                            if !crate::line::contains_string(&seen, id.as_str()) {
                                proof {
                                    assert(!sset.contains(id@));
                                }
                                let ghost pre = out@;
                                let ghost seen0 = seen@;
                                append_journey_stop_times(section, journey, interval, &id, out);
                                seen.push(id);
                                proof {
                                    let newid = md5_hex_of(
                                        trip_key_spec(
                                            *line,
                                            *section,
                                            *sched,
                                            sched.known_journeys@[m as int],
                                        )->Some_0,
                                    );
                                    assert(seen@.map_values(|t: String| t@) =~= seen0.map_values(
                                        |t: String| t@,
                                    ).push(newid));
                                    seen0.map_values(|t: String| t@).lemma_push_to_set_commute(
                                        newid,
                                    );
                                    let hd = st_journey_rows(
                                        *section,
                                        sched.known_journeys@[m as int],
                                        find_interval_spec(
                                            tt.station_intervals@,
                                            sched.known_journeys@[m as int].interval_id as int,
                                        )->Some_0,
                                        newid,
                                    );
                                    let rest = st_journeys(
                                        *line,
                                        *section,
                                        *tt,
                                        *sched,
                                        sched.known_journeys@,
                                        m as int + 1,
                                        sset.insert(newid),
                                    );
                                    assert((table_view(pre) + hd) + rest.0 =~= table_view(pre) + (
                                    hd + rest.0));
                                    sset = sset.insert(newid);
                                }
                            } else {
                                proof {
                                    assert(sset.contains(id@));
                                }
                            }
                        },
                    }
                },
            }
            m = m + 1;
        }
        proof {
            sset = st_journeys(
                *line,
                *section,
                *tt,
                *sched,
                sched.known_journeys@,
                0,
                sset0,
            ).1;
        }
        k = k + 1;
    }
}

/// Appends the stop-time records of one line.
#[verifier::loop_isolation(false)]
fn append_line_stop_times(line: &Line, out: &mut Vec<Vec<String>>)
    ensures
        table_view(final(out)@) == table_view(old(out)@) + line_st_rows(
            *line,
            line.route_sections@,
            0,
            Set::empty(),
        ),
{
    let ghost base = out@;
    let mut seen: Vec<String> = Vec::new();
    let ghost sset = Set::<Seq<char>>::empty();
    proof {
        assert(seen@.map_values(|t: String| t@).to_set() =~= sset);
    }
    let mut j: usize = 0;
    while j < line.route_sections.len()
        invariant
            j <= line.route_sections@.len(),
            seen@.map_values(|t: String| t@).to_set() == sset,
            table_view(out@) + line_st_rows(*line, line.route_sections@, j as int, sset)
                == table_view(base) + line_st_rows(*line, line.route_sections@, 0, Set::empty()),
        decreases line.route_sections@.len() - j,
    {
        let section = &line.route_sections[j];
        let sid = route_section_id(line, section);
        if !crate::line::contains_string(&seen, sid.as_str()) {
            proof {
                assert(!sset.contains(sid@));
            }
            let ghost pre = out@;
            let ghost seen0 = seen@;
            append_section_stop_times(line, section, out);
            seen.push(sid);
            proof {
                let sidv = route_section_id_spec(*line, line.route_sections@[j as int]);
                assert(seen@.map_values(|t: String| t@) =~= seen0.map_values(|t: String| t@).push(
                    sidv,
                ));
                seen0.map_values(|t: String| t@).lemma_push_to_set_commute(sidv);
                let rest = line_st_rows(
                    *line,
                    line.route_sections@,
                    j as int + 1,
                    sset.insert(sidv),
                );
                assert((table_view(pre) + section_st_rows(
                    *line,
                    line.route_sections@[j as int],
                )) + rest =~= table_view(pre) + (section_st_rows(
                    *line,
                    line.route_sections@[j as int],
                ) + rest));
                sset = sset.insert(sidv);
            }
        } else {
            proof {
                assert(sset.contains(route_section_id_spec(
                    *line,
                    line.route_sections@[j as int],
                )));
            }
        }
        j = j + 1;
    }
}

/// The header of `stop_times.txt`.
pub fn stop_times_header() -> (r: Vec<String>)
    ensures
        row_view(r) == seq![
            "trip_id"@,
            "stop_id"@,
            "stop_sequence"@,
            "arrival_time"@,
            "departure_time"@,
        ],
{
    let mut r: Vec<String> = Vec::new();
    r.push("trip_id".to_owned());
    r.push("stop_id".to_owned());
    r.push("stop_sequence".to_owned());
    r.push("arrival_time".to_owned());
    r.push("departure_time".to_owned());
    proof {
        assert(row_view(r) =~= seq![
            "trip_id"@,
            "stop_id"@,
            "stop_sequence"@,
            "arrival_time"@,
            "departure_time"@,
        ]);
    }
    r
}

/// The stop-time records of a batch of lines: for each emitted trip, the
/// origin at the departure time, then one sequential record per arrival
/// interval of the journey's station interval pattern.
pub fn stop_times_rows(lines: &Vec<Line>) -> (r: Vec<Vec<String>>)
    ensures
        table_view(r@) == stop_times_spec(lines@, 0),
{
    let mut out: Vec<Vec<String>> = Vec::new();
    let mut i: usize = 0;
    while i < lines.len()
        invariant
            i <= lines@.len(),
            table_view(out@) + stop_times_spec(lines@, i as int) == stop_times_spec(lines@, 0),
        decreases lines@.len() - i,
    {
        let ghost pre = out@;
        append_line_stop_times(&lines[i], &mut out);
        proof {
            let head = line_st_rows(
                lines@[i as int],
                lines@[i as int].route_sections@,
                0,
                Set::empty(),
            );
            assert((table_view(pre) + head) + stop_times_spec(lines@, i as int + 1) =~= table_view(
                pre,
            ) + (head + stop_times_spec(lines@, i as int + 1)));
        }
        i = i + 1;
    }
    proof {
        assert(table_view(out@) =~= stop_times_spec(lines@, 0));
    }
    out
}

/// One line together with the route graphs derived from its inbound and
/// outbound geometry sequences.
pub struct Route<'a> {
    pub line: &'a Line,
    pub inbound_graph: RouteGraph,
    pub outbound_graph: RouteGraph,
}

/// The linestring texts of an optional geometry sequence.
pub open spec fn sequence_views(sq: Option<crate::line::Sequence>) -> Seq<Seq<char>> {
    match sq {
        Some(q) => q.line_strings@.map_values(|t: String| t@),
        None => Seq::empty(),
    }
}

/// Builds the route graph of one optional geometry sequence: exactly the
/// fold of single insertions over the decoded linestring paths, starting
/// from the empty graph.
fn sequence_graph(sq: &Option<crate::line::Sequence>) -> (g: RouteGraph)
    ensures
        g.wf(),
        g.model() == crate::graph::add_paths_model(
            crate::graph::empty_model(),
            crate::geometry::linestrings_paths_spec(sequence_views(*sq), 0),
            0,
        ),
        g.vertex_set() == crate::graph::endpoints_views(
            crate::geometry::linestrings_paths_spec(sequence_views(*sq), 0),
        ),
{
    let mut g = RouteGraph::new();
    proof {
        assert(g.model().vs =~= crate::graph::empty_model().vs);
        assert(g.model().adj =~= crate::graph::empty_model().adj);
        assert(g.model().paths =~= crate::graph::empty_model().paths);
        assert(g.model() == crate::graph::empty_model());
    }
    match sq {
        Some(q) => {
            let paths = crate::geometry::linestrings_to_paths(&q.line_strings);
            proof {
                crate::geometry::lemma_linestrings_nonempty(sequence_views(*sq), 0);
                assert(forall|i: int|
                    0 <= i < paths@.len() ==> (#[trigger] paths@[i])@.len() > 0) by {
                    assert(forall|i: int|
                        0 <= i < paths@.len() ==> (#[trigger] paths@[i])@ == paths@.map_values(
                            |p: Path| p@,
                        )[i]);
                }
            }
            g.add_paths(&paths);
            proof {
                crate::graph::lemma_endpoints_views(paths@);
                assert(g.vertex_set() =~= crate::graph::endpoints_views(
                    crate::geometry::linestrings_paths_spec(sequence_views(*sq), 0),
                ));
            }
        },
        None => {
            proof {
                assert(crate::geometry::linestrings_paths_spec(sequence_views(*sq), 0)
                    =~= Seq::<Seq<crate::geometry::Point>>::empty());
                assert(g.vertex_set() =~= crate::graph::endpoints_views(
                    crate::geometry::linestrings_paths_spec(sequence_views(*sq), 0),
                ));
            }
        },
    }
    g
}

impl<'a> Route<'a> {
    /// Derives the inbound and outbound route graphs of a line from its
    /// raw geometry sequences: each graph is exactly the fold of single
    /// insertions over the decoded linestring paths of its sequence.
    pub fn new(line: &'a Line) -> (r: Route<'a>)
        ensures
            r.line == line,
            r.inbound_graph.wf(),
            r.outbound_graph.wf(),
            r.inbound_graph.model() == crate::graph::add_paths_model(
                crate::graph::empty_model(),
                crate::geometry::linestrings_paths_spec(
                    sequence_views(line.inbound_sequence),
                    0,
                ),
                0,
            ),
            r.outbound_graph.model() == crate::graph::add_paths_model(
                crate::graph::empty_model(),
                crate::geometry::linestrings_paths_spec(
                    sequence_views(line.outbound_sequence),
                    0,
                ),
                0,
            ),
            r.inbound_graph.vertex_set() == crate::graph::endpoints_views(
                crate::geometry::linestrings_paths_spec(
                    sequence_views(line.inbound_sequence),
                    0,
                ),
            ),
            r.outbound_graph.vertex_set() == crate::graph::endpoints_views(
                crate::geometry::linestrings_paths_spec(
                    sequence_views(line.outbound_sequence),
                    0,
                ),
            ),
    {
        let inbound_graph = sequence_graph(&line.inbound_sequence);
        let outbound_graph = sequence_graph(&line.outbound_sequence);
        Route { line, inbound_graph, outbound_graph }
    }
}

/// The `shapes.txt` rows of one found path: one ordered row per point,
/// with the sequence index starting at zero.
pub open spec fn path_rows_spec(sid: Seq<char>, p: Seq<crate::geometry::Point>) -> Seq<RowS> {
    p.map(
        |i: int, pt: crate::geometry::Point|
            seq![
                sid,
                crate::strutil::fixed4_str(pt.lat as int),
                crate::strutil::fixed4_str(pt.lon as int),
                dec_str(i),
            ],
    )
}

/// Renders one found path as shape rows.
#[verifier::loop_isolation(false)]
pub fn shape_path_rows(shape_id: &String, path: &Path) -> (r: Vec<Vec<String>>)
    ensures
        table_view(r@) == path_rows_spec(shape_id@, path@),
{
    let mut r: Vec<Vec<String>> = Vec::new();
    let mut i: usize = 0;
    while i < path.len()
        invariant
            i <= path@.len(),
            table_view(r@) == path_rows_spec(shape_id@, path@).take(i as int),
        decreases path@.len() - i,
    {
        let pt = path[i];
        let mut row: Vec<String> = Vec::new();
        row.push(shape_id.clone());
        row.push(crate::strutil::fixed4_to_string(pt.lat));
        row.push(crate::strutil::fixed4_to_string(pt.lon));
        row.push(u128_to_dec(i as u128));
        proof {
            assert(row_view(row) =~= path_rows_spec(shape_id@, path@)[i as int]);
        }
        let ghost r0 = r@;
        r.push(row);
        proof {
            assert(r0.len() == i as int) by {
                assert(table_view(r0).len() == i as int);
            }
            assert(table_view(r@) =~= path_rows_spec(shape_id@, path@).take(i as int + 1));
        }
        i = i + 1;
    }
    proof {
        assert(path_rows_spec(shape_id@, path@).take(path@.len() as int) =~= path_rows_spec(
            shape_id@,
            path@,
        ));
    }
    r
}

/// What the shape rows of one route section are, given the graph `g`
/// chosen for its direction: nothing when an endpoint does not resolve,
/// the graph is empty, a snap distance exceeds the tolerance, or no walk
/// connects the snapped endpoints; and otherwise the non-empty rendering
/// of a found shape between the snapped endpoints.  When the snapped
/// start's first neighbour is the snapped end, the rows are exactly the
/// stored polyline between them.
#[verifier::opaque]
pub open spec fn section_shape_ok(
    g: RouteGraph,
    l: Line,
    sec: RouteSection,
    recs: Seq<SRec>,
    rows: Seq<RowS>,
) -> bool {
    let sid = route_section_id_spec(l, sec);
    let o = rec_lookup(recs, sec.originator@);
    let d = rec_lookup(recs, sec.destination@);
    &&& ((o is None || d is None) ==> rows == Seq::<RowS>::empty())
    &&& ((o is Some && d is Some) ==> {
        let a = crate::geometry::Point { lat: o->Some_0.lat as i64, lon: o->Some_0.lon as i64 };
        let b = crate::geometry::Point { lat: d->Some_0.lat as i64, lon: d->Some_0.lon as i64 };
        &&& (g.vertex_seq().len() == 0 ==> rows == Seq::<RowS>::empty())
        &&& (g.vertex_seq().len() > 0 ==> {
            let v0 = g.closest_spec(a).0;
            let d0 = g.closest_spec(a).1;
            let v1 = g.closest_spec(b).0;
            let d1 = g.closest_spec(b).1;
            &&& ((d0 > crate::graph::SNAP_TOLERANCE_M || d1 > crate::graph::SNAP_TOLERANCE_M)
                ==> rows == Seq::<RowS>::empty())
            &&& ((d0 <= crate::graph::SNAP_TOLERANCE_M && d1 <= crate::graph::SNAP_TOLERANCE_M
                && crate::graph::connected_avoiding(g, v0, v1, Set::empty())) ==> rows.len()
                > 0)
            &&& (rows.len() > 0 ==> d0 <= crate::graph::SNAP_TOLERANCE_M && d1
                <= crate::graph::SNAP_TOLERANCE_M && exists|p: Seq<crate::geometry::Point>|
                crate::graph::is_shape_between(g, v0, v1, p) && rows == path_rows_spec(sid, p))
            &&& ((d0 <= crate::graph::SNAP_TOLERANCE_M && d1 <= crate::graph::SNAP_TOLERANCE_M
                && g.adj_or_empty(v0).len() > 0 && g.adj_or_empty(v0)[0] == v1) ==> rows
                == path_rows_spec(sid, g.spec_path(v0, v1)->Some_0))
        })
    })
}

/// Builds the shape rows of one route section against the graph chosen
/// for its direction.
#[verifier::rlimit(60)]
fn section_shape(
    g: &RouteGraph,
    line: &Line,
    section: &RouteSection,
    recs: &Vec<StopRecord>,
) -> (r: Vec<Vec<String>>)
    requires
        g.wf(),
    ensures
        section_shape_ok(*g, *line, *section, recs_view(recs@), table_view(r@)),
{
    proof {
        reveal(section_shape_ok);
    }
    let sid = route_section_id(line, section);
    let orig = match find_stop(recs, section.originator.as_str()) {
        None => {
            let r: Vec<Vec<String>> = Vec::new();
            proof {
                assert(table_view(r@) =~= Seq::<RowS>::empty());
            }
            return r;
        },
        Some(x) => x,
    };
    let start_pt = crate::geometry::Point::new(orig.lat, orig.lon);
    let dest = match find_stop(recs, section.destination.as_str()) {
        None => {
            let r: Vec<Vec<String>> = Vec::new();
            proof {
                assert(table_view(r@) =~= Seq::<RowS>::empty());
            }
            return r;
        },
        Some(x) => x,
    };
    let end_pt = crate::geometry::Point::new(dest.lat, dest.lon);
    match g.path(start_pt, end_pt) {
        Ok(path) => {
            let r = shape_path_rows(&sid, &path);
            r
        },
        Err(_) => {
            let r: Vec<Vec<String>> = Vec::new();
            proof {
                assert(table_view(r@) =~= Seq::<RowS>::empty());
            }
            r
        },
    }
}

/// The indices of the sections of one line that get a shape pass, from
/// index `i`: a section is processed when its grouping id is new and its
/// direction selects a graph; a processed id is not processed again.
pub open spec fn shape_processed(
    l: Line,
    secs: Seq<RouteSection>,
    i: int,
    seen: Set<Seq<char>>,
) -> Seq<int>
    decreases secs.len() - i,
{
    if i < 0 || i >= secs.len() {
        Seq::empty()
    } else {
        let sid = route_section_id_spec(l, secs[i]);
        if seen.contains(sid) {
            shape_processed(l, secs, i + 1, seen)
        } else if secs[i].direction@ == "inbound"@ || secs[i].direction@ == "outbound"@ {
            seq![i] + shape_processed(l, secs, i + 1, seen.insert(sid))
        } else {
            shape_processed(l, secs, i + 1, seen)
        }
    }
}

/// The graph a section's direction selects.
pub open spec fn dir_graph(sec: RouteSection, g_in: RouteGraph, g_out: RouteGraph) -> RouteGraph {
    if sec.direction@ == "inbound"@ {
        g_in
    } else {
        g_out
    }
}

/// Builds the shape row groups of one line: one group per processed
/// section, in order, each meeting `section_shape_ok` against the graph
/// its direction selects.
#[verifier::loop_isolation(false)]
fn line_shapes(route: &Route, recs: &Vec<StopRecord>) -> (r: Vec<Vec<Vec<String>>>)
    requires
        route.inbound_graph.wf(),
        route.outbound_graph.wf(),
    ensures
        ({
            let procd = shape_processed(*route.line, route.line.route_sections@, 0, Set::empty());
            &&& r@.len() == procd.len()
            &&& forall|k: int|
                0 <= k < procd.len() ==> section_shape_ok(
                    dir_graph(
                        route.line.route_sections@[procd[k]],
                        route.inbound_graph,
                        route.outbound_graph,
                    ),
                    *route.line,
                    route.line.route_sections@[procd[k]],
                    recs_view(recs@),
                    table_view((#[trigger] r@[k])@),
                )
        }),
{
    let line = route.line;
    let mut out: Vec<Vec<Vec<String>>> = Vec::new();
    let mut seen: Vec<String> = Vec::new();
    let ghost sset = Set::<Seq<char>>::empty();
    let ghost procd_all = shape_processed(*line, line.route_sections@, 0, Set::empty());
    proof {
        assert(seen@.map_values(|t: String| t@).to_set() =~= sset);
    }
    let mut j: usize = 0;
    while j < line.route_sections.len()
        invariant
            j <= line.route_sections@.len(),
            seen@.map_values(|t: String| t@).to_set() == sset,
            procd_all.len() == out@.len() + shape_processed(
                *line,
                line.route_sections@,
                j as int,
                sset,
            ).len(),
            procd_all =~= procd_all.take(out@.len() as int) + shape_processed(
                *line,
                line.route_sections@,
                j as int,
                sset,
            ),
            forall|k: int|
                0 <= k < out@.len() ==> section_shape_ok(
                    dir_graph(
                        line.route_sections@[procd_all[k]],
                        route.inbound_graph,
                        route.outbound_graph,
                    ),
                    *line,
                    line.route_sections@[procd_all[k]],
                    recs_view(recs@),
                    table_view((#[trigger] out@[k])@),
                ),
        decreases line.route_sections@.len() - j,
    {
        let section = &line.route_sections[j];
        let sid = route_section_id(line, section);
        if !crate::line::contains_string(&seen, sid.as_str()) {
            proof {
                assert(!sset.contains(sid@));
            }
            let inbound = str_eq(section.direction.as_str(), "inbound");
            let outbound = str_eq(section.direction.as_str(), "outbound");
            if inbound || outbound {
                let ghost seen0 = seen@;
                let ghost out0 = out@;
                let g: &RouteGraph = if inbound {
                    &route.inbound_graph
                } else {
                    &route.outbound_graph
                };
                let group = section_shape(g, line, section, recs);
                out.push(group);
                seen.push(sid);
                proof {
                    let sidv = route_section_id_spec(*line, line.route_sections@[j as int]);
                    assert(seen@.map_values(|t: String| t@) =~= seen0.map_values(
                        |t: String| t@,
                    ).push(sidv));
                    seen0.map_values(|t: String| t@).lemma_push_to_set_commute(sidv);
                    let remaining = shape_processed(*line, line.route_sections@, j as int, sset);
                    assert(remaining == seq![j as int] + shape_processed(
                        *line,
                        line.route_sections@,
                        j as int + 1,
                        sset.insert(sidv),
                    ));
                    assert(procd_all[out0.len() as int] == j as int);
                    assert(procd_all =~= procd_all.take(out@.len() as int) + shape_processed(
                        *line,
                        line.route_sections@,
                        j as int + 1,
                        sset.insert(sidv),
                    ));
                    sset = sset.insert(sidv);
                }
            }
        } else {
            proof {
                assert(sset.contains(route_section_id_spec(
                    *line,
                    line.route_sections@[j as int],
                )));
            }
        }
        j = j + 1;
    }
    proof {
        assert(procd_all.take(out@.len() as int) =~= procd_all);
    }
    out
}

/// Flattens shape row groups into one table.
pub open spec fn flatten_groups(gs: Seq<Seq<RowS>>) -> Seq<RowS>
    decreases gs.len(),
{
    if gs.len() == 0 {
        Seq::empty()
    } else {
        gs[0] + flatten_groups(gs.skip(1))
    }
}

/// The lines of a batch of routes.
pub open spec fn routes_lines<'a>(routes: Seq<Route<'a>>) -> Seq<Line> {
    routes.map_values(|r: Route<'a>| *r.line)
}

/// The (line index, section index) pairs that get a shape pass, over the
/// lines from index `i`: per line, its processed section indices in
/// order.
pub open spec fn processed_pairs(lines: Seq<Line>, i: int) -> Seq<(int, int)>
    decreases lines.len() - i,
{
    if i < 0 || i >= lines.len() {
        Seq::empty()
    } else {
        shape_processed(lines[i], lines[i].route_sections@, 0, Set::empty()).map_values(
            |si: int| (i, si),
        ) + processed_pairs(lines, i + 1)
    }
}

/// The `k`-th shape row group is what `section_shape_ok` allows for the
/// `k`-th processed section, against the graph its direction selects.
pub open spec fn route_group_ok<'a>(
    routes: Seq<Route<'a>>,
    recs: Seq<SRec>,
    k: int,
    grp: Seq<RowS>,
) -> bool {
    let pp = processed_pairs(routes_lines(routes), 0);
    let li = pp[k].0;
    let si = pp[k].1;
    &&& 0 <= li < routes.len()
    &&& 0 <= si < routes[li].line.route_sections@.len()
    &&& section_shape_ok(
        dir_graph(
            routes[li].line.route_sections@[si],
            routes[li].inbound_graph,
            routes[li].outbound_graph,
        ),
        *routes[li].line,
        routes[li].line.route_sections@[si],
        recs,
        grp,
    )
}

/// The shape rows decompose into exactly one group per processed section,
/// in order; the `k`-th group is what `section_shape_ok` allows for the
/// `k`-th processed section against the graph its direction selects.
pub open spec fn shapes_groups_ok<'a>(
    routes: Seq<Route<'a>>,
    recs: Seq<SRec>,
    gs: Seq<Seq<RowS>>,
    shapes: Seq<RowS>,
) -> bool {
    &&& shapes == flatten_groups(gs)
    &&& gs.len() == processed_pairs(routes_lines(routes), 0).len()
    &&& forall|k: int| 0 <= k < gs.len() ==> route_group_ok(routes, recs, k, #[trigger] gs[k])
}

/// Builds `shapes.txt` rows for a batch of routes: per line, one shape
/// pass per distinct route section with an inbound or outbound
/// direction, in order; each pass contributes the rows
/// `section_shape_ok` allows for the graph its direction selects.
#[verifier::loop_isolation(false)]
#[verifier::rlimit(60)]
pub fn shapes_rows(routes: &Vec<Route>, recs: &Vec<StopRecord>) -> (r: Vec<Vec<String>>)
    requires
        forall|i: int|
            0 <= i < routes@.len() ==> (#[trigger] routes@[i]).inbound_graph.wf() && routes@[
                i
            ].outbound_graph.wf(),
    ensures
        exists|gs: Seq<Seq<RowS>>| shapes_groups_ok(routes@, recs_view(recs@), gs, table_view(r@)),
{
    let ghost rl = routes_lines(routes@);
    let ghost pp = processed_pairs(rl, 0);
    let mut out: Vec<Vec<String>> = Vec::new();
    let ghost mut gs = Seq::<Seq<RowS>>::empty();
    proof {
        assert(table_view(out@) =~= flatten_groups(gs));
        assert(pp.take(0) =~= Seq::<(int, int)>::empty());
        assert(pp =~= pp.take(0) + processed_pairs(rl, 0));
    }
    let mut i: usize = 0;
    while i < routes.len()
        invariant
            i <= routes@.len(),
            rl == routes_lines(routes@),
            pp == processed_pairs(rl, 0),
            table_view(out@) == flatten_groups(gs),
            gs.len() <= pp.len(),
            pp == pp.take(gs.len() as int) + processed_pairs(rl, i as int),
            forall|t: int|
                0 <= t < gs.len() ==> route_group_ok(routes@, recs_view(recs@), t, #[trigger] gs[t]),
        decreases routes@.len() - i,
    {
        let route = &routes[i];
        let groups = line_shapes(route, recs);
        let ghost procd = shape_processed(
            *route.line,
            route.line.route_sections@,
            0,
            Set::empty(),
        );
        let ghost procd_pairs = procd.map_values(|si: int| (i as int, si));
        let ghost base = gs.len() as int;
        proof {
            lemma_shape_processed_bounds(
                *route.line,
                route.line.route_sections@,
                0,
                Set::empty(),
            );
            assert(rl[i as int] == *route.line);
            assert(processed_pairs(rl, i as int) == procd_pairs + processed_pairs(
                rl,
                i as int + 1,
            ));
            assert(procd_pairs.skip(0) =~= procd_pairs);
            assert(pp =~= pp.take(base) + (procd_pairs.skip(0) + processed_pairs(
                rl,
                i as int + 1,
            )));
        }
        let mut k: usize = 0;
        while k < groups.len()
            invariant
                k <= groups@.len(),
                groups@.len() == procd.len(),
                procd == shape_processed(*route.line, route.line.route_sections@, 0, Set::empty()),
                procd_pairs == procd.map_values(|si: int| (i as int, si)),
                route == &routes@[i as int],
                0 <= i < routes@.len(),
                base + k == gs.len(),
                gs.len() <= pp.len(),
                forall|t: int|
                    0 <= t < procd.len() ==> 0 <= #[trigger] procd[t]
                        < route.line.route_sections@.len(),
                forall|t: int|
                    0 <= t < procd.len() ==> section_shape_ok(
                        dir_graph(
                            route.line.route_sections@[procd[t]],
                            route.inbound_graph,
                            route.outbound_graph,
                        ),
                        *route.line,
                        route.line.route_sections@[procd[t]],
                        recs_view(recs@),
                        table_view((#[trigger] groups@[t])@),
                    ),
                table_view(out@) == flatten_groups(gs),
                pp == pp.take(gs.len() as int) + (procd_pairs.skip(k as int) + processed_pairs(
                    rl,
                    i as int + 1,
                )),
                forall|t: int|
                    0 <= t < gs.len() ==> route_group_ok(routes@, recs_view(recs@), t, #[trigger] gs[t]),
            decreases groups@.len() - k,
        {
            let group = &groups[k];
            let ghost gpre = gs;
            let ghost outpre = out@;
            let mut m: usize = 0;
            while m < group.len()
                invariant
                    m <= group@.len(),
                    group == &groups@[k as int],
                    table_view(out@) == table_view(outpre) + table_view(group@).take(m as int),
                decreases group@.len() - m,
            {
                let mut row: Vec<String> = Vec::new();
                let src = &group[m];
                let mut f: usize = 0;
                while f < src.len()
                    invariant
                        f <= src@.len(),
                        src == &group@[m as int],
                        row@ =~= src@.take(f as int),
                    decreases src@.len() - f,
                {
                    row.push(src[f].clone());
                    proof {
                        assert(row@ =~= src@.take(f as int + 1));
                    }
                    f = f + 1;
                }
                proof {
                    assert(row@ =~= group@[m as int]@);
                }
                let ghost o0 = out@;
                out.push(row);
                proof {
                    assert(table_view(out@) =~= table_view(o0).push(row_view(
                        group@[m as int],
                    )));
                    assert(table_view(outpre) + table_view(group@).take(m as int + 1)
                        =~= (table_view(outpre) + table_view(group@).take(m as int)).push(
                        row_view(group@[m as int]),
                    ));
                }
                m = m + 1;
            }
            proof {
                assert(table_view(group@).take(group@.len() as int) =~= table_view(group@));
                gs = gpre.push(table_view(group@));
                lemma_flatten_push(gpre, table_view(group@));
                assert(table_view(out@) =~= flatten_groups(gs));
                assert(pp[base + k] == procd_pairs[k as int]) by {
                    assert(pp.take(gpre.len() as int).len() == gpre.len());
                    assert(pp[base + k] == (procd_pairs.skip(k as int) + processed_pairs(
                        rl,
                        i as int + 1,
                    ))[0]);
                    assert(procd_pairs.skip(k as int)[0] == procd_pairs[k as int]);
                }
                assert(pp[base + k] == (i as int, procd[k as int]));
                assert(gs.len() <= pp.len()) by {
                    assert(procd_pairs.skip(k as int).len() >= 1);
                }
                assert(pp =~= pp.take(gs.len() as int) + (procd_pairs.skip(k as int + 1)
                    + processed_pairs(rl, i as int + 1)));
                assert forall|t: int|
                    0 <= t < gs.len() implies route_group_ok(
                    routes@,
                    recs_view(recs@),
                    t,
                    #[trigger] gs[t],
                ) by {
                    if t == gs.len() - 1 {
                        let li = pp[t].0;
                        let si = pp[t].1;
                        assert(li == i as int && si == procd[k as int]);
                        assert(section_shape_ok(
                            dir_graph(
                                routes@[li].line.route_sections@[si],
                                routes@[li].inbound_graph,
                                routes@[li].outbound_graph,
                            ),
                            *routes@[li].line,
                            routes@[li].line.route_sections@[si],
                            recs_view(recs@),
                            gs[t],
                        ));
                    } else {
                        assert(gs[t] == gpre[t]);
                        assert(route_group_ok(routes@, recs_view(recs@), t, gpre[t]));
                    }
                }
            }
            k = k + 1;
        }
        proof {
            assert(procd_pairs.skip(procd.len() as int) =~= Seq::<(int, int)>::empty());
            assert(pp =~= pp.take(gs.len() as int) + processed_pairs(rl, i as int + 1));
        }
        i = i + 1;
    }
    proof {
        assert(processed_pairs(rl, routes@.len() as int) =~= Seq::<(int, int)>::empty());
        assert(pp =~= pp.take(gs.len() as int));
        assert(gs.len() == pp.len());
        assert(shapes_groups_ok(routes@, recs_view(recs@), gs, table_view(out@)));
    }
    out
}

/// Every processed index is a valid section index.
proof fn lemma_shape_processed_bounds(
    l: Line,
    secs: Seq<RouteSection>,
    i: int,
    seen: Set<Seq<char>>,
)
    ensures
        forall|t: int|
            0 <= t < shape_processed(l, secs, i, seen).len() ==> i <= #[trigger] shape_processed(
                l,
                secs,
                i,
                seen,
            )[t] < secs.len(),
    decreases secs.len() - i,
{
    if 0 <= i < secs.len() {
        let sid = route_section_id_spec(l, secs[i]);
        if seen.contains(sid) {
            lemma_shape_processed_bounds(l, secs, i + 1, seen);
            assert forall|t: int|
                0 <= t < shape_processed(l, secs, i, seen).len() implies i
                <= #[trigger] shape_processed(l, secs, i, seen)[t] < secs.len() by {
                assert(shape_processed(l, secs, i, seen)[t] == shape_processed(
                    l,
                    secs,
                    i + 1,
                    seen,
                )[t]);
            }
        } else if secs[i].direction@ == "inbound"@ || secs[i].direction@ == "outbound"@ {
            lemma_shape_processed_bounds(l, secs, i + 1, seen.insert(sid));
            let rest = shape_processed(l, secs, i + 1, seen.insert(sid));
            assert forall|t: int|
                0 <= t < shape_processed(l, secs, i, seen).len() implies i
                <= #[trigger] shape_processed(l, secs, i, seen)[t] < secs.len() by {
                if t > 0 {
                    assert(shape_processed(l, secs, i, seen)[t] == rest[t - 1]);
                }
            }
        } else {
            lemma_shape_processed_bounds(l, secs, i + 1, seen);
            assert forall|t: int|
                0 <= t < shape_processed(l, secs, i, seen).len() implies i
                <= #[trigger] shape_processed(l, secs, i, seen)[t] < secs.len() by {
                assert(shape_processed(l, secs, i, seen)[t] == shape_processed(
                    l,
                    secs,
                    i + 1,
                    seen,
                )[t]);
            }
        }
    }
}

/// Flattening after appending one group appends its rows.
proof fn lemma_flatten_push(gs: Seq<Seq<RowS>>, g: Seq<RowS>)
    ensures
        flatten_groups(gs.push(g)) == flatten_groups(gs) + g,
    decreases gs.len(),
{
    if gs.len() == 0 {
        assert(gs.push(g).skip(1) =~= Seq::<Seq<RowS>>::empty());
        assert(flatten_groups(Seq::<Seq<RowS>>::empty()) == Seq::<RowS>::empty());
        assert(gs.push(g)[0] == g);
        assert(flatten_groups(gs.push(g)) == g + flatten_groups(
            Seq::<Seq<RowS>>::empty(),
        ));
        assert(flatten_groups(gs.push(g)) =~= flatten_groups(gs) + g);
    } else {
        assert(gs.push(g).skip(1) =~= gs.skip(1).push(g));
        lemma_flatten_push(gs.skip(1), g);
        assert(flatten_groups(gs.push(g)) == gs[0] + flatten_groups(gs.skip(1).push(g)));
        assert(gs[0] + (flatten_groups(gs.skip(1)) + g) =~= (gs[0] + flatten_groups(gs.skip(1)))
            + g);
    }
}

/// The header of `shapes.txt`.
pub fn shapes_header() -> (r: Vec<String>)
    ensures
        row_view(r) == seq!["shape_id"@, "shape_pt_lat"@, "shape_pt_lon"@, "shape_pt_sequence"@],
{
    let mut r: Vec<String> = Vec::new();
    r.push("shape_id".to_owned());
    r.push("shape_pt_lat".to_owned());
    r.push("shape_pt_lon".to_owned());
    r.push("shape_pt_sequence".to_owned());
    proof {
        assert(row_view(r) =~= seq![
            "shape_id"@,
            "shape_pt_lat"@,
            "shape_pt_lon"@,
            "shape_pt_sequence"@,
        ]);
    }
    r
}

/// The seven GTFS tables as data rows (headers are rendered separately
/// when a table is encoded).
pub struct GtfsFeed {
    pub agency: Vec<Vec<String>>,
    pub routes: Vec<Vec<String>>,
    pub stops: Vec<Vec<String>>,
    pub calendar: Vec<Vec<String>>,
    pub trips: Vec<Vec<String>>,
    pub stop_times: Vec<Vec<String>>,
    pub shapes: Vec<Vec<String>>,
}

/// The `k`-th shape row group is what `section_shape_ok` allows for the
/// `k`-th processed section, against the per-line graphs `gins`/`gouts`.
pub open spec fn line_group_ok(
    lines: Seq<Line>,
    gins: Seq<RouteGraph>,
    gouts: Seq<RouteGraph>,
    k: int,
    grp: Seq<RowS>,
) -> bool {
    let pp = processed_pairs(lines, 0);
    let li = pp[k].0;
    let si = pp[k].1;
    &&& 0 <= li < lines.len()
    &&& 0 <= si < lines[li].route_sections@.len()
    &&& section_shape_ok(
        dir_graph(lines[li].route_sections@[si], gins[li], gouts[li]),
        lines[li],
        lines[li].route_sections@[si],
        stops_recs_spec(lines),
        grp,
    )
}

/// The shape table decomposes into exactly one row group per processed
/// section, in order, each judged against well-formed graphs that are
/// exactly the fold of single insertions over the decoded linestring
/// paths of that line's own inbound and outbound sequences.
pub open spec fn shapes_clause(
    lines: Seq<Line>,
    shapes: Seq<RowS>,
    gs: Seq<Seq<RowS>>,
    gins: Seq<RouteGraph>,
    gouts: Seq<RouteGraph>,
) -> bool {
    &&& shapes == flatten_groups(gs)
    &&& gins.len() == lines.len()
    &&& gouts.len() == lines.len()
    &&& forall|t: int|
        0 <= t < lines.len() ==> (#[trigger] gins[t]).wf() && gins[t].model()
            == crate::graph::add_paths_model(
            crate::graph::empty_model(),
            crate::geometry::linestrings_paths_spec(sequence_views(lines[t].inbound_sequence), 0),
            0,
        )
    &&& forall|t: int|
        0 <= t < lines.len() ==> (#[trigger] gouts[t]).wf() && gouts[t].model()
            == crate::graph::add_paths_model(
            crate::graph::empty_model(),
            crate::geometry::linestrings_paths_spec(sequence_views(lines[t].outbound_sequence), 0),
            0,
        )
    &&& gs.len() == processed_pairs(lines, 0).len()
    &&& forall|k: int| 0 <= k < gs.len() ==> line_group_ok(lines, gins, gouts, k, #[trigger] gs[k])
}

/// Assembles the seven GTFS tables from a batch of enriched lines.
#[verifier::rlimit(100)]
pub fn build_gtfs(lines: &Vec<Line>) -> (feed: GtfsFeed)
    ensures
        table_view(feed.agency@) == agency_spec(),
        table_view(feed.routes@) == lines@.map_values(|l: Line| route_row_spec(l)),
        table_view(feed.stops@) == stops_recs_spec(lines@).map_values(|x: SRec| stop_row_spec(x)),
        table_view(feed.calendar@) == calendar_spec(),
        table_view(feed.trips@) == trips_spec(lines@, 0),
        table_view(feed.stop_times@) == stop_times_spec(lines@, 0),
        exists|gs: Seq<Seq<RowS>>, gins: Seq<RouteGraph>, gouts: Seq<RouteGraph>|
            shapes_clause(lines@, table_view(feed.shapes@), gs, gins, gouts),
{
    let recs = stop_records(lines);
    let mut routes: Vec<Route> = Vec::new();
    let mut i: usize = 0;
    while i < lines.len()
        invariant
            i <= lines@.len(),
            routes@.len() == i,
            forall|t: int|
                0 <= t < i ==> (#[trigger] routes@[t]).inbound_graph.wf() && routes@[
                    t
                ].outbound_graph.wf() && routes@[t].line == &lines@[t],
            forall|t: int|
                0 <= t < i ==> (#[trigger] routes@[t]).inbound_graph.model()
                    == crate::graph::add_paths_model(
                    crate::graph::empty_model(),
                    crate::geometry::linestrings_paths_spec(
                        sequence_views(lines@[t].inbound_sequence),
                        0,
                    ),
                    0,
                ) && routes@[t].outbound_graph.model() == crate::graph::add_paths_model(
                    crate::graph::empty_model(),
                    crate::geometry::linestrings_paths_spec(
                        sequence_views(lines@[t].outbound_sequence),
                        0,
                    ),
                    0,
                ),
        decreases lines@.len() - i,
    {
        routes.push(Route::new(&lines[i]));
        i = i + 1;
    }
    let shapes = shapes_rows(&routes, &recs);
    proof {
        lemma_shapes_clause_transfer(lines@, routes@, recs_view(recs@), table_view(shapes@));
    }
    let stops = stops_rows(&recs);
    let feed = GtfsFeed {
        agency: agency_rows(),
        routes: routes_rows(lines),
        stops,
        calendar: calendar_rows(),
        trips: trips_rows(lines),
        stop_times: stop_times_rows(lines),
        shapes,
    };
    proof {
        assert(table_view(feed.shapes@) == table_view(shapes@));
        let (gs, gins, gouts) = choose|gs: Seq<Seq<RowS>>, gins: Seq<RouteGraph>, gouts: Seq<
            RouteGraph,
        >| shapes_clause(lines@, table_view(shapes@), gs, gins, gouts);
        assert(shapes_clause(lines@, table_view(feed.shapes@), gs, gins, gouts));
    }
    feed
}

/// Encodes the feed as the seven GTFS files, each a name and its CSV
/// text (header line first).
pub fn feed_files(feed: &GtfsFeed) -> (r: Vec<(String, String)>)
    ensures
        r@.len() == 7,
        r@[0].0@ == "agency.txt"@ && r@[0].1@ == table_csv(
            seq![seq!["agency_id"@, "agency_name"@, "agency_url"@, "agency_timezone"@]]
                + table_view(feed.agency@),
        ),
        r@[1].0@ == "routes.txt"@ && r@[1].1@ == table_csv(
            seq![
                seq![
                    "route_id"@,
                    "agency_id"@,
                    "route_color"@,
                    "route_short_name"@,
                    "route_long_name"@,
                    "route_type"@,
                ],
            ] + table_view(feed.routes@),
        ),
        r@[2].0@ == "stops.txt"@ && r@[2].1@ == table_csv(
            seq![seq!["stop_id"@, "stop_name"@, "stop_lat"@, "stop_lon"@]] + table_view(
                feed.stops@,
            ),
        ),
        r@[3].0@ == "calendar.txt"@ && r@[3].1@ == table_csv(
            seq![
                seq![
                    "service_id"@,
                    "monday"@,
                    "tuesday"@,
                    "wednesday"@,
                    "thursday"@,
                    "friday"@,
                    "saturday"@,
                    "sunday"@,
                    "start_date"@,
                    "end_date"@,
                ],
            ] + table_view(feed.calendar@),
        ),
        r@[4].0@ == "trips.txt"@ && r@[4].1@ == table_csv(
            seq![seq!["route_id"@, "service_id"@, "trip_id"@, "direction"@, "shape_id"@]]
                + table_view(feed.trips@),
        ),
        r@[5].0@ == "stop_times.txt"@ && r@[5].1@ == table_csv(
            seq![
                seq![
                    "trip_id"@,
                    "stop_id"@,
                    "stop_sequence"@,
                    "arrival_time"@,
                    "departure_time"@,
                ],
            ] + table_view(feed.stop_times@),
        ),
        r@[6].0@ == "shapes.txt"@ && r@[6].1@ == table_csv(
            seq![seq!["shape_id"@, "shape_pt_lat"@, "shape_pt_lon"@, "shape_pt_sequence"@]]
                + table_view(feed.shapes@),
        ),
{
    let mut r: Vec<(String, String)> = Vec::new();
    r.push(("agency.txt".to_owned(), encode_table(&agency_header(), &feed.agency)));
    r.push(("routes.txt".to_owned(), encode_table(&routes_header(), &feed.routes)));
    r.push(("stops.txt".to_owned(), encode_table(&stops_header(), &feed.stops)));
    r.push(("calendar.txt".to_owned(), encode_table(&calendar_header(), &feed.calendar)));
    r.push(("trips.txt".to_owned(), encode_table(&trips_header(), &feed.trips)));
    r.push(("stop_times.txt".to_owned(), encode_table(&stop_times_header(), &feed.stop_times)));
    r.push(("shapes.txt".to_owned(), encode_table(&shapes_header(), &feed.shapes)));
    r
}

/// Two consecutive route sections with the same grouping id get exactly
/// one pass: the second contributes no trip and no stop-time records.
pub proof fn lemma_duplicate_section_one_pass(l: Line, s1: RouteSection, s2: RouteSection)
    requires
        route_section_id_spec(l, s1) == route_section_id_spec(l, s2),
    ensures
        line_trip_rows(l, seq![s1, s2], 0, Set::empty()) == section_trip_rows(l, s1),
        line_st_rows(l, seq![s1, s2], 0, Set::empty()) == section_st_rows(l, s1),
{
    let secs = seq![s1, s2];
    let sid = route_section_id_spec(l, s1);
    assert(Set::<Seq<char>>::empty().insert(sid).contains(route_section_id_spec(l, secs[1])));
    assert(line_trip_rows(l, secs, 2, Set::empty().insert(sid)) == Seq::<RowS>::empty());
    assert(line_trip_rows(l, secs, 1, Set::empty().insert(sid)) == Seq::<RowS>::empty());
    assert(line_trip_rows(l, secs, 0, Set::empty()) =~= section_trip_rows(l, s1));
    assert(line_st_rows(l, secs, 2, Set::empty().insert(sid)) == Seq::<RowS>::empty());
    assert(line_st_rows(l, secs, 1, Set::empty().insert(sid)) == Seq::<RowS>::empty());
    assert(line_st_rows(l, secs, 0, Set::empty()) =~= section_st_rows(l, s1));
}

/// A two-digit zero-padded rendering exposes its two digits.
proof fn lemma_pad2_two_digits(n: int)
    requires
        0 <= n < 100,
    ensures
        pad2_str(n).len() == 2,
        pad2_str(n)[0] == crate::strutil::digit_char(n / 10),
        pad2_str(n)[1] == crate::strutil::digit_char(n % 10),
{
    if n < 10 {
        assert(pad2_str(n) == seq!['0'] + dec_str(n));
        assert(dec_str(n) == seq![crate::strutil::digit_char(n)]);
        assert(crate::strutil::digit_char(0) == '0');
    } else {
        assert(dec_str(n) == dec_str(n / 10).push(crate::strutil::digit_char(n % 10)));
        assert(dec_str(n / 10) == seq![crate::strutil::digit_char(n / 10)]);
    }
}

/// Zero-padded hour–minute renderings are injective: distinct times give
/// distinct `HH:MM:SS` strings.
proof fn lemma_hm_fmt_injective(h1: int, m1: int, h2: int, m2: int)
    requires
        0 <= h1,
        0 <= h2,
        0 <= m1 < 60,
        0 <= m2 < 60,
        h1 != h2 || m1 != m2,
    ensures
        hm_fmt(h1, m1) != hm_fmt(h2, m2),
{
    lemma_pad2_two_digits(m1);
    lemma_pad2_two_digits(m2);
    let t1 = hm_fmt(h1, m1);
    let t2 = hm_fmt(h2, m2);
    let len1 = pad2_str(h1).len() as int;
    let len2 = pad2_str(h2).len() as int;
    if t1 == t2 {
        assert(t1.len() == len1 + 6);
        assert(t2.len() == len2 + 6);
        assert(len1 == len2);
        assert forall|x: int| 0 <= x < len1 implies pad2_str(h1)[x] == pad2_str(h2)[x] by {
            assert(t1[x] == pad2_str(h1)[x]);
            assert(t2[x] == pad2_str(h2)[x]);
        }
        assert(pad2_str(h1) =~= pad2_str(h2));
        if h1 != h2 {
            crate::strutil::lemma_pad2_injective(h1, h2);
        }
        assert(h1 == h2);
        assert forall|x: int| 0 <= x < 2 implies pad2_str(m1)[x] == pad2_str(m2)[x] by {
            assert(t1[len1 + 1 + x] == pad2_str(m1)[x]);
            assert(t2[len1 + 1 + x] == pad2_str(m2)[x]);
        }
        assert(pad2_str(m1) =~= pad2_str(m2));
        if m1 != m2 {
            crate::strutil::lemma_pad2_injective(m1, m2);
        }
        assert(false);
    }
}

/// Trip id determinism and distinctness: the trip key is a function of
/// the line, section, schedule and journey alone, and two journeys of the
/// same schedule with the same departure hour but different departure
/// minutes have different keys — so their identifiers are digests of
/// different inputs.
pub proof fn lemma_trip_key_distinct_minutes(
    l: Line,
    sec: RouteSection,
    sched: Schedule,
    j1: KnownJourney,
    j2: KnownJourney,
)
    requires
        j1.hour@ == j2.hour@,
        time_fmt_spec(j1, 0) is Some,
        time_fmt_spec(j2, 0) is Some,
        dec_val(j1.minute@) != dec_val(j2.minute@),
    ensures
        trip_key_spec(l, sec, sched, j1) != trip_key_spec(l, sec, sched, j2),
{
    let h = dec_val(j1.hour@);
    let m1 = dec_val(j1.minute@);
    let m2 = dec_val(j2.minute@);
    crate::strutil::lemma_dec_val_nonneg(j1.minute@);
    crate::strutil::lemma_dec_val_nonneg(j2.minute@);
    crate::strutil::lemma_dec_val_nonneg(j1.hour@);
    assert(m1 == 60 * (m1 / 60) + m1 % 60);
    assert(m2 == 60 * (m2 / 60) + m2 % 60);
    assert(h + m1 / 60 != h + m2 / 60 || m1 % 60 != m2 % 60);
    lemma_hm_fmt_injective(h + m1 / 60, m1 % 60, h + m2 / 60, m2 % 60);
    let t1 = hm_fmt(h + (m1 + 0) / 60, (m1 + 0) % 60);
    let t2 = hm_fmt(h + (m2 + 0) / 60, (m2 + 0) % 60);
    assert(time_fmt_spec(j1, 0) == Some(t1));
    assert(time_fmt_spec(j2, 0) == Some(t2));
    assert(t1 != t2);
    let p = l.id@ + sec.originator@ + sec.destination@ + sched.name@;
    lemma_concat_distinct_suffix(p, t1, t2);
    assert(trip_key_spec(l, sec, sched, j1) == Some(p + t1));
    assert(trip_key_spec(l, sec, sched, j2) == Some(p + t2));
}

/// Appending distinct suffixes to a common prefix gives distinct strings.
proof fn lemma_concat_distinct_suffix(p: Seq<char>, t1: Seq<char>, t2: Seq<char>)
    requires
        t1 != t2,
    ensures
        p + t1 != p + t2,
{
    if p + t1 == p + t2 {
        assert((p + t1).len() == p.len() + t1.len());
        assert((p + t2).len() == p.len() + t2.len());
        assert(t1.len() == t2.len());
        assert forall|x: int| 0 <= x < t1.len() implies t1[x] == t2[x] by {
            assert((p + t1)[p.len() + x] == t1[x]);
            assert((p + t2)[p.len() + x] == t2[x]);
        }
        assert(t1 =~= t2);
        assert(false);
    }
}

/// Two journeys of the same schedule with the same departure minute but
/// different departure hours also have different trip keys.
pub proof fn lemma_trip_key_distinct_hours(
    l: Line,
    sec: RouteSection,
    sched: Schedule,
    j1: KnownJourney,
    j2: KnownJourney,
)
    requires
        j1.minute@ == j2.minute@,
        time_fmt_spec(j1, 0) is Some,
        time_fmt_spec(j2, 0) is Some,
        dec_val(j1.hour@) != dec_val(j2.hour@),
    ensures
        trip_key_spec(l, sec, sched, j1) != trip_key_spec(l, sec, sched, j2),
{
    let h1 = dec_val(j1.hour@);
    let h2 = dec_val(j2.hour@);
    let m = dec_val(j1.minute@);
    crate::strutil::lemma_dec_val_nonneg(j1.minute@);
    crate::strutil::lemma_dec_val_nonneg(j1.hour@);
    crate::strutil::lemma_dec_val_nonneg(j2.hour@);
    lemma_hm_fmt_injective(h1 + m / 60, m % 60, h2 + m / 60, m % 60);
    let t1 = hm_fmt(h1 + (m + 0) / 60, (m + 0) % 60);
    let t2 = hm_fmt(h2 + (m + 0) / 60, (m + 0) % 60);
    assert(time_fmt_spec(j1, 0) == Some(t1));
    assert(time_fmt_spec(j2, 0) == Some(t2));
    let p = l.id@ + sec.originator@ + sec.destination@ + sched.name@;
    lemma_concat_distinct_suffix(p, t1, t2);
    assert(trip_key_spec(l, sec, sched, j1) == Some(p + t1));
    assert(trip_key_spec(l, sec, sched, j2) == Some(p + t2));
}

/// Rephrases the per-route shape decomposition over the underlying
/// lines: the same groups, judged against the per-line graph sequences.
proof fn lemma_shapes_clause_transfer<'a>(
    lines: Seq<Line>,
    routes: Seq<Route<'a>>,
    recs: Seq<SRec>,
    shapes: Seq<RowS>,
)
    requires
        routes.len() == lines.len(),
        forall|t: int|
            0 <= t < routes.len() ==> (#[trigger] routes[t]).inbound_graph.wf() && routes[
                t
            ].outbound_graph.wf() && routes[t].line == &lines[t],
        forall|t: int|
            0 <= t < routes.len() ==> (#[trigger] routes[t]).inbound_graph.model()
                == crate::graph::add_paths_model(
                crate::graph::empty_model(),
                crate::geometry::linestrings_paths_spec(
                    sequence_views(lines[t].inbound_sequence),
                    0,
                ),
                0,
            ) && routes[t].outbound_graph.model() == crate::graph::add_paths_model(
                crate::graph::empty_model(),
                crate::geometry::linestrings_paths_spec(
                    sequence_views(lines[t].outbound_sequence),
                    0,
                ),
                0,
            ),
        recs == stops_recs_spec(lines),
        exists|gs: Seq<Seq<RowS>>| shapes_groups_ok(routes, recs, gs, shapes),
    ensures
        exists|gs: Seq<Seq<RowS>>, gins: Seq<RouteGraph>, gouts: Seq<RouteGraph>|
            shapes_clause(lines, shapes, gs, gins, gouts),
{
    let gs = choose|gs: Seq<Seq<RowS>>| shapes_groups_ok(routes, recs, gs, shapes);
    let gins = routes.map_values(|r: Route<'a>| r.inbound_graph);
    let gouts = routes.map_values(|r: Route<'a>| r.outbound_graph);
    assert(routes_lines(routes) =~= lines);
    assert forall|t: int| 0 <= t < lines.len() implies (#[trigger] gins[t]).wf() && gins[
        t
    ].model() == crate::graph::add_paths_model(
        crate::graph::empty_model(),
        crate::geometry::linestrings_paths_spec(sequence_views(lines[t].inbound_sequence), 0),
        0,
    ) by {
        assert(gins[t] == routes[t].inbound_graph);
    }
    assert forall|t: int| 0 <= t < lines.len() implies (#[trigger] gouts[t]).wf() && gouts[
        t
    ].model() == crate::graph::add_paths_model(
        crate::graph::empty_model(),
        crate::geometry::linestrings_paths_spec(sequence_views(lines[t].outbound_sequence), 0),
        0,
    ) by {
        assert(gouts[t] == routes[t].outbound_graph);
    }
    assert forall|k: int| 0 <= k < gs.len() implies line_group_ok(
        lines,
        gins,
        gouts,
        k,
        #[trigger] gs[k],
    ) by {
        assert(route_group_ok(routes, recs, k, gs[k]));
        let pp = processed_pairs(lines, 0);
        let li = pp[k].0;
        let si = pp[k].1;
        assert(gins[li] == routes[li].inbound_graph);
        assert(gouts[li] == routes[li].outbound_graph);
        assert(*routes[li].line == lines[li]);
    }
    assert(shapes_clause(lines, shapes, gs, gins, gouts));
}

} // verus!

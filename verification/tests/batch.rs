use tfl_gtfs::batch::{count_route_sections, duplicate_line_flags, sample};
use tfl_gtfs::format::{parse_output_format, OutputFormat};
use tfl_gtfs::line::Line;
use std::str::FromStr;

fn line(id: &str) -> Line {
    Line {
        id: id.to_owned(),
        name: id.to_owned(),
        mode_name: "tube".to_owned(),
        color: "".to_owned(),
        route_sections: Vec::new(),
        stops: None,
        inbound_sequence: None,
        outbound_sequence: None,
    }
}

#[test]
fn sample_test() {
    assert_eq!(sample(vec![0; 100], 200).len(), 100);
    assert_eq!(sample(vec![0; 100], 10).len(), 10);
}

#[test]
fn duplicate_lines_are_flagged() {
    let lines = vec![line("a"), line("b"), line("a")];
    assert_eq!(duplicate_line_flags(&lines), vec![false, false, true]);
}

#[test]
fn route_sections_are_counted() {
    let lines = vec![line("a"), line("b")];
    assert_eq!(count_route_sections(&lines), Some(0));
}

#[test]
fn output_format_parses() {
    assert_eq!(OutputFormat::from_str("gtfs"), Ok(OutputFormat::GTFS));
    assert_eq!(OutputFormat::from_str("json"), Ok(OutputFormat::JSON));
    assert_eq!(OutputFormat::from_str("none"), Ok(OutputFormat::NoOutput));
    assert!(OutputFormat::from_str("xml").is_err());
    assert_eq!(parse_output_format("gtfs"), Ok(OutputFormat::GTFS));
    assert_eq!(parse_output_format("xml"), Err("Unexpected output format"));
}

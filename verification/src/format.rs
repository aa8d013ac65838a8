//! The output formats a run can produce.

use vstd::prelude::*;
use core::str::FromStr;
use crate::strutil::str_eq;

verus! {

/// The output format selected on the command line.
#[derive(Debug, PartialEq, Eq, Structural)]
pub enum OutputFormat {
    GTFS,
    JSON,
    NoOutput,
}

/// Parses "gtfs", "json" or "none" into the output format; anything else
/// is rejected with a fixed message.
pub fn parse_output_format(value: &str) -> (r: Result<OutputFormat, &'static str>)
    ensures
        value@ == "gtfs"@ ==> r == Ok::<OutputFormat, &'static str>(OutputFormat::GTFS),
        value@ == "json"@ ==> r == Ok::<OutputFormat, &'static str>(OutputFormat::JSON),
        value@ == "none"@ ==> r == Ok::<OutputFormat, &'static str>(OutputFormat::NoOutput),
        value@ != "gtfs"@ && value@ != "json"@ && value@ != "none"@ ==> (r matches Err(e)
            && e@ == "Unexpected output format"@),
{
    proof {
        reveal_strlit("gtfs");
        reveal_strlit("json");
        reveal_strlit("none");
        assert("gtfs"@[0] == 'g');
        assert("json"@[0] == 'j');
        assert("none"@[0] == 'n');
    }
    if str_eq(value, "gtfs") {
        Ok(OutputFormat::GTFS)
    } else if str_eq(value, "json") {
        Ok(OutputFormat::JSON)
    } else if str_eq(value, "none") {
        Ok(OutputFormat::NoOutput)
    } else {
        Err("Unexpected output format")
    }
}

impl FromStr for OutputFormat {
    type Err = &'static str;

    /// Parses "gtfs", "json" or "none"; anything else is rejected.
    fn from_str(value: &str) -> Result<Self, Self::Err> {
        parse_output_format(value)
    }
}

} // verus!

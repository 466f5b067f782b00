use vstd::prelude::*;

verus! {

/// A reading of a clock as the system prompt shows it.
pub struct ClockReading {
    /// Weekday and date, such as `Wednesday, February 05, 2025`.
    pub date: String,
    /// Time of day, with the zone name where the clock has one.
    pub time: String,
    /// The instant in RFC 3339 form.
    pub rfc3339: String,
}

/// Relies on `chrono::Utc::now` and its `format` and `to_rfc3339`. Nothing is
/// known of the values.
#[verifier::external_body]
fn utc_reading() -> (r: ClockReading) {
    let now = chrono::Utc::now();
    ClockReading {
        date: now.format("%A, %B %d, %Y").to_string(),
        time: now.format("%H:%M:%S").to_string(),
        rfc3339: now.to_rfc3339(),
    }
}

/// Relies on `chrono::Local::now` and its `format` and `to_rfc3339`. Nothing is
/// known of the values.
#[verifier::external_body]
fn local_reading() -> (r: ClockReading) {
    let now = chrono::Local::now();
    ClockReading {
        date: now.format("%A, %B %d, %Y").to_string(),
        time: now.format("%H:%M:%S %Z").to_string(),
        rfc3339: now.to_rfc3339(),
    }
}

/// The date/time context for two clock readings.
pub open spec fn datetime_text(utc: ClockReading, local: ClockReading) -> Seq<char> {
    "Current date/time: "@ + utc.date@ + ", "@ + utc.time@ + " UTC ("@ + utc.rfc3339@ + ")\nLocal time: "@
        + local.date@ + ", "@ + local.time@ + " ("@ + local.rfc3339@ + ")"@
}

/// The date/time context for the given readings of the UTC and local clocks.
pub fn format_datetime_context(utc: &ClockReading, local: &ClockReading) -> (r: String)
    ensures
        r@ == datetime_text(*utc, *local),
{
    let mut out = String::from_str("Current date/time: ");
    out.append(utc.date.as_str());
    out.append(", ");
    out.append(utc.time.as_str());
    out.append(" UTC (");
    out.append(utc.rfc3339.as_str());
    out.append(")\nLocal time: ");
    out.append(local.date.as_str());
    out.append(", ");
    out.append(local.time.as_str());
    out.append(" (");
    out.append(local.rfc3339.as_str());
    out.append(")");
    out
}

/// The current date and time in UTC and local time, for a system prompt.
pub fn get_datetime_context() -> (r: String)
    ensures
        exists|u: ClockReading, l: ClockReading| r@ == #[trigger] datetime_text(u, l),
{
    let utc = utc_reading();
    let local = local_reading();
    format_datetime_context(&utc, &local)
}

/// A system message that tells the model the current date and time.
pub fn build_datetime_system_message() -> (r: String)
    ensures
        exists|u: ClockReading, l: ClockReading| r@ == #[trigger] datetime_text(u, l),
{
    get_datetime_context()
}

} // verus!

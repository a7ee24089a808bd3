//! The uniform failure value threaded through the whole crate.
//!
//! Every fallible operation returns `InternalError`: a stable code that
//! identifies the failure kind and a human-readable message. The code is
//! the value contracts speak about; the message is free text for display.

use crate::data_base::json::is_digit;
use vstd::prelude::*;

verus! {

/// The shape of a local date-time rendering: `YYYY-MM-DD` followed by a
/// space and a time part that contains no further space.
pub open spec fn local_datetime_shape(s: Seq<char>) -> bool {
    s.len() >= 11 && is_digit(s[0]) && is_digit(s[1]) && is_digit(s[2]) && is_digit(s[3]) && s[4]
        == '-' && is_digit(s[5]) && is_digit(s[6]) && s[7] == '-' && is_digit(s[8]) && is_digit(
        s[9],
    ) && s[10] == ' ' && (forall|k: int| 11 <= k < s.len() ==> s[k] != ' ')
}

/// The display form of a date-time rendering: the date turned around to
/// `DD.MM.YYYY`, the time part kept as it is.
pub open spec fn date_display(s: Seq<char>) -> Seq<char>
    recommends
        local_datetime_shape(s),
{
    s.subrange(8, 10) + seq!['.'] + s.subrange(5, 7) + seq!['.'] + s.subrange(0, 4) + seq![' ']
        + s.subrange(11, s.len() as int)
}

/// Relies on `chrono::DateTime::from_timestamp`, the conversion into
/// the `Local` time zone, and `NaiveDateTime`'s display form, which is
/// `YYYY-MM-DD HH:MM:SS` with an optional fraction. The local civil
/// time depends on the machine's time zone, so only the shape is
/// promised; the timestamp bound keeps the year at four digits in every
/// time zone and inside the range `from_timestamp` accepts.
#[verifier::external_body]
fn local_datetime_string(timestamp: i64) -> (r: String)
    requires
        0 <= timestamp <= 250000000000,
    ensures
        local_datetime_shape(r@),
{
    let date_time = match chrono::DateTime::from_timestamp(timestamp, 0) {
        Some(d) => d,
        None => return String::new(),
    };
    let local: chrono::DateTime<chrono::Local> = chrono::DateTime::from(date_time);
    local.naive_local().to_string()
}

/// Renders a timestamp for display: the local civil date turned around
/// to `DD.MM.YYYY`, then the local time of day.
pub fn timestamp_as_date(timestamp: i64) -> (r: String)
    requires
        0 <= timestamp <= 250000000000,
    ensures
        exists|s: Seq<char>| #[trigger]
            local_datetime_shape(s) && r@ == date_display(s),
{
    let s = local_datetime_string(timestamp);
    let st = s.as_str();
    let n = st.unicode_len();
    let mut out = String::new();
    out.append(st.substring_char(8, 10));
    out.append(".");
    out.append(st.substring_char(5, 7));
    out.append(".");
    out.append(st.substring_char(0, 4));
    out.append(" ");
    out.append(st.substring_char(11, n));
    proof {
        reveal_strlit(".");
        reveal_strlit(" ");
        assert(out@ =~= date_display(st@));
    }
    out
}

/// A failure value with a stable code and a human-readable message.
#[derive(Debug)]
pub struct InternalError {
    code: String,
    message: String,
}

impl InternalError {
    /// The stable code, as contracts see it.
    pub closed spec fn spec_code(&self) -> Seq<char> {
        self.code@
    }

    /// The message, as contracts see it.
    pub closed spec fn spec_message(&self) -> Seq<char> {
        self.message@
    }

    pub fn new(code: &str, message: &str) -> (e: Self)
        ensures
            e.spec_code() == code@,
            e.spec_message() == message@,
    {
        Self { code: code.to_owned(), message: message.to_owned() }
    }

    pub fn code(&self) -> (r: String)
        ensures
            r@ == self.spec_code(),
    {
        self.code.clone()
    }

    pub fn message(&self) -> (r: String)
        ensures
            r@ == self.spec_message(),
    {
        self.message.clone()
    }

    /// The rendering shown to the user: `<message> - <code>`.
    pub fn toast_message(&self) -> (r: String)
        ensures
            r@ == self.spec_message() + " - "@ + self.spec_code(),
    {
        let mut r = self.message.clone();
        r.append(" - ");
        r.append(self.code.as_str());
        r
    }
}

} // verus!

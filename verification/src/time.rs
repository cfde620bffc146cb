//! Points in time, at nanosecond precision, and their text forms.
use vstd::prelude::*;

verus! {

/// The instants that exist: years -262143 to 262142, a fraction below one
/// second, and up to one more within the last second of a minute.
pub open spec fn valid_instant(secs: int, nanos: int) -> bool {
    &&& -8334601228800 <= secs <= 8210266876799
    &&& 0 <= nanos < 2_000_000_000
    &&& nanos >= 1_000_000_000 ==> secs % 60 == 59
}

/// The text `DateTime<Utc>::to_rfc3339` gives for an instant.
pub uninterp spec fn rfc3339_text(secs: i64, nanos: u32) -> Seq<char>;

/// The text `DateTime<Utc>::format` gives for an instant under `%Y-%m-%d`.
pub uninterp spec fn date_text(secs: i64, nanos: u32) -> Seq<char>;

/// The text `DateTime<Utc>` is displayed as.
pub uninterp spec fn display_text(secs: i64, nanos: u32) -> Seq<char>;

/// What `DateTime::parse_from_rfc3339` reads from a text: whole seconds since
/// the epoch and the fraction in nanoseconds.
pub uninterp spec fn rfc3339_value(text: Seq<char>) -> Option<(i64, u32)>;

/// `chrono::DateTime<Utc>::to_rfc3339`: the text is a function of the instant
/// alone. The instant exists, so the conversion to chrono's type succeeds.
#[verifier::external_body]
fn render_rfc3339(secs: i64, nanos: u32) -> (r: String)
    requires
        valid_instant(secs as int, nanos as int),
    ensures
        r@ == rfc3339_text(secs, nanos),
{
    chrono::DateTime::<chrono::Utc>::from_timestamp(secs, nanos).unwrap().to_rfc3339()
}

/// `chrono::DateTime<Utc>::format` with the pattern `%Y-%m-%d`: the text is a
/// function of the instant alone.
#[verifier::external_body]
fn render_date(secs: i64, nanos: u32) -> (r: String)
    requires
        valid_instant(secs as int, nanos as int),
    ensures
        r@ == date_text(secs, nanos),
{
    chrono::DateTime::<chrono::Utc>::from_timestamp(secs, nanos).unwrap().format("%Y-%m-%d").to_string()
}

/// `chrono::DateTime<Utc>` under `Display`: the text is a function of the
/// instant alone.
#[verifier::external_body]
fn render_display(secs: i64, nanos: u32) -> (r: String)
    requires
        valid_instant(secs as int, nanos as int),
    ensures
        r@ == display_text(secs, nanos),
{
    chrono::DateTime::<chrono::Utc>::from_timestamp(secs, nanos).unwrap().to_string()
}

/// `chrono::DateTime::parse_from_rfc3339`: what it reads, and whether it reads
/// anything, is a function of the text alone.
#[verifier::external_body]
fn read_rfc3339(text: &str) -> (r: Option<(i64, u32)>)
    ensures
        r == rfc3339_value(text@),
{
    match chrono::DateTime::parse_from_rfc3339(text) {
        Ok(at) => Some((at.timestamp(), at.timestamp_subsec_nanos())),
        Err(_) => None,
    }
}

/// A point in time, in UTC.
#[derive(Debug, Clone, Copy, PartialEq, Eq)]
pub struct Timestamp {
    whole: i64,
    fraction: u32,
}

/// The last second there is.
pub const LAST_SECOND: i64 = 8210266876799;

/// The fraction of an instant so many seconds after another: a leap second is
/// left behind.
pub open spec fn fraction_after(nanos: int, secs: int) -> int {
    if nanos >= 1_000_000_000 && secs > 0 {
        nanos - 1_000_000_000
    } else {
        nanos
    }
}

/// By how many seconds a leap second between two instants moves them apart.
pub open spec fn leap_shift(a_secs: int, a_nanos: int, b_secs: int, b_nanos: int) -> int {
    if a_secs % 86400 > b_secs % 86400 && b_nanos >= 1_000_000_000 {
        1
    } else if a_secs % 86400 < b_secs % 86400 && a_nanos >= 1_000_000_000 {
        -1
    } else {
        0
    }
}

/// The nanoseconds from the second instant to the first.
pub open spec fn span(a_secs: int, a_nanos: int, b_secs: int, b_nanos: int) -> int {
    (a_secs - b_secs + leap_shift(a_secs, a_nanos, b_secs, b_nanos)) * 1_000_000_000 + a_nanos - b_nanos
}

/// The nanoseconds from `b` to `a`.
pub open spec fn elapsed(a: Timestamp, b: Timestamp) -> int {
    span(a.secs(), a.nanos(), b.secs(), b.nanos())
}

/// The seconds and the fraction of the instant that a text names.
pub open spec fn instant_in(text: Seq<char>) -> Option<(int, int)> {
    match rfc3339_value(text) {
        Some((secs, nanos)) => if valid_instant(secs as int, nanos as int) {
            Some((secs as int, nanos as int))
        } else {
            None
        },
        None => None,
    }
}

/// The seconds and the fraction of an instant.
pub open spec fn parts(at: Option<Timestamp>) -> Option<(int, int)> {
    match at {
        Some(at) => Some((at.secs(), at.nanos())),
        None => None,
    }
}

/// The whole seconds from `b` to `a`, the rest dropped.
pub open spec fn elapsed_secs(a: Timestamp, b: Timestamp) -> int {
    let ns = elapsed(a, b);
    if ns >= 0 {
        ns / 1_000_000_000
    } else {
        -((-ns) / 1_000_000_000)
    }
}

/// `a` comes before `b`.
pub open spec fn earlier(a: Timestamp, b: Timestamp) -> bool {
    a.secs() < b.secs() || (a.secs() == b.secs() && a.nanos() < b.nanos())
}

/// The second within its day.
fn second_of_day(secs: i64) -> (r: i64)
    requires
        -8334601228800 <= secs <= 8210266876799,
    ensures
        r == secs as int % 86400,
{
    // The shift is a whole number of days, and makes the dividend positive.
    (secs + 8334601228800) % 86400
}

impl Timestamp {
    /// Whole seconds since 1970-01-01T00:00:00Z.
    pub closed spec fn secs(self) -> int {
        self.whole as int
    }

    /// The fraction of the second, in nanoseconds.
    pub closed spec fn nanos(self) -> int {
        self.fraction as int
    }

    #[verifier::type_invariant]
    spec fn well_formed(self) -> bool {
        valid_instant(self.whole as int, self.fraction as int)
    }

    /// The instant, where there is one.
    pub fn at(secs: i64, nanos: u32) -> (r: Option<Timestamp>)
        ensures
            r is Some <==> valid_instant(secs as int, nanos as int),
            r is Some ==> r->0.secs() == secs && r->0.nanos() == nanos,
    {
        if secs < -8334601228800 || secs > 8210266876799 || nanos >= 2_000_000_000 {
            return None;
        }
        if nanos >= 1_000_000_000 {
            // Seconds within the minute; the shift makes the dividend positive.
            let within: i64 = (secs + 8334601228800) % 60;
            if within != 59 {
                return None;
            }
        }
        Some(Timestamp { whole: secs, fraction: nanos })
    }

    pub fn whole_secs(&self) -> (r: i64)
        ensures
            r == self.secs(),
            valid_instant(self.secs(), self.nanos()),
    {
        proof {
            use_type_invariant(self);
        }
        self.whole
    }

    pub fn fraction_nanos(&self) -> (r: u32)
        ensures
            r == self.nanos(),
    {
        self.fraction
    }

    /// The nanoseconds from `earlier` to this instant.
    pub fn since(&self, earlier: &Timestamp) -> (r: i128)
        ensures
            r == elapsed(*self, *earlier),
            -100_000_000_000_000_000_000_000 <= r <= 100_000_000_000_000_000_000_000,
    {
        proof {
            use_type_invariant(self);
            use_type_invariant(earlier);
        }
        let mine: i64 = second_of_day(self.whole);
        let theirs: i64 = second_of_day(earlier.whole);
        let shift: i64 = if mine > theirs && earlier.fraction >= 1_000_000_000 {
            1
        } else if mine < theirs && self.fraction >= 1_000_000_000 {
            -1
        } else {
            0
        };
        let secs: i64 = self.whole - earlier.whole + shift;
        (secs as i128) * 1_000_000_000 + self.fraction as i128 - earlier.fraction as i128
    }

    /// The whole seconds from `earlier` to this instant.
    pub fn seconds_since(&self, earlier: &Timestamp) -> (r: i64)
        ensures
            r == elapsed_secs(*self, *earlier),
    {
        let ns: i128 = self.since(earlier);
        if ns >= 0 {
            (ns / 1_000_000_000) as i64
        } else {
            -(((-ns) / 1_000_000_000) as i64)
        }
    }

    pub fn is_before(&self, other: &Timestamp) -> (r: bool)
        ensures
            r == earlier(*self, *other),
    {
        self.whole < other.whole || (self.whole == other.whole && self.fraction < other.fraction)
    }

    /// The instant so many seconds later, where there is one.
    pub fn plus_secs(&self, secs: u32) -> (r: Option<Timestamp>)
        ensures
            match r {
                Some(t) => t.secs() == self.secs() + secs && t.nanos() == fraction_after(self.nanos(), secs as int),
                None => self.secs() + secs > LAST_SECOND,
            },
    {
        proof {
            use_type_invariant(self);
        }
        let fraction: u32 = if self.fraction >= 1_000_000_000 && secs > 0 {
            self.fraction - 1_000_000_000
        } else {
            self.fraction
        };
        Timestamp::at(self.whole + secs as i64, fraction)
    }

    pub fn to_rfc3339(&self) -> (r: String)
        ensures
            r@ == rfc3339_text(self.secs() as i64, self.nanos() as u32),
    {
        proof {
            use_type_invariant(self);
        }
        render_rfc3339(self.whole, self.fraction)
    }

    pub fn to_date(&self) -> (r: String)
        ensures
            r@ == date_text(self.secs() as i64, self.nanos() as u32),
    {
        proof {
            use_type_invariant(self);
        }
        render_date(self.whole, self.fraction)
    }

    pub fn to_text(&self) -> (r: String)
        ensures
            r@ == display_text(self.secs() as i64, self.nanos() as u32),
    {
        proof {
            use_type_invariant(self);
        }
        render_display(self.whole, self.fraction)
    }

    /// The instant an RFC 3339 text names.
    pub fn from_rfc3339(text: &str) -> (r: Option<Timestamp>)
        ensures
            parts(r) == instant_in(text@),
    {
        match read_rfc3339(text) {
            Some((secs, nanos)) => Timestamp::at(secs, nanos),
            None => None,
        }
    }
}

} // verus!

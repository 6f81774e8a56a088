//! Instants on the UTC time line, as plain numbers.

use vstd::prelude::*;

verus! {

/// The earliest representable second, counted from 1970-01-01 00:00:00 UTC.
pub const MIN_SECS: i64 = -8334601228800;

/// The latest representable second, counted from 1970-01-01 00:00:00 UTC.
pub const MAX_SECS: i64 = 8210266876799;

/// Nanoseconds in one second.
pub const NANOS_PER_SEC: u32 = 1000000000;

/// Whether a second count and a nanosecond part name an instant.
///
/// The nanosecond part reaches into a second billion only inside a leap second,
/// which is always the last second of a minute.
pub open spec fn valid_instant(secs: i64, nanos: u32) -> bool {
    &&& MIN_SECS <= secs <= MAX_SECS
    &&& nanos < 2000000000
    &&& nanos >= NANOS_PER_SEC ==> (secs as int) % 60 == 59
}

/// What `chrono::DateTime::parse_from_rfc3339` makes of a text: the instant in
/// UTC as seconds and nanoseconds, or the text of its error.
pub uninterp spec fn rfc3339(text: Seq<char>) -> Result<(i64, u32), Seq<char>>;

/// How `chrono` displays the UTC instant with these seconds and nanoseconds.
pub uninterp spec fn utc_text(secs: i64, nanos: u32) -> Seq<char>;

/// Calls `chrono::DateTime::parse_from_rfc3339`.
///
/// Trusted: the outcome depends on the text alone and is named [`rfc3339`]; an
/// instant that comes back is one that `chrono` can represent.
#[verifier::external_body]
fn parse_rfc3339(text: &str) -> (r: Result<(i64, u32), String>)
    ensures
        match r {
            Ok(v) => rfc3339(text@) == Ok::<(i64, u32), Seq<char>>(v) && valid_instant(v.0, v.1),
            Err(e) => rfc3339(text@) == Err::<(i64, u32), Seq<char>>(e@),
        },
{
    match chrono::DateTime::parse_from_rfc3339(text) {
        Ok(at) => Ok((at.timestamp(), at.timestamp_subsec_nanos())),
        Err(e) => Err(e.to_string()),
    }
}

/// Calls `chrono::DateTime::from_timestamp` and displays the result.
///
/// Trusted: the text depends on the two numbers alone and is named
/// [`utc_text`]; for a valid instant `from_timestamp` always has a value.
#[verifier::external_body]
fn display_utc(secs: i64, nanos: u32) -> (r: String)
    requires
        valid_instant(secs, nanos),
    ensures
        r@ == utc_text(secs, nanos),
{
    chrono::DateTime::from_timestamp(secs, nanos).map_or(String::new(), |at| at.to_string())
}

/// An instant in UTC.
#[derive(Debug, Clone, Copy, PartialEq, Eq, Structural)]
pub struct Timestamp {
    secs: i64,
    nanos: u32,
}

impl Timestamp {
    #[verifier::type_invariant]
    spec fn inv(self) -> bool {
        valid_instant(self.secs, self.nanos)
    }

    /// Whole seconds since 1970-01-01 00:00:00 UTC.
    pub closed spec fn spec_secs(self) -> i64 {
        self.secs
    }

    /// Nanoseconds since the last whole second.
    pub closed spec fn spec_nanos(self) -> u32 {
        self.nanos
    }

    /// Whether `self` is `other` or later.
    pub open spec fn at_or_after(self, other: Timestamp) -> bool {
        self.spec_secs() > other.spec_secs() || (self.spec_secs() == other.spec_secs()
            && self.spec_nanos() >= other.spec_nanos())
    }

    /// Milliseconds since 1970-01-01 00:00:00 UTC.
    pub open spec fn spec_millis(self) -> int {
        self.spec_secs() * 1000 + self.spec_nanos() as int / 1000000
    }

    /// Nanoseconds since 1970-01-01 00:00:00 UTC, of any size.
    pub open spec fn spec_total_nanos(self) -> int {
        self.spec_secs() * 1000000000 + self.spec_nanos()
    }

    /// The displayed form of the instant.
    pub open spec fn spec_text(self) -> Seq<char> {
        utc_text(self.spec_secs(), self.spec_nanos())
    }

    /// The instant with these seconds and nanoseconds, if there is one.
    pub fn new(secs: i64, nanos: u32) -> (r: Option<Timestamp>)
        ensures
            r is Some <==> valid_instant(secs, nanos),
            r matches Some(t) ==> t.spec_secs() == secs && t.spec_nanos() == nanos,
    {
        if secs < MIN_SECS || secs > MAX_SECS || nanos >= 2000000000 {
            return None;
        }
        if nanos >= NANOS_PER_SEC {
            // Shifted by a whole number of minutes so that the remainder is
            // taken of a number that is not negative.
            let shifted: i64 = secs + 8334601228800;
            assert((secs as int) % 60 == (shifted as int) % 60) by {
                assert(8334601228800int == 60 * 138910020480);
            }
            if shifted % 60 != 59 {
                return None;
            }
        }
        Some(Timestamp { secs, nanos })
    }

    /// Whole seconds since 1970-01-01 00:00:00 UTC.
    pub fn secs(&self) -> (r: i64)
        ensures
            r == self.spec_secs(),
    {
        self.secs
    }

    /// Nanoseconds since the last whole second.
    pub fn nanos(&self) -> (r: u32)
        ensures
            r == self.spec_nanos(),
    {
        self.nanos
    }

    /// The instant an RFC 3339 text names, or why it names none.
    pub fn parse(text: &str) -> (r: Result<Timestamp, String>)
        ensures
            match r {
                Ok(t) => rfc3339(text@) == Ok::<(i64, u32), Seq<char>>(
                    (t.spec_secs(), t.spec_nanos()),
                ),
                Err(e) => rfc3339(text@) == Err::<(i64, u32), Seq<char>>(e@),
            },
    {
        match parse_rfc3339(text) {
            Ok(v) => Ok(Timestamp { secs: v.0, nanos: v.1 }),
            Err(e) => Err(e),
        }
    }

    /// The displayed form of the instant.
    pub fn text(&self) -> (r: String)
        ensures
            r@ == self.spec_text(),
    {
        proof {
            use_type_invariant(self);
        }
        display_utc(self.secs, self.nanos)
    }

    /// Whether `self` is `other` or later.
    pub fn is_at_or_after(&self, other: &Timestamp) -> (r: bool)
        ensures
            r == self.at_or_after(*other),
    {
        self.secs > other.secs || (self.secs == other.secs && self.nanos >= other.nanos)
    }

    /// The earlier of two instants.
    pub fn earlier(self, other: Timestamp) -> (r: Timestamp)
        ensures
            r == (if other.at_or_after(self) {
                self
            } else {
                other
            }),
    {
        if other.is_at_or_after(&self) {
            self
        } else {
            other
        }
    }

    /// Milliseconds since 1970-01-01 00:00:00 UTC.
    pub fn millis(&self) -> (r: i64)
        ensures
            r == self.spec_millis(),
    {
        proof {
            use_type_invariant(self);
        }
        self.secs * 1000 + (self.nanos / 1000000) as i64
    }

    /// Nanoseconds since 1970-01-01 00:00:00 UTC, where they fit.
    pub fn nanos_opt(&self) -> (r: Option<i64>)
        ensures
            match r {
                Some(n) => n == self.spec_total_nanos(),
                None => self.spec_total_nanos() < i64::MIN || self.spec_total_nanos() > i64::MAX,
            },
    {
        proof {
            use_type_invariant(self);
        }
        let total: i128 = (self.secs as i128) * 1000000000 + (self.nanos as i128);
        if total < -9223372036854775808i128 || total > 9223372036854775807i128 {
            None
        } else {
            Some(total as i64)
        }
    }
}

/// Any two instants are ordered one way or the other.
pub proof fn lemma_order_total(a: Timestamp, b: Timestamp)
    ensures
        a.at_or_after(b) || b.at_or_after(a),
        a.at_or_after(b) && b.at_or_after(a) ==> a == b,
{
}

/// Outside leap seconds one instant is at or after another exactly where at least
/// as many nanoseconds have passed since the epoch; a later second is later
/// whatever its nanoseconds are.
pub proof fn law_time_runs_forward(a: Timestamp, b: Timestamp)
    ensures
        a.spec_nanos() < 1000000000 && b.spec_nanos() < 1000000000 ==> (a.at_or_after(b)
            <==> a.spec_total_nanos() >= b.spec_total_nanos()),
        a.spec_secs() > b.spec_secs() ==> a.at_or_after(b) && !b.at_or_after(a),
        a.spec_secs() == b.spec_secs() ==> (a.at_or_after(b) <==> a.spec_nanos()
            >= b.spec_nanos()),
{
}

/// The milliseconds of an instant are its nanoseconds, cut to whole milliseconds,
/// and its nanoseconds count from its seconds.
pub proof fn law_units_of_an_instant_agree(t: Timestamp)
    ensures
        t.spec_millis() * 1000000 <= t.spec_total_nanos() < (t.spec_millis() + 1) * 1000000,
        t.spec_total_nanos() - t.spec_secs() * 1000000000 == t.spec_nanos(),
{
}

/// Every second from the earliest to the latest one names instants, with up to a second
/// of nanoseconds, and with a second more only at the end of a minute.
pub proof fn law_which_instants_there_are(secs: i64, nanos: u32)
    ensures
        nanos < 1000000000 ==> (valid_instant(secs, nanos) <==> -8334601228800 <= secs
            <= 8210266876799),
        nanos >= 2000000000 ==> !valid_instant(secs, nanos),
        1000000000 <= nanos < 2000000000 ==> (valid_instant(secs, nanos) <==> valid_instant(
            secs,
            0,
        ) && (secs + 1) % 60 == 0),
{
}

} // verus!

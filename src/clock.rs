use vstd::prelude::*;

verus! {

/// Largest Unix second that chrono can represent (December 31, 262142, 23:59:59 UTC).
pub const MAX_UNIX_SECS: u64 = 8210266876799;

pub const NANOS_PER_SEC: u32 = 1000000000;

pub const SECS_PER_HOUR: u64 = 3600;

/// A capture instant in UTC: whole seconds since the Unix epoch and the
/// nanoseconds past that second.
#[derive(Debug, Clone, Copy, PartialEq, Eq, Structural)]
pub struct UtcInstant {
    pub secs: u64,
    pub nanos: u32,
}

/// Text that chrono's `Debug` writes for the instant `secs` seconds and
/// `nanos` nanoseconds after the epoch.
pub uninterp spec fn stamp_text_of(secs: int, nanos: int) -> Seq<char>;

/// Text that chrono's `format("%Y-%m-%d_%HZ")` writes for the instant `secs`
/// seconds after the epoch.
pub uninterp spec fn hour_label_of(secs: int) -> Seq<char>;

impl UtcInstant {
    pub open spec fn wf(&self) -> bool {
        self.secs <= MAX_UNIX_SECS && self.nanos < NANOS_PER_SEC
    }

    /// Index of the UTC hour that holds the instant, counted from the epoch.
    pub open spec fn hour_spec(&self) -> int {
        self.secs as int / SECS_PER_HOUR as int
    }

    /// The instant, if `secs` and `nanos` denote one that chrono can represent.
    pub fn new(secs: u64, nanos: u32) -> (r: Option<UtcInstant>)
        ensures
            r is Some <==> (secs <= MAX_UNIX_SECS && nanos < NANOS_PER_SEC),
            r matches Some(t) ==> t.secs == secs && t.nanos == nanos && t.wf(),
    {
        if secs <= MAX_UNIX_SECS && nanos < NANOS_PER_SEC {
            Some(UtcInstant { secs, nanos })
        } else {
            None
        }
    }

    pub fn hour(&self) -> (r: u64)
        ensures
            r == self.hour_spec(),
    {
        self.secs / SECS_PER_HOUR
    }

    /// The instant's text as a record timestamp, e.g. `2024-01-01T00:59:59.5Z`.
    pub fn stamp(&self) -> (r: String)
        requires
            self.wf(),
        ensures
            r@ == stamp_text_of(self.secs as int, self.nanos as int),
            forall|i: int| 0 <= i < r@.len() ==> r@[i] != '\n',
    {
        debug_stamp(self.secs, self.nanos)
    }
}

/// Start, in seconds since the epoch, of the hour with index `hour`.
pub open spec fn hour_start(hour: int) -> int {
    hour * SECS_PER_HOUR as int
}

/// Key of the hour with index `hour`, e.g. `2024-01-01_00Z`.
pub fn hour_key(hour: u64) -> (r: String)
    requires
        hour <= MAX_UNIX_SECS / SECS_PER_HOUR,
    ensures
        r@ == hour_label_of(hour_start(hour as int)),
{
    let secs: u64 = hour * SECS_PER_HOUR;
    hour_label(secs)
}

/// Relies on std's `SystemTime::now` for the system clock, and on chrono's
/// `DateTime::from_timestamp`, which is `None` outside chrono's range, for the
/// instant it denotes. `None` when the clock reads before the epoch or past
/// chrono's last second; what it returns otherwise has fewer than a second
/// of nanoseconds.
#[verifier::external_body]
pub(crate) fn utc_now() -> (r: Option<UtcInstant>)
    ensures
        r matches Some(t) ==> t.wf(),
{
    let d = std::time::SystemTime::now().duration_since(std::time::UNIX_EPOCH).ok()?;
    let secs = i64::try_from(d.as_secs()).ok()?;
    let now = chrono::DateTime::from_timestamp(secs, d.subsec_nanos())?;
    Some(UtcInstant { secs: now.timestamp() as u64, nanos: now.timestamp_subsec_nanos() })
}

/// Relies on chrono's `DateTime::from_timestamp`, which is `Some` for every
/// non-negative second up to `MAX_UNIX_SECS` with fewer than a second of
/// nanoseconds, and on `Debug` for `DateTime<Utc>`, which writes the date,
/// `T`, the time of day with its fraction, and `Z`: no line break.
#[verifier::external_body]
fn debug_stamp(secs: u64, nanos: u32) -> (r: String)
    requires
        secs <= MAX_UNIX_SECS,
        nanos < NANOS_PER_SEC,
    ensures
        r@ == stamp_text_of(secs as int, nanos as int),
        forall|i: int| 0 <= i < r@.len() ==> r@[i] != '\n',
{
    let t = chrono::DateTime::from_timestamp(secs as i64, nanos).unwrap();
    format!("{:?}", t)
}

/// Relies on chrono's `DateTime::from_timestamp` (as above) and its
/// `format("%Y-%m-%d_%HZ")`.
#[verifier::external_body]
fn hour_label(secs: u64) -> (r: String)
    requires
        secs <= MAX_UNIX_SECS,
    ensures
        r@ == hour_label_of(secs as int),
{
    let t = chrono::DateTime::from_timestamp(secs as i64, 0).unwrap();
    t.format("%Y-%m-%d_%HZ").to_string()
}

} // verus!

use vstd::prelude::*;
use vstd::string::StringExecFns;
use crate::clock::{hour_key, hour_label_of, hour_start, utc_now, UtcInstant};

verus! {

/// Path of the log file for the hour whose key is `key`.
pub open spec fn log_path_of(key: Seq<char>) -> Seq<char> {
    "data/bitfinex-ws-"@ + key + ".log"@
}

/// Builds the path of the log file for the hour key `key`.
pub fn build_file_name(key: &str) -> (r: String)
    ensures
        r@ == log_path_of(key@),
{
    let name = String::from_str("data/bitfinex-ws-");
    let name = name.concat(key);
    name.concat(".log")
}

/// What the owner of the file handle does before appending a record.
#[derive(Debug)]
pub enum Rotation {
    /// The open file is the record's file: append to it.
    Keep,
    /// The record belongs to another hour. Flush and sync the open file when
    /// `close_previous` holds, then open `path` to create or append, and append there.
    Open { bucket: u64, close_previous: bool, path: String },
}

/// The hour-bucket routing of the shared log writer: it tracks which hour's
/// file is open and says, for each record, whether a rotation comes first.
/// The caller owns the file handle and serializes all appends through one
/// `LogWriter`.
#[derive(Debug)]
pub struct LogWriter {
    current: Option<u64>,
}

impl View for LogWriter {
    type V = Option<int>;

    /// The hour index of the file that is open, if any.
    closed spec fn view(&self) -> Option<int> {
        match self.current {
            Some(h) => Some(h as int),
            None => None,
        }
    }
}

/// Whether routing a record of hour `bucket` from the open hour `cur` keeps
/// the open file.
pub open spec fn keeps(cur: Option<int>, bucket: int) -> bool {
    cur == Some(bucket)
}

/// The rotation `r` is the one owed to a record of hour `bucket` when `cur` is open.
pub open spec fn rotation_for(cur: Option<int>, bucket: int, r: Rotation) -> bool {
    if keeps(cur, bucket) {
        r is Keep
    } else {
        r matches Rotation::Open { bucket: b, close_previous, path } && b == bucket
            && close_previous == cur is Some && path@ == log_path_of(
            hour_label_of(hour_start(bucket)),
        )
    }
}

/// The hour open after routing records of hours `bs`, starting with `cur` open.
pub open spec fn open_after(cur: Option<int>, bs: Seq<int>) -> Option<int> {
    if bs.len() == 0 {
        cur
    } else {
        Some(bs.last())
    }
}

/// The hours whose files are opened, in order, while records of hours `bs`
/// are routed one by one, starting with `cur` open.
pub open spec fn opened_files(cur: Option<int>, bs: Seq<int>) -> Seq<int>
    decreases bs.len(),
{
    if bs.len() == 0 {
        Seq::empty()
    } else {
        let before = opened_files(cur, bs.drop_last());
        if keeps(open_after(cur, bs.drop_last()), bs.last()) {
            before
        } else {
            before.push(bs.last())
        }
    }
}

pub open spec fn nondecreasing(bs: Seq<int>) -> bool {
    forall|i: int, j: int| 0 <= i <= j < bs.len() ==> bs[i] <= bs[j]
}

/// Records routed across one hour boundary, from hour `k` into hour `k + 1`,
/// with the file of hour `k` open: exactly one new file is opened, the one of
/// hour `k + 1`, and each record is appended to the file of its own hour.
pub proof fn lemma_one_rotation_at_boundary(k: int, bs: Seq<int>)
    requires
        bs.len() > 0,
        nondecreasing(bs),
        forall|i: int| 0 <= i < bs.len() ==> bs[i] == k || bs[i] == k + 1,
        bs.last() == k + 1,
    ensures
        opened_files(Some(k), bs) == seq![k + 1],
        forall|i: int| 0 <= i < bs.len() ==> open_after(Some(k), #[trigger] bs.take(i + 1)) == Some(bs[i]),
{
    lemma_boundary_prefix(k, bs);
    assert forall|i: int| 0 <= i < bs.len() implies open_after(Some(k), #[trigger] bs.take(i + 1)) == Some(bs[i]) by {
        assert(bs.take(i + 1).last() == bs[i]);
    }
}

proof fn lemma_boundary_prefix(k: int, bs: Seq<int>)
    requires
        bs.len() > 0,
        nondecreasing(bs),
        forall|i: int| 0 <= i < bs.len() ==> bs[i] == k || bs[i] == k + 1,
    ensures
        opened_files(Some(k), bs) == (if bs.last() == k + 1 {
            seq![k + 1]
        } else {
            Seq::<int>::empty()
        }),
    decreases bs.len(),
{
    let d = bs.drop_last();
    if bs.len() == 1 {
        assert(opened_files(Some(k), d) == Seq::<int>::empty());
        assert(Seq::<int>::empty().push(k + 1) =~= seq![k + 1]);
    } else {
        assert(d.last() == bs[bs.len() - 2]);
        assert(bs[bs.len() - 2] <= bs.last());
        lemma_boundary_prefix(k, d);
        assert(Seq::<int>::empty().push(k + 1) =~= seq![k + 1]);
    }
}

/// Records routed in order of capture time never reopen a file: the hours
/// opened are strictly increasing, and later than the hour open at the start.
pub proof fn lemma_no_reopen(cur: Option<int>, bs: Seq<int>)
    requires
        nondecreasing(bs),
        bs.len() > 0 ==> (cur matches Some(c) ==> c <= bs[0]),
    ensures
        forall|i: int, j: int|
            0 <= i < j < opened_files(cur, bs).len() ==> opened_files(cur, bs)[i] < opened_files(
                cur,
                bs,
            )[j],
        forall|i: int|
            0 <= i < opened_files(cur, bs).len() ==> (cur matches Some(c) ==> c < #[trigger] opened_files(
                cur,
                bs,
            )[i]),
        forall|i: int|
            0 <= i < opened_files(cur, bs).len() ==> #[trigger] opened_files(cur, bs)[i] <= bs.last(),
    decreases bs.len(),
{
    if bs.len() > 0 {
        let d = bs.drop_last();
        let od = opened_files(cur, d);
        let o = opened_files(cur, bs);
        lemma_no_reopen(cur, d);
        if d.len() > 0 {
            assert(d[0] == bs[0]);
            assert(d.last() == bs[bs.len() - 2]);
            assert(bs[bs.len() - 2] <= bs.last());
        } else {
            assert(od.len() == 0);
        }
        if keeps(open_after(cur, d), bs.last()) {
            assert(o == od);
        } else {
            assert(o == od.push(bs.last()));
            assert forall|i: int| 0 <= i < od.len() implies #[trigger] od[i] < bs.last() by {
                assert(od[i] <= d.last());
            }
            assert forall|i: int, j: int| 0 <= i < j < o.len() implies o[i] < o[j] by {
                if j == o.len() - 1 {
                    assert(o[i] == od[i]);
                } else {
                    assert(o[i] == od[i] && o[j] == od[j]);
                }
            }
            assert forall|i: int| 0 <= i < o.len() implies #[trigger] o[i] <= bs.last() by {
                if i < od.len() {
                    assert(o[i] == od[i]);
                }
            }
        }
    }
}

/// The hours of the files that rotations `rs` open, in order.
pub open spec fn opened_by(rs: Seq<Rotation>) -> Seq<int>
    decreases rs.len(),
{
    if rs.len() == 0 {
        Seq::empty()
    } else {
        let before = opened_by(rs.drop_last());
        match rs.last() {
            Rotation::Open { bucket, .. } => before.push(bucket as int),
            Rotation::Keep => before,
        }
    }
}

/// A run of `route_at` calls, each meeting its contract: the writer goes
/// through `views`, from `views[0]` open, and call `i` routes a record of hour
/// `bs[i]` and returns `rs[i]`. The files it opens are `opened_files` of the
/// hours, and the writer ends with the last record's hour open, so the laws
/// on `opened_files` hold of the calls.
pub proof fn lemma_route_calls_open(bs: Seq<int>, views: Seq<Option<int>>, rs: Seq<Rotation>)
    requires
        views.len() == bs.len() + 1,
        rs.len() == bs.len(),
        forall|i: int| 0 <= i < bs.len() ==> views[i + 1] == Some(#[trigger] bs[i]),
        forall|i: int| 0 <= i < bs.len() ==> #[trigger] rotation_for(views[i], bs[i], rs[i]),
    ensures
        opened_by(rs) == opened_files(views[0], bs),
        views.last() == open_after(views[0], bs),
    decreases bs.len(),
{
    if bs.len() > 0 {
        let n = bs.len() - 1;
        let db = bs.drop_last();
        let dv = views.drop_last();
        let dr = rs.drop_last();
        assert forall|i: int| 0 <= i < db.len() implies dv[i + 1] == Some(#[trigger] db[i]) by {
            assert(views[i + 1] == Some(bs[i]));
        }
        assert forall|i: int| 0 <= i < db.len() implies #[trigger] rotation_for(dv[i], db[i], dr[i]) by {
            assert(rotation_for(views[i], bs[i], rs[i]));
        }
        lemma_route_calls_open(db, dv, dr);
        assert(rotation_for(views[n], bs[n], rs[n]));
        assert(dv.last() == views[n]);
    }
}

impl LogWriter {
    pub fn new() -> (r: LogWriter)
        ensures
            r@ is None,
    {
        LogWriter { current: None }
    }

    /// The hour index of the open file.
    pub fn current_bucket(&self) -> (r: Option<u64>)
        ensures
            r matches Some(h) ==> self@ == Some(h as int),
            r is None <==> self@ is None,
    {
        self.current
    }

    /// Routes a record captured at `t`: the file of `t`'s hour becomes the
    /// open one, opened (after closing the previous one) if it is not open yet.
    pub fn route_at(&mut self, t: &UtcInstant) -> (r: Rotation)
        requires
            t.wf(),
        ensures
            final(self)@ == Some(t.hour_spec()),
            rotation_for(old(self)@, t.hour_spec(), r),
    {
        let bucket = t.hour();
        let same = match self.current {
            Some(h) => h == bucket,
            None => false,
        };
        if same {
            Rotation::Keep
        } else {
            let close_previous = self.current.is_some();
            let key = hour_key(bucket);
            let path = build_file_name(key.as_str());
            self.current = Some(bucket);
            Rotation::Open { bucket, close_previous, path }
        }
    }

    /// Routes a record captured now, by the system clock; `None`, with
    /// nothing changed, when the clock cannot be read as a UTC instant.
    pub fn route(&mut self) -> (r: Option<Rotation>)
        ensures
            r is None ==> *final(self) == *old(self),
            r matches Some(rot) ==> exists|t: UtcInstant|
                t.wf() && final(self)@ == Some(t.hour_spec()) && rotation_for(
                    old(self)@,
                    t.hour_spec(),
                    rot,
                ),
    {
        match utc_now() {
            Some(t) => Some(self.route_at(&t)),
            None => None,
        }
    }
}

} // verus!

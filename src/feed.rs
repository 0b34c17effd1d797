use vstd::prelude::*;
use vstd::string::StringExecFns;
use crate::clock::{stamp_text_of, utc_now, UtcInstant};

verus! {

/// Request that turns on the feed's extended payloads.
pub open spec fn conf_request() -> Seq<char> {
    "{\"event\": \"conf\", \"flags\": 196608}"@
}

/// Request for the trades channel of `sym`.
pub open spec fn trades_request(sym: Seq<char>) -> Seq<char> {
    "{\"event\": \"subscribe\", \"channel\": \"trades\", \"symbol\": \""@ + sym + "\"}"@
}

/// Request for the raw order book of `sym`, 100 levels deep.
pub open spec fn book_request(sym: Seq<char>) -> Seq<char> {
    "{\"event\": \"subscribe\", \"channel\": \"book\", \"prec\": \"R0\", \"symbol\": \""@ + sym
        + "\", \"len\": 100 }"@
}

/// What a connection sends when its transport opens: the configuration
/// request, then for each symbol of the shard, in order, its trades request
/// and its book request.
pub open spec fn subscription_plan(shard: Seq<String>) -> Seq<Seq<char>> {
    Seq::new(
        (1 + 2 * shard.len()) as nat,
        |i: int|
            if i == 0 {
                conf_request()
            } else if (i - 1) % 2 == 0 {
                trades_request(shard[(i - 1) / 2]@)
            } else {
                book_request(shard[(i - 1) / 2]@)
            },
    )
}

pub open spec fn texts(v: Seq<String>) -> Seq<Seq<char>> {
    v.map_values(|s: String| s@)
}

/// The requests a connection for `shard` sends on open.
pub fn subscription_requests(shard: &Vec<String>) -> (r: Vec<String>)
    ensures
        texts(r@) == subscription_plan(shard@),
{
    let mut out: Vec<String> = Vec::new();
    out.push(String::from_str("{\"event\": \"conf\", \"flags\": 196608}"));
    let mut i: usize = 0;
    while i < shard.len()
        invariant
            i <= shard@.len(),
            out@.len() == 1 + 2 * i,
            forall|k: int| 0 <= k < out@.len() ==> #[trigger] out@[k]@ == subscription_plan(shard@)[k],
        decreases shard@.len() - i,
    {
        let sym = shard[i].as_str();
        let trades = String::from_str("{\"event\": \"subscribe\", \"channel\": \"trades\", \"symbol\": \"");
        let trades = trades.concat(sym);
        let trades = trades.concat("\"}");
        let book = String::from_str("{\"event\": \"subscribe\", \"channel\": \"book\", \"prec\": \"R0\", \"symbol\": \"");
        let book = book.concat(sym);
        let book = book.concat("\", \"len\": 100 }");
        proof {
            let k = 1 + 2 * i as int;
            assert((k - 1) / 2 == i && (k - 1) % 2 == 0);
            assert((k + 1 - 1) / 2 == i && (k + 1 - 1) % 2 == 1);
        }
        out.push(trades);
        out.push(book);
        i = i + 1;
    }
    assert(texts(out@) =~= subscription_plan(shard@));
    out
}

/// One log line: the capture stamp, a comma and a space, the payload, a line break.
pub open spec fn record_line(stamp: Seq<char>, payload: Seq<char>) -> Seq<char> {
    stamp + ", "@ + payload + "\n"@
}

/// Formats one log line from a capture stamp and a payload.
pub fn format_record(stamp: &str, payload: &str) -> (r: String)
    ensures
        r@ == record_line(stamp@, payload@),
{
    let line = String::from_str(stamp);
    let line = line.concat(", ");
    let line = line.concat(payload);
    line.concat("\n")
}

/// The log line of `payload` captured at `t`.
pub fn stamp_record(t: &UtcInstant, payload: &str) -> (r: String)
    requires
        t.wf(),
    ensures
        r@ == record_line(stamp_text_of(t.secs as int, t.nanos as int), payload@),
        no_breaks(payload@) ==> count_breaks(r@) == 1 && r@.last() == '\n',
{
    let stamp = t.stamp();
    let r = format_record(stamp.as_str(), payload);
    proof {
        if no_breaks(payload@) {
            lemma_record_line_breaks(stamp@, payload@);
        }
    }
    r
}

pub const BACKOFF_BASE_MS: u64 = 500;

pub const BACKOFF_MAX_MS: u64 = 30000;

/// Delay before reconnecting after `failures` failures with no successful
/// open since: the base delay, doubled for each failure, capped at the maximum.
pub open spec fn backoff_spec(failures: nat) -> int
    decreases failures,
{
    if failures == 0 {
        BACKOFF_BASE_MS as int
    } else {
        let d = 2 * backoff_spec((failures - 1) as nat);
        if d < BACKOFF_MAX_MS {
            d
        } else {
            BACKOFF_MAX_MS as int
        }
    }
}

proof fn lemma_backoff_bounds(f: nat)
    ensures
        BACKOFF_BASE_MS <= backoff_spec(f) <= BACKOFF_MAX_MS,
    decreases f,
{
    if f > 0 {
        lemma_backoff_bounds((f - 1) as nat);
    }
}

proof fn lemma_backoff_saturates(f: nat, g: nat)
    requires
        f <= g,
        backoff_spec(f) == BACKOFF_MAX_MS,
    ensures
        backoff_spec(g) == BACKOFF_MAX_MS,
    decreases g - f,
{
    if f < g {
        lemma_backoff_saturates(f, (g - 1) as nat);
    }
}

/// The reconnect delay, in milliseconds, after `failures` failures.
pub fn backoff_delay_ms(failures: u32) -> (r: u64)
    ensures
        r == backoff_spec(failures as nat),
{
    let mut d: u64 = BACKOFF_BASE_MS;
    let mut i: u32 = 0;
    while i < failures && d < BACKOFF_MAX_MS
        invariant
            i <= failures,
            d == backoff_spec(i as nat),
        decreases failures - i,
    {
        proof {
            lemma_backoff_bounds(i as nat);
        }
        d = if 2 * d < BACKOFF_MAX_MS {
            2 * d
        } else {
            BACKOFF_MAX_MS
        };
        i = i + 1;
    }
    proof {
        if i < failures {
            lemma_backoff_bounds(i as nat);
            lemma_backoff_saturates(i as nat, failures as nat);
        }
    }
    d
}

/// Why a connection left the streaming cycle.
#[derive(Debug, Clone, Copy, PartialEq, Eq, Structural)]
pub enum CloseReason {
    /// The transport closed, from either side.
    Remote,
    /// The transport reported an error.
    Error,
    /// The transport could not be established.
    ConnectFailed,
}

/// Where a connection stands in its connect / subscribe / stream cycle.
#[derive(Debug, Clone, Copy, PartialEq, Eq, Structural)]
pub enum ConnectionState {
    Connecting,
    Subscribing,
    Streaming,
    Closed(CloseReason),
    Reconnecting,
}

/// What the transport, or the reconnect timer, reports to a connection.
#[derive(Debug)]
pub enum FeedEvent {
    /// The transport is established.
    Connected,
    /// The transport could not be established.
    ConnectFailed,
    /// The transport's open handshake completed.
    Opened,
    /// A text message arrived.
    Text(String),
    /// A binary, ping or other non-text message arrived.
    NonText,
    /// The transport closed.
    Closed,
    /// The transport reported an error.
    Error,
    /// The reconnect delay has passed.
    BackoffElapsed,
}

/// What the owner of the transport does in answer to an event.
#[derive(Debug)]
pub enum FeedAction {
    /// Nothing: wait for the next event.
    Wait,
    /// Send these requests, in this order, without waiting for replies.
    Subscribe(Vec<String>),
    /// Append this line to the log.
    Record(String),
    /// Report a non-text message; nothing is logged.
    Anomaly,
    /// Wait this many milliseconds, then report `BackoffElapsed`.
    Backoff(u64),
    /// Connect again to the same endpoint.
    Connect,
}

pub open spec fn is_connecting(s: ConnectionState) -> bool {
    s is Connecting || s is Reconnecting
}

pub open spec fn is_live(s: ConnectionState) -> bool {
    !(s is Closed)
}

/// The state after event `e` in state `s`.
pub open spec fn next_state(s: ConnectionState, e: FeedEvent) -> ConnectionState {
    match e {
        FeedEvent::Connected => if is_connecting(s) {
            ConnectionState::Subscribing
        } else {
            s
        },
        FeedEvent::ConnectFailed => if is_connecting(s) {
            ConnectionState::Closed(CloseReason::ConnectFailed)
        } else {
            s
        },
        FeedEvent::Opened => if s is Subscribing {
            ConnectionState::Streaming
        } else {
            s
        },
        FeedEvent::Closed => if is_live(s) {
            ConnectionState::Closed(CloseReason::Remote)
        } else {
            s
        },
        FeedEvent::Error => if is_live(s) {
            ConnectionState::Closed(CloseReason::Error)
        } else {
            s
        },
        FeedEvent::BackoffElapsed => if s is Closed {
            ConnectionState::Reconnecting
        } else {
            s
        },
        _ => s,
    }
}

/// Whether event `e` in state `s` ends the cycle, so that a reconnect is owed.
pub open spec fn closes(s: ConnectionState, e: FeedEvent) -> bool {
    is_live(s) && next_state(s, e) is Closed
}

/// The count of failures since the last successful open, after event `e` in state `s`.
pub open spec fn next_failures(s: ConnectionState, e: FeedEvent, f: u32) -> u32 {
    if s is Subscribing && e is Opened {
        0
    } else if closes(s, e) {
        if f < u32::MAX {
            (f + 1) as u32
        } else {
            f
        }
    } else {
        f
    }
}

/// `r` is the action owed to event `e` in state `s` with `f` failures, for a
/// connection of `shard`, where a recorded message is stamped `stamp`.
pub open spec fn action_for(
    s: ConnectionState,
    e: FeedEvent,
    f: u32,
    shard: Seq<String>,
    stamp: Seq<char>,
    r: FeedAction,
) -> bool {
    if closes(s, e) {
        r == FeedAction::Backoff(backoff_spec(f as nat) as u64)
    } else if s is Subscribing && e is Opened {
        r matches FeedAction::Subscribe(v) && texts(v@) == subscription_plan(shard)
    } else if s is Streaming && e is Text {
        r matches FeedAction::Record(line) && line@ == record_line(stamp, e->Text_0@)
    } else if s is Streaming && e is NonText {
        r is Anomaly
    } else if s is Closed && e is BackoffElapsed {
        r is Connect
    } else {
        r is Wait
    }
}

/// A disconnect in mid-stream, by close or by error, leads through the
/// backoff, a new connect and the open handshake back to streaming, and the
/// requests sent on that open are those of the first open, in the same order:
/// the configuration request, then trades and book for each symbol of the shard.
pub proof fn lemma_reconnect_resubscribes(
    shard: Seq<String>,
    close: FeedEvent,
    f_first: u32,
    f_again: u32,
    stamp_first: Seq<char>,
    stamp_again: Seq<char>,
    first: FeedAction,
    again: FeedAction,
)
    requires
        close is Closed || close is Error,
        action_for(ConnectionState::Subscribing, FeedEvent::Opened, f_first, shard, stamp_first, first),
        action_for(ConnectionState::Subscribing, FeedEvent::Opened, f_again, shard, stamp_again, again),
    ensures
        next_state(ConnectionState::Streaming, close) is Closed,
        next_state(next_state(ConnectionState::Streaming, close), FeedEvent::BackoffElapsed)
            == ConnectionState::Reconnecting,
        next_state(ConnectionState::Reconnecting, FeedEvent::Connected) == ConnectionState::Subscribing,
        next_state(ConnectionState::Subscribing, FeedEvent::Opened) == ConnectionState::Streaming,
        next_failures(ConnectionState::Subscribing, FeedEvent::Opened, f_again) == 0,
        first matches FeedAction::Subscribe(v) && texts(v@) == subscription_plan(shard),
        again matches FeedAction::Subscribe(w) && texts(w@) == subscription_plan(shard),
{
}

/// Number of line breaks in `s`.
pub open spec fn count_breaks(s: Seq<char>) -> nat
    decreases s.len(),
{
    if s.len() == 0 {
        0
    } else {
        count_breaks(s.drop_last()) + if s.last() == '\n' {
            1nat
        } else {
            0nat
        }
    }
}

proof fn lemma_count_breaks_concat(a: Seq<char>, b: Seq<char>)
    ensures
        count_breaks(a + b) == count_breaks(a) + count_breaks(b),
    decreases b.len(),
{
    if b.len() == 0 {
        assert(a + b =~= a);
    } else {
        lemma_count_breaks_concat(a, b.drop_last());
        assert((a + b).drop_last() =~= a + b.drop_last());
    }
}

pub open spec fn no_breaks(s: Seq<char>) -> bool {
    forall|i: int| 0 <= i < s.len() ==> s[i] != '\n'
}

proof fn lemma_no_breaks_count(s: Seq<char>)
    requires
        no_breaks(s),
    ensures
        count_breaks(s) == 0,
    decreases s.len(),
{
    if s.len() > 0 {
        lemma_no_breaks_count(s.drop_last());
    }
}

/// Records whose stamps and payloads hold no line break, written one after
/// the other, make exactly one line each, each ending the record it holds.
pub proof fn lemma_records_are_lines(stamps: Seq<Seq<char>>, payloads: Seq<Seq<char>>)
    requires
        stamps.len() == payloads.len(),
        forall|i: int| 0 <= i < stamps.len() ==> no_breaks(#[trigger] stamps[i]),
        forall|i: int| 0 <= i < payloads.len() ==> no_breaks(#[trigger] payloads[i]),
    ensures
        count_breaks(
            Seq::new(stamps.len(), |i: int| record_line(stamps[i], payloads[i])).flatten(),
        ) == stamps.len(),
        forall|i: int|
            0 <= i < stamps.len() ==> count_breaks(#[trigger] record_line(stamps[i], payloads[i]))
                == 1 && record_line(stamps[i], payloads[i]).last() == '\n',
    decreases stamps.len(),
{
    assert forall|i: int| 0 <= i < stamps.len() implies count_breaks(
        #[trigger] record_line(stamps[i], payloads[i]),
    ) == 1 && record_line(stamps[i], payloads[i]).last() == '\n' by {
        lemma_record_line_breaks(stamps[i], payloads[i]);
    }
    let n = stamps.len();
    let lines = Seq::new(n, |i: int| record_line(stamps[i], payloads[i]));
    if n > 0 {
        let ds = stamps.drop_last();
        let dp = payloads.drop_last();
        lemma_records_are_lines(ds, dp);
        let dl = Seq::new(ds.len(), |i: int| record_line(ds[i], dp[i]));
        assert(lines =~= dl.push(lines.last()));
        dl.lemma_flatten_push(lines.last());
        lemma_count_breaks_concat(dl.flatten(), lines.last());
        lemma_record_line_breaks(stamps.last(), payloads.last());
    }
}

proof fn lemma_record_line_breaks(stamp: Seq<char>, payload: Seq<char>)
    requires
        no_breaks(stamp),
        no_breaks(payload),
    ensures
        count_breaks(record_line(stamp, payload)) == 1,
        record_line(stamp, payload).last() == '\n',
{
    let sep = ", "@;
    let nl = "\n"@;
    assert(sep =~= seq![',', ' ']) by {
        reveal_strlit(", ");
    }
    assert(nl =~= seq!['\n']) by {
        reveal_strlit("\n");
    }
    lemma_no_breaks_count(stamp);
    lemma_no_breaks_count(payload);
    lemma_no_breaks_count(sep);
    assert(count_breaks(nl) == 1) by {
        assert(nl.len() == 1 && nl.last() == '\n');
        assert(nl.drop_last() =~= Seq::<char>::empty());
        assert(count_breaks(nl.drop_last()) == 0);
    }
    lemma_count_breaks_concat(stamp, sep);
    lemma_count_breaks_concat(stamp + sep, payload);
    lemma_count_breaks_concat(stamp + sep + payload, nl);
}

/// The lines that actions `rs` append to the log, in order.
pub open spec fn recorded(rs: Seq<FeedAction>) -> Seq<Seq<char>>
    decreases rs.len(),
{
    if rs.len() == 0 {
        Seq::empty()
    } else {
        let before = recorded(rs.drop_last());
        match rs.last() {
            FeedAction::Record(line) => before.push(line@),
            _ => before,
        }
    }
}

/// The log lines owed to events `evs` met in states `ss`, message `i`
/// stamped `stamps[i]`: one for each text message that arrives while streaming.
pub open spec fn streamed_lines(
    ss: Seq<ConnectionState>,
    evs: Seq<FeedEvent>,
    stamps: Seq<Seq<char>>,
) -> Seq<Seq<char>>
    decreases evs.len(),
{
    if evs.len() == 0 {
        Seq::empty()
    } else {
        let n = evs.len() - 1;
        let before = streamed_lines(ss, evs.drop_last(), stamps);
        if ss[n] is Streaming && evs[n] is Text {
            before.push(record_line(stamps[n], evs[n]->Text_0@))
        } else {
            before
        }
    }
}

/// A session of `handle_at` calls, each meeting its contract: call `i` takes
/// event `evs[i]` in state `ss[i]` with `fs[i]` failures and stamp
/// `stamps[i]`, and returns `rs[i]`. Across any number of disconnects and
/// reconnects, the lines it appends are exactly one per text message received
/// while streaming, in order of receipt: none lost, none repeated.
pub proof fn lemma_session_records_each_message_once(
    shard: Seq<String>,
    ss: Seq<ConnectionState>,
    fs: Seq<u32>,
    evs: Seq<FeedEvent>,
    stamps: Seq<Seq<char>>,
    rs: Seq<FeedAction>,
)
    requires
        ss.len() == evs.len() + 1,
        fs.len() == evs.len(),
        stamps.len() == evs.len(),
        rs.len() == evs.len(),
        forall|i: int| 0 <= i < evs.len() ==> ss[i + 1] == next_state(ss[i], #[trigger] evs[i]),
        forall|i: int|
            0 <= i < evs.len() ==> #[trigger] action_for(ss[i], evs[i], fs[i], shard, stamps[i], rs[i]),
    ensures
        recorded(rs) == streamed_lines(ss, evs, stamps),
    decreases evs.len(),
{
    if evs.len() > 0 {
        let n = evs.len() - 1;
        let de = evs.drop_last();
        let dr = rs.drop_last();
        let df = fs.drop_last();
        let dt = stamps.drop_last();
        let ds = ss.drop_last();
        assert forall|i: int| 0 <= i < de.len() implies ds[i + 1] == next_state(ds[i], #[trigger] de[i]) by {
            assert(ss[i + 1] == next_state(ss[i], evs[i]));
        }
        assert forall|i: int| 0 <= i < de.len() implies #[trigger] action_for(ds[i], de[i], df[i], shard, dt[i], dr[i]) by {
            assert(action_for(ss[i], evs[i], fs[i], shard, stamps[i], rs[i]));
        }
        lemma_session_records_each_message_once(shard, ds, df, de, dt, dr);
        lemma_streamed_lines_prefix(ss, ds, de, stamps, dt);
        assert(action_for(ss[n], evs[n], fs[n], shard, stamps[n], rs[n]));
    }
}

proof fn lemma_streamed_lines_prefix(
    ss: Seq<ConnectionState>,
    ds: Seq<ConnectionState>,
    evs: Seq<FeedEvent>,
    stamps: Seq<Seq<char>>,
    dt: Seq<Seq<char>>,
)
    requires
        evs.len() < ds.len() <= ss.len(),
        evs.len() <= dt.len() <= stamps.len(),
        forall|i: int| 0 <= i < ds.len() ==> ds[i] == ss[i],
        forall|i: int| 0 <= i < dt.len() ==> dt[i] == stamps[i],
    ensures
        streamed_lines(ds, evs, dt) == streamed_lines(ss, evs, stamps),
    decreases evs.len(),
{
    if evs.len() > 0 {
        lemma_streamed_lines_prefix(ss, ds, evs.drop_last(), stamps, dt);
    }
}

/// One feed connection: a fixed shard of symbols and the state of its cycle.
#[derive(Debug)]
pub struct FeedConnection {
    shard: Vec<String>,
    state: ConnectionState,
    failures: u32,
}

impl FeedConnection {
    pub closed spec fn shard_spec(&self) -> Seq<String> {
        self.shard@
    }

    pub closed spec fn state_spec(&self) -> ConnectionState {
        self.state
    }

    pub closed spec fn failures_spec(&self) -> u32 {
        self.failures
    }

    /// A connection for `shard`, about to make its first connect.
    pub fn new(shard: Vec<String>) -> (r: FeedConnection)
        ensures
            r.shard_spec() == shard@,
            r.state_spec() == ConnectionState::Connecting,
            r.failures_spec() == 0,
    {
        FeedConnection { shard, state: ConnectionState::Connecting, failures: 0 }
    }

    pub fn shard(&self) -> (r: &Vec<String>)
        ensures
            r@ == self.shard_spec(),
    {
        &self.shard
    }

    pub fn state(&self) -> (r: ConnectionState)
        ensures
            r == self.state_spec(),
    {
        self.state
    }

    pub fn failures(&self) -> (r: u32)
        ensures
            r == self.failures_spec(),
    {
        self.failures
    }

    /// Takes event `e`, with `t` as the capture time of a text message, and
    /// says what to do.
    pub fn handle_at(&mut self, e: FeedEvent, t: &UtcInstant) -> (r: FeedAction)
        requires
            t.wf(),
        ensures
            final(self).shard_spec() == old(self).shard_spec(),
            final(self).state_spec() == next_state(old(self).state_spec(), e),
            final(self).failures_spec() == next_failures(
                old(self).state_spec(),
                e,
                old(self).failures_spec(),
            ),
            action_for(
                old(self).state_spec(),
                e,
                old(self).failures_spec(),
                old(self).shard_spec(),
                stamp_text_of(t.secs as int, t.nanos as int),
                r,
            ),
    {
        let s = self.state;
        let live = match s {
            ConnectionState::Closed(_) => false,
            _ => true,
        };
        let connecting = match s {
            ConnectionState::Connecting | ConnectionState::Reconnecting => true,
            _ => false,
        };
        let closing = match &e {
            FeedEvent::Closed => Some(CloseReason::Remote),
            FeedEvent::Error => Some(CloseReason::Error),
            FeedEvent::ConnectFailed => if connecting {
                Some(CloseReason::ConnectFailed)
            } else {
                None
            },
            _ => None,
        };
        if live && closing.is_some() {
            let delay = backoff_delay_ms(self.failures);
            self.state = ConnectionState::Closed(closing.unwrap());
            if self.failures < u32::MAX {
                self.failures = self.failures + 1;
            }
            return FeedAction::Backoff(delay);
        }
        match e {
            FeedEvent::Connected => {
                if connecting {
                    self.state = ConnectionState::Subscribing;
                }
                FeedAction::Wait
            },
            FeedEvent::Opened => {
                match s {
                    ConnectionState::Subscribing => {
                        self.state = ConnectionState::Streaming;
                        self.failures = 0;
                        FeedAction::Subscribe(subscription_requests(&self.shard))
                    },
                    _ => FeedAction::Wait,
                }
            },
            FeedEvent::Text(payload) => {
                match s {
                    ConnectionState::Streaming => FeedAction::Record(
                        stamp_record(t, payload.as_str()),
                    ),
                    _ => FeedAction::Wait,
                }
            },
            FeedEvent::NonText => {
                match s {
                    ConnectionState::Streaming => FeedAction::Anomaly,
                    _ => FeedAction::Wait,
                }
            },
            FeedEvent::BackoffElapsed => {
                if !live {
                    self.state = ConnectionState::Reconnecting;
                    FeedAction::Connect
                } else {
                    FeedAction::Wait
                }
            },
            _ => FeedAction::Wait,
        }
    }

    /// Takes event `e`, stamping a text message with the system clock, and
    /// says what to do. Only a text message reads the clock: `None`, with
    /// nothing changed, when it cannot be read as a UTC instant.
    pub fn handle(&mut self, e: FeedEvent) -> (r: Option<FeedAction>)
        ensures
            !(e is Text) ==> r is Some,
            r is None ==> *final(self) == *old(self),
            r is Some ==> final(self).shard_spec() == old(self).shard_spec(),
            r is Some ==> final(self).state_spec() == next_state(old(self).state_spec(), e),
            r is Some ==> final(self).failures_spec() == next_failures(
                old(self).state_spec(),
                e,
                old(self).failures_spec(),
            ),
            r matches Some(a) ==> exists|t: UtcInstant|
                t.wf() && action_for(
                    old(self).state_spec(),
                    e,
                    old(self).failures_spec(),
                    old(self).shard_spec(),
                    stamp_text_of(t.secs as int, t.nanos as int),
                    a,
                ),
    {
        let t = match &e {
            FeedEvent::Text(_) => utc_now(),
            _ => Some(UtcInstant { secs: 0, nanos: 0 }),
        };
        match t {
            Some(t) => Some(self.handle_at(e, &t)),
            None => None,
        }
    }
}

} // verus!

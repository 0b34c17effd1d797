use vstd::prelude::*;
use crate::sharder::{shard_symbols, shards_of, ShardError};
use crate::feed::FeedConnection;

verus! {

/// Most channels one connection subscribes: its shard's symbol count.
pub const MAX_SHARD_SIZE: usize = 15;

/// Exit status of a process whose capture loop ended.
pub const CAPTURE_ENDED_EXIT: i32 = 1;

/// Exit status of a process that could not start capturing.
pub const STARTUP_FAILED_EXIT: i32 = 2;

/// Why capture could not start.
#[derive(Debug, Clone, Copy, PartialEq, Eq, Structural)]
pub enum StartupError {
    /// The symbol list request got no response, or one without a success status.
    FetchFailed,
    /// The symbol list response did not hold a list of symbols.
    Malformed,
    /// The symbol list was empty.
    EmptyUniverse,
}

impl StartupError {
    /// The process exit status for this failure.
    pub fn exit_code(&self) -> (r: i32)
        ensures
            r == STARTUP_FAILED_EXIT,
    {
        STARTUP_FAILED_EXIT
    }
}

pub open spec fn is_success_spec(status: u16) -> bool {
    200 <= status <= 299
}

/// Whether an HTTP status is a success (2xx).
pub fn is_success_status(status: u16) -> (r: bool)
    ensures
        r == is_success_spec(status),
{
    200 <= status && status <= 299
}

/// Whether the symbol list request got a response with a success status.
pub open spec fn fetched(status: Option<u16>) -> bool {
    status matches Some(c) && is_success_spec(c)
}

/// Decides how capture starts from the outcome of the symbol list request:
/// its status, if a response came, and the symbols its body held, if it
/// parsed. On success, the shards of at most `MAX_SHARD_SIZE` symbols, one
/// per connection.
pub fn plan_startup(status: Option<u16>, symbols: Option<Vec<String>>) -> (r: Result<
    Vec<Vec<String>>,
    StartupError,
>)
    ensures
        (r matches Err(e) && e is FetchFailed) <==> !fetched(status),
        (r matches Err(e) && e is Malformed) <==> (fetched(status) && symbols is None),
        (r matches Err(e) && e is EmptyUniverse) <==> (fetched(status) && (symbols matches Some(v)
            && v@.len() == 0)),
        r matches Ok(shards) ==> (symbols matches Some(v) && shards@.map_values(
            |s: Vec<String>| s@,
        ) == shards_of(v@, MAX_SHARD_SIZE as int)),
{
    let ok = match status {
        Some(c) => is_success_status(c),
        None => false,
    };
    if !ok {
        return Err(StartupError::FetchFailed);
    }
    match symbols {
        None => Err(StartupError::Malformed),
        Some(v) => match shard_symbols(&v, MAX_SHARD_SIZE) {
            Ok(shards) => Ok(shards),
            Err(ShardError::EmptyUniverse) => Err(StartupError::EmptyUniverse),
        },
    }
}

/// One connection per shard, in shard order.
pub fn connections_for(shards: Vec<Vec<String>>) -> (r: Vec<FeedConnection>)
    ensures
        r@.len() == shards@.len(),
        forall|i: int| 0 <= i < r@.len() ==> (#[trigger] r@[i]).shard_spec() == shards@[i]@
            && r@[i].state_spec() is Connecting && r@[i].failures_spec() == 0,
{
    let mut out: Vec<FeedConnection> = Vec::new();
    let mut rest = shards;
    let ghost all = rest@;
    let n = rest.len();
    while rest.len() > 0
        invariant
            n == all.len(),
            out@.len() + rest@.len() == n,
            rest@ == all.subrange(out@.len() as int, n as int),
            forall|i: int| 0 <= i < out@.len() ==> (#[trigger] out@[i]).shard_spec() == all[i]@
                && out@[i].state_spec() is Connecting && out@[i].failures_spec() == 0,
        decreases rest@.len(),
    {
        let shard = rest.remove(0);
        assert(shard == all[out@.len() as int]);
        out.push(FeedConnection::new(shard));
        assert(rest@ =~= all.subrange(out@.len() as int, n as int));
    }
    out
}

} // verus!

use vstd::prelude::*;

verus! {

/// Why a symbol universe could not be split into shards.
#[derive(Debug, Clone, Copy, PartialEq, Eq, Structural)]
pub enum ShardError {
    /// The universe holds no symbol: there is nothing to capture.
    EmptyUniverse,
}

/// Number of shards of at most `n` items that hold `len` items.
pub open spec fn shard_count(len: int, n: int) -> int {
    (len + n - 1) / n
}

/// The `i`-th shard of `s` for shards of at most `n` items.
pub open spec fn shard_at<A>(s: Seq<A>, n: int, i: int) -> Seq<A> {
    s.subrange(i * n, if (i + 1) * n <= s.len() { (i + 1) * n } else { s.len() as int })
}

/// The shards of `s`: consecutive runs of `n` items, the last one possibly shorter.
pub open spec fn shards_of<A>(s: Seq<A>, n: int) -> Seq<Seq<A>> {
    Seq::new(shard_count(s.len() as int, n) as nat, |i: int| shard_at(s, n, i))
}

proof fn lemma_shard_count_bounds(len: int, n: int, j: int)
    requires
        n > 0,
        len >= 0,
    ensures
        0 <= j < shard_count(len, n) ==> j * n < len,
        shard_count(len, n) * n >= len,
        shard_count(len, n) >= 0,
{
    let c = shard_count(len, n);
    assert(c * n <= len + n - 1 && len + n - 1 < c * n + n && c >= 0) by (nonlinear_arith)
        requires
            c == (len + n - 1) / n,
            n > 0,
            len >= 0,
    ;
    if 0 <= j < c {
        assert(j * n + n <= c * n) by (nonlinear_arith)
            requires
                j + 1 <= c,
                n > 0,
        ;
    }
}

proof fn lemma_shards_prefix<A>(s: Seq<A>, n: int, k: int)
    requires
        n > 0,
        0 <= k <= shard_count(s.len() as int, n),
    ensures
        shards_of(s, n).take(k).flatten() == s.take(
            if k * n <= s.len() {
                k * n
            } else {
                s.len() as int
            },
        ),
    decreases k,
{
    let sh = shards_of(s, n);
    if k == 0 {
        assert(sh.take(0) =~= Seq::<Seq<A>>::empty());
        assert(s.take(0) =~= Seq::<A>::empty());
    } else {
        lemma_shards_prefix(s, n, k - 1);
        lemma_shard_count_bounds(s.len() as int, n, k - 1);
        assert(sh.take(k) =~= sh.take(k - 1).push(sh[k - 1]));
        sh.take(k - 1).lemma_flatten_push(sh[k - 1]);
        assert((k - 1) * n + n == k * n) by (nonlinear_arith);
        let end = if k * n <= s.len() {
            k * n
        } else {
            s.len() as int
        };
        assert(s.take((k - 1) * n) + sh[k - 1] =~= s.take(end));
    }
}

/// Sharding covers the universe: there are `ceil(len / n)` shards, none longer
/// than `n`, and their concatenation is the input, in order.
pub proof fn lemma_shards_partition<A>(s: Seq<A>, n: int)
    requires
        n > 0,
    ensures
        shards_of(s, n).len() == (s.len() + n - 1) / n,
        forall|i: int| 0 <= i < shards_of(s, n).len() ==> #[trigger] shards_of(s, n)[i].len() <= n,
        shards_of(s, n).flatten() == s,
{
    let sh = shards_of(s, n);
    let c = shard_count(s.len() as int, n);
    lemma_shard_count_bounds(s.len() as int, n, 0);
    assert forall|i: int| 0 <= i < sh.len() implies #[trigger] sh[i].len() <= n by {
        lemma_shard_count_bounds(s.len() as int, n, i);
        assert((i + 1) * n == i * n + n) by (nonlinear_arith);
    }
    lemma_shards_prefix(s, n, c);
    assert(sh.take(c) =~= sh);
    assert(s.take(s.len() as int) =~= s);
}

/// Splits the symbol universe into shards of at most `max_shard` symbols,
/// in input order; an empty universe is refused.
pub fn shard_symbols(symbols: &Vec<String>, max_shard: usize) -> (r: Result<
    Vec<Vec<String>>,
    ShardError,
>)
    requires
        max_shard > 0,
    ensures
        r is Err <==> symbols@.len() == 0,
        r matches Ok(shards) ==> shards@.map_values(|v: Vec<String>| v@) == shards_of(
            symbols@,
            max_shard as int,
        ),
{
    if symbols.len() == 0 {
        return Err(ShardError::EmptyUniverse);
    }
    let n = symbols.len();
    let mut shards: Vec<Vec<String>> = Vec::new();
    let mut start: usize = 0;
    assert(shards@.len() * max_shard == 0) by (nonlinear_arith)
        requires
            shards@.len() == 0,
    ;
    while start < n
        invariant
            n == symbols@.len(),
            max_shard > 0,
            start <= n,
            start == n ==> shards@.len() == shard_count(n as int, max_shard as int),
            start < n ==> start == shards@.len() * max_shard,
            forall|i: int|
                0 <= i < shards@.len() ==> #[trigger] shards@[i]@ == shard_at(
                    symbols@,
                    max_shard as int,
                    i,
                ),
        decreases n - start,
    {
        let end: usize = if n - start <= max_shard {
            n
        } else {
            start + max_shard
        };
        let mut shard: Vec<String> = Vec::new();
        let mut j: usize = start;
        while j < end
            invariant
                start <= j <= end <= n,
                n == symbols@.len(),
                shard@ == symbols@.subrange(start as int, j as int),
            decreases end - j,
        {
            shard.push(symbols[j].clone());
            j = j + 1;
            assert(shard@ =~= symbols@.subrange(start as int, j as int));
        }
        proof {
            let k = shards@.len() as int;
            let m = max_shard as int;
            assert(start == k * m);
            assert((k + 1) * m == k * m + m) by (nonlinear_arith);
            assert(shard@ == shard_at(symbols@, m, k));
            if end == n {
                assert(n as int - k * m <= m);
                assert(k * m < n);
                assert(shard_count(n as int, m) == k + 1) by (nonlinear_arith)
                    requires
                        k * m < n,
                        n as int - k * m <= m,
                        m > 0,
                ;
            }
        }
        shards.push(shard);
        start = end;
    }
    assert(shards@.map_values(|v: Vec<String>| v@) =~= shards_of(symbols@, max_shard as int));
    Ok(shards)
}

} // verus!

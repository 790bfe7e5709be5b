//! The identifier ladder: levels of candidate workspace identifiers, each level
//! made of the midpoints of the level before it.

use vstd::prelude::*;
use vstd::arithmetic::logarithm::{lemma_log0, lemma_log_s, log};
use vstd::arithmetic::power2::{
    lemma2_to64, lemma_pow2_pos, lemma_pow2_strictly_increases, lemma_pow2_unfold, pow2,
};

verus! {

/// Number of anchors in the coarsest level.
pub const SEED_COUNT: usize = 30;

/// Size of the identifier domain: a workspace identifier is an integer
/// strictly between 0 and this value.
pub const DOMAIN: i64 = 2147483648;

/// The entries of a level as mathematical integers.
pub open spec fn ints(level: Seq<i64>) -> Seq<int> {
    Seq::new(level.len(), |i: int| level[i] as int)
}

/// Spacing between two neighbouring anchors of the coarsest level.
pub open spec fn seed_gap() -> int {
    DOMAIN as int / (SEED_COUNT as int + 1)
}

/// The coarsest level: `SEED_COUNT` anchors, evenly spaced over the domain.
pub open spec fn anchors() -> Seq<int> {
    Seq::new(SEED_COUNT as nat, |i: int| seed_gap() * (i + 1))
}

/// The level below `prev`: a point under its first entry, the midpoint of
/// every pair of neighbours, and a point above its last entry.
pub open spec fn subdivide(prev: Seq<int>) -> Seq<int>
    recommends
        prev.len() > 0,
{
    Seq::new(
        prev.len() + 1,
        |i: int|
            if i == 0 {
                prev[0] / 2
            } else if i == prev.len() {
                prev.last() + prev.last() / 2
            } else {
                (prev[i - 1] + prev[i]) / 2
            },
    )
}

/// Level `k` of the ladder.
pub open spec fn ladder_level(k: nat) -> Seq<int>
    decreases k,
{
    if k == 0 {
        anchors()
    } else {
        subdivide(ladder_level((k - 1) as nat))
    }
}

/// Number of levels of the ladder: the whole part of the base-2 logarithm of
/// the anchors' spacing.
pub open spec fn ladder_depth() -> nat {
    log(2, seed_gap()) as nat
}

/// Every entry is smaller than each entry after it.
pub open spec fn strictly_ascending(level: Seq<int>) -> bool {
    forall|i: int, j: int| 0 <= i < j < level.len() ==> level[i] < level[j]
}

/// Every entry is at least as far from the entry before it as the first
/// entry is from zero.
pub open spec fn spread(level: Seq<int>) -> bool {
    forall|i: int, j: int|
        0 <= i && j == i + 1 && j < level.len() ==> #[trigger] level[j] - #[trigger] level[i] >= level[0]
}

/// Whole part of the base-2 logarithm of `n`.
pub fn floor_log2(n: u64) -> (r: u32)
    requires
        n >= 1,
    ensures
        r == log(2, n as int),
        pow2(r as nat) <= n,
        n < 2 * pow2(r as nat),
{
    let mut m: u64 = n;
    let mut r: u32 = 0;
    proof {
        lemma2_to64();
        assert(m * pow2(0) == m) by (nonlinear_arith)
            requires
                pow2(0) == 1,
        ;
    }
    while m >= 2
        invariant
            m >= 1,
            r <= 64,
            log(2, n as int) == r + log(2, m as int),
            m * pow2(r as nat) <= n,
            n < (m + 1) * pow2(r as nat),
            m * pow2(r as nat) <= u64::MAX,
        decreases m,
    {
        proof {
            lemma_log_s(2, m as int);
            lemma_pow2_unfold((r + 1) as nat);
            let p = pow2(r as nat) as int;
            let h = (m / 2) as int;
            assert(h * (2 * p) <= m * p && (m + 1) * p <= (h + 1) * (2 * p)) by (nonlinear_arith)
                requires
                    2 * h <= m,
                    m + 1 <= 2 * (h + 1),
                    p >= 0,
            ;
            if r >= 64 {
                lemma2_to64();
                assert(m * p >= 0x1_0000_0000_0000_0000) by (nonlinear_arith)
                    requires
                        m >= 2,
                        p >= 0x1_0000_0000_0000_0000,
                ;
            }
        }
        m = m / 2;
        r = r + 1;
    }
    proof {
        lemma_log0(2, m as int);
        assert(m == 1);
        assert(m * pow2(r as nat) == pow2(r as nat)) by (nonlinear_arith)
            requires
                m == 1,
        ;
        assert((m + 1) * pow2(r as nat) == 2 * pow2(r as nat)) by (nonlinear_arith)
            requires
                m == 1,
        ;
    }
    r
}

/// The coarsest level, computed.
pub fn seed_level() -> (level: Vec<i64>)
    ensures
        ints(level@) == anchors(),
{
    let gap: i64 = DOMAIN / (SEED_COUNT as i64 + 1);
    let mut level: Vec<i64> = Vec::new();
    let mut x: usize = 0;
    while x < SEED_COUNT
        invariant
            x <= SEED_COUNT,
            gap == seed_gap(),
            gap == 69273666,
            level.len() == x,
            forall|j: int| 0 <= j < x ==> level[j] as int == anchors()[j],
        decreases SEED_COUNT - x,
    {
        level.push(gap * (x as i64 + 1));
        x = x + 1;
    }
    proof {
        assert(ints(level@) =~= anchors());
    }
    level
}

/// The level below `prev_level`, computed. The midpoints are summed in a
/// wider type, so that two large entries cannot overflow before halving.
pub fn generate_next_level(prev_level: &Vec<i64>) -> (next_level: Vec<i64>)
    requires
        prev_level.len() > 0,
        forall|i: int| 0 <= i < prev_level.len() ==> 0 <= #[trigger] prev_level[i],
        prev_level@.last() + prev_level@.last() / 2 <= i64::MAX,
    ensures
        ints(next_level@) == subdivide(ints(prev_level@)),
{
    let n: usize = prev_level.len();
    let ghost want = subdivide(ints(prev_level@));
    let mut next_level: Vec<i64> = Vec::new();
    next_level.push(prev_level[0] / 2);
    let mut i: usize = 1;
    while i < n
        invariant
            n == prev_level.len(),
            1 <= i <= n,
            next_level.len() == i,
            want == subdivide(ints(prev_level@)),
            forall|j: int| 0 <= j < prev_level.len() ==> 0 <= #[trigger] prev_level[j],
            forall|j: int| 0 <= j < i ==> next_level[j] as int == want[j],
        decreases n - i,
    {
        let below: i128 = prev_level[i - 1] as i128;
        let above: i128 = prev_level[i] as i128;
        let midpoint: i64 = ((below + above) / 2) as i64;
        next_level.push(midpoint);
        i = i + 1;
    }
    let last: i64 = prev_level[n - 1];
    next_level.push(last + last / 2);
    proof {
        assert(ints(next_level@) =~= want);
    }
    next_level
}

/// The whole ladder, computed: as many levels as the base-2 logarithm of the
/// anchors' spacing has whole units, the coarsest first. Each level has one
/// entry more than the one before it, is strictly ascending and positive,
/// keeps its first `SEED_COUNT` entries inside the identifier domain, and
/// has its neighbours at least 2 apart.
pub fn level_graph() -> (graph: Vec<Vec<i64>>)
    ensures
        graph.len() == ladder_depth(),
        forall|k: int| 0 <= k < graph.len() ==> ints(#[trigger] graph[k]@) == ladder_level(k as nat),
        forall|k: int| 0 <= k < graph.len() ==> (#[trigger] graph[k]).len() == SEED_COUNT + k,
        forall|k: int| 0 <= k < graph.len() ==> strictly_ascending(ints(#[trigger] graph[k]@)),
        forall|k: int| 0 <= k < graph.len() ==> spread(ints(#[trigger] graph[k]@)) && graph[k][0] >= 2,
        forall|k: int, j: int|
            0 <= k < graph.len() && 0 <= j < graph[k].len() ==> 0 < #[trigger] graph[k][j],
        forall|k: int, j: int|
            0 <= k < graph.len() && 0 <= j < SEED_COUNT ==> #[trigger] graph[k][j] < DOMAIN,
{
    let seed: Vec<i64> = seed_level();
    proof {
        lemma_ladder_depth();
        assert(ints(seed@).len() == anchors().len());
        assert(ints(seed@)[0] == anchors()[0]);
        assert(ints(seed@)[1] == anchors()[1]);
    }
    let smallest_diff: i64 = seed[1] - seed[0];
    let levels: u32 = floor_log2(smallest_diff as u64);
    let mut graph: Vec<Vec<i64>> = Vec::new();
    graph.push(seed);
    let mut i: u32 = 2;
    while i <= levels
        invariant
            2 <= i <= levels + 1,
            levels == ladder_depth(),
            levels == 26,
            graph.len() == i - 1,
            forall|k: int| 0 <= k < graph.len() ==> ints(#[trigger] graph[k]@) == ladder_level(k as nat),
        decreases levels + 1 - i,
    {
        let prev_level: &Vec<i64> = &graph[graph.len() - 1];
        proof {
            let k = (i - 2) as nat;
            lemma_ladder_level(k);
            lemma2_to64();
            lemma_pow2_strictly_increases(k, 26);
            let level = ints(prev_level@);
            assert(level == ladder_level(k));
            assert(level.last() == prev_level@.last());
            assert forall|j: int| 0 <= j < prev_level.len() implies 0 <= #[trigger] prev_level[j] by {
                assert(level[j] == prev_level[j]);
            }
        }
        let next_level: Vec<i64> = generate_next_level(prev_level);
        graph.push(next_level);
        i = i + 1;
    }
    proof {
        assert forall|k: int| 0 <= k < graph.len() implies {
            &&& (#[trigger] graph[k]).len() == SEED_COUNT + k
            &&& strictly_ascending(ints(graph[k]@))
            &&& spread(ints(graph[k]@))
            &&& graph[k][0] >= 2
            &&& forall|j: int| 0 <= j < graph[k].len() ==> 0 < #[trigger] graph[k][j]
            &&& forall|j: int| 0 <= j < SEED_COUNT ==> #[trigger] graph[k][j] < DOMAIN
        } by {
            lemma_ladder_level(k as nat);
            let level = ints(graph[k]@);
            assert(level.len() == graph[k].len());
            assert(level[0] == graph[k][0]);
            assert forall|j: int| 0 <= j < graph[k].len() implies 0 < #[trigger] graph[k][j] by {
                assert(level[j] == graph[k][j]);
            }
            assert forall|j: int| 0 <= j < SEED_COUNT implies #[trigger] graph[k][j] < DOMAIN by {
                assert(level[j] == graph[k][j]);
            }
        }
    }
    graph
}

/// The logarithm that `floor_log2` computes is the one exponent whose power
/// of two is at most `n` while the next power is above it.
pub proof fn lemma_log2_unique(n: int, e: nat)
    requires
        pow2(e) <= n < 2 * pow2(e),
    ensures
        log(2, n) == e,
    decreases e,
{
    if e == 0 {
        lemma2_to64();
        lemma_log0(2, n);
    } else {
        lemma_pow2_unfold(e);
        lemma_log_s(2, n);
        lemma_log2_unique(n / 2, (e - 1) as nat);
    }
}

/// The ladder has 26 levels: the anchors are 69273666 apart, which lies
/// between the 26th and the 27th power of two.
pub proof fn lemma_ladder_depth()
    ensures
        seed_gap() == 69273666,
        ladder_depth() == 26,
{
    lemma2_to64();
    lemma_log2_unique(seed_gap(), 26);
}

/// Subdividing a strictly ascending level whose first entry is positive
/// gives a strictly ascending level with one entry more. Its entries
/// interleave with those of the level above: the first lies below the old
/// first entry, each inner entry lies between its two parents, and the last
/// is no less than the old last entry.
pub proof fn lemma_subdivide_ascending(prev: Seq<int>)
    requires
        prev.len() > 0,
        strictly_ascending(prev),
        prev[0] >= 1,
    ensures
        subdivide(prev).len() == prev.len() + 1,
        strictly_ascending(subdivide(prev)),
        subdivide(prev)[0] < prev[0],
        forall|i: int| 1 <= i < prev.len() ==> prev[i - 1] <= #[trigger] subdivide(prev)[i] < prev[i],
        prev.last() <= subdivide(prev).last(),
{
    let next = subdivide(prev);
    let n = prev.len() as int;
    assert forall|i: int| 1 <= i < n implies prev[i - 1] <= #[trigger] next[i] < prev[i] by {
        assert(prev[i - 1] < prev[i]);
    }
    assert(prev[0] <= prev.last());
    assert forall|i: int, j: int| 0 <= i < j < next.len() implies next[i] < next[j] by {
        assert(next[i] < prev[i]);
        assert(prev[j - 1] <= next[j]);
        assert(prev[i] <= prev[j - 1]);
    }
}

/// Subdividing keeps a level spread: where the first entry is not negative
/// and no two neighbours are closer than the first entry is to zero, the
/// same holds of the level below, whose first entry is half as large.
pub proof fn lemma_subdivide_spread(prev: Seq<int>)
    requires
        prev.len() > 0,
        prev[0] >= 0,
        spread(prev),
    ensures
        subdivide(prev)[0] == prev[0] / 2,
        spread(subdivide(prev)),
{
    let next = subdivide(prev);
    let n = prev.len() as int;
    assert forall|i: int, j: int| 0 <= i && j == i + 1 && j < next.len() implies #[trigger] next[j]
        - #[trigger] next[i] >= next[0] by {
        if 1 <= i {
            lemma_spread_from_first(prev, i);
        }
        if 2 <= i {
            lemma_spread_from_first(prev, i - 1);
        }
        if j < n {
            lemma_spread_from_first(prev, j);
        }
    }
}

/// In a spread level every entry after the first is at least twice the
/// first.
proof fn lemma_spread_from_first(level: Seq<int>, i: int)
    requires
        1 <= i < level.len(),
        level[0] >= 0,
        spread(level),
    ensures
        level[i] - level[i - 1] >= level[0],
        level[i] >= 2 * level[0],
    decreases i,
{
    assert(level[i] - level[i - 1] >= level[0]);
    if i > 1 {
        lemma_spread_from_first(level, i - 1);
    }
}

/// What holds of every level of the ladder: level `k` has `k` entries more
/// than the coarsest, is strictly ascending and positive throughout, keeps
/// its first `SEED_COUNT` entries inside the identifier domain, and has not
/// run out of precision: its first entry is at least 2, and no two
/// neighbours are closer than that, so that a midpoint of two neighbours
/// never meets either of them.
pub proof fn lemma_ladder_level(k: nat)
    requires
        k < ladder_depth(),
    ensures
        ladder_level(k).len() == SEED_COUNT + k,
        k >= 1 ==> ladder_level(k).len() == ladder_level((k - 1) as nat).len() + 1,
        strictly_ascending(ladder_level(k)),
        forall|j: int| 0 <= j < ladder_level(k).len() ==> 0 < #[trigger] ladder_level(k)[j],
        forall|j: int| 0 <= j < SEED_COUNT ==> #[trigger] ladder_level(k)[j] < DOMAIN,
        ladder_level(k)[0] >= pow2((ladder_depth() - k) as nat),
        ladder_level(k)[0] >= 2,
        spread(ladder_level(k)),
        ladder_level(k).last() <= DOMAIN * pow2(k),
    decreases k,
{
    lemma_ladder_depth();
    let level = ladder_level(k);
    let room = (ladder_depth() - k) as nat;
    if k == 0 {
        lemma_anchors();
        assert(pow2(26) == 67108864 && pow2(0) == 1) by {
            lemma2_to64();
        }
    } else {
        let prev = ladder_level((k - 1) as nat);
        lemma_ladder_level((k - 1) as nat);
        lemma_subdivide_ascending(prev);
        lemma_subdivide_spread(prev);
        assert(level[0] >= pow2(room)) by {
            lemma_pow2_unfold(room + 1);
        }
        assert(level.last() <= DOMAIN * pow2(k)) by {
            lemma_pow2_unfold(k);
        }
        assert forall|j: int| 0 <= j < SEED_COUNT implies #[trigger] level[j] < DOMAIN by {
            assert(level[j] < prev[j]);
        }
    }
    assert(level[0] >= 2) by {
        lemma2_to64();
        lemma_pow2_strictly_increases(0, room);
    }
    assert forall|j: int| 0 <= j < level.len() implies 0 < #[trigger] level[j] by {
        assert(level[0] <= level[j]);
    }
}

/// The coarsest level has `SEED_COUNT` entries, one spacing apart, the first
/// one spacing above zero and the last inside the identifier domain.
proof fn lemma_anchors()
    ensures
        anchors().len() == SEED_COUNT,
        anchors()[0] == 69273666,
        anchors().last() < DOMAIN,
        strictly_ascending(anchors()),
        spread(anchors()),
        forall|j: int| 0 <= j < SEED_COUNT ==> #[trigger] anchors()[j] < DOMAIN,
{
    let level = anchors();
    assert(seed_gap() == 69273666);
    assert forall|j: int| 0 <= j < level.len() implies #[trigger] level[j] == 69273666 * (j + 1) by {}
    assert forall|i: int, j: int| 0 <= i && j == i + 1 && j < level.len() implies #[trigger] level[j]
        - #[trigger] level[i] >= level[0] by {}
}

} // verus!

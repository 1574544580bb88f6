use vstd::prelude::*;
use crate::backend::BackendServer;
use crate::registry::{healthy_of, list_healthy};
use vstd::arithmetic::div_mod::{
    lemma_add_mod_noop, lemma_add_mod_noop_right, lemma_fundamental_div_mod, lemma_mod_add_multiples_vanish,
    lemma_mod_bound, lemma_mod_twice, lemma_small_mod,
};

verus! {

/// Policy that decides which healthy backend receives the next request.
#[derive(Debug, Clone, Copy, PartialEq, Eq, Structural)]
pub enum LoadBalancerAlgorithm {
    RoundRobin,
    LeastConnections,
    Random,
    /// Weighted random choice (despite the name, not a fixed rotation).
    WeightedRoundRobin,
}

/// The policy configured by `name`; unrecognised names mean round robin.
pub open spec fn algorithm_named(name: Seq<char>) -> LoadBalancerAlgorithm {
    if name == "least_connections"@ {
        LoadBalancerAlgorithm::LeastConnections
    } else if name == "random"@ {
        LoadBalancerAlgorithm::Random
    } else if name == "weighted_round_robin"@ {
        LoadBalancerAlgorithm::WeightedRoundRobin
    } else {
        LoadBalancerAlgorithm::RoundRobin
    }
}

impl LoadBalancerAlgorithm {
    /// Parses a configured policy name.
    pub fn from_name(name: &str) -> (r: Self)
        ensures
            r == algorithm_named(name@),
    {
        let s = name.to_owned();
        if s == "least_connections".to_owned() {
            LoadBalancerAlgorithm::LeastConnections
        } else if s == "random".to_owned() {
            LoadBalancerAlgorithm::Random
        } else if s == "weighted_round_robin".to_owned() {
            LoadBalancerAlgorithm::WeightedRoundRobin
        } else {
            LoadBalancerAlgorithm::RoundRobin
        }
    }
}

impl<'a> From<&'a str> for LoadBalancerAlgorithm {
    fn from(name: &'a str) -> (r: Self) {
        LoadBalancerAlgorithm::from_name(name)
    }
}

impl<'a> vstd::std_specs::convert::FromSpecImpl<&'a str> for LoadBalancerAlgorithm {
    open spec fn obeys_from_spec() -> bool {
        true
    }

    open spec fn from_spec(name: &'a str) -> Self {
        algorithm_named(name@)
    }
}

/// Sum of the weights of `h`.
pub open spec fn total_weight(h: Seq<BackendServer>) -> int
    decreases h.len(),
{
    if h.len() == 0 {
        0
    } else {
        total_weight(h.drop_last()) + h.last().weight
    }
}

/// Walks `h` in order, spending `d` on each weight, and stops at the first
/// record whose cumulative weight exceeds `d`; `h.len()` if none does.
pub open spec fn weighted_walk(h: Seq<BackendServer>, d: int) -> int
    decreases h.len(),
{
    if h.len() == 0 {
        0
    } else if d < h[0].weight {
        0
    } else {
        1 + weighted_walk(h.drop_first(), d - h[0].weight)
    }
}

/// Position picked by weighted selection for the draw `d`; the first record
/// when the walk runs off the end.
pub open spec fn weighted_pick(h: Seq<BackendServer>, d: int) -> int {
    let i = weighted_walk(h, d);
    if i < h.len() {
        i
    } else {
        0
    }
}

/// `i` is the first position of `h` holding the fewest connections.
pub open spec fn is_first_least_loaded(h: Seq<BackendServer>, i: int) -> bool {
    &&& 0 <= i < h.len()
    &&& forall|j: int| 0 <= j < h.len() ==> h[i].connections <= h[j].connections
    &&& forall|j: int| 0 <= j < i ==> h[j].connections > h[i].connections
}

/// A draw that the policy may use on the healthy records `h`: below their
/// count for random choice, below their total weight for weighted choice
/// (zero when that total is zero); ignored by the other policies.
pub open spec fn draw_allowed(h: Seq<BackendServer>, alg: LoadBalancerAlgorithm, d: int) -> bool {
    match alg {
        LoadBalancerAlgorithm::Random => 0 <= d < h.len(),
        LoadBalancerAlgorithm::WeightedRoundRobin =>
            if total_weight(h) == 0 { d == 0 } else { 0 <= d < total_weight(h) },
        _ => true,
    }
}

/// Position chosen among the non-empty healthy records `h` under `alg`,
/// with cursor `c` and draw `d`.
pub open spec fn chosen_index(h: Seq<BackendServer>, alg: LoadBalancerAlgorithm, c: int, d: int) -> int {
    match alg {
        LoadBalancerAlgorithm::RoundRobin => c % (h.len() as int),
        LoadBalancerAlgorithm::LeastConnections => choose|i: int| is_first_least_loaded(h, i),
        LoadBalancerAlgorithm::Random => d,
        LoadBalancerAlgorithm::WeightedRoundRobin => weighted_pick(h, d),
    }
}

/// Cursor after a selection among `k` healthy records from cursor `c`.
pub open spec fn cursor_after(alg: LoadBalancerAlgorithm, k: int, c: int) -> int {
    match alg {
        LoadBalancerAlgorithm::RoundRobin => (c % k + 1) % k,
        _ => c,
    }
}

/// Relies on `rand::random_range` (thread-local generator): for a non-empty
/// half-open range it returns a value inside it, and panics on an empty one.
#[verifier::external_body]
fn random_below(bound: u128) -> (r: u128)
    requires
        bound > 0,
    ensures
        r < bound,
{
    rand::random_range(0..bound)
}

/// First position holding the fewest connections.
pub fn least_loaded_index(healthy: &Vec<BackendServer>) -> (r: usize)
    requires
        healthy.len() > 0,
    ensures
        is_first_least_loaded(healthy@, r as int),
{
    let mut best: usize = 0;
    let mut i: usize = 1;
    while i < healthy.len()
        invariant
            0 <= best < i <= healthy.len(),
            forall|j: int| 0 <= j < i ==> healthy@[best as int].connections <= healthy@[j].connections,
            forall|j: int| 0 <= j < best ==> healthy@[j].connections > healthy@[best as int].connections,
        decreases healthy.len() - i,
    {
        if healthy[i].connections < healthy[best].connections {
            best = i;
        }
        i = i + 1;
    }
    best
}

/// Sum of the weights, which cannot overflow 128 bits.
pub fn total_weight_of(healthy: &Vec<BackendServer>) -> (t: u128)
    ensures
        t == total_weight(healthy@),
{
    let mut t: u128 = 0;
    let mut i: usize = 0;
    while i < healthy.len()
        invariant
            i <= healthy.len(),
            t == total_weight(healthy@.subrange(0, i as int)),
            t <= i * 0xFFFF_FFFFint,
        decreases healthy.len() - i,
    {
        proof {
            assert(healthy@.subrange(0, i + 1).drop_last() =~= healthy@.subrange(0, i as int));
            let ii = i as int;
            assert(ii < 0x1_0000_0000_0000_0000int);
            assert((ii + 1) * 0xFFFF_FFFFint < 0x1_0000_0000_0000_0000_0000_0000int) by (nonlinear_arith)
                requires ii < 0x1_0000_0000_0000_0000int;
            assert((ii + 1) * 0xFFFF_FFFFint == ii * 0xFFFF_FFFFint + 0xFFFF_FFFFint) by (nonlinear_arith);
        }
        t = t + healthy[i].weight as u128;
        i = i + 1;
    }
    proof {
        assert(healthy@.subrange(0, i as int) =~= healthy@);
    }
    t
}

/// Position picked by weighted selection for the draw `draw`.
pub fn weighted_index(healthy: &Vec<BackendServer>, draw: u128) -> (r: usize)
    requires
        healthy.len() > 0,
    ensures
        r as int == weighted_pick(healthy@, draw as int),
{
    let ghost h = healthy@;
    let mut rem: u128 = draw;
    let mut i: usize = 0;
    proof {
        assert(h.subrange(0, h.len() as int) =~= h);
    }
    while i < healthy.len()
        invariant
            i <= healthy.len(),
            h == healthy@,
            weighted_walk(h, draw as int) == i + weighted_walk(h.subrange(i as int, h.len() as int), rem as int),
        decreases healthy.len() - i,
    {
        let ghost sub = h.subrange(i as int, h.len() as int);
        proof {
            assert(sub[0] == h[i as int]);
            assert(sub.drop_first() =~= h.subrange(i + 1, h.len() as int));
        }
        let w = healthy[i].weight as u128;
        if rem < w {
            return i;
        }
        rem = rem - w;
        i = i + 1;
    }
    proof {
        assert(h.subrange(i as int, h.len() as int).len() == 0);
    }
    0
}

/// Position chosen among the non-empty healthy records under `algorithm`,
/// given the cursor and a draw that the policy allows; moves the cursor on
/// for round robin.
pub fn choose_index(
    healthy: &Vec<BackendServer>,
    algorithm: &LoadBalancerAlgorithm,
    current_index: &mut usize,
    draw: u128,
) -> (r: usize)
    requires
        healthy.len() > 0,
        draw_allowed(healthy@, *algorithm, draw as int),
    ensures
        r < healthy.len(),
        r as int == chosen_index(healthy@, *algorithm, *old(current_index) as int, draw as int),
        *final(current_index) as int == cursor_after(*algorithm, healthy.len() as int, *old(current_index) as int),
{
    let k = healthy.len();
    match algorithm {
        LoadBalancerAlgorithm::RoundRobin => {
            let index = *current_index % k;
            *current_index = (index + 1) % k;
            index
        },
        LoadBalancerAlgorithm::LeastConnections => {
            let i = least_loaded_index(healthy);
            proof {
                let c = choose|j: int| is_first_least_loaded(healthy@, j);
                assert(is_first_least_loaded(healthy@, c));
                if c < i {
                    assert(healthy@[c].connections > healthy@[i as int].connections);
                } else if i < c {
                    assert(healthy@[i as int].connections > healthy@[c].connections);
                }
            }
            i
        },
        LoadBalancerAlgorithm::Random => draw as usize,
        LoadBalancerAlgorithm::WeightedRoundRobin => {
            let i = weighted_index(healthy, draw);
            i
        },
    }
}

/// Picks one healthy backend under `algorithm`, or `None` when no backend is
/// healthy. All decisions use one snapshot of the healthy records; round
/// robin takes the cursor modulo their count and advances it, the other
/// policies leave it alone.
pub fn select_backend(
    backends: &Vec<BackendServer>,
    algorithm: &LoadBalancerAlgorithm,
    current_index: &mut usize,
) -> (r: Option<BackendServer>)
    ensures
        r is None <==> healthy_of(backends@).len() == 0,
        r is None ==> *final(current_index) == *old(current_index),
        r is Some ==> exists|d: int| #![auto]
            draw_allowed(healthy_of(backends@), *algorithm, d)
            && r == Some(healthy_of(backends@)[chosen_index(healthy_of(backends@), *algorithm, *old(current_index) as int, d)]),
        r is Some ==> *final(current_index) as int
            == cursor_after(*algorithm, healthy_of(backends@).len() as int, *old(current_index) as int),
{
    let healthy = list_healthy(backends);
    if healthy.len() == 0 {
        return None;
    }
    let draw: u128 = match algorithm {
        LoadBalancerAlgorithm::Random => random_below(healthy.len() as u128),
        LoadBalancerAlgorithm::WeightedRoundRobin => {
            let total = total_weight_of(&healthy);
            if total == 0 {
                0
            } else {
                random_below(total)
            }
        },
        _ => 0,
    };
    let i = choose_index(&healthy, algorithm, current_index, draw);
    let r = Some(healthy[i].snapshot());
    proof {
        assert(draw_allowed(healthy@, *algorithm, draw as int));
        assert(r == Some(healthy@[chosen_index(healthy@, *algorithm, *old(current_index) as int, draw as int)]));
    }
    r
}

/// Cursor after `n` round-robin selections among a stable set of `k`
/// healthy records, starting from cursor `c`.
pub open spec fn cursor_after_rounds(k: int, c: int, n: nat) -> int
    decreases n,
{
    if n == 0 {
        c
    } else {
        cursor_after(LoadBalancerAlgorithm::RoundRobin, k, cursor_after_rounds(k, c, (n - 1) as nat))
    }
}

/// Position picked by the round-robin selection that follows `n` earlier
/// ones among the stable healthy records `h`, from cursor `c`.
pub open spec fn round_robin_pick(h: Seq<BackendServer>, c: int, n: nat) -> int {
    chosen_index(h, LoadBalancerAlgorithm::RoundRobin, cursor_after_rounds(h.len() as int, c, n), 0)
}

/// Round robin walks the healthy records in registration order: the pick
/// after `n` earlier selections is `(c mod k + n) mod k`, so from a fresh
/// cursor of zero the `n`-th pick is position `n mod k`.
pub proof fn round_robin_in_order(h: Seq<BackendServer>, c: int, n: nat)
    requires
        h.len() >= 1,
    ensures
        round_robin_pick(h, c, n) == (c % (h.len() as int) + n) % (h.len() as int),
        c == 0 ==> round_robin_pick(h, c, n) == (n as int) % (h.len() as int),
    decreases n,
{
    let k = h.len() as int;
    let a = c % k;
    lemma_mod_bound(c, k);
    if n == 0 {
        lemma_mod_twice(c, k);
    } else {
        round_robin_in_order(h, c, (n - 1) as nat);
        let x = a + n - 1;
        let prev = cursor_after_rounds(k, c, (n - 1) as nat);
        assert(prev % k == x % k);
        lemma_add_mod_noop(x, 1, k);
        lemma_add_mod_noop_right(x % k, 1, k);
        lemma_mod_twice(x + 1, k);
    }
    if c == 0 {
        lemma_small_mod(0, k as nat);
    }
}

/// Any `k` consecutive round-robin selections among `k` stable healthy
/// records pick `k` different records, so each exactly once; after that
/// the sequence repeats.
pub proof fn round_robin_each_once(h: Seq<BackendServer>, c: int, n1: nat, n2: nat)
    requires
        h.len() >= 1,
    ensures
        n1 < n2 < n1 + h.len() ==> round_robin_pick(h, c, n1) != round_robin_pick(h, c, n2),
        round_robin_pick(h, c, n1 + h.len()) == round_robin_pick(h, c, n1),
{
    let k = h.len() as int;
    let a = c % k;
    round_robin_in_order(h, c, n1);
    round_robin_in_order(h, c, n2);
    round_robin_in_order(h, c, (n1 + h.len()) as nat);
    lemma_mod_add_multiples_vanish(a + n1, k);
    if n1 < n2 < n1 + k {
        let x = a + n1;
        let y = a + n2;
        lemma_fundamental_div_mod(x, k);
        lemma_fundamental_div_mod(y, k);
        if x % k == y % k {
            let q = y / k - x / k;
            assert(y - x == k * q) by (nonlinear_arith)
                requires
                    x == k * (x / k) + x % k,
                    y == k * (y / k) + y % k,
                    x % k == y % k,
                    q == y / k - x / k;
            if q >= 1 {
                assert(k * q >= k) by (nonlinear_arith)
                    requires
                        q >= 1,
                        k >= 1;
            } else {
                assert(k * q <= 0) by (nonlinear_arith)
                    requires
                        q <= 0,
                        k >= 1;
            }
        }
    }
}

/// Some position of a non-empty `h` is the first one holding the fewest
/// connections.
pub proof fn least_loaded_exists(h: Seq<BackendServer>)
    requires
        h.len() > 0,
    ensures
        exists|i: int| is_first_least_loaded(h, i),
    decreases h.len(),
{
    if h.len() == 1 {
        assert(is_first_least_loaded(h, 0));
    } else {
        let p = h.drop_last();
        least_loaded_exists(p);
        let i = choose|i: int| is_first_least_loaded(p, i);
        let last = h.len() - 1;
        assert(forall|j: int| 0 <= j < last ==> p[j] == h[j]);
        if h[last].connections < h[i].connections {
            assert(is_first_least_loaded(h, last));
        } else {
            assert(is_first_least_loaded(h, i));
        }
    }
}

/// Least-connections selection returns a healthy record whose count is at
/// most that of every other healthy record, the earliest such one.
pub proof fn least_connections_is_minimal(h: Seq<BackendServer>, c: int, d: int)
    requires
        h.len() > 0,
    ensures
        is_first_least_loaded(h, chosen_index(h, LoadBalancerAlgorithm::LeastConnections, c, d)),
        forall|j: int| 0 <= j < h.len() ==>
            h[chosen_index(h, LoadBalancerAlgorithm::LeastConnections, c, d)].connections <= #[trigger] h[j].connections,
{
    least_loaded_exists(h);
}

/// When no record is healthy, selection under every policy returns nothing.
pub proof fn all_unhealthy_selects_nothing(backends: Seq<BackendServer>)
    requires
        forall|i: int| 0 <= i < backends.len() ==> !backends[i].healthy,
    ensures
        healthy_of(backends).len() == 0,
    decreases backends.len(),
{
    if backends.len() > 0 {
        all_unhealthy_selects_nothing(backends.drop_last());
    }
}

/// Total weight of the records of `h` before position `i`.
pub open spec fn weight_before(h: Seq<BackendServer>, i: int) -> int {
    total_weight(h.subrange(0, i))
}

proof fn lemma_total_weight_first(h: Seq<BackendServer>)
    requires
        h.len() > 0,
    ensures
        total_weight(h) == h[0].weight + total_weight(h.drop_first()),
    decreases h.len(),
{
    if h.len() == 1 {
        assert(total_weight(h.drop_last()) == 0);
        assert(total_weight(h.drop_first()) == 0);
    } else {
        lemma_total_weight_first(h.drop_last());
        assert(h.drop_last()[0] == h[0]);
        assert(h.drop_last().drop_first() =~= h.drop_first().drop_last());
        assert(h.drop_first().last() == h.last());
    }
}

/// Weighted selection with a draw below the total weight picks the record
/// whose slice `[weight before it, weight before it + its weight)` holds the
/// draw. The slices of all records tile the draws, so over uniform draws each
/// record is picked with probability its weight divided by the total.
pub proof fn weighted_pick_slice(h: Seq<BackendServer>, d: int)
    requires
        0 <= d < total_weight(h),
    ensures
        0 <= weighted_pick(h, d) < h.len(),
        weight_before(h, weighted_pick(h, d)) <= d,
        d < weight_before(h, weighted_pick(h, d)) + h[weighted_pick(h, d)].weight,
    decreases h.len(),
{
    if h.len() == 0 {
        assert(total_weight(h) == 0);
    } else {
        lemma_total_weight_first(h);
        let w0 = h[0].weight as int;
        if d < w0 {
            assert(h.subrange(0, 0).len() == 0);
        } else {
            let t = h.drop_first();
            weighted_pick_slice(t, d - w0);
            let p = weighted_pick(t, d - w0);
            assert(weighted_walk(t, d - w0) == p);
            let pre = h.subrange(0, p + 1);
            lemma_total_weight_first(pre);
            assert(pre.drop_first() =~= t.subrange(0, p));
            assert(h[p + 1] == t[p]);
        }
    }
}

} // verus!

//! Partitioning the 16-bit port space across a fixed number of workers.
//!
//! The worker with offset `o` (for `o` in `0 .. workers`) probes the ports
//! `o + 1`, `o + 1 + workers`, `o + 1 + 2 * workers`, and so on; after
//! probing a port it stops as soon as the remaining distance to the top of
//! the range is at most the stride. Together the workers probe every port
//! from 1 up to (but not including) the top port exactly once; the top port
//! itself is only reached when every worker owns a single candidate.

use vstd::prelude::*;
use vstd::arithmetic::div_mod::{
    lemma_fundamental_div_mod, lemma_mod_multiples_basic, lemma_mod_sub_multiples_vanish,
    lemma_small_mod, lemma_sub_mod_noop,
};
use vstd::arithmetic::div_mod::{lemma_div_pos_is_pos, lemma_mod_division_less_than_divisor};
use vstd::arithmetic::mul::lemma_mul_nonnegative;

verus! {

/// The highest TCP port number; port 0 is reserved and never scanned.
pub const MAX_PORT: u16 = 65535;

/// The candidate ports probed by a single walk that starts at `port` and
/// advances by `stride`: each visited port is probed, and the walk stops
/// once the distance left to the top of the range is at most the stride.
pub open spec fn ports_from(port: u16, stride: u16) -> Seq<u16>
    decreases MAX_PORT - port,
    when stride >= 1
{
    if MAX_PORT - port <= stride {
        seq![port]
    } else {
        seq![port] + ports_from((port + stride) as u16, stride)
    }
}

/// The candidate ports of the worker with the given offset: its walk starts
/// at `offset + 1` with the worker count as stride.
pub open spec fn worker_ports(offset: u16, workers: u16) -> Seq<u16> {
    ports_from((offset + 1) as u16, workers)
}

/// Whether the worker with this offset ever probes port `p`.
pub open spec fn attempted_by(p: u16, offset: u16, workers: u16) -> bool {
    worker_ports(offset, workers).contains(p)
}

/// Whether one of the workers with an offset below `bound` probes port `p`.
pub open spec fn attempted_below(p: u16, bound: u16, workers: u16) -> bool {
    exists|o: u16| o < bound && #[trigger] attempted_by(p, o, workers)
}

/// Whether any of the `workers` workers probes port `p`.
pub open spec fn attempted(p: u16, workers: u16) -> bool {
    attempted_below(p, workers, workers)
}

/// Raising the offset bound by one adds exactly the ports of the worker at
/// the old bound.
pub proof fn lemma_attempted_below_step(p: u16, bound: u16, workers: u16)
    requires
        bound < workers,
    ensures
        attempted_below(p, (bound + 1) as u16, workers) <==> (attempted_below(p, bound, workers)
            || attempted_by(p, bound, workers)),
{
    if attempted_below(p, (bound + 1) as u16, workers) {
        let o = choose|o: u16| o < bound + 1 && #[trigger] attempted_by(p, o, workers);
        if o < bound {
            assert(attempted_below(p, bound, workers));
        } else {
            assert(o == bound);
        }
    }
    if attempted_below(p, bound, workers) {
        let o = choose|o: u16| o < bound && #[trigger] attempted_by(p, o, workers);
        assert(o < bound + 1);
        assert(attempted_below(p, (bound + 1) as u16, workers));
    }
    if attempted_by(p, bound, workers) {
        assert(bound < bound + 1);
        assert(attempted_below(p, (bound + 1) as u16, workers));
    }
}

/// A positive multiple of `m` is at least `m`.
proof fn lemma_pos_multiple_at_least(x: int, m: int)
    requires
        1 <= m,
        0 < x,
        x % m == 0,
    ensures
        x >= m,
{
    lemma_fundamental_div_mod(x, m);
    lemma_div_pos_is_pos(x, m);
    if x / m == 0 {
        assert(x == m * (x / m) + x % m);
        assert(x == 0) by (nonlinear_arith)
            requires
                x == m * (x / m) + x % m,
                x / m == 0,
                x % m == 0,
        ;
    } else {
        assert(x >= m) by (nonlinear_arith)
            requires
                x == m * (x / m),
                x / m >= 1,
                m >= 1,
        ;
    }
}

/// Exactly which ports a walk visits: the starting port itself, and every
/// later port on the same stride that lies strictly below the top of the
/// range.
pub proof fn lemma_ports_from_contains(port: u16, stride: u16, p: u16)
    requires
        1 <= stride,
    ensures
        ports_from(port, stride).contains(p) <==> (p == port || (port < p < MAX_PORT && (p
            - port) % (stride as int) == 0)),
    decreases MAX_PORT - port,
{
    let s = ports_from(port, stride);
    if MAX_PORT - port <= stride {
        assert(s == seq![port]);
        assert(s[0] == port);
        if s.contains(p) {
            let i = choose|i: int| 0 <= i < s.len() && s[i] == p;
            assert(p == port);
        }
        if port < p < MAX_PORT && (p - port) % (stride as int) == 0 {
            lemma_pos_multiple_at_least(p - port, stride as int);
            assert(p >= port + stride);
            assert(p >= MAX_PORT);
            assert(false);
        }
    } else {
        let next = (port + stride) as u16;
        let tail = ports_from(next, stride);
        lemma_ports_from_contains(next, stride, p);
        assert(s == seq![port] + tail);
        assert(s[0] == port);
        // s contains p exactly when p is the head or the tail contains p
        if s.contains(p) {
            let i = choose|i: int| 0 <= i < s.len() && s[i] == p;
            if i > 0 {
                assert(tail[i - 1] == p);
                assert(tail.contains(p));
            }
        }
        if tail.contains(p) {
            let i = choose|i: int| 0 <= i < tail.len() && tail[i] == p;
            assert(s[i + 1] == p);
            assert(s.contains(p));
        }
        if p == port {
            assert(s.contains(p));
        }
        // the two residue conditions agree one stride apart
        lemma_mod_sub_multiples_vanish(p - port, stride as int);
        assert((p - next) % (stride as int) == (p - port) % (stride as int));
        if port < p < MAX_PORT && (p - port) % (stride as int) == 0 {
            lemma_pos_multiple_at_least(p - port, stride as int);
            assert(p >= port + stride);
            assert(next <= p);
            assert(tail.contains(p));
        }
        if tail.contains(p) {
            if p == next {
                lemma_mod_multiples_basic(1, stride as int);
                assert((1 * (stride as int)) % (stride as int) == 0);
                assert(p - port == stride);
                assert(p < MAX_PORT);
            }
        }
    }
}

/// Partition disjointness: no port is ever probed by two different workers.
pub proof fn lemma_partition_disjoint(p: u16, o1: u16, o2: u16, workers: u16)
    requires
        workers >= 1,
        o1 < workers,
        o2 < workers,
        o1 != o2,
    ensures
        !(attempted_by(p, o1, workers) && attempted_by(p, o2, workers)),
{
    if attempted_by(p, o1, workers) && attempted_by(p, o2, workers) {
        let w: int = workers as int;
        lemma_ports_from_contains((o1 + 1) as u16, workers, p);
        lemma_ports_from_contains((o2 + 1) as u16, workers, p);
        lemma_small_mod(0, workers as nat);
        assert((p - (o1 + 1)) % w == 0);
        assert((p - (o2 + 1)) % w == 0);
        lemma_sub_mod_noop(p - (o1 + 1), p - (o2 + 1), w);
        assert((o2 - o1) % w == 0);
        if o1 < o2 {
            lemma_small_mod((o2 - o1) as nat, workers as nat);
            assert(false);
        } else {
            lemma_sub_mod_noop(p - (o2 + 1), p - (o1 + 1), w);
            assert((o1 - o2) % w == 0);
            lemma_small_mod((o1 - o2) as nat, workers as nat);
            assert(false);
        }
    }
}

/// Partition completeness, in closed form: the workers together probe
/// exactly the ports from 1 up to (but not including) the top of the range,
/// plus the top port itself when the worker count equals it.
pub proof fn lemma_coverage(p: u16, workers: u16)
    requires
        workers >= 1,
    ensures
        attempted(p, workers) <==> (1 <= p && (p < MAX_PORT || workers == MAX_PORT)),
{
    let w = workers as int;
    if 1 <= p && (p < MAX_PORT || workers == MAX_PORT) {
        lemma_fundamental_div_mod(p - 1, w);
        lemma_div_pos_is_pos(p - 1, w);
        lemma_mod_division_less_than_divisor(p - 1, w);
        let q: int = (p - 1) / w;
        let o: u16 = ((p - 1) % w) as u16;
        assert(0 <= o < workers);
        assert(p - 1 == w * q + o);
        lemma_mul_nonnegative(w, q);
        assert(p >= o + 1);
        lemma_mod_multiples_basic(q, w);
        assert((q * w) % w == 0);
        assert(p - (o + 1) == w * q) by (nonlinear_arith)
            requires
                p - 1 == w * q + o,
        ;
        assert(w * q == q * w) by (nonlinear_arith);
        assert((p - (o + 1)) % w == 0);
        lemma_ports_from_contains((o + 1) as u16, workers, p);
        if p == o + 1 {
            assert(attempted_by(p, o, workers));
        } else {
            assert(o + 1 < p);
            if p < MAX_PORT {
                assert(attempted_by(p, o, workers));
            } else {
                // p is the top port: its residue class starts at the top port
                // exactly when every offset below it exists, so the walk that
                // owns it starts at p itself.
                assert(workers == MAX_PORT);
                lemma_small_mod((p - 1) as nat, workers as nat);
                assert(o == p - 1);
                assert(false);
            }
        }
        assert(attempted(p, workers));
    }
    if attempted(p, workers) {
        let o = choose|o: u16| o < workers && #[trigger] attempted_by(p, o, workers);
        lemma_ports_from_contains((o + 1) as u16, workers, p);
        assert(p >= o + 1 >= 1);
        if p == MAX_PORT {
            if p == o + 1 {
                assert(o == MAX_PORT - 1);
                assert(workers == MAX_PORT);
            } else {
                assert(p < MAX_PORT);
                assert(false);
            }
        }
    }
}

/// Exactly one worker owns each covered port: some worker probes it, and no
/// two distinct workers ever probe the same port.
pub proof fn lemma_partition_exactly_one(p: u16, workers: u16)
    requires
        workers >= 1,
        1 <= p,
        p < MAX_PORT || workers == MAX_PORT,
    ensures
        attempted(p, workers),
        forall|o1: u16, o2: u16|
            o1 < workers && o2 < workers && #[trigger] attempted_by(p, o1, workers)
                && #[trigger] attempted_by(p, o2, workers) ==> o1 == o2,
{
    lemma_coverage(p, workers);
    assert forall|o1: u16, o2: u16|
        o1 < workers && o2 < workers && #[trigger] attempted_by(p, o1, workers)
            && #[trigger] attempted_by(p, o2, workers) implies o1 == o2 by {
        if o1 != o2 {
            lemma_partition_disjoint(p, o1, o2, workers);
        }
    }
}

/// With the largest possible worker count, every worker probes exactly one
/// candidate port: the one just above its own offset.
pub proof fn lemma_boundary_single_candidate(offset: u16)
    requires
        offset < MAX_PORT,
    ensures
        worker_ports(offset, MAX_PORT).len() == 1,
        worker_ports(offset, MAX_PORT)[0] == offset + 1,
{
    assert(worker_ports(offset, MAX_PORT) == seq![(offset + 1) as u16]);
}

/// The candidate ports of one worker, in probe order: the executable side of
/// the partition. The list is exactly the worker's walk.
pub fn worker_candidates(offset: u16, workers: u16) -> (r: Vec<u16>)
    requires
        workers >= 1,
        offset < workers,
    ensures
        r@ == worker_ports(offset, workers),
{
    let mut r: Vec<u16> = Vec::new();
    let mut port: u16 = offset + 1;
    proof {
        assert(r@ + ports_from(port, workers) =~= worker_ports(offset, workers));
    }
    loop
        invariant_except_break
            r@ + ports_from(port, workers) == worker_ports(offset, workers),
        invariant
            workers >= 1,
            1 <= port <= MAX_PORT,
        ensures
            r@ == worker_ports(offset, workers),
        decreases MAX_PORT - port,
    {
        r.push(port);
        if MAX_PORT - port <= workers {
            proof {
                assert(ports_from(port, workers) == seq![port]);
                assert(r@ =~= worker_ports(offset, workers));
            }
            break;
        }
        proof {
            assert(ports_from(port, workers) == seq![port] + ports_from(
                (port + workers) as u16,
                workers,
            ));
            assert(r@ + ports_from((port + workers) as u16, workers) =~= worker_ports(
                offset,
                workers,
            ));
        }
        port = port + workers;
    }
    r
}

} // verus!

//! The scan coordinator: walking every worker's candidate ports against a
//! known set of listening ports and aggregating the hits.
//!
//! The real scanner probes with bounded-timeout TCP connection attempts made
//! by the surrounding application; this module is the deterministic core the
//! application mirrors, with the set of listening ports standing in for the
//! network. It is also what makes whole scans testable without sockets.

use vstd::prelude::*;

use crate::partition::{
    attempted, attempted_below, attempted_by, worker_candidates, worker_ports,
};
use crate::partition::lemma_attempted_below_step;
use crate::report::{make_report, strictly_sorted};
use crate::target::ScanTarget;

verus! {

/// Whether the listener set holds port `x`: the deterministic stand-in for
/// one bounded-timeout connection attempt against `x`.
fn is_open(listeners: &Vec<u16>, x: u16) -> (b: bool)
    ensures
        b == listeners@.contains(x),
{
    let mut i: usize = 0;
    while i < listeners.len()
        invariant
            i <= listeners@.len(),
            forall|k: int| 0 <= k < i ==> listeners@[k] != x,
        decreases listeners@.len() - i,
    {
        if listeners[i] == x {
            proof {
                assert(listeners@[i as int] == x);
            }
            return true;
        }
        i = i + 1;
    }
    proof {
        if listeners@.contains(x) {
            let k = choose|k: int| 0 <= k < listeners@.len() && listeners@[k] == x;
            assert(false);
        }
    }
    false
}

/// Runs one whole scan against a known listener set: spawns every worker's
/// candidate walk in offset order, keeps each candidate that is listening,
/// and aggregates the hits into the final report. The report holds exactly
/// the listening ports the partition covers, in strictly ascending order
/// with no duplicates; with nothing listening it is empty.
#[verifier::loop_isolation(false)]
pub fn run_scan(target: &ScanTarget, listeners: &Vec<u16>) -> (report: Vec<u16>)
    requires
        target.wf(),
    ensures
        strictly_sorted(report@),
        forall|p: u16| report@.contains(p) <==> (listeners@.contains(p) && attempted(
            p,
            target.workers,
        )),
        listeners@.len() == 0 ==> report@.len() == 0,
{
    let w: u16 = target.workers;
    let mut found: Vec<u16> = Vec::new();
    let mut o: u16 = 0;
    proof {
        assert forall|p: u16| !attempted_below(p, 0, w) by {
            if attempted_below(p, 0, w) {
                let oo = choose|oo: u16| oo < 0 && #[trigger] attempted_by(p, oo, w);
                assert(false);
            }
        }
    }
    while o < w
        invariant
            1 <= w,
            o <= w,
            forall|p: u16|
                #![auto]
                found@.contains(p) <==> (listeners@.contains(p) && attempted_below(p, o, w)),
        decreases w - o,
    {
        let cands = worker_candidates(o, w);
        proof {
            assert(cands@.subrange(0, 0).len() == 0);
            assert forall|p: u16|
                #![auto]
                found@.contains(p) <==> (listeners@.contains(p) && (attempted_below(p, o, w)
                    || cands@.subrange(0, 0).contains(p))) by {
                assert(!cands@.subrange(0, 0).contains(p));
            }
        }
        let mut j: usize = 0;
        while j < cands.len()
            invariant
                1 <= w,
                o < w,
                j <= cands@.len(),
                cands@ == worker_ports(o, w),
                forall|p: u16|
                    #![auto]
                    found@.contains(p) <==> (listeners@.contains(p) && (attempted_below(p, o, w)
                        || cands@.subrange(0, j as int).contains(p))),
            decreases cands@.len() - j,
        {
            let x: u16 = cands[j];
            let ghost before = found@;
            let hit = is_open(listeners, x);
            if hit {
                found.push(x);
            }
            proof {
                broadcast use vstd::seq_lib::lemma_seq_contains_after_push;

                let pre = cands@.subrange(0, j as int);
                let post = cands@.subrange(0, (j + 1) as int);
                assert(post =~= pre.push(x));
                assert forall|p: u16|
                    #![auto]
                    found@.contains(p) <==> (listeners@.contains(p) && (attempted_below(p, o, w)
                        || post.contains(p))) by {
                    assert(before.contains(p) <==> (listeners@.contains(p) && (attempted_below(
                        p,
                        o,
                        w,
                    ) || pre.contains(p))));
                    assert(pre.push(x).contains(p) <==> (pre.contains(p) || p == x));
                    if hit {
                        assert(found@ == before.push(x));
                        assert(before.push(x).contains(p) <==> (before.contains(p) || p == x));
                    } else {
                        assert(found@ == before);
                    }
                }
            }
            j = j + 1;
        }
        proof {
            assert(cands@.subrange(0, cands@.len() as int) =~= cands@);
            assert forall|p: u16|
                #![auto]
                found@.contains(p) <==> (listeners@.contains(p) && attempted_below(
                    p,
                    (o + 1) as u16,
                    w,
                )) by {
                lemma_attempted_below_step(p, o, w);
                assert(found@.contains(p) <==> (listeners@.contains(p) && (attempted_below(p, o, w)
                    || cands@.subrange(0, cands@.len() as int).contains(p))));
                assert(attempted_by(p, o, w) == worker_ports(o, w).contains(p));
            }
        }
        o = o + 1;
    }
    proof {
        if listeners@.len() == 0 && found@.len() > 0 {
            let p0 = found@[0];
            assert(found@.contains(p0));
            assert(listeners@.contains(p0) && attempted_below(p0, o, w));
            assert(false);
        }
        assert forall|p: u16| found@.contains(p) <==> (listeners@.contains(p) && attempted(
            p,
            target.workers,
        )) by {
            assert(found@.contains(p) <==> (listeners@.contains(p) && attempted_below(p, o, w)));
        }
    }
    let report = make_report(&found);
    report
}

} // verus!

//! Aggregating worker results into the final scan report.
//!
//! Workers deliver open ports in an order set by network timing, possibly
//! interleaved arbitrarily. The report imposes the total order the scanner
//! promises: strictly ascending port numbers, each open port exactly once.

use vstd::prelude::*;

verus! {

/// A sequence of ports in strictly ascending order.
pub open spec fn strictly_sorted(s: Seq<u16>) -> bool {
    forall|i: int, j: int| 0 <= i < j < s.len() ==> s[i] < s[j]
}

/// A strictly ascending report holds each port at most once.
pub proof fn lemma_strictly_sorted_no_duplicates(s: Seq<u16>)
    requires
        strictly_sorted(s),
    ensures
        forall|i: int, j: int| 0 <= i < s.len() && 0 <= j < s.len() && i != j ==> s[i] != s[j],
{
    assert forall|i: int, j: int|
        0 <= i < s.len() && 0 <= j < s.len() && i != j implies s[i] != s[j] by {
        if i < j {
            assert(s[i] < s[j]);
        } else {
            assert(s[j] < s[i]);
        }
    }
}

/// Inserts a port into a strictly ascending list, keeping the order and
/// dropping the port if it is already present.
fn insert_unique_sorted(out: &mut Vec<u16>, x: u16)
    requires
        strictly_sorted(old(out)@),
    ensures
        strictly_sorted(final(out)@),
        forall|q: u16| final(out)@.contains(q) <==> (old(out)@.contains(q) || q == x),
{
    let ghost orig = out@;
    let mut i: usize = 0;
    while i < out.len() && out[i] < x
        invariant
            out@ == orig,
            strictly_sorted(orig),
            i <= orig.len(),
            forall|k: int| 0 <= k < i ==> orig[k] < x,
        decreases out.len() - i,
    {
        i = i + 1;
    }
    if i < out.len() && out[i] == x {
        // already present: every later entry is larger, every earlier one
        // smaller, so the list is unchanged and still holds x exactly once
        proof {
            assert(orig.contains(x));
        }
        return ;
    }
    proof {
        assert(forall|k: int| i <= k < orig.len() ==> orig[k] > x);
    }
    out.insert(i, x);
    proof {
        let new = out@;
        assert(new == orig.insert(i as int, x));
        assert(new == orig.subrange(0, i as int).push(x) + orig.subrange(
            i as int,
            orig.len() as int,
        ));
        assert forall|a: int, b: int| 0 <= a < b < new.len() implies new[a] < new[b] by {
            assert(new.len() == orig.len() + 1);
            assert(forall|k: int| 0 <= k < i ==> new[k] == orig[k]);
            assert(new[i as int] == x);
            assert(forall|k: int| i < k < new.len() ==> new[k] == orig[k - 1]);
        }
        assert forall|q: u16| new.contains(q) implies (orig.contains(q) || q == x) by {
            let k = choose|k: int| 0 <= k < new.len() && new[k] == q;
            if k < i {
                assert(orig[k] == q);
            } else if k > i {
                assert(orig[k - 1] == q);
            }
        }
        assert forall|q: u16| orig.contains(q) || q == x implies new.contains(q) by {
            if orig.contains(q) {
                let k = choose|k: int| 0 <= k < orig.len() && orig[k] == q;
                if k < i {
                    assert(new[k] == q);
                } else {
                    assert(new[k + 1] == q);
                }
            } else {
                assert(new[i as int] == q);
            }
        }
    }
}

/// Builds the final report from the ports the workers delivered, in whatever
/// order they arrived: strictly ascending, each reported port exactly once,
/// and a port appears exactly when some worker delivered it.
pub fn make_report(results: &Vec<u16>) -> (r: Vec<u16>)
    ensures
        strictly_sorted(r@),
        forall|q: u16| r@.contains(q) <==> results@.contains(q),
        results@.len() == 0 ==> r@.len() == 0,
{
    let mut r: Vec<u16> = Vec::new();
    let mut i: usize = 0;
    while i < results.len()
        invariant
            i <= results.len(),
            strictly_sorted(r@),
            forall|q: u16| r@.contains(q) <==> results@.subrange(0, i as int).contains(q),
        decreases results.len() - i,
    {
        let ghost before = r@;
        let x: u16 = results[i];
        insert_unique_sorted(&mut r, x);
        proof {
            let pre = results@.subrange(0, i as int);
            let post = results@.subrange(0, i + 1 as int);
            assert(post == pre.push(x));
            assert forall|q: u16| r@.contains(q) implies post.contains(q) by {
                if q == x {
                    assert(post[post.len() - 1] == x);
                } else {
                    assert(before.contains(q));
                    assert(pre.contains(q));
                    let k = choose|k: int| 0 <= k < pre.len() && pre[k] == q;
                    assert(post[k] == q);
                }
            }
            assert forall|q: u16| post.contains(q) implies r@.contains(q) by {
                let k = choose|k: int| 0 <= k < post.len() && post[k] == q;
                if k < pre.len() {
                    assert(pre[k] == q);
                }
            }
        }
        i = i + 1;
    }
    proof {
        assert(results@.subrange(0, results@.len() as int) == results@);
        if results@.len() == 0 && r@.len() > 0 {
            assert(r@.contains(r@[0]));
        }
    }
    r
}

} // verus!

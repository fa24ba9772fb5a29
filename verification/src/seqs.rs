//! Small verified helpers on id lists used as sets.
use vstd::prelude::*;

verus! {

/// No id occurs twice.
pub open spec fn no_dup(s: Seq<u32>) -> bool {
    forall|i: int, j: int| 0 <= i < s.len() && 0 <= j < s.len() && i != j ==> s[i] != s[j]
}

/// Whether `v` holds `x`.
pub fn contains_id(v: &Vec<u32>, x: u32) -> (r: bool)
    ensures
        r == v@.contains(x),
{
    let mut i: usize = 0;
    while i < v.len()
        invariant
            0 <= i <= v@.len(),
            forall|k: int| 0 <= k < i ==> v@[k] != x,
        decreases v@.len() - i,
    {
        if v[i] == x {
            return true;
        }
        i = i + 1;
    }
    false
}

/// Every element of `v` except `x`, in order.
pub fn without_id(v: &Vec<u32>, x: u32) -> (out: Vec<u32>)
    ensures
        forall|y: u32| out@.contains(y) <==> (v@.contains(y) && y != x),
        no_dup(v@) ==> no_dup(out@),
        out@.len() <= v@.len(),
        !v@.contains(x) ==> out@ == v@,
{
    let mut out: Vec<u32> = Vec::new();
    let mut i: usize = 0;
    while i < v.len()
        invariant
            0 <= i <= v@.len(),
            out@.len() <= i,
            forall|y: u32| out@.contains(y) <==> (v@.subrange(0, i as int).contains(y) && y != x),
            no_dup(v@) ==> no_dup(out@),
            !v@.contains(x) ==> out@ == v@.subrange(0, i as int),
        decreases v@.len() - i,
    {
        let y = v[i];
        let ghost prev = out@;
        let ghost pre = v@.subrange(0, i as int);
        proof {
            assert(v@.subrange(0, i + 1) == pre.push(y));
            if no_dup(v@) {
                assert(!pre.contains(y)) by {
                    if pre.contains(y) {
                        let k = choose|k: int| 0 <= k < pre.len() && pre[k] == y;
                        assert(v@[k] == v@[i as int]);
                    }
                }
            }
        }
        if y != x {
            out.push(y);
            proof {
                assert forall|z: u32| out@.contains(z) <==> (v@.subrange(0, i + 1).contains(z) && z != x) by {
                    if out@.contains(z) {
                        let k = choose|k: int| 0 <= k < out@.len() && out@[k] == z;
                        if k < prev.len() {
                            assert(prev[k] == z);
                            assert(prev.contains(z));
                            let j = choose|j: int| 0 <= j < pre.len() && pre[j] == z;
                            assert(pre.push(y)[j] == z);
                        } else {
                            assert(pre.push(y)[pre.len() as int] == z);
                        }
                    }
                    if v@.subrange(0, i + 1).contains(z) && z != x {
                        let j = choose|j: int| 0 <= j < pre.len() + 1 && pre.push(y)[j] == z;
                        if j < pre.len() {
                            assert(pre[j] == z);
                            assert(pre.contains(z));
                            assert(prev.contains(z));
                            let k = choose|k: int| 0 <= k < prev.len() && prev[k] == z;
                            assert(out@[k] == z);
                        } else {
                            assert(out@[prev.len() as int] == z);
                        }
                    }
                }
                if no_dup(v@) {
                    assert(!prev.contains(y));
                    assert forall|a: int, b: int| 0 <= a < out@.len() && 0 <= b < out@.len() && a != b implies out@[a] != out@[b] by {
                        if a < prev.len() && b < prev.len() {
                            assert(prev[a] != prev[b]);
                        } else if a < prev.len() {
                            assert(prev[a] == out@[a]);
                            assert(prev.contains(out@[a]));
                        } else {
                            assert(prev[b] == out@[b]);
                            assert(prev.contains(out@[b]));
                        }
                    }
                }
                if !v@.contains(x) {
                    assert(out@ == prev.push(y));
                }
            }
        } else {
            proof {
                assert forall|z: u32| out@.contains(z) <==> (v@.subrange(0, i + 1).contains(z) && z != x) by {
                    if v@.subrange(0, i + 1).contains(z) && z != x {
                        let j = choose|j: int| 0 <= j < pre.len() + 1 && pre.push(y)[j] == z;
                        if j < pre.len() {
                            assert(pre[j] == z);
                            assert(pre.contains(z));
                        }
                    }
                    if out@.contains(z) {
                        let j = choose|j: int| 0 <= j < pre.len() && pre[j] == z;
                        assert(pre.push(y)[j] == z);
                    }
                }
                if !v@.contains(x) {
                    assert(v@[i as int] == x);
                    assert(false);
                }
            }
        }
        i = i + 1;
    }
    proof {
        assert(v@.subrange(0, v@.len() as int) == v@);
    }
    out
}

/// `v` with `x` appended unless it is already there.
pub fn insert_id(v: &mut Vec<u32>, x: u32)
    ensures
        forall|y: u32| final(v)@.contains(y) <==> (old(v)@.contains(y) || y == x),
        no_dup(old(v)@) ==> no_dup(final(v)@),
        old(v)@.contains(x) ==> final(v)@ == old(v)@,
        !old(v)@.contains(x) ==> final(v)@ == old(v)@.push(x),
{
    if !contains_id(v, x) {
        v.push(x);
        proof {
            assert forall|y: u32| final(v)@.contains(y) <==> (old(v)@.contains(y) || y == x) by {
                if final(v)@.contains(y) && y != x {
                    let k = choose|k: int| 0 <= k < final(v)@.len() && final(v)@[k] == y;
                    assert(k < old(v)@.len());
                    assert(old(v)@[k] == y);
                }
                if old(v)@.contains(y) {
                    let k = choose|k: int| 0 <= k < old(v)@.len() && old(v)@[k] == y;
                    assert(final(v)@[k] == y);
                }
                if y == x {
                    assert(final(v)@[old(v)@.len() as int] == x);
                }
            }
        }
    }
}

} // verus!

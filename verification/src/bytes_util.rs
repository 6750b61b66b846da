//! Small executable helpers on byte strings.

use vstd::prelude::*;

verus! {

/// Whether two byte strings hold the same bytes.
pub fn bytes_eq(a: &Vec<u8>, b: &Vec<u8>) -> (r: bool)
    ensures
        r <==> a@ == b@,
{
    if a.len() != b.len() {
        proof {
            assert(a@.len() != b@.len());
        }
        return false;
    }
    let n = a.len();
    let mut i: usize = 0;
    while i < n
        invariant
            i <= n,
            n == a@.len(),
            n == b@.len(),
            forall|k: int| 0 <= k < i ==> a@[k] == b@[k],
        decreases n - i,
    {
        if a[i] != b[i] {
            return false;
        }
        i = i + 1;
    }
    proof {
        assert(a@ =~= b@);
    }
    true
}

/// A copy of the bytes of `v` from `start` (inclusive) to `end` (exclusive).
pub fn vec_range(v: &Vec<u8>, start: usize, end: usize) -> (r: Vec<u8>)
    requires
        start <= end <= v@.len(),
    ensures
        r@ == v@.subrange(start as int, end as int),
{
    let mut r: Vec<u8> = Vec::new();
    let mut i: usize = start;
    while i < end
        invariant
            start <= i <= end <= v@.len(),
            r@ == v@.subrange(start as int, i as int),
        decreases end - i,
    {
        r.push(v[i]);
        proof {
            assert(r@ =~= v@.subrange(start as int, i + 1 as int));
        }
        i = i + 1;
    }
    r
}

} // verus!

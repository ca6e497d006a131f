use vstd::prelude::*;

verus! {

/// Appends a copy of every element of `b`, in order, to the end of `a`.
pub fn append_vec<T: Copy>(a: &mut Vec<T>, b: &Vec<T>)
    ensures
        final(a)@ == old(a)@ + b@,
{
    let n = b.len();
    let mut i: usize = 0;
    while i < n
        invariant
            n == b@.len(),
            i <= n,
            a@ == old(a)@ + b@.take(i as int),
        decreases n - i,
    {
        a.push(b[i]);
        assert(b@.take(i + 1) =~= b@.take(i as int).push(b@[i as int]));
        i = i + 1;
    }
    assert(b@.take(n as int) =~= b@);
}

} // verus!

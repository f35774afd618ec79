//! Sorting by insertion, with results proved sorted and a permutation of
//! the input.
use vstd::prelude::*;

verus! {

broadcast use vstd::seq_lib::group_to_multiset_ensures;

/// Whether a sequence of words is in non-decreasing order.
pub open spec fn sorted_u64(s: Seq<u64>) -> bool {
    forall|i: int, j: int| 0 <= i < j < s.len() ==> s[i] <= s[j]
}

proof fn lemma_insert_multiset<A>(s: Seq<A>, pos: int, x: A)
    requires
        0 <= pos <= s.len(),
    ensures
        s.insert(pos, x).to_multiset() =~= s.to_multiset().insert(x),
{
    let t = s.insert(pos, x);
    s.insert_ensures(pos, x);
    assert(t.remove(pos) =~= s);
    assert(t.remove(pos).to_multiset() =~= t.to_multiset().remove(t[pos]));
    assert(t.contains(x)) by {
        assert(t[pos] == x);
    }
}

/// A sorted copy of a list of words.
pub fn sort_u64(v: &Vec<u64>) -> (r: Vec<u64>)
    ensures
        sorted_u64(r@),
        r@.to_multiset() == v@.to_multiset(),
{
    let mut out: Vec<u64> = Vec::new();
    let mut i: usize = 0;
    while i < v.len()
        invariant
            i <= v@.len(),
            sorted_u64(out@),
            out@.to_multiset() == v@.take(i as int).to_multiset(),
        decreases v.len() - i,
    {
        let x = v[i];
        let mut pos: usize = 0;
        while pos < out.len() && out[pos] <= x
            invariant
                pos <= out@.len(),
                forall|k: int| 0 <= k < pos ==> out@[k] <= x,
            decreases out.len() - pos,
        {
            pos = pos + 1;
        }
        proof {
            lemma_insert_multiset(out@, pos as int, x);
            assert(v@.take(i + 1) =~= v@.take(i as int).push(x));
            out@.insert_ensures(pos as int, x);
        }
        out.insert(pos, x);
        i = i + 1;
    }
    assert(v@.take(v@.len() as int) =~= v@);
    out
}

} // verus!

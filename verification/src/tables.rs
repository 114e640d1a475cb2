//! Generic reasoning about ordered string tables: sequences of
//! (key, value) character sequences, looked up by exact key, first match
//! first.

use vstd::prelude::*;

verus! {

/// Index of the first entry whose key is exactly `k`, or -1.
pub open spec fn spec_find_exact(m: Seq<(Seq<char>, Seq<char>)>, k: Seq<char>) -> int
    decreases m.len(),
{
    if m.len() == 0 {
        -1
    } else if m[0].0 == k {
        0
    } else if spec_find_exact(m.skip(1), k) == -1 {
        -1
    } else {
        spec_find_exact(m.skip(1), k) + 1
    }
}

/// What [`spec_find_exact`] returns: -1 when no key matches, else the
/// first matching index.
pub proof fn lemma_find_exact(m: Seq<(Seq<char>, Seq<char>)>, k: Seq<char>)
    ensures
        spec_find_exact(m, k) == -1 ==> forall|j: int| 0 <= j < m.len() ==> #[trigger] m[j].0 != k,
        spec_find_exact(m, k) != -1 ==> {
            let f = spec_find_exact(m, k);
            &&& 0 <= f < m.len()
            &&& m[f].0 == k
            &&& forall|j: int| 0 <= j < f ==> #[trigger] m[j].0 != k
        },
    decreases m.len(),
{
    if m.len() == 0 {
    } else if m[0].0 == k {
    } else {
        let ms = m.skip(1);
        lemma_find_exact(ms, k);
        let fs = spec_find_exact(ms, k);
        if fs == -1 {
            assert forall|j: int| 0 <= j < m.len() implies #[trigger] m[j].0 != k by {
                if j >= 1 {
                    assert(m[j] == ms[j - 1]);
                }
            }
        } else {
            assert(m[fs + 1] == ms[fs]);
            assert forall|j: int| 0 <= j < fs + 1 implies #[trigger] m[j].0 != k by {
                if j >= 1 {
                    assert(m[j] == ms[j - 1]);
                }
            }
        }
    }
}

/// A witness pins the first match down: `k` matches at `i` and nowhere
/// before.
pub proof fn lemma_find_exact_at(m: Seq<(Seq<char>, Seq<char>)>, k: Seq<char>, i: int)
    requires
        0 <= i < m.len(),
        m[i].0 == k,
        forall|j: int| 0 <= j < i ==> #[trigger] m[j].0 != k,
    ensures
        spec_find_exact(m, k) == i,
{
    lemma_find_exact(m, k);
    let f = spec_find_exact(m, k);
    if f == -1 {
        assert(m[i].0 != k);
    } else if f < i {
        assert(m[f].0 != k);
    } else if f > i {
        assert(m[i].0 != k);
    }
}

} // verus!

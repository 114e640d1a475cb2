//! Generic reasoning about ordered header lists.
//!
//! A header list is modelled as a sequence of (key, value) byte
//! sequences; keys compare equal up to ASCII case. Both requests and
//! responses carry such a list.

use vstd::prelude::*;

use crate::ascii::eq_ignore_case;

verus! {

/// The key `content-length`, lower case.
pub open spec fn content_length_lower() -> Seq<u8> {
    seq![99u8, 111u8, 110u8, 116u8, 101u8, 110u8, 116u8, 45u8, 108u8, 101u8, 110u8, 103u8, 116u8, 104u8]
}

/// The key `k` names the computed `Content-Length` header.
pub open spec fn is_content_length_key(k: Seq<u8>) -> bool {
    eq_ignore_case(k, content_length_lower())
}

/// The key `Content-Length` as bytes, lower-cased form.
pub fn content_length_key() -> (r: Vec<u8>)
    ensures
        r@ == content_length_lower(),
{
    let mut r: Vec<u8> = Vec::new();
    r.push(99);
    r.push(111);
    r.push(110);
    r.push(116);
    r.push(101);
    r.push(110);
    r.push(116);
    r.push(45);
    r.push(108);
    r.push(101);
    r.push(110);
    r.push(103);
    r.push(116);
    r.push(104);
    proof {
        assert(r@ =~= content_length_lower());
    }
    r
}

/// Index of the first header whose key equals `k` up to ASCII case, or -1.
pub open spec fn spec_find_header(m: Seq<(Seq<u8>, Seq<u8>)>, k: Seq<u8>) -> int
    decreases m.len(),
{
    if m.len() == 0 {
        -1
    } else if eq_ignore_case(m[0].0, k) {
        0
    } else if spec_find_header(m.skip(1), k) == -1 {
        -1
    } else {
        spec_find_header(m.skip(1), k) + 1
    }
}

/// What [`spec_find_header`] returns: -1 when no key matches, else the
/// first matching index.
pub proof fn lemma_find_header(m: Seq<(Seq<u8>, Seq<u8>)>, k: Seq<u8>)
    ensures
        spec_find_header(m, k) == -1 ==> forall|j: int|
            0 <= j < m.len() ==> !eq_ignore_case(#[trigger] m[j].0, k),
        spec_find_header(m, k) != -1 ==> {
            let f = spec_find_header(m, k);
            &&& 0 <= f < m.len()
            &&& eq_ignore_case(m[f].0, k)
            &&& forall|j: int| 0 <= j < f ==> !eq_ignore_case(#[trigger] m[j].0, k)
        },
    decreases m.len(),
{
    if m.len() == 0 {
    } else if eq_ignore_case(m[0].0, k) {
    } else {
        let ms = m.skip(1);
        lemma_find_header(ms, k);
        let fs = spec_find_header(ms, k);
        if fs == -1 {
            assert forall|j: int| 0 <= j < m.len() implies !eq_ignore_case(
                #[trigger] m[j].0,
                k,
            ) by {
                if j >= 1 {
                    assert(m[j] == ms[j - 1]);
                }
            }
        } else {
            assert(m[fs + 1] == ms[fs]);
            assert forall|j: int| 0 <= j < fs + 1 implies !eq_ignore_case(
                #[trigger] m[j].0,
                k,
            ) by {
                if j >= 1 {
                    assert(m[j] == ms[j - 1]);
                }
            }
        }
    }
}

/// A witness pins the first match down: `k` matches at `i` and nowhere
/// before.
pub proof fn lemma_find_header_at(m: Seq<(Seq<u8>, Seq<u8>)>, k: Seq<u8>, i: int)
    requires
        0 <= i < m.len(),
        eq_ignore_case(m[i].0, k),
        forall|j: int| 0 <= j < i ==> !eq_ignore_case(#[trigger] m[j].0, k),
    ensures
        spec_find_header(m, k) == i,
{
    lemma_find_header(m, k);
    let f = spec_find_header(m, k);
    if f == -1 {
        assert(!eq_ignore_case(m[i].0, k));
    } else if f < i {
        assert(!eq_ignore_case(m[f].0, k));
    } else if f > i {
        assert(!eq_ignore_case(m[i].0, k));
    }
}

/// How many headers carry the key `k`, up to ASCII case.
pub open spec fn count_matching(m: Seq<(Seq<u8>, Seq<u8>)>, k: Seq<u8>) -> nat
    decreases m.len(),
{
    if m.len() == 0 {
        0
    } else {
        count_matching(m.drop_last(), k) + if eq_ignore_case(m.last().0, k) {
            1nat
        } else {
            0nat
        }
    }
}

/// Appending an entry raises the count of its key by one.
pub proof fn lemma_count_push(m: Seq<(Seq<u8>, Seq<u8>)>, k: Seq<u8>, e: (Seq<u8>, Seq<u8>))
    ensures
        count_matching(m.push(e), k) == count_matching(m, k) + if eq_ignore_case(e.0, k) {
            1nat
        } else {
            0nat
        },
{
    assert(m.push(e).drop_last() =~= m);
    assert(m.push(e).last() == e);
}

/// Overwriting an entry trades its key's count for the new key's.
pub proof fn lemma_count_update(m: Seq<(Seq<u8>, Seq<u8>)>, k: Seq<u8>, i: int, e: (Seq<u8>, Seq<u8>))
    requires
        0 <= i < m.len(),
    ensures
        count_matching(m.update(i, e), k) + (if eq_ignore_case(m[i].0, k) {
            1nat
        } else {
            0nat
        }) == count_matching(m, k) + (if eq_ignore_case(e.0, k) {
            1nat
        } else {
            0nat
        }),
    decreases m.len(),
{
    if i == m.len() - 1 {
        assert(m.update(i, e).drop_last() =~= m.drop_last());
        assert(m.update(i, e).last() == e);
        assert(m.last() == m[i]);
    } else {
        lemma_count_update(m.drop_last(), k, i, e);
        assert(m.update(i, e).drop_last() =~= m.drop_last().update(i, e));
        assert(m.update(i, e).last() == m.last());
        assert(m.drop_last()[i] == m[i]);
    }
}

/// A count of zero means no key matches at all.
pub proof fn lemma_count_zero(m: Seq<(Seq<u8>, Seq<u8>)>, k: Seq<u8>)
    ensures
        (count_matching(m, k) == 0) <==> (forall|j: int|
            0 <= j < m.len() ==> !eq_ignore_case(#[trigger] m[j].0, k)),
    decreases m.len(),
{
    if m.len() > 0 {
        lemma_count_zero(m.drop_last(), k);
        assert(m.last() == m[m.len() - 1]);
        assert(forall|j: int| 0 <= j < m.len() - 1 ==> #[trigger] m[j] == m.drop_last()[j]);
    }
}

/// Keys equal up to ASCII case have equal counts.
pub proof fn lemma_count_equiv_key(m: Seq<(Seq<u8>, Seq<u8>)>, k1: Seq<u8>, k2: Seq<u8>)
    requires
        eq_ignore_case(k1, k2),
    ensures
        count_matching(m, k1) == count_matching(m, k2),
    decreases m.len(),
{
    if m.len() > 0 {
        lemma_count_equiv_key(m.drop_last(), k1, k2);
    }
}

/// A matching entry makes the count positive.
pub proof fn lemma_count_at_least_one(m: Seq<(Seq<u8>, Seq<u8>)>, k: Seq<u8>, i: int)
    requires
        0 <= i < m.len(),
        eq_ignore_case(m[i].0, k),
    ensures
        count_matching(m, k) >= 1,
{
    lemma_count_zero(m, k);
}

} // verus!

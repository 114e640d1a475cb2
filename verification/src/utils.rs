//! Small path and error helpers.

use vstd::prelude::*;

use crate::ascii::append_bytes;

verus! {

/// ASCII forward slash, the wire path separator.
pub const SLASH: u8 = 47;

/// ASCII backslash, the host filesystem path separator.
pub const BSLASH: u8 = 92;

/// `b` with the wire path separator replaced by the host one.
pub open spec fn spec_host_sep(b: u8) -> u8 {
    if b == SLASH {
        BSLASH
    } else {
        b
    }
}

/// A wire path joined onto a root path, with host separators.
pub open spec fn spec_to_root_path(p: Seq<u8>, root: Seq<u8>) -> Seq<u8> {
    root + p.map_values(|b: u8| spec_host_sep(b))
}

/// Joins a wire path onto a root path, swapping each path separator for
/// the host's.
pub fn to_root_path(p: &[u8], root_path: &[u8]) -> (r: Vec<u8>)
    ensures
        r@ == spec_to_root_path(p@, root_path@),
{
    let mut r: Vec<u8> = Vec::new();
    append_bytes(&mut r, root_path);
    let mut i: usize = 0;
    while i < p.len()
        invariant
            i <= p.len(),
            r@ == root_path@ + p@.take(i as int).map_values(|b: u8| spec_host_sep(b)),
        decreases p.len() - i,
    {
        if p[i] == SLASH {
            r.push(BSLASH);
        } else {
            r.push(p[i]);
        }
        proof {
            assert(p@.take(i + 1 as int).map_values(|b: u8| spec_host_sep(b)) =~= p@.take(
                i as int,
            ).map_values(|b: u8| spec_host_sep(b)).push(spec_host_sep(p@[i as int])));
        }
        i = i + 1;
    }
    proof {
        assert(p@.take(p@.len() as int) =~= p@);
    }
    r
}

/// An error carrying the given message.
pub fn result_err(msg: &str) -> (r: Result<(), String>)
    ensures
        r is Err,
        r->Err_0@ == msg@,
{
    Err(msg.to_owned())
}

} // verus!

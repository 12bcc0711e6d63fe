//! Cutting a C string out of a byte vector.
use vstd::prelude::*;

use crate::format::nul_position;

verus! {

/// Relies on `memchr::memchr`: the index of the first occurrence of `needle` in `haystack`,
/// or `None` where it does not occur.
pub assume_specification[ memchr::memchr ](needle: u8, haystack: &[u8]) -> (r: Option<usize>)
    ensures
        match r {
            Some(i) => {
                &&& i < haystack@.len()
                &&& haystack@[i as int] == needle
                &&& forall|j: int| 0 <= j < i ==> haystack@[j] != needle
            },
            None => forall|j: int| 0 <= j < haystack@.len() ==> haystack@[j] != needle,
        },
;

/// The bytes handed over hold no nul byte.
#[derive(Clone, PartialEq, Eq, Debug)]
pub struct FromVecUntilNulError;

impl FromVecUntilNulError {
    /// Describes the error.
    pub fn message(&self) -> &'static str {
        "data provided does not contain a nul"
    }
}

/// The bytes of `v` up to and including its first nul byte: a C string, with the bytes after
/// the nul dropped. Fails where `v` holds no nul byte.
pub fn from_vec_until_nul(v: Vec<u8>) -> (r: Result<Vec<u8>, FromVecUntilNulError>)
    ensures
        r is Ok <==> v@.contains(0u8),
        r matches Ok(c) ==> c@ == v@.take(nul_position(v@) + 1),
{
    let nul_pos = memchr::memchr(0, v.as_slice());
    match nul_pos {
        Some(nul_pos) => {
            proof {
                crate::format::lemma_nul_position(v@, nul_pos as int);
            }
            assert(nul_pos < v.len());
            let mut c = v;
            c.truncate(nul_pos + 1);
            assert(c@ =~= v@.take(nul_pos + 1));
            Ok(c)
        },
        None => {
            assert(!v@.contains(0u8));
            Err(FromVecUntilNulError)
        },
    }
}

} // verus!

//! Dispatch of a request among services by path prefix, and the service
//! that finds nothing.
use vstd::prelude::*;
use vstd::string::StringSliceAdditionalSpecFns;
use vstd::utf8::encode_utf8;
use crate::text::bytes_start_with;

verus! {

/// `p` starts `path`.
pub open spec fn is_prefix_of(p: Seq<u8>, path: Seq<u8>) -> bool {
    p.len() <= path.len() && path.subrange(0, p.len() as int) == p
}

/// The first route whose prefix starts the path, if any.
pub fn route_for(prefixes: &Vec<String>, path: &str) -> (r: Option<usize>)
    ensures
        match r {
            Some(i) => i < prefixes@.len() && is_prefix_of(
                encode_utf8(prefixes@[i as int]@),
                path.spec_bytes(),
            ) && forall|j: int|
                0 <= j < i ==> !is_prefix_of(
                    encode_utf8(#[trigger] prefixes@[j]@),
                    path.spec_bytes(),
                ),
            None => forall|j: int|
                0 <= j < prefixes@.len() ==> !is_prefix_of(
                    encode_utf8(#[trigger] prefixes@[j]@),
                    path.spec_bytes(),
                ),
        },
{
    let mut i: usize = 0;
    while i < prefixes.len()
        invariant
            i <= prefixes@.len(),
            forall|j: int|
                0 <= j < i ==> !is_prefix_of(
                    encode_utf8(#[trigger] prefixes@[j]@),
                    path.spec_bytes(),
                ),
        decreases prefixes@.len() - i,
    {
        if bytes_start_with(path.as_bytes(), prefixes[i].as_str().as_bytes()) {
            return Some(i);
        }
        i = i + 1;
    }
    None
}

/// The service that answers every request with "not found".
#[derive(Clone, Copy, Debug, Default)]
pub struct Nothing;

impl Nothing {
    /// The status of its answer: 404.
    pub fn status(&self) -> (r: u16)
        ensures
            r == 404,
    {
        404
    }
}

} // verus!

use vstd::prelude::*;

use crate::bytes::{bytes_eq, lit_bytes, lit_vec, push_all};
use crate::resolve::{path_ext, spec_ext};

verus! {

// The driver walks the data tree and picks the files to process by their
// extension; each chosen file's output goes to a sibling path.

/// Whether the path names a file with the exact extension `json`.
pub open spec fn is_json_path(p: Seq<u8>) -> bool {
    spec_ext(p) == Some(lit_bytes("json"))
}

/// Whether this file path is picked up for processing.
pub fn has_json_extension(p: &Vec<u8>) -> (r: bool)
    ensures
        r == is_json_path(p@),
{
    match path_ext(p) {
        Some(e) => bytes_eq(&e, &lit_vec("json")),
        None => false,
    }
}

/// The sibling path the rewritten content is written to.
pub open spec fn spec_output_path(p: Seq<u8>) -> Seq<u8> {
    p + lit_bytes(".downloaded")
}

/// Names the output file beside its input: the input path plus `.downloaded`.
pub fn output_path(p: &Vec<u8>) -> (r: Vec<u8>)
    ensures
        r@ == spec_output_path(p@),
{
    let mut r: Vec<u8> = Vec::new();
    push_all(&mut r, p);
    let sfx = lit_vec(".downloaded");
    push_all(&mut r, &sfx);
    proof {
        assert(Seq::<u8>::empty() + p@ =~= p@);
    }
    r
}

} // verus!

//! Text handling: turning decoded byte strings into UTF-8 text.

use vstd::prelude::*;

verus! {

use vstd::utf8::{decode_utf8, valid_utf8};

/// Relies on `String::from_utf8` of std: it returns `Ok` exactly on valid
/// UTF-8 input and decodes it; vstd's `decode_utf8` is its specification.
#[verifier::external_body]
pub(crate) fn bytes_to_string(bytes: Vec<u8>) -> (r: Option<String>)
    ensures
        match r {
            Some(s) => valid_utf8(bytes@) && s@ == decode_utf8(bytes@),
            None => !valid_utf8(bytes@),
        },
{
    String::from_utf8(bytes).ok()
}

} // verus!

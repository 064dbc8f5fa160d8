use vstd::prelude::*;
use vstd::utf8::{decode_utf8, valid_utf8};

use crate::utils::byte_conversion::{lossy_text, utf8_lossy};

verus! {

/// The text of `bytes` read as UTF-8, invalid sequences replaced by U+FFFD.
pub fn parse_bytes_to_string(bytes: &[u8]) -> (r: String)
    ensures
        r@ == utf8_lossy(bytes@),
        valid_utf8(bytes@) ==> r@ == decode_utf8(bytes@),
{
    lossy_text(bytes)
}

} // verus!

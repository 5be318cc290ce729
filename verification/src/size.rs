//! Byte counts for people.

use vstd::prelude::*;

verus! {

/// A byte count in binary units, such as `1.46 KiB`: what `indicatif::HumanBytes` displays.
pub uninterp spec fn human_size(bytes: u64) -> Seq<char>;

/// Displays an `indicatif::HumanBytes`. Trusted: the text is a function of the byte count. It
/// comes out of floating-point division, so no more is stated of it.
#[verifier::external_body]
pub(crate) fn human_bytes(bytes: u64) -> (r: String)
    ensures
        r@ == human_size(bytes),
{
    indicatif::HumanBytes(bytes).to_string()
}

} // verus!

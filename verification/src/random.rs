//! Random text.

use vstd::prelude::*;

verus! {

/// Draws a string of `size` characters from `alphabet`.
///
/// The body calls `nanoid::format` with `nanoid::rngs::default` as its source
/// of random bytes, and the contract is taken on trust. It claims what the
/// loop of `format` shows: it returns once the string holds `size` bytes,
/// and every character it pushes is an element of `alphabet`. With an
/// alphabet of ASCII characters a byte is a character. Left out are the
/// inputs on which `format` panics or never returns: an alphabet that is
/// empty or longer than 255, no characters asked for, and a size whose
/// eightfold does not fit in `usize`. The generator is seeded by the
/// operating system on every call, and gives up only where the system has no
/// random bytes to give.
#[verifier::external_body]
pub(crate) fn random_text(alphabet: &[char], size: usize) -> (id: String)
    requires
        0 < alphabet@.len() <= 255,
        forall|i: int| 0 <= i < alphabet@.len() ==> (#[trigger] alphabet@[i]) <= '\x7f',
        0 < size <= usize::MAX / 8,
    ensures
        id@.len() == size,
        forall|i: int| 0 <= i < size ==> alphabet@.contains(#[trigger] id@[i]),
{
    nanoid::format(nanoid::rngs::default, alphabet, size)
}

} // verus!

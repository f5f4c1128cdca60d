//! Video identifier format checking.
//!
//! A video identifier is an opaque string produced by an external generator:
//! exactly [`ID_LEN`] characters, each drawn from a 63-symbol alphabet
//! (underscore, digits, lower- and upper-case ASCII letters). Identifiers
//! derived from untrusted input are checked against this format before they
//! are used as store keys or spliced into derived resource URLs.

use vstd::prelude::*;

verus! {

/// Length of every generated video identifier.
pub const ID_LEN: usize = 22;

/// Whether `c` belongs to the identifier generation alphabet:
/// underscore, `0`-`9`, `a`-`z` or `A`-`Z` (63 symbols in all).
pub open spec fn id_char(c: char) -> bool {
    ||| c == '_'
    ||| '0' <= c && c <= '9'
    ||| 'a' <= c && c <= 'z'
    ||| 'A' <= c && c <= 'Z'
}

/// Whether `s` is a well-formed video identifier: exactly [`ID_LEN`]
/// characters, all from the generation alphabet.
pub open spec fn valid_id(s: Seq<char>) -> bool {
    s.len() == ID_LEN && forall|i: int| 0 <= i < s.len() ==> id_char(#[trigger] s[i])
}

/// Returns whether `c` is in the identifier alphabet.
fn is_id_char(c: char) -> (r: bool)
    ensures
        r == id_char(c),
{
    c == '_' || ('0' <= c && c <= '9') || ('a' <= c && c <= 'z') || ('A' <= c && c <= 'Z')
}

/// Returns whether `id` is a well-formed video identifier, exactly when
/// [`valid_id`] holds of its characters.
pub fn is_valid_id(id: &str) -> (r: bool)
    ensures
        r == valid_id(id@),
{
    let n = id.unicode_len();
    if n != ID_LEN {
        return false;
    }
    let mut i: usize = 0;
    while i < n
        invariant
            n == id@.len(),
            0 <= i <= n,
            forall|k: int| 0 <= k < i ==> id_char(#[trigger] id@[k]),
        decreases n - i,
    {
        if !is_id_char(id.get_char(i)) {
            return false;
        }
        i = i + 1;
    }
    true
}

} // verus!

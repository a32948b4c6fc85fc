//! Random message bodies for the game client: 30 to 99 alphanumeric
//! bytes, as conforming clients emit with each `Content` frame.

use vstd::prelude::*;

verus! {

/// Relies on `rand::random_range` over `0..n`: a uniform draw from the
/// half-open range, which panics only when the range is empty; the
/// precondition excludes that.
#[verifier::external_body]
fn rand_below(n: u32) -> (r: u32)
    requires
        n > 0,
    ensures
        r < n,
{
    rand::random_range(0..n)
}

/// The alphanumeric bytes: 'A'..'Z', 'a'..'z', '0'..'9'.
pub open spec fn is_alphanumeric_byte(b: u8) -> bool {
    (65 <= b <= 90) || (97 <= b <= 122) || (48 <= b <= 57)
}

/// The `i`-th letter of the 62-character alphanumeric alphabet.
fn alphanumeric_byte(i: u32) -> (r: u8)
    requires
        i < 62,
    ensures
        is_alphanumeric_byte(r),
{
    if i < 26 {
        (65 + i) as u8
    } else if i < 52 {
        (97 + (i - 26)) as u8
    } else {
        (48 + (i - 52)) as u8
    }
}

/// A fresh random message body: between 30 and 99 alphanumeric bytes.
pub fn generate_random_text() -> (r: Vec<u8>)
    ensures
        30 <= r@.len() < 100,
        forall|i: int| 0 <= i < r@.len() ==> is_alphanumeric_byte(#[trigger] r@[i]),
{
    let size: u32 = 30 + rand_below(70);
    let mut v: Vec<u8> = Vec::new();
    let mut i: u32 = 0;
    while i < size
        invariant
            i <= size,
            size < 100,
            v@.len() == i,
            forall|j: int| 0 <= j < v@.len() ==> is_alphanumeric_byte(#[trigger] v@[j]),
        decreases size - i,
    {
        v.push(alphanumeric_byte(rand_below(62)));
        i = i + 1;
    }
    v
}

} // verus!

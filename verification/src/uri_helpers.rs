//! URI path helpers.
use vstd::prelude::*;

use crate::text::{contains_char, find_char};

verus! {

/// Split a URI path at its first `/`: the piece before it goes to
/// `directory`, the piece after it to `remainder`. Without a `/` both
/// outputs are left alone and the result is false.
pub fn split_first_level_directory_and_remainder(
    url: &str,
    directory: &mut String,
    remainder: &mut String,
) -> (r: bool)
    ensures
        r == contains_char(url@, '/'),
        r ==> exists|i: int|
            0 <= i < url@.len() && url@[i] == '/' && (forall|j: int| 0 <= j < i ==> url@[j] != '/')
                && final(directory)@ == url@.take(i) && final(remainder)@ == url@.skip(i + 1),
        !r ==> final(directory)@ == old(directory)@ && final(remainder)@ == old(remainder)@,
{
    match find_char(url, '/') {
        Some(i) => {
            let n = url.unicode_len();
            let dir_part = url.substring_char(0, i).to_owned();
            let remainder_part = url.substring_char(i + 1, n).to_owned();
            *directory = dir_part;
            *remainder = remainder_part;
            proof {
                assert(url@.subrange(0, i as int) =~= url@.take(i as int));
                assert(url@.subrange(i + 1, n as int) =~= url@.skip(i + 1));
            }
            true
        },
        None => false,
    }
}

} // verus!

//! Path-string helpers shared by the catalogue builder and the handlers.
use vstd::prelude::*;

use crate::text::str_starts_with;

verus! {

/// If `path` begins with `prefix_path`, strip that prefix in place and
/// return true; otherwise leave `path` alone and return false.
pub fn remove_prefix_from_path(path: &mut String, prefix_path: &str) -> (r: bool)
    ensures
        r == (old(path)@.len() >= prefix_path@.len() && old(path)@.take(prefix_path@.len() as int)
            == prefix_path@),
        r ==> final(path)@ == old(path)@.skip(prefix_path@.len() as int),
        !r ==> final(path)@ == old(path)@,
{
    let np = prefix_path.unicode_len();
    if str_starts_with(path.as_str(), prefix_path) {
        let n = path.as_str().unicode_len();
        let stripped = path.as_str().substring_char(np, n).to_owned();
        *path = stripped;
        true
    } else {
        false
    }
}

/// The two path pieces joined with exactly one `/` between them; an empty
/// first piece yields the second unchanged.
pub open spec fn spec_combine_paths(p0: Seq<char>, p1: Seq<char>) -> Seq<char> {
    if p0.len() == 0 {
        p1
    } else if p0[p0.len() - 1] == '/' {
        p0 + p1
    } else {
        p0 + seq!['/'] + p1
    }
}

/// Join two path strings with a single separating slash.
pub fn combine_paths(path0: &str, path1: &str) -> (r: String)
    ensures
        r@ == spec_combine_paths(path0@, path1@),
{
    let n0 = path0.unicode_len();
    if n0 == 0 {
        return path1.to_owned();
    }
    let mut final_path = path0.to_owned();
    if path0.get_char(n0 - 1) != '/' {
        proof {
            reveal_strlit("/");
        }
        assert("/"@ =~= seq!['/']);
        final_path.append("/");
    }
    final_path.append(path1);
    proof {
        assert(final_path@ =~= spec_combine_paths(path0@, path1@));
    }
    final_path
}

} // verus!

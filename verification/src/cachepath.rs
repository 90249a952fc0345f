//! The pure part of asset mirroring: where under the cache root a URL's
//! content belongs. The path is everything after the first `//` of the URL
//! (authority and path); a URL without `//` has no cache path.
use vstd::prelude::*;
use vstd::string::StrSliceExecFns;
use vstd::string::StringExecFns;

verus! {

/// A `//` starts at position `i` of `u`.
pub open spec fn double_slash_at(u: Seq<char>, i: int) -> bool {
    0 <= i && i + 2 <= u.len() && u[i] == '/' && u[i + 1] == '/'
}

/// The path under the cache root for a URL: everything after the first `//`,
/// or nothing when the URL has no `//` and cannot be mirrored.
pub fn cache_relative_path(url: &str) -> (r: Option<String>)
    ensures
        match r {
            Some(p) => exists|i: int|
                double_slash_at(url@, i) && (forall|j: int| 0 <= j < i ==> !double_slash_at(url@, j))
                    && p@ == url@.skip(i + 2),
            None => forall|i: int| !double_slash_at(url@, i),
        },
{
    let len = url.unicode_len();
    if len < 2 {
        return None;
    }
    let mut i: usize = 0;
    while i + 1 < len
        invariant
            len == url@.len(),
            0 <= i,
            i + 1 <= len,
            forall|j: int| 0 <= j < i ==> !double_slash_at(url@, j),
        decreases len - i,
    {
        if url.get_char(i) == '/' && url.get_char(i + 1) == '/' {
            let rest = url.substring_char(i + 2, len);
            let out = String::from_str(rest);
            proof {
                let w = i as int;
                assert(double_slash_at(url@, w) && (forall|j: int|
                    0 <= j < w ==> !double_slash_at(url@, j)) && out@ == url@.skip(w + 2));
            }
            return Some(out);
        }
        i = i + 1;
    }
    None
}

} // verus!

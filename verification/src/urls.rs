//! Rewriting of asset URLs from the source CDN prefix to the target asset
//! host, exactly as the records carry them: an empty URL stands for "no URL".
use vstd::prelude::*;
use vstd::string::StrSliceExecFns;
use vstd::string::StringExecFns;

verus! {

/// The CDN prefix that source records carry on every non-empty image URL.
pub open spec fn source_prefix() -> Seq<char> {
    "https://cdn.rebrickable.com/media"@
}

/// The asset-host prefix that replaces the CDN prefix in the model.
pub open spec fn target_prefix() -> Seq<char> {
    "https://briq-assets.spe.quebec"@
}

/// A URL the rewrite is defined on: empty, or carrying the CDN prefix.
pub open spec fn url_ok(u: Seq<char>) -> bool {
    ||| u.len() == 0
    ||| (u.len() >= source_prefix().len() && u.subrange(0, source_prefix().len() as int)
        == source_prefix())
}

/// What the rewrite yields: no URL for an empty URL, otherwise the target
/// prefix followed by everything after the source prefix.
pub open spec fn rewrite_url(u: Seq<char>) -> Option<Seq<char>> {
    if u.len() == 0 {
        None
    } else {
        Some(target_prefix() + u.skip(source_prefix().len() as int))
    }
}

/// Rewrites a record's image URL for the model: the CDN prefix becomes the
/// asset-host prefix, with the rest of the URL kept character for character;
/// an empty URL becomes `None`.
pub fn convert_asset_url(url: &str) -> (r: Option<String>)
    requires
        url_ok(url@),
    ensures
        match r {
            Some(s) => rewrite_url(url@) == Some(s@),
            None => rewrite_url(url@) is None,
        },
{
    proof {
        reveal_strlit("https://cdn.rebrickable.com/media");
    }
    if url.is_empty() {
        return None;
    }
    let len = url.unicode_len();
    let rest = url.substring_char(33, len);
    let out = String::from_str("https://briq-assets.spe.quebec").concat(rest);
    Some(out)
}

} // verus!

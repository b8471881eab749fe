//! Plain value types for the metadata service's id namespace, and the
//! one piece of its client that is pure computation: assembling an
//! image URL from the service's configuration parts.

use vstd::prelude::*;
use vstd::string::StringExecFns;

verus! {

/// A metadata-service id. The namespace is per kind: the same number
/// may identify both a movie and a show.
#[derive(Clone, Copy, Debug, PartialEq, Eq, Structural)]
pub struct TmdbId(pub i32);

/// One of the image sizes the metadata service offers, as its URL path
/// segment.
#[derive(Debug)]
pub struct ImageSize(pub String);

/// The image URL is the base, the size segment and the image path, in
/// that order, with nothing added.
pub fn build_image_url(base_url: &str, size: &ImageSize, image_path: &str) -> (r: String)
    ensures
        r@ == base_url@ + size.0@ + image_path@,
{
    let mut url = String::from_str(base_url);
    url.append(size.0.as_str());
    url.append(image_path);
    url
}

} // verus!

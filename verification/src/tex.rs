//! Handles and errors of the texture cache.

use vstd::prelude::*;

verus! {

/// Names one image held by a texture cache. Handles are issued in increasing
/// order by the cache and are never reused.
#[derive(Clone, Copy, Debug, PartialEq, Eq, Structural, PartialOrd, Ord, Hash)]
pub struct TexHandle(pub usize);

impl View for TexHandle {
    type V = nat;

    open spec fn view(&self) -> nat {
        self.0 as nat
    }
}

/// The error type of `std::io`, carried by the caches' error values and
/// otherwise not looked into.
#[verifier::external_type_specification]
#[verifier::external_body]
pub struct ExIoError(std::io::Error);

/// The error type of the `image` crate's decoders, carried by
/// `CacheTexError::ImageError` and otherwise not looked into.
#[verifier::external_type_specification]
#[verifier::external_body]
pub struct ExImageError(image::ImageError);

/// Why an image could not be cached.
#[derive(Debug)]
pub enum CacheTexError {
    /// The image is larger than a whole page of the cache, so it would not
    /// fit even if the cache were empty.
    CacheTooSmall,
    /// No page has room for the image and the cap on the number of pages
    /// forbids another one.
    NoSpace,
    /// The image's file could not be read.
    IoError(std::io::Error),
    /// The bytes could not be decoded as an image.
    ImageError(image::ImageError),
    /// The graphics backend does not support pages of the configured size.
    DimensionsNotSupported,
}

} // verus!

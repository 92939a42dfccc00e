//! Canonicalization schemes for deterministic CBOR serialization.

use vstd::prelude::*;

verus! {

/// Which canonicalization scheme to use for CBOR serialization.
#[derive(Copy, Clone, Debug, PartialEq, Eq, Structural)]
pub enum CanonicalizationScheme {
    /// Sort map keys according to RFC 7049's deterministic encoding:
    /// length-first, then bytewise. Also the backwards-compatible order of
    /// RFC 8949 section 4.2.3.
    Rfc7049,
    /// Sort map keys according to RFC 8949's deterministic encoding:
    /// bytewise lexicographic.
    Rfc8949,
}

/// Don't sort map key output.
pub struct NoCanonicalization;

/// Sort map keys in output according to RFC 7049's deterministic encoding:
/// length-first map key ordering, e.g. `["a", "b", "aa"]`.
pub struct Rfc7049;

/// Sort map keys in output according to RFC 8949's deterministic encoding:
/// bytewise lexicographic map key ordering, e.g. `["a", "aa", "b"]`.
pub struct Rfc8949;

/// A canonicalization scheme, chosen statically.
pub trait Canonicalization {
    /// The scheme to sort map keys by, if any.
    fn scheme() -> (r: Option<CanonicalizationScheme>)
        ensures
            r == Self::spec_scheme(),
    ;

    /// The scheme to sort map keys by, if any.
    spec fn spec_scheme() -> Option<CanonicalizationScheme>;
}

impl Canonicalization for NoCanonicalization {
    fn scheme() -> Option<CanonicalizationScheme> {
        None
    }

    open spec fn spec_scheme() -> Option<CanonicalizationScheme> {
        None
    }
}

impl Canonicalization for Rfc7049 {
    fn scheme() -> Option<CanonicalizationScheme> {
        Some(CanonicalizationScheme::Rfc7049)
    }

    open spec fn spec_scheme() -> Option<CanonicalizationScheme> {
        Some(CanonicalizationScheme::Rfc7049)
    }
}

impl Canonicalization for Rfc8949 {
    fn scheme() -> Option<CanonicalizationScheme> {
        Some(CanonicalizationScheme::Rfc8949)
    }

    open spec fn spec_scheme() -> Option<CanonicalizationScheme> {
        Some(CanonicalizationScheme::Rfc8949)
    }
}

} // verus!

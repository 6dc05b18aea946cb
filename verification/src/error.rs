use vstd::prelude::*;

verus! {

/// The part of the page markup that an extraction step expected but did not
/// find.
#[derive(Clone, Copy, PartialEq, Eq, Structural, Debug)]
pub enum MissingPart {
    /// The page has no title element at all.
    Title,
    /// The page holds no piece elements: there is no active game.
    Pieces,
    /// The page holds no player elements, so no orientation can be derived.
    Players,
}

/// Every way a request can fail. Each stage fails closed with one of these
/// instead of producing a partial board, notation string or image.
#[derive(Clone, Copy, PartialEq, Eq, Structural, Debug)]
pub enum Error {
    /// An expected markup element is absent.
    MarkupMissing(MissingPart),
    /// No player element's link target matches the requested subject.
    AmbiguousOrientation,
    /// A class or style attribute does not match the expected fixed
    /// vocabulary or format.
    MalformedAttribute,
    /// A sprite asset could not be provided to the renderer.
    AssetMissing,
    /// A computed pixel rectangle falls outside the image bounds.
    RenderBoundsExceeded,
}

} // verus!

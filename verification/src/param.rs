//! The parameter descriptor a scan step produces: an identifier tagged with
//! the source span of the bracketed token it came from.

use vstd::prelude::*;

use crate::diag::Span;
use crate::scan::ParamModel;

verus! {

/// An identifier paired with the span it occupies in the original source.
/// The identifier is kept as the raw bytes of the template text between the
/// delimiters, with any trailing `..` marker already stripped.
#[derive(Debug)]
pub struct SpannedIdent {
    pub node: Vec<u8>,
    pub span: Span,
}

impl SpannedIdent {
    /// The span neither runs backwards nor strays outside `outer`.
    pub open spec fn wf_within(self, outer: Span) -> bool {
        &&& outer.lo <= self.span.lo
        &&& self.span.lo <= self.span.hi
        &&& self.span.hi <= outer.hi
    }
}

/// One declared route parameter: either a `Single` parameter matching one
/// path segment, or a `Many` parameter (written with a trailing `..`)
/// matching the remainder of the path. Both carry the spanned identifier of
/// the bracketed token that declared them.
#[derive(Debug)]
pub enum Param {
    Single(SpannedIdent),
    Many(SpannedIdent),
}

impl Param {
    /// The spanned identifier wrapped by either variant.
    pub open spec fn spec_inner(self) -> SpannedIdent {
        match self {
            Param::Single(si) => si,
            Param::Many(si) => si,
        }
    }

    /// Whether this descriptor is the `Many` variant.
    pub open spec fn spec_is_many(self) -> bool {
        match self {
            Param::Single(_) => false,
            Param::Many(_) => true,
        }
    }

    /// The spanned identifier, whichever variant this is.
    pub fn inner(&self) -> (r: &SpannedIdent)
        ensures
            *r == self.spec_inner(),
    {
        match self {
            Param::Single(si) => si,
            Param::Many(si) => si,
        }
    }

    /// Just the identifier text, whichever variant this is.
    pub fn ident(&self) -> (r: &Vec<u8>)
        ensures
            r@ == self.spec_inner().node@,
    {
        match self {
            Param::Single(si) => &si.node,
            Param::Many(si) => &si.node,
        }
    }

    /// Whether this descriptor is the `Many` variant, for callers that
    /// generate different matching code for the two kinds.
    pub fn is_many(&self) -> (b: bool)
        ensures
            b == self.spec_is_many(),
    {
        match self {
            Param::Single(_) => false,
            Param::Many(_) => true,
        }
    }

    /// The descriptor agrees with the ghost model `m`: same kind, same
    /// identifier text, and a span at exactly the modelled offsets.
    pub open spec fn fits(self, m: ParamModel) -> bool {
        &&& self.spec_is_many() == m.many
        &&& self.spec_inner().node@ == m.ident
        &&& self.spec_inner().span.lo == m.lo
        &&& self.spec_inner().span.hi == m.hi
    }
}

} // verus!

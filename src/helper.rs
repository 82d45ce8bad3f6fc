use vstd::prelude::*;

use crate::json::ParseError;
use crate::json_object::{
    JsonObject, NodeVisit, collect_preorder, lemma_shift_zero, preorder, shift, views,
};

verus! {

/// Why a walk over a parse result reported no nodes.
#[derive(Debug, PartialEq, Eq)]
pub enum TraverseError {
    /// The document could not be read; the message says why.
    IoError(String),
    /// The parse found no document.
    NoJsonObject,
    /// The document was not enclosed in a matching pair of delimiters.
    StructuralError,
}

/// Two errors are of the same variant, with the same message.
pub open spec fn same_error(a: TraverseError, b: TraverseError) -> bool {
    match (a, b) {
        (TraverseError::IoError(x), TraverseError::IoError(y)) => x@ == y@,
        (TraverseError::NoJsonObject, TraverseError::NoJsonObject) => true,
        (TraverseError::StructuralError, TraverseError::StructuralError) => true,
        _ => false,
    }
}

/// `r` is what walking `parsed` gives: every node of a document, in depth-first pre-order
/// with depths; otherwise the error that says why there is no document.
pub open spec fn walk_of(
    parsed: Result<Option<Box<JsonObject>>, ParseError>,
    r: Result<Vec<NodeVisit>, TraverseError>,
) -> bool {
    match parsed {
        Ok(Some(o)) => r matches Ok(v) && views(v@) == o.nodes(),
        Ok(None) => r matches Err(TraverseError::NoJsonObject),
        Err(ParseError::IoFailure(m)) => r matches Err(TraverseError::IoError(m2)) && m2@ == m@,
        Err(ParseError::StructuralError) => r matches Err(TraverseError::StructuralError),
    }
}

/// Walks a parse result depth-first, in pre-order: each node, then (when its child count is
/// positive) all of its children and their descendants, then its next sibling. Reports each
/// node with its depth, top-level members at depth 0. The tree is only read.
pub fn traverse(parsed: &Result<Option<Box<JsonObject>>, ParseError>) -> (r: Result<
    Vec<NodeVisit>,
    TraverseError,
>)
    ensures
        walk_of(*parsed, r),
{
    match parsed {
        Ok(Some(jobj)) => {
            let mut out: Vec<NodeVisit> = Vec::new();
            collect_preorder(jobj.get_ptr(), 0, &mut out);
            proof {
                lemma_shift_zero(preorder(jobj.spec_ptr()));
                assert(views(out@) =~= shift(preorder(jobj.spec_ptr()), 0));
            }
            Ok(out)
        },
        Ok(None) => Err(TraverseError::NoJsonObject),
        Err(ParseError::IoFailure(m)) => Err(TraverseError::IoError(m.clone())),
        Err(ParseError::StructuralError) => Err(TraverseError::StructuralError),
    }
}

/// Walking the same parse result twice reports the same thing both times: the same nodes
/// with the same depths in the same order, or the same error.
pub proof fn lemma_traverse_repeatable(
    parsed: Result<Option<Box<JsonObject>>, ParseError>,
    r1: Result<Vec<NodeVisit>, TraverseError>,
    r2: Result<Vec<NodeVisit>, TraverseError>,
)
    requires
        walk_of(parsed, r1),
        walk_of(parsed, r2),
    ensures
        r1 is Ok <==> r2 is Ok,
        r1 is Ok ==> views(r1->Ok_0@) == views(r2->Ok_0@),
        r1 is Err ==> same_error(r1->Err_0, r2->Err_0),
{
}

} // verus!

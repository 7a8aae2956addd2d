//! What a lookup reports, shared by the locators of every language.
use crate::tree::{NodeRef, NodeView};
use vstd::prelude::*;
use vstd::string::StringSliceAdditionalSpecFns;

verus! {

/// The outcome of a lookup as the specifications describe it: the index of
/// the node found, or why there is none.
pub enum Located {
    Found(int),
    ParentNotFound,
    FunctionNotFound,
}

/// Why a lookup found no node. Each failure carries the identifier that did
/// not resolve.
#[derive(PartialEq, Eq, Debug)]
pub enum LocateError {
    /// A parent was named, and no container of that name exists.
    ParentNotFound { parent: String },
    /// No function or method of that name exists where it was searched for.
    FunctionNotFound { function: String },
}

/// `o` if there is a node, else `otherwise`.
pub open spec fn found_or(o: Option<int>, otherwise: Located) -> Located {
    match o {
        Some(i) => Located::Found(i),
        None => otherwise,
    }
}

/// The bytes of an optional identifier.
pub open spec fn name_bytes(name: Option<&str>) -> Option<Seq<u8>> {
    match name {
        Some(s) => Some(s.spec_bytes()),
        None => None,
    }
}

/// `r` is what a lookup on `t` with `parent` and `function` returns when the
/// outcome is `outcome`.
pub open spec fn reports(
    r: Result<NodeRef, LocateError>,
    outcome: Located,
    t: Seq<NodeView>,
    parent: Option<&str>,
    function: Option<&str>,
) -> bool {
    match outcome {
        Located::Found(i) => r == Ok::<NodeRef, LocateError>(NodeRef::of(t, i)),
        Located::ParentNotFound => match (r, parent) {
            (Err(LocateError::ParentNotFound { parent: named }), Some(p)) => named@ == p@,
            _ => false,
        },
        Located::FunctionNotFound => match (r, function) {
            (Err(LocateError::FunctionNotFound { function: named }), Some(f)) => named@ == f@,
            _ => false,
        },
    }
}

/// The error for a parent that does not resolve.
pub fn parent_not_found(parent: &str) -> (e: LocateError)
    ensures
        e matches LocateError::ParentNotFound { parent: named } && named@ == parent@,
{
    LocateError::ParentNotFound { parent: String::from_str(parent) }
}

/// The error for a function that does not resolve.
pub fn function_not_found(function: &str) -> (e: LocateError)
    ensures
        e matches LocateError::FunctionNotFound { function: named } && named@ == function@,
{
    LocateError::FunctionNotFound { function: String::from_str(function) }
}

} // verus!

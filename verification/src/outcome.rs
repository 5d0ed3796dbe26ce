//! The overall outcome of one compile request.
//!
//! The external renderer produces one artifact per page; a document that
//! produced no pages at all is a terminal failure of the compile call.
use vstd::prelude::*;

verus! {

/// Why a compile call failed after the compiler itself succeeded.
#[derive(Clone, Copy, PartialEq, Eq, Structural, Debug)]
pub enum RenderFailure {
    /// The compiled document holds no pages.
    NoPagesProduced,
}

/// Turns the per-page artifacts of a compiled document into the compile
/// call's result: the pages as they are, or a failure when there is none.
pub fn finish_pages(pages: Vec<String>) -> (r: Result<Vec<String>, RenderFailure>)
    ensures
        pages@.len() > 0 ==> (r matches Ok(p) && p == pages),
        pages@.len() == 0 ==> r matches Err(RenderFailure::NoPagesProduced),
{
    if pages.len() == 0 {
        Err(RenderFailure::NoPagesProduced)
    } else {
        Ok(pages)
    }
}

} // verus!
